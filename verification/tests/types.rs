use num_bigint::BigUint;
use xtralib::numeric::NumericError;
use xtralib::rlp::deserializer::RlpDeserializer;
use xtralib::rlp::parse::Rlp;
use xtralib::rlp::RlpError;
use xtralib::types::body::signature_from_bytes;
use xtralib::types::record::Record;
use xtralib::types::{
    BlockBody, BlockHash, BlockHeader, ByteArray, ByteVec, Log, NiceBigUint, NiceVec, PostState,
    Receipts, To, TotalDifficulty, Transaction, TransactionReceipt,
};

fn big(number: u64) -> NiceBigUint {
    NiceBigUint::new(BigUint::from(number).to_u32_digits())
}

// The body of block number 4.
fn block_4_body() -> Vec<u8> {
    vec![
        249, 2, 31, 192, 249, 2, 27, 249, 2, 24, 160, 212, 229, 103, 64, 248, 118, 174, 248, 192,
        16, 184, 106, 64, 213, 245, 103, 69, 161, 24, 208, 144, 106, 52, 230, 154, 236, 140, 13,
        177, 203, 143, 163, 160, 29, 204, 77, 232, 222, 199, 93, 122, 171, 133, 181, 103, 182,
        204, 212, 26, 211, 18, 69, 27, 148, 138, 116, 19, 240, 161, 66, 253, 64, 212, 147, 71,
        148, 80, 136, 214, 35, 186, 15, 207, 1, 49, 224, 137, 122, 145, 115, 74, 77, 131, 89,
        106, 160, 160, 154, 101, 151, 178, 106, 220, 14, 89, 21, 207, 204, 165, 55, 186, 73, 58,
        100, 124, 173, 28, 60, 146, 61, 64, 108, 222, 198, 202, 73, 160, 160, 109, 160, 86, 232,
        31, 23, 27, 204, 85, 166, 255, 131, 69, 230, 146, 192, 248, 110, 91, 72, 224, 27, 153,
        108, 173, 192, 1, 98, 47, 181, 227, 99, 180, 33, 160, 86, 232, 31, 23, 27, 204, 85, 166,
        255, 131, 69, 230, 146, 192, 248, 110, 91, 72, 224, 27, 153, 108, 173, 192, 1, 98, 47,
        181, 227, 99, 180, 33, 185, 1, 0, 0, 0, 0, 0, 0, 0, 0, 0, 0, 0, 0, 0, 0, 0, 0, 0, 0, 0,
        0, 0, 0, 0, 0, 0, 0, 0, 0, 0, 0, 0, 0, 0, 0, 0, 0, 0, 0, 0, 0, 0, 0, 0, 0, 0, 0, 0, 0, 0,
        0, 0, 0, 0, 0, 0, 0, 0, 0, 0, 0, 0, 0, 0, 0, 0, 0, 0, 0, 0, 0, 0, 0, 0, 0, 0, 0, 0, 0, 0,
        0, 0, 0, 0, 0, 0, 0, 0, 0, 0, 0, 0, 0, 0, 0, 0, 0, 0, 0, 0, 0, 0, 0, 0, 0, 0, 0, 0, 0, 0,
        0, 0, 0, 0, 0, 0, 0, 0, 0, 0, 0, 0, 0, 0, 0, 0, 0, 0, 0, 0, 0, 0, 0, 0, 0, 0, 0, 0, 0, 0,
        0, 0, 0, 0, 0, 0, 0, 0, 0, 0, 0, 0, 0, 0, 0, 0, 0, 0, 0, 0, 0, 0, 0, 0, 0, 0, 0, 0, 0, 0,
        0, 0, 0, 0, 0, 0, 0, 0, 0, 0, 0, 0, 0, 0, 0, 0, 0, 0, 0, 0, 0, 0, 0, 0, 0, 0, 0, 0, 0, 0,
        0, 0, 0, 0, 0, 0, 0, 0, 0, 0, 0, 0, 0, 0, 0, 0, 0, 0, 0, 0, 0, 0, 0, 0, 0, 0, 0, 0, 0, 0,
        0, 0, 0, 0, 0, 0, 0, 0, 0, 0, 0, 0, 0, 0, 0, 0, 0, 0, 0, 0, 0, 0, 0, 0, 0, 0, 0, 0, 133,
        3, 255, 128, 0, 0, 1, 130, 19, 136, 128, 132, 85, 186, 66, 55, 160, 71, 101, 116, 104,
        47, 118, 49, 46, 48, 46, 48, 45, 102, 99, 55, 57, 100, 51, 50, 100, 47, 108, 105, 110,
        117, 120, 47, 103, 111, 49, 46, 52, 160, 208, 69, 184, 82, 119, 1, 96, 218, 22, 158, 199,
        147, 236, 12, 110, 111, 245, 98, 228, 115, 178, 191, 63, 129, 146, 220, 89, 132, 46, 54,
        247, 84, 136, 219, 130, 26, 119, 91, 249, 218, 206,
    ]
}

// The body of block number 46147. It contains the first mainnet transaction.
fn block_46147_body() -> Vec<u8> {
    vec![
        0xf8, 0x6c, 0xf8, 0x69, 0xf8, 0x67, 0x80, 0x86, 0x2d, 0x79, 0x88, 0x3d, 0x20, 0x00, 0x82,
        0x52, 0x08, 0x94, 0x5d, 0xf9, 0xb8, 0x79, 0x91, 0x26, 0x2f, 0x6b, 0xa4, 0x71, 0xf0, 0x97,
        0x58, 0xcd, 0xe1, 0xc0, 0xfc, 0x1d, 0xe7, 0x34, 0x82, 0x7a, 0x69, 0x80, 0x1c, 0xa0, 0x88,
        0xff, 0x6c, 0xf0, 0xfe, 0xfd, 0x94, 0xdb, 0x46, 0x11, 0x11, 0x49, 0xae, 0x4b, 0xfc, 0x17,
        0x9e, 0x9b, 0x94, 0x72, 0x1f, 0xff, 0xd8, 0x21, 0xd3, 0x8d, 0x16, 0x46, 0x4b, 0x3f, 0x71,
        0xd0, 0xa0, 0x45, 0xe0, 0xaf, 0xf8, 0x00, 0x96, 0x1c, 0xfc, 0xe8, 0x05, 0xda, 0xef, 0x70,
        0x16, 0xb9, 0xb6, 0x75, 0xc1, 0x37, 0xa6, 0xa4, 0x1a, 0x54, 0x8f, 0x7b, 0x60, 0xa3, 0x48,
        0x4c, 0x06, 0xa3, 0x3a, 0xc0,
    ]
}

fn first_transaction() -> Transaction {
    Transaction {
        nonce: 0,
        gas_price: big(50000000000000_u64),
        gas: 21000,
        to: To::Address(ByteArray::<20>([
            0x5d, 0xf9, 0xb8, 0x79, 0x91, 0x26, 0x2f, 0x6b, 0xa4, 0x71, 0xf0, 0x97, 0x58, 0xcd,
            0xe1, 0xc0, 0xfc, 0x1d, 0xe7, 0x34,
        ])),
        value: big(31337),
        data: ByteVec(vec![0_u8]),
        v: 28_u8,
        r: ByteArray::<32>([
            0x88, 0xff, 0x6c, 0xf0, 0xfe, 0xfd, 0x94, 0xdb, 0x46, 0x11, 0x11, 0x49, 0xae, 0x4b,
            0xfc, 0x17, 0x9e, 0x9b, 0x94, 0x72, 0x1f, 0xff, 0xd8, 0x21, 0xd3, 0x8d, 0x16, 0x46,
            0x4b, 0x3f, 0x71, 0xd0,
        ]),
        s: ByteArray::<32>([
            0x45, 0xe0, 0xaf, 0xf8, 0x00, 0x96, 0x1c, 0xfc, 0xe8, 0x05, 0xda, 0xef, 0x70, 0x16,
            0xb9, 0xb6, 0x75, 0xc1, 0x37, 0xa6, 0xa4, 0x1a, 0x54, 0x8f, 0x7b, 0x60, 0xa3, 0x48,
            0x4c, 0x06, 0xa3, 0x3a,
        ]),
    }
}

#[test]
fn test_body_deserialize() {
    let body_input = block_46147_body();
    let mut body_deserializer = RlpDeserializer::new(&body_input).unwrap();
    let body = BlockBody::decode(&mut body_deserializer).unwrap();

    let body_expected = BlockBody {
        transactions: NiceVec(vec![first_transaction()]),
        uncles: NiceVec(vec![]),
    };
    assert_eq!(body, body_expected);
}

#[test]
fn test_difficulty_deserialize() {
    // These are the total difficulties of blocks 2 and 1000
    let diff1_input: Vec<u8> = vec![0x85, 0x0b, 0xfe, 0x80, 0x10, 0x00];
    let diff2_input: Vec<u8> = vec![0x86, 0x14, 0x06, 0xe2, 0x2e, 0x34, 0xf5];

    let mut diff_deserializer1 = RlpDeserializer::new(&diff1_input).unwrap();
    let mut diff_deserializer2 = RlpDeserializer::new(&diff2_input).unwrap();

    let diff1 = TotalDifficulty::decode(&mut diff_deserializer1).unwrap();
    let diff2 = TotalDifficulty::decode(&mut diff_deserializer2).unwrap();

    assert_eq!(diff1, TotalDifficulty(big(51_514_445_824_u64)));
    assert_eq!(diff2, TotalDifficulty(big(22_019_797_038_325_u64)));
}

#[test]
fn test_receipt_deserialize() {
    // This is the receipt of the first transaction on mainnet in block 46147
    let receipt_input: Vec<u8> = vec![
        0xe6, 0xe5, 0xa0, 0x96, 0xa8, 0xe0, 0x09, 0xd2, 0xb8, 0x8b, 0x14, 0x83, 0xe6, 0x94, 0x1e,
        0x68, 0x12, 0xe3, 0x22, 0x63, 0xb0, 0x56, 0x83, 0xfa, 0xc2, 0x02, 0xab, 0xc6, 0x22, 0xa3,
        0xe3, 0x1a, 0xed, 0x19, 0x57, 0x82, 0x52, 0x08, 0xc0,
    ];

    let receipt_expected = Receipts(NiceVec(vec![TransactionReceipt {
        post_state: PostState::State(ByteArray::<32>([
            0x96, 0xa8, 0xe0, 0x09, 0xd2, 0xb8, 0x8b, 0x14, 0x83, 0xe6, 0x94, 0x1e, 0x68, 0x12,
            0xe3, 0x22, 0x63, 0xb0, 0x56, 0x83, 0xfa, 0xc2, 0x02, 0xab, 0xc6, 0x22, 0xa3, 0xe3,
            0x1a, 0xed, 0x19, 0x57,
        ])),
        cum_gas_used: big(21000),
        logs: NiceVec(vec![]),
    }]));

    let mut receipt_deserializer = RlpDeserializer::new(&receipt_input).unwrap();
    let receipt = Receipts::decode(&mut receipt_deserializer).unwrap();

    assert_eq!(receipt, receipt_expected);
}

#[test]
fn total_difficulty_is_the_big_endian_number() {
    let difficulty =
        TotalDifficulty::from_rlp(&[0x85, 0x0b, 0xfe, 0x80, 0x10, 0x00]).unwrap();
    assert_eq!(difficulty.0.to_decimal(), "51514445824");
    assert_eq!(difficulty.0.to_u32_digits(), vec![0xfe801000, 0x0b]);
    assert_eq!(
        BigUint::new(difficulty.0.to_u32_digits()),
        BigUint::from_bytes_be(&[0x0b, 0xfe, 0x80, 0x10, 0x00])
    );
}

#[test]
fn total_difficulty_of_many_bytes() {
    let mut input = vec![0x8d_u8];
    let payload = [1_u8, 2, 3, 4, 5, 6, 7, 8, 9, 10, 11, 12, 13];
    input.extend_from_slice(&payload);
    let difficulty = TotalDifficulty::from_rlp(&input).unwrap();
    assert_eq!(
        BigUint::new(difficulty.0.to_u32_digits()),
        BigUint::from_bytes_be(&payload)
    );
    assert_eq!(
        difficulty.0.to_decimal(),
        BigUint::from_bytes_be(&payload).to_str_radix(10)
    );
}

#[test]
fn total_difficulty_of_small_numbers() {
    assert_eq!(TotalDifficulty::from_rlp(&[0x80]), Ok(TotalDifficulty(big(0))));
    assert_eq!(TotalDifficulty::from_rlp(&[0x00]), Ok(TotalDifficulty(big(0))));
    assert_eq!(TotalDifficulty::from_rlp(&[0x7f]), Ok(TotalDifficulty(big(127))));
    assert_eq!(
        TotalDifficulty::from_rlp(&[0x84, 0, 0, 1, 0]),
        Ok(TotalDifficulty(big(256)))
    );
    assert_eq!(
        TotalDifficulty::from_rlp(&[0x88, 0, 0, 0, 0, 0, 0, 0, 9]),
        Ok(TotalDifficulty(big(9)))
    );
}

#[test]
fn total_difficulty_needs_a_byte_string() {
    assert_eq!(TotalDifficulty::from_rlp(&[]), Err(RlpError::NoInputLeft));
    assert_eq!(TotalDifficulty::from_rlp(&[0xc0]), Err(RlpError::NoInputLeft));
    assert_eq!(TotalDifficulty::from_rlp(&[0xb8, 0x00]), Err(RlpError::NoInputLeft));
    assert_eq!(
        TotalDifficulty::from_rlp(&[0xc1, 0x05]),
        Err(RlpError::UnexpectedMatch)
    );
    assert_eq!(TotalDifficulty::from_rlp(&[0x85, 0x0b]), Err(RlpError::NoMatch));
}

#[test]
fn big_numbers_drop_zeros_in_the_highest_places() {
    assert_eq!(NiceBigUint::new(vec![5, 0, 0]), NiceBigUint::new(vec![5]));
    assert_eq!(NiceBigUint::new(vec![0]), NiceBigUint::new(vec![]));
    assert_eq!(NiceBigUint::new(vec![0, 1, 0]).to_u32_digits(), vec![0, 1]);
    assert_eq!(NiceBigUint::new(vec![]).to_u32_digits(), Vec::<u32>::new());
}

#[test]
fn big_numbers_in_decimal() {
    assert_eq!(NiceBigUint::new(vec![]).to_decimal(), "0");
    assert_eq!(NiceBigUint::new(vec![9]).to_decimal(), "9");
    assert_eq!(NiceBigUint::new(vec![10]).to_decimal(), "10");
    assert_eq!(NiceBigUint::new(vec![0, 1]).to_decimal(), "4294967296");
    assert_eq!(
        NiceBigUint::new(vec![u32::MAX, u32::MAX, u32::MAX]).to_decimal(),
        "79228162514264337593543950335"
    );
}

#[test]
fn byte_arrays_and_vectors_as_text() {
    assert_eq!(ByteArray::<3>([0x00, 0xab, 0x1f]).to_hex(), "0x00ab1f");
    assert_eq!(ByteArray::<0>([]).to_hex(), "0x");
    assert_eq!(ByteVec(vec![0xff, 0x09, 0x90]).to_hex(), "0xff0990");
    assert_eq!(ByteVec(vec![]).to_hex(), "0x");
    let all: Vec<u8> = (0..=255).collect();
    let mut expected = String::from("0x");
    for byte in &all {
        expected.push_str(&format!("{:02x}", byte));
    }
    assert_eq!(ByteVec(all).to_hex(), expected);
}

#[test]
fn byte_array_from_slices() {
    assert_eq!(ByteArray::<3>::from_slice(&[7, 8, 9]), ByteArray([7, 8, 9]));
    assert_eq!(ByteArray::<4>::left_padded(&[8, 9]), ByteArray([0, 0, 8, 9]));
    assert_eq!(ByteArray::<2>::left_padded(&[8, 9]), ByteArray([8, 9]));
    assert_eq!(ByteArray::<2>::left_padded(&[]), ByteArray([0, 0]));
}

#[test]
fn nice_vec_default_is_empty() {
    assert_eq!(NiceVec::<u8>::default(), NiceVec(vec![]));
}

#[test]
fn receiver_of_a_transaction() {
    assert_eq!(To::from_bytes(&[0]), Ok(To::ContractCreation(ByteArray([0]))));
    assert_eq!(To::from_bytes(&[0x55]), Ok(To::ContractCreation(ByteArray([0]))));
    assert_eq!(To::from_bytes(&[7; 20]), Ok(To::Address(ByteArray([7; 20]))));
    assert_eq!(
        To::from_bytes(&[7; 19]),
        Err(RlpError::Conversion(NumericError::Conversion { expected: 20, found: 19 }))
    );
    assert_eq!(
        To::from_bytes(&[]),
        Err(RlpError::Conversion(NumericError::Conversion { expected: 20, found: 0 }))
    );
    assert_eq!(
        To::from_bytes(&[7; 21]),
        Err(RlpError::Conversion(NumericError::Conversion { expected: 20, found: 21 }))
    );
}

#[test]
fn signature_gets_its_zeros_back() {
    let mut expected = [0_u8; 32];
    expected[30] = 0xab;
    expected[31] = 0xcd;
    assert_eq!(signature_from_bytes(&[0xab, 0xcd]), Ok(ByteArray(expected)));
    assert_eq!(signature_from_bytes(&[]), Ok(ByteArray([0; 32])));
    assert_eq!(signature_from_bytes(&[9; 32]), Ok(ByteArray([9; 32])));
    assert_eq!(
        signature_from_bytes(&[9; 33]),
        Err(RlpError::Conversion(NumericError::Conversion { expected: 32, found: 33 }))
    );
}

#[test]
fn outcome_of_a_transaction() {
    assert_eq!(PostState::from_bytes(&[1]), Ok(PostState::Success(true)));
    assert_eq!(PostState::from_bytes(&[0]), Ok(PostState::Success(false)));
    assert_eq!(PostState::from_bytes(&[2]), Ok(PostState::Success(false)));
    assert_eq!(PostState::from_bytes(&[3; 32]), Ok(PostState::State(ByteArray([3; 32]))));
    assert_eq!(
        PostState::from_bytes(&[3; 31]),
        Err(RlpError::Conversion(NumericError::Conversion { expected: 32, found: 31 }))
    );
    assert_eq!(
        PostState::from_bytes(&[]),
        Err(RlpError::Conversion(NumericError::Conversion { expected: 32, found: 0 }))
    );
}

#[test]
fn body_of_block_4() {
    let body = BlockBody::from_rlp(&block_4_body()).unwrap();
    assert!(body.transactions.0.is_empty());
    assert_eq!(body.uncles.0.len(), 1);
    let uncle = &body.uncles.0[0];
    assert_eq!(uncle.parent_hash.0[..4], [212, 229, 103, 64]);
    assert_eq!(uncle.sha3_uncles.0[..4], [29, 204, 77, 232]);
    assert_eq!(uncle.miner.0[..4], [80, 136, 214, 35]);
    assert_eq!(uncle.logs_bloom, ByteArray([0; 256]));
    assert_eq!(uncle.difficulty, big(0x03ff800000));
    assert_eq!(uncle.number, 1);
    assert_eq!(uncle.gas_limit, 5000);
    assert_eq!(uncle.gas_used, 0);
    assert_eq!(uncle.timestamp, 0x55ba4237);
    assert_eq!(uncle.extra_data, ByteVec(b"Geth/v1.0.0-fc79d32d/linux/go1.4".to_vec()));
    assert_eq!(uncle.mix_hash.0[..4], [208, 69, 184, 82]);
    assert_eq!(uncle.nonce, ByteArray([219, 130, 26, 119, 91, 249, 218, 206]));
}

#[test]
fn body_from_rlp_is_what_decode_reads() {
    let input = block_46147_body();
    let mut de = RlpDeserializer::new(&input).unwrap();
    assert_eq!(BlockBody::from_rlp(&input), BlockBody::decode(&mut de));
    assert_eq!(
        BlockBody::from_rlp(&input).unwrap().transactions,
        NiceVec(vec![first_transaction()])
    );
}

#[test]
fn body_without_transactions_and_uncles() {
    assert_eq!(
        BlockBody::from_rlp(&[0xc2, 0xc0, 0xc0]),
        Ok(BlockBody { transactions: NiceVec(vec![]), uncles: NiceVec(vec![]) })
    );
}

#[test]
fn body_that_is_cut_short() {
    let input = block_46147_body();
    assert_eq!(BlockBody::from_rlp(&input[..50]), Err(RlpError::NoMatch));
    assert_eq!(BlockBody::from_rlp(&[]), Err(RlpError::NoInputLeft));
    // a list with one member only
    assert_eq!(BlockBody::from_rlp(&[0xc1, 0xc0]), Err(RlpError::NoInputLeft));
    // a byte string where the list of transactions should be: read as a list
    // of transactions, its first byte is no list to step into
    assert_eq!(
        BlockBody::from_rlp(&[0xc3, 0x81, 0x99, 0xc0]),
        Err(RlpError::NoInputLeft)
    );
}

#[test]
fn decoding_twice_gives_the_same() {
    let input = block_46147_body();
    assert_eq!(BlockBody::from_rlp(&input), BlockBody::from_rlp(&input));
    let difficulty = [0x85_u8, 0x0b, 0xfe, 0x80, 0x10, 0x00];
    assert_eq!(
        TotalDifficulty::from_rlp(&difficulty),
        TotalDifficulty::from_rlp(&difficulty)
    );
}

#[test]
fn transaction_that_creates_a_contract() {
    // nonce 1, gas price 2, gas 3, no receiver, value 4, data 0x0506, v 27, r 8, s 9
    let input = [0xca_u8, 0x01, 0x02, 0x03, 0x80, 0x04, 0x82, 0x05, 0x06, 0x1b, 0x08, 0x09];
    let mut de = RlpDeserializer::new(&input).unwrap();
    let mut r = [0_u8; 32];
    r[31] = 8;
    let mut s = [0_u8; 32];
    s[31] = 9;
    assert_eq!(
        Transaction::decode(&mut de),
        Ok(Transaction {
            nonce: 1,
            gas_price: big(2),
            gas: 3,
            to: To::ContractCreation(ByteArray([0])),
            value: big(4),
            data: ByteVec(vec![5, 6]),
            v: 27,
            r: ByteArray(r),
            s: ByteArray(s),
        })
    );
}

#[test]
fn transaction_with_a_receiver_of_the_wrong_length() {
    let input = [0xcb_u8, 0x01, 0x02, 0x03, 0x82, 0x01, 0x02, 0x04, 0x05, 0x1b, 0x08, 0x09, 0x0a];
    let mut de = RlpDeserializer::new(&input).unwrap();
    assert_eq!(
        Transaction::decode(&mut de),
        Err(RlpError::Conversion(NumericError::Conversion { expected: 20, found: 2 }))
    );
}

#[test]
fn block_hash_of_32_bytes() {
    let mut input = vec![0xa0_u8];
    input.extend(1..=32_u8);
    let mut expected = [0_u8; 32];
    for (i, byte) in expected.iter_mut().enumerate() {
        *byte = i as u8 + 1;
    }
    assert_eq!(BlockHash::from_rlp(&input), Ok(BlockHash(ByteArray(expected))));
    assert_eq!(BlockHash::from_rlp(&input[..32]), Err(RlpError::NoMatch));
    assert_eq!(BlockHash::from_rlp(&[0x83, 1, 2, 3]), Err(RlpError::NoInputLeft));
    assert_eq!(BlockHash::from_rlp(&[0x80]), Ok(BlockHash(ByteArray([0; 32]))));
    assert_eq!(BlockHash::from_rlp(&[0xc1, 0x01]), Err(RlpError::UnexpectedMatch));
}

#[test]
fn header_from_rlp() {
    let body = block_4_body();
    // the header of the uncle stands behind the prefixes of three lists and
    // the empty list of transactions
    let header = BlockHeader::from_rlp(&body[7..]).unwrap();
    assert_eq!(header.number, 1);
    assert_eq!(header, BlockBody::from_rlp(&body).unwrap().uncles.0[0]);
    assert_eq!(BlockHeader::from_rlp(&body[7..100]), Err(RlpError::NoMatch));
}

#[test]
fn receipts_after_the_state_root_was_dropped() {
    // one receipt: success, 21000 gas used, no logs
    let input = [0xc6_u8, 0xc5, 0x01, 0x82, 0x52, 0x08, 0xc0];
    assert_eq!(
        Receipts::from_rlp(&input),
        Ok(Receipts(NiceVec(vec![TransactionReceipt {
            post_state: PostState::Success(true),
            cum_gas_used: big(21000),
            logs: NiceVec(vec![]),
        }])))
    );
}

#[test]
fn receipts_of_two_transactions() {
    let input = [
        0xcc_u8, 0xc5, 0x01, 0x82, 0x52, 0x08, 0xc0, 0xc5, 0x80, 0x82, 0xa4, 0x10, 0xc0,
    ];
    assert_eq!(
        Receipts::from_rlp(&input),
        Ok(Receipts(NiceVec(vec![
            TransactionReceipt {
                post_state: PostState::Success(true),
                cum_gas_used: big(21000),
                logs: NiceVec(vec![]),
            },
            TransactionReceipt {
                post_state: PostState::Success(false),
                cum_gas_used: big(42000),
                logs: NiceVec(vec![]),
            },
        ])))
    );
}

#[test]
fn receipts_of_a_block_without_transactions() {
    assert_eq!(Receipts::from_rlp(&[0xc0]), Err(RlpError::NoInputLeft));
}

#[test]
fn log_without_topics() {
    let mut input = vec![0xf8_u8, 0];
    input.push(0x94);
    input.extend_from_slice(&[0x11; 20]);
    input.push(0xc0);
    input.extend_from_slice(&[0x82, 0xaa, 0xbb]);
    input.push(0x07);
    input.push(0xa0);
    input.extend_from_slice(&[0x22; 32]);
    input.push(0x03);
    input.push(0xa0);
    input.extend_from_slice(&[0x33; 32]);
    input.push(0x05);
    input.push(0x01);
    input[1] = (input.len() - 2) as u8;
    let mut de = RlpDeserializer::new(&input).unwrap();
    assert_eq!(
        Log::decode(&mut de),
        Ok(Log {
            address: ByteArray([0x11; 20]),
            topics: NiceVec(vec![]),
            data: ByteVec(vec![0xaa, 0xbb]),
            block_number: 7,
            tx_hash: ByteArray([0x22; 32]),
            tx_index: 3,
            block_hash: ByteArray([0x33; 32]),
            log_index: 5,
            removed: true,
        })
    );
    assert_eq!(de.pop_stack(), Ok(Rlp::Bytes(&[])));
}

#[test]
fn log_with_topics_has_no_byte_string_at_hand() {
    let mut input = vec![0xf8_u8, 0];
    input.push(0x94);
    input.extend_from_slice(&[0x11; 20]);
    // a list of one topic
    input.push(0xe1);
    input.push(0xa0);
    input.extend_from_slice(&[0x44; 32]);
    input[1] = (input.len() - 2) as u8;
    let mut de = RlpDeserializer::new(&input).unwrap();
    assert_eq!(Log::decode(&mut de), Err(RlpError::UnexpectedMatch));
}
