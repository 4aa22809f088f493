use xtralib::rlp::tree::{
    decode, match_byte, match_empty, match_long_list, match_long_str, match_short_list,
    match_short_str, usize_from_u8, Rlp,
};
use xtralib::rlp::RlpError;

// The body of block number 4.
fn block_4_body() -> Vec<u8> {
    vec![
        249, 2, 31, 192, 249, 2, 27, 249, 2, 24, 160, 212, 229, 103, 64, 248, 118, 174, 248, 192,
        16, 184, 106, 64, 213, 245, 103, 69, 161, 24, 208, 144, 106, 52, 230, 154, 236, 140, 13,
        177, 203, 143, 163, 160, 29, 204, 77, 232, 222, 199, 93, 122, 171, 133, 181, 103, 182,
        204, 212, 26, 211, 18, 69, 27, 148, 138, 116, 19, 240, 161, 66, 253, 64, 212, 147, 71,
        148, 80, 136, 214, 35, 186, 15, 207, 1, 49, 224, 137, 122, 145, 115, 74, 77, 131, 89,
        106, 160, 160, 154, 101, 151, 178, 106, 220, 14, 89, 21, 207, 204, 165, 55, 186, 73, 58,
        100, 124, 173, 28, 60, 146, 61, 64, 108, 222, 198, 202, 73, 160, 160, 109, 160, 86, 232,
        31, 23, 27, 204, 85, 166, 255, 131, 69, 230, 146, 192, 248, 110, 91, 72, 224, 27, 153,
        108, 173, 192, 1, 98, 47, 181, 227, 99, 180, 33, 160, 86, 232, 31, 23, 27, 204, 85, 166,
        255, 131, 69, 230, 146, 192, 248, 110, 91, 72, 224, 27, 153, 108, 173, 192, 1, 98, 47,
        181, 227, 99, 180, 33, 185, 1, 0, 0, 0, 0, 0, 0, 0, 0, 0, 0, 0, 0, 0, 0, 0, 0, 0, 0, 0,
        0, 0, 0, 0, 0, 0, 0, 0, 0, 0, 0, 0, 0, 0, 0, 0, 0, 0, 0, 0, 0, 0, 0, 0, 0, 0, 0, 0, 0, 0,
        0, 0, 0, 0, 0, 0, 0, 0, 0, 0, 0, 0, 0, 0, 0, 0, 0, 0, 0, 0, 0, 0, 0, 0, 0, 0, 0, 0, 0, 0,
        0, 0, 0, 0, 0, 0, 0, 0, 0, 0, 0, 0, 0, 0, 0, 0, 0, 0, 0, 0, 0, 0, 0, 0, 0, 0, 0, 0, 0, 0,
        0, 0, 0, 0, 0, 0, 0, 0, 0, 0, 0, 0, 0, 0, 0, 0, 0, 0, 0, 0, 0, 0, 0, 0, 0, 0, 0, 0, 0, 0,
        0, 0, 0, 0, 0, 0, 0, 0, 0, 0, 0, 0, 0, 0, 0, 0, 0, 0, 0, 0, 0, 0, 0, 0, 0, 0, 0, 0, 0, 0,
        0, 0, 0, 0, 0, 0, 0, 0, 0, 0, 0, 0, 0, 0, 0, 0, 0, 0, 0, 0, 0, 0, 0, 0, 0, 0, 0, 0, 0, 0,
        0, 0, 0, 0, 0, 0, 0, 0, 0, 0, 0, 0, 0, 0, 0, 0, 0, 0, 0, 0, 0, 0, 0, 0, 0, 0, 0, 0, 0, 0,
        0, 0, 0, 0, 0, 0, 0, 0, 0, 0, 0, 0, 0, 0, 0, 0, 0, 0, 0, 0, 0, 0, 0, 0, 0, 0, 0, 0, 133,
        3, 255, 128, 0, 0, 1, 130, 19, 136, 128, 132, 85, 186, 66, 55, 160, 71, 101, 116, 104,
        47, 118, 49, 46, 48, 46, 48, 45, 102, 99, 55, 57, 100, 51, 50, 100, 47, 108, 105, 110,
        117, 120, 47, 103, 111, 49, 46, 52, 160, 208, 69, 184, 82, 119, 1, 96, 218, 22, 158, 199,
        147, 236, 12, 110, 111, 245, 98, 228, 115, 178, 191, 63, 129, 146, 220, 89, 132, 46, 54,
        247, 84, 136, 219, 130, 26, 119, 91, 249, 218, 206,
    ]
}

#[test]
fn rlp_test_rlp_decode() {
    let vec = block_4_body();
    let _rlp = decode(&vec[..]).unwrap();
}

#[test]
fn test_rlp_u8_from_usize() {
    let first = vec![0_u8];
    let second = vec![0xff_u8];
    let third = vec![0x2a_u8, 0xac_u8];

    assert_eq!(usize_from_u8(&first[..]), 0_usize);
    assert_eq!(usize_from_u8(&second[..]), 255_usize);
    assert_eq!(usize_from_u8(&third[..]), 10924_usize);
}

#[test]
fn rlp_test_rlp_match_empty() {
    let first = vec![0xc0_u8];
    let second = vec![0x80_u8];
    let third = vec![0x02_u8];

    assert_eq!(match_empty(&first[..]), (Some(Rlp::EmptyList), &first[1..]));
    assert_eq!(
        match_empty(&second[..]),
        (Some(Rlp::EmptyString), &second[1..])
    );
    assert_eq!(match_empty(&third[..]), (None, &third[..]));
}

#[test]
fn rlp_test_rlp_match_byte() {
    let first = vec![0x1b_u8];
    let second = vec![0x80_u8];

    assert_eq!(match_byte(&first[..]), (Some(Rlp::Byte(0x1b)), &first[1..]));
    assert_eq!(match_byte(&second[..]), (None, &second[..]));
}

#[test]
fn rlp_test_rlp_match_short_str() {
    let vec = vec![0x83, b'c', b'a', b't', b'X'];

    assert_eq!(
        match_short_str(&vec[..], vec.len()),
        (Some(Rlp::Bytes(vec![b'c', b'a', b't'])), &vec[4..])
    );
}

#[test]
fn rlp_test_rlp_match_long_str() {
    let mut vec = vec![0xb8_u8, 0xaa_u8];
    vec.extend(std::iter::repeat(b'a').take(170));
    vec.push(b'X');

    assert_eq!(
        match_long_str(&vec[..], vec.len()),
        (Some(Rlp::Bytes(vec[2..172].to_vec())), &vec[172..])
    );
}

#[test]
fn rlp_test_rlp_match_short_list() {
    let vec = vec![0xc2_u8, 0xc0_u8, 0xc0_u8];

    assert_eq!(
        match_short_list(&vec[..], vec.len()).unwrap(),
        (
            Some(Rlp::List(vec![Rlp::EmptyList, Rlp::EmptyList])),
            &vec[3..]
        )
    );
}

#[test]
fn rlp_test_rlp_match_long_list() {
    let mut vec = vec![0xf8_u8, 0xaa_u8];
    vec.extend(std::iter::repeat(0xc0).take(170));
    vec.push(b'X');

    assert_eq!(
        match_long_list(&vec[..], vec.len()).unwrap(),
        (Some(Rlp::List(vec![Rlp::EmptyList; 170])), &vec[172..])
    );
}

#[test]
fn decode_block_4_body_shape() {
    let vec = block_4_body();
    let nodes = decode(&vec[..]).unwrap();
    assert_eq!(nodes.len(), 1);
    let Rlp::List(body) = &nodes[0] else {
        panic!("the body is a list");
    };
    assert_eq!(body.len(), 2);
    assert_eq!(body[0], Rlp::EmptyList);
    let Rlp::List(second) = &body[1] else {
        panic!("the second member is a list");
    };
    assert_eq!(second.len(), 1);
    let Rlp::List(header) = &second[0] else {
        panic!("its member is a list");
    };
    assert_eq!(header.len(), 15);
    assert_eq!(header[7], Rlp::Bytes(vec![0x03, 0xff, 0x80, 0x00, 0x00]));
    assert_eq!(header[8], Rlp::Byte(1));
    assert_eq!(header[10], Rlp::EmptyString);
}

#[test]
fn decode_empty_input_is_empty() {
    assert_eq!(decode(&[]), Ok(vec![]));
}

#[test]
fn decode_row_of_items() {
    let input = [0x05_u8, 0x80, 0xc0, 0x82, 0xab, 0xcd, 0xc3, 0x01, 0xc1, 0x02];
    assert_eq!(
        decode(&input),
        Ok(vec![
            Rlp::Byte(5),
            Rlp::EmptyString,
            Rlp::EmptyList,
            Rlp::Bytes(vec![0xab, 0xcd]),
            Rlp::List(vec![Rlp::Byte(1), Rlp::List(vec![Rlp::Byte(2)])]),
        ])
    );
}

#[test]
fn decode_truncated_is_no_match() {
    assert_eq!(decode(&[0x05, 0x83, 0x01]), Err(RlpError::NoMatch));
    assert_eq!(decode(&[0xc2, 0x83, 0x01]), Err(RlpError::NoMatch));
    assert_eq!(decode(&[0xc3, 0x83, 0x01, 0x02]), Err(RlpError::NoMatch));
    assert_eq!(decode(&[0xf8]), Err(RlpError::NoMatch));
}

#[test]
fn clone_keeps_the_tree() {
    let node = Rlp::List(vec![Rlp::Bytes(vec![1, 2]), Rlp::List(vec![Rlp::EmptyString])]);
    assert_eq!(node.clone(), node);
}

#[test]
fn usize_from_u8_of_nothing_is_zero() {
    assert_eq!(usize_from_u8(&[]), 0);
    assert_eq!(usize_from_u8(&[1, 0, 0, 0]), 16777216);
}
