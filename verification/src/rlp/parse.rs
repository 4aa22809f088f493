//! The node parser: one RLP item at the front of a byte span.
//!
//! The first byte of an item decides its kind and where its payload lies:
//!
//! | first byte    | item                | payload                                   |
//! |---------------|---------------------|-------------------------------------------|
//! | `0x00..=0x7f` | single byte         | the byte itself                           |
//! | `0x80`        | empty byte string   | none                                      |
//! | `0x81..=0xb7` | short byte string   | the next `first - 0x80` bytes             |
//! | `0xb8..=0xbf` | long byte string    | `first - 0xb7` length bytes, then payload |
//! | `0xc0`        | empty list          | none                                      |
//! | `0xc1..=0xf7` | short list          | the next `first - 0xc0` bytes             |
//! | `0xf8..=0xff` | long list           | `first - 0xf7` length bytes, then payload |
//!
//! The payload of a list is handed out as it stands. Whoever wants its members
//! parses it again.

use super::RlpError;
use crate::numeric::{be_value, trailing_bytes, u64_from_bytes_end_be};
use vstd::prelude::*;

verus! {

/// One RLP item, borrowed from the span it was found in.
#[derive(Debug, Clone, Copy, PartialEq)]
pub enum Rlp<'a> {
    /// A byte string, or what is left of it.
    Bytes(&'a [u8]),
    /// The encoded members of a list, or those that are left.
    List(&'a [u8]),
    /// The list without members, `0xc0`.
    EmptyList,
    /// The byte string without bytes, `0x80`.
    Empty,
}

/// An item as a value: its kind and the bytes it holds.
pub enum RlpView {
    Bytes(Seq<u8>),
    List(Seq<u8>),
    EmptyList,
    Empty,
}

impl<'a> View for Rlp<'a> {
    type V = RlpView;

    open spec fn view(&self) -> RlpView {
        match *self {
            Rlp::Bytes(bytes) => RlpView::Bytes(bytes@),
            Rlp::List(bytes) => RlpView::List(bytes@),
            Rlp::EmptyList => RlpView::EmptyList,
            Rlp::Empty => RlpView::Empty,
        }
    }
}

impl RlpView {
    /// The bytes that the item holds; none for the two empty markers.
    pub open spec fn payload(self) -> Seq<u8> {
        match self {
            RlpView::Bytes(bytes) => bytes,
            RlpView::List(bytes) => bytes,
            RlpView::EmptyList => Seq::empty(),
            RlpView::Empty => Seq::empty(),
        }
    }

    /// A byte string or a list with the given payload.
    pub open spec fn holding(list: bool, payload: Seq<u8>) -> RlpView {
        if list {
            RlpView::List(payload)
        } else {
            RlpView::Bytes(payload)
        }
    }
}

/// An item that a rule found at the front of a span: the item, and the number
/// of bytes of the span that it takes up, prefix included.
pub type Match = Option<(RlpView, int)>;

/// The item whose payload is `input[start..start + len]`, where the span holds
/// that many bytes.
pub open spec fn spanned(input: Seq<u8>, list: bool, start: int, len: int) -> Match {
    if start + len <= input.len() {
        Some((RlpView::holding(list, input.subrange(start, start + len)), start + len))
    } else {
        None
    }
}

/// The rule for the two empty markers.
pub open spec fn empty_rule(input: Seq<u8>) -> Match
    recommends
        input.len() > 0,
{
    if input[0] == 0xc0 {
        Some((RlpView::EmptyList, 1))
    } else if input[0] == 0x80 {
        Some((RlpView::Empty, 1))
    } else {
        None
    }
}

/// The rule for a single byte that stands for itself.
pub open spec fn byte_rule(input: Seq<u8>) -> Match
    recommends
        input.len() > 0,
{
    if input[0] <= 0x7f {
        Some((RlpView::Bytes(input.subrange(0, 1)), 1))
    } else {
        None
    }
}

/// The rule for an item whose prefix byte holds the payload's length: a byte
/// string with `marker` `0x80`, a list with `marker` `0xc0`.
pub open spec fn short_rule(input: Seq<u8>, list: bool, marker: u8) -> Match
    recommends
        input.len() > 0,
{
    if marker < input[0] && input[0] <= marker + 0x37 {
        spanned(input, list, 1, input[0] - marker)
    } else {
        None
    }
}

/// The rule for an item whose prefix byte holds the number of length bytes that
/// follow it: a byte string with `marker` `0xb7`, a list with `marker` `0xf7`.
pub open spec fn long_rule(input: Seq<u8>, list: bool, marker: u8) -> Match
    recommends
        input.len() > 0,
{
    let width = input[0] - marker;
    if marker < input[0] && input[0] <= marker + 8 && width < input.len() {
        spanned(input, list, 1 + width, be_value(input.subrange(1, 1 + width)) as int)
    } else {
        None
    }
}

/// The item at the front of a non-empty span, if a rule finds one.
pub open spec fn first_item(input: Seq<u8>) -> Match
    recommends
        input.len() > 0,
{
    if empty_rule(input) is Some {
        empty_rule(input)
    } else if byte_rule(input) is Some {
        byte_rule(input)
    } else if short_rule(input, false, 0x80) is Some {
        short_rule(input, false, 0x80)
    } else if long_rule(input, false, 0xb7) is Some {
        long_rule(input, false, 0xb7)
    } else if short_rule(input, true, 0xc0) is Some {
        short_rule(input, true, 0xc0)
    } else {
        long_rule(input, true, 0xf7)
    }
}

/// What [`parse`] makes of a span: the first item and the number of bytes it
/// takes up, or the reason why there is none.
pub open spec fn parse_spec(input: Seq<u8>) -> Result<(RlpView, int), RlpError> {
    if input.len() == 0 {
        Err(RlpError::NoInputLeft)
    } else {
        match first_item(input) {
            Some(found) => Ok(found),
            None => Err(RlpError::NoMatch),
        }
    }
}

/// The items of a sequence as values.
pub open spec fn views(items: Seq<Rlp>) -> Seq<RlpView> {
    Seq::new(items.len(), |i: int| items[i]@)
}

/// What [`decode`] makes of a span: the items that stand in it one behind the
/// other, none of them entered, or the reason why the span is no row of
/// items.
///
/// An item takes up one byte at least and no more bytes than the span has:
/// the test for it never fails, and is there to show that the parsing ends.
pub open spec fn decode_spec(input: Seq<u8>) -> Result<Seq<RlpView>, RlpError>
    decreases input.len(),
{
    if input.len() == 0 {
        Ok(Seq::empty())
    } else {
        match parse_spec(input) {
            Ok((item, used)) => {
                if 0 < used <= input.len() {
                    match decode_spec(input.skip(used)) {
                        Ok(others) => Ok(seq![item] + others),
                        Err(reason) => Err(reason),
                    }
                } else {
                    Err(RlpError::NoMatch)
                }
            },
            Err(reason) => Err(reason),
        }
    }
}

/// An item takes up one byte at least and no more bytes than the span has, and
/// it holds no more bytes than it takes up.
pub proof fn lemma_item_lies_in_span(input: Seq<u8>)
    requires
        parse_spec(input) is Ok,
    ensures
        0 < parse_spec(input).unwrap().1 <= input.len(),
        parse_spec(input).unwrap().0.payload().len() <= parse_spec(input).unwrap().1,
{
}

/// The prefix bytes at which one kind of item ends and the next begins.
///
/// A byte up to `0x7f` is an item by itself. `0x80` is the empty byte string.
/// `0xb7` stands before the longest byte string that has no length bytes, one
/// of 55 bytes; from `0xb8` on the length stands in the bytes behind the
/// prefix. `0xc0` is the empty list, `0xf7` stands before 55 bytes of members,
/// and from `0xf8` on the length of the members stands behind the prefix.
pub proof fn lemma_prefix_boundaries(input: Seq<u8>)
    requires
        input.len() > 0,
    ensures
        input[0] <= 0x7f ==> parse_spec(input) == Ok::<(RlpView, int), RlpError>(
            (RlpView::Bytes(input.subrange(0, 1)), 1),
        ),
        input[0] == 0x80 ==> parse_spec(input) == Ok::<(RlpView, int), RlpError>(
            (RlpView::Empty, 1),
        ),
        input[0] == 0xc0 ==> parse_spec(input) == Ok::<(RlpView, int), RlpError>(
            (RlpView::EmptyList, 1),
        ),
        input[0] == 0xb7 ==> parse_spec(input) == (if input.len() >= 56 {
            Ok::<(RlpView, int), RlpError>((RlpView::Bytes(input.subrange(1, 56)), 56))
        } else {
            Err::<(RlpView, int), RlpError>(RlpError::NoMatch)
        }),
        input[0] == 0xf7 ==> parse_spec(input) == (if input.len() >= 56 {
            Ok::<(RlpView, int), RlpError>((RlpView::List(input.subrange(1, 56)), 56))
        } else {
            Err::<(RlpView, int), RlpError>(RlpError::NoMatch)
        }),
        input[0] == 0xb8 ==> parse_spec(input) == (if input.len() >= 2 && input.len() >= 2
            + input[1] {
            Ok::<(RlpView, int), RlpError>(
                (RlpView::Bytes(input.subrange(2, 2 + input[1])), 2 + input[1]),
            )
        } else {
            Err::<(RlpView, int), RlpError>(RlpError::NoMatch)
        }),
        input[0] == 0xf8 ==> parse_spec(input) == (if input.len() >= 2 && input.len() >= 2
            + input[1] {
            Ok::<(RlpView, int), RlpError>(
                (RlpView::List(input.subrange(2, 2 + input[1])), 2 + input[1]),
            )
        } else {
            Err::<(RlpView, int), RlpError>(RlpError::NoMatch)
        }),
{
    if input.len() >= 2 {
        let digits = input.subrange(1, 2);
        assert(digits.drop_last() =~= Seq::<u8>::empty());
        assert(be_value(digits.drop_last()) == 0);
        assert(be_value(digits) == input[1]);
    }
}

/// Whether `node` and `rest` are what a rule hands out on `input` when it found
/// `found`: the item and the bytes behind it, or nothing and the whole span.
pub open spec fn hands_out(node: Option<Rlp>, rest: &[u8], input: Seq<u8>, found: Match) -> bool {
    match found {
        Some((item, used)) => node matches Some(n) && n@ == item && rest@ == input.skip(used),
        None => node is None && rest@ == input,
    }
}

/// Cuts the item with payload `input[start..start + len]` out of the span.
fn cut<'a>(input: &'a [u8], list: bool, start: usize, len: usize) -> (out: (
    Option<Rlp<'a>>,
    &'a [u8],
))
    requires
        start + len <= input@.len(),
    ensures
        hands_out(out.0, out.1, input@, spanned(input@, list, start as int, len as int)),
{
    let total = input.len();
    let payload = &input[start..start + len];
    let rest = &input[start + len..total];
    if list {
        (Some(Rlp::List(payload)), rest)
    } else {
        (Some(Rlp::Bytes(payload)), rest)
    }
}

/// Matches an item whose prefix byte holds the payload's length.
fn match_short<'a>(input: &'a [u8], list: bool, marker: u8) -> (out: (Option<Rlp<'a>>, &'a [u8]))
    requires
        input@.len() > 0,
        marker <= 0xc0,
    ensures
        hands_out(out.0, out.1, input@, short_rule(input@, list, marker)),
{
    let first = input[0];
    if marker < first && first <= marker + 0x37 {
        let len = (first - marker) as usize;
        if len < input.len() {
            return cut(input, list, 1, len);
        }
    }
    (None, input)
}

/// Matches an item whose prefix byte holds the number of length bytes.
fn match_long<'a>(input: &'a [u8], list: bool, marker: u8) -> (out: (Option<Rlp<'a>>, &'a [u8]))
    requires
        input@.len() > 0,
        marker <= 0xf7,
    ensures
        hands_out(out.0, out.1, input@, long_rule(input@, list, marker)),
{
    let first = input[0];
    if marker < first && first <= marker + 8 {
        let width = (first - marker) as usize;
        if width < input.len() {
            let digits = &input[1..1 + width];
            let declared = match u64_from_bytes_end_be(digits) {
                Ok(value) => value,
                Err(_) => 0,
            };
            assert(trailing_bytes(digits@, 8) == digits@);
            let room = input.len() - 1 - width;
            if declared <= room as u64 {
                return cut(input, list, 1 + width, declared as usize);
            }
        }
    }
    (None, input)
}

/// Matches the empty list `0xc0` and the empty byte string `0x80`.
pub fn match_empty<'a>(rlp_slice: &'a [u8]) -> (out: (Option<Rlp<'a>>, &'a [u8]))
    requires
        rlp_slice@.len() > 0,
    ensures
        hands_out(out.0, out.1, rlp_slice@, empty_rule(rlp_slice@)),
{
    if rlp_slice[0] == 0xc0 {
        (Some(Rlp::EmptyList), &rlp_slice[1..rlp_slice.len()])
    } else if rlp_slice[0] == 0x80 {
        (Some(Rlp::Empty), &rlp_slice[1..rlp_slice.len()])
    } else {
        (None, rlp_slice)
    }
}

/// Matches a single byte below `0x80`, which is its own encoding.
pub fn match_byte<'a>(rlp_slice: &'a [u8]) -> (out: (Option<Rlp<'a>>, &'a [u8]))
    requires
        rlp_slice@.len() > 0,
    ensures
        hands_out(out.0, out.1, rlp_slice@, byte_rule(rlp_slice@)),
{
    if rlp_slice[0] <= 0x7f {
        (Some(Rlp::Bytes(&rlp_slice[0..1])), &rlp_slice[1..rlp_slice.len()])
    } else {
        (None, rlp_slice)
    }
}

/// Matches a byte string of 1 to 55 bytes.
pub fn match_short_str<'a>(rlp_slice: &'a [u8], len: usize) -> (out: (Option<Rlp<'a>>, &'a [u8]))
    requires
        rlp_slice@.len() > 0,
        len == rlp_slice@.len(),
    ensures
        hands_out(out.0, out.1, rlp_slice@, short_rule(rlp_slice@, false, 0x80)),
{
    match_short(rlp_slice, false, 0x80)
}

/// Matches a byte string whose length is written in the bytes behind the
/// prefix.
pub fn match_long_str<'a>(rlp_slice: &'a [u8], len: usize) -> (out: Result<
    (Option<Rlp<'a>>, &'a [u8]),
    RlpError,
>)
    requires
        rlp_slice@.len() > 0,
        len == rlp_slice@.len(),
    ensures
        out matches Ok(pair) && hands_out(
            pair.0,
            pair.1,
            rlp_slice@,
            long_rule(rlp_slice@, false, 0xb7),
        ),
{
    Ok(match_long(rlp_slice, false, 0xb7))
}

/// Matches a list whose members take up 1 to 55 bytes.
pub fn match_short_list<'a>(rlp_slice: &'a [u8], len: usize) -> (out: Result<
    (Option<Rlp<'a>>, &'a [u8]),
    RlpError,
>)
    requires
        rlp_slice@.len() > 0,
        len == rlp_slice@.len(),
    ensures
        out matches Ok(pair) && hands_out(
            pair.0,
            pair.1,
            rlp_slice@,
            short_rule(rlp_slice@, true, 0xc0),
        ),
{
    Ok(match_short(rlp_slice, true, 0xc0))
}

/// Matches a list whose length is written in the bytes behind the prefix.
pub fn match_long_list<'a>(rlp_slice: &'a [u8], len: usize) -> (out: Result<
    (Option<Rlp<'a>>, &'a [u8]),
    RlpError,
>)
    requires
        rlp_slice@.len() > 0,
        len == rlp_slice@.len(),
    ensures
        out matches Ok(pair) && hands_out(
            pair.0,
            pair.1,
            rlp_slice@,
            long_rule(rlp_slice@, true, 0xf7),
        ),
{
    Ok(match_long(rlp_slice, true, 0xf7))
}

/// Parses the item at the front of `rlp_slice` and returns it with the bytes
/// that follow it.
pub fn parse<'a>(rlp_slice: &'a [u8]) -> (out: Result<(Rlp<'a>, &'a [u8]), RlpError>)
    ensures
        match parse_spec(rlp_slice@) {
            Ok((item, used)) => out matches Ok(pair) && pair.0@ == item && pair.1@
                == rlp_slice@.skip(used),
            Err(reason) => out == Err::<(Rlp<'a>, &'a [u8]), RlpError>(reason),
        },
{
    let len = rlp_slice.len();
    if len == 0 {
        return Err(RlpError::NoInputLeft);
    }
    if let (Some(rlp), slice) = match_empty(rlp_slice) {
        return Ok((rlp, slice));
    }
    if let (Some(rlp), slice) = match_byte(rlp_slice) {
        return Ok((rlp, slice));
    }
    if let (Some(rlp), slice) = match_short_str(rlp_slice, len) {
        return Ok((rlp, slice));
    }
    if let (Some(rlp), slice) = match_long_str(rlp_slice, len)? {
        return Ok((rlp, slice));
    }
    if let (Some(rlp), slice) = match_short_list(rlp_slice, len)? {
        return Ok((rlp, slice));
    }
    if let (Some(rlp), slice) = match_long_list(rlp_slice, len)? {
        return Ok((rlp, slice));
    }
    Err(RlpError::NoMatch)
}

/// Parses the items that stand in `rlp_slice` one behind the other, until no
/// byte is left. The members of a list stay unparsed.
pub fn decode<'a>(rlp_slice: &'a [u8]) -> (out: Result<Vec<Rlp<'a>>, RlpError>)
    ensures
        match decode_spec(rlp_slice@) {
            Ok(items) => out matches Ok(nodes) && views(nodes@) == items,
            Err(reason) => out == Err::<Vec<Rlp<'a>>, RlpError>(reason),
        },
{
    let mut nodes: Vec<Rlp<'a>> = Vec::new();
    let mut slice = rlp_slice;
    while slice.len() > 0
        invariant
            decode_spec(rlp_slice@) == match decode_spec(slice@) {
                Ok(others) => Ok::<Seq<RlpView>, RlpError>(views(nodes@) + others),
                Err(reason) => Err::<Seq<RlpView>, RlpError>(reason),
            },
        decreases slice@.len(),
    {
        let ghost before = views(nodes@);
        proof {
            if parse_spec(slice@) is Ok {
                lemma_item_lies_in_span(slice@);
            }
        }
        let (node, rest) = parse(slice)?;
        nodes.push(node);
        proof {
            assert(views(nodes@) =~= before + seq![node@]);
            assert forall|others: Seq<RlpView>|
                before + (seq![node@] + others) == views(nodes@) + others by {
                assert(before + (seq![node@] + others) =~= views(nodes@) + others);
            }
        }
        slice = rest;
    }
    assert(views(nodes@) + Seq::<RlpView>::empty() =~= views(nodes@));
    Ok(nodes)
}

} // verus!
