//! The eager decoder: a byte span parsed to the bottom, every list with its
//! members, into a tree that owns its bytes.

use super::parse;
use super::RlpError;
use crate::numeric::{be_value, radix_pow, usize_width};
use vstd::prelude::*;
use vstd::slice::slice_to_vec;

verus! {

/// A decoded RLP item with all that it holds.
#[derive(Debug, PartialEq)]
pub enum Rlp {
    /// A byte string of one byte or more.
    Bytes(Vec<u8>),
    /// A list and its members.
    List(Vec<Rlp>),
    /// A single byte below `0x80`.
    Byte(u8),
    /// The list without members.
    EmptyList,
    /// The byte string without bytes.
    EmptyString,
}

/// A decoded item as a value.
pub enum Tree {
    Bytes(Seq<u8>),
    List(Seq<Tree>),
    Byte(u8),
    EmptyList,
    EmptyString,
}

impl Rlp {
    /// The item as a value, its members included.
    pub open spec fn tree(self) -> Tree
        decreases self,
    {
        match self {
            Rlp::Bytes(bytes) => Tree::Bytes(bytes@),
            Rlp::List(members) => Tree::List(
                Seq::new(
                    members@.len(),
                    |i: int|
                        if 0 <= i < members@.len() {
                            members@[i].tree()
                        } else {
                            Tree::EmptyList
                        },
                ),
            ),
            Rlp::Byte(byte) => Tree::Byte(byte),
            Rlp::EmptyList => Tree::EmptyList,
            Rlp::EmptyString => Tree::EmptyString,
        }
    }
}

impl Clone for Rlp {
    fn clone(&self) -> (copy: Rlp)
        ensures
            copy.tree() == self.tree(),
    {
        self.duplicate()
    }
}

impl Rlp {
    /// A copy of the item with all that it holds.
    fn duplicate(&self) -> (copy: Rlp)
        ensures
            copy.tree() == self.tree(),
        decreases self,
    {
        match self {
            Rlp::Bytes(bytes) => Rlp::Bytes(slice_to_vec(bytes.as_slice())),
            Rlp::List(members) => {
                let mut copies: Vec<Rlp> = Vec::new();
                let mut i: usize = 0;
                while i < members.len()
                    invariant
                        *self == Rlp::List(*members),
                        i <= members@.len(),
                        copies@.len() == i,
                        forall|k: int| 0 <= k < i ==> copies@[k].tree() == members@[k].tree(),
                    decreases members@.len() - i,
                {
                    proof {
                        vstd::std_specs::vec::axiom_vec_index_decreases(*members, i as int);
                        assert(decreases_to!(*self => self->List_0));
                    }
                    let copy = members[i].duplicate();
                    copies.push(copy);
                    i = i + 1;
                }
                proof {
                    let made = Rlp::List(copies).tree();
                    let given = Rlp::List(*members).tree();
                    assert(made->List_0.len() == given->List_0.len());
                    assert(made->List_0 =~= given->List_0);
                }
                Rlp::List(copies)
            },
            Rlp::Byte(byte) => Rlp::Byte(*byte),
            Rlp::EmptyList => Rlp::EmptyList,
            Rlp::EmptyString => Rlp::EmptyString,
        }
    }
}

/// The items of a sequence as values.
pub open spec fn trees(items: Seq<Rlp>) -> Seq<Tree> {
    Seq::new(items.len(), |i: int| items[i].tree())
}

/// An item that a rule found at the front of a span: the item with its
/// members, and the number of bytes of the span that it takes up.
pub type Found = Option<(Tree, int)>;

/// The rule for the two empty markers.
pub open spec fn empty_rule(input: Seq<u8>) -> Found
    recommends
        input.len() > 0,
{
    if input[0] == 0xc0 {
        Some((Tree::EmptyList, 1))
    } else if input[0] == 0x80 {
        Some((Tree::EmptyString, 1))
    } else {
        None
    }
}

/// The rule for a single byte that stands for itself.
pub open spec fn byte_rule(input: Seq<u8>) -> Found
    recommends
        input.len() > 0,
{
    if input[0] <= 0x7f {
        Some((Tree::Byte(input[0]), 1))
    } else {
        None
    }
}

/// The two rules for byte strings: the short one, and the long one with its
/// length bytes.
pub open spec fn str_rule(input: Seq<u8>, long: bool) -> Found
    recommends
        input.len() > 0,
{
    let found = if long {
        parse::long_rule(input, false, 0xb7)
    } else {
        parse::short_rule(input, false, 0x80)
    };
    match found {
        Some((item, used)) => Some((Tree::Bytes(item.payload()), used)),
        None => None,
    }
}

/// The two rules for lists. The outer `None` says that the prefix is that of a
/// list whose payload cannot be decoded; the inner one, that the rule does not
/// apply.
///
/// The payload of a list is shorter than the span that holds the list: the
/// test for it never fails, and is there to show that the decoding ends.
pub open spec fn list_rule(input: Seq<u8>, long: bool) -> Option<Found>
    recommends
        input.len() > 0,
    decreases input.len(), 0nat,
{
    let found = if long {
        parse::long_rule(input, true, 0xf7)
    } else {
        parse::short_rule(input, true, 0xc0)
    };
    match found {
        Some((item, used)) => {
            if item.payload().len() < input.len() {
                match decode_spec(item.payload()) {
                    Some(members) => Some(Some((Tree::List(members), used))),
                    None => None,
                }
            } else {
                None
            }
        },
        None => Some(None),
    }
}

/// The item at the front of a non-empty span with all that it holds, or `None`
/// where the span does not start with a well-formed item.
pub open spec fn item_spec(input: Seq<u8>) -> Found
    recommends
        input.len() > 0,
    decreases input.len(), 1nat,
{
    if empty_rule(input) is Some {
        empty_rule(input)
    } else if byte_rule(input) is Some {
        byte_rule(input)
    } else if str_rule(input, false) is Some {
        str_rule(input, false)
    } else if str_rule(input, true) is Some {
        str_rule(input, true)
    } else {
        match list_rule(input, false) {
            None => None,
            Some(Some(found)) => Some(found),
            Some(None) => match list_rule(input, true) {
                Some(found) => found,
                None => None,
            },
        }
    }
}

/// The items that a span holds one behind the other, each with its members,
/// or `None` where the span is not a row of well-formed items.
///
/// An item takes up one byte at least and no more bytes than the span has:
/// the test for it never fails, and is there to show that the decoding ends.
pub open spec fn decode_spec(input: Seq<u8>) -> Option<Seq<Tree>>
    decreases input.len(), 2nat,
{
    if input.len() == 0 {
        Some(Seq::empty())
    } else {
        match item_spec(input) {
            Some((item, used)) => {
                if 0 < used <= input.len() {
                    match decode_spec(input.skip(used)) {
                        Some(others) => Some(seq![item] + others),
                        None => None,
                    }
                } else {
                    None
                }
            },
            None => None,
        }
    }
}

/// What a list holds is shorter than the span that holds the list, and an
/// item takes up one byte at least and no more bytes than the span has.
pub proof fn lemma_items_lie_in_span(input: Seq<u8>)
    requires
        input.len() > 0,
    ensures
        parse::short_rule(input, true, 0xc0) matches Some((item, used))
            ==> item.payload().len() < input.len(),
        parse::long_rule(input, true, 0xf7) matches Some((item, used)) ==> item.payload().len()
            < input.len(),
        item_spec(input) matches Some((item, used)) ==> 0 < used <= input.len(),
{
}

/// Whether `node` and `rest` are what a rule hands out on `input` when it found
/// `found`: the item and the bytes behind it, or nothing and the whole span.
pub open spec fn hands_out(node: Option<Rlp>, rest: &[u8], input: Seq<u8>, found: Found) -> bool {
    match found {
        Some((item, used)) => node matches Some(n) && n.tree() == item && rest@ == input.skip(
            used,
        ),
        None => node is None && rest@ == input,
    }
}

/// Whether `out` is what a list rule returns on `input` when the rule came to
/// `outcome`.
pub open spec fn list_hands_out(
    out: Result<(Option<Rlp>, &[u8]), RlpError>,
    input: Seq<u8>,
    outcome: Option<Found>,
) -> bool {
    match outcome {
        Some(found) => out matches Ok(pair) && hands_out(pair.0, pair.1, input, found),
        None => out == Err::<(Option<Rlp>, &[u8]), RlpError>(RlpError::NoMatch),
    }
}

/// Reads a span of at most as many bytes as a `usize` holds as a big-endian
/// number.
pub fn usize_from_u8(input: &[u8]) -> (value: usize)
    requires
        input@.len() <= usize_width(),
    ensures
        value == be_value(input@),
{
    let mut value: usize = 0;
    let mut i: usize = 0;
    proof {
        assert(input@.subrange(0, 0) =~= Seq::<u8>::empty());
        crate::numeric::lemma_radix_pow_values();
    }
    while i < input.len()
        invariant
            i <= input@.len() <= usize_width(),
            value == be_value(input@.subrange(0, i as int)),
            value < radix_pow(i as nat),
        decreases input@.len() - i,
    {
        let ghost taken = input@.subrange(0, i + 1);
        proof {
            assert(taken.drop_last() =~= input@.subrange(0, i as int));
            crate::numeric::lemma_be_value_bound(taken);
            crate::numeric::lemma_radix_pow_monotonic((i + 1) as nat, usize_width());
            crate::numeric::lemma_radix_pow_values();
        }
        value = value * 256 + input[i] as usize;
        i = i + 1;
    }
    assert(input@.subrange(0, input@.len() as int) =~= input@);
    value
}

/// Matches the empty list `0xc0` and the empty byte string `0x80`.
pub fn match_empty<'a>(rlp_slice: &'a [u8]) -> (out: (Option<Rlp>, &'a [u8]))
    requires
        rlp_slice@.len() > 0,
    ensures
        hands_out(out.0, out.1, rlp_slice@, empty_rule(rlp_slice@)),
{
    if rlp_slice[0] == 0xc0 {
        (Some(Rlp::EmptyList), &rlp_slice[1..rlp_slice.len()])
    } else if rlp_slice[0] == 0x80 {
        (Some(Rlp::EmptyString), &rlp_slice[1..rlp_slice.len()])
    } else {
        (None, rlp_slice)
    }
}

/// Matches a single byte below `0x80`, which is its own encoding.
pub fn match_byte<'a>(rlp_slice: &'a [u8]) -> (out: (Option<Rlp>, &'a [u8]))
    requires
        rlp_slice@.len() > 0,
    ensures
        hands_out(out.0, out.1, rlp_slice@, byte_rule(rlp_slice@)),
{
    if rlp_slice[0] <= 0x7f {
        (Some(Rlp::Byte(rlp_slice[0])), &rlp_slice[1..rlp_slice.len()])
    } else {
        (None, rlp_slice)
    }
}

/// Copies the byte string that the node parser found, if it found one.
fn owned_str<'a>(found: (Option<parse::Rlp<'a>>, &'a [u8])) -> (out: (Option<Rlp>, &'a [u8]))
    requires
        found.0 matches Some(node) ==> node is Bytes,
    ensures
        out.1 == found.1,
        found.0 is None ==> out.0 is None,
        found.0 matches Some(node) ==> out.0 matches Some(copy) && copy.tree() == Tree::Bytes(
            node@.payload(),
        ),
{
    match found.0 {
        Some(parse::Rlp::Bytes(bytes)) => (Some(Rlp::Bytes(slice_to_vec(bytes))), found.1),
        _ => (None, found.1),
    }
}

/// Matches a byte string of 1 to 55 bytes.
pub fn match_short_str<'a>(rlp_slice: &'a [u8], len: usize) -> (out: (Option<Rlp>, &'a [u8]))
    requires
        rlp_slice@.len() > 0,
        len == rlp_slice@.len(),
    ensures
        hands_out(out.0, out.1, rlp_slice@, str_rule(rlp_slice@, false)),
{
    owned_str(parse::match_short_str(rlp_slice, len))
}

/// Matches a byte string whose length is written in the bytes behind the
/// prefix.
pub fn match_long_str<'a>(rlp_slice: &'a [u8], len: usize) -> (out: (Option<Rlp>, &'a [u8]))
    requires
        rlp_slice@.len() > 0,
        len == rlp_slice@.len(),
    ensures
        hands_out(out.0, out.1, rlp_slice@, str_rule(rlp_slice@, true)),
{
    match parse::match_long_str(rlp_slice, len) {
        Ok(found) => owned_str(found),
        Err(_) => (None, rlp_slice),
    }
}

/// Decodes the members of the list that the node parser found, if it found
/// one.
fn owned_list<'a>(
    rlp_slice: &'a [u8],
    found: (Option<parse::Rlp<'a>>, &'a [u8]),
    Ghost(long): Ghost<bool>,
) -> (out: Result<(Option<Rlp>, &'a [u8]), RlpError>)
    requires
        rlp_slice@.len() > 0,
        parse::hands_out(
            found.0,
            found.1,
            rlp_slice@,
            if long {
                parse::long_rule(rlp_slice@, true, 0xf7)
            } else {
                parse::short_rule(rlp_slice@, true, 0xc0)
            },
        ),
    ensures
        list_hands_out(out, rlp_slice@, list_rule(rlp_slice@, long)),
    decreases rlp_slice@.len(), 0nat,
{
    match found.0 {
        Some(parse::Rlp::List(payload)) => {
            let members = decode(payload)?;
            let node = Rlp::List(members);
            assert(node.tree()->List_0 =~= trees(members@));
            Ok((Some(node), found.1))
        },
        _ => Ok((None, found.1)),
    }
}

/// Matches a list whose members take up 1 to 55 bytes, and decodes them.
pub fn match_short_list<'a>(rlp_slice: &'a [u8], len: usize) -> (out: Result<
    (Option<Rlp>, &'a [u8]),
    RlpError,
>)
    requires
        rlp_slice@.len() > 0,
        len == rlp_slice@.len(),
    ensures
        list_hands_out(out, rlp_slice@, list_rule(rlp_slice@, false)),
    decreases rlp_slice@.len(), 1nat,
{
    match parse::match_short_list(rlp_slice, len) {
        Ok(found) => owned_list(rlp_slice, found, Ghost(false)),
        Err(_) => Err(RlpError::NoMatch),
    }
}

/// Matches a list whose length is written in the bytes behind the prefix, and
/// decodes its members.
pub fn match_long_list<'a>(rlp_slice: &'a [u8], len: usize) -> (out: Result<
    (Option<Rlp>, &'a [u8]),
    RlpError,
>)
    requires
        rlp_slice@.len() > 0,
        len == rlp_slice@.len(),
    ensures
        list_hands_out(out, rlp_slice@, list_rule(rlp_slice@, true)),
    decreases rlp_slice@.len(), 1nat,
{
    match parse::match_long_list(rlp_slice, len) {
        Ok(found) => owned_list(rlp_slice, found, Ghost(true)),
        Err(_) => Err(RlpError::NoMatch),
    }
}

/// Decodes the item at the front of a non-empty span with all that it holds.
fn match_rlp<'a>(rlp_slice: &'a [u8]) -> (out: Result<(Rlp, &'a [u8]), RlpError>)
    requires
        rlp_slice@.len() > 0,
    ensures
        match item_spec(rlp_slice@) {
            Some((item, used)) => out matches Ok(pair) && pair.0.tree() == item && pair.1@
                == rlp_slice@.skip(used) && 0 < used <= rlp_slice@.len(),
            None => out == Err::<(Rlp, &'a [u8]), RlpError>(RlpError::NoMatch),
        },
    decreases rlp_slice@.len(), 2nat,
{
    let len = rlp_slice.len();
    if let (Some(rlp), slice) = match_empty(rlp_slice) {
        return Ok((rlp, slice));
    }
    if let (Some(rlp), slice) = match_byte(rlp_slice) {
        return Ok((rlp, slice));
    }
    if let (Some(rlp), slice) = match_short_str(rlp_slice, len) {
        return Ok((rlp, slice));
    }
    if let (Some(rlp), slice) = match_long_str(rlp_slice, len) {
        return Ok((rlp, slice));
    }
    if let (Some(rlp), slice) = match_short_list(rlp_slice, len)? {
        return Ok((rlp, slice));
    }
    if let (Some(rlp), slice) = match_long_list(rlp_slice, len)? {
        return Ok((rlp, slice));
    }
    Err(RlpError::NoMatch)
}

/// Decodes a span that holds RLP items one behind the other, each with all
/// its members, down to the last byte string.
pub fn decode(rlp_slice: &[u8]) -> (out: Result<Vec<Rlp>, RlpError>)
    ensures
        match decode_spec(rlp_slice@) {
            Some(items) => out matches Ok(nodes) && trees(nodes@) == items,
            None => out == Err::<Vec<Rlp>, RlpError>(RlpError::NoMatch),
        },
    decreases rlp_slice@.len(), 3nat,
{
    let mut nodes: Vec<Rlp> = Vec::new();
    let mut slice = rlp_slice;
    while slice.len() > 0
        invariant
            slice@.len() <= rlp_slice@.len(),
            decode_spec(rlp_slice@) == match decode_spec(slice@) {
                Some(others) => Some(trees(nodes@) + others),
                None => None,
            },
        decreases slice@.len(),
    {
        let ghost before = trees(nodes@);
        let matched = match_rlp(slice)?;
        nodes.push(matched.0);
        assert(trees(nodes@) =~= before + seq![matched.0.tree()]);
        assert forall|others: Seq<Tree>|
            before + (seq![matched.0.tree()] + others) == trees(nodes@) + others by {
            assert(before + (seq![matched.0.tree()] + others) =~= trees(nodes@) + others);
        }
        slice = matched.1;
    }
    assert(trees(nodes@) + Seq::<Tree>::empty() =~= trees(nodes@));
    Ok(nodes)
}

} // verus!
