//! Names, which the records hold as bytes.

use vstd::prelude::*;
use vstd::utf8::{decode_utf8, encode_utf8, valid_utf8};

verus! {

/// `String::from_utf8`: the string that the bytes encode, where they are
/// UTF-8, and nothing where they are not.
#[verifier::external_body]
fn string_from_utf8(bytes: &[u8]) -> (r: Option<String>)
    ensures
        r is Some <==> valid_utf8(bytes@),
        r matches Some(s) ==> encode_utf8(s@) == bytes@,
{
    match String::from_utf8(bytes.to_vec()) {
        Ok(s) => Some(s),
        Err(_) => None,
    }
}

/// The text that bytes hold, if they hold any.
pub open spec fn text_of(bytes: Seq<u8>) -> Option<Seq<char>> {
    if valid_utf8(bytes) {
        Some(decode_utf8(bytes))
    } else {
        None
    }
}

/// Reads bytes as UTF-8 text.
pub fn read_text(bytes: &[u8]) -> (r: Option<String>)
    ensures
        match r {
            Some(s) => text_of(bytes@) == Some(s@),
            None => text_of(bytes@) is None,
        },
{
    let r = string_from_utf8(bytes);
    proof {
        if r is Some {
            vstd::utf8::encode_utf8_decode_utf8(r->Some_0@);
        }
    }
    r
}

/// The part of `bytes` from index `from` up to its first zero byte, or up
/// to index `end` if there is none before it.
pub open spec fn until_nul(bytes: Seq<u8>, from: int, end: int) -> Seq<u8>
    decreases end - from,
{
    if from >= end || bytes[from] == 0 {
        Seq::<u8>::empty()
    } else {
        seq![bytes[from]] + until_nul(bytes, from + 1, end)
    }
}

/// Finds the first zero byte from `from` on and before `end`: the index of
/// that byte, or `end` if there is none.
pub fn find_nul(data: &[u8], from: usize, end: usize) -> (at: usize)
    requires
        from <= end <= data.len(),
    ensures
        from <= at <= end,
        at - from == until_nul(data@, from as int, end as int).len(),
        data@.subrange(from as int, at as int) == until_nul(data@, from as int, end as int),
{
    let mut at: usize = from;
    while at < end && data[at] != 0
        invariant
            from <= at <= end,
            end <= data.len(),
            until_nul(data@, from as int, end as int) == data@.subrange(from as int, at as int)
                + until_nul(data@, at as int, end as int),
        decreases end - at,
    {
        proof {
            let rest = until_nul(data@, at + 1, end as int);
            assert(data@.subrange(from as int, at as int) + (seq![data@[at as int]] + rest)
                =~= data@.subrange(from as int, at + 1) + rest);
        }
        at += 1;
    }
    proof {
        assert(until_nul(data@, at as int, end as int) =~= Seq::<u8>::empty());
        assert(data@.subrange(from as int, at as int) + Seq::<u8>::empty() =~= data@.subrange(
            from as int,
            at as int,
        ));
    }
    at
}

} // verus!
