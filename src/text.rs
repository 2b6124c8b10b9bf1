//! The kind attribute's text: UTF-8, ended by a NUL byte on the wire.
use vstd::prelude::*;
use vstd::slice::slice_to_vec;
use vstd::utf8::{decode_utf8, encode_utf8, encode_utf8_decode_utf8, encode_utf8_valid_utf8, valid_utf8};

use crate::bytes::push_slice;
use crate::error::DecodeError;

verus! {

/// The text that a kind attribute's value holds, if it is UTF-8 once a
/// trailing NUL byte is taken off.
pub open spec fn kind_text(v: Seq<u8>) -> Option<Seq<char>> {
    let t = if v.len() > 0 && v.last() == 0 {
        v.drop_last()
    } else {
        v
    };
    if valid_utf8(t) {
        Some(decode_utf8(t))
    } else {
        None
    }
}

/// The value bytes of a kind attribute that holds `s`: its UTF-8 form and a NUL byte.
pub open spec fn kind_bytes(s: Seq<char>) -> Seq<u8> {
    encode_utf8(s).push(0u8)
}

pub proof fn lemma_kind_round_trip(s: Seq<char>)
    ensures
        kind_text(kind_bytes(s)) == Some(s),
{
    let v = kind_bytes(s);
    assert(v.drop_last() =~= encode_utf8(s));
    encode_utf8_valid_utf8(s);
    encode_utf8_decode_utf8(s);
}

/// Relies on `String::from_utf8`: it succeeds exactly on well-formed UTF-8,
/// and the string then holds the characters that those bytes encode.
#[verifier::external_body]
fn string_from_utf8(bytes: Vec<u8>) -> (r: Option<String>)
    ensures
        r is Some <==> valid_utf8(bytes@),
        r matches Some(s) ==> s@ == decode_utf8(bytes@),
{
    String::from_utf8(bytes).ok()
}

/// Reads a kind attribute's value as text.
pub fn parse_string(payload: &[u8]) -> (r: Result<String, DecodeError>)
    ensures
        match kind_text(payload@) {
            Some(t) => r matches Ok(s) && s@ == t,
            None => r == Err::<String, DecodeError>(DecodeError::InvalidKindText),
        },
{
    let n = payload.len();
    let end = if n > 0 && payload[n - 1] == 0 {
        n - 1
    } else {
        n
    };
    let t = &payload[0..end];
    assert(n > 0 && payload@.last() == 0 ==> t@ =~= payload@.drop_last());
    assert(!(n > 0 && payload@.last() == 0) ==> t@ =~= payload@);
    match string_from_utf8(slice_to_vec(t)) {
        Some(s) => Ok(s),
        None => Err(DecodeError::InvalidKindText),
    }
}

/// Whether two strings hold the same characters.
pub fn same_text(a: &str, b: &str) -> (r: bool)
    ensures
        r == (a@ == b@),
{
    let x = a.as_bytes();
    let y = b.as_bytes();
    proof {
        encode_utf8_decode_utf8(a@);
        encode_utf8_decode_utf8(b@);
    }
    if x.len() != y.len() {
        return false;
    }
    let mut i: usize = 0;
    while i < x.len()
        invariant
            x@ == encode_utf8(a@),
            y@ == encode_utf8(b@),
            x@.len() == y@.len(),
            i <= x@.len(),
            forall|j: int| 0 <= j < i ==> x@[j] == y@[j],
        decreases x@.len() - i,
    {
        if x[i] != y[i] {
            return false;
        }
        i += 1;
    }
    assert(x@ =~= y@);
    true
}

/// Appends the value bytes of a kind attribute that holds `s`.
pub fn push_kind(out: &mut Vec<u8>, s: &String)
    ensures
        final(out)@ == old(out)@ + kind_bytes(s@),
{
    let ghost start = out@;
    push_slice(out, s.as_str().as_bytes());
    out.push(0u8);
    assert(out@ =~= start + kind_bytes(s@));
}

/// The number of value bytes of a kind attribute that holds `s`.
pub fn kind_len(s: &String) -> (r: usize)
    requires
        kind_bytes(s@).len() <= usize::MAX,
    ensures
        r == kind_bytes(s@).len(),
{
    s.as_str().as_bytes().len() + 1
}

} // verus!
