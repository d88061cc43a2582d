//! Comparing text.

use vstd::prelude::*;
use vstd::utf8::{decode_utf8, encode_utf8, encode_utf8_decode_utf8, valid_utf8};

verus! {

/// Text is pinned down by its UTF-8 bytes.
pub proof fn lemma_utf8_determines(a: Seq<char>, b: Seq<char>)
    requires
        encode_utf8(a) == encode_utf8(b),
    ensures
        a == b,
{
    encode_utf8_decode_utf8(a);
    encode_utf8_decode_utf8(b);
    assert(decode_utf8(encode_utf8(a)) == a);
    assert(decode_utf8(encode_utf8(b)) == b);
}

/// `String::from_utf8` of std: the text that the bytes spell in UTF-8, and
/// nothing where they are no UTF-8.
#[verifier::external_body]
pub(crate) fn string_from_utf8(bytes: Vec<u8>) -> (r: Option<String>)
    ensures
        r is Some <==> valid_utf8(bytes@),
        r matches Some(s) ==> s@ == decode_utf8(bytes@),
{
    String::from_utf8(bytes).ok()
}

/// Whether two byte strings are the same.
pub fn bytes_eq(a: &[u8], b: &[u8]) -> (r: bool)
    ensures
        r == (a@ == b@),
{
    if a.len() != b.len() {
        return false;
    }
    let mut i: usize = 0;
    while i < a.len()
        invariant
            a@.len() == b@.len(),
            i <= a@.len(),
            forall|j: int| 0 <= j < i ==> a@[j] == b@[j],
        decreases a@.len() - i,
    {
        if a[i] != b[i] {
            return false;
        }
        i += 1;
    }
    assert(a@ =~= b@);
    true
}

/// Whether two texts are the same.
pub fn str_eq(a: &str, b: &str) -> (r: bool)
    ensures
        r == (a@ == b@),
{
    let r = bytes_eq(a.as_bytes(), b.as_bytes());
    proof {
        if r {
            lemma_utf8_determines(a@, b@);
        }
    }
    r
}

/// Where `byte` stands first among the bytes.
#[verifier::opaque]
pub open spec fn first_index(bytes: Seq<u8>, byte: u8) -> Option<int> {
    if exists|i: int| 0 <= i < bytes.len() && bytes[i] == byte {
        Some(
            choose|i: int| 0 <= i < bytes.len() && bytes[i] == byte && forall|j: int| 0 <= j < i ==> bytes[j] != byte,
        )
    } else {
        None
    }
}

/// Before any place of `byte` there is a first one.
proof fn lemma_least_index(bytes: Seq<u8>, byte: u8, at: int)
    requires
        0 <= at < bytes.len(),
        bytes[at] == byte,
    ensures
        exists|i: int| 0 <= i <= at && bytes[i] == byte && forall|j: int| 0 <= j < i ==> bytes[j] != byte,
    decreases at,
{
    if exists|k: int| 0 <= k < at && bytes[k] == byte {
        let k = choose|k: int| 0 <= k < at && bytes[k] == byte;
        lemma_least_index(bytes, byte, k);
    }
}

/// There is a first place of `byte` exactly where the bytes hold it; the
/// byte stands there and nowhere before.
pub proof fn lemma_first_index(bytes: Seq<u8>, byte: u8)
    ensures
        first_index(bytes, byte) is Some <==> bytes.contains(byte),
        first_index(bytes, byte) matches Some(i) ==> 0 <= i < bytes.len() && bytes[i] == byte && !bytes.take(
            i,
        ).contains(byte),
{
    reveal(first_index);
    if exists|i: int| 0 <= i < bytes.len() && bytes[i] == byte {
        let some = choose|i: int| 0 <= i < bytes.len() && bytes[i] == byte;
        lemma_least_index(bytes, byte, some);
        let i = first_index(bytes, byte)->0;
        assert(bytes.contains(byte));
        if bytes.take(i).contains(byte) {
            let j = choose|j: int| 0 <= j < bytes.take(i).len() && bytes.take(i)[j] == byte;
            assert(bytes[j] == byte);
        }
    }
}

/// The place at `at` is the first one of `byte` if the byte stands there
/// and nowhere before.
pub proof fn lemma_first_index_is(bytes: Seq<u8>, byte: u8, at: int)
    requires
        0 <= at < bytes.len(),
        bytes[at] == byte,
        forall|j: int| 0 <= j < at ==> bytes[j] != byte,
    ensures
        first_index(bytes, byte) == Some(at),
{
    lemma_first_index(bytes, byte);
    let i = first_index(bytes, byte)->0;
    if i < at {
        assert(bytes[i] != byte);
    } else if at < i {
        assert(bytes.take(i)[at] == byte);
        assert(bytes.take(i).contains(byte));
    }
}

/// Where `byte` stands first among the bytes.
pub fn find_byte(bytes: &[u8], byte: u8) -> (r: Option<usize>)
    ensures
        r is Some <==> first_index(bytes@, byte) is Some,
        r matches Some(i) ==> first_index(bytes@, byte) == Some(i as int) && i < bytes@.len(),
{
    let mut i: usize = 0;
    while i < bytes.len()
        invariant
            i <= bytes@.len(),
            forall|j: int| 0 <= j < i ==> bytes@[j] != byte,
        decreases bytes@.len() - i,
    {
        if bytes[i] == byte {
            proof {
                lemma_first_index_is(bytes@, byte, i as int);
            }
            return Some(i);
        }
        i += 1;
    }
    proof {
        lemma_first_index(bytes@, byte);
        if bytes@.contains(byte) {
            let j = choose|j: int| 0 <= j < bytes@.len() && bytes@[j] == byte;
            assert(bytes@[j] != byte);
        }
    }
    None
}

} // verus!
