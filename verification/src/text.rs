//! Comparing and searching strings by their characters.

use vstd::prelude::*;
use vstd::string::StringSliceAdditionalSpecFns;
use vstd::utf8::{decode_utf8, encode_utf8, encode_utf8_decode_utf8, valid_utf8};

verus! {

/// Two character sequences with the same UTF-8 encoding are the same.
pub proof fn lemma_encoding_is_injective(a: Seq<char>, b: Seq<char>)
    requires
        encode_utf8(a) == encode_utf8(b),
    ensures
        a == b,
{
    encode_utf8_decode_utf8(a);
    encode_utf8_decode_utf8(b);
    assert(decode_utf8(encode_utf8(a)) == decode_utf8(encode_utf8(b)));
}

/// Whether `a` and `b` hold the same characters.
pub fn same_text(a: &str, b: &str) -> (same: bool)
    ensures
        same == (a@ == b@),
{
    let left = a.as_bytes();
    let right = b.as_bytes();
    if left.len() != right.len() {
        return false;
    }
    let mut at: usize = 0;
    while at < left.len()
        invariant
            left.len() == right.len(),
            at <= left.len(),
            left@ == a.spec_bytes(),
            right@ == b.spec_bytes(),
            forall|i: int| 0 <= i < at ==> left@[i] == right@[i],
        decreases left.len() - at,
    {
        if left[at] != right[at] {
            return false;
        }
        at = at + 1;
    }
    proof {
        assert(left@ =~= right@);
        lemma_encoding_is_injective(a@, b@);
    }
    true
}

/// `needle` stands in `text` at index `at`.
pub open spec fn stands_in(needle: Seq<char>, text: Seq<char>, at: int) -> bool {
    &&& 0 <= at
    &&& at + needle.len() <= text.len()
    &&& text.subrange(at, at + needle.len()) == needle
}

/// `needle` stands somewhere in `text`.
pub open spec fn is_substring(needle: Seq<char>, text: Seq<char>) -> bool {
    exists|at: int| stands_in(needle, text, at)
}

/// What `str::to_lowercase` makes of `text`.
pub uninterp spec fn lowercased(text: Seq<char>) -> Seq<char>;

/// `str::to_lowercase` returns the lowercase equivalent of the string as a
/// new `String`; the result depends on the characters alone.
pub assume_specification[ str::to_lowercase ](text: &str) -> (lower: String)
    ensures
        lower@ == lowercased(text@),
;

/// The characters of `text`.
pub fn chars_of(text: &str) -> (chars: Vec<char>)
    ensures
        chars@ == text@,
{
    let mut chars: Vec<char> = Vec::new();
    for c in iter: text.chars()
        invariant
            chars@ == iter.seq().take(iter.index() as int),
            iter.seq() == text@,
    {
        chars.push(c);
    }
    chars
}

/// Whether `needle` stands in `text` at index `at`.
fn stands_at(text: &Vec<char>, needle: &Vec<char>, at: usize) -> (stands: bool)
    requires
        at + needle@.len() <= text@.len(),
    ensures
        stands == stands_in(needle@, text@, at as int),
{
    let len = text.len();
    let mut i: usize = 0;
    while i < needle.len()
        invariant
            i <= needle@.len(),
            len == text@.len(),
            at + needle@.len() <= text@.len(),
            forall|j: int| 0 <= j < i ==> text@[at + j] == needle@[j],
        decreases needle@.len() - i,
    {
        if text[at + i] != needle[i] {
            assert(text@.subrange(at as int, at + needle@.len())[i as int] != needle@[i as int]);
            return false;
        }
        i = i + 1;
    }
    assert(text@.subrange(at as int, at + needle@.len()) =~= needle@);
    true
}

/// Whether `needle` stands somewhere in `text`.
pub fn has_substring(text: &str, needle: &str) -> (found: bool)
    ensures
        found == is_substring(needle@, text@),
{
    let all = chars_of(text);
    let wanted = chars_of(needle);
    if wanted.len() > all.len() {
        return false;
    }
    let last = all.len() - wanted.len();
    let mut at: usize = 0;
    loop
        invariant
            at <= last,
            all@ == text@,
            wanted@ == needle@,
            last == text@.len() - needle@.len(),
            forall|before: int| before < at ==> !stands_in(needle@, text@, before),
        decreases last - at,
    {
        if stands_at(&all, &wanted, at) {
            return true;
        }
        if at == last {
            return false;
        }
        at = at + 1;
    }
}

/// The text that the bytes encode, by `std::str::from_utf8`: the string of
/// which `bytes` is the UTF-8 encoding, and `None` where `bytes` is not
/// valid UTF-8.
#[verifier::external_body]
pub(crate) fn text_of_utf8(bytes: &[u8]) -> (text: Option<&str>)
    ensures
        match text {
            Some(text) => valid_utf8(bytes@) && text@ == decode_utf8(bytes@),
            None => !valid_utf8(bytes@),
        },
{
    std::str::from_utf8(bytes).ok()
}

/// `needle` stands somewhere in `text` when the case of letters is ignored.
pub open spec fn contains_ignoring_case(text: Seq<char>, needle: Seq<char>) -> bool {
    is_substring(lowercased(needle), lowercased(text))
}

} // verus!
