//! Finding the property list inside the bytes of a provisioning profile.
//!
//! A profile carries binary data before and after its XML payload. The
//! payload starts where the XML declaration first opens and ends behind the
//! last closing `plist` tag, so that a closing tag quoted inside the payload
//! does not cut it short.

use vstd::prelude::*;
use vstd::slice::slice_subrange;

verus! {

/// The bytes `<?xml version=`, which open the payload.
pub const PLIST_PREFIX: [u8; 14] = [
    0x3c, 0x3f, 0x78, 0x6d, 0x6c, 0x20, 0x76, 0x65, 0x72, 0x73, 0x69, 0x6f, 0x6e, 0x3d,
];

/// The bytes `</plist>`, which close the payload.
pub const PLIST_SUFFIX: [u8; 8] = [0x3c, 0x2f, 0x70, 0x6c, 0x69, 0x73, 0x74, 0x3e];

/// The start marker as a sequence.
pub open spec fn start_marker() -> Seq<u8> {
    PLIST_PREFIX@
}

/// The end marker as a sequence.
pub open spec fn end_marker() -> Seq<u8> {
    PLIST_SUFFIX@
}

/// `needle` stands in `haystack` at index `at`.
pub open spec fn occurs_at(haystack: Seq<u8>, needle: Seq<u8>, at: int) -> bool {
    &&& 0 <= at
    &&& at + needle.len() <= haystack.len()
    &&& haystack.subrange(at, at + needle.len()) == needle
}

/// `needle` stands nowhere in `haystack`.
pub open spec fn absent(haystack: Seq<u8>, needle: Seq<u8>) -> bool {
    forall|at: int| !occurs_at(haystack, needle, at)
}

/// `at` is the leftmost place where `needle` stands in `haystack`.
pub open spec fn is_first_occurrence(haystack: Seq<u8>, needle: Seq<u8>, at: int) -> bool {
    &&& occurs_at(haystack, needle, at)
    &&& forall|before: int| before < at ==> !occurs_at(haystack, needle, before)
}

/// `at` is the rightmost place where `needle` stands in `haystack`.
pub open spec fn is_last_occurrence(haystack: Seq<u8>, needle: Seq<u8>, at: int) -> bool {
    &&& occurs_at(haystack, needle, at)
    &&& forall|after: int| at < after ==> !occurs_at(haystack, needle, after)
}

/// The payload of `data` is the half-open range `start..end`: it begins at
/// the first start marker and ends behind the last end marker.
pub open spec fn is_payload_range(data: Seq<u8>, start: int, end: int) -> bool {
    &&& is_first_occurrence(data, start_marker(), start)
    &&& is_last_occurrence(data, end_marker(), end - end_marker().len())
    &&& start <= end
}

/// `data` holds a payload.
pub open spec fn has_payload(data: Seq<u8>) -> bool {
    exists|start: int, end: int| is_payload_range(data, start, end)
}

/// The range of the payload of `data`, where it has one.
pub open spec fn payload_range(data: Seq<u8>) -> Option<(int, int)> {
    if has_payload(data) {
        Some(choose|range: (int, int)| is_payload_range(data, range.0, range.1))
    } else {
        None
    }
}

/// The last end marker closes before the first start marker opens.
pub open spec fn closes_before_opening(data: Seq<u8>) -> bool {
    exists|start: int, at: int|
        is_first_occurrence(data, start_marker(), start) && is_last_occurrence(
            data,
            end_marker(),
            at,
        ) && at + end_marker().len() < start
}

/// The bytes of the payload of `data`, where it has one.
pub open spec fn payload(data: Seq<u8>) -> Option<Seq<u8>> {
    match payload_range(data) {
        Some((start, end)) => Some(data.subrange(start, end)),
        None => None,
    }
}

/// `memchr::memmem::find` returns the index of the first occurrence of
/// `needle` in `haystack`, and `None` when there is none.
pub assume_specification[ memchr::memmem::find ](haystack: &[u8], needle: &[u8]) -> (found: Option<
    usize,
>)
    ensures
        match found {
            Some(at) => is_first_occurrence(haystack@, needle@, at as int),
            None => absent(haystack@, needle@),
        },
;

/// `memchr::memmem::rfind` returns the index of the last occurrence of
/// `needle` in `haystack`, and `None` when there is none.
pub assume_specification[ memchr::memmem::rfind ](haystack: &[u8], needle: &[u8]) -> (found:
    Option<usize>)
    ensures
        match found {
            Some(at) => is_last_occurrence(haystack@, needle@, at as int),
            None => absent(haystack@, needle@),
        },
;

/// Whether `needle` stands in `haystack` at index `at`.
fn stands_at(haystack: &[u8], needle: &[u8], at: usize) -> (stands: bool)
    requires
        at + needle@.len() <= haystack@.len(),
    ensures
        stands == occurs_at(haystack@, needle@, at as int),
{
    let len = haystack.len();
    let mut i: usize = 0;
    while i < needle.len()
        invariant
            i <= needle@.len(),
            len == haystack@.len(),
            at + needle@.len() <= haystack@.len(),
            forall|j: int| 0 <= j < i ==> haystack@[at + j] == needle@[j],
        decreases needle@.len() - i,
    {
        if haystack[at + i] != needle[i] {
            assert(haystack@.subrange(at as int, at + needle@.len())[i as int] != needle@[i as int]);
            return false;
        }
        i = i + 1;
    }
    assert(haystack@.subrange(at as int, at + needle@.len()) =~= needle@);
    true
}

/// The index of the first occurrence of `needle` in `haystack`, found by
/// trying every place in turn.
///
/// It gives what `memchr::memmem::find` is taken to give, and needs
/// nothing but this crate to say so.
pub fn first_index_of(haystack: &[u8], needle: &[u8]) -> (found: Option<usize>)
    ensures
        match found {
            Some(at) => is_first_occurrence(haystack@, needle@, at as int),
            None => absent(haystack@, needle@),
        },
{
    if needle.len() > haystack.len() {
        return None;
    }
    let last = haystack.len() - needle.len();
    let mut at: usize = 0;
    loop
        invariant
            at <= last,
            last == haystack@.len() - needle@.len(),
            forall|before: int| before < at ==> !occurs_at(haystack@, needle@, before),
        decreases last - at,
    {
        if stands_at(haystack, needle, at) {
            return Some(at);
        }
        if at == last {
            return None;
        }
        at = at + 1;
    }
}

/// The index of the last occurrence of `needle` in `haystack`, found by
/// trying every place in turn.
///
/// It gives what `memchr::memmem::rfind` is taken to give, and needs
/// nothing but this crate to say so.
pub fn last_index_of(haystack: &[u8], needle: &[u8]) -> (found: Option<usize>)
    ensures
        match found {
            Some(at) => is_last_occurrence(haystack@, needle@, at as int),
            None => absent(haystack@, needle@),
        },
{
    if needle.len() > haystack.len() {
        return None;
    }
    let last = haystack.len() - needle.len();
    let mut at: usize = last;
    loop
        invariant
            at <= last,
            last == haystack@.len() - needle@.len(),
            forall|after: int| at < after ==> !occurs_at(haystack@, needle@, after),
        decreases at,
    {
        if stands_at(haystack, needle, at) {
            return Some(at);
        }
        if at == 0 {
            return None;
        }
        at = at - 1;
    }
}

/// A sequence has at most one payload range.
pub proof fn lemma_payload_range_unique(data: Seq<u8>, start: int, end: int)
    requires
        is_payload_range(data, start, end),
    ensures
        payload_range(data) == Some((start, end)),
        payload(data) == Some(data.subrange(start, end)),
{
    let chosen = choose|range: (int, int)| is_payload_range(data, range.0, range.1);
    assert(is_payload_range(data, (start, end).0, (start, end).1));
    assert(is_payload_range(data, chosen.0, chosen.1));
    if chosen.0 < start {
        assert(!occurs_at(data, start_marker(), chosen.0));
    }
    if start < chosen.0 {
        assert(!occurs_at(data, start_marker(), start));
    }
    let tail = end_marker().len();
    if chosen.1 - tail < end - tail {
        assert(!occurs_at(data, end_marker(), end - tail));
    }
    if end - tail < chosen.1 - tail {
        assert(!occurs_at(data, end_marker(), chosen.1 - tail));
    }
    assert(chosen == (start, end));
}

/// Without a start marker, without an end marker, or with the last end
/// marker closing before the first start marker, there is no payload.
pub proof fn lemma_no_payload(data: Seq<u8>)
    requires
        absent(data, start_marker()) || absent(data, end_marker()) || closes_before_opening(data),
    ensures
        payload_range(data) is None,
        payload(data) is None,
{
    if has_payload(data) {
        let (s, e): (int, int) = choose|s: int, e: int| is_payload_range(data, s, e);
        let tail = end_marker().len();
        if absent(data, start_marker()) {
            assert(!occurs_at(data, start_marker(), s));
        } else if absent(data, end_marker()) {
            assert(!occurs_at(data, end_marker(), e - tail));
        } else {
            let (start, at): (int, int) = choose|start: int, at: int|
                is_first_occurrence(data, start_marker(), start) && is_last_occurrence(
                    data,
                    end_marker(),
                    at,
                ) && at + end_marker().len() < start;
            if s < start {
                assert(!occurs_at(data, start_marker(), s));
            }
            if start < s {
                assert(!occurs_at(data, start_marker(), start));
            }
            if at < e - tail {
                assert(!occurs_at(data, end_marker(), e - tail));
            }
            if e - tail < at {
                assert(!occurs_at(data, end_marker(), at));
            }
        }
    }
}

/// Where `needle` stands in `haystack` at all, it has a leftmost place.
pub proof fn lemma_first_occurrence_exists(haystack: Seq<u8>, needle: Seq<u8>, at: int)
    requires
        occurs_at(haystack, needle, at),
    ensures
        exists|first: int| first <= at && is_first_occurrence(haystack, needle, first),
    decreases at,
{
    if exists|before: int| before < at && occurs_at(haystack, needle, before) {
        let before = choose|before: int| before < at && occurs_at(haystack, needle, before);
        lemma_first_occurrence_exists(haystack, needle, before);
    } else {
        assert(is_first_occurrence(haystack, needle, at));
    }
}

/// Where `needle` stands in `haystack` at all, it has a rightmost place.
pub proof fn lemma_last_occurrence_exists(haystack: Seq<u8>, needle: Seq<u8>, at: int)
    requires
        occurs_at(haystack, needle, at),
    ensures
        exists|last: int| at <= last && is_last_occurrence(haystack, needle, last),
    decreases haystack.len() - at,
{
    if exists|after: int| at < after && occurs_at(haystack, needle, after) {
        let after = choose|after: int| at < after && occurs_at(haystack, needle, after);
        lemma_last_occurrence_exists(haystack, needle, after);
    } else {
        assert(is_last_occurrence(haystack, needle, at));
    }
}

/// Unless the last end marker closes before the first start marker opens,
/// `data` has no payload exactly when a marker is missing or the payload
/// would end beyond `data`. The end of the payload never lies beyond `data`.
pub proof fn lemma_no_payload_iff_marker_missing(data: Seq<u8>)
    requires
        !closes_before_opening(data),
    ensures
        payload_range(data) is None <==> absent(data, start_marker()) || absent(
            data,
            end_marker(),
        ) || exists|at: int|
            is_last_occurrence(data, end_marker(), at) && at + end_marker().len() > data.len(),
        forall|at: int|
            is_last_occurrence(data, end_marker(), at) ==> at + end_marker().len() <= data.len(),
{
    if absent(data, start_marker()) || absent(data, end_marker()) {
        lemma_no_payload(data);
    } else {
        let some_start = choose|at: int| occurs_at(data, start_marker(), at);
        let some_end = choose|at: int| occurs_at(data, end_marker(), at);
        lemma_first_occurrence_exists(data, start_marker(), some_start);
        lemma_last_occurrence_exists(data, end_marker(), some_end);
        let start = choose|first: int|
            first <= some_start && is_first_occurrence(data, start_marker(), first);
        let at = choose|last: int|
            some_end <= last && is_last_occurrence(data, end_marker(), last);
        assert(!(at + end_marker().len() < start));
        assert(is_payload_range(data, start, at + end_marker().len()));
        lemma_payload_range_unique(data, start, at + end_marker().len());
    }
}

/// A buffer made of `before`, one payload and `after`, in which each marker
/// stands once, has exactly that payload: its range starts behind `before`,
/// and cutting `data` at the range gives back the payload byte for byte,
/// markers included.
pub proof fn lemma_single_payload_is_found(
    data: Seq<u8>,
    before: Seq<u8>,
    body: Seq<u8>,
    after: Seq<u8>,
)
    requires
        data == before + start_marker() + body + end_marker() + after,
        forall|at: int| occurs_at(data, start_marker(), at) ==> at == before.len(),
        forall|at: int|
            occurs_at(data, end_marker(), at) ==> at == before.len() + start_marker().len()
                + body.len(),
    ensures
        payload_range(data) == Some(
            (
                before.len() as int,
                (before.len() + start_marker().len() + body.len() + end_marker().len()) as int,
            ),
        ),
        payload(data) == Some(start_marker() + body + end_marker()),
{
    let start = before.len() as int;
    let close = start + start_marker().len() + body.len();
    let end = close + end_marker().len();
    assert(data.subrange(start, start + start_marker().len()) =~= start_marker());
    assert(data.subrange(close, end) =~= end_marker());
    assert(occurs_at(data, start_marker(), start));
    assert(occurs_at(data, end_marker(), close));
    assert(is_payload_range(data, start, end));
    lemma_payload_range_unique(data, start, end);
    assert(data.subrange(start, end) =~= start_marker() + body + end_marker());
}

/// Finds the payload of `data` and returns its range `start..end`.
///
/// The range starts at the first start marker and ends behind the last end
/// marker. There is none where a marker is missing or the last end marker
/// closes before the first start marker.
pub fn locate(data: &[u8]) -> (range: Option<(usize, usize)>)
    ensures
        match range {
            Some((start, end)) => {
                &&& payload_range(data@) == Some((start as int, end as int))
                &&& is_payload_range(data@, start as int, end as int)
                &&& start <= end <= data@.len()
            },
            None => payload_range(data@) is None,
        },
{
    let prefix = PLIST_PREFIX;
    let suffix = PLIST_SUFFIX;
    let first = memchr::memmem::find(data, prefix.as_slice());
    let last = memchr::memmem::rfind(data, suffix.as_slice());
    match (first, last) {
        (Some(start), Some(at)) => {
            assert(occurs_at(data@, end_marker(), at as int));
            assert(at + suffix@.len() <= data.len());
            let end = at + suffix.len();
            if start <= end {
                proof {
                    lemma_payload_range_unique(data@, start as int, end as int);
                }
                Some((start, end))
            } else {
                proof {
                    assert(is_first_occurrence(data@, start_marker(), start as int));
                    assert(is_last_occurrence(data@, end_marker(), at as int));
                    lemma_no_payload(data@);
                }
                None
            }
        },
        _ => {
            proof {
                lemma_no_payload(data@);
            }
            None
        },
    }
}

/// Finds the payload of `data` and returns it as a slice of `data`.
pub fn find(data: &[u8]) -> (found: Option<&[u8]>)
    ensures
        match found {
            Some(slice) => payload(data@) == Some(slice@),
            None => payload(data@) is None,
        },
{
    match locate(data) {
        Some((start, end)) => Some(slice_subrange(data, start, end)),
        None => None,
    }
}

} // verus!
