//! The property list of a profile as a flat run of events.
//!
//! The XML is read by the `plist` crate, event by event: a collection opens
//! and closes, a leaf is one event. A dictionary is a run of keys, each
//! followed by its value. Nothing here builds a tree, so a document may be
//! nested as deeply as it likes.
//!
//! Before the bytes go to the reader, their dates are looked at: a payload
//! with a date that the reader cannot hold is not read at all.

use crate::date::Timestamp;
use crate::dates::has_readable_dates;
use crate::text::same_text;
use vstd::prelude::*;

verus! {

/// One event of a property list, as this crate keeps it.
#[derive(Clone, Debug, PartialEq)]
pub enum Token {
    /// An array opens.
    StartArray,
    /// A dictionary opens.
    StartDictionary,
    /// The innermost open array or dictionary closes.
    EndCollection,
    /// A string, or the key of a dictionary entry.
    Text(String),
    /// A date.
    Date(Timestamp),
    /// A boolean, number, data or uid leaf.
    Other,
}

/// `events[at]` opens a collection.
pub open spec fn opens(events: Seq<Token>, at: int) -> bool {
    events[at] is StartArray || events[at] is StartDictionary
}

/// The index behind the value that is being read at `events[at]` with
/// `depth` collections of it open: behind the event that closes the
/// outermost of them, or behind `events[at]` itself where none is open and
/// it is a leaf. `None` where the events end before the value does.
pub open spec fn end_of(events: Seq<Token>, at: int, depth: nat) -> Option<int>
    decreases events.len() - at,
{
    if at < 0 || at >= events.len() {
        None
    } else if opens(events, at) {
        end_of(events, at + 1, depth + 1)
    } else if events[at] is EndCollection {
        if depth == 0 {
            None
        } else if depth == 1 {
            Some(at + 1)
        } else {
            end_of(events, at + 1, (depth - 1) as nat)
        }
    } else if depth == 0 {
        Some(at + 1)
    } else {
        end_of(events, at + 1, depth)
    }
}

/// The index behind the value that starts at `events[at]`: a leaf, or a
/// collection with all that it holds.
pub open spec fn value_end(events: Seq<Token>, at: int) -> Option<int> {
    end_of(events, at, 0)
}

/// What is left of a dictionary from `events[at]` on, where a key or the end
/// of the dictionary stands: the places of its keys in order, and the index
/// behind the event that closes it. Each key is a string and is followed by
/// its value. `None` where something else stands in the place of a key or
/// the events end before the dictionary does.
pub open spec fn dict_entries(events: Seq<Token>, at: int) -> Option<(Seq<int>, int)>
    decreases events.len() - at,
{
    if at < 0 || at >= events.len() {
        None
    } else if events[at] is EndCollection {
        Some((Seq::empty(), at + 1))
    } else if events[at] is Text {
        match value_end(events, at + 1) {
            Some(next) => if at < next <= events.len() {
                match dict_entries(events, next) {
                    Some((keys, end)) => Some((seq![at] + keys, end)),
                    None => None,
                }
            } else {
                None
            },
            None => None,
        }
    } else {
        None
    }
}

/// The keys read so far, followed by what the rest of the dictionary gives.
pub open spec fn entries_after(before: Seq<int>, rest: Option<(Seq<int>, int)>) -> Option<
    (Seq<int>, int),
> {
    match rest {
        Some((keys, end)) => Some((before + keys, end)),
        None => None,
    }
}

/// The places of the keys of the dictionary that opens at `events[at]`;
/// `None` where no dictionary opens there or it is broken.
pub open spec fn keys_at(events: Seq<Token>, at: int) -> Option<Seq<int>> {
    if 0 <= at < events.len() && events[at] is StartDictionary {
        match dict_entries(events, at + 1) {
            Some((keys, _)) => Some(keys),
            None => None,
        }
    } else {
        None
    }
}

/// The places of the keys of the document, where `events` are one
/// dictionary from the first event to the last; `None` otherwise.
pub open spec fn root_keys(events: Seq<Token>) -> Option<Seq<int>> {
    if events.len() > 0 && events[0] is StartDictionary {
        match dict_entries(events, 1) {
            Some((keys, end)) => if end == events.len() {
                Some(keys)
            } else {
                None
            },
            None => None,
        }
    } else {
        None
    }
}

/// The key at `events[at]` reads `key`, and an event follows it.
pub open spec fn is_key(events: Seq<Token>, at: int, key: Seq<char>) -> bool {
    &&& 0 <= at
    &&& at + 1 < events.len()
    &&& events[at] matches Token::Text(text) && text@ == key
}

/// Accepts the places of keys that read `key`.
pub open spec fn reads(events: Seq<Token>, key: Seq<char>) -> spec_fn(int) -> bool {
    |at: int| is_key(events, at, key)
}

/// The place of the value under `key`: behind the one of `keys` that reads
/// `key`. `None` where none of them reads `key`, and where more than one
/// does: a key that stands twice has no value.
pub open spec fn value_under(events: Seq<Token>, keys: Seq<int>, key: Seq<char>) -> Option<int> {
    let found = keys.filter(reads(events, key));
    if found.len() == 1 {
        Some(found[0] + 1)
    } else {
        None
    }
}

/// `places` as indices.
pub open spec fn indices(places: Seq<usize>) -> Seq<int> {
    places.map_values(|place: usize| place as int)
}

/// `plist::stream::Event`, an event as the `plist` crate reads it. Nothing
/// is known of what is inside: it is only handed from the reader to
/// [`token_of`].
#[verifier::external_type_specification]
#[verifier::external_body]
pub struct ExEvent<'a>(plist::stream::Event<'a>);

/// `plist::Date`, the date of an event. Nothing is known of what is inside:
/// it is only handed to [`timestamp_of`].
#[verifier::external_type_specification]
#[verifier::external_body]
pub struct ExDate(plist::Date);

/// The events that `plist::stream::XmlReader` reads from the bytes `xml`;
/// `None` where it reports an error.
pub uninterp spec fn xml_events(xml: Seq<u8>) -> Option<Seq<Token>>;

/// Reads `xml` with `plist::stream::XmlReader` to its end. The result
/// depends on the bytes alone: the events in the order in which the reader
/// gives them, each turned by [`token_of`], or `None` where the reader
/// gives an error in place of an event.
///
/// For an element named `date` the reader parses the content as RFC 3339,
/// turns it to UTC with `time::OffsetDateTime::to_offset` and counts it
/// from the epoch as a `SystemTime`. The first panics where the date leaves
/// the year 9999, the second where the clock cannot hold the date, which
/// `time` says may happen. Payloads are therefore left out in which the
/// content of such an element may be a date that, counted in UTC, lies
/// before the epoch or behind the year 9999. What is admitted holds only
/// dates from the epoch to the end of the year 9999, and texts that are no
/// dates, on which the reader gives an error.
#[verifier::external_body]
pub(crate) fn read_events(xml: &[u8]) -> (events: Option<Vec<Token>>)
    requires
        has_readable_dates(xml@),
    ensures
        match events {
            Some(events) => xml_events(xml@) == Some(events@),
            None => xml_events(xml@) is None,
        },
{
    plist::stream::XmlReader::new(std::io::Cursor::new(xml))
        .map(|event| event.map(token_of))
        .collect::<Result<Vec<Token>, plist::Error>>()
        .ok()
}

/// Turns an event of `plist` into a [`Token`], variant by variant: a string
/// and a date with what they hold, every other leaf as [`Token::Other`].
#[verifier::external_body]
fn token_of(event: plist::stream::Event<'static>) -> Token {
    match event {
        plist::stream::Event::StartArray(_) => Token::StartArray,
        plist::stream::Event::StartDictionary(_) => Token::StartDictionary,
        plist::stream::Event::EndCollection => Token::EndCollection,
        plist::stream::Event::String(text) => Token::Text(text.into_owned()),
        plist::stream::Event::Date(date) => Token::Date(timestamp_of(date)),
        _ => Token::Other,
    }
}

/// Turns a `plist::Date` into a [`Timestamp`]: the distance that
/// `SystemTime::duration_since` gives from the Unix epoch, and its side.
#[verifier::external_body]
fn timestamp_of(date: plist::Date) -> Timestamp {
    match std::time::SystemTime::from(date).duration_since(std::time::UNIX_EPOCH) {
        Ok(after) => Timestamp {
            before_epoch: false,
            secs: after.as_secs(),
            nanos: after.subsec_nanos(),
        },
        Err(before) => Timestamp {
            before_epoch: true,
            secs: before.duration().as_secs(),
            nanos: before.duration().subsec_nanos(),
        },
    }
}

/// A value that ends, ends behind its first event and within the events.
pub proof fn lemma_end_of_bounds(events: Seq<Token>, at: int, depth: nat)
    ensures
        end_of(events, at, depth) matches Some(end) ==> at < end <= events.len(),
    decreases events.len() - at,
{
    if 0 <= at < events.len() {
        if opens(events, at) {
            lemma_end_of_bounds(events, at + 1, depth + 1);
        } else if events[at] is EndCollection {
            if depth > 1 {
                lemma_end_of_bounds(events, at + 1, (depth - 1) as nat);
            }
        } else if depth > 0 {
            lemma_end_of_bounds(events, at + 1, depth);
        }
    }
}

/// The keys of a dictionary stand within it, each a string with its value
/// before the end of the dictionary; the dictionary ends within the events.
pub proof fn lemma_dict_entries_bounds(events: Seq<Token>, at: int)
    ensures
        dict_entries(events, at) matches Some((keys, end)) ==> {
            &&& at < end <= events.len()
            &&& forall|i: int|
                0 <= i < keys.len() ==> at <= #[trigger] keys[i] && keys[i] + 1 < end
                    && events[keys[i]] is Text
        },
    decreases events.len() - at,
{
    if 0 <= at < events.len() && events[at] is Text {
        lemma_end_of_bounds(events, at + 1, 0);
        match value_end(events, at + 1) {
            Some(next) => {
                lemma_dict_entries_bounds(events, next);
                match dict_entries(events, next) {
                    Some((rest, end)) => {
                        let keys = seq![at] + rest;
                        assert forall|i: int| 0 <= i < keys.len() implies at <= #[trigger] keys[i]
                            && keys[i] + 1 < end && events[keys[i]] is Text by {
                            if i > 0 {
                                assert(keys[i] == rest[i - 1]);
                            }
                        }
                    },
                    None => {},
                }
            },
            None => {},
        }
    }
}

/// The index behind the value that starts at `events[at]`.
pub fn skip_value(events: &[Token], at: usize) -> (end: Option<usize>)
    ensures
        match end {
            Some(end) => value_end(events@, at as int) == Some(end as int) && at < end
                <= events@.len(),
            None => value_end(events@, at as int) is None,
        },
{
    if at >= events.len() {
        return None;
    }
    let mut depth: usize = 0;
    let mut cur: usize = at;
    while cur < events.len()
        invariant
            at <= cur <= events@.len(),
            depth <= cur - at,
            value_end(events@, at as int) == end_of(events@, cur as int, depth as nat),
        decreases events@.len() - cur,
    {
        match &events[cur] {
            Token::StartArray | Token::StartDictionary => {
                depth = depth + 1;
            },
            Token::EndCollection => {
                if depth == 0 {
                    return None;
                } else if depth == 1 {
                    return Some(cur + 1);
                }
                depth = depth - 1;
            },
            _ => {
                if depth == 0 {
                    return Some(cur + 1);
                }
            },
        }
        cur = cur + 1;
    }
    None
}

/// Reads what is left of a dictionary from `events[at]` on: the places of
/// its keys, and the index behind its end.
pub fn read_dict(events: &[Token], at: usize) -> (entries: Option<(Vec<usize>, usize)>)
    ensures
        match entries {
            Some((keys, end)) => {
                &&& dict_entries(events@, at as int) == Some((indices(keys@), end as int))
                &&& at < end <= events@.len()
                &&& forall|i: int|
                    0 <= i < keys@.len() ==> at <= #[trigger] keys@[i] && keys@[i] + 1 < end
                        && events@[keys@[i] as int] is Text
            },
            None => dict_entries(events@, at as int) is None,
        },
{
    if at >= events.len() {
        return None;
    }
    let mut keys: Vec<usize> = Vec::new();
    let mut cur: usize = at;
    proof {
        assert(indices(keys@) =~= Seq::<int>::empty());
        match dict_entries(events@, at as int) {
            Some((all, _)) => {
                assert(Seq::<int>::empty() + all =~= all);
            },
            None => {},
        }
    }
    while cur < events.len()
        invariant
            at <= cur <= events@.len(),
            dict_entries(events@, at as int) == entries_after(
                indices(keys@),
                dict_entries(events@, cur as int),
            ),
        decreases events@.len() - cur,
    {
        match &events[cur] {
            Token::EndCollection => {
                proof {
                    assert(indices(keys@) + Seq::<int>::empty() =~= indices(keys@));
                    lemma_dict_entries_bounds(events@, at as int);
                    assert forall|i: int| 0 <= i < keys@.len() implies at <= #[trigger] keys@[i]
                        && keys@[i] + 1 < cur + 1 && events@[keys@[i] as int] is Text by {
                        assert(indices(keys@)[i] == keys@[i]);
                    }
                }
                return Some((keys, cur + 1));
            },
            Token::Text(_) => {
                match skip_value(events, cur + 1) {
                    Some(next) => {
                        proof {
                            let before = indices(keys@);
                            let rest = dict_entries(events@, next as int);
                            assert(indices(keys@.push(cur)) =~= before.push(cur as int));
                            match rest {
                                Some((later, end)) => {
                                    assert(before + (seq![cur as int] + later) =~= before.push(
                                        cur as int,
                                    ) + later);
                                },
                                None => {},
                            }
                        }
                        keys.push(cur);
                        cur = next;
                    },
                    None => {
                        return None;
                    },
                }
            },
            _ => {
                return None;
            },
        }
    }
    None
}

/// Looks up the value under `key` among the entries at `keys`: the place
/// behind the one key that reads `key`, and `None` where no key or more
/// than one reads it.
pub fn find_value(events: &[Token], keys: &Vec<usize>, key: &str) -> (found: Option<usize>)
    ensures
        match found {
            Some(at) => value_under(events@, indices(keys@), key@) == Some(at as int) && at
                < events@.len(),
            None => value_under(events@, indices(keys@), key@) is None,
        },
{
    let len = events.len();
    let mut count: usize = 0;
    let mut first: usize = 0;
    let mut i: usize = 0;
    proof {
        reveal(Seq::filter);
        assert(indices(keys@).take(0) =~= Seq::<int>::empty());
    }
    while i < keys.len()
        invariant
            i <= keys.len(),
            len == events@.len(),
            count <= i,
            count == indices(keys@).take(i as int).filter(reads(events@, key@)).len(),
            count >= 1 ==> first + 1 < events@.len() && first == indices(keys@).take(
                i as int,
            ).filter(reads(events@, key@))[0],
        decreases keys.len() - i,
    {
        let ghost upto = indices(keys@).take(i + 1);
        proof {
            reveal(Seq::filter);
            assert(upto.drop_last() =~= indices(keys@).take(i as int));
            assert(upto.last() == keys@[i as int]);
        }
        let at = keys[i];
        if at < len && at + 1 < len {
            let reads_key = match &events[at] {
                Token::Text(text) => same_text(text.as_str(), key),
                _ => false,
            };
            if reads_key {
                if count == 0 {
                    first = at;
                }
                count = count + 1;
            }
        }
        i = i + 1;
    }
    proof {
        assert(indices(keys@).take(keys@.len() as int) =~= indices(keys@));
    }
    if count == 1 {
        Some(first + 1)
    } else {
        None
    }
}

} // verus!
