//! What a provisioning profile says of itself.

use crate::date::Timestamp;
use crate::dates::{dates_are_readable, has_readable_dates};
use crate::document::{
    find_value, indices, keys_at, read_dict, read_events, root_keys, value_under, xml_events, Token,
};
use crate::error::Error;
use crate::plist_extractor::payload;
use crate::text::{contains_ignoring_case, has_substring, same_text};
use vstd::prelude::*;
use vstd::string::StrSliceExecFns;

verus! {

/// A file with a provisioning profile: where it was read from and what it
/// holds.
#[derive(Debug, Clone)]
pub struct Profile {
    /// The path of the file.
    pub path: String,
    /// What the file holds.
    pub info: Info,
}

/// The decoded fields of a provisioning profile.
#[derive(Debug, PartialEq, Clone)]
pub struct Info {
    /// The identifier of the profile; any string.
    pub uuid: String,
    /// The name of the profile for people.
    pub name: String,
    /// The team prefix, a `.` and the bundle id or a wildcard.
    pub app_identifier: String,
    /// When the profile was made.
    pub creation_date: Timestamp,
    /// When the profile expires.
    pub expiration_date: Timestamp,
}

/// `at` is the place of the first `.` in `id`.
pub open spec fn is_first_dot(id: Seq<char>, at: int) -> bool {
    &&& 0 <= at < id.len()
    &&& id[at] == '.'
    &&& forall|before: int| 0 <= before < at ==> id[before] != '.'
}

/// The bundle id in the application identifier `id`: what follows its first
/// `.`, and `None` where it has no `.`.
pub open spec fn bundle_id_of(id: Seq<char>) -> Option<Seq<char>> {
    if exists|at: int| is_first_dot(id, at) {
        let at = choose|at: int| is_first_dot(id, at);
        Some(id.subrange(at + 1, id.len() as int))
    } else {
        None
    }
}

/// An application identifier with a `.` has as its bundle id exactly what
/// follows the first `.`; one without a `.` has none.
pub proof fn lemma_bundle_id(id: Seq<char>)
    ensures
        forall|at: int|
            is_first_dot(id, at) ==> bundle_id_of(id) == Some(
                id.subrange(at + 1, id.len() as int),
            ),
        (forall|at: int| 0 <= at < id.len() ==> id[at] != '.') ==> bundle_id_of(id) is None,
        id.contains('.') <==> bundle_id_of(id) is Some,
{
    assert forall|at: int| is_first_dot(id, at) implies bundle_id_of(id) == Some(
        id.subrange(at + 1, id.len() as int),
    ) by {
        let chosen = choose|at: int| is_first_dot(id, at);
        assert(chosen == at);
    }
    if id.contains('.') {
        let some = choose|at: int| 0 <= at < id.len() && id[at] == '.';
        lemma_first_dot_exists(id, some);
    }
    if bundle_id_of(id) is Some {
        let chosen = choose|at: int| is_first_dot(id, at);
        assert(id[chosen] == '.');
    }
}

/// A `.` at `at` has a first `.` at or before it.
pub proof fn lemma_first_dot_exists(id: Seq<char>, at: int)
    requires
        0 <= at < id.len(),
        id[at] == '.',
    ensures
        exists|first: int| first <= at && is_first_dot(id, first),
    decreases at,
{
    if exists|before: int| 0 <= before < at && id[before] == '.' {
        let before = choose|before: int| 0 <= before < at && id[before] == '.';
        lemma_first_dot_exists(id, before);
    } else {
        assert(is_first_dot(id, at));
    }
}

/// The string under `key` in the dictionary with the keys at `keys`: `None`
/// where the key is missing or its value is no string.
pub open spec fn text_at(events: Seq<Token>, keys: Seq<int>, key: Seq<char>) -> Option<String> {
    match value_under(events, keys, key) {
        Some(at) => match events[at] {
            Token::Text(text) => Some(text),
            _ => None,
        },
        None => None,
    }
}

/// The date under `key` in the dictionary with the keys at `keys`: `None`
/// where the key is missing or its value is no date.
pub open spec fn date_at(events: Seq<Token>, keys: Seq<int>, key: Seq<char>) -> Option<Timestamp> {
    match value_under(events, keys, key) {
        Some(at) => match events[at] {
            Token::Date(date) => Some(date),
            _ => None,
        },
        None => None,
    }
}

/// The places of the keys of the dictionary under `key` in the dictionary
/// with the keys at `keys`: `None` where the key is missing or its value is
/// no dictionary.
pub open spec fn dict_at(events: Seq<Token>, keys: Seq<int>, key: Seq<char>) -> Option<Seq<int>> {
    match value_under(events, keys, key) {
        Some(at) => keys_at(events, at),
        None => None,
    }
}

/// The application identifier of the document with the keys at `keys`: the
/// string under `application-identifier` in the dictionary under
/// `Entitlements`.
pub open spec fn app_identifier_at(events: Seq<Token>, keys: Seq<int>) -> Option<String> {
    match dict_at(events, keys, "Entitlements"@) {
        Some(entitlements) => text_at(events, entitlements, "application-identifier"@),
        None => None,
    }
}

/// The profile info that the document `events` holds. There is one where
/// the document is one dictionary with all five fields, each of its type,
/// and none otherwise.
pub open spec fn decoded(events: Seq<Token>) -> Option<Info> {
    match root_keys(events) {
        Some(keys) => match (
            text_at(events, keys, "UUID"@),
            text_at(events, keys, "Name"@),
            app_identifier_at(events, keys),
            date_at(events, keys, "CreationDate"@),
            date_at(events, keys, "ExpirationDate"@),
        ) {
            (
                Some(uuid),
                Some(name),
                Some(app_identifier),
                Some(creation_date),
                Some(expiration_date),
            ) => Some(Info { uuid, name, app_identifier, creation_date, expiration_date }),
            _ => None,
        },
        None => None,
    }
}

/// The profile info in the bytes `data` of a profile: that of the document
/// which the payload of `data` reads as. There is none where `data` has no
/// payload, a date of the payload cannot be held, the payload is no
/// property list, or a field is missing. A date cannot be held where,
/// counted in UTC, it lies before the Unix epoch or behind the year 9999.
pub open spec fn decoded_data(data: Seq<u8>) -> Option<Info> {
    match payload(data) {
        Some(xml) => if has_readable_dates(xml) {
            match xml_events(xml) {
                Some(events) => decoded(events),
                None => None,
            }
        } else {
            None
        },
        None => None,
    }
}

/// A document gives a profile info only as a whole: every field of a
/// decoded info is the value that the document holds for it, and a document
/// that lacks one of the five gives none.
pub proof fn lemma_decoded_all_or_nothing(events: Seq<Token>)
    ensures
        match decoded(events) {
            Some(info) => root_keys(events) matches Some(keys) && {
                &&& text_at(events, keys, "UUID"@) == Some(info.uuid)
                &&& text_at(events, keys, "Name"@) == Some(info.name)
                &&& app_identifier_at(events, keys) == Some(info.app_identifier)
                &&& date_at(events, keys, "CreationDate"@) == Some(info.creation_date)
                &&& date_at(events, keys, "ExpirationDate"@) == Some(info.expiration_date)
            },
            None => root_keys(events) matches Some(keys) ==> {
                ||| text_at(events, keys, "UUID"@) is None
                ||| text_at(events, keys, "Name"@) is None
                ||| app_identifier_at(events, keys) is None
                ||| date_at(events, keys, "CreationDate"@) is None
                ||| date_at(events, keys, "ExpirationDate"@) is None
            },
        },
{
}

/// The string under `key` in the dictionary with the keys at `keys`.
fn text_of<'a>(events: &'a [Token], keys: &Vec<usize>, key: &str) -> (text: Option<&'a String>)
    ensures
        match text {
            Some(text) => text_at(events@, indices(keys@), key@) == Some(*text),
            None => text_at(events@, indices(keys@), key@) is None,
        },
{
    match find_value(events, keys, key) {
        Some(at) => match &events[at] {
            Token::Text(text) => Some(text),
            _ => None,
        },
        None => None,
    }
}

/// The date under `key` in the dictionary with the keys at `keys`.
fn date_of(events: &[Token], keys: &Vec<usize>, key: &str) -> (date: Option<Timestamp>)
    ensures
        date == date_at(events@, indices(keys@), key@),
{
    match find_value(events, keys, key) {
        Some(at) => match &events[at] {
            Token::Date(date) => Some(*date),
            _ => None,
        },
        None => None,
    }
}

/// The places of the keys of the dictionary under `key` in the dictionary
/// with the keys at `keys`.
fn dict_of(events: &[Token], keys: &Vec<usize>, key: &str) -> (inner: Option<Vec<usize>>)
    ensures
        match inner {
            Some(inner) => dict_at(events@, indices(keys@), key@) == Some(indices(inner@)),
            None => dict_at(events@, indices(keys@), key@) is None,
        },
{
    match find_value(events, keys, key) {
        Some(at) => match &events[at] {
            Token::StartDictionary => match read_dict(events, at + 1) {
                Some((inner, _)) => Some(inner),
                None => None,
            },
            _ => None,
        },
        None => None,
    }
}

impl Profile {
    /// A copy of this profile.
    pub fn duplicate(&self) -> (copy: Profile)
        ensures
            copy == *self,
    {
        Profile { path: self.path.clone(), info: self.info.duplicate() }
    }

    /// The profile read from the bytes `data` of the file at `path`.
    ///
    /// Fails with [`Error::Decode`], which names `path`, where `data` holds
    /// no profile info.
    pub fn from_data(path: &str, data: &[u8]) -> (profile: Result<Profile, Error>)
        ensures
            match profile {
                Ok(profile) => profile.path@ == path@ && decoded_data(data@) == Some(profile.info),
                Err(Error::Decode(name)) => name@ == path@ && decoded_data(data@) is None,
                Err(_) => false,
            },
    {
        match Info::from_xml_data(data) {
            Some(info) => Ok(Profile { path: path.to_owned(), info }),
            None => Err(Error::Decode(path.to_owned())),
        }
    }
}

impl Info {
    /// The profile info in the bytes `data` of a profile, or `None` where
    /// they hold none.
    ///
    /// The payload is the part of `data` from the first start marker to the
    /// end of the last end marker; it is read as an XML property list. A
    /// payload with a date before the Unix epoch or behind the year 9999,
    /// both counted in UTC, is refused before it is read.
    pub fn from_xml_data(data: &[u8]) -> (info: Option<Info>)
        ensures
            info == decoded_data(data@),
    {
        match crate::plist_extractor::find(data) {
            Some(xml) => if dates_are_readable(xml) {
                match read_events(xml) {
                    Some(events) => Info::from_events(events.as_slice()),
                    None => None,
                }
            } else {
                None
            },
            None => None,
        }
    }

    /// The profile info that the document `events` holds, or `None` where
    /// the document is not one dictionary or lacks one of the five fields.
    ///
    /// The uuid, the name and the two dates stand at the top level, under
    /// `UUID`, `Name`, `CreationDate` and `ExpirationDate`; the application
    /// identifier stands under `application-identifier` in the dictionary
    /// under `Entitlements`. A field whose key stands twice in its
    /// dictionary counts as missing.
    pub fn from_events(events: &[Token]) -> (info: Option<Info>)
        ensures
            info == decoded(events@),
    {
        if events.len() == 0 {
            return None;
        }
        let keys = match &events[0] {
            Token::StartDictionary => match read_dict(events, 1) {
                Some((keys, end)) => {
                    if end != events.len() {
                        return None;
                    }
                    keys
                },
                None => {
                    return None;
                },
            },
            _ => {
                return None;
            },
        };
        let uuid = text_of(events, &keys, "UUID");
        let name = text_of(events, &keys, "Name");
        let app_identifier = match dict_of(events, &keys, "Entitlements") {
            Some(entitlements) => text_of(events, &entitlements, "application-identifier"),
            None => None,
        };
        let creation_date = date_of(events, &keys, "CreationDate");
        let expiration_date = date_of(events, &keys, "ExpirationDate");
        match (uuid, name, app_identifier, creation_date, expiration_date) {
            (
                Some(uuid),
                Some(name),
                Some(app_identifier),
                Some(creation_date),
                Some(expiration_date),
            ) => Some(
                Info {
                    uuid: uuid.clone(),
                    name: name.clone(),
                    app_identifier: app_identifier.clone(),
                    creation_date,
                    expiration_date,
                },
            ),
            _ => None,
        }
    }

    /// A copy of this profile info.
    pub fn duplicate(&self) -> (copy: Info)
        ensures
            copy == *self,
    {
        Info {
            uuid: self.uuid.clone(),
            name: self.name.clone(),
            app_identifier: self.app_identifier.clone(),
            creation_date: self.creation_date,
            expiration_date: self.expiration_date,
        }
    }

    /// The profile info with empty strings and both dates at the Unix epoch.
    pub fn empty() -> (info: Info)
        ensures
            info.uuid@ == Seq::<char>::empty(),
            info.name@ == Seq::<char>::empty(),
            info.app_identifier@ == Seq::<char>::empty(),
            info.creation_date == Timestamp::epoch_spec(),
            info.expiration_date == Timestamp::epoch_spec(),
    {
        Info {
            uuid: String::new(),
            name: String::new(),
            app_identifier: String::new(),
            creation_date: Timestamp::epoch(),
            expiration_date: Timestamp::epoch(),
        }
    }

    /// Whether `string` stands in the name, the application identifier or the
    /// uuid of the profile, the case of letters ignored.
    pub fn contains(&self, string: &str) -> (found: bool)
        ensures
            found == self.spec_contains(string@),
    {
        let needle = string.to_lowercase();
        has_substring(self.name.as_str().to_lowercase().as_str(), needle.as_str())
            || has_substring(
            self.app_identifier.as_str().to_lowercase().as_str(),
            needle.as_str(),
        ) || has_substring(self.uuid.as_str().to_lowercase().as_str(), needle.as_str())
    }

    /// `needle` stands in one of the three text fields, case ignored.
    pub open spec fn spec_contains(&self, needle: Seq<char>) -> bool {
        ||| contains_ignoring_case(self.name@, needle)
        ||| contains_ignoring_case(self.app_identifier@, needle)
        ||| contains_ignoring_case(self.uuid@, needle)
    }

    /// `id` is the uuid or the bundle id of the profile.
    pub open spec fn has_id(&self, id: Seq<char>) -> bool {
        self.uuid@ == id || bundle_id_of(self.app_identifier@) == Some(id)
    }

    /// One of `ids` is the uuid or the bundle id of the profile.
    pub open spec fn spec_has_ids(&self, ids: Seq<&str>) -> bool {
        exists|i: int| 0 <= i < ids.len() && self.has_id(#[trigger] ids[i]@)
    }

    /// Whether the profile has one of `ids` as its uuid or its bundle id.
    pub fn has_ids(&self, ids: &[&str]) -> (found: bool)
        ensures
            found == self.spec_has_ids(ids@),
    {
        let bundle_id = self.bundle_id();
        let mut at: usize = 0;
        while at < ids.len()
            invariant
                at <= ids.len(),
                match bundle_id {
                    Some(id) => bundle_id_of(self.app_identifier@) == Some(id@),
                    None => bundle_id_of(self.app_identifier@) is None,
                },
                forall|i: int| 0 <= i < at ==> !self.has_id(#[trigger] ids@[i]@),
            decreases ids.len() - at,
        {
            let id = ids[at];
            let in_bundle = match bundle_id {
                Some(bundle) => same_text(bundle, id),
                None => false,
            };
            if same_text(self.uuid.as_str(), id) || in_bundle {
                assert(self.has_id(ids@[at as int]@));
                return true;
            }
            at = at + 1;
        }
        false
    }

    /// The bundle id of the profile: what follows the first `.` of its
    /// application identifier.
    pub fn bundle_id(&self) -> (id: Option<&str>)
        ensures
            match id {
                Some(id) => bundle_id_of(self.app_identifier@) == Some(id@),
                None => bundle_id_of(self.app_identifier@) is None,
            },
    {
        let text = self.app_identifier.as_str();
        let len = text.unicode_len();
        let mut at: usize = 0;
        while at < len
            invariant
                at <= len,
                len == text@.len(),
                text@ == self.app_identifier@,
                forall|before: int| 0 <= before < at ==> text@[before] != '.',
            decreases len - at,
        {
            if text.get_char(at) == '.' {
                proof {
                    assert(is_first_dot(text@, at as int));
                    lemma_bundle_id(text@);
                }
                return Some(text.substring_char(at + 1, len));
            }
            at = at + 1;
        }
        proof {
            lemma_bundle_id(text@);
        }
        None
    }
}

} // verus!
