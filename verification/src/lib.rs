//! Locating, decoding and filtering provisioning profiles.
//!
//! A provisioning profile is a binary envelope around one XML property list.
//! This crate finds that payload, decodes the fields that identify a profile,
//! and answers the questions a profile manager asks of a directory of such
//! files. Reading and deleting files is left to the caller: every function
//! here works on bytes and values already in memory.

pub mod plist_extractor;
pub mod text;
pub mod cli;
pub mod date;
pub mod dates;
pub mod document;
pub mod error;
pub mod listing;
pub mod profile;
pub mod path;
pub mod scan;

pub use crate::error::Error;
pub use crate::profile::Profile;
pub use crate::scan::{filter, RawProfile};

use crate::date::Timestamp;
use crate::path::{extension, join, path_extension, path_join};
use crate::plist_extractor::payload;
use crate::profile::{decoded_data, Info};
use crate::scan::{decides, kept_profiles};
use crate::text::{same_text, text_of_utf8};
use vstd::prelude::*;
use vstd::string::StringExecFns;
use vstd::utf8::{decode_utf8, valid_utf8};

verus! {

/// The file extension of a provisioning profile.
pub const EXT_MOBILEPROVISION: &'static str = "mobileprovision";

/// The directory of installed profiles, below the home directory.
pub const PROFILES_DIRECTORY: &'static str = "Library/MobileDevice/Provisioning Profiles";

/// `path` names a provisioning profile: its extension is
/// `mobileprovision`, letter for letter.
pub open spec fn is_profile_path(path: Seq<char>) -> bool {
    path_extension(path) == Some(EXT_MOBILEPROVISION@)
}

/// Returns true if `file_path` is the path of a provisioning profile.
pub fn is_mobileprovision(file_path: &str) -> (is_profile: bool)
    ensures
        is_profile == is_profile_path(file_path@),
{
    match extension(file_path) {
        Some(ext) => same_text(ext, EXT_MOBILEPROVISION),
        None => false,
    }
}

/// Checks that `file_path` has the extension of a provisioning profile.
///
/// Returns the path where it has, and [`Error::Validation`] with the path
/// where it has not.
pub fn validate_path(file_path: &str) -> (checked: Result<&str, Error>)
    ensures
        match checked {
            Ok(path) => is_profile_path(file_path@) && path@ == file_path@,
            Err(Error::Validation(path)) => !is_profile_path(file_path@) && path@ == file_path@,
            Err(_) => false,
        },
{
    if is_mobileprovision(file_path) {
        Ok(file_path)
    } else {
        Err(Error::Validation(file_path.to_owned()))
    }
}

/// The directory that holds the installed profiles of the user whose home
/// directory is `home`: [`PROFILES_DIRECTORY`] below it.
///
/// Fails with [`Error::NoHome`] where `home` is `None`.
pub fn directory(home: Option<&str>) -> (dir: Result<String, Error>)
    ensures
        match dir {
            Ok(dir) => home matches Some(home) && dir@ == path_join(home@, PROFILES_DIRECTORY@),
            Err(Error::NoHome) => home is None,
            Err(_) => false,
        },
{
    match home {
        Some(home) => Ok(join(home, PROFILES_DIRECTORY)),
        None => Err(Error::NoHome),
    }
}

/// Returns `dir`, or the default [`directory`] where `dir` is `None`.
pub fn dir_or_default(dir: Option<String>, home: Option<&str>) -> (chosen: Result<String, Error>)
    ensures
        match chosen {
            Ok(chosen) => match dir {
                Some(dir) => chosen@ == dir@,
                None => home matches Some(home) && chosen@ == path_join(
                    home@,
                    PROFILES_DIRECTORY@,
                ),
            },
            Err(Error::NoHome) => dir is None && home is None,
            Err(_) => false,
        },
{
    match dir {
        Some(dir) => Ok(dir),
        None => directory(home),
    }
}

/// Accepts the profiles whose uuid is `uuid`.
pub open spec fn has_uuid(uuid: Seq<char>) -> spec_fn(Profile) -> bool {
    |profile: Profile| profile.info.uuid@ == uuid
}

/// Accepts the profiles that have one of `ids` as uuid or bundle id.
pub open spec fn has_one_of(ids: Seq<&str>) -> spec_fn(Profile) -> bool {
    |profile: Profile| profile.info.spec_has_ids(ids)
}

/// Accepts the profiles that expire at `date` or before it.
pub open spec fn expires_by(date: Timestamp) -> spec_fn(Profile) -> bool {
    |profile: Profile| profile.info.expiration_date.instant() <= date.instant()
}

/// Where exactly one of `profiles` has the uuid `uuid`, the profiles with
/// that uuid are that one profile.
pub proof fn lemma_single_match(profiles: Seq<Profile>, uuid: Seq<char>, at: int)
    requires
        0 <= at < profiles.len(),
        profiles[at].info.uuid@ == uuid,
        forall|i: int| 0 <= i < profiles.len() && i != at ==> profiles[i].info.uuid@ != uuid,
    ensures
        profiles.filter(has_uuid(uuid)) == seq![profiles[at]],
    decreases profiles.len(),
{
    reveal(Seq::filter);
    let shorter = profiles.drop_last();
    if at == profiles.len() - 1 {
        lemma_no_match(shorter, uuid);
        assert(Seq::<Profile>::empty().push(profiles[at]) =~= seq![profiles[at]]);
    } else {
        lemma_single_match(shorter, uuid, at);
    }
}

/// Where none of `profiles` has the uuid `uuid`, no profile has that uuid.
pub proof fn lemma_no_match(profiles: Seq<Profile>, uuid: Seq<char>)
    requires
        forall|i: int| 0 <= i < profiles.len() ==> profiles[i].info.uuid@ != uuid,
    ensures
        profiles.filter(has_uuid(uuid)).len() == 0,
    decreases profiles.len(),
{
    reveal(Seq::filter);
    if profiles.len() > 0 {
        lemma_no_match(profiles.drop_last(), uuid);
    }
}

/// Searches `files` for a profile by its uuid.
///
/// Returns the last of the profiles in `files` whose uuid is `uuid`, and
/// [`Error::NotFound`] with `uuid` where there is none.
pub fn find_by_uuid(files: Vec<RawProfile>, uuid: &str) -> (found: Result<Profile, Error>)
    ensures
        match found {
            Ok(profile) => {
                let matching = kept_profiles(files@, has_uuid(uuid@));
                matching.len() > 0 && profile == matching.last()
            },
            Err(Error::NotFound(id)) => {
                &&& id@ == uuid@
                &&& kept_profiles(files@, has_uuid(uuid@)).len() == 0
            },
            Err(_) => false,
        },
{
    let by_uuid = |profile: &Profile| -> (same: bool)
        ensures
            same == (profile.info.uuid@ == uuid@),
        { same_text(profile.info.uuid.as_str(), uuid) };
    assert(decides(by_uuid, has_uuid(uuid@)));
    let mut matching = filter(files, by_uuid);
    match matching.pop() {
        Some(profile) => Ok(profile),
        None => Err(Error::NotFound(uuid.to_owned())),
    }
}

/// Searches `files` for the profiles that have one of `ids` as their uuid
/// or their bundle id. The profiles come in the order of their files.
pub fn find_by_ids(files: Vec<RawProfile>, ids: &[&str]) -> (found: Vec<Profile>)
    ensures
        found@ == kept_profiles(files@, has_one_of(ids@)),
{
    let by_ids = |profile: &Profile| -> (has: bool)
        ensures
            has == profile.info.spec_has_ids(ids@),
        { profile.info.has_ids(ids) };
    assert(decides(by_ids, has_one_of(ids@)));
    filter(files, by_ids)
}

/// Searches `files` for the profiles that expire at `date` or before it.
/// The profiles come in the order of their files.
pub fn find_expired(files: Vec<RawProfile>, date: Timestamp) -> (found: Vec<Profile>)
    ensures
        found@ == kept_profiles(files@, expires_by(date)),
{
    let by_date = |profile: &Profile| -> (expired: bool)
        ensures
            expired == (profile.info.expiration_date.instant() <= date.instant()),
        { profile.info.expiration_date.is_at_or_before(&date) };
    assert(decides(by_date, expires_by(date)));
    filter(files, by_date)
}

/// Accepts the paths that name a provisioning profile.
pub open spec fn names_profile() -> spec_fn(String) -> bool {
    |path: String| is_profile_path(path@)
}

/// The paths among `entries` that name a provisioning profile, in the order
/// of `entries`.
///
/// `entries` are the paths of what a directory holds; the result are the
/// files of that directory that are worth reading.
pub fn file_paths(entries: &Vec<String>) -> (paths: Vec<String>)
    ensures
        paths@ == entries@.filter(names_profile()),
{
    let mut paths: Vec<String> = Vec::new();
    let mut at: usize = 0;
    proof {
        reveal(Seq::filter);
        assert(entries@.take(0) =~= Seq::<String>::empty());
    }
    while at < entries.len()
        invariant
            at <= entries.len(),
            paths@ == entries@.take(at as int).filter(names_profile()),
        decreases entries.len() - at,
    {
        proof {
            reveal(Seq::filter);
            assert(entries@.take(at + 1).drop_last() =~= entries@.take(at as int));
        }
        if is_mobileprovision(entries[at].as_str()) {
            paths.push(entries[at].clone());
        }
        at = at + 1;
    }
    proof {
        assert(entries@.take(entries@.len() as int) =~= entries@);
    }
    paths
}

/// Returns the property list of the profile at `file_path`, whose bytes are
/// `data`, as text.
///
/// Fails with [`Error::Validation`] where `file_path` does not have the
/// extension of a profile, and with [`Error::Decode`] where `data` has no
/// payload or the payload is not UTF-8. Both name `file_path`.
pub fn show(file_path: &str, data: &[u8]) -> (xml: Result<String, Error>)
    ensures
        match xml {
            Ok(text) => {
                &&& is_profile_path(file_path@)
                &&& payload(data@) matches Some(bytes)
                &&& valid_utf8(bytes)
                &&& text@ == decode_utf8(bytes)
            },
            Err(Error::Validation(path)) => !is_profile_path(file_path@) && path@ == file_path@,
            Err(Error::Decode(path)) => {
                &&& is_profile_path(file_path@)
                &&& path@ == file_path@
                &&& match payload(data@) {
                    Some(bytes) => !valid_utf8(bytes),
                    None => true,
                }
            },
            Err(_) => false,
        },
{
    match validate_path(file_path) {
        Err(error) => Err(error),
        Ok(_) => {
            let text = match crate::plist_extractor::find(data) {
                Some(bytes) => text_of_utf8(bytes),
                None => None,
            };
            match text {
                Some(text) => Ok(text.to_owned()),
                None => Err(Error::Decode(file_path.to_owned())),
            }
        },
    }
}

/// How a profile is to be removed.
#[derive(Debug, PartialEq, Eq)]
pub enum Removal {
    /// Delete the file at this path for good.
    Delete(String),
    /// Move the file at this path to the trash.
    Trash(String),
}

/// Decides how the profile at `file_path` is to be removed; the caller
/// carries it out.
///
/// A path without the extension of a profile is refused with
/// [`Error::Validation`], so that nothing but a profile is ever removed.
pub fn remove(file_path: &str, permanently: bool) -> (removal: Result<Removal, Error>)
    ensures
        match removal {
            Ok(Removal::Delete(path)) => {
                &&& is_profile_path(file_path@)
                &&& permanently
                &&& path@ == file_path@
            },
            Ok(Removal::Trash(path)) => {
                &&& is_profile_path(file_path@)
                &&& !permanently
                &&& path@ == file_path@
            },
            Err(Error::Validation(path)) => !is_profile_path(file_path@) && path@ == file_path@,
            Err(_) => false,
        },
{
    match validate_path(file_path) {
        Err(error) => Err(error),
        Ok(path) => if permanently {
            Ok(Removal::Delete(path.to_owned()))
        } else {
            Ok(Removal::Trash(path.to_owned()))
        },
    }
}

/// One profile to write out of an archive.
#[derive(Debug, PartialEq, Eq)]
pub struct Extracted {
    /// The index of the archive entry whose bytes are the profile.
    pub entry: usize,
    /// The name of the file to write: the uuid of the profile and the
    /// extension of a profile.
    pub file_name: String,
}

/// The name under which a profile with this uuid is written out.
pub open spec fn extracted_name(uuid: Seq<char>) -> Seq<char> {
    uuid + "."@ + EXT_MOBILEPROVISION@
}

/// What is to be written for the archive entries `entries`: for each entry
/// whose name is that of a profile, in order, its index and the file name
/// made of its uuid; or, as the error, the name of the first such entry
/// that holds no profile.
pub open spec fn extraction(entries: Seq<RawProfile>) -> Result<Seq<(int, Seq<char>)>, Seq<char>>
    decreases entries.len(),
{
    if entries.len() == 0 {
        Ok(Seq::empty())
    } else {
        let last = entries.last();
        match extraction(entries.drop_last()) {
            Err(name) => Err(name),
            Ok(earlier) => if !is_profile_path(last.path@) {
                Ok(earlier)
            } else {
                match decoded_data(last.data@) {
                    Some(info) => Ok(
                        earlier.push((entries.len() - 1, extracted_name(info.uuid@))),
                    ),
                    None => Err(last.path@),
                }
            },
        }
    }
}

/// `plan` lists the indices and file names of `wanted`.
pub open spec fn is_plan_of(plan: Seq<Extracted>, wanted: Seq<(int, Seq<char>)>) -> bool {
    &&& plan.len() == wanted.len()
    &&& forall|i: int|
        0 <= i < plan.len() ==> (#[trigger] plan[i]).entry == wanted[i].0 && plan[i].file_name@
            == wanted[i].1
}

/// Plans the extraction of the profiles among the entries of an archive.
///
/// Each entry of `entries` is the name and the bytes of one archive entry.
/// An entry whose name does not have the extension of a profile is passed
/// over. Every other entry is decoded and listed with the name
/// `<uuid>.mobileprovision`. Where one of them holds no profile, the whole
/// extraction fails with [`Error::Decode`], which names that entry.
pub fn extract(entries: &Vec<RawProfile>) -> (plan: Result<Vec<Extracted>, Error>)
    ensures
        match plan {
            Ok(plan) => extraction(entries@) matches Ok(wanted) && is_plan_of(plan@, wanted),
            Err(Error::Decode(name)) => extraction(entries@) == Err::<
                Seq<(int, Seq<char>)>,
                Seq<char>,
            >(name@),
            Err(_) => false,
        },
{
    let mut plan: Vec<Extracted> = Vec::new();
    let mut at: usize = 0;
    assert(entries@.take(0) =~= Seq::<RawProfile>::empty());
    while at < entries.len()
        invariant
            at <= entries.len(),
            extraction(entries@.take(at as int)) matches Ok(wanted) && is_plan_of(plan@, wanted),
        decreases entries.len() - at,
    {
        let ghost upto = entries@.take(at + 1);
        proof {
            assert(upto.drop_last() =~= entries@.take(at as int));
            assert(upto.last() == entries@[at as int]);
        }
        let entry = &entries[at];
        if is_mobileprovision(entry.path.as_str()) {
            match Info::from_xml_data(entry.data.as_slice()) {
                Some(info) => {
                    let file_name = info.uuid.concat(".").concat(EXT_MOBILEPROVISION);
                    plan.push(Extracted { entry: at, file_name });
                },
                None => {
                    proof {
                        lemma_extraction_fails_on(entries@, at as int);
                    }
                    return Err(Error::Decode(entry.path.clone()));
                },
            }
        }
        at = at + 1;
    }
    proof {
        assert(entries@.take(entries@.len() as int) =~= entries@);
    }
    Ok(plan)
}

/// An extraction that has failed on the first `at + 1` entries fails with
/// the same name on all of them.
pub proof fn lemma_extraction_fails_on(entries: Seq<RawProfile>, at: int)
    requires
        0 <= at < entries.len(),
        extraction(entries.take(at + 1)) is Err,
    ensures
        extraction(entries) == extraction(entries.take(at + 1)),
    decreases entries.len() - at,
{
    if at + 1 == entries.len() {
        assert(entries.take(at + 1) =~= entries);
    } else {
        assert(entries.take(at + 2).drop_last() =~= entries.take(at + 1));
        lemma_extraction_fails_on(entries, at + 1);
    }
}

} // verus!
