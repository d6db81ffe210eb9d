//! The commands of the profile manager and what each of them takes.
//!
//! The values are plain: reading them from a command line is the caller's
//! part. What a command line may not hold (an empty text, more than a
//! year of days) is said by `is_valid`.

use vstd::prelude::*;
use vstd::string::{to_string_from_display_ensures, StringExecFns};

verus! {

/// The largest number of days that a listing may look ahead.
pub const MAX_DAYS: u64 = 365;

/// What the profile manager is asked to do.
#[derive(Debug, PartialEq)]
pub enum Command {
    /// Lists provisioning profiles.
    List(ListParams),
    /// Shows details of a provisioning profile using its uuid.
    ShowUuid(ShowUuidParams),
    /// Shows details of a provisioning profile.
    ShowFile(ShowFileParams),
    /// Removes provisioning profiles.
    Remove(RemoveParams),
    /// Removes expired provisioning profiles.
    Clean(CleanParams),
    /// Extracts provisioning profiles from an ipa file or zip archive.
    Extract(ExtractParams),
}

/// What `list` takes.
#[derive(Debug, Default, PartialEq)]
pub struct ListParams {
    /// Lists provisioning profiles that contain this text.
    pub text: Option<String>,
    /// Lists provisioning profiles that will expire in days.
    pub expire_in_days: Option<u64>,
    /// A directory where to search provisioning profiles.
    pub directory: Option<String>,
    /// Output profile details in one line.
    pub oneline: bool,
}

/// What `show` takes.
#[derive(Debug, Default, PartialEq)]
pub struct ShowUuidParams {
    /// An uuid of a provisioning profile.
    pub uuid: String,
    /// A directory where to search provisioning profiles.
    pub directory: Option<String>,
}

/// What `show-file` takes.
#[derive(Debug, Default, PartialEq)]
pub struct ShowFileParams {
    /// A file path of a provisioning profile.
    pub file: String,
}

/// What `remove` takes.
#[derive(Debug, Default, PartialEq)]
pub struct RemoveParams {
    /// uuid(s) or bundle id(s) of provisioning profiles.
    pub ids: Vec<String>,
    /// A directory where to search provisioning profiles.
    pub directory: Option<String>,
    /// Whether to remove provisioning profiles permanently.
    pub permanently: bool,
}

/// What `clean` takes.
#[derive(Debug, Default, PartialEq)]
pub struct CleanParams {
    /// A directory where to clean.
    pub directory: Option<String>,
    /// Whether to remove provisioning profiles permanently.
    pub permanently: bool,
}

/// What `extract` takes.
#[derive(Debug, Default, PartialEq)]
pub struct ExtractParams {
    /// File path to an archive.
    pub source: String,
    /// Directory where to place extracted provisioning profiles.
    pub destination: String,
}

/// `text`, where there is one, is not empty.
pub open spec fn is_absent_or_filled(text: Option<String>) -> bool {
    text matches Some(text) ==> text@.len() > 0
}

/// Whether `text`, where there is one, is not empty.
pub fn absent_or_filled(text: &Option<String>) -> (ok: bool)
    ensures
        ok == is_absent_or_filled(*text),
{
    match text {
        Some(text) => !text.as_str().is_empty(),
        None => true,
    }
}

impl ListParams {
    /// The text and the directory are not empty, and the days are at most
    /// [`MAX_DAYS`].
    pub open spec fn wf(&self) -> bool {
        &&& is_absent_or_filled(self.text)
        &&& is_absent_or_filled(self.directory)
        &&& self.expire_in_days matches Some(days) ==> days <= MAX_DAYS
    }

    /// Whether these are parameters that a command line can give.
    pub fn is_valid(&self) -> (valid: bool)
        ensures
            valid == self.wf(),
    {
        let days_in_range = match self.expire_in_days {
            Some(days) => days <= MAX_DAYS,
            None => true,
        };
        absent_or_filled(&self.text) && absent_or_filled(&self.directory) && days_in_range
    }
}

impl ShowUuidParams {
    /// The uuid and the directory are not empty.
    pub open spec fn wf(&self) -> bool {
        &&& self.uuid@.len() > 0
        &&& is_absent_or_filled(self.directory)
    }

    /// Whether these are parameters that a command line can give.
    pub fn is_valid(&self) -> (valid: bool)
        ensures
            valid == self.wf(),
    {
        !self.uuid.as_str().is_empty() && absent_or_filled(&self.directory)
    }
}

impl ShowFileParams {
    /// The file path is not empty.
    pub open spec fn wf(&self) -> bool {
        self.file@.len() > 0
    }

    /// Whether these are parameters that a command line can give.
    pub fn is_valid(&self) -> (valid: bool)
        ensures
            valid == self.wf(),
    {
        !self.file.as_str().is_empty()
    }
}

impl RemoveParams {
    /// There is at least one id, no id is empty, and the directory is not
    /// empty.
    pub open spec fn wf(&self) -> bool {
        &&& self.ids@.len() > 0
        &&& forall|i: int| 0 <= i < self.ids@.len() ==> (#[trigger] self.ids@[i])@.len() > 0
        &&& is_absent_or_filled(self.directory)
    }

    /// Whether these are parameters that a command line can give.
    pub fn is_valid(&self) -> (valid: bool)
        ensures
            valid == self.wf(),
    {
        if self.ids.len() == 0 || !absent_or_filled(&self.directory) {
            return false;
        }
        let mut at: usize = 0;
        while at < self.ids.len()
            invariant
                at <= self.ids.len(),
                forall|i: int| 0 <= i < at ==> (#[trigger] self.ids@[i])@.len() > 0,
            decreases self.ids.len() - at,
        {
            if self.ids[at].as_str().is_empty() {
                return false;
            }
            at = at + 1;
        }
        true
    }
}

impl CleanParams {
    /// The directory is not empty.
    pub open spec fn wf(&self) -> bool {
        is_absent_or_filled(self.directory)
    }

    /// Whether these are parameters that a command line can give.
    pub fn is_valid(&self) -> (valid: bool)
        ensures
            valid == self.wf(),
    {
        absent_or_filled(&self.directory)
    }
}

impl ExtractParams {
    /// Neither path is empty.
    pub open spec fn wf(&self) -> bool {
        &&& self.source@.len() > 0
        &&& self.destination@.len() > 0
    }

    /// Whether these are parameters that a command line can give.
    pub fn is_valid(&self) -> (valid: bool)
        ensures
            valid == self.wf(),
    {
        !self.source.as_str().is_empty() && !self.destination.as_str().is_empty()
    }
}

impl Command {
    /// The parameters of the command are well-formed.
    pub open spec fn wf(&self) -> bool {
        match *self {
            Command::List(params) => params.wf(),
            Command::ShowUuid(params) => params.wf(),
            Command::ShowFile(params) => params.wf(),
            Command::Remove(params) => params.wf(),
            Command::Clean(params) => params.wf(),
            Command::Extract(params) => params.wf(),
        }
    }

    /// Whether this is a command that a command line can give.
    pub fn is_valid(&self) -> (valid: bool)
        ensures
            valid == self.wf(),
    {
        match self {
            Command::List(params) => params.is_valid(),
            Command::ShowUuid(params) => params.is_valid(),
            Command::ShowFile(params) => params.is_valid(),
            Command::Remove(params) => params.is_valid(),
            Command::Clean(params) => params.is_valid(),
            Command::Extract(params) => params.is_valid(),
        }
    }
}

/// What `str::parse::<i64>` makes of `text`: the number, or the text of its
/// error.
pub uninterp spec fn parsed_i64(text: Seq<char>) -> Result<i64, Seq<char>>;

/// Reads `text` as a number with `str::parse::<i64>`. Where the text is no
/// number that fits, the result is the text of the error of `parse`. The
/// result depends on `text` alone.
#[verifier::external_body]
fn parse_i64(text: &str) -> (number: Result<i64, String>)
    ensures
        match number {
            Ok(number) => parsed_i64(text@) == Ok::<i64, Seq<char>>(number),
            Err(message) => parsed_i64(text@) == Err::<i64, Seq<char>>(message@),
        },
{
    text.parse::<i64>().map_err(|err| err.to_string())
}

/// `message` says that `days` is out of range: a fixed text, then `days` as
/// its `Display` writes it.
pub open spec fn is_out_of_range_message(days: i64, message: Seq<char>) -> bool {
    exists|number: String|
        to_string_from_display_ensures::<i64>(&days, number) && message
            == "should be between 0 and 365, got "@ + number@
}

/// Checks a number of days: it is returned where it lies between 0 and
/// [`MAX_DAYS`], and refused with a message that names it otherwise.
pub fn check_days(days: i64) -> (checked: Result<u64, String>)
    ensures
        match checked {
            Ok(checked) => 0 <= days <= MAX_DAYS && checked == days,
            Err(message) => !(0 <= days <= MAX_DAYS) && is_out_of_range_message(days, message@),
        },
{
    if days < 0 || days > 365 {
        let number = days.to_string();
        let message = String::from_str("should be between 0 and 365, got ").concat(
            number.as_str(),
        );
        assert(is_out_of_range_message(days, message@));
        return Err(message);
    }
    Ok(days as u64)
}

/// Parses and validates the days argument of a listing.
///
/// `s` is read as a number. A text that is no number is refused with the
/// message of the parse error, a number outside 0 to [`MAX_DAYS`] with a
/// message that names it.
pub fn parse_days(s: &str) -> (days: Result<u64, String>)
    ensures
        match days {
            Ok(days) => parsed_i64(s@) == Ok::<i64, Seq<char>>(days as i64) && days <= MAX_DAYS,
            Err(message) => match parsed_i64(s@) {
                Ok(number) => !(0 <= number <= MAX_DAYS) && is_out_of_range_message(
                    number,
                    message@,
                ),
                Err(reason) => message@ == reason,
            },
        },
{
    match parse_i64(s) {
        Ok(number) => check_days(number),
        Err(message) => Err(message),
    }
}

} // verus!
