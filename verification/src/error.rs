//! The errors of this crate.

use vstd::prelude::*;
use vstd::string::StringExecFns;

verus! {

/// `std::io::Error`, carried in [`Error::Io`]. Nothing is known of what is
/// inside.
#[verifier::external_type_specification]
#[verifier::external_body]
pub struct ExIoError(std::io::Error);

/// What went wrong.
#[derive(Debug)]
pub enum Error {
    /// Reading a directory, or reading or deleting a file, failed.
    Io(std::io::Error),
    /// No profile could be decoded from the file or archive entry named.
    Decode(String),
    /// No profile has the identifier asked for.
    NotFound(String),
    /// The path does not have the extension of a profile.
    Validation(String),
    /// No directory was given and the home directory is unknown.
    NoHome,
}

/// The message of [`Error::Decode`] for `name`.
pub open spec fn decode_message(name: Seq<char>) -> Seq<char> {
    "Couldn't parse '"@ + name + "'"@
}

/// The message of [`Error::NotFound`] for `id`.
pub open spec fn not_found_message(id: Seq<char>) -> Seq<char> {
    "Profile '"@ + id + "' is not found."@
}

/// The message of [`Error::Validation`] for `path`.
pub open spec fn validation_message(path: Seq<char>) -> Seq<char> {
    "'"@ + path + "' doesn't have 'mobileprovision' extension"@
}

/// The message of [`Error::NoHome`].
pub open spec fn no_home_message() -> Seq<char> {
    "'HOME' environment variable is not set or equal to the empty string."@
}

impl Error {
    /// The message of this error for a user. That of an I/O error is the
    /// text that the error itself gives.
    pub fn message(&self) -> (text: String)
        ensures
            match *self {
                Error::Io(_) => true,
                Error::Decode(name) => text@ == decode_message(name@),
                Error::NotFound(id) => text@ == not_found_message(id@),
                Error::Validation(path) => text@ == validation_message(path@),
                Error::NoHome => text@ == no_home_message(),
            },
    {
        match self {
            Error::Io(source) => source.to_string(),
            Error::Decode(name) => String::from_str("Couldn't parse '").concat(
                name.as_str(),
            ).concat("'"),
            Error::NotFound(id) => String::from_str("Profile '").concat(id.as_str()).concat(
                "' is not found.",
            ),
            Error::Validation(path) => String::from_str("'").concat(path.as_str()).concat(
                "' doesn't have 'mobileprovision' extension",
            ),
            Error::NoHome => String::from_str(
                "'HOME' environment variable is not set or equal to the empty string.",
            ),
        }
    }
}

impl From<std::io::Error> for Error {
    fn from(source: std::io::Error) -> (error: Error) {
        Error::Io(source)
    }
}

impl vstd::std_specs::convert::FromSpecImpl<std::io::Error> for Error {
    open spec fn obeys_from_spec() -> bool {
        true
    }

    open spec fn from_spec(source: std::io::Error) -> Error {
        Error::Io(source)
    }
}

} // verus!
