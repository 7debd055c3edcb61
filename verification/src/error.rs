//! The error of the whole program, and the std error types that the errors carry.

use vstd::prelude::*;
use regex::Error as RegexError;
use crate::edit::error_message;
use crate::writer::writer_error_message;

verus! {

/// `std::str::Utf8Error`, carried opaque.
#[verifier::external_type_specification]
#[verifier::external_body]
pub struct ExUtf8Error(std::str::Utf8Error);

/// `std::io::Error`, carried opaque.
#[verifier::external_type_specification]
#[verifier::external_body]
pub struct ExIoError(std::io::Error);

/// `regex::Error`, carried opaque.
#[verifier::external_type_specification]
#[verifier::external_body]
pub struct ExRegexError(RegexError);

/// Everything that makes a run fail.
#[derive(Debug)]
pub enum Error {
    /// The pattern is not a regex that compiles.
    Regex(RegexError),
    /// Reading input or writing output failed.
    File(std::io::Error),
    /// A path could not be renamed.
    Edit(crate::edit::Error),
    /// Applying the renames or deletions failed.
    Writer(crate::writer::Error),
    /// The arguments cannot be used.
    InvalidArguments(String),
}

/// The text that `Display` gives for an I/O error. It depends on the error's
/// inner state, which is not visible here, so nothing is stated of it.
#[verifier::external_body]
pub(crate) fn io_error_text(e: &std::io::Error) -> (r: String) {
    e.to_string()
}

/// The text that `Display` gives for a UTF-8 error. It depends on the error's
/// inner state, which is not visible here, so nothing is stated of it.
#[verifier::external_body]
pub(crate) fn utf8_error_text(e: &std::str::Utf8Error) -> (r: String) {
    e.to_string()
}

/// The text that `Display` gives for a regex error. It depends on the error's
/// inner state, which is not visible here, so nothing is stated of it.
#[verifier::external_body]
fn regex_error_text(e: &RegexError) -> (r: String) {
    e.to_string()
}

/// The start of the message for a regex that does not compile.
pub open spec fn invalid_regex_prefix() -> Seq<char> {
    "invalid regex "@
}

impl Error {
    /// The text of the error, as shown to the user: a regex error after
    /// `invalid regex `, an I/O error as it is, the text of an edit or writer
    /// error, and an argument error's message.
    pub fn message(&self) -> (m: String)
        ensures
            *self matches Error::Regex(_) ==> m@.len() >= invalid_regex_prefix().len() && m@.take(
                invalid_regex_prefix().len() as int,
            ) == invalid_regex_prefix(),
            *self matches Error::Edit(e) ==> m@ == error_message(e),
            *self matches Error::Writer(w) ==> (writer_error_message(w) matches Some(t) ==> m@
                == t),
            *self matches Error::InvalidArguments(s) ==> m@ == s@,
    {
        match self {
            Error::Regex(e) => {
                proof {
                    reveal_strlit("invalid regex ");
                }
                let mut m = "invalid regex ".to_owned();
                let ghost start = m@;
                let t = regex_error_text(e);
                m.append(t.as_str());
                assert(m@.take(start.len() as int) =~= start);
                m
            },
            Error::File(e) => io_error_text(e),
            Error::Edit(e) => e.message(),
            Error::Writer(w) => w.message(),
            Error::InvalidArguments(s) => s.clone(),
        }
    }
}

} // verus!
