//! The error taxonomy: what can go wrong, and which failures are fatal.
use vstd::prelude::*;

use crate::search::SearchError;
use crate::text::IntParseError;

verus! {

/// Why a year or range of years could not be read.
#[derive(Debug, Clone, Copy, PartialEq, Eq, Structural)]
pub enum YearParseError {
    /// One end is not a number that fits a `u16`.
    InvalidInt(IntParseError),
    /// Neither end of the range was given.
    NoYearsSpecified,
    /// The range starts after the current year.
    StartInFuture,
}

/// A media type name that is not one of the catalogue's kinds.
#[derive(Debug, Clone)]
pub struct MediaTypeParseError(pub String);

/// An output format name that is not available.
#[derive(Debug, Clone)]
pub enum OutputFormatParseError {
    /// A format that this build does not include.
    NotInstalled(String),
    /// A name that is no format at all.
    Unrecognised(String),
}

/// minreq's error type, carried as an opaque value.
#[verifier::external_type_specification]
#[verifier::external_body]
pub struct ExMinreqError(minreq::Error);

/// std's I/O error type, carried as an opaque value.
#[verifier::external_type_specification]
#[verifier::external_body]
pub struct ExIoError(std::io::Error);

/// serde_json's error type, carried as an opaque value.
#[verifier::external_type_specification]
#[verifier::external_body]
pub struct ExJsonError(serde_json::Error);

/// Errors whose severity decides whether the surrounding operation may go on.
pub trait MaybeFatal {
    spec fn fatal(&self) -> bool;

    fn is_fatal(&self) -> (r: bool)
        ensures
            r == self.fatal(),
    ;
}

/// What went wrong with one request to the title database.
#[derive(Debug)]
pub enum RequestError {
    /// The request could not be sent or its answer not read: fatal.
    Web(minreq::Error),
    /// The answer is well-formed data of an unexpected shape: recoverable. The
    /// raw body is kept for diagnosis.
    Deserialisation(serde_json::Error, String),
    /// The database answered with an error message, such as an exhausted
    /// quota: fatal.
    Omdb(String),
}

impl MaybeFatal for RequestError {
    open spec fn fatal(&self) -> bool {
        !(self is Deserialisation)
    }

    fn is_fatal(&self) -> (r: bool) {
        match self {
            RequestError::Deserialisation(_, _) => false,
            _ => true,
        }
    }
}

/// Why an API key was not accepted.
#[derive(Debug)]
pub enum ApiKeyError {
    /// The key is not eight hexadecimal digits.
    InvalidFormat,
    /// The check could not be sent.
    RequestFailed(minreq::Error),
    /// The database refused the key.
    Unauthorised,
    /// The database answered with another status.
    UnexpectedStatus(i32),
}

impl MaybeFatal for ApiKeyError {
    /// Only a failed check is fatal: a refused or malformed key can be
    /// entered again.
    open spec fn fatal(&self) -> bool {
        self is RequestFailed
    }

    fn is_fatal(&self) -> (r: bool) {
        match self {
            ApiKeyError::RequestFailed(_) => true,
            _ => false,
        }
    }
}

/// A failure while talking to the person at the terminal.
#[derive(Debug)]
pub enum InteractivityError {
    /// The person cancelled.
    Cancel,
    /// The prompt failed: fatal.
    Dialoguer(std::io::Error),
    /// The terminal could not be set up or restored.
    Crossterm(std::io::Error),
    /// The picker could not be drawn.
    Tui(std::io::Error),
}

impl MaybeFatal for InteractivityError {
    open spec fn fatal(&self) -> bool {
        self is Dialoguer
    }

    fn is_fatal(&self) -> (r: bool) {
        match self {
            InteractivityError::Dialoguer(_) => true,
            _ => false,
        }
    }
}

/// Relies on io::Error::kind: whether the error is of kind NotConnected, which
/// is how a prompt reports that the person cancelled it.
#[verifier::external_body]
fn is_not_connected(err: &std::io::Error) -> bool {
    err.kind() == std::io::ErrorKind::NotConnected
}

impl InteractivityError {
    /// Classifies a prompt's error: a cancellation, or a prompt failure
    /// carrying the error.
    pub fn from_cli(err: std::io::Error) -> (r: InteractivityError)
        ensures
            r is Cancel || r == InteractivityError::Dialoguer(err),
    {
        if is_not_connected(&err) {
            InteractivityError::Cancel
        } else {
            InteractivityError::Dialoguer(err)
        }
    }
}

/// A failure of the automated sign-up for an API key.
#[derive(Debug)]
pub enum SignUpError {
    Interactivity(InteractivityError),
    MinReq(minreq::Error),
    /// The answer did not say that the sign-up worked.
    NeedleNotFound,
}

impl MaybeFatal for SignUpError {
    open spec fn fatal(&self) -> bool {
        match self {
            SignUpError::Interactivity(inner) => inner.fatal(),
            SignUpError::MinReq(_) => true,
            SignUpError::NeedleNotFound => false,
        }
    }

    fn is_fatal(&self) -> (r: bool) {
        match self {
            SignUpError::Interactivity(inner) => inner.is_fatal(),
            SignUpError::MinReq(_) => true,
            SignUpError::NeedleNotFound => false,
        }
    }
}

/// A failure to read or write the saved configuration; never fatal.
#[derive(Debug)]
pub enum DiskError {
    /// No configuration file at this path.
    NotFound(String),
    Read(std::io::Error),
    /// The file at this path does not hold a configuration.
    Deserialise(serde_json::Error, String),
    Write(std::io::Error),
    Serialise(serde_json::Error),
}

impl MaybeFatal for DiskError {
    open spec fn fatal(&self) -> bool {
        false
    }

    fn is_fatal(&self) -> (r: bool) {
        false
    }
}

/// A command-line argument that could not be used.
#[derive(Debug)]
pub enum ArgsError {
    NumberOfResults(IntParseError),
    NotYear(YearParseError),
    OutputFormat(OutputFormatParseError),
    MediaType(MediaTypeParseError),
    SearchTerm(InteractivityError),
}

/// Failures of the earlier, page-scraping front end of the program.
#[derive(Debug)]
pub enum RunError {
    /// An argument that should be a positive integer is not.
    ClapNotUsize,
    /// No catalogue identifier in the page text, which is kept.
    ImdbIdNotFound(String),
    /// No title in the page text, which is kept.
    NameNotFound(String),
    /// A web request failed; the message says how.
    Reqwest(String),
    InputUserHalted,
    InputIo(std::io::Error),
    NoDesiredSearchResults,
}

/// The error that ends the program.
#[derive(Debug)]
pub enum FinalError {
    Args(ArgsError),
    Interaction(InteractivityError),
    /// The search found nothing.
    NoSearchResults,
    /// The results could not be written in the requested format; the message
    /// says why.
    FormatOutput(String),
    ApiKey(ApiKeyError),
    Search(SearchError),
}

impl FinalError {
    /// The process exit code: 1 for a mistake of the user's, 2 for a failure
    /// of the program, 0 when nothing went wrong in earnest.
    pub open spec fn spec_error_code(&self) -> i32 {
        match self {
            FinalError::Args(_) => 1,
            FinalError::Interaction(inner) => if inner.fatal() {
                2
            } else {
                0
            },
            FinalError::NoSearchResults => 0,
            _ => 2,
        }
    }

    pub fn error_code(&self) -> (r: i32)
        ensures
            r == self.spec_error_code(),
    {
        match self {
            FinalError::Args(_) => 1,
            FinalError::Interaction(inner) => if inner.is_fatal() {
                2
            } else {
                0
            },
            FinalError::NoSearchResults => 0,
            _ => 2,
        }
    }
}

impl MaybeFatal for FinalError {
    open spec fn fatal(&self) -> bool {
        match self {
            FinalError::Interaction(inner) => inner.fatal(),
            _ => true,
        }
    }

    fn is_fatal(&self) -> (r: bool) {
        match self {
            FinalError::Interaction(inner) => inner.is_fatal(),
            _ => true,
        }
    }
}

} // verus!
