//! What can go wrong between kei and iCloud.
use crate::text::{decimal, decimal_text};
use vstd::prelude::*;

verus! {

/// `reqwest::Error`: a request that could not be sent or answered.
#[verifier::external_type_specification]
#[verifier::external_body]
pub struct ExReqwestError(reqwest::Error);

/// `std::io::Error`: a file that could not be read or written.
#[verifier::external_type_specification]
#[verifier::external_body]
pub struct ExIoError(std::io::Error);

/// `serde_json::Error`: a text that is no JSON, or not the JSON that was expected.
#[verifier::external_type_specification]
#[verifier::external_body]
pub struct ExJsonError(serde_json::Error);

/// What can go wrong between kei and iCloud.
#[derive(Debug)]
pub enum ICloudError {
    Connection(String),
    /// The account does not let its photos be read through the web.
    ServiceNotActivated { code: String, reason: String },
    /// CloudKit refused the session. Cached session data has to be dropped and the account
    /// signed in again before another try.
    SessionExpired { status: u16 },
    /// CloudKit answered 421: the connection leads to the wrong partition. The pool has to be
    /// reset before another try.
    MisdirectedRequest,
    Http(Box<reqwest::Error>),
    Io(Box<std::io::Error>),
    Json(Box<serde_json::Error>),
}

/// What is said of an account that is not activated, behind its code and reason.
pub const NOT_ACTIVATED_HELP: &'static str =
    "\n\nThis usually means one of:\n  1. Advanced Data Protection (ADP) is enabled, which blocks third-party iCloud access.\n     To fix, change both settings on your iPhone/iPad:\n     - Disable ADP: Settings > Apple ID > iCloud > Advanced Data Protection\n     - Enable web access: Settings > Apple ID > iCloud > Access iCloud Data on the Web\n  2. iCloud setup is incomplete.\n     Log in to https://icloud.com/ and finish setting up iCloud Photos.";

/// What an error says, where it is one of kei's own.
pub open spec fn error_text(error: ICloudError) -> Option<Seq<char>> {
    match error {
        ICloudError::Connection(message) => Some("Could not connect to iCloud: "@ + message@),
        ICloudError::ServiceNotActivated { code, reason } => Some(
            "iCloud Photos is not available through Apple's web API ("@ + code@ + "): "@ + reason@
                + NOT_ACTIVATED_HELP@,
        ),
        ICloudError::SessionExpired { status } => Some(
            "Your iCloud session expired (CloudKit HTTP "@ + decimal_text(status as nat) + ")"@,
        ),
        ICloudError::MisdirectedRequest => Some(
            "Apple routed the iCloud request to the wrong CloudKit partition (HTTP 421)"@,
        ),
        _ => None,
    }
}

/// `reqwest::Error` in words. What it says is its own: nothing is claimed of it.
#[verifier::external_body]
fn http_error_text(error: &reqwest::Error) -> (text: String) {
    error.to_string()
}

/// `std::io::Error` in words. What it says is its own: nothing is claimed of it.
#[verifier::external_body]
fn io_error_text(error: &std::io::Error) -> (text: String) {
    error.to_string()
}

/// `serde_json::Error` in words. What it says is its own: nothing is claimed of it.
#[verifier::external_body]
fn json_error_text(error: &serde_json::Error) -> (text: String) {
    error.to_string()
}

impl ICloudError {
    /// Whether the session has to be dropped and the account signed in again before another
    /// try.
    pub fn is_session_error(&self) -> (yes: bool)
        ensures
            yes == (self is SessionExpired || self is MisdirectedRequest),
    {
        match self {
            ICloudError::SessionExpired { .. } => true,
            ICloudError::MisdirectedRequest => true,
            _ => false,
        }
    }

    /// The error in words; an outside error speaks for itself.
    pub fn message(&self) -> (text: String)
        ensures
            error_text(*self) is Some ==> error_text(*self) == Some(text@),
    {
        match self {
            ICloudError::Connection(message) => {
                let mut text = "Could not connect to iCloud: ".to_owned();
                text.append(message);
                text
            },
            ICloudError::ServiceNotActivated { code, reason } => {
                let mut text =
                    "iCloud Photos is not available through Apple's web API (".to_owned();
                text.append(code);
                text.append("): ");
                text.append(reason);
                text.append(NOT_ACTIVATED_HELP);
                text
            },
            ICloudError::SessionExpired { status } => {
                let mut text = "Your iCloud session expired (CloudKit HTTP ".to_owned();
                text.append(&decimal(*status as u64));
                text.append(")");
                text
            },
            ICloudError::MisdirectedRequest => {
                "Apple routed the iCloud request to the wrong CloudKit partition (HTTP 421)".to_owned()
            },
            ICloudError::Http(error) => http_error_text(error),
            ICloudError::Io(error) => io_error_text(error),
            ICloudError::Json(error) => json_error_text(error),
        }
    }
}

impl From<reqwest::Error> for ICloudError {
    fn from(error: reqwest::Error) -> (e: Self) {
        ICloudError::Http(Box::new(error))
    }
}

impl vstd::std_specs::convert::FromSpecImpl<reqwest::Error> for ICloudError {
    open spec fn obeys_from_spec() -> bool {
        true
    }

    open spec fn from_spec(error: reqwest::Error) -> Self {
        ICloudError::Http(Box::new(error))
    }
}

impl From<std::io::Error> for ICloudError {
    fn from(error: std::io::Error) -> (e: Self) {
        ICloudError::Io(Box::new(error))
    }
}

impl vstd::std_specs::convert::FromSpecImpl<std::io::Error> for ICloudError {
    open spec fn obeys_from_spec() -> bool {
        true
    }

    open spec fn from_spec(error: std::io::Error) -> Self {
        ICloudError::Io(Box::new(error))
    }
}

impl From<serde_json::Error> for ICloudError {
    fn from(error: serde_json::Error) -> (e: Self) {
        ICloudError::Json(Box::new(error))
    }
}

impl vstd::std_specs::convert::FromSpecImpl<serde_json::Error> for ICloudError {
    open spec fn obeys_from_spec() -> bool {
        true
    }

    open spec fn from_spec(error: serde_json::Error) -> Self {
        ICloudError::Json(Box::new(error))
    }
}

} // verus!
