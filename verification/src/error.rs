//! The error type shared by every component.

use vstd::prelude::*;
use vstd::string::*;
use crate::text::concat;

verus! {

/// What went wrong, by kind, with a message for the operator.
#[derive(Debug)]
pub enum DoomsdayError {
    /// A local file or socket operation failed.
    Io(String),
    /// JSON could not be encoded or decoded.
    SerdeJson(String),
    /// YAML could not be encoded or decoded.
    SerdeYaml(String),
    /// An HTTP client failure: connect, timeout, server fault.
    Reqwest(String),
    /// A TLS client failure.
    Rustls(String),
    /// PEM or DER text that is no certificate.
    X509(String),
    /// Authentication or token verification failed.
    Auth(String),
    /// A backend answered outside the 2xx range.
    Backend(String),
    /// A configuration value is missing or invalid.
    Config(String),
    /// The cache is inconsistent.
    Cache(String),
    /// The scheduler could not take or run a task.
    Scheduler(String),
    /// A named entity does not exist.
    NotFound(String),
    /// The caller may not do this.
    PermissionDenied(String),
    /// The caller's input is malformed.
    InvalidInput(String),
    /// Anything else.
    Internal(String),
}

impl DoomsdayError {
    /// The message carried by the error, whatever its kind.
    pub open spec fn detail(&self) -> Seq<char> {
        match self {
            DoomsdayError::Io(m) => m@,
            DoomsdayError::SerdeJson(m) => m@,
            DoomsdayError::SerdeYaml(m) => m@,
            DoomsdayError::Reqwest(m) => m@,
            DoomsdayError::Rustls(m) => m@,
            DoomsdayError::X509(m) => m@,
            DoomsdayError::Auth(m) => m@,
            DoomsdayError::Backend(m) => m@,
            DoomsdayError::Config(m) => m@,
            DoomsdayError::Cache(m) => m@,
            DoomsdayError::Scheduler(m) => m@,
            DoomsdayError::NotFound(m) => m@,
            DoomsdayError::PermissionDenied(m) => m@,
            DoomsdayError::InvalidInput(m) => m@,
            DoomsdayError::Internal(m) => m@,
        }
    }

    /// The words that introduce the message of each kind.
    pub open spec fn label(&self) -> Seq<char> {
        match self {
            DoomsdayError::Io(_) => "IO error: "@,
            DoomsdayError::SerdeJson(_) => "Serialization error: "@,
            DoomsdayError::SerdeYaml(_) => "YAML error: "@,
            DoomsdayError::Reqwest(_) => "HTTP error: "@,
            DoomsdayError::Rustls(_) => "TLS error: "@,
            DoomsdayError::X509(_) => "X509 parsing error: "@,
            DoomsdayError::Auth(_) => "Authentication error: "@,
            DoomsdayError::Backend(_) => "Backend error: "@,
            DoomsdayError::Config(_) => "Configuration error: "@,
            DoomsdayError::Cache(_) => "Cache error: "@,
            DoomsdayError::Scheduler(_) => "Scheduler error: "@,
            DoomsdayError::NotFound(_) => "Not found: "@,
            DoomsdayError::PermissionDenied(_) => "Permission denied: "@,
            DoomsdayError::InvalidInput(_) => "Invalid input: "@,
            DoomsdayError::Internal(_) => "Internal error: "@,
        }
    }

    /// The HTTP status that reports an error of this kind: 401 for `Auth`, 404
    /// for `NotFound`, 400 for `Config` and `InvalidInput`, 500 otherwise.
    pub open spec fn spec_http_status(&self) -> u16 {
        match self {
            DoomsdayError::Auth(_) => 401,
            DoomsdayError::NotFound(_) => 404,
            DoomsdayError::Config(_) => 400,
            DoomsdayError::InvalidInput(_) => 400,
            _ => 500,
        }
    }

    pub fn x509(msg: &str) -> (e: Self)
        ensures
            e matches DoomsdayError::X509(m) && m@ == msg@,
    {
        DoomsdayError::X509(String::from_str(msg))
    }

    pub fn auth(msg: &str) -> (e: Self)
        ensures
            e matches DoomsdayError::Auth(m) && m@ == msg@,
    {
        DoomsdayError::Auth(String::from_str(msg))
    }

    pub fn backend(msg: &str) -> (e: Self)
        ensures
            e matches DoomsdayError::Backend(m) && m@ == msg@,
    {
        DoomsdayError::Backend(String::from_str(msg))
    }

    pub fn config(msg: &str) -> (e: Self)
        ensures
            e matches DoomsdayError::Config(m) && m@ == msg@,
    {
        DoomsdayError::Config(String::from_str(msg))
    }

    pub fn cache(msg: &str) -> (e: Self)
        ensures
            e matches DoomsdayError::Cache(m) && m@ == msg@,
    {
        DoomsdayError::Cache(String::from_str(msg))
    }

    pub fn scheduler(msg: &str) -> (e: Self)
        ensures
            e matches DoomsdayError::Scheduler(m) && m@ == msg@,
    {
        DoomsdayError::Scheduler(String::from_str(msg))
    }

    pub fn not_found(msg: &str) -> (e: Self)
        ensures
            e matches DoomsdayError::NotFound(m) && m@ == msg@,
    {
        DoomsdayError::NotFound(String::from_str(msg))
    }

    pub fn permission_denied(msg: &str) -> (e: Self)
        ensures
            e matches DoomsdayError::PermissionDenied(m) && m@ == msg@,
    {
        DoomsdayError::PermissionDenied(String::from_str(msg))
    }

    pub fn invalid_input(msg: &str) -> (e: Self)
        ensures
            e matches DoomsdayError::InvalidInput(m) && m@ == msg@,
    {
        DoomsdayError::InvalidInput(String::from_str(msg))
    }

    pub fn internal(msg: &str) -> (e: Self)
        ensures
            e matches DoomsdayError::Internal(m) && m@ == msg@,
    {
        DoomsdayError::Internal(String::from_str(msg))
    }

    /// The error as one line of text: the kind's label, then the message.
    pub fn message(&self) -> (s: String)
        ensures
            s@ == self.label() + self.detail(),
    {
        match self {
            DoomsdayError::Io(m) => concat("IO error: ", m.as_str()),
            DoomsdayError::SerdeJson(m) => concat("Serialization error: ", m.as_str()),
            DoomsdayError::SerdeYaml(m) => concat("YAML error: ", m.as_str()),
            DoomsdayError::Reqwest(m) => concat("HTTP error: ", m.as_str()),
            DoomsdayError::Rustls(m) => concat("TLS error: ", m.as_str()),
            DoomsdayError::X509(m) => concat("X509 parsing error: ", m.as_str()),
            DoomsdayError::Auth(m) => concat("Authentication error: ", m.as_str()),
            DoomsdayError::Backend(m) => concat("Backend error: ", m.as_str()),
            DoomsdayError::Config(m) => concat("Configuration error: ", m.as_str()),
            DoomsdayError::Cache(m) => concat("Cache error: ", m.as_str()),
            DoomsdayError::Scheduler(m) => concat("Scheduler error: ", m.as_str()),
            DoomsdayError::NotFound(m) => concat("Not found: ", m.as_str()),
            DoomsdayError::PermissionDenied(m) => concat("Permission denied: ", m.as_str()),
            DoomsdayError::InvalidInput(m) => concat("Invalid input: ", m.as_str()),
            DoomsdayError::Internal(m) => concat("Internal error: ", m.as_str()),
        }
    }

    /// The HTTP status that reports this error.
    pub fn http_status(&self) -> (code: u16)
        ensures
            code == self.spec_http_status(),
    {
        match self {
            DoomsdayError::Auth(_) => 401,
            DoomsdayError::NotFound(_) => 404,
            DoomsdayError::Config(_) => 400,
            DoomsdayError::InvalidInput(_) => 400,
            _ => 500,
        }
    }
}

} // verus!
