//! The closed set of two-digit response codes, with safe decoding from a raw
//! byte.

use vstd::prelude::*;

verus! {

/// A recognized response status. The codes are grouped by their leading digit:
/// input (1x), success (2x), redirect (3x), temporary failure (4x), permanent
/// failure (5x), client certificate required (6x).
#[derive(Clone, Copy, Debug, PartialEq, Eq, Structural)]
pub enum Status {
    Input,
    SensitiveInput,
    Success,
    TemporaryRedirect,
    PermanentRedirect,
    TemporaryFailure,
    ServerUnavailable,
    CGIError,
    ProxyError,
    SlowDown,
    PermanentFailure,
    NotFound,
    Gone,
    ProxyRequestRefused,
    BadRequest,
    ClientCertRequired,
    NotAuthorized,
    CertNotValid,
}

/// The status a raw byte decodes to, if it is one of the eighteen recognized
/// codes.
pub open spec fn status_of(value: u8) -> Option<Status> {
    if value == 10 {
        Some(Status::Input)
    } else if value == 11 {
        Some(Status::SensitiveInput)
    } else if value == 20 {
        Some(Status::Success)
    } else if value == 30 {
        Some(Status::TemporaryRedirect)
    } else if value == 31 {
        Some(Status::PermanentRedirect)
    } else if value == 40 {
        Some(Status::TemporaryFailure)
    } else if value == 41 {
        Some(Status::ServerUnavailable)
    } else if value == 42 {
        Some(Status::CGIError)
    } else if value == 43 {
        Some(Status::ProxyError)
    } else if value == 44 {
        Some(Status::SlowDown)
    } else if value == 50 {
        Some(Status::PermanentFailure)
    } else if value == 51 {
        Some(Status::NotFound)
    } else if value == 52 {
        Some(Status::Gone)
    } else if value == 53 {
        Some(Status::ProxyRequestRefused)
    } else if value == 59 {
        Some(Status::BadRequest)
    } else if value == 60 {
        Some(Status::ClientCertRequired)
    } else if value == 61 {
        Some(Status::NotAuthorized)
    } else if value == 62 {
        Some(Status::CertNotValid)
    } else {
        None
    }
}

/// What decoding a raw byte yields: the recognized status, or the byte itself
/// as the diagnostic payload of the failure.
pub open spec fn spec_decode(value: u8) -> Result<Status, u8> {
    match status_of(value) {
        Some(status) => Ok(status),
        None => Err(value),
    }
}

/// The two-digit code of a recognized status. The leading digit is the
/// status's category.
pub open spec fn code_of(s: Status) -> u8 {
    match s {
        Status::Input => 10,
        Status::SensitiveInput => 11,
        Status::Success => 20,
        Status::TemporaryRedirect => 30,
        Status::PermanentRedirect => 31,
        Status::TemporaryFailure => 40,
        Status::ServerUnavailable => 41,
        Status::CGIError => 42,
        Status::ProxyError => 43,
        Status::SlowDown => 44,
        Status::PermanentFailure => 50,
        Status::NotFound => 51,
        Status::Gone => 52,
        Status::ProxyRequestRefused => 53,
        Status::BadRequest => 59,
        Status::ClientCertRequired => 60,
        Status::NotAuthorized => 61,
        Status::CertNotValid => 62,
    }
}

/// Decoding inverts the code: every status decodes from its own code, and a
/// byte that decodes does so to the status carrying exactly that code.
pub proof fn lemma_decode_code_round_trip(s: Status, value: u8)
    ensures
        status_of(code_of(s)) == Some(s),
        status_of(value) == Some(s) ==> code_of(s) == value,
{
}

impl Status {
    /// Decodes a raw byte. Succeeds exactly on the eighteen recognized codes;
    /// any other byte is returned unchanged as the error.
    pub fn try_from(value: u8) -> (r: Result<Status, u8>)
        ensures
            r == spec_decode(value),
    {
        match value {
            10 => Ok(Status::Input),
            11 => Ok(Status::SensitiveInput),
            20 => Ok(Status::Success),
            30 => Ok(Status::TemporaryRedirect),
            31 => Ok(Status::PermanentRedirect),
            40 => Ok(Status::TemporaryFailure),
            41 => Ok(Status::ServerUnavailable),
            42 => Ok(Status::CGIError),
            43 => Ok(Status::ProxyError),
            44 => Ok(Status::SlowDown),
            50 => Ok(Status::PermanentFailure),
            51 => Ok(Status::NotFound),
            52 => Ok(Status::Gone),
            53 => Ok(Status::ProxyRequestRefused),
            59 => Ok(Status::BadRequest),
            60 => Ok(Status::ClientCertRequired),
            61 => Ok(Status::NotAuthorized),
            62 => Ok(Status::CertNotValid),
            _ => Err(value),
        }
    }
}

} // verus!
