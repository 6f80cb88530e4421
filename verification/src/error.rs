//! The structured error type that every public operation returns.

use vstd::prelude::*;

verus! {

/// Result of a client operation: a human-readable success or error message.
pub type MosqResult = Result<String, String>;

/// Error kinds of the client, one per condition the session core can
/// report, plus the classic numeric codes of MQTT client libraries
/// (`ErrNo`, `EAI`, `Proxy`) so that every code in the conventional
/// range `-1..=16` has a variant.
#[derive(Clone, Copy, Debug, PartialEq, Eq, Structural)]
pub enum MosqError {
    ConnPending,
    Success,
    NoMem,
    Protocol,
    Inval,
    NoConn,
    ConnRefused,
    NotFound,
    ConnLost,
    TLS,
    PayloadSize,
    NotSupported,
    Auth,
    ACLDenied,
    Unknown,
    ErrNo,
    EAI,
    Proxy,
}

impl MosqError {
    /// The error named by a numeric code in the conventional range
    /// `-1..=16`; every code outside that range maps to `Unknown`.
    pub open spec fn spec_from_code(code: int) -> MosqError {
        if code == -1 {
            MosqError::ConnPending
        } else if code == 0 {
            MosqError::Success
        } else if code == 1 {
            MosqError::NoMem
        } else if code == 2 {
            MosqError::Protocol
        } else if code == 3 {
            MosqError::Inval
        } else if code == 4 {
            MosqError::NoConn
        } else if code == 5 {
            MosqError::ConnRefused
        } else if code == 6 {
            MosqError::NotFound
        } else if code == 7 {
            MosqError::ConnLost
        } else if code == 8 {
            MosqError::TLS
        } else if code == 9 {
            MosqError::PayloadSize
        } else if code == 10 {
            MosqError::NotSupported
        } else if code == 11 {
            MosqError::Auth
        } else if code == 12 {
            MosqError::ACLDenied
        } else if code == 13 {
            MosqError::Unknown
        } else if code == 14 {
            MosqError::ErrNo
        } else if code == 15 {
            MosqError::EAI
        } else if code == 16 {
            MosqError::Proxy
        } else {
            MosqError::Unknown
        }
    }

    /// Maps a numeric error code to its variant by an exhaustive match:
    /// codes outside `-1..=16` give `Unknown`.
    pub fn from_i32(errno: i32) -> (r: MosqError)
        ensures
            r == MosqError::spec_from_code(errno as int),
    {
        match errno {
            -1 => MosqError::ConnPending,
            0 => MosqError::Success,
            1 => MosqError::NoMem,
            2 => MosqError::Protocol,
            3 => MosqError::Inval,
            4 => MosqError::NoConn,
            5 => MosqError::ConnRefused,
            6 => MosqError::NotFound,
            7 => MosqError::ConnLost,
            8 => MosqError::TLS,
            9 => MosqError::PayloadSize,
            10 => MosqError::NotSupported,
            11 => MosqError::Auth,
            12 => MosqError::ACLDenied,
            13 => MosqError::Unknown,
            14 => MosqError::ErrNo,
            15 => MosqError::EAI,
            16 => MosqError::Proxy,
            _ => MosqError::Unknown,
        }
    }

    /// The message text reported for this error.
    pub open spec fn spec_message(self) -> Seq<char> {
        match self {
            MosqError::Success => "Success"@,
            MosqError::ConnPending => "Error: connection pending"@,
            MosqError::NoMem => "Error: no memory"@,
            MosqError::Protocol => "Error: protocol"@,
            MosqError::Inval => "Error: invalid"@,
            MosqError::NoConn => "Error: no connection"@,
            MosqError::ConnRefused => "Error: connection refused"@,
            MosqError::NotFound => "Error: not found"@,
            MosqError::ConnLost => "Error: connection lost"@,
            MosqError::TLS => "Error: TLS error"@,
            MosqError::PayloadSize => "Error: payload size error"@,
            MosqError::NotSupported => "Error: not supported"@,
            MosqError::Auth => "Error: authentication"@,
            MosqError::ACLDenied => "Error: ACL denied"@,
            MosqError::Unknown => "Error: unknown"@,
            MosqError::ErrNo => "Error: ErrNo"@,
            MosqError::EAI => "Error: EAI"@,
            MosqError::Proxy => "Error: proxy"@,
        }
    }

    /// Turns the error into a result: `Success` becomes `Ok`, every
    /// other variant becomes `Err`, each carrying its message text.
    pub fn to_res(&self) -> (r: MosqResult)
        ensures
            r is Ok <==> *self is Success,
            r matches Ok(s) ==> s@ == self.spec_message(),
            r matches Err(s) ==> s@ == self.spec_message(),
    {
        match *self {
            MosqError::Success => Ok("Success".to_string()),
            MosqError::ConnPending => Err("Error: connection pending".to_string()),
            MosqError::NoMem => Err("Error: no memory".to_string()),
            MosqError::Protocol => Err("Error: protocol".to_string()),
            MosqError::Inval => Err("Error: invalid".to_string()),
            MosqError::NoConn => Err("Error: no connection".to_string()),
            MosqError::ConnRefused => Err("Error: connection refused".to_string()),
            MosqError::NotFound => Err("Error: not found".to_string()),
            MosqError::ConnLost => Err("Error: connection lost".to_string()),
            MosqError::TLS => Err("Error: TLS error".to_string()),
            MosqError::PayloadSize => Err("Error: payload size error".to_string()),
            MosqError::NotSupported => Err("Error: not supported".to_string()),
            MosqError::Auth => Err("Error: authentication".to_string()),
            MosqError::ACLDenied => Err("Error: ACL denied".to_string()),
            MosqError::Unknown => Err("Error: unknown".to_string()),
            MosqError::ErrNo => Err("Error: ErrNo".to_string()),
            MosqError::EAI => Err("Error: EAI".to_string()),
            MosqError::Proxy => Err("Error: proxy".to_string()),
        }
    }
}

} // verus!
