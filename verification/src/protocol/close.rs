//! Reasons for closing a connection.

use crate::text::{decimal, numbered};
use vstd::prelude::*;

verus! {

/// A reason for closing the WebSocket connection.
#[derive(Debug, PartialEq, Eq)]
pub struct CloseReason {
    /// The code to close the connection with.
    pub code: CloseCode,
    /// An optional message to close the connection with.
    pub description: Option<String>,
}

/// What a reason for closing says.
pub struct CloseReasonView {
    pub code: CloseCode,
    pub description: Option<Seq<char>>,
}

impl View for CloseReason {
    type V = CloseReasonView;

    open spec fn view(&self) -> CloseReasonView {
        CloseReasonView {
            code: self.code,
            description: match self.description {
                Some(description) => Some(description@),
                None => None,
            },
        }
    }
}

impl Clone for CloseReason {
    fn clone(&self) -> (copy: CloseReason)
        ensures
            copy == *self,
    {
        let description = match &self.description {
            Some(description) => Some(description.clone()),
            None => None,
        };
        CloseReason { code: self.code, description }
    }
}

impl CloseReason {
    /// Makes a reason of its parts.
    pub fn new(code: CloseCode, description: Option<String>) -> (reason: CloseReason)
        ensures
            reason == (CloseReason { code, description }),
    {
        CloseReason { code, description }
    }
}

/// The status codes that a close frame may hold.
#[derive(Copy, Clone, Debug, PartialEq, Eq, Structural)]
pub enum CloseCode {
    Normal,
    GoingAway,
    Protocol,
    Unsupported,
    Status,
    Abnormal,
    Invalid,
    Policy,
    Overflow,
    Extension,
    Unexpected,
    Restarting,
    TryAgain,
    Tls,
    ReservedExtension(u16),
    Library(u16),
    Application(u16),
}

/// A number that is not the code of any reason for closing.
#[derive(Copy, Clone, Debug, PartialEq, Eq, Structural)]
pub struct CloseCodeParseErr(pub u16);

impl CloseCode {
    /// The number of a close code.
    pub open spec fn number(self) -> u16 {
        match self {
            CloseCode::Normal => 1000,
            CloseCode::GoingAway => 1001,
            CloseCode::Protocol => 1002,
            CloseCode::Unsupported => 1003,
            CloseCode::Status => 1005,
            CloseCode::Abnormal => 1006,
            CloseCode::Invalid => 1007,
            CloseCode::Policy => 1008,
            CloseCode::Overflow => 1009,
            CloseCode::Extension => 1010,
            CloseCode::Unexpected => 1011,
            CloseCode::Restarting => 1012,
            CloseCode::TryAgain => 1013,
            CloseCode::Tls => 1015,
            CloseCode::ReservedExtension(n) => n,
            CloseCode::Library(n) => n,
            CloseCode::Application(n) => n,
        }
    }

    /// The close code of a number.
    pub open spec fn of_number(value: u16) -> Result<CloseCode, CloseCodeParseErr> {
        if value == 1000 {
            Ok(CloseCode::Normal)
        } else if value == 1001 {
            Ok(CloseCode::GoingAway)
        } else if value == 1002 {
            Ok(CloseCode::Protocol)
        } else if value == 1003 {
            Ok(CloseCode::Unsupported)
        } else if value == 1005 {
            Ok(CloseCode::Status)
        } else if value == 1006 {
            Ok(CloseCode::Abnormal)
        } else if value == 1007 {
            Ok(CloseCode::Invalid)
        } else if value == 1008 {
            Ok(CloseCode::Policy)
        } else if value == 1009 {
            Ok(CloseCode::Overflow)
        } else if value == 1010 {
            Ok(CloseCode::Extension)
        } else if value == 1011 {
            Ok(CloseCode::Unexpected)
        } else if value == 1012 {
            Ok(CloseCode::Restarting)
        } else if value == 1013 {
            Ok(CloseCode::TryAgain)
        } else if value == 1015 {
            Ok(CloseCode::Tls)
        } else if 2000 <= value <= 2999 {
            Ok(CloseCode::ReservedExtension(value))
        } else if 3000 <= value <= 3999 {
            Ok(CloseCode::Library(value))
        } else if 4000 <= value <= 4999 {
            Ok(CloseCode::Application(value))
        } else {
            Err(CloseCodeParseErr(value))
        }
    }

    /// Whether a number carried by this code lies in the range that the code stands for.
    pub open spec fn in_range(self) -> bool {
        match self {
            CloseCode::ReservedExtension(n) => 2000 <= n <= 2999,
            CloseCode::Library(n) => 3000 <= n <= 3999,
            CloseCode::Application(n) => 4000 <= n <= 4999,
            _ => true,
        }
    }

    /// Whether a peer must never send this code.
    pub open spec fn illegal(self) -> bool {
        self is Status || self is Tls || self is Abnormal || self is ReservedExtension
    }

    /// Whether a peer must never send this code.
    pub fn is_illegal(&self) -> (illegal: bool)
        ensures
            illegal == self.illegal(),
    {
        matches!(
            self,
            CloseCode::Status | CloseCode::Tls | CloseCode::Abnormal | CloseCode::ReservedExtension(_)
        )
    }
}

/// The number that two bytes hold in big-endian order.
pub open spec fn number_of(bytes: [u8; 2]) -> u16 {
    (bytes@[0] * 256 + bytes@[1]) as u16
}

impl TryFrom<[u8; 2]> for CloseCode {
    type Error = CloseCodeParseErr;

    fn try_from(value: [u8; 2]) -> (code: Result<CloseCode, CloseCodeParseErr>) {
        let value: u16 = value[0] as u16 * 256 + value[1] as u16;
        match value {
            1000 => Ok(CloseCode::Normal),
            1001 => Ok(CloseCode::GoingAway),
            1002 => Ok(CloseCode::Protocol),
            1003 => Ok(CloseCode::Unsupported),
            1005 => Ok(CloseCode::Status),
            1006 => Ok(CloseCode::Abnormal),
            1007 => Ok(CloseCode::Invalid),
            1008 => Ok(CloseCode::Policy),
            1009 => Ok(CloseCode::Overflow),
            1010 => Ok(CloseCode::Extension),
            1011 => Ok(CloseCode::Unexpected),
            1012 => Ok(CloseCode::Restarting),
            1013 => Ok(CloseCode::TryAgain),
            1015 => Ok(CloseCode::Tls),
            n if 2000 <= n && n <= 2999 => Ok(CloseCode::ReservedExtension(n)),
            n if 3000 <= n && n <= 3999 => Ok(CloseCode::Library(n)),
            n if 4000 <= n && n <= 4999 => Ok(CloseCode::Application(n)),
            n => Err(CloseCodeParseErr(n)),
        }
    }
}

impl vstd::std_specs::convert::TryFromSpecImpl<[u8; 2]> for CloseCode {
    open spec fn obeys_try_from_spec() -> bool {
        true
    }

    open spec fn try_from_spec(value: [u8; 2]) -> Result<CloseCode, CloseCodeParseErr> {
        CloseCode::of_number(number_of(value))
    }
}

impl From<CloseCode> for u16 {
    fn from(code: CloseCode) -> (number: u16) {
        match code {
            CloseCode::Normal => 1000,
            CloseCode::GoingAway => 1001,
            CloseCode::Protocol => 1002,
            CloseCode::Unsupported => 1003,
            CloseCode::Status => 1005,
            CloseCode::Abnormal => 1006,
            CloseCode::Invalid => 1007,
            CloseCode::Policy => 1008,
            CloseCode::Overflow => 1009,
            CloseCode::Extension => 1010,
            CloseCode::Unexpected => 1011,
            CloseCode::Restarting => 1012,
            CloseCode::TryAgain => 1013,
            CloseCode::Tls => 1015,
            CloseCode::ReservedExtension(n) => n,
            CloseCode::Library(n) => n,
            CloseCode::Application(n) => n,
        }
    }
}

impl vstd::std_specs::convert::FromSpecImpl<CloseCode> for u16 {
    open spec fn obeys_from_spec() -> bool {
        true
    }

    open spec fn from_spec(code: CloseCode) -> u16 {
        code.number()
    }
}

impl CloseCodeParseErr {
    /// The message of this error.
    pub open spec fn message(self) -> Seq<char> {
        "Unknown close code: `"@ + decimal(self.0 as nat) + "`"@
    }

    /// Renders this error.
    pub fn render(&self) -> (text: String)
        ensures
            text@ == self.message(),
    {
        numbered("Unknown close code: `", self.0 as u64, "`")
    }
}

/// The number of a close code is read back as the same code.
pub proof fn lemma_close_code_round_trip(code: CloseCode)
    requires
        code.in_range(),
    ensures
        CloseCode::of_number(code.number()) == Ok::<CloseCode, CloseCodeParseErr>(code),
{
}

/// A number that is read as a close code is the number of that code, and the code is in its range.
pub proof fn lemma_close_code_of_number(value: u16)
    ensures
        CloseCode::of_number(value) matches Ok(code) ==> code.number() == value && code.in_range(),
{
}

} // verus!
