//! Operation codes.

use crate::ratchet_ext;
use crate::text::{decimal, numbered};
use vstd::prelude::*;

verus! {

/// What a frame carries.
#[derive(Debug, Copy, Clone, PartialEq, Eq, Structural)]
pub enum OpCode {
    /// The frame carries a part of a message.
    DataCode(DataCode),
    /// The frame controls the connection.
    ControlCode(ControlCode),
}

/// The operation codes of data frames.
#[derive(Debug, Copy, Clone, PartialEq, Eq, Structural)]
pub enum DataCode {
    /// The frame continues a message.
    Continuation,
    /// The frame starts a text message.
    Text,
    /// The frame starts a binary message.
    Binary,
}

/// The operation codes of control frames.
#[derive(Debug, Copy, Clone, PartialEq, Eq, Structural)]
pub enum ControlCode {
    /// The frame starts or answers the closing handshake.
    Close,
    /// The frame asks for a pong.
    Ping,
    /// The frame answers a ping.
    Pong,
}

/// Why a number is no operation code.
#[derive(Copy, Clone, Debug, PartialEq, Eq, Structural)]
pub enum OpCodeParseErr {
    /// The number is kept for operation codes that are not defined yet.
    Reserved(u8),
    /// The number does not fit in four bits.
    Invalid(u8),
}

impl OpCode {
    /// The number of an operation code.
    pub open spec fn number(self) -> u8 {
        match self {
            OpCode::DataCode(code) => code.number(),
            OpCode::ControlCode(code) => code.number(),
        }
    }

    /// The operation code of a number.
    pub open spec fn of_number(value: u8) -> Result<OpCode, OpCodeParseErr> {
        if value == 0 {
            Ok(OpCode::DataCode(DataCode::Continuation))
        } else if value == 1 {
            Ok(OpCode::DataCode(DataCode::Text))
        } else if value == 2 {
            Ok(OpCode::DataCode(DataCode::Binary))
        } else if value == 8 {
            Ok(OpCode::ControlCode(ControlCode::Close))
        } else if value == 9 {
            Ok(OpCode::ControlCode(ControlCode::Ping))
        } else if value == 10 {
            Ok(OpCode::ControlCode(ControlCode::Pong))
        } else if value < 16 {
            Err(OpCodeParseErr::Reserved(value))
        } else {
            Err(OpCodeParseErr::Invalid(value))
        }
    }

    /// Whether this is the code of a data frame.
    pub fn is_data(&self) -> (data: bool)
        ensures
            data == (*self is DataCode),
    {
        matches!(self, OpCode::DataCode(_))
    }

    /// Whether this is the code of a control frame.
    pub fn is_control(&self) -> (control: bool)
        ensures
            control == (*self is ControlCode),
    {
        matches!(self, OpCode::ControlCode(_))
    }

    /// The name of this code.
    pub fn name(&self) -> (name: &'static str)
        ensures
            name@ == match *self {
                OpCode::DataCode(DataCode::Continuation) => "DataCode(Continuation)"@,
                OpCode::DataCode(DataCode::Text) => "DataCode(Text)"@,
                OpCode::DataCode(DataCode::Binary) => "DataCode(Binary)"@,
                OpCode::ControlCode(ControlCode::Close) => "ControlCode(Close)"@,
                OpCode::ControlCode(ControlCode::Ping) => "ControlCode(Ping)"@,
                OpCode::ControlCode(ControlCode::Pong) => "ControlCode(Pong)"@,
            },
    {
        match self {
            OpCode::DataCode(DataCode::Continuation) => "DataCode(Continuation)",
            OpCode::DataCode(DataCode::Text) => "DataCode(Text)",
            OpCode::DataCode(DataCode::Binary) => "DataCode(Binary)",
            OpCode::ControlCode(ControlCode::Close) => "ControlCode(Close)",
            OpCode::ControlCode(ControlCode::Ping) => "ControlCode(Ping)",
            OpCode::ControlCode(ControlCode::Pong) => "ControlCode(Pong)",
        }
    }
}

impl DataCode {
    /// The number of a data code.
    pub open spec fn number(self) -> u8 {
        match self {
            DataCode::Continuation => 0,
            DataCode::Text => 1,
            DataCode::Binary => 2,
        }
    }

    /// The name of this code.
    pub fn name(&self) -> (name: &'static str)
        ensures
            name@ == match *self {
                DataCode::Continuation => "Continuation"@,
                DataCode::Text => "Text"@,
                DataCode::Binary => "Binary"@,
            },
    {
        match self {
            DataCode::Continuation => "Continuation",
            DataCode::Text => "Text",
            DataCode::Binary => "Binary",
        }
    }
}

impl ControlCode {
    /// The number of a control code.
    pub open spec fn number(self) -> u8 {
        match self {
            ControlCode::Close => 8,
            ControlCode::Ping => 9,
            ControlCode::Pong => 10,
        }
    }

    /// The name of this code.
    pub fn name(&self) -> (name: &'static str)
        ensures
            name@ == match *self {
                ControlCode::Close => "Close"@,
                ControlCode::Ping => "Ping"@,
                ControlCode::Pong => "Pong"@,
            },
    {
        match self {
            ControlCode::Close => "Close",
            ControlCode::Ping => "Ping",
            ControlCode::Pong => "Pong",
        }
    }
}

impl From<OpCode> for u8 {
    fn from(op: OpCode) -> (number: u8) {
        match op {
            OpCode::DataCode(DataCode::Continuation) => 0,
            OpCode::DataCode(DataCode::Text) => 1,
            OpCode::DataCode(DataCode::Binary) => 2,
            OpCode::ControlCode(ControlCode::Close) => 8,
            OpCode::ControlCode(ControlCode::Ping) => 9,
            OpCode::ControlCode(ControlCode::Pong) => 10,
        }
    }
}

impl vstd::std_specs::convert::FromSpecImpl<OpCode> for u8 {
    open spec fn obeys_from_spec() -> bool {
        true
    }

    open spec fn from_spec(op: OpCode) -> u8 {
        op.number()
    }
}

impl TryFrom<u8> for OpCode {
    type Error = OpCodeParseErr;

    fn try_from(value: u8) -> (code: Result<OpCode, OpCodeParseErr>) {
        match value {
            0 => Ok(OpCode::DataCode(DataCode::Continuation)),
            1 => Ok(OpCode::DataCode(DataCode::Text)),
            2 => Ok(OpCode::DataCode(DataCode::Binary)),
            8 => Ok(OpCode::ControlCode(ControlCode::Close)),
            9 => Ok(OpCode::ControlCode(ControlCode::Ping)),
            10 => Ok(OpCode::ControlCode(ControlCode::Pong)),
            reserved if reserved < 16 => Err(OpCodeParseErr::Reserved(reserved)),
            invalid => Err(OpCodeParseErr::Invalid(invalid)),
        }
    }
}

impl vstd::std_specs::convert::TryFromSpecImpl<u8> for OpCode {
    open spec fn obeys_try_from_spec() -> bool {
        true
    }

    open spec fn try_from_spec(value: u8) -> Result<OpCode, OpCodeParseErr> {
        OpCode::of_number(value)
    }
}

impl From<DataCode> for ratchet_ext::OpCode {
    fn from(code: DataCode) -> (op: ratchet_ext::OpCode) {
        match code {
            DataCode::Continuation => ratchet_ext::OpCode::Continuation,
            DataCode::Text => ratchet_ext::OpCode::Text,
            DataCode::Binary => ratchet_ext::OpCode::Binary,
        }
    }
}

impl vstd::std_specs::convert::FromSpecImpl<DataCode> for ratchet_ext::OpCode {
    open spec fn obeys_from_spec() -> bool {
        true
    }

    open spec fn from_spec(code: DataCode) -> ratchet_ext::OpCode {
        match code {
            DataCode::Continuation => ratchet_ext::OpCode::Continuation,
            DataCode::Text => ratchet_ext::OpCode::Text,
            DataCode::Binary => ratchet_ext::OpCode::Binary,
        }
    }
}

impl OpCodeParseErr {
    /// The message of this error.
    pub open spec fn message(self) -> Seq<char> {
        match self {
            OpCodeParseErr::Reserved(code) => "Reserved OpCode: `"@ + decimal(code as nat) + "`"@,
            OpCodeParseErr::Invalid(code) => "Invalid OpCode: `"@ + decimal(code as nat) + "`"@,
        }
    }

    /// Renders this error.
    pub fn render(&self) -> (text: String)
        ensures
            text@ == self.message(),
    {
        match self {
            OpCodeParseErr::Reserved(code) => numbered("Reserved OpCode: `", *code as u64, "`"),
            OpCodeParseErr::Invalid(code) => numbered("Invalid OpCode: `", *code as u64, "`"),
        }
    }
}

/// The number of an operation code is read back as the same code.
pub proof fn lemma_op_code_round_trip(code: OpCode)
    ensures
        OpCode::of_number(code.number()) == Ok::<OpCode, OpCodeParseErr>(code),
        code.number() < 16,
{
}

/// A number that is read as an operation code is the number of that code.
pub proof fn lemma_op_code_of_number(value: u8)
    ensures
        OpCode::of_number(value) matches Ok(code) ==> code.number() == value,
{
}

} // verus!
