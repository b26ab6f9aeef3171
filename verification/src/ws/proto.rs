//! Operation codes and close codes of the WebSocket protocol.

use vstd::prelude::*;
use vstd::std_specs::convert::FromSpecImpl;

verus! {

/// What kind of frame a frame is.
#[derive(Clone, Copy, Debug, PartialEq, Eq, Structural)]
pub enum OpCode {
    /// The frame goes on with the message of the frame before it.
    Continue,
    /// Text.
    Text,
    /// Binary data.
    Binary,
    /// The connection is to be closed.
    Close,
    /// A ping.
    Ping,
    /// The answer to a ping.
    Pong,
    /// A code that names no kind of frame.
    Bad,
}

/// The kind of frame that the low four bits of the first byte name.
pub open spec fn opcode_of(byte: u8) -> OpCode {
    if byte == 0 {
        OpCode::Continue
    } else if byte == 1 {
        OpCode::Text
    } else if byte == 2 {
        OpCode::Binary
    } else if byte == 8 {
        OpCode::Close
    } else if byte == 9 {
        OpCode::Ping
    } else if byte == 10 {
        OpCode::Pong
    } else {
        OpCode::Bad
    }
}

/// The four bits that stand for a kind of frame; `Bad` goes as `Close`.
pub open spec fn opcode_byte(code: OpCode) -> u8 {
    match code {
        OpCode::Continue => 0,
        OpCode::Text => 1,
        OpCode::Binary => 2,
        OpCode::Close => 8,
        OpCode::Ping => 9,
        OpCode::Pong => 10,
        OpCode::Bad => 8,
    }
}

impl From<u8> for OpCode {
    fn from(byte: u8) -> (r: OpCode) {
        match byte {
            0 => OpCode::Continue,
            1 => OpCode::Text,
            2 => OpCode::Binary,
            8 => OpCode::Close,
            9 => OpCode::Ping,
            10 => OpCode::Pong,
            _ => OpCode::Bad,
        }
    }
}

impl FromSpecImpl<u8> for OpCode {
    open spec fn obeys_from_spec() -> bool {
        true
    }

    open spec fn from_spec(byte: u8) -> OpCode {
        opcode_of(byte)
    }
}

impl From<OpCode> for u8 {
    fn from(code: OpCode) -> (r: u8) {
        match code {
            OpCode::Continue => 0,
            OpCode::Text => 1,
            OpCode::Binary => 2,
            OpCode::Close => 8,
            OpCode::Ping => 9,
            OpCode::Pong => 10,
            OpCode::Bad => 8,
        }
    }
}

impl FromSpecImpl<OpCode> for u8 {
    open spec fn obeys_from_spec() -> bool {
        true
    }

    open spec fn from_spec(code: OpCode) -> u8 {
        opcode_byte(code)
    }
}

impl OpCode {
    /// The name of the kind of frame.
    pub fn name(&self) -> (r: &'static str)
        ensures
            r@ == match *self {
                OpCode::Continue => "CONTINUE"@,
                OpCode::Text => "TEXT"@,
                OpCode::Binary => "BINARY"@,
                OpCode::Close => "CLOSE"@,
                OpCode::Ping => "PING"@,
                OpCode::Pong => "PONG"@,
                OpCode::Bad => "BAD"@,
            },
    {
        match *self {
            OpCode::Continue => "CONTINUE",
            OpCode::Text => "TEXT",
            OpCode::Binary => "BINARY",
            OpCode::Close => "CLOSE",
            OpCode::Ping => "PING",
            OpCode::Pong => "PONG",
            OpCode::Bad => "BAD",
        }
    }
}

/// Every kind of frame but `Bad` is read back from its four bits.
pub proof fn lemma_opcode_roundtrip(code: OpCode)
    requires
        code != OpCode::Bad,
    ensures
        opcode_of(opcode_byte(code)) == code,
        opcode_byte(code) < 16,
{
}

/// Why a connection is closed.
#[derive(Clone, Copy, Debug, PartialEq, Eq, Structural)]
pub enum CloseCode {
    /// The purpose of the connection is fulfilled.
    Normal,
    /// The endpoint goes away.
    Away,
    /// A protocol error.
    Protocol,
    /// Data of a kind that the endpoint does not take.
    Unsupported,
    /// No status code was present.
    Status,
    /// The connection was lost without a close frame.
    Abnormal,
    /// Data that does not fit the kind of the message.
    Invalid,
    /// A message that violates the policy of the endpoint.
    Policy,
    /// A message that is too big.
    Size,
    /// The server did not negotiate an extension that the client needs.
    Extension,
    /// The server met a condition that it did not expect.
    Error,
    /// The server restarts.
    Restart,
    /// The server is overloaded; try again later.
    Again,
    /// The TLS handshake failed.
    Tls,
    /// No code at all: the close frame has no payload.
    Empty,
    /// Any other code.
    Other(u16),
}

/// The number of a close code.
pub open spec fn close_number(code: CloseCode) -> u16 {
    match code {
        CloseCode::Normal => 1000,
        CloseCode::Away => 1001,
        CloseCode::Protocol => 1002,
        CloseCode::Unsupported => 1003,
        CloseCode::Status => 1005,
        CloseCode::Abnormal => 1006,
        CloseCode::Invalid => 1007,
        CloseCode::Policy => 1008,
        CloseCode::Size => 1009,
        CloseCode::Extension => 1010,
        CloseCode::Error => 1011,
        CloseCode::Restart => 1012,
        CloseCode::Again => 1013,
        CloseCode::Tls => 1015,
        CloseCode::Empty => 0,
        CloseCode::Other(code) => code,
    }
}

/// The close code of a number.
pub open spec fn close_code_of(code: u16) -> CloseCode {
    if code == 1000 {
        CloseCode::Normal
    } else if code == 1001 {
        CloseCode::Away
    } else if code == 1002 {
        CloseCode::Protocol
    } else if code == 1003 {
        CloseCode::Unsupported
    } else if code == 1005 {
        CloseCode::Status
    } else if code == 1006 {
        CloseCode::Abnormal
    } else if code == 1007 {
        CloseCode::Invalid
    } else if code == 1008 {
        CloseCode::Policy
    } else if code == 1009 {
        CloseCode::Size
    } else if code == 1010 {
        CloseCode::Extension
    } else if code == 1011 {
        CloseCode::Error
    } else if code == 1012 {
        CloseCode::Restart
    } else if code == 1013 {
        CloseCode::Again
    } else if code == 1015 {
        CloseCode::Tls
    } else if code == 0 {
        CloseCode::Empty
    } else {
        CloseCode::Other(code)
    }
}

impl From<CloseCode> for u16 {
    fn from(code: CloseCode) -> (r: u16) {
        match code {
            CloseCode::Normal => 1000,
            CloseCode::Away => 1001,
            CloseCode::Protocol => 1002,
            CloseCode::Unsupported => 1003,
            CloseCode::Status => 1005,
            CloseCode::Abnormal => 1006,
            CloseCode::Invalid => 1007,
            CloseCode::Policy => 1008,
            CloseCode::Size => 1009,
            CloseCode::Extension => 1010,
            CloseCode::Error => 1011,
            CloseCode::Restart => 1012,
            CloseCode::Again => 1013,
            CloseCode::Tls => 1015,
            CloseCode::Empty => 0,
            CloseCode::Other(code) => code,
        }
    }
}

impl FromSpecImpl<CloseCode> for u16 {
    open spec fn obeys_from_spec() -> bool {
        true
    }

    open spec fn from_spec(code: CloseCode) -> u16 {
        close_number(code)
    }
}

impl From<u16> for CloseCode {
    fn from(code: u16) -> (r: CloseCode) {
        match code {
            1000 => CloseCode::Normal,
            1001 => CloseCode::Away,
            1002 => CloseCode::Protocol,
            1003 => CloseCode::Unsupported,
            1005 => CloseCode::Status,
            1006 => CloseCode::Abnormal,
            1007 => CloseCode::Invalid,
            1008 => CloseCode::Policy,
            1009 => CloseCode::Size,
            1010 => CloseCode::Extension,
            1011 => CloseCode::Error,
            1012 => CloseCode::Restart,
            1013 => CloseCode::Again,
            1015 => CloseCode::Tls,
            0 => CloseCode::Empty,
            _ => CloseCode::Other(code),
        }
    }
}

impl FromSpecImpl<u16> for CloseCode {
    open spec fn obeys_from_spec() -> bool {
        true
    }

    open spec fn from_spec(code: u16) -> CloseCode {
        close_code_of(code)
    }
}

/// The number of the close code of a number is that number.
pub proof fn lemma_close_code_roundtrip(code: u16)
    ensures
        close_number(close_code_of(code)) == code,
{
}

} // verus!
