//! Typed errors and the process exit codes they map to: a caller branches on
//! the exit, never on parsing prose.
use vstd::prelude::*;
use crate::text::{ascii_chars, dec_digits, hex_digits, push_dec_str, push_hex_str};

pub mod exit;

verus! {

/// Everything that can go wrong driving an instrument, typed so that a
/// caller maps each to its exit code and the message names the mismatch.
#[derive(Debug)]
pub enum HostError {
    /// A refuse-before-use boundary tripped; the string names what
    /// mismatched.
    Refused(String),
    /// The transport layer (cable or sim) failed.
    Transport(String),
    /// Read bytes would not decode.
    Decode(String),
    /// The command line was malformed.
    Usage(String),
}

impl HostError {
    /// The process exit code of each kind of error.
    pub open spec fn exit_code_spec(&self) -> i32 {
        match self {
            HostError::Refused(_) => exit::REFUSED,
            HostError::Transport(_) => exit::TRANSPORT,
            HostError::Decode(_) => exit::DECODE,
            HostError::Usage(_) => exit::USAGE,
        }
    }

    /// The process exit code for this error.
    pub fn exit_code(&self) -> (code: i32)
        ensures
            code == self.exit_code_spec(),
    {
        match self {
            HostError::Refused(_) => exit::REFUSED,
            HostError::Transport(_) => exit::TRANSPORT,
            HostError::Decode(_) => exit::DECODE,
            HostError::Usage(_) => exit::USAGE,
        }
    }

    /// The words the error carries.
    pub open spec fn detail(&self) -> Seq<char> {
        match self {
            HostError::Refused(m) => m@,
            HostError::Transport(m) => m@,
            HostError::Decode(m) => m@,
            HostError::Usage(m) => m@,
        }
    }

    /// The one-line message: the kind, a colon, and the detail.
    pub open spec fn message_spec(&self) -> Seq<char> {
        match self {
            HostError::Refused(m) => "refused: "@ + m@,
            HostError::Transport(m) => "transport: "@ + m@,
            HostError::Decode(m) => "decode: "@ + m@,
            HostError::Usage(m) => "usage: "@ + m@,
        }
    }

    /// The one-line message, as the command line prints it.
    pub fn message(&self) -> (s: String)
        ensures
            s@ == self.message_spec(),
    {
        let (mut s, m) = match self {
            HostError::Refused(m) => (String::from_str("refused: "), m),
            HostError::Transport(m) => (String::from_str("transport: "), m),
            HostError::Decode(m) => (String::from_str("decode: "), m),
            HostError::Usage(m) => (String::from_str("usage: "), m),
        };
        s.append(m.as_str());
        s
    }
}

/// The errors of the SLD layer below the host: a hub whose manufacturer is
/// not Altera, a protocol mismatch, a shift wider than the transport takes,
/// and a transport failure.
#[derive(Debug, Clone)]
pub enum SldError {
    Manufacturer { expected: u32, got: u32 },
    Protocol(String),
    Width { bits: u32, max: u32 },
    Transport(String),
}

/// The message for a hub whose manufacturer is not Altera.
pub open spec fn manufacturer_message(expected: u32, got: u32) -> Seq<char> {
    "hub manufacturer 0x"@ + ascii_chars(hex_digits(got as nat, 3)) + " is not Altera 0x"@
        + ascii_chars(hex_digits(expected as nat, 3)) + " (a device with no SLD hub reads 0x7FF)"@
}

/// The message for a shift wider than the transport takes.
pub open spec fn width_message(bits: u32, max: u32) -> Seq<char> {
    "shift width "@ + ascii_chars(dec_digits(bits as nat)) + " exceeds max "@ + ascii_chars(
        dec_digits(max as nat),
    )
}

/// The host error an SLD error maps to.
pub open spec fn sld_error_spec(e: SldError) -> (Seq<char>, i32) {
    match e {
        SldError::Manufacturer { expected, got } => (
            manufacturer_message(expected, got),
            exit::REFUSED,
        ),
        SldError::Protocol(m) => ("protocol: "@ + m@, exit::REFUSED),
        SldError::Width { bits, max } => (width_message(bits, max), exit::TRANSPORT),
        SldError::Transport(m) => (m@, exit::TRANSPORT),
    }
}

impl HostError {
    /// Maps an SLD error to a host error, keeping the boundary/transport
    /// distinction: a manufacturer or protocol mismatch is a refusal, a width
    /// or shift failure is a transport fault.
    pub fn from_sld(e: SldError) -> (h: HostError)
        ensures
            h.detail() == sld_error_spec(e).0,
            h.exit_code_spec() == sld_error_spec(e).1,
    {
        match e {
            SldError::Manufacturer { expected, got } => {
                let mut s = String::from_str("hub manufacturer 0x");
                push_hex_str(&mut s, got as u128, 3);
                s.append(" is not Altera 0x");
                push_hex_str(&mut s, expected as u128, 3);
                s.append(" (a device with no SLD hub reads 0x7FF)");
                HostError::Refused(s)
            },
            SldError::Protocol(m) => {
                let mut s = String::from_str("protocol: ");
                s.append(m.as_str());
                HostError::Refused(s)
            },
            SldError::Width { bits, max } => {
                let mut s = String::from_str("shift width ");
                push_dec_str(&mut s, bits as u64);
                s.append(" exceeds max ");
                push_dec_str(&mut s, max as u64);
                HostError::Transport(s)
            },
            SldError::Transport(m) => HostError::Transport(m),
        }
    }
}

} // verus!
