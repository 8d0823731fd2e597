//! An in-memory key-value store speaking the RESP3 protocol.
//!
//! The crate verifies the three core subsystems of such a server: the
//! token-schema engine that maps argument vectors to typed command
//! values and back, the frame pipeline that extracts complete RESP3
//! frames from a byte buffer, and the dispatcher that routes a decoded
//! command to a typed datastore and emits the wire response. Network
//! and file I/O live outside this crate; all values cross its boundary
//! as plain byte strings.

use vstd::prelude::*;

pub mod ascii;
pub mod command;
pub mod command_args;
pub mod connection;
pub mod database;
pub mod memds;
pub mod num;
pub mod resp;

verus! {

/// A top-level failure while serving one command.
#[derive(Debug)]
pub enum Error {
    /// The token vector matched a command's keyword but a required
    /// field was malformed.
    Parse(crate::command_args::Error),
    /// The datastore refused the operation; the payload is the message
    /// to send on the wire.
    Handle(Vec<u8>),
    /// A response could not be serialized; fatal for the session.
    Serialize(Vec<u8>),
}

/// Model of [`Error`].
pub enum ErrorV {
    Parse(crate::command_args::Error),
    Handle(Seq<u8>),
    Serialize(Seq<u8>),
}

impl DeepView for Error {
    type V = ErrorV;

    open spec fn deep_view(&self) -> ErrorV {
        match self {
            Error::Parse(e) => ErrorV::Parse(*e),
            Error::Handle(m) => ErrorV::Handle(m@),
            Error::Serialize(m) => ErrorV::Serialize(m@),
        }
    }
}

} // verus!
