//! Verified core of the Interledger STREAM transport: the frame and packet
//! codec, the per-connection secret generator, the stateless receiver, the
//! AIMD congestion controller and the sending state machine.

pub mod address;
pub mod base64url;
pub mod client;
pub mod congestion;
pub mod crypto;
pub mod ilp;
pub mod oer;
pub mod packet;
pub mod server;

use vstd::prelude::*;

verus! {

/// Failure to parse a STREAM packet or frame from bytes.
#[derive(Debug, Clone, Copy, PartialEq, Eq, Structural)]
pub enum ParseError {
    InvalidPacket,
}

} // verus!
