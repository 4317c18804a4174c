//! The tags of the SMUX PDUs.

use vstd::prelude::*;

verus! {

/// Opens a peer session.
pub const SMUX_OPEN: u8 = 0xA0;

/// Answers a register request.
pub const SMUX_RRSP: u8 = 0xA1;

/// Closes a session.
pub const SMUX_CLOSE: u8 = 0xA4;

/// Signals a commit.
pub const SMUX_SOUT: u8 = 0xA5;

} // verus!
