//! The errors of the arbiter.

use vstd::prelude::*;

verus! {

/// Why a device record, a peer or a request was turned down.
#[derive(Clone, Copy, Debug, PartialEq, Eq, Structural)]
pub enum Error {
    /// A connector's name is not `<gpu>-<interface>-<id>`.
    UnableToParseDisplayId,
    /// The session of the process is bound to no seat.
    NoSeat,
    /// The peer's credentials name no process.
    NoPeerPid,
    /// The peer sent too few bytes, or bytes that are no request.
    PeerBadMsg,
    /// The card has no display registered for the seat.
    NoDisplaysForSeat,
    /// A connector record names no parent GPU.
    NoParentGpu,
    /// A GPU record names no device node.
    NoDeviceNode,
    /// A message could not be put into bytes.
    Serialization,
}

} // verus!
