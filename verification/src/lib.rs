//! Arbitration of display hardware among the seats of a multi-seat machine.
//!
//! A privileged daemon holds the GPUs of the machine and leases the displays
//! of a seat to one process of that seat at a time. This library is the
//! daemon's reasoning: which connector is which display, which displays
//! belong to which seat, who may have them and who has to give them back.
//! The daemon around it talks to the kernel, the session manager and the
//! peers, and does what the library tells it.

use crate::distributor::{spec_scan_devices, Cards, Device, Distributor, Lease};
use crate::error::Error;
use vstd::prelude::*;

pub mod distributor;
pub mod drm;
pub mod error;
pub mod message;
pub mod registry;
pub mod session;
pub mod text;

verus! {

/// Brings the arbiter up: checks that the daemon's own session is bound to a
/// seat, of which `seat_id` is the name that the session manager gave, and
/// takes in the devices that the device database listed for that seat.
pub fn run(seat_id: &str, devices: &Vec<Device>) -> (r: Result<Distributor, Error>)
    ensures
        seat_id@.len() == 0 ==> (r matches Err(error) && error == Error::NoSeat),
        seat_id@.len() > 0 ==> match spec_scan_devices(
            (Cards { nodes: Seq::empty(), displays: Seq::empty() }),
            devices@,
        ) {
            (cards, None) => r matches Ok(distributor) && distributor.wf() && distributor.cards()
                == cards && distributor.leases() == Map::<Seq<char>, Lease>::empty(),
            (_, Some(refusal)) => r matches Err(error) && error == refusal,
        },
{
    match crate::session::process_seat(seat_id) {
        Ok(_) => {},
        Err(error) => {
            return Err(error);
        },
    }
    let mut distributor = Distributor::new();
    match distributor.scan_devices(devices) {
        Ok(()) => Ok(distributor),
        Err(error) => Err(error),
    }
}

} // verus!
