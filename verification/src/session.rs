//! The seat of a process, as the session manager names it.

use crate::distributor::SeatId;
use crate::error::Error;
use vstd::prelude::*;

verus! {

/// Reads the seat of a process from what the session manager answered for
/// the process's session. An empty name means that the session is bound to
/// no seat.
pub fn process_seat(seat_id: &str) -> (r: Result<SeatId, Error>)
    ensures
        seat_id@.len() == 0 ==> r == Err::<SeatId, Error>(Error::NoSeat),
        seat_id@.len() > 0 ==> (r matches Ok(seat) && seat@ == seat_id@),
{
    if seat_id.is_empty() {
        return Err(Error::NoSeat);
    }
    Ok(seat_id.to_owned())
}

} // verus!
