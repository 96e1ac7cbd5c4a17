use vstd::prelude::*;

use crate::infrared_codes::InfraredCodes;
use crate::timing::TICK_MICROS;

verus! {

/// Microseconds that a sample of a pulse train lasts.
pub open spec fn micros_of(n: u16) -> u32 {
    (n * TICK_MICROS) as u32
}

/// The replay schedule of a pulse train: for each mark and the space after
/// it, how long the carrier is on and then off, in microseconds.
///
/// A train of odd length ends in a mark with no space after it; that last
/// mark is left out of the schedule.
pub fn replay_pairs(codes: &InfraredCodes) -> (r: Vec<(u32, u32)>)
    ensures
        r@.len() == codes@.len() / 2,
        forall|i: int|
            0 <= i < r@.len() ==> #[trigger] r@[i] == (
                micros_of(codes@[2 * i]),
                micros_of(codes@[2 * i + 1]),
            ),
{
    let us = codes.to_micro_seconds();
    let mut r: Vec<(u32, u32)> = Vec::new();
    let mut i: usize = 0;
    while i + 1 < us.len()
        invariant
            us@.len() == codes@.len(),
            forall|j: int| 0 <= j < us@.len() ==> us@[j] == codes@[j] as u32 * TICK_MICROS,
            i % 2 == 0,
            i <= us@.len(),
            r@.len() == i / 2,
            forall|k: int|
                0 <= k < r@.len() ==> #[trigger] r@[k] == (
                    micros_of(codes@[2 * k]),
                    micros_of(codes@[2 * k + 1]),
                ),
        decreases us@.len() - i,
    {
        r.push((us[i], us[i + 1]));
        i = i + 2;
    }
    r
}

} // verus!
