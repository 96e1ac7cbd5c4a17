use vstd::prelude::*;

verus! {

/// Frequency of the infrared carrier, in kHz.
pub const CARRIER_FREQ_KHZ: u16 = 38;

/// One period of the carrier, in microseconds (1000 / 38, truncated).
pub const CARRIER_PERIOD_MICROS: u16 = 1000 / CARRIER_FREQ_KHZ;

/// The carrier is on for a third of each period.
pub const ON_DUTY_MICROS: u16 = CARRIER_PERIOD_MICROS / 3;

/// Factor by which the capture tick is coarser than one carrier period.
pub const N_OF_PRESCALER: u16 = 2;

/// Amount added to the run counter on each capture tick.
pub const COUNT_PACE: u16 = N_OF_PRESCALER;

/// Interval of the periodic capture tick, in microseconds.
pub const TIMER_INTERVAL_MICROS: u16 = CARRIER_PERIOD_MICROS * N_OF_PRESCALER;

/// A run counter that reaches this value (about 34 ms without a level
/// change) ends the capture.
pub const TIMEOUT_COUNTS: u16 = 34 * 1000 / TIMER_INTERVAL_MICROS;

/// Microseconds that one tick count of a pulse train stands for.
pub const TICK_MICROS: u32 = 26;

/// Pause between two replayed pulse trains, in microseconds.
pub const INTER_TRAIN_GAP_MICROS: u64 = 1000;

/// The values that the timing constants work out to.
pub proof fn lemma_timing_values()
    ensures
        CARRIER_PERIOD_MICROS == 26,
        ON_DUTY_MICROS == 8,
        COUNT_PACE == 2,
        TIMER_INTERVAL_MICROS == 52,
        TIMEOUT_COUNTS == 653,
        TICK_MICROS == CARRIER_PERIOD_MICROS,
{
}

} // verus!
