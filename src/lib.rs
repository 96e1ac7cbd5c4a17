//! Capture and replay of raw infrared remote-control pulse trains.
//!
//! The library holds the logic: the text codec for pulse trains, the
//! tick-driven capture state machine and the replay schedule. Driving the
//! GPIO lines, the carrier generator and the timers is left to the caller.

pub mod capture;
pub mod infrared_codes;
pub mod replay;
pub mod timing;
