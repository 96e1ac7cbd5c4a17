use vstd::prelude::*;

use crate::infrared_codes::InfraredCodes;
use crate::timing::{lemma_timing_values, COUNT_PACE, TIMEOUT_COUNTS};

verus! {

/// Level of the receiver's input line.
#[derive(Clone, Copy, Debug, PartialEq, Eq, Structural)]
pub enum Level {
    Low,
    High,
}

/// The receiver module drives its output low while it sees the carrier.
pub const ASSERT_IR: Level = Level::Low;

/// The idle level of the receiver's output.
pub const NEGATE_IR: Level = Level::High;

pub open spec fn flipped(l: Level) -> Level {
    match l {
        Level::Low => Level::High,
        Level::High => Level::Low,
    }
}

impl Level {
    /// The other level.
    pub fn flip(self) -> (r: Level)
        ensures
            r == flipped(self),
    {
        match self {
            Level::Low => Level::High,
            Level::High => Level::Low,
        }
    }
}

/// What the driver of a capture does after handing it a read.
#[derive(Clone, Copy, Debug, PartialEq, Eq, Structural)]
pub enum CaptureAction {
    /// Wait for the next tick, then read the line again.
    WaitTick,
    /// Read the line again at once: the signal has just started.
    ReadAgain,
    /// The pulse train is complete.
    Finished,
}

/// State of a capture: waiting for the first mark, counting the run of the
/// current level, or done.
#[derive(Clone, Copy, Debug, PartialEq, Eq, Structural)]
pub enum Capture {
    WaitForAssert,
    Counting { level: Level, count: u16 },
    Done,
}

impl Capture {
    /// A counting state always has its counter below the timeout.
    pub open spec fn wf(self) -> bool {
        match self {
            Capture::Counting { count, .. } => count < TIMEOUT_COUNTS,
            _ => true,
        }
    }

    /// The state after one read of the line.
    pub open spec fn next(self, read: Level) -> Capture {
        match self {
            Capture::WaitForAssert => if read == NEGATE_IR {
                Capture::WaitForAssert
            } else {
                Capture::Counting { level: ASSERT_IR, count: 0 }
            },
            Capture::Counting { level, count } => {
                let c = if read == level {
                    count + COUNT_PACE
                } else {
                    0
                };
                if c >= TIMEOUT_COUNTS {
                    Capture::Done
                } else if read == level {
                    Capture::Counting { level, count: c as u16 }
                } else {
                    Capture::Counting { level: flipped(level), count: 0 }
                }
            },
            Capture::Done => Capture::Done,
        }
    }

    /// The samples that one read of the line appends to the train: the run
    /// that a level change ends, and the last run when the timeout is reached.
    pub open spec fn emitted(self, read: Level) -> Seq<u16> {
        match self {
            Capture::Counting { level, count } => if read == level {
                if count + COUNT_PACE >= TIMEOUT_COUNTS {
                    seq![(count + COUNT_PACE) as u16]
                } else {
                    Seq::empty()
                }
            } else {
                seq![count]
            },
            _ => Seq::empty(),
        }
    }

    /// What the driver does after one read of the line.
    pub open spec fn action(self, read: Level) -> CaptureAction {
        match self {
            Capture::WaitForAssert => if read == NEGATE_IR {
                CaptureAction::WaitTick
            } else {
                CaptureAction::ReadAgain
            },
            _ => if self.next(read) == Capture::Done {
                CaptureAction::Finished
            } else {
                CaptureAction::WaitTick
            },
        }
    }

    /// A capture that waits for the first mark.
    pub fn new() -> (r: Capture)
        ensures
            r == Capture::WaitForAssert,
    {
        Capture::WaitForAssert
    }

    /// Whether the pulse train is complete.
    pub fn is_done(&self) -> (r: bool)
        ensures
            r == (*self == Capture::Done),
    {
        match self {
            Capture::Done => true,
            _ => false,
        }
    }

    /// Takes one read of the input line, appends the samples it completes to
    /// `codes`, and says what to do next.
    pub fn on_read(&mut self, read: Level, codes: &mut InfraredCodes) -> (a: CaptureAction)
        requires
            old(self).wf(),
            *old(self) != Capture::Done,
        ensures
            final(self).wf(),
            *final(self) == old(self).next(read),
            final(codes)@ == old(codes)@ + old(self).emitted(read),
            a == old(self).action(read),
    {
        proof {
            lemma_timing_values();
        }
        match *self {
            Capture::WaitForAssert => {
                if read == NEGATE_IR {
                    CaptureAction::WaitTick
                } else {
                    *self = Capture::Counting { level: ASSERT_IR, count: 0 };
                    CaptureAction::ReadAgain
                }
            },
            Capture::Counting { level, count } => {
                let c: u16;
                if read == level {
                    c = count + COUNT_PACE;
                    *self = Capture::Counting { level, count: c };
                } else {
                    codes.push(count);
                    c = 0;
                    *self = Capture::Counting { level: level.flip(), count: 0 };
                }
                if c >= TIMEOUT_COUNTS {
                    codes.push(c);
                    *self = Capture::Done;
                    proof {
                        assert(codes@ =~= old(codes)@ + old(self).emitted(read));
                    }
                    CaptureAction::Finished
                } else {
                    proof {
                        assert(codes@ =~= old(codes)@ + old(self).emitted(read));
                    }
                    CaptureAction::WaitTick
                }
            },
            Capture::Done => CaptureAction::Finished,
        }
    }
}

/// Samples that a capture in state `c` appends while it takes `reads` in
/// order, up to the read that completes it.
pub open spec fn run_emitted(c: Capture, reads: Seq<Level>) -> Seq<u16>
    decreases reads.len(),
{
    if reads.len() == 0 || c == Capture::Done {
        Seq::empty()
    } else {
        c.emitted(reads[0]) + run_emitted(c.next(reads[0]), reads.drop_first())
    }
}

/// State of a capture in state `c` after it has taken `reads` in order, or
/// after the read that completed it.
pub open spec fn run_state(c: Capture, reads: Seq<Level>) -> Capture
    decreases reads.len(),
{
    if reads.len() == 0 || c == Capture::Done {
        c
    } else {
        run_state(c.next(reads[0]), reads.drop_first())
    }
}

/// How many of `reads` a capture in state `c` takes before it is done (all
/// of them if it never is).
pub open spec fn run_consumed(c: Capture, reads: Seq<Level>) -> nat
    decreases reads.len(),
{
    if reads.len() == 0 || c == Capture::Done {
        0
    } else {
        1 + run_consumed(c.next(reads[0]), reads.drop_first())
    }
}

/// Runs a capture over recorded reads of the input line. Gives the pulse
/// train and the number of reads taken, or `None` where the reads end
/// before the capture is complete.
pub fn capture_from_levels(reads: &[Level]) -> (r: Option<(InfraredCodes, usize)>)
    ensures
        match r {
            Some((codes, n)) => {
                &&& run_state(Capture::WaitForAssert, reads@) == Capture::Done
                &&& codes@ == run_emitted(Capture::WaitForAssert, reads@)
                &&& n == run_consumed(Capture::WaitForAssert, reads@)
            },
            None => run_state(Capture::WaitForAssert, reads@) != Capture::Done,
        },
{
    let mut state = Capture::new();
    let mut codes = InfraredCodes::new();
    let mut i: usize = 0;
    proof {
        assert(reads@.skip(0) =~= reads@);
        assert(codes@ + run_emitted(state, reads@) =~= run_emitted(state, reads@));
    }
    while i < reads.len()
        invariant
            i <= reads@.len(),
            state.wf(),
            state != Capture::Done,
            run_emitted(Capture::WaitForAssert, reads@) == codes@ + run_emitted(
                state,
                reads@.skip(i as int),
            ),
            run_state(Capture::WaitForAssert, reads@) == run_state(state, reads@.skip(i as int)),
            run_consumed(Capture::WaitForAssert, reads@) == i + run_consumed(
                state,
                reads@.skip(i as int),
            ),
        decreases reads@.len() - i,
    {
        let ghost before = state;
        let ghost before_codes = codes@;
        let ghost rest = reads@.skip(i as int);
        proof {
            assert(rest[0] == reads@[i as int]);
            assert(rest.drop_first() =~= reads@.skip(i + 1));
        }
        let _ = state.on_read(reads[i], &mut codes);
        proof {
            assert(run_emitted(Capture::WaitForAssert, reads@) =~= codes@ + run_emitted(
                state,
                reads@.skip(i + 1),
            ));
        }
        i = i + 1;
        if state.is_done() {
            proof {
                assert(codes@ + run_emitted(state, reads@.skip(i as int)) =~= codes@);
            }
            return Some((codes, i));
        }
    }
    None
}

/// A run of unchanged reads ends the capture on exactly the read that brings
/// the counter to the timeout, and the last sample is that counter.
pub proof fn lemma_silence_ends_capture(level: Level, count: u16, reads: Seq<Level>)
    requires
        count < TIMEOUT_COUNTS,
        forall|i: int| 0 <= i < reads.len() ==> reads[i] == level,
        reads.len() >= 1,
        count + COUNT_PACE * reads.len() >= TIMEOUT_COUNTS,
        count + COUNT_PACE * (reads.len() - 1) < TIMEOUT_COUNTS,
    ensures
        run_state(Capture::Counting { level, count }, reads) == Capture::Done,
        run_consumed(Capture::Counting { level, count }, reads) == reads.len(),
        run_emitted(Capture::Counting { level, count }, reads) == seq![
            (count + COUNT_PACE * reads.len()) as u16,
        ],
    decreases reads.len(),
{
    lemma_timing_values();
    let c = Capture::Counting { level, count };
    let rest = reads.drop_first();
    assert(reads[0] == level);
    assert(COUNT_PACE * reads.len() == 2 * reads.len());
    assert(COUNT_PACE * (reads.len() - 1) == 2 * (reads.len() - 1));
    if reads.len() == 1 {
        assert(c.next(reads[0]) == Capture::Done);
        assert(run_consumed(Capture::Done, rest) == 0);
        assert(run_emitted(Capture::Done, rest) == Seq::<u16>::empty());
        assert(c.emitted(reads[0]) == seq![(count + COUNT_PACE) as u16]);
        assert(run_emitted(c, reads) =~= seq![(count + COUNT_PACE) as u16]);
    } else {
        let n = (count + COUNT_PACE) as u16;
        assert(c.next(reads[0]) == Capture::Counting { level, count: n });
        assert(COUNT_PACE * rest.len() == 2 * rest.len());
        assert(COUNT_PACE * (rest.len() - 1) == 2 * (rest.len() - 1));
        assert forall|i: int| 0 <= i < rest.len() implies rest[i] == level by {
            assert(rest[i] == reads[i + 1]);
        }
        lemma_silence_ends_capture(level, n, rest);
        assert(run_emitted(c, reads) =~= run_emitted(Capture::Counting { level, count: n }, rest));
    }
}

} // verus!
