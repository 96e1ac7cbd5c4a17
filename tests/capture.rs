use irremocon::capture::{capture_from_levels, Capture, CaptureAction, Level, ASSERT_IR, NEGATE_IR};
use irremocon::infrared_codes::InfraredCodes;
use irremocon::timing::TIMEOUT_COUNTS;

fn script(parts: &[(Level, usize)]) -> Vec<Level> {
    let mut v = Vec::new();
    for (level, n) in parts {
        for _ in 0..*n {
            v.push(*level);
        }
    }
    v
}

#[test]
fn capture_scripted_reads() {
    let reads = script(&[
        (NEGATE_IR, 3),
        (ASSERT_IR, 5),
        (NEGATE_IR, 4),
        (ASSERT_IR, TIMEOUT_COUNTS as usize + 1),
    ]);
    let (codes, taken) = capture_from_levels(&reads).unwrap();
    // The read that leaves the idle state and each read that changes the
    // level start a new run without being counted in it.
    assert_eq!(codes.to_counts(), &[8, 6, 654]);
    assert_eq!(taken, 3 + 5 + 4 + 1 + 327);
}

#[test]
fn capture_stops_exactly_at_timeout() {
    let reads = script(&[(ASSERT_IR, 1), (ASSERT_IR, 327)]);
    let (codes, taken) = capture_from_levels(&reads).unwrap();
    assert_eq!(codes.to_counts(), &[654]);
    assert_eq!(taken, 328);
    let short = script(&[(ASSERT_IR, 1), (ASSERT_IR, 326)]);
    assert!(capture_from_levels(&short).is_none());
}

#[test]
fn capture_needs_a_mark_to_start() {
    let reads = script(&[(NEGATE_IR, 2000)]);
    assert!(capture_from_levels(&reads).is_none());
    assert!(capture_from_levels(&[]).is_none());
}

#[test]
fn capture_ignores_reads_after_done() {
    let mut reads = script(&[(ASSERT_IR, 2), (NEGATE_IR, 328)]);
    reads.extend(script(&[(ASSERT_IR, 10)]));
    let (codes, taken) = capture_from_levels(&reads).unwrap();
    assert_eq!(codes.to_counts(), &[2, 654]);
    assert_eq!(taken, 330);
}

#[test]
fn on_read_actions() {
    let mut state = Capture::new();
    let mut codes = InfraredCodes::new();
    assert_eq!(state.on_read(Level::High, &mut codes), CaptureAction::WaitTick);
    assert_eq!(state, Capture::WaitForAssert);
    assert_eq!(state.on_read(Level::Low, &mut codes), CaptureAction::ReadAgain);
    assert_eq!(state, Capture::Counting { level: Level::Low, count: 0 });
    assert_eq!(state.on_read(Level::Low, &mut codes), CaptureAction::WaitTick);
    assert_eq!(state, Capture::Counting { level: Level::Low, count: 2 });
    assert_eq!(state.on_read(Level::High, &mut codes), CaptureAction::WaitTick);
    assert_eq!(state, Capture::Counting { level: Level::High, count: 0 });
    assert_eq!(codes.to_counts(), &[2]);
    assert!(!state.is_done());
    let mut state = Capture::Counting { level: Level::High, count: 652 };
    assert_eq!(state.on_read(Level::High, &mut codes), CaptureAction::Finished);
    assert!(state.is_done());
    assert_eq!(codes.to_counts(), &[2, 654]);
}

#[test]
fn level_flip() {
    assert_eq!(Level::Low.flip(), Level::High);
    assert_eq!(Level::High.flip(), Level::Low);
}
