use weiawaga::timer::{TimeControl, Timer};

#[test]
fn start_decision_follows_flags_then_limit() {
    // Once stopped, never; while pondering, always.
    assert!(!Timer::start_decision(true, true, TimeControl::Infinite, 5, 0, 0, 0));
    assert!(Timer::start_decision(false, true, TimeControl::FixedDepth(3), 5, 0, 0, 0));
    // A fixed depth allows its depths only; the first depth always starts.
    assert!(Timer::start_decision(false, false, TimeControl::FixedDepth(3), 3, 0, 0, 0));
    assert!(!Timer::start_decision(false, false, TimeControl::FixedDepth(3), 4, 0, 0, 0));
    assert!(Timer::start_decision(false, false, TimeControl::FixedDepth(0), 1, 0, 0, 0));
    // A clock game starts a depth while the time spent and the overhead fit the budget.
    let clock = TimeControl::Variable { wtime: 1000, btime: 1000, winc: None, binc: None, moves_to_go: None };
    assert!(Timer::start_decision(false, false, clock, 4, 60, 40, 100));
    assert!(!Timer::start_decision(false, false, clock, 4, 61, 40, 100));
}

#[test]
fn stop_decision_follows_flags_then_limit() {
    assert!(Timer::stop_decision(true, true, TimeControl::Infinite, 0, 0, 0, 0));
    assert!(!Timer::stop_decision(false, true, TimeControl::FixedNodes(100), 0, 0, 0, 500));
    assert!(Timer::stop_decision(false, false, TimeControl::FixedNodes(100), 0, 0, 0, 100));
    assert!(!Timer::stop_decision(false, false, TimeControl::FixedNodes(100), 0, 0, 0, 99));
    assert!(!Timer::stop_decision(false, false, TimeControl::FixedDepth(3), 10_000_000_000, 0, 0, 0));
    // Five milliseconds: stop when the time spent and the overhead reach them.
    assert!(Timer::stop_decision(false, false, TimeControl::FixedDuration(5), 4_000_000, 1_000_000, 0, 0));
    assert!(!Timer::stop_decision(false, false, TimeControl::FixedDuration(5), 3_999_999, 1_000_000, 0, 0));
}
