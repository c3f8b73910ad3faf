use rlhcbfix::controller::core_for_slot;
use rlhcbfix::{Controller, PollOutcome};

const A: u32 = 100;
const B: u32 = 200;
const C: u32 = 300;
const D: u32 = 400;

fn commits(c: &mut Controller, ticks: std::ops::RangeInclusive<u64>, top: [u32; 3]) -> Vec<u64> {
    let mut at = Vec::new();
    for t in ticks {
        if c.observe(t, top).commit {
            at.push(t);
        }
    }
    at
}

#[test]
fn commit_after_full_settling_period() {
    let mut c = Controller::new(10, 0);
    let first = c.observe(0, [A, B, C]);
    assert!(first.changed);
    assert!(!first.commit);
    assert_eq!(commits(&mut c, 1..=9, [C, A, B]), Vec::<u64>::new());
    let o = c.observe(10, [B, C, A]);
    assert!(o.commit);
    assert_eq!(c.pinned(), Some([A, B, C]));
    let plan = c.assignment().unwrap();
    assert_eq!(plan, [(A, 1), (B, 3), (C, 5)]);
}

#[test]
fn change_midway_restarts_settling() {
    let mut c = Controller::new(10, 0);
    assert_eq!(commits(&mut c, 0..=4, [A, B, C]), Vec::<u64>::new());
    let o = c.observe(5, [A, B, D]);
    assert!(o.changed && !o.reasserted && !o.commit);
    assert_eq!(commits(&mut c, 6..=14, [D, A, B]), Vec::<u64>::new());
    assert!(c.observe(15, [A, B, D]).commit);
    assert_eq!(c.pinned(), Some([A, B, D]));
}

#[test]
fn commits_once_while_set_holds() {
    let mut c = Controller::new(10, 0);
    assert_eq!(commits(&mut c, 0..=40, [A, B, C]), vec![10]);
    assert!(c.assignment().is_some());
}

#[test]
fn abandoned_set_is_never_committed() {
    let mut c = Controller::new(10, 0);
    assert_eq!(commits(&mut c, 0..=9, [A, B, C]), Vec::<u64>::new());
    assert_eq!(commits(&mut c, 10..=18, [A, B, D]), Vec::<u64>::new());
    assert_eq!(c.pinned(), None);
    assert!(c.assignment().is_none());
}

#[test]
fn pinned_set_returning_is_stable_at_once() {
    let mut c = Controller::new(10, 0);
    assert_eq!(commits(&mut c, 0..=10, [A, B, C]), vec![10]);
    let away = c.observe(11, [A, B, D]);
    assert!(away.changed && !away.reasserted);
    assert!(c.assignment().is_none());
    let back = c.observe(12, [C, B, A]);
    assert_eq!(
        back,
        PollOutcome { changed: true, reasserted: true, settling_soon: false, commit: false }
    );
    assert!(c.assignment().is_some());
    assert_eq!(commits(&mut c, 13..=30, [A, B, C]), Vec::<u64>::new());
}

#[test]
fn settling_soon_after_eight_tenths_once() {
    let mut c = Controller::new(10, 0);
    c.observe(0, [A, B, C]);
    let mut notices = Vec::new();
    for t in 1..=12u64 {
        if c.observe(t, [A, B, C]).settling_soon {
            notices.push(t);
        }
    }
    assert_eq!(notices, vec![9]);
}

#[test]
fn settling_soon_again_after_a_change() {
    let mut c = Controller::new(10, 0);
    c.observe(0, [A, B, C]);
    assert!(!c.observe(8, [A, B, C]).settling_soon);
    assert!(c.observe(9, [A, B, C]).settling_soon);
    assert!(!c.observe(9, [A, B, C]).settling_soon);
    c.observe(9, [A, B, D]);
    assert!(!c.observe(17, [A, B, D]).settling_soon);
    assert!(c.observe(18, [A, B, D]).settling_soon);
}

#[test]
fn settling_soon_gate_is_exact() {
    let mut c = Controller::new(20, 0);
    c.observe(0, [A, B, C]);
    assert!(!c.observe(16, [A, B, C]).settling_soon);
    assert!(c.observe(17, [A, B, C]).settling_soon);
}

#[test]
fn settling_soon_and_commit_in_one_poll() {
    let mut c = Controller::new(10, 0);
    c.observe(0, [A, B, C]);
    let o = c.observe(10, [A, B, C]);
    assert!(o.settling_soon && o.commit);
}

#[test]
fn drift_is_corrected_and_correct_cores_are_left_alone() {
    let mut c = Controller::new(3, 0);
    assert!(!c.needs_correction([0, 0, 0]));
    commits(&mut c, 0..=3, [A, B, C]);
    assert!(!c.needs_correction([1, 3, 5]));
    assert!(c.needs_correction([1, 0, 5]));
    assert!(c.needs_correction([5, 3, 1]));
    assert!(!c.needs_correction([1, 3, 5]));
}

#[test]
fn cores_are_distinct_odd_processors() {
    assert_eq!([core_for_slot(0), core_for_slot(1), core_for_slot(2)], [1, 3, 5]);
}

#[test]
fn canonical_order_is_ascending() {
    assert_eq!(rlhcbfix::controller::canonical_three([9, 2, 5]), [2, 5, 9]);
    assert_eq!(rlhcbfix::controller::canonical_three([1, 7, 3]), [1, 3, 7]);
}
