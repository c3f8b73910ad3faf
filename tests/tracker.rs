use rlhcbfix::win;
use rlhcbfix::{is_rl_process_name, Error, MonitoredProcess, MonitoredThread, ThreadSample};

fn s(id: u32, cycles: u64) -> ThreadSample {
    ThreadSample { id, cycles: Some(cycles) }
}

#[test]
fn first_poll_has_no_activity_and_keeps_enumeration_order() {
    let p = MonitoredProcess::new(true, &vec![s(7, 100), s(3, 50), s(9, 10)]).unwrap();
    assert_eq!(p.thread_ids_by_activity(), &[7, 3, 9]);
    assert!(p.threads().iter().all(|t| t.delta() == 0));
}

#[test]
fn ranking_is_by_descending_delta_and_stable_on_ties() {
    let mut p = MonitoredProcess::new(true, &vec![s(1, 0), s(2, 0), s(3, 0), s(4, 0)]).unwrap();
    p.update(true, &vec![s(1, 5), s(2, 20), s(3, 5), s(4, 20)]).unwrap();
    assert_eq!(p.thread_ids_by_activity(), &[2, 4, 1, 3]);
    assert_eq!(p.top_three(), Some([2, 4, 1]));
    assert_eq!(p.top_n(2), Some(vec![2, 4]));
    assert_eq!(p.top_n(5), None);
}

#[test]
fn delta_is_difference_of_readings() {
    let mut p = MonitoredProcess::new(true, &vec![s(1, 1000)]).unwrap();
    p.update(true, &vec![s(1, 1750)]).unwrap();
    assert_eq!(p.thread(1), Some(MonitoredThread { id: 1, cycles: 1750, delta: 750 }));
}

#[test]
fn counter_reset_counts_as_no_activity() {
    let mut t = MonitoredThread::new(4, 500);
    assert_eq!(t.update(200), 0);
    assert_eq!(t.cycles(), 200);
    assert_eq!(t.update(260), 60);
    assert_eq!(t.delta(), 60);
    assert_eq!(t.id(), 4);
}

#[test]
fn dead_and_unreadable_threads_are_dropped() {
    let mut p = MonitoredProcess::new(true, &vec![s(1, 0), s(2, 0), s(3, 0)]).unwrap();
    p.update(true, &vec![s(1, 10), ThreadSample { id: 3, cycles: None }, s(5, 99)]).unwrap();
    assert_eq!(p.thread_ids_by_activity(), &[1, 5]);
    assert_eq!(p.thread(2), None);
    assert_eq!(p.thread(3), None);
    assert_eq!(p.thread(5), Some(MonitoredThread { id: 5, cycles: 99, delta: 0 }));
}

#[test]
fn exited_process_is_reported() {
    assert_eq!(MonitoredProcess::new(false, &vec![s(1, 0)]).err(), Some(Error::NoProcess));
    let mut p = MonitoredProcess::new(true, &vec![s(1, 0)]).unwrap();
    assert_eq!(p.update(false, &vec![s(1, 5)]), Err(Error::NoProcess));
    assert!(p.threads().is_empty());
}

#[test]
fn attaching_needs_a_readable_thread() {
    assert_eq!(MonitoredProcess::new(true, &vec![]).err(), Some(Error::NoProcess));
    let unreadable = vec![ThreadSample { id: 1, cycles: None }, ThreadSample { id: 2, cycles: None }];
    assert_eq!(MonitoredProcess::new(true, &unreadable).err(), Some(Error::NoProcess));
    let one = vec![ThreadSample { id: 1, cycles: None }, s(2, 40)];
    assert_eq!(MonitoredProcess::new(true, &one).unwrap().thread_ids_by_activity(), &[2]);
}

#[test]
fn zero_threads_is_not_exit() {
    let mut p = MonitoredProcess::new(true, &vec![s(1, 0), s(2, 0), s(3, 0)]).unwrap();
    assert_eq!(p.update(true, &vec![]), Ok(()));
    assert_eq!(p.top_three(), None);
    p.update(true, &vec![s(1, 4), s(2, 8), s(3, 6)]).unwrap();
    assert_eq!(p.top_three(), Some([1, 2, 3]));
    p.update(true, &vec![s(1, 5), s(2, 18), s(3, 9)]).unwrap();
    assert_eq!(p.top_three(), Some([2, 3, 1]));
}

#[test]
fn retryable_errors() {
    assert!(Error::NoProcess.is_retryable());
    assert!(Error::from(win::Error::new(31)).is_retryable());
    assert!(!Error::Windows(win::Error::new(5)).is_retryable());
    assert_eq!(Error::from(win::Error::new(5)), Error::Windows(win::Error::new(5)));
}

#[test]
fn os_error_description() {
    assert_eq!(win::Error::new(31).code(), 31);
    assert!(win::Error::new(31).description().unwrap().contains("drivers"));
    assert_eq!(win::Error::new(2).description(), None);
}

#[test]
fn target_process_name() {
    assert!(is_rl_process_name("RocketLeague.exe"));
    assert!(!is_rl_process_name("rocketleague.exe"));
    assert!(!is_rl_process_name("RocketLeague.exe "));
}
