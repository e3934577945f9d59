use f103_stream::arbiter::{ceiling, preempts, raise};
use f103_stream::scheduler::Scheduler;

#[test]
fn ceiling_is_highest_sharer_priority() {
    assert_eq!(ceiling(&[1, 3, 2]), 3);
    assert_eq!(ceiling(&[]), 0);
    assert_eq!(ceiling(&[2]), 2);
}

#[test]
fn holder_runs_at_ceiling_and_excludes_sharers() {
    let c = ceiling(&[1, 2]);
    let eff = raise(1, c);
    assert_eq!(eff, 2);
    assert!(!preempts(eff, 2));
    assert!(preempts(eff, 3));
    assert_eq!(raise(4, c), 4);
}

#[test]
fn pending_higher_priority_work_preempts() {
    let mut s: Scheduler<u8> = Scheduler::new(0);
    let low = s.add_task(1, 2);
    let high = s.add_task(2, 2);
    assert!(!s.should_preempt(1));
    assert!(s.spawn(low, 0).is_ok());
    assert!(!s.should_preempt(1));
    assert!(s.spawn(high, 0).is_ok());
    assert!(s.should_preempt(1));
    assert!(!s.should_preempt(2));
}
