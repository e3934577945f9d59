use f103_stream::mono::{millis, secs, tick, MONO_HZ};
use f103_stream::scheduler::{Release, Scheduler};

#[test]
fn dispatch_by_priority_then_arrival() {
    let mut s: Scheduler<u32> = Scheduler::new(4);
    let low = s.add_task(1, 4);
    let high = s.add_task(3, 4);
    let low2 = s.add_task(1, 4);
    assert_eq!(s.tasks(), 3);
    assert!(s.spawn(low, 10).is_ok());
    assert!(s.spawn(low2, 20).is_ok());
    assert!(s.spawn(high, 30).is_ok());
    assert!(s.spawn(low, 11).is_ok());
    assert!(s.spawn(high, 31).is_ok());
    assert_eq!(s.dispatch(), Some((high, 30)));
    assert_eq!(s.dispatch(), Some((high, 31)));
    assert_eq!(s.dispatch(), Some((low, 10)));
    assert_eq!(s.dispatch(), Some((low2, 20)));
    assert_eq!(s.dispatch(), Some((low, 11)));
    assert_eq!(s.dispatch(), None);
}

#[test]
fn spawn_on_full_queue_fails_without_blocking() {
    let mut s: Scheduler<u8> = Scheduler::new(0);
    let t = s.add_task(1, 2);
    assert_eq!(s.spawn(t, 1), Ok(()));
    assert_eq!(s.spawn(t, 2), Ok(()));
    assert_eq!(s.spawn(t, 3), Err(3));
    assert_eq!(s.pending_count(t), 2);
    assert_eq!(s.dispatch(), Some((t, 1)));
    assert_eq!(s.dispatch(), Some((t, 2)));
    assert_eq!(s.dispatch(), None);
    assert_eq!(s.spawn(t, 4), Ok(()));
}

#[test]
fn delayed_activations_release_in_time_order() {
    let mut s: Scheduler<u8> = Scheduler::new(3);
    let t = s.add_task(2, 4);
    let a = s.schedule_at(t, 50, 1).ok().unwrap();
    let _b = s.schedule_at(t, 20, 2).ok().unwrap();
    let _c = s.schedule_after(t, 20, 3).ok().unwrap();
    assert_eq!(s.schedule_at(t, 5, 9), Err(9));
    assert_eq!(s.cancel(a), Some(1));
    assert_eq!(s.cancel(a), None);
    assert!(s.release_next().is_none());
    s.advance_to(20);
    assert!(matches!(s.release_next(), Some(Release::Queued(x)) if x == t));
    assert!(matches!(s.release_next(), Some(Release::Queued(x)) if x == t));
    assert!(s.release_next().is_none());
    assert_eq!(s.dispatch(), Some((t, 2)));
    assert_eq!(s.dispatch(), Some((t, 3)));
    assert_eq!(s.timer_count(), 0);
}

#[test]
fn due_activation_on_full_queue_is_dropped() {
    let mut s: Scheduler<u8> = Scheduler::new(2);
    let t = s.add_task(1, 1);
    assert!(s.spawn(t, 1).is_ok());
    assert!(s.schedule_at(t, 0, 2).is_ok());
    assert!(matches!(s.release_next(), Some(Release::Dropped(x, 2)) if x == t));
}

#[test]
fn schedule_after_past_clock_range_fails() {
    let mut s: Scheduler<u8> = Scheduler::new(2);
    let t = s.add_task(1, 1);
    s.advance_to(u64::MAX - 1);
    assert_eq!(s.schedule_after(t, 2, 7), Err(7));
    assert!(s.schedule_after(t, 1, 8).is_ok());
}

#[test]
fn tick_fires_every_second() {
    let mut s: Scheduler<()> = Scheduler::new(1);
    let t = s.add_task(1, 1);
    assert!(s.spawn(t, ()).is_ok());
    let mut fired: Vec<u64> = Vec::new();
    let step = millis(250);
    while s.now() <= secs(3) {
        while let Some(Release::Queued(_)) = s.release_next() {}
        while let Some((task, ())) = s.dispatch() {
            assert_eq!(task, t);
            fired.push(s.now());
            assert!(tick(&mut s, t).is_ok());
        }
        let next = s.now() + step;
        s.advance_to(next);
    }
    assert_eq!(fired, vec![0, MONO_HZ, 2 * MONO_HZ, 3 * MONO_HZ]);
}

#[test]
fn tick_units() {
    assert_eq!(secs(2), 2_000_000);
    assert_eq!(millis(3), 3_000);
}
