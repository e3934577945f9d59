use vstd::prelude::*;
use crate::scheduler::Scheduler;

verus! {

/// Ticks of the monotonic clock in one second.
pub const MONO_HZ: u64 = 1_000_000;

/// `n` seconds in ticks.
pub fn secs(n: u32) -> (r: u64)
    ensures
        r == n * MONO_HZ,
{
    (n as u64) * MONO_HZ
}

/// `n` milliseconds in ticks.
pub fn millis(n: u32) -> (r: u64)
    ensures
        r == n * (MONO_HZ / 1000),
{
    (n as u64) * (MONO_HZ / 1000)
}

/// Handler of the periodic tick task `t`: schedules its next run one
/// second from now.
pub fn tick(s: &mut Scheduler<()>, t: usize) -> (r: Result<u64, ()>)
    requires
        old(s).wf(),
        t < old(s).task_count(),
        old(s).id_next() < u64::MAX,
    ensures
        final(s).wf(),
        final(s).same_tasks(old(s)),
        final(s).clock() == old(s).clock(),
        old(s).clock() + MONO_HZ <= u64::MAX && old(s).timers().len() < old(s).timer_limit() ==> r
            is Ok && final(s).timers().len() == old(s).timers().len() + 1 && final(s).timers().contains(
            crate::scheduler::ScheduleEntry {
                task: t,
                release: (old(s).clock() + MONO_HZ) as u64,
                id: old(s).id_next(),
                arg: (),
            },
        ),
        old(s).clock() + MONO_HZ > u64::MAX || old(s).timers().len() >= old(s).timer_limit() ==> r
            is Err && final(s).timers() == old(s).timers(),
{
    let r = s.schedule_after(t, secs(1), ());
    proof {
        let e = crate::scheduler::ScheduleEntry {
            task: t,
            release: (old(s).clock() + MONO_HZ) as u64,
            id: old(s).id_next(),
            arg: (),
        };
        if r is Ok {
            let p = choose|p: int|
                0 <= p <= old(s).timers().len() && s.timers() == old(s).timers().insert(p, e) && (
                forall|i: int| 0 <= i < p ==> #[trigger] old(s).timers()[i].release <= e.release)
                    && (forall|i: int|
                    p <= i < old(s).timers().len() ==> #[trigger] old(s).timers()[i].release
                        > e.release);
            assert(s.timers()[p] == e);
        }
    }
    match r {
        Ok(id) => Ok(id),
        Err(_) => Err(()),
    }
}

} // verus!
