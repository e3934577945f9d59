use vstd::prelude::*;

verus! {

/// A delayed activation: task `task` with argument `arg`, released into
/// the task's queue once the clock reaches `release`.
pub struct ScheduleEntry<A> {
    pub task: usize,
    pub release: u64,
    pub id: u64,
    pub arg: A,
}

struct TaskQueue<A> {
    priority: u8,
    capacity: usize,
    pending: Vec<(u64, A)>,
}

/// A fixed-priority scheduler: each task has a static priority and a
/// bounded FIFO queue of pending activations, each stamped with its
/// arrival number; a timer list holds delayed activations, sorted by
/// release time.
pub struct Scheduler<A> {
    tasks: Vec<TaskQueue<A>>,
    next_stamp: u64,
    timers: Vec<ScheduleEntry<A>>,
    timer_capacity: usize,
    next_id: u64,
    now: u64,
}

/// `new` is `old` with `e` inserted after every entry released no later
/// than it and before every entry released later.
pub open spec fn inserted_by_release<A>(
    old: Seq<ScheduleEntry<A>>,
    new: Seq<ScheduleEntry<A>>,
    e: ScheduleEntry<A>,
) -> bool {
    exists|p: int|
        0 <= p <= old.len() && new == old.insert(p, e) && (forall|i: int|
            0 <= i < p ==> #[trigger] old[i].release <= e.release) && (forall|i: int|
            p <= i < old.len() ==> #[trigger] old[i].release > e.release)
}

/// What became of a delayed activation that fell due.
pub enum Release<A> {
    /// Pending on the named task.
    Queued(usize),
    /// The task's queue was full: the activation is dropped and its
    /// argument handed back.
    Dropped(usize, A),
}

impl<A> Scheduler<A> {
    /// Number of tasks.
    pub closed spec fn task_count(&self) -> nat {
        self.tasks@.len()
    }

    /// Static priority of task `t`.
    pub closed spec fn priority_of(&self, t: int) -> u8 {
        self.tasks@[t].priority
    }

    /// Largest number of pending activations of task `t`.
    pub closed spec fn capacity_of(&self, t: int) -> nat {
        self.tasks@[t].capacity as nat
    }

    /// Pending activations of task `t`, oldest first, each as
    /// (arrival number, argument).
    pub closed spec fn queue(&self, t: int) -> Seq<(u64, A)> {
        self.tasks@[t].pending@
    }

    /// Delayed activations, by release time.
    pub closed spec fn timers(&self) -> Seq<ScheduleEntry<A>> {
        self.timers@
    }

    /// Largest number of delayed activations held at once.
    pub closed spec fn timer_limit(&self) -> nat {
        self.timer_capacity as nat
    }

    /// The arrival number that the next activation gets.
    pub closed spec fn stamp_next(&self) -> u64 {
        self.next_stamp
    }

    /// The handle that the next delayed activation gets.
    pub closed spec fn id_next(&self) -> u64 {
        self.next_id
    }

    /// The current tick of the monotonic clock.
    pub closed spec fn clock(&self) -> u64 {
        self.now
    }

    /// Activation `k` of task `u` may not run before the head of task `t`:
    /// its priority is lower, or equal with a later arrival.
    pub open spec fn runs_before(&self, t: int, u: int, k: int) -> bool {
        self.priority_of(u) < self.priority_of(t) || (self.priority_of(u) == self.priority_of(t)
            && self.queue(t)[0].0 <= self.queue(u)[k].0)
    }

    pub closed spec fn queues_wf(&self) -> bool {
        &&& forall|t: int|
            0 <= t < self.tasks@.len() ==> #[trigger] self.tasks@[t].pending@.len()
                <= self.tasks@[t].capacity
        &&& forall|t: int, i: int|
            0 <= t < self.tasks@.len() && 0 <= i < self.tasks@[t].pending@.len()
                ==> #[trigger] self.tasks@[t].pending@[i].0 < self.next_stamp
        &&& forall|t: int, i: int, j: int|
            0 <= t < self.tasks@.len() && 0 <= i < j < self.tasks@[t].pending@.len()
                ==> #[trigger] self.tasks@[t].pending@[i].0 < #[trigger] self.tasks@[t].pending@[j].0
    }

    pub closed spec fn timers_wf(&self) -> bool {
        &&& self.timers@.len() <= self.timer_capacity
        &&& forall|i: int, j: int|
            0 <= i < j < self.timers@.len() ==> #[trigger] self.timers@[i].release
                <= #[trigger] self.timers@[j].release
        &&& forall|i: int, j: int|
            0 <= i < j < self.timers@.len() ==> #[trigger] self.timers@[i].id
                != #[trigger] self.timers@[j].id
        &&& forall|i: int|
            0 <= i < self.timers@.len() ==> #[trigger] self.timers@[i].id < self.next_id
        &&& forall|i: int|
            0 <= i < self.timers@.len() ==> #[trigger] self.timers@[i].task < self.tasks@.len()
    }

    /// Invariant of the scheduler.
    pub closed spec fn wf(&self) -> bool {
        self.queues_wf() && self.timers_wf()
    }

    /// A scheduler with no tasks, at tick 0, that holds up to
    /// `timer_capacity` delayed activations.
    pub fn new(timer_capacity: usize) -> (r: Scheduler<A>)
        ensures
            r.wf(),
            r.task_count() == 0,
            r.timers() == Seq::<ScheduleEntry<A>>::empty(),
            r.timer_limit() == timer_capacity,
            r.clock() == 0,
            r.stamp_next() == 0,
            r.id_next() == 0,
    {
        Scheduler {
            tasks: Vec::new(),
            next_stamp: 0,
            timers: Vec::new(),
            timer_capacity,
            next_id: 0,
            now: 0,
        }
    }
    /// Adds a task with static priority `priority` whose queue holds up to
    /// `capacity` pending activations; returns its index.
    pub fn add_task(&mut self, priority: u8, capacity: usize) -> (r: usize)
        requires
            old(self).wf(),
            old(self).task_count() < usize::MAX,
        ensures
            final(self).wf(),
            r == old(self).task_count(),
            final(self).task_count() == old(self).task_count() + 1,
            final(self).priority_of(r as int) == priority,
            final(self).capacity_of(r as int) == capacity,
            final(self).queue(r as int) == Seq::<(u64, A)>::empty(),
            forall|u: int|
                0 <= u < old(self).task_count() ==> #[trigger] final(self).priority_of(u) == old(self).priority_of(u),
            forall|u: int|
                0 <= u < old(self).task_count() ==> #[trigger] final(self).capacity_of(u) == old(self).capacity_of(u),
            forall|u: int|
                0 <= u < old(self).task_count() ==> #[trigger] final(self).queue(u) == old(self).queue(u),
            final(self).timers() == old(self).timers(),
            final(self).timer_limit() == old(self).timer_limit(),
            final(self).clock() == old(self).clock(),
            final(self).stamp_next() == old(self).stamp_next(),
            final(self).id_next() == old(self).id_next(),
    {
        let r = self.tasks.len();
        self.tasks.push(TaskQueue { priority, capacity, pending: Vec::new() });
        proof {
            assert forall|u: int| 0 <= u < old(self).tasks@.len() implies self.tasks@[u] == old(self).tasks@[u] by {}
        }
        r
    }

    /// Number of tasks.
    pub fn tasks(&self) -> (r: usize)
        ensures
            r == self.task_count(),
    {
        self.tasks.len()
    }

    /// The current tick.
    pub fn now(&self) -> (r: u64)
        ensures
            r == self.clock(),
    {
        self.now
    }

    /// Whether some pending activation has a priority strictly above
    /// `running`, so that it preempts a handler running at that priority.
    pub fn should_preempt(&self, running: u8) -> (r: bool)
        ensures
            r == exists|u: int|
                0 <= u < self.task_count() && self.queue(u).len() > 0 && #[trigger] self.priority_of(u)
                    > running,
    {
        let mut i: usize = 0;
        while i < self.tasks.len()
            invariant
                i <= self.tasks@.len(),
                forall|u: int|
                    0 <= u < i ==> !(self.queue(u).len() > 0 && #[trigger] self.priority_of(u) > running),
            decreases self.tasks@.len() - i,
        {
            if self.tasks[i].pending.len() > 0 && self.tasks[i].priority > running {
                proof {
                    assert(self.priority_of(i as int) > running);
                }
                return true;
            }
            i = i + 1;
        }
        false
    }

    /// Number of delayed activations waiting.
    pub fn timer_count(&self) -> (r: usize)
        ensures
            r == self.timers().len(),
    {
        self.timers.len()
    }

    /// Number of pending activations of task `t`.
    pub fn pending_count(&self, t: usize) -> (r: usize)
        requires
            t < self.task_count(),
        ensures
            r == self.queue(t as int).len(),
    {
        self.tasks[t].pending.len()
    }

    /// Enqueues an activation of task `t` with argument `arg`. When the
    /// queue is full, nothing changes and `arg` comes back: the call never
    /// waits.
    pub fn spawn(&mut self, t: usize, arg: A) -> (r: Result<(), A>)
        requires
            old(self).wf(),
            t < old(self).task_count(),
            old(self).stamp_next() < u64::MAX,
        ensures
            final(self).wf(),
            final(self).same_shape(old(self)),
            final(self).same_queues_except(old(self), t as int),
            final(self).timers() == old(self).timers(),
            final(self).timer_limit() == old(self).timer_limit(),
            final(self).clock() == old(self).clock(),
            final(self).id_next() == old(self).id_next(),
            old(self).queue(t as int).len() < old(self).capacity_of(t as int) ==> r is Ok && final(self).queue(t as int) == old(self).queue(t as int).push((old(self).stamp_next(), arg))
                && final(self).stamp_next() == old(self).stamp_next() + 1,
            old(self).queue(t as int).len() >= old(self).capacity_of(t as int) ==> r == Err::<
                (),
                A,
            >(arg) && final(self).queue(t as int) == old(self).queue(t as int)
                && final(self).stamp_next() == old(self).stamp_next(),
    {
        if self.tasks[t].pending.len() >= self.tasks[t].capacity {
            return Err(arg);
        }
        let stamp = self.next_stamp;
        let mut q = self.tasks.remove(t);
        q.pending.push((stamp, arg));
        self.tasks.insert(t, q);
        self.next_stamp = stamp + 1;
        proof {
            assert forall|u: int| 0 <= u < old(self).tasks@.len() && u != t implies self.tasks@[u]
                == old(self).tasks@[u] by {
                if u < t {
                } else {
                }
            }
            assert(self.tasks@[t as int].pending@ == old(self).tasks@[t as int].pending@.push(
                (stamp, arg),
            ));
        }
        Ok(())
    }
    /// Takes the next activation to run: among tasks with pending work, one
    /// of the highest priority, and among those the earliest arrival.
    /// Returns the task and its argument, or `None` when nothing is pending.
    pub fn dispatch(&mut self) -> (r: Option<(usize, A)>)
        requires
            old(self).wf(),
        ensures
            final(self).wf(),
            final(self).same_shape(old(self)),
            final(self).timers() == old(self).timers(),
            final(self).timer_limit() == old(self).timer_limit(),
            final(self).clock() == old(self).clock(),
            final(self).stamp_next() == old(self).stamp_next(),
            final(self).id_next() == old(self).id_next(),
            r is None <==> forall|u: int|
                0 <= u < old(self).task_count() ==> #[trigger] old(self).queue(u).len() == 0,
            r is None ==> final(self).same_queues_except(old(self), -1),
            r is Some ==> {
                let e = r->0;
                let t = e.0 as int;
                &&& 0 <= t < old(self).task_count()
                &&& old(self).queue(t).len() > 0
                &&& e.1 == old(self).queue(t)[0].1
                &&& final(self).queue(t) == old(self).queue(t).drop_first()
                &&& final(self).same_queues_except(old(self), t)
                &&& forall|u: int|
                    0 <= u < old(self).task_count() && old(self).queue(u).len() > 0
                        ==> #[trigger] old(self).priority_of(u) <= old(self).priority_of(t)
                &&& forall|u: int, k: int|
                    0 <= u < old(self).task_count() && 0 <= k < old(self).queue(u).len()
                        && old(self).priority_of(u) == old(self).priority_of(t)
                        ==> old(self).queue(t)[0].0 <= #[trigger] old(self).queue(u)[k].0
            },
    {
        let mut best: Option<usize> = None;
        let mut i: usize = 0;
        while i < self.tasks.len()
            invariant
                self.wf(),
                i <= self.tasks@.len(),
                best is None ==> forall|u: int| 0 <= u < i ==> #[trigger] self.queue(u).len() == 0,
                best is Some ==> {
                    let b = best->0 as int;
                    &&& 0 <= b < i
                    &&& self.queue(b).len() > 0
                    &&& forall|u: int, k: int|
                        0 <= u < i && 0 <= k < self.queue(u).len() ==> #[trigger] self.runs_before(b, u, k)
                },
            decreases self.tasks@.len() - i,
        {
            if self.tasks[i].pending.len() > 0 {
                match best {
                    None => {
                        best = Some(i);
                        proof {
                            assert forall|u: int, k: int|
                                0 <= u < i + 1 && 0 <= k < self.queue(u).len() implies #[trigger] self.runs_before(i as int, u, k) by {
                                if u == i && k > 0 {
                                    assert(self.tasks@[u].pending@[0].0 < self.tasks@[u].pending@[k].0);
                                }
                            }
                        }
                    },
                    Some(b) => {
                        let pi = self.tasks[i].priority;
                        let pb = self.tasks[b].priority;
                        if pi > pb || (pi == pb && self.tasks[i].pending[0].0 < self.tasks[b].pending[0].0) {
                            best = Some(i);
                            proof {
                                assert forall|u: int, k: int|
                                    0 <= u < i + 1 && 0 <= k < self.queue(u).len() implies #[trigger] self.runs_before(i as int, u, k) by {
                                    if u == i {
                                        if k > 0 {
                                            assert(self.tasks@[u].pending@[0].0 < self.tasks@[u].pending@[k].0);
                                        }
                                    } else {
                                        assert(self.runs_before(b as int, u, k));
                                    }
                                }
                            }
                        } else {
                            proof {
                                assert forall|u: int, k: int|
                                    0 <= u < i + 1 && 0 <= k < self.queue(u).len() implies #[trigger] self.runs_before(b as int, u, k) by {
                                    if u == i && k > 0 {
                                        assert(self.tasks@[u].pending@[0].0 < self.tasks@[u].pending@[k].0);
                                    }
                                }
                            }
                        }
                    },
                }
            }
            i = i + 1;
        }
        match best {
            None => None,
            Some(b) => {
                let ghost pre = *self;
                proof {
                    assert forall|u: int|
                        0 <= u < pre.task_count() && pre.queue(u).len() > 0 implies #[trigger] pre.priority_of(u)
                            <= pre.priority_of(b as int) by {
                        assert(pre.runs_before(b as int, u, 0));
                    }
                    assert forall|u: int, k: int|
                        0 <= u < pre.task_count() && 0 <= k < pre.queue(u).len() && pre.priority_of(u)
                            == pre.priority_of(b as int) implies pre.queue(b as int)[0].0 <= #[trigger] pre.queue(u)[k].0 by {
                        assert(pre.runs_before(b as int, u, k));
                    }
                }
                let mut q = self.tasks.remove(b);
                let entry = q.pending.remove(0);
                self.tasks.insert(b, q);
                proof {
                    assert forall|u: int| 0 <= u < pre.tasks@.len() && u != b implies self.tasks@[u]
                        == pre.tasks@[u] by {
                        if u < b {
                        } else {
                        }
                    }
                    assert(self.tasks@[b as int].pending@ =~= pre.tasks@[b as int].pending@.drop_first());
                    assert forall|t: int, x: int, y: int|
                        0 <= t < self.tasks@.len() && 0 <= x < y < self.tasks@[t].pending@.len()
                            implies #[trigger] self.tasks@[t].pending@[x].0 < #[trigger] self.tasks@[t].pending@[y].0 by {
                        if t == b {
                            assert(pre.tasks@[t].pending@[x + 1].0 < pre.tasks@[t].pending@[y + 1].0);
                        }
                    }
                    assert forall|t: int, x: int|
                        0 <= t < self.tasks@.len() && 0 <= x < self.tasks@[t].pending@.len()
                            implies #[trigger] self.tasks@[t].pending@[x].0 < self.next_stamp by {
                        if t == b {
                            assert(pre.tasks@[t].pending@[x + 1].0 < pre.next_stamp);
                        }
                    }
                    assert forall|t: int| 0 <= t < self.tasks@.len() implies #[trigger] self.tasks@[t].pending@.len()
                        <= self.tasks@[t].capacity by {
                        if t == b {
                            assert(pre.tasks@[t].pending@.len() <= pre.tasks@[t].capacity);
                        }
                    }
                }
                Some((b, entry.1))
            },
        }
    }
    /// The same tasks with the same priorities and capacities.
    pub open spec fn same_shape(&self, other: &Scheduler<A>) -> bool {
        &&& self.task_count() == other.task_count()
        &&& forall|u: int|
            0 <= u < self.task_count() ==> #[trigger] self.priority_of(u) == other.priority_of(u)
        &&& forall|u: int|
            0 <= u < self.task_count() ==> #[trigger] self.capacity_of(u) == other.capacity_of(u)
    }

    /// Every queue but that of task `t` is as in `other`.
    pub open spec fn same_queues_except(&self, other: &Scheduler<A>, t: int) -> bool {
        forall|u: int|
            0 <= u < other.task_count() && u != t ==> #[trigger] self.queue(u) == other.queue(u)
    }

    /// The same tasks with the same priorities, capacities and queues.
    pub open spec fn same_tasks(&self, other: &Scheduler<A>) -> bool {
        self.same_shape(other) && self.same_queues_except(other, -1)
    }

    /// Schedules an activation of task `t` with argument `arg` for tick
    /// `at`. Returns its handle, or hands `arg` back when the timer list is
    /// full.
    pub fn schedule_at(&mut self, t: usize, at: u64, arg: A) -> (r: Result<u64, A>)
        requires
            old(self).wf(),
            t < old(self).task_count(),
            old(self).id_next() < u64::MAX,
        ensures
            final(self).wf(),
            final(self).same_tasks(old(self)),
            final(self).timer_limit() == old(self).timer_limit(),
            final(self).clock() == old(self).clock(),
            final(self).stamp_next() == old(self).stamp_next(),
            old(self).timers().len() < old(self).timer_limit() ==> r == Ok::<u64, A>(old(self).id_next())
                && final(self).id_next() == old(self).id_next() + 1 && inserted_by_release(
                old(self).timers(),
                final(self).timers(),
                ScheduleEntry { task: t, release: at, id: old(self).id_next(), arg },
            ),
            old(self).timers().len() >= old(self).timer_limit() ==> r == Err::<u64, A>(arg)
                && final(self).id_next() == old(self).id_next() && final(self).timers() == old(self).timers(),
    {
        if self.timers.len() >= self.timer_capacity {
            return Err(arg);
        }
        let mut p: usize = 0;
        while p < self.timers.len() && self.timers[p].release <= at
            invariant
                p <= self.timers@.len(),
                forall|i: int| 0 <= i < p ==> #[trigger] self.timers@[i].release <= at,
            decreases self.timers@.len() - p,
        {
            p = p + 1;
        }
        let id = self.next_id;
        let ghost pre = self.timers@;
        let ghost e = ScheduleEntry { task: t, release: at, id, arg };
        self.timers.insert(p, ScheduleEntry { task: t, release: at, id, arg });
        self.next_id = id + 1;
        proof {
            assert(self.timers@ == pre.insert(p as int, e));
            assert forall|i: int| p <= i < pre.len() implies #[trigger] pre[i].release > at by {
                if pre[p as int].release <= at {
                } else {
                    if i > p {
                        assert(pre[p as int].release <= pre[i].release);
                    }
                }
            }
            assert(inserted_by_release(pre, self.timers@, e));
            assert forall|i: int, j: int|
                0 <= i < j < self.timers@.len() implies #[trigger] self.timers@[i].release
                    <= #[trigger] self.timers@[j].release by {
                if j < p {
                    assert(pre[i].release <= pre[j].release);
                } else if j == p {
                } else if i < p {
                    assert(pre[j - 1].release > at);
                } else if i == p {
                    assert(pre[j - 1].release > at);
                } else {
                    assert(pre[i - 1].release <= pre[j - 1].release);
                }
            }
            assert forall|i: int, j: int|
                0 <= i < j < self.timers@.len() implies #[trigger] self.timers@[i].id
                    != #[trigger] self.timers@[j].id by {
                if j < p {
                    assert(pre[i].id != pre[j].id);
                } else if j == p {
                    assert(pre[i].id < id);
                } else if i < p {
                    assert(pre[i].id != pre[j - 1].id);
                } else if i == p {
                    assert(pre[j - 1].id < id);
                } else {
                    assert(pre[i - 1].id != pre[j - 1].id);
                }
            }
            assert forall|i: int| 0 <= i < self.timers@.len() implies #[trigger] self.timers@[i].id
                < self.next_id && self.timers@[i].task < self.tasks@.len() by {
                if i < p {
                    assert(pre[i].id < id);
                } else if i > p {
                    assert(pre[i - 1].id < id);
                }
            }
        }
        Ok(id)
    }

    /// Schedules an activation of task `t` with argument `arg` for `delay`
    /// ticks from now. Hands `arg` back when the release tick would pass the
    /// clock's range or the timer list is full.
    pub fn schedule_after(&mut self, t: usize, delay: u64, arg: A) -> (r: Result<u64, A>)
        requires
            old(self).wf(),
            t < old(self).task_count(),
            old(self).id_next() < u64::MAX,
        ensures
            final(self).wf(),
            final(self).same_tasks(old(self)),
            final(self).timer_limit() == old(self).timer_limit(),
            final(self).clock() == old(self).clock(),
            final(self).stamp_next() == old(self).stamp_next(),
            old(self).clock() + delay <= u64::MAX && old(self).timers().len() < old(self).timer_limit()
                ==> r == Ok::<u64, A>(old(self).id_next()) && final(self).id_next() == old(self).id_next() + 1
                && inserted_by_release(
                old(self).timers(),
                final(self).timers(),
                ScheduleEntry {
                    task: t,
                    release: (old(self).clock() + delay) as u64,
                    id: old(self).id_next(),
                    arg,
                },
            ),
            old(self).clock() + delay > u64::MAX || old(self).timers().len() >= old(self).timer_limit()
                ==> r == Err::<u64, A>(arg) && final(self).id_next() == old(self).id_next() && final(self).timers()
                == old(self).timers(),
    {
        if delay > u64::MAX - self.now {
            return Err(arg);
        }
        let at = self.now + delay;
        self.schedule_at(t, at, arg)
    }

    /// Withdraws the delayed activation with handle `id` before it fires and
    /// hands its argument back; `None` when no such activation waits.
    pub fn cancel(&mut self, id: u64) -> (r: Option<A>)
        requires
            old(self).wf(),
        ensures
            final(self).wf(),
            final(self).same_tasks(old(self)),
            final(self).timer_limit() == old(self).timer_limit(),
            final(self).clock() == old(self).clock(),
            final(self).stamp_next() == old(self).stamp_next(),
            final(self).id_next() == old(self).id_next(),
            r is None <==> forall|i: int|
                0 <= i < old(self).timers().len() ==> #[trigger] old(self).timers()[i].id != id,
            r is None ==> final(self).timers() == old(self).timers(),
            r is Some ==> exists|i: int|
                0 <= i < old(self).timers().len() && #[trigger] old(self).timers()[i].id == id && r->0
                    == old(self).timers()[i].arg && final(self).timers() == old(self).timers().remove(i),
    {
        let mut i: usize = 0;
        while i < self.timers.len()
            invariant
                *self == *old(self),
                self.wf(),
                i <= self.timers@.len(),
                forall|j: int| 0 <= j < i ==> #[trigger] self.timers@[j].id != id,
            decreases self.timers@.len() - i,
        {
            if self.timers[i].id == id {
                let ghost pre = self.timers@;
                let e = self.timers.remove(i);
                proof {
                    assert(self.timers@ == pre.remove(i as int));
                    assert forall|x: int, y: int|
                        0 <= x < y < self.timers@.len() implies #[trigger] self.timers@[x].release
                            <= #[trigger] self.timers@[y].release by {
                        let x0 = if x < i { x } else { x + 1 };
                        let y0 = if y < i { y } else { y + 1 };
                        assert(pre[x0].release <= pre[y0].release);
                    }
                    assert forall|x: int, y: int|
                        0 <= x < y < self.timers@.len() implies #[trigger] self.timers@[x].id
                            != #[trigger] self.timers@[y].id by {
                        let x0 = if x < i { x } else { x + 1 };
                        let y0 = if y < i { y } else { y + 1 };
                        assert(pre[x0].id != pre[y0].id);
                    }
                    assert forall|x: int| 0 <= x < self.timers@.len() implies #[trigger] self.timers@[x].id
                        < self.next_id && self.timers@[x].task < self.tasks@.len() by {
                        let x0 = if x < i { x } else { x + 1 };
                        assert(pre[x0].id < self.next_id);
                    }
                }
                proof {
                    assert(e == pre[i as int]);
                    assert(old(self).timers()[i as int].id == id);
                }
                return Some(e.arg);
            }
            i = i + 1;
        }
        None
    }

    /// Moves the clock forward to tick `t`.
    pub fn advance_to(&mut self, t: u64)
        requires
            old(self).wf(),
            old(self).clock() <= t,
        ensures
            final(self).wf(),
            final(self).same_tasks(old(self)),
            final(self).timers() == old(self).timers(),
            final(self).timer_limit() == old(self).timer_limit(),
            final(self).clock() == t,
            final(self).stamp_next() == old(self).stamp_next(),
            final(self).id_next() == old(self).id_next(),
    {
        self.now = t;
    }

    /// Releases the earliest delayed activation if it is due at the current
    /// tick: it is enqueued on its task, or dropped when that queue is full.
    /// `None` when no activation is due.
    pub fn release_next(&mut self) -> (r: Option<Release<A>>)
        requires
            old(self).wf(),
            old(self).stamp_next() < u64::MAX,
        ensures
            final(self).wf(),
            final(self).task_count() == old(self).task_count(),
            final(self).timer_limit() == old(self).timer_limit(),
            final(self).clock() == old(self).clock(),
            final(self).id_next() == old(self).id_next(),
            r is None <==> old(self).timers().len() == 0 || old(self).timers()[0].release > old(self).clock(),
            r is None ==> final(self).same_tasks(old(self)) && final(self).timers() == old(self).timers()
                && final(self).stamp_next() == old(self).stamp_next(),
            r is Some ==> {
                let e = old(self).timers()[0];
                let t = e.task as int;
                &&& final(self).timers() == old(self).timers().drop_first()
                &&& 0 <= t < old(self).task_count()
                &&& final(self).same_shape(old(self))
                &&& final(self).same_queues_except(old(self), t)
                &&& old(self).queue(t).len() < old(self).capacity_of(t) ==> r == Some(Release::<A>::Queued(e.task))
                    && final(self).queue(t) == old(self).queue(t).push((old(self).stamp_next(), e.arg))
                    && final(self).stamp_next() == old(self).stamp_next() + 1
                &&& old(self).queue(t).len() >= old(self).capacity_of(t) ==> r == Some(Release::<A>::Dropped(e.task, e.arg))
                    && final(self).queue(t) == old(self).queue(t)
                    && final(self).stamp_next() == old(self).stamp_next()
            },
    {
        if self.timers.len() == 0 || self.timers[0].release > self.now {
            return None;
        }
        let ghost pre = self.timers@;
        let e = self.timers.remove(0);
        proof {
            assert(self.timers@ == pre.drop_first());
            assert forall|x: int, y: int|
                0 <= x < y < self.timers@.len() implies #[trigger] self.timers@[x].release
                    <= #[trigger] self.timers@[y].release by {
                assert(pre[x + 1].release <= pre[y + 1].release);
            }
            assert forall|x: int, y: int|
                0 <= x < y < self.timers@.len() implies #[trigger] self.timers@[x].id
                    != #[trigger] self.timers@[y].id by {
                assert(pre[x + 1].id != pre[y + 1].id);
            }
            assert forall|x: int| 0 <= x < self.timers@.len() implies #[trigger] self.timers@[x].id
                < self.next_id && self.timers@[x].task < self.tasks@.len() by {
                assert(pre[x + 1].id < self.next_id);
            }
            assert(pre[0].task < self.tasks@.len());
        }
        let task = e.task;
        match self.spawn(task, e.arg) {
            Ok(()) => Some(Release::Queued(task)),
            Err(a) => Some(Release::Dropped(task, a)),
        }
    }
}

/// No task ever holds more pending activations than its capacity: an
/// enqueue on a full queue is refused, so no more than `capacity`
/// accumulated activations can wait to be dispatched.
pub proof fn lemma_queue_bounded<A>(s: &Scheduler<A>, t: int)
    requires
        s.wf(),
        0 <= t < s.task_count(),
    ensures
        s.queue(t).len() <= s.capacity_of(t),
{
    assert(s.tasks@[t].pending@.len() <= s.tasks@[t].capacity);
}

} // verus!
