use vstd::prelude::*;

verus! {

/// The largest of the priorities `p`, or 0 when there are none.
pub open spec fn max_priority(p: Seq<u8>) -> u8
    decreases p.len(),
{
    if p.len() == 0 {
        0
    } else {
        let rest = max_priority(p.drop_last());
        if p.last() > rest {
            p.last()
        } else {
            rest
        }
    }
}

proof fn lemma_max_priority_bounds(p: Seq<u8>)
    ensures
        forall|i: int| 0 <= i < p.len() ==> #[trigger] p[i] <= max_priority(p),
        p.len() > 0 ==> exists|i: int| 0 <= i < p.len() && #[trigger] p[i] == max_priority(p),
    decreases p.len(),
{
    if p.len() > 0 {
        lemma_max_priority_bounds(p.drop_last());
        assert forall|i: int| 0 <= i < p.len() implies #[trigger] p[i] <= max_priority(p) by {
            if i < p.len() - 1 {
                assert(p[i] == p.drop_last()[i]);
            }
        }
        if p.last() <= max_priority(p.drop_last()) && p.len() > 1 {
            let j = choose|j: int|
                0 <= j < p.drop_last().len() && #[trigger] p.drop_last()[j] == max_priority(
                    p.drop_last(),
                );
            assert(p[j] == max_priority(p));
        } else {
            assert(p[p.len() - 1] == max_priority(p));
        }
    }
}

/// The ceiling of a resource: the highest priority of the tasks that share
/// it (0 when none does).
pub fn ceiling(sharers: &[u8]) -> (r: u8)
    ensures
        r == max_priority(sharers@),
        forall|i: int| 0 <= i < sharers@.len() ==> #[trigger] sharers@[i] <= r,
        sharers@.len() > 0 ==> exists|i: int| 0 <= i < sharers@.len() && #[trigger] sharers@[i] == r,
{
    let mut m: u8 = 0;
    let mut i: usize = 0;
    while i < sharers.len()
        invariant
            i <= sharers@.len(),
            m == max_priority(sharers@.subrange(0, i as int)),
        decreases sharers@.len() - i,
    {
        proof {
            assert(sharers@.subrange(0, i + 1).drop_last() =~= sharers@.subrange(0, i as int));
        }
        if sharers[i] > m {
            m = sharers[i];
        }
        i = i + 1;
    }
    proof {
        assert(sharers@.subrange(0, i as int) =~= sharers@);
        lemma_max_priority_bounds(sharers@);
    }
    m
}

/// The effective priority of a context at priority `current` while it
/// holds a resource with ceiling `ceiling`.
pub fn raise(current: u8, ceiling: u8) -> (r: u8)
    ensures
        r == (if current >= ceiling {
            current
        } else {
            ceiling
        }),
{
    if current >= ceiling {
        current
    } else {
        ceiling
    }
}

/// Whether work at priority `arriving` preempts a context running at
/// effective priority `effective`: only strictly higher priority does.
pub fn preempts(effective: u8, arriving: u8) -> (r: bool)
    ensures
        r == (arriving > effective),
{
    arriving > effective
}

/// A context that holds a resource runs at least at the resource's
/// ceiling, so no other task that shares the resource can preempt it:
/// two sharers never access the resource at once, and none waits on a
/// holder of lower priority.
pub proof fn lemma_holder_not_preempted_by_sharer(sharers: Seq<u8>, current: u8, i: int)
    requires
        0 <= i < sharers.len(),
    ensures
        !(sharers[i] > (if current >= max_priority(sharers) {
            current
        } else {
            max_priority(sharers)
        })),
{
    lemma_max_priority_bounds(sharers);
}

} // verus!
