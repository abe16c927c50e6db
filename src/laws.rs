use vstd::prelude::*;
use crate::banker::{
    safe, settle, scan, as_ints, fits, release, shaped, count_true, lemma_settle_stuck,
    lemma_scan_counts, lemma_count_bound,
};
use crate::ledger::col_sum;
use crate::process::Process;

verus! {

/// Every unit is accounted for in a well-formed process: for each mutex, the
/// units held by all tasks plus the free units make exactly one; for each
/// semaphore, they make the count it was created with. Every syscall keeps
/// the process well formed, so this holds between any two syscalls.
pub proof fn lemma_units_conserved(p: Process)
    requires
        p.wf(),
    ensures
        forall|r: int|
            0 <= r < p.mutex_list@.len() ==> col_sum(p.m.alloc_s(), r) + #[trigger] p.m.available@[r] == 1,
        forall|r: int|
            0 <= r < p.semaphore_list@.len() ==> col_sum(p.s.alloc_s(), r) + #[trigger] p.s.available@[r]
                == p.s.capacity@[r],
{
    assert forall|r: int| 0 <= r < p.mutex_list@.len() implies col_sum(p.m.alloc_s(), r)
        + #[trigger] p.m.available@[r] == 1 by {
        assert(p.m.capacity@[r] == 1);
    }
}

/// The safety test depends on nothing but the need and allocation matrices
/// and the free units: run twice on the same state, it reaches the same set
/// of finished tasks, the same final work vector, and the same verdict.
pub proof fn lemma_safety_check_deterministic(
    available1: Seq<u64>,
    need1: Seq<Seq<u64>>,
    alloc1: Seq<Seq<u64>>,
    available2: Seq<u64>,
    need2: Seq<Seq<u64>>,
    alloc2: Seq<Seq<u64>>,
)
    requires
        available1 == available2,
        need1 == need2,
        alloc1 == alloc2,
    ensures
        settle(need1, alloc1, as_ints(available1), Seq::new(need1.len(), |t: int| false)) == settle(
            need2,
            alloc2,
            as_ints(available2),
            Seq::new(need2.len(), |t: int| false),
        ),
        safe(available1, need1, alloc1) == safe(available2, need2, alloc2),
{
}

/// When the safety test refuses, the refusal has a witness: some task is left
/// unfinished, and every unfinished task needs more of some resource than the
/// free units plus everything the finished tasks gave back.
pub proof fn lemma_refusal_is_stuck(available: Seq<u64>, need: Seq<Seq<u64>>, alloc: Seq<Seq<u64>>)
    requires
        !safe(available, need, alloc),
    ensures
        ({
            let (w, f) = settle(need, alloc, as_ints(available), Seq::new(need.len(), |t: int| false));
            &&& exists|t: int| 0 <= t < need.len() && !#[trigger] f[t]
            &&& forall|t: int| 0 <= t < need.len() && !f[t] ==> !fits(#[trigger] need[t], w)
        }),
{
    lemma_settle_stuck(need, alloc, as_ints(available), Seq::new(need.len(), |t: int| false));
}

/// Sum of column `r` over the rows whose mark in `f` is set.
pub open spec fn marked_sum(alloc: Seq<Seq<u64>>, f: Seq<bool>, r: int) -> int
    decreases f.len(),
{
    if f.len() == 0 || alloc.len() == 0 {
        0
    } else {
        marked_sum(alloc.drop_last(), f.drop_last(), r) + if f.last() {
            alloc.last()[r] as int
        } else {
            0
        }
    }
}

proof fn lemma_marked_sum_mark(alloc: Seq<Seq<u64>>, f: Seq<bool>, t: int, r: int)
    requires
        alloc.len() == f.len(),
        0 <= t < f.len(),
        !f[t],
    ensures
        marked_sum(alloc, f.update(t, true), r) == marked_sum(alloc, f, r) + alloc[t][r],
    decreases f.len(),
{
    let g = f.update(t, true);
    if t == f.len() - 1 {
        assert(g.drop_last() =~= f.drop_last());
    } else {
        assert(g.drop_last() =~= f.drop_last().update(t, true));
        lemma_marked_sum_mark(alloc.drop_last(), f.drop_last(), t, r);
    }
}

proof fn lemma_marked_sum_bounded(alloc: Seq<Seq<u64>>, f: Seq<bool>, r: int)
    requires
        alloc.len() == f.len(),
    ensures
        0 <= marked_sum(alloc, f, r) <= col_sum(alloc, r),
    decreases f.len(),
{
    if f.len() > 0 {
        lemma_marked_sum_bounded(alloc.drop_last(), f.drop_last(), r);
    }
}

proof fn lemma_marked_sum_room(alloc: Seq<Seq<u64>>, f: Seq<bool>, t: int, r: int)
    requires
        alloc.len() == f.len(),
        0 <= t < f.len(),
        !f[t],
    ensures
        marked_sum(alloc, f, r) + alloc[t][r] <= col_sum(alloc, r),
    decreases f.len(),
{
    lemma_marked_sum_bounded(alloc.drop_last(), f.drop_last(), r);
    if t < f.len() - 1 {
        lemma_marked_sum_room(alloc.drop_last(), f.drop_last(), t, r);
    }
}

/// `work` is the free units plus what the marked tasks gave back, and every
/// marked task asked for no more than its resource's capacity left it.
pub open spec fn scan_state_ok(
    available: Seq<u64>,
    capacity: Seq<u64>,
    need: Seq<Seq<u64>>,
    alloc: Seq<Seq<u64>>,
    work: Seq<int>,
    f: Seq<bool>,
) -> bool {
    &&& work.len() == available.len()
    &&& f.len() == alloc.len()
    &&& forall|r: int| 0 <= r < work.len() ==> #[trigger] work[r] == available[r] + marked_sum(alloc, f, r)
    &&& forall|t: int, r: int|
        0 <= t < f.len() && 0 <= r < available.len() && f[t] ==> #[trigger] need[t][r] + alloc[t][r]
            <= capacity[r]
}

pub open spec fn conserved(available: Seq<u64>, capacity: Seq<u64>, alloc: Seq<Seq<u64>>) -> bool {
    &&& capacity.len() == available.len()
    &&& forall|r: int| 0 <= r < available.len() ==> col_sum(alloc, r) + available[r] == #[trigger] capacity[r]
}

proof fn lemma_scan_keeps(
    available: Seq<u64>,
    capacity: Seq<u64>,
    need: Seq<Seq<u64>>,
    alloc: Seq<Seq<u64>>,
    work: Seq<int>,
    f: Seq<bool>,
    i: nat,
)
    requires
        i <= f.len(),
        shaped(need, f.len(), available.len()),
        shaped(alloc, f.len(), available.len()),
        conserved(available, capacity, alloc),
        scan_state_ok(available, capacity, need, alloc, work, f),
    ensures
        ({
            let (w2, f2, found) = scan(need, alloc, work, f, i);
            scan_state_ok(available, capacity, need, alloc, w2, f2)
        }),
    decreases i,
{
    if i > 0 {
        lemma_scan_keeps(available, capacity, need, alloc, work, f, (i - 1) as nat);
        lemma_scan_counts(need, alloc, work, f, (i - 1) as nat);
        let (w, g, found) = scan(need, alloc, work, f, (i - 1) as nat);
        let t = i - 1;
        if !g[t] && fits(need[t], w) {
            let w2 = release(w, alloc[t]);
            let g2 = g.update(t, true);
            assert forall|r: int| 0 <= r < w2.len() implies #[trigger] w2[r] == available[r]
                + marked_sum(alloc, g2, r) by {
                lemma_marked_sum_mark(alloc, g, t, r);
            }
            assert forall|q: int, r: int|
                0 <= q < g2.len() && 0 <= r < available.len() && g2[q] implies #[trigger] need[q][r]
                + alloc[q][r] <= capacity[r] by {
                if q == t {
                    assert(need[t][r] as int <= w[r]);
                    lemma_marked_sum_room(alloc, g, t, r);
                }
            }
        }
    }
}

proof fn lemma_settle_keeps(
    available: Seq<u64>,
    capacity: Seq<u64>,
    need: Seq<Seq<u64>>,
    alloc: Seq<Seq<u64>>,
    work: Seq<int>,
    f: Seq<bool>,
)
    requires
        shaped(need, f.len(), available.len()),
        shaped(alloc, f.len(), available.len()),
        conserved(available, capacity, alloc),
        scan_state_ok(available, capacity, need, alloc, work, f),
    ensures
        ({
            let (w2, f2) = settle(need, alloc, work, f);
            scan_state_ok(available, capacity, need, alloc, w2, f2)
        }),
    decreases f.len() - count_true(f),
{
    lemma_scan_counts(need, alloc, work, f, f.len());
    lemma_scan_keeps(available, capacity, need, alloc, work, f, f.len());
    let (w2, f2, found) = scan(need, alloc, work, f, f.len());
    if found {
        lemma_count_bound(f2);
        lemma_settle_keeps(available, capacity, need, alloc, w2, f2);
    }
}

/// In a state that the safety test accepts, where every unit is either free
/// or held, no task's need and allocation of a resource together exceed that
/// resource's capacity.
pub proof fn lemma_safe_state_within_capacity(
    available: Seq<u64>,
    capacity: Seq<u64>,
    need: Seq<Seq<u64>>,
    alloc: Seq<Seq<u64>>,
)
    requires
        shaped(need, need.len(), available.len()),
        shaped(alloc, need.len(), available.len()),
        conserved(available, capacity, alloc),
        safe(available, need, alloc),
    ensures
        forall|t: int, r: int|
            0 <= t < need.len() && 0 <= r < available.len() ==> #[trigger] need[t][r] + alloc[t][r]
                <= capacity[r],
{
    let f0 = Seq::new(need.len(), |t: int| false);
    let w0 = as_ints(available);
    assert forall|r: int| 0 <= r < w0.len() implies #[trigger] w0[r] == available[r] + marked_sum(
        alloc,
        f0,
        r,
    ) by {
        lemma_marked_sum_none(alloc, f0, r);
    }
    lemma_settle_keeps(available, capacity, need, alloc, w0, f0);
    let (w, f) = settle(need, alloc, w0, f0);
    assert forall|t: int, r: int| 0 <= t < need.len() && 0 <= r < available.len() implies #[trigger] need[t][r]
        + alloc[t][r] <= capacity[r] by {
        assert(f[t]);
    }
}

proof fn lemma_marked_sum_none(alloc: Seq<Seq<u64>>, f: Seq<bool>, r: int)
    requires
        forall|t: int| 0 <= t < f.len() ==> !#[trigger] f[t],
    ensures
        marked_sum(alloc, f, r) == 0,
    decreases f.len(),
{
    if f.len() > 0 && alloc.len() > 0 {
        lemma_marked_sum_none(alloc.drop_last(), f.drop_last(), r);
    }
}

/// Every task of a well-formed process whose mutex and semaphore states the
/// safety test would accept asks for and holds, together, no more of any
/// resource than it has units: one for a mutex, the creation count for a
/// semaphore.
pub proof fn lemma_process_within_capacity(p: Process)
    requires
        p.wf(),
        safe(p.m.available@, p.m.need_s(), p.m.alloc_s()),
        safe(p.s.available@, p.s.need_s(), p.s.alloc_s()),
    ensures
        forall|t: int, r: int|
            0 <= t < p.n() && 0 <= r < p.mutex_list@.len() ==> #[trigger] p.m.need_s()[t][r]
                + p.m.alloc_s()[t][r] <= 1,
        forall|t: int, r: int|
            0 <= t < p.n() && 0 <= r < p.semaphore_list@.len() ==> #[trigger] p.s.need_s()[t][r]
                + p.s.alloc_s()[t][r] <= p.s.capacity@[r],
{
    lemma_safe_state_within_capacity(p.m.available@, p.m.capacity@, p.m.need_s(), p.m.alloc_s());
    lemma_safe_state_within_capacity(p.s.available@, p.s.capacity@, p.s.need_s(), p.s.alloc_s());
    assert forall|t: int, r: int| 0 <= t < p.n() && 0 <= r < p.mutex_list@.len() implies #[trigger] p.m.need_s()[t][r]
        + p.m.alloc_s()[t][r] <= 1 by {
        assert(p.m.capacity@[r] == 1);
    }
}

} // verus!
