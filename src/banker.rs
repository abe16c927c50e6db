use vstd::prelude::*;

verus! {

/// The rows of a need or allocation matrix, one per task, as sequences.
pub open spec fn table(m: Seq<Vec<u64>>) -> Seq<Seq<u64>> {
    m.map_values(|v: Vec<u64>| v@)
}

/// `m` has `n` rows of `k` entries each.
pub open spec fn shaped(m: Seq<Seq<u64>>, n: nat, k: nat) -> bool {
    &&& m.len() == n
    &&& forall|t: int| 0 <= t < n ==> (#[trigger] m[t]).len() == k
}

pub open spec fn as_ints(v: Seq<u64>) -> Seq<int> {
    Seq::new(v.len(), |r: int| v[r] as int)
}

/// Every component of a task's remaining need is covered by `work`.
pub open spec fn fits(need_row: Seq<u64>, work: Seq<int>) -> bool {
    forall|r: int| 0 <= r < work.len() ==> (#[trigger] need_row[r]) as int <= work[r]
}

/// `work` after a finishing task gives back what it holds.
pub open spec fn release(work: Seq<int>, alloc_row: Seq<u64>) -> Seq<int> {
    Seq::new(work.len(), |r: int| work[r] + alloc_row[r] as int)
}

/// One scan over the first `i` tasks, in ascending order, starting from `work`
/// and `fin`: each unfinished task whose need fits is marked finished and
/// releases its allocation. Returns the new work, the new marks, and whether
/// any task was finished during the scan.
pub open spec fn scan(
    need: Seq<Seq<u64>>,
    alloc: Seq<Seq<u64>>,
    work: Seq<int>,
    fin: Seq<bool>,
    i: nat,
) -> (Seq<int>, Seq<bool>, bool)
    decreases i,
{
    if i == 0 {
        (work, fin, false)
    } else {
        let (w, f, found) = scan(need, alloc, work, fin, (i - 1) as nat);
        let t = i - 1;
        if !f[t] && fits(need[t], w) {
            (release(w, alloc[t]), f.update(t, true), true)
        } else {
            (w, f, found)
        }
    }
}

pub open spec fn count_true(f: Seq<bool>) -> nat
    decreases f.len(),
{
    if f.len() == 0 {
        0
    } else {
        count_true(f.drop_last()) + if f.last() {
            1nat
        } else {
            0nat
        }
    }
}

/// Scans are repeated until one finishes no task; the result is the final
/// work vector and the final marks.
pub open spec fn settle(
    need: Seq<Seq<u64>>,
    alloc: Seq<Seq<u64>>,
    work: Seq<int>,
    fin: Seq<bool>,
) -> (Seq<int>, Seq<bool>)
    decreases fin.len() - count_true(fin),
    via settle_decreases
{
    let (w2, f2, found) = scan(need, alloc, work, fin, fin.len());
    if found {
        settle(need, alloc, w2, f2)
    } else {
        (work, fin)
    }
}

#[via_fn]
proof fn settle_decreases(
    need: Seq<Seq<u64>>,
    alloc: Seq<Seq<u64>>,
    work: Seq<int>,
    fin: Seq<bool>,
) {
    lemma_scan_counts(need, alloc, work, fin, fin.len());
    let (w2, f2, found) = scan(need, alloc, work, fin, fin.len());
    if found {
        lemma_count_bound(f2);
    }
}

/// The state is safe when, starting from `available`, the repeated scans
/// finish every task.
pub open spec fn safe(available: Seq<u64>, need: Seq<Seq<u64>>, alloc: Seq<Seq<u64>>) -> bool {
    let (w, f) = settle(need, alloc, as_ints(available), Seq::new(need.len(), |t: int| false));
    forall|t: int| 0 <= t < f.len() ==> #[trigger] f[t]
}

pub proof fn lemma_count_bound(f: Seq<bool>)
    ensures
        count_true(f) <= f.len(),
    decreases f.len(),
{
    if f.len() > 0 {
        lemma_count_bound(f.drop_last());
    }
}

pub proof fn lemma_count_mark(f: Seq<bool>, t: int)
    requires
        0 <= t < f.len(),
        !f[t],
    ensures
        count_true(f.update(t, true)) == count_true(f) + 1,
    decreases f.len(),
{
    let g = f.update(t, true);
    if t == f.len() - 1 {
        assert(g.drop_last() =~= f.drop_last());
    } else {
        assert(g.drop_last() =~= f.drop_last().update(t, true));
        lemma_count_mark(f.drop_last(), t);
    }
}

pub proof fn lemma_scan_counts(
    need: Seq<Seq<u64>>,
    alloc: Seq<Seq<u64>>,
    work: Seq<int>,
    fin: Seq<bool>,
    i: nat,
)
    requires
        i <= fin.len(),
    ensures
        ({
            let (w2, f2, found) = scan(need, alloc, work, fin, i);
            &&& f2.len() == fin.len()
            &&& w2.len() == work.len()
            &&& count_true(f2) >= count_true(fin)
            &&& found ==> count_true(f2) > count_true(fin)
            &&& !found ==> w2 == work && f2 == fin
        }),
    decreases i,
{
    if i > 0 {
        lemma_scan_counts(need, alloc, work, fin, (i - 1) as nat);
        let (w, f, found) = scan(need, alloc, work, fin, (i - 1) as nat);
        let t = i - 1;
        if !f[t] && fits(need[t], w) {
            lemma_count_mark(f, t);
        }
    }
}

proof fn lemma_scan_idle(
    need: Seq<Seq<u64>>,
    alloc: Seq<Seq<u64>>,
    work: Seq<int>,
    fin: Seq<bool>,
    i: nat,
)
    requires
        i <= fin.len(),
        !scan(need, alloc, work, fin, i).2,
    ensures
        forall|t: int| 0 <= t < i ==> fin[t] || !fits(#[trigger] need[t], work),
    decreases i,
{
    if i > 0 {
        let (w, f, found) = scan(need, alloc, work, fin, (i - 1) as nat);
        lemma_scan_counts(need, alloc, work, fin, (i - 1) as nat);
        lemma_scan_idle(need, alloc, work, fin, (i - 1) as nat);
    }
}

/// Where the repeated scans stop, no unfinished task fits the work vector.
pub proof fn lemma_settle_stuck(
    need: Seq<Seq<u64>>,
    alloc: Seq<Seq<u64>>,
    work: Seq<int>,
    fin: Seq<bool>,
)
    ensures
        ({
            let (w, f) = settle(need, alloc, work, fin);
            &&& f.len() == fin.len()
            &&& forall|t: int| 0 <= t < f.len() ==> f[t] || !fits(#[trigger] need[t], w)
        }),
    decreases fin.len() - count_true(fin),
{
    lemma_scan_counts(need, alloc, work, fin, fin.len());
    let (w2, f2, found) = scan(need, alloc, work, fin, fin.len());
    if found {
        lemma_count_bound(f2);
        lemma_settle_stuck(need, alloc, w2, f2);
    } else {
        lemma_scan_idle(need, alloc, work, fin, fin.len());
    }
}

pub open spec fn wide(w: Seq<u128>) -> Seq<int> {
    Seq::new(w.len(), |r: int| w[r] as int)
}

/// Whether every entry of `need_row` is at most the matching entry of `work`.
fn row_fits(need_row: &Vec<u64>, work: &Vec<u128>) -> (r: bool)
    requires
        need_row@.len() == work@.len(),
    ensures
        r == fits(need_row@, wide(work@)),
{
    let mut j: usize = 0;
    while j < work.len()
        invariant
            need_row@.len() == work@.len(),
            j <= work@.len(),
            forall|q: int| 0 <= q < j ==> (#[trigger] need_row@[q]) as int <= work@[q] as int,
        decreases work@.len() - j,
    {
        if need_row[j] as u128 > work[j] {
            return false;
        }
        j += 1;
    }
    true
}

/// Adds `row` into `work`, entry by entry.
fn add_row(work: &mut Vec<u128>, row: &Vec<u64>)
    requires
        row@.len() == old(work)@.len(),
        forall|q: int| 0 <= q < row@.len() ==> old(work)@[q] + (#[trigger] row@[q]) <= u128::MAX,
    ensures
        wide(final(work)@) == release(wide(old(work)@), row@),
        final(work)@.len() == old(work)@.len(),
        forall|q: int| 0 <= q < row@.len() ==> (#[trigger] final(work)@[q]) == old(work)@[q] + row@[q],
{
    let ghost w0 = work@;
    let mut j: usize = 0;
    while j < work.len()
        invariant
            row@.len() == w0.len(),
            work@.len() == w0.len(),
            j <= w0.len(),
            forall|q: int| 0 <= q < row@.len() ==> w0[q] + (#[trigger] row@[q]) <= u128::MAX,
            forall|q: int| 0 <= q < j ==> (#[trigger] work@[q]) == w0[q] + row@[q],
            forall|q: int| j <= q < w0.len() ==> (#[trigger] work@[q]) == w0[q],
        decreases w0.len() - j,
    {
        let v = work[j] + row[j] as u128;
        work.set(j, v);
        j += 1;
    }
    assert(wide(work@) =~= release(wide(w0), row@));
}

/// The safety test: simulates tasks finishing, in ascending order, pass after
/// pass, each one releasing what it holds once its need fits what is free.
/// Returns whether every task can finish.
pub fn is_safe(available: &Vec<u64>, need: &Vec<Vec<u64>>, alloc: &Vec<Vec<u64>>) -> (r: bool)
    requires
        shaped(table(need@), need@.len(), available@.len()),
        shaped(table(alloc@), need@.len(), available@.len()),
    ensures
        r == safe(available@, table(need@), table(alloc@)),
{
    let n = need.len();
    let k = available.len();
    let ghost need_s = table(need@);
    let ghost alloc_s = table(alloc@);
    let mut work: Vec<u128> = Vec::new();
    let mut j: usize = 0;
    while j < k
        invariant
            k == available@.len(),
            j <= k,
            work@.len() == j,
            forall|q: int| 0 <= q < j ==> (#[trigger] work@[q]) == available@[q],
        decreases k - j,
    {
        work.push(available[j] as u128);
        j += 1;
    }
    assert(wide(work@) =~= as_ints(available@));
    let mut finish: Vec<bool> = Vec::new();
    let mut t: usize = 0;
    while t < n
        invariant
            t <= n,
            finish@.len() == t,
            forall|q: int| 0 <= q < t ==> !(#[trigger] finish@[q]),
        decreases n - t,
    {
        finish.push(false);
        t += 1;
    }
    let ghost f_init = Seq::new(n as nat, |q: int| false);
    assert(finish@ =~= f_init);
    assert(count_true(finish@) == 0) by {
        lemma_none_counted(finish@);
    }
    loop
        invariant
            n == need@.len(),
            k == available@.len(),
            need_s == table(need@),
            alloc_s == table(alloc@),
            shaped(need_s, n as nat, k as nat),
            shaped(alloc_s, n as nat, k as nat),
            work@.len() == k,
            finish@.len() == n,
            settle(need_s, alloc_s, wide(work@), finish@) == settle(
                need_s,
                alloc_s,
                as_ints(available@),
                f_init,
            ),
            forall|q: int| 0 <= q < k ==> (#[trigger] work@[q]) < (count_true(finish@) + 1) * 0x1_0000_0000_0000_0000,
        ensures
            finish@.len() == n,
            settle(need_s, alloc_s, wide(work@), finish@) == (wide(work@), finish@),
            settle(need_s, alloc_s, wide(work@), finish@) == settle(
                need_s,
                alloc_s,
                as_ints(available@),
                f_init,
            ),
        decreases n - count_true(finish@),
    {
        let ghost w0 = wide(work@);
        let ghost f0 = finish@;
        let mut found = false;
        let mut t: usize = 0;
        proof {
            lemma_count_bound(finish@);
        }
        while t < n
            invariant
                n == need@.len(),
                k == available@.len(),
                need_s == table(need@),
                alloc_s == table(alloc@),
                shaped(need_s, n as nat, k as nat),
                shaped(alloc_s, n as nat, k as nat),
                t <= n,
                work@.len() == k,
                finish@.len() == n,
                f0.len() == n,
                (wide(work@), finish@, found) == scan(need_s, alloc_s, w0, f0, t as nat),
                count_true(finish@) <= n,
                forall|q: int| 0 <= q < k ==> (#[trigger] work@[q]) < (count_true(finish@) + 1) * 0x1_0000_0000_0000_0000,
            decreases n - t,
        {
            proof {
                lemma_scan_counts(need_s, alloc_s, w0, f0, t as nat);
            }
            if !finish[t] {
                assert(need_s[t as int] == need@[t as int]@);
                let ok = row_fits(&need[t], &work);
                if ok {
                    assert(alloc_s[t as int] == alloc@[t as int]@);
                    proof {
                        lemma_count_mark(finish@, t as int);
                        lemma_count_bound(finish@.update(t as int, true));
                    }
                    add_row(&mut work, &alloc[t]);
                    finish.set(t, true);
                    found = true;
                }
            }
            t += 1;
        }
        proof {
            lemma_scan_counts(need_s, alloc_s, w0, f0, n as nat);
        }
        if !found {
            assert(settle(need_s, alloc_s, wide(work@), finish@) == (wide(work@), finish@));
            break;
        }
    }
    assert(f_init =~= Seq::new(need@.len(), |q: int| false));
    assert(settle(need_s, alloc_s, as_ints(available@), Seq::new(need@.len(), |q: int| false)) == (
    wide(work@), finish@));
    let mut t: usize = 0;
    while t < n
        invariant
            t <= n,
            finish@.len() == n,
            forall|q: int| 0 <= q < t ==> #[trigger] finish@[q],
            n == need@.len(),
            settle(need_s, alloc_s, as_ints(available@), Seq::new(need@.len(), |q: int| false)) == (
            wide(work@), finish@),
            need_s == table(need@),
            alloc_s == table(alloc@),
        decreases n - t,
    {
        if !finish[t] {
            assert(need_s.len() == need@.len());
            assert(settle(need_s, alloc_s, as_ints(available@), Seq::new(need_s.len(), |q: int| false)).1[t as int] == finish@[t as int]);
            return false;
        }
        t += 1;
    }
    true
}

proof fn lemma_none_counted(f: Seq<bool>)
    requires
        forall|q: int| 0 <= q < f.len() ==> !(#[trigger] f[q]),
    ensures
        count_true(f) == 0,
    decreases f.len(),
{
    if f.len() > 0 {
        lemma_none_counted(f.drop_last());
    }
}

} // verus!
