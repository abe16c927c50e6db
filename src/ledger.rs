use vstd::prelude::*;
use crate::banker::{table, shaped};

verus! {

/// Sum over all tasks of the entries in column `r`.
pub open spec fn col_sum(rows: Seq<Seq<u64>>, r: int) -> int
    decreases rows.len(),
{
    if rows.len() == 0 {
        0
    } else {
        col_sum(rows.drop_last(), r) + rows.last()[r] as int
    }
}

/// One resource class: per-resource free units and starting capacity, and per
/// task the units requested and the units held.
pub struct Ledger {
    pub available: Vec<u64>,
    pub capacity: Vec<u64>,
    pub need: Vec<Vec<u64>>,
    pub allocation: Vec<Vec<u64>>,
}

impl Ledger {
    pub open spec fn need_s(&self) -> Seq<Seq<u64>> {
        table(self.need@)
    }

    pub open spec fn alloc_s(&self) -> Seq<Seq<u64>> {
        table(self.allocation@)
    }

    pub open spec fn k(&self) -> nat {
        self.available@.len()
    }

    pub open spec fn n(&self) -> nat {
        self.need@.len()
    }

    /// One row per task, one column per resource, and every unit is either
    /// free or held by exactly one task.
    pub open spec fn wf(&self) -> bool {
        let n = self.n();
        &&& self.capacity@.len() == self.k()
        &&& shaped(self.need_s(), n, self.k())
        &&& shaped(self.alloc_s(), n, self.k())
        &&& forall|r: int|
            0 <= r < self.k() ==> col_sum(self.alloc_s(), r) + self.available@[r] as int
                == #[trigger] self.capacity@[r] as int
    }

    pub fn new() -> (l: Ledger)
        ensures
            l.wf(),
            l.k() == 0,
            l.n() == 0,
    {
        Ledger { available: Vec::new(), capacity: Vec::new(), need: Vec::new(), allocation: Vec::new() }
    }

    /// A new resource with `cap` units, all free; every task starts with no
    /// need and no allocation of it.
    pub fn add_column(&mut self, cap: u64)
        requires
            old(self).wf(),
        ensures
            final(self).wf(),
            final(self).n() == old(self).n(),
            final(self).available@ == old(self).available@.push(cap),
            final(self).capacity@ == old(self).capacity@.push(cap),
            final(self).need_s() == Seq::new(old(self).n(), |t: int| old(self).need_s()[t].push(0)),
            final(self).alloc_s() == Seq::new(old(self).n(), |t: int| old(self).alloc_s()[t].push(0)),
    {
        let ghost a0 = self.alloc_s();
        push_zero_column(&mut self.need);
        push_zero_column(&mut self.allocation);
        self.available.push(cap);
        self.capacity.push(cap);
        proof {
            let a1 = self.alloc_s();
            assert forall|r: int| 0 <= r < self.k() implies col_sum(a1, r) + self.available@[r] as int
                == #[trigger] self.capacity@[r] as int by {
                lemma_col_sum_push_column(a0, old(self).k(), r);
            }
        }
    }

    /// A new task, with no need and no allocation of any resource.
    pub fn add_row(&mut self)
        requires
            old(self).wf(),
        ensures
            final(self).wf(),
            final(self).n() == old(self).n() + 1,
            final(self).available@ == old(self).available@,
            final(self).capacity@ == old(self).capacity@,
            final(self).need_s() == old(self).need_s().push(Seq::new(old(self).k(), |r: int| 0u64)),
            final(self).alloc_s() == old(self).alloc_s().push(Seq::new(old(self).k(), |r: int| 0u64)),
    {
        let ghost a0 = self.alloc_s();
        let z1 = zeros(self.available.len());
        let z2 = zeros(self.available.len());
        self.need.push(z1);
        self.allocation.push(z2);
        assert(self.need_s() =~= old(self).need_s().push(Seq::new(old(self).k(), |r: int| 0u64)));
        assert(self.alloc_s() =~= a0.push(Seq::new(old(self).k(), |r: int| 0u64)));
        assert forall|r: int| 0 <= r < self.k() implies col_sum(self.alloc_s(), r)
            + self.available@[r] as int == #[trigger] self.capacity@[r] as int by {
            assert(self.alloc_s().drop_last() =~= a0);
        }
    }

    /// Records one more unit of resource `r` requested by task `t`.
    pub fn request(&mut self, t: usize, r: usize)
        requires
            old(self).wf(),
            t < old(self).n(),
            r < old(self).k(),
            old(self).need_s()[t as int][r as int] < u64::MAX,
        ensures
            final(self).wf(),
            final(self).need_s() == old(self).need_s().update(
                t as int,
                old(self).need_s()[t as int].update(r as int, (old(self).need_s()[t as int][r as int] + 1) as u64),
            ),
            final(self).allocation == old(self).allocation,
            final(self).available == old(self).available,
            final(self).capacity == old(self).capacity,
    {
        assert(self.need_s()[t as int].len() == self.k());
        let v = self.need[t][r] + 1;
        set_entry(&mut self.need, t, r, v);
    }

    /// Takes back one unit of a request of task `t` for resource `r`.
    pub fn withdraw(&mut self, t: usize, r: usize)
        requires
            old(self).wf(),
            t < old(self).n(),
            r < old(self).k(),
            old(self).need_s()[t as int][r as int] > 0,
        ensures
            final(self).wf(),
            final(self).need_s() == old(self).need_s().update(
                t as int,
                old(self).need_s()[t as int].update(r as int, (old(self).need_s()[t as int][r as int] - 1) as u64),
            ),
            final(self).allocation == old(self).allocation,
            final(self).available == old(self).available,
            final(self).capacity == old(self).capacity,
    {
        assert(self.need_s()[t as int].len() == self.k());
        let v = self.need[t][r] - 1;
        set_entry(&mut self.need, t, r, v);
    }

    /// Hands one free unit of resource `r` to task `t`, settling one unit of
    /// its request if it has one.
    pub fn grant(&mut self, t: usize, r: usize)
        requires
            old(self).wf(),
            t < old(self).n(),
            r < old(self).k(),
            old(self).available@[r as int] > 0,
        ensures
            final(self).wf(),
            final(self).need_s() == old(self).need_s().update(
                t as int,
                old(self).need_s()[t as int].update(
                    r as int,
                    if old(self).need_s()[t as int][r as int] > 0 {
                        (old(self).need_s()[t as int][r as int] - 1) as u64
                    } else {
                        0u64
                    },
                ),
            ),
            final(self).alloc_s() == old(self).alloc_s().update(
                t as int,
                old(self).alloc_s()[t as int].update(r as int, (old(self).alloc_s()[t as int][r as int] + 1) as u64),
            ),
            final(self).available@ == old(self).available@.update(
                r as int,
                (old(self).available@[r as int] - 1) as u64,
            ),
            final(self).capacity == old(self).capacity,
    {
        let ghost a0 = self.alloc_s();
        assert(self.need_s()[t as int].len() == self.k());
        assert(self.alloc_s()[t as int].len() == self.k());
        assert(self.capacity@[r as int] as int == col_sum(a0, r as int) + self.available@[r as int]);
        if self.need[t][r] > 0 {
            let v = self.need[t][r] - 1;
            set_entry(&mut self.need, t, r, v);
        } else {
            assert(self.need_s()[t as int].update(r as int, 0u64) =~= self.need_s()[t as int]);
            assert(self.need_s().update(t as int, self.need_s()[t as int]) =~= self.need_s());
        }
        proof {
            lemma_entry_le_col_sum(a0, t as int, r as int);
        }
        let v = self.allocation[t][r] + 1;
        set_entry(&mut self.allocation, t, r, v);
        let a = self.available[r] - 1;
        self.available.set(r, a);
        proof {
            assert forall|c: int| 0 <= c < self.k() implies col_sum(self.alloc_s(), c)
                + self.available@[c] as int == #[trigger] self.capacity@[c] as int by {
                lemma_col_sum_update(a0, t as int, r as int, v, c);
            }
        }
    }

    /// Task `t` gives back one unit of resource `r` that it holds.
    pub fn give_back(&mut self, t: usize, r: usize)
        requires
            old(self).wf(),
            t < old(self).n(),
            r < old(self).k(),
            old(self).alloc_s()[t as int][r as int] > 0,
        ensures
            final(self).wf(),
            final(self).need == old(self).need,
            final(self).alloc_s() == old(self).alloc_s().update(
                t as int,
                old(self).alloc_s()[t as int].update(r as int, (old(self).alloc_s()[t as int][r as int] - 1) as u64),
            ),
            final(self).available@ == old(self).available@.update(
                r as int,
                (old(self).available@[r as int] + 1) as u64,
            ),
            final(self).available@[r as int] == old(self).available@[r as int] + 1,
            final(self).capacity == old(self).capacity,
    {
        let ghost a0 = self.alloc_s();
        assert(self.alloc_s()[t as int].len() == self.k());
        assert(self.capacity@[r as int] as int == col_sum(a0, r as int) + self.available@[r as int]);
        proof {
            lemma_entry_le_col_sum(a0, t as int, r as int);
        }
        let v = self.allocation[t][r] - 1;
        set_entry(&mut self.allocation, t, r, v);
        let a = self.available[r] + 1;
        self.available.set(r, a);
        proof {
            assert forall|c: int| 0 <= c < self.k() implies col_sum(self.alloc_s(), c)
                + self.available@[c] as int == #[trigger] self.capacity@[c] as int by {
                lemma_col_sum_update(a0, t as int, r as int, v, c);
            }
        }
    }
}

pub proof fn lemma_col_sum_update(rows: Seq<Seq<u64>>, t: int, r: int, v: u64, c: int)
    requires
        0 <= t < rows.len(),
        0 <= r < rows[t].len(),
        0 <= c < rows[t].len(),
    ensures
        col_sum(rows.update(t, rows[t].update(r, v)), c) == col_sum(rows, c) + if c == r {
            v - rows[t][r]
        } else {
            0
        },
    decreases rows.len(),
{
    let rows2 = rows.update(t, rows[t].update(r, v));
    if t == rows.len() - 1 {
        assert(rows2.drop_last() =~= rows.drop_last());
    } else {
        assert(rows2.drop_last() =~= rows.drop_last().update(t, rows[t].update(r, v)));
        lemma_col_sum_update(rows.drop_last(), t, r, v, c);
    }
}

pub proof fn lemma_entry_le_col_sum(rows: Seq<Seq<u64>>, t: int, r: int)
    requires
        0 <= t < rows.len(),
    ensures
        rows[t][r] as int <= col_sum(rows, r),
        0 <= col_sum(rows, r),
    decreases rows.len(),
{
    lemma_col_sum_nonneg(rows.drop_last(), r);
    if t < rows.len() - 1 {
        lemma_entry_le_col_sum(rows.drop_last(), t, r);
    }
}

pub proof fn lemma_col_sum_nonneg(rows: Seq<Seq<u64>>, r: int)
    ensures
        0 <= col_sum(rows, r),
    decreases rows.len(),
{
    if rows.len() > 0 {
        lemma_col_sum_nonneg(rows.drop_last(), r);
    }
}

pub proof fn lemma_col_sum_push_column(rows: Seq<Seq<u64>>, k: nat, c: int)
    requires
        forall|t: int| 0 <= t < rows.len() ==> (#[trigger] rows[t]).len() == k,
        0 <= c <= k,
    ensures
        col_sum(Seq::new(rows.len(), |t: int| rows[t].push(0)), c) == if c == k {
            0
        } else {
            col_sum(rows, c)
        },
    decreases rows.len(),
{
    let wide = Seq::new(rows.len(), |t: int| rows[t].push(0));
    if rows.len() > 0 {
        let shorter = rows.drop_last();
        assert(wide.drop_last() =~= Seq::new(shorter.len(), |t: int| shorter[t].push(0)));
        lemma_col_sum_push_column(shorter, k, c);
    }
}

/// A vector of `k` zeros.
fn zeros(k: usize) -> (z: Vec<u64>)
    ensures
        z@ == Seq::new(k as nat, |r: int| 0u64),
{
    let mut z: Vec<u64> = Vec::new();
    let mut j: usize = 0;
    while j < k
        invariant
            j <= k,
            z@ == Seq::new(j as nat, |r: int| 0u64),
        decreases k - j,
    {
        z.push(0);
        j += 1;
        assert(z@ =~= Seq::new(j as nat, |r: int| 0u64));
    }
    z
}

/// Appends a zero to every row.
fn push_zero_column(rows: &mut Vec<Vec<u64>>)
    ensures
        final(rows)@.len() == old(rows)@.len(),
        table(final(rows)@) == Seq::new(old(rows)@.len(), |t: int| table(old(rows)@)[t].push(0)),
{
    let ghost r0 = table(rows@);
    let n = rows.len();
    let mut t: usize = 0;
    while t < n
        invariant
            n == rows@.len(),
            r0.len() == n,
            t <= n,
            forall|q: int| 0 <= q < t ==> (#[trigger] table(rows@)[q]) == r0[q].push(0),
            forall|q: int| t <= q < n ==> (#[trigger] table(rows@)[q]) == r0[q],
        decreases n - t,
    {
        let ghost before = table(rows@);
        let mut row: Vec<u64> = Vec::new();
        std::mem::swap(&mut rows[t], &mut row);
        row.push(0);
        std::mem::swap(&mut rows[t], &mut row);
        assert(table(rows@) =~= before.update(t as int, before[t as int].push(0)));
        t += 1;
    }
    assert(table(rows@) =~= Seq::new(n as nat, |q: int| r0[q].push(0)));
}

/// Setting one entry of a matrix of rows.
fn set_entry(rows: &mut Vec<Vec<u64>>, t: usize, r: usize, v: u64)
    requires
        t < old(rows)@.len(),
        r < old(rows)@[t as int]@.len(),
    ensures
        final(rows)@.len() == old(rows)@.len(),
        table(final(rows)@) == table(old(rows)@).update(
            t as int,
            table(old(rows)@)[t as int].update(r as int, v),
        ),
{
    let mut row: Vec<u64> = Vec::new();
    std::mem::swap(&mut rows[t], &mut row);
    row.set(r, v);
    std::mem::swap(&mut rows[t], &mut row);
    assert(table(rows@) =~= table(old(rows)@).update(
        t as int,
        table(old(rows)@)[t as int].update(r as int, v),
    ));
}

} // verus!
