use vstd::prelude::*;
use crate::banker::{is_safe, safe};
use crate::ledger::Ledger;
use crate::queue::{queues, enqueue, dequeue, lowest_free, first_free};

verus! {

/// Returned by an acquisition that the safety test refuses.
pub const WOULD_DEADLOCK: isize = -0xDEAD;

/// Returned for a malformed argument.
pub const INVALID_ARGUMENT: isize = -1;

/// Where a task stands with respect to the scheduler.
#[derive(PartialEq, Eq, Structural, Clone, Copy, Debug)]
pub enum TaskState {
    Ready,
    /// Waiting on a mutex, a semaphore or a condition variable.
    Blocked,
    /// Waiting for the timer to reach the given time, in milliseconds.
    Sleeping { until: usize },
}

/// How a mutex waits when it is held: by spinning or by suspending. In this
/// model both kinds queue their waiters in arrival order.
#[derive(PartialEq, Eq, Structural, Clone, Copy, Debug)]
pub enum MutexKind {
    Spin,
    Blocking,
}

/// One process: its tasks, its resource tables, the waiters of each
/// resource, and the accounting of mutexes (`m`) and semaphores (`s`).
pub struct Process {
    pub tasks: Vec<TaskState>,
    pub mutex_list: Vec<Option<MutexKind>>,
    /// Each slot holds the count that the semaphore was created with.
    pub semaphore_list: Vec<Option<u64>>,
    /// Each slot holds `true` once a condition variable stands there.
    pub condvar_list: Vec<Option<bool>>,
    pub mutex_waiters: Vec<Vec<usize>>,
    pub semaphore_waiters: Vec<Vec<usize>>,
    /// Each waiter with the mutex that it takes back when woken.
    pub condvar_waiters: Vec<Vec<(usize, usize)>>,
    pub m: Ledger,
    pub s: Ledger,
    pub use_dead_lock: bool,
}

/// `m` with entry `(t, r)` moved by `d`.
pub open spec fn bump(m: Seq<Seq<u64>>, t: int, r: int, d: int) -> Seq<Seq<u64>> {
    m.update(t, m[t].update(r, (m[t][r] + d) as u64))
}

/// `m` with one unit of the request `(t, r)` settled, if there is one.
pub open spec fn settle_one(m: Seq<Seq<u64>>, t: int, r: int) -> Seq<Seq<u64>> {
    m.update(
        t,
        m[t].update(
            r,
            if m[t][r] > 0 {
                (m[t][r] - 1) as u64
            } else {
                0u64
            },
        ),
    )
}

pub open spec fn ids_below(qs: Seq<Seq<usize>>, n: nat) -> bool {
    forall|i: int, j: int| 0 <= i < qs.len() && 0 <= j < qs[i].len() ==> (#[trigger] qs[i][j]) < n
}

/// Whether the safety test refuses task `t` one more unit of resource `r`.
pub open spec fn refused(l: Ledger, detect: bool, t: int, r: int) -> bool {
    detect && !safe(l.available@, bump(l.need_s(), t, r, 1), l.alloc_s())
}

/// The effect of task `t` asking for one unit of resource `r`: refused, and
/// nothing changes; granted at once when a unit is free; or else recorded as a
/// request, with the task queued and blocked.
pub open spec fn acquire_post(
    o: Ledger,
    f: Ledger,
    oq: Seq<Seq<usize>>,
    fq: Seq<Seq<usize>>,
    ot: Seq<TaskState>,
    ft: Seq<TaskState>,
    detect: bool,
    t: int,
    r: int,
    res: isize,
) -> bool {
    &&& f.capacity@ == o.capacity@
    &&& if refused(o, detect, t, r) {
        &&& res == WOULD_DEADLOCK
        &&& f.need_s() == o.need_s()
        &&& f.alloc_s() == o.alloc_s()
        &&& f.available@ == o.available@
        &&& fq == oq
        &&& ft == ot
    } else if o.available@[r] > 0 {
        &&& res == 0
        &&& f.need_s() == o.need_s()
        &&& f.alloc_s() == bump(o.alloc_s(), t, r, 1)
        &&& f.available@ == o.available@.update(r, (o.available@[r] - 1) as u64)
        &&& fq == oq
        &&& ft == ot
    } else {
        &&& res == 0
        &&& f.need_s() == bump(o.need_s(), t, r, 1)
        &&& f.alloc_s() == o.alloc_s()
        &&& f.available@ == o.available@
        &&& fq == oq.update(r, oq[r].push(t as usize))
        &&& ft == ot.update(t, TaskState::Blocked)
    }
}

/// The effect of task `t` giving back one unit of resource `r`: the unit goes
/// to the first waiter, which becomes ready, or else becomes free.
pub open spec fn release_post(
    o: Ledger,
    f: Ledger,
    oq: Seq<Seq<usize>>,
    fq: Seq<Seq<usize>>,
    ot: Seq<TaskState>,
    ft: Seq<TaskState>,
    t: int,
    r: int,
) -> bool {
    let after = bump(o.alloc_s(), t, r, -1);
    &&& f.capacity@ == o.capacity@
    &&& if oq[r].len() == 0 {
        &&& f.need_s() == o.need_s()
        &&& f.alloc_s() == after
        &&& f.available@ == o.available@.update(r, (o.available@[r] + 1) as u64)
        &&& fq == oq
        &&& ft == ot
    } else {
        let w = oq[r][0] as int;
        &&& f.need_s() == settle_one(o.need_s(), w, r)
        &&& f.alloc_s() == bump(after, w, r, 1)
        &&& f.available@ == o.available@
        &&& fq == oq.update(r, oq[r].drop_first())
        &&& ft == ot.update(w, TaskState::Ready)
    }
}

fn acquire(
    l: &mut Ledger,
    q: &mut Vec<Vec<usize>>,
    tasks: &mut Vec<TaskState>,
    detect: bool,
    t: usize,
    r: usize,
) -> (res: isize)
    requires
        old(l).wf(),
        t < old(l).n(),
        r < old(l).k(),
        old(q)@.len() == old(l).k(),
        old(tasks)@.len() == old(l).n(),
        ids_below(queues(old(q)@), old(l).n()),
        old(l).need_s()[t as int][r as int] < u64::MAX,
    ensures
        final(l).wf(),
        final(l).n() == old(l).n(),
        final(l).k() == old(l).k(),
        final(q)@.len() == old(q)@.len(),
        final(tasks)@.len() == old(tasks)@.len(),
        ids_below(queues(final(q)@), old(l).n()),
        acquire_post(
            *old(l),
            *final(l),
            queues(old(q)@),
            queues(final(q)@),
            old(tasks)@,
            final(tasks)@,
            detect,
            t as int,
            r as int,
            res,
        ),
{
    let ghost o = *l;
    let ghost oq = queues(q@);
    l.request(t, r);
    if detect {
        let ok = is_safe(&l.available, &l.need, &l.allocation);
        if !ok {
            l.withdraw(t, r);
            assert(l.need_s()[t as int] =~= o.need_s()[t as int]);
            assert(l.need_s() =~= o.need_s());
            return WOULD_DEADLOCK;
        }
    }
    if l.available[r] > 0 {
        l.grant(t, r);
        assert(l.need_s()[t as int] =~= o.need_s()[t as int]);
        assert(l.need_s() =~= o.need_s());
        0
    } else {
        enqueue(q, r, t);
        tasks.set(t, TaskState::Blocked);
        assert forall|i: int, j: int|
            0 <= i < queues(q@).len() && 0 <= j < queues(q@)[i].len() implies (#[trigger] queues(
            q@,
        )[i][j]) < o.n() by {
            if i == r && j == oq[i].len() {
            } else {
                assert(queues(q@)[i][j] == oq[i][j]);
            }
        }
        0
    }
}

fn release(l: &mut Ledger, q: &mut Vec<Vec<usize>>, tasks: &mut Vec<TaskState>, t: usize, r: usize)
    requires
        old(l).wf(),
        t < old(l).n(),
        r < old(l).k(),
        old(q)@.len() == old(l).k(),
        old(tasks)@.len() == old(l).n(),
        ids_below(queues(old(q)@), old(l).n()),
        old(l).alloc_s()[t as int][r as int] > 0,
    ensures
        final(l).wf(),
        final(l).n() == old(l).n(),
        final(l).k() == old(l).k(),
        final(q)@.len() == old(q)@.len(),
        final(tasks)@.len() == old(tasks)@.len(),
        ids_below(queues(final(q)@), old(l).n()),
        release_post(
            *old(l),
            *final(l),
            queues(old(q)@),
            queues(final(q)@),
            old(tasks)@,
            final(tasks)@,
            t as int,
            r as int,
        ),
{
    let ghost oq = queues(q@);
    let ghost o = *l;
    l.give_back(t, r);
    let front = dequeue(q, r);
    match front {
        Some(w) => {
            assert(oq[r as int][0] < l.n());
            l.grant(w, r);
            tasks.set(w, TaskState::Ready);
            assert(l.available@ =~= o.available@);
            assert forall|i: int, j: int|
                0 <= i < queues(q@).len() && 0 <= j < queues(q@)[i].len() implies (#[trigger] queues(
                q@,
            )[i][j]) < l.n() by {
                if i == r {
                    assert(queues(q@)[i][j] == oq[i][j + 1]);
                } else {
                    assert(queues(q@)[i][j] == oq[i][j]);
                }
            }
        },
        None => {},
    }
}

/// The effect of a condition-variable wait by task `t` holding mutex `r`: the
/// mutex is released as by an unlock, the task records a request to take it
/// back, and the task is blocked.
pub open spec fn wait_post(
    o: Ledger,
    f: Ledger,
    oq: Seq<Seq<usize>>,
    fq: Seq<Seq<usize>>,
    ot: Seq<TaskState>,
    ft: Seq<TaskState>,
    t: int,
    r: int,
) -> bool {
    let after = bump(o.alloc_s(), t, r, -1);
    &&& f.capacity@ == o.capacity@
    &&& if oq[r].len() == 0 {
        &&& f.need_s() == bump(o.need_s(), t, r, 1)
        &&& f.alloc_s() == after
        &&& f.available@ == o.available@.update(r, (o.available@[r] + 1) as u64)
        &&& fq == oq
        &&& ft == ot.update(t, TaskState::Blocked)
    } else {
        let w = oq[r][0] as int;
        &&& f.need_s() == bump(settle_one(o.need_s(), w, r), t, r, 1)
        &&& f.alloc_s() == bump(after, w, r, 1)
        &&& f.available@ == o.available@
        &&& fq == oq.update(r, oq[r].drop_first())
        &&& ft == ot.update(w, TaskState::Ready).update(t, TaskState::Blocked)
    }
}

impl Process {
    pub open spec fn n(&self) -> nat {
        self.tasks@.len()
    }

    /// Tables, waiter queues and accounting columns line up; every task has a
    /// row in each ledger; every queued task exists; a mutex has one unit.
    pub open spec fn wf(&self) -> bool {
        let n = self.n();
        let cq = queues(self.condvar_waiters@);
        &&& self.m.wf()
        &&& self.s.wf()
        &&& self.m.n() == n
        &&& self.s.n() == n
        &&& self.m.k() == self.mutex_list@.len()
        &&& self.mutex_waiters@.len() == self.mutex_list@.len()
        &&& self.s.k() == self.semaphore_list@.len()
        &&& self.semaphore_waiters@.len() == self.semaphore_list@.len()
        &&& self.condvar_waiters@.len() == self.condvar_list@.len()
        &&& forall|i: int| 0 <= i < self.mutex_list@.len() ==> (#[trigger] self.mutex_list@[i]) is Some
        &&& forall|i: int| 0 <= i < self.semaphore_list@.len() ==> (#[trigger] self.semaphore_list@[i]) is Some
        &&& forall|i: int| 0 <= i < self.condvar_list@.len() ==> (#[trigger] self.condvar_list@[i]) is Some
        &&& forall|r: int| 0 <= r < self.m.k() ==> #[trigger] self.m.capacity@[r] == 1
        &&& ids_below(queues(self.mutex_waiters@), n)
        &&& ids_below(queues(self.semaphore_waiters@), n)
        &&& forall|c: int, j: int|
            0 <= c < cq.len() && 0 <= j < cq[c].len() ==> (#[trigger] cq[c][j]).0 < n && cq[c][j].1
                < self.m.k()
    }

    /// A process with no task, no resource, and detection off.
    pub fn new() -> (p: Process)
        ensures
            p.wf(),
            p.n() == 0,
            p.mutex_list@.len() == 0,
            p.semaphore_list@.len() == 0,
            p.condvar_list@.len() == 0,
            !p.use_dead_lock,
    {
        Process {
            tasks: Vec::new(),
            mutex_list: Vec::new(),
            semaphore_list: Vec::new(),
            condvar_list: Vec::new(),
            mutex_waiters: Vec::new(),
            semaphore_waiters: Vec::new(),
            condvar_waiters: Vec::new(),
            m: Ledger::new(),
            s: Ledger::new(),
            use_dead_lock: false,
        }
    }

    /// Adds a ready task, with no need and no allocation of any resource, and
    /// returns its index.
    pub fn add_task(&mut self) -> (t: usize)
        requires
            old(self).wf(),
            old(self).n() < usize::MAX,
        ensures
            final(self).wf(),
            t == old(self).n(),
            final(self).tasks@ == old(self).tasks@.push(TaskState::Ready),
            final(self).m.need_s() == old(self).m.need_s().push(Seq::new(old(self).m.k(), |r: int| 0u64)),
            final(self).m.alloc_s() == old(self).m.alloc_s().push(Seq::new(old(self).m.k(), |r: int| 0u64)),
            final(self).s.need_s() == old(self).s.need_s().push(Seq::new(old(self).s.k(), |r: int| 0u64)),
            final(self).s.alloc_s() == old(self).s.alloc_s().push(Seq::new(old(self).s.k(), |r: int| 0u64)),
            final(self).m.available@ == old(self).m.available@,
            final(self).s.available@ == old(self).s.available@,
            final(self).mutex_list@ == old(self).mutex_list@,
            final(self).semaphore_list@ == old(self).semaphore_list@,
            final(self).condvar_list@ == old(self).condvar_list@,
            final(self).use_dead_lock == old(self).use_dead_lock,
    {
        let t = self.tasks.len();
        self.tasks.push(TaskState::Ready);
        self.m.add_row();
        self.s.add_row();
        t
    }
}

/// Creates a mutex, spinning or blocking, in the lowest free slot of the
/// mutex table; it starts with one free unit and no task needs or holds it.
pub fn sys_mutex_create(p: &mut Process, blocking: bool) -> (r: isize)
    requires
        old(p).wf(),
        old(p).mutex_list@.len() < isize::MAX,
    ensures
        final(p).wf(),
        lowest_free(old(p).mutex_list@, r as int),
        r == old(p).mutex_list@.len(),
        final(p).mutex_list@ == old(p).mutex_list@.push(
            Some(
                if blocking {
                    MutexKind::Blocking
                } else {
                    MutexKind::Spin
                },
            ),
        ),
        final(p).m.available@ == old(p).m.available@.push(1),
        final(p).m.need_s() == Seq::new(old(p).n(), |t: int| old(p).m.need_s()[t].push(0)),
        final(p).m.alloc_s() == Seq::new(old(p).n(), |t: int| old(p).m.alloc_s()[t].push(0)),
        queues(final(p).mutex_waiters@) == queues(old(p).mutex_waiters@).push(Seq::empty()),
        final(p).tasks@ == old(p).tasks@,
        final(p).s == old(p).s,
        final(p).semaphore_list@ == old(p).semaphore_list@,
        final(p).condvar_list@ == old(p).condvar_list@,
        final(p).use_dead_lock == old(p).use_dead_lock,
{
    let kind = if blocking {
        MutexKind::Blocking
    } else {
        MutexKind::Spin
    };
    // No slot is ever vacated, so the lowest free index is the table's end.
    let id = match first_free(&p.mutex_list) {
        Some(i) => i,
        None => p.mutex_list.len(),
    };
    let ghost oq = queues(p.mutex_waiters@);
    let ghost cq = queues(p.condvar_waiters@);
    p.mutex_list.push(Some(kind));
    p.mutex_waiters.push(Vec::new());
    p.m.add_column(1);
    assert(queues(p.mutex_waiters@) =~= oq.push(Seq::empty()));
    assert forall|i: int, j: int|
        0 <= i < queues(p.mutex_waiters@).len() && 0 <= j < queues(p.mutex_waiters@)[i].len() implies (
    #[trigger] queues(p.mutex_waiters@)[i][j]) < p.n() by {
        assert(queues(p.mutex_waiters@)[i][j] == oq[i][j]);
    }
    assert forall|r: int| 0 <= r < p.m.k() implies #[trigger] p.m.capacity@[r] == 1 by {
        if r < old(p).m.k() {
            assert(p.m.capacity@[r] == old(p).m.capacity@[r]);
        }
    }
    assert(forall|i: int| 0 <= i < p.mutex_list@.len() ==> (#[trigger] p.mutex_list@[i]) is Some);
    id as isize
}

/// Asks for mutex `mutex_id` on behalf of task `tid`. When detection is on
/// and granting the request could leave some task unable to finish, the
/// request is withdrawn and `WOULD_DEADLOCK` returned; otherwise the mutex is
/// taken at once if free, or the task is queued behind it and blocked.
pub fn sys_mutex_lock(p: &mut Process, tid: usize, mutex_id: usize) -> (r: isize)
    requires
        old(p).wf(),
        tid < old(p).n(),
        mutex_id < old(p).mutex_list@.len(),
        old(p).m.need_s()[tid as int][mutex_id as int] < u64::MAX,
    ensures
        final(p).wf(),
        acquire_post(
            old(p).m,
            final(p).m,
            queues(old(p).mutex_waiters@),
            queues(final(p).mutex_waiters@),
            old(p).tasks@,
            final(p).tasks@,
            old(p).use_dead_lock,
            tid as int,
            mutex_id as int,
            r,
        ),
        final(p).s == old(p).s,
        final(p).semaphore_waiters == old(p).semaphore_waiters,
        final(p).condvar_waiters == old(p).condvar_waiters,
        final(p).mutex_list == old(p).mutex_list,
        final(p).semaphore_list == old(p).semaphore_list,
        final(p).condvar_list == old(p).condvar_list,
        final(p).use_dead_lock == old(p).use_dead_lock,
{
    let detect = p.use_dead_lock;
    acquire(&mut p.m, &mut p.mutex_waiters, &mut p.tasks, detect, tid, mutex_id)
}

/// Task `tid` releases mutex `mutex_id`, which it holds: the first queued
/// waiter, if any, takes it over and becomes ready.
pub fn sys_mutex_unlock(p: &mut Process, tid: usize, mutex_id: usize) -> (r: isize)
    requires
        old(p).wf(),
        tid < old(p).n(),
        mutex_id < old(p).mutex_list@.len(),
        old(p).m.alloc_s()[tid as int][mutex_id as int] > 0,
    ensures
        final(p).wf(),
        r == 0,
        release_post(
            old(p).m,
            final(p).m,
            queues(old(p).mutex_waiters@),
            queues(final(p).mutex_waiters@),
            old(p).tasks@,
            final(p).tasks@,
            tid as int,
            mutex_id as int,
        ),
        final(p).s == old(p).s,
        final(p).semaphore_waiters == old(p).semaphore_waiters,
        final(p).condvar_waiters == old(p).condvar_waiters,
        final(p).mutex_list == old(p).mutex_list,
        final(p).semaphore_list == old(p).semaphore_list,
        final(p).condvar_list == old(p).condvar_list,
        final(p).use_dead_lock == old(p).use_dead_lock,
{
    release(&mut p.m, &mut p.mutex_waiters, &mut p.tasks, tid, mutex_id);
    0
}

/// Creates a semaphore with `res_count` units in the lowest free slot of the
/// semaphore table; all units start free and no task needs or holds any.
pub fn sys_semaphore_create(p: &mut Process, res_count: usize) -> (r: isize)
    requires
        old(p).wf(),
        old(p).semaphore_list@.len() < isize::MAX,
    ensures
        final(p).wf(),
        lowest_free(old(p).semaphore_list@, r as int),
        r == old(p).semaphore_list@.len(),
        final(p).semaphore_list@ == old(p).semaphore_list@.push(Some(res_count as u64)),
        final(p).s.available@ == old(p).s.available@.push(res_count as u64),
        final(p).s.capacity@ == old(p).s.capacity@.push(res_count as u64),
        final(p).s.need_s() == Seq::new(old(p).n(), |t: int| old(p).s.need_s()[t].push(0)),
        final(p).s.alloc_s() == Seq::new(old(p).n(), |t: int| old(p).s.alloc_s()[t].push(0)),
        queues(final(p).semaphore_waiters@) == queues(old(p).semaphore_waiters@).push(Seq::empty()),
        final(p).tasks@ == old(p).tasks@,
        final(p).m == old(p).m,
        final(p).mutex_list@ == old(p).mutex_list@,
        final(p).condvar_list@ == old(p).condvar_list@,
        final(p).use_dead_lock == old(p).use_dead_lock,
{
    let count = res_count as u64;
    // No slot is ever vacated, so the lowest free index is the table's end.
    let id = match first_free(&p.semaphore_list) {
        Some(i) => i,
        None => p.semaphore_list.len(),
    };
    let ghost oq = queues(p.semaphore_waiters@);
    p.semaphore_list.push(Some(count));
    p.semaphore_waiters.push(Vec::new());
    p.s.add_column(count);
    assert(queues(p.semaphore_waiters@) =~= oq.push(Seq::empty()));
    assert forall|i: int, j: int|
        0 <= i < queues(p.semaphore_waiters@).len() && 0 <= j < queues(p.semaphore_waiters@)[i].len()
            implies (#[trigger] queues(p.semaphore_waiters@)[i][j]) < p.n() by {
        assert(queues(p.semaphore_waiters@)[i][j] == oq[i][j]);
    }
    assert(forall|i: int| 0 <= i < p.semaphore_list@.len() ==> (#[trigger] p.semaphore_list@[i]) is Some);
    id as isize
}

/// Task `tid` gives back one unit of semaphore `sem_id`, which it holds: the
/// first queued waiter, if any, takes it over and becomes ready.
pub fn sys_semaphore_up(p: &mut Process, tid: usize, sem_id: usize) -> (r: isize)
    requires
        old(p).wf(),
        tid < old(p).n(),
        sem_id < old(p).semaphore_list@.len(),
        old(p).s.alloc_s()[tid as int][sem_id as int] > 0,
    ensures
        final(p).wf(),
        r == 0,
        release_post(
            old(p).s,
            final(p).s,
            queues(old(p).semaphore_waiters@),
            queues(final(p).semaphore_waiters@),
            old(p).tasks@,
            final(p).tasks@,
            tid as int,
            sem_id as int,
        ),
        final(p).m == old(p).m,
        final(p).mutex_waiters == old(p).mutex_waiters,
        final(p).condvar_waiters == old(p).condvar_waiters,
        final(p).mutex_list == old(p).mutex_list,
        final(p).semaphore_list == old(p).semaphore_list,
        final(p).condvar_list == old(p).condvar_list,
        final(p).use_dead_lock == old(p).use_dead_lock,
{
    release(&mut p.s, &mut p.semaphore_waiters, &mut p.tasks, tid, sem_id);
    0
}

/// Asks for one unit of semaphore `sem_id` on behalf of task `tid`, under
/// the same rules as a mutex: refused with `WOULD_DEADLOCK` when detection is
/// on and the state would be unsafe, else taken at once if a unit is free, or
/// else the task is queued and blocked.
pub fn sys_semaphore_down(p: &mut Process, tid: usize, sem_id: usize) -> (r: isize)
    requires
        old(p).wf(),
        tid < old(p).n(),
        sem_id < old(p).semaphore_list@.len(),
        old(p).s.need_s()[tid as int][sem_id as int] < u64::MAX,
    ensures
        final(p).wf(),
        acquire_post(
            old(p).s,
            final(p).s,
            queues(old(p).semaphore_waiters@),
            queues(final(p).semaphore_waiters@),
            old(p).tasks@,
            final(p).tasks@,
            old(p).use_dead_lock,
            tid as int,
            sem_id as int,
            r,
        ),
        final(p).m == old(p).m,
        final(p).mutex_waiters == old(p).mutex_waiters,
        final(p).condvar_waiters == old(p).condvar_waiters,
        final(p).mutex_list == old(p).mutex_list,
        final(p).semaphore_list == old(p).semaphore_list,
        final(p).condvar_list == old(p).condvar_list,
        final(p).use_dead_lock == old(p).use_dead_lock,
{
    let detect = p.use_dead_lock;
    acquire(&mut p.s, &mut p.semaphore_waiters, &mut p.tasks, detect, tid, sem_id)
}

/// Creates a condition variable, with no waiter, in the lowest free slot of
/// the condition-variable table.
pub fn sys_condvar_create(p: &mut Process) -> (r: isize)
    requires
        old(p).wf(),
        old(p).condvar_list@.len() < isize::MAX,
    ensures
        final(p).wf(),
        lowest_free(old(p).condvar_list@, r as int),
        r == old(p).condvar_list@.len(),
        final(p).condvar_list@ == old(p).condvar_list@.push(Some(true)),
        queues(final(p).condvar_waiters@) == queues(old(p).condvar_waiters@).push(Seq::empty()),
        final(p).tasks@ == old(p).tasks@,
        final(p).m == old(p).m,
        final(p).s == old(p).s,
        final(p).mutex_list@ == old(p).mutex_list@,
        final(p).semaphore_list@ == old(p).semaphore_list@,
        final(p).use_dead_lock == old(p).use_dead_lock,
{
    // No slot is ever vacated, so the lowest free index is the table's end.
    let id = match first_free(&p.condvar_list) {
        Some(i) => i,
        None => p.condvar_list.len(),
    };
    let ghost oq = queues(p.condvar_waiters@);
    p.condvar_list.push(Some(true));
    p.condvar_waiters.push(Vec::new());
    assert(queues(p.condvar_waiters@) =~= oq.push(Seq::empty()));
    let ghost cq = queues(p.condvar_waiters@);
    assert forall|c: int, j: int| 0 <= c < cq.len() && 0 <= j < cq[c].len() implies (
    #[trigger] cq[c][j]).0 < p.n() && cq[c][j].1 < p.m.k() by {
        assert(cq[c][j] == oq[c][j]);
    }
    assert(forall|i: int| 0 <= i < p.condvar_list@.len() ==> (#[trigger] p.condvar_list@[i]) is Some);
    id as isize
}

/// Turns the safety test on (`1`) or off (`0`); any other value is refused
/// with `INVALID_ARGUMENT` and changes nothing.
pub fn sys_enable_deadlock_detect(p: &mut Process, enabled: usize) -> (r: isize)
    requires
        old(p).wf(),
    ensures
        final(p).wf(),
        enabled == 1 ==> r == 0 && final(p).use_dead_lock,
        enabled == 0 ==> r == 0 && !final(p).use_dead_lock,
        enabled > 1 ==> r == INVALID_ARGUMENT && final(p).use_dead_lock == old(p).use_dead_lock,
        final(p).tasks == old(p).tasks,
        final(p).m == old(p).m,
        final(p).s == old(p).s,
        final(p).mutex_waiters == old(p).mutex_waiters,
        final(p).semaphore_waiters == old(p).semaphore_waiters,
        final(p).condvar_waiters == old(p).condvar_waiters,
        final(p).mutex_list == old(p).mutex_list,
        final(p).semaphore_list == old(p).semaphore_list,
        final(p).condvar_list == old(p).condvar_list,
{
    if enabled == 1 {
        p.use_dead_lock = true;
    } else if enabled == 0 {
        p.use_dead_lock = false;
    } else {
        return INVALID_ARGUMENT;
    }
    0
}

/// Puts task `tid` to sleep until `ms` milliseconds after `now_ms`, the
/// current time read from the timer.
pub fn sys_sleep(p: &mut Process, tid: usize, now_ms: usize, ms: usize) -> (r: isize)
    requires
        old(p).wf(),
        tid < old(p).n(),
        now_ms + ms <= usize::MAX,
    ensures
        final(p).wf(),
        r == 0,
        final(p).tasks@ == old(p).tasks@.update(tid as int, TaskState::Sleeping { until: (now_ms + ms) as usize }),
        final(p).m == old(p).m,
        final(p).s == old(p).s,
        final(p).mutex_waiters == old(p).mutex_waiters,
        final(p).semaphore_waiters == old(p).semaphore_waiters,
        final(p).condvar_waiters == old(p).condvar_waiters,
        final(p).mutex_list == old(p).mutex_list,
        final(p).semaphore_list == old(p).semaphore_list,
        final(p).condvar_list == old(p).condvar_list,
        final(p).use_dead_lock == old(p).use_dead_lock,
{
    let expire_ms = now_ms + ms;
    p.tasks.set(tid, TaskState::Sleeping { until: expire_ms });
    0
}

/// Wakes task `tid` when the timer has reached the time it sleeps until; any
/// other task, or a task whose time has not come, is left as it is.
pub fn timer_wake(p: &mut Process, tid: usize, now_ms: usize)
    requires
        old(p).wf(),
        tid < old(p).n(),
    ensures
        final(p).wf(),
        (match old(p).tasks@[tid as int] {
            TaskState::Sleeping { until } => until <= now_ms,
            _ => false,
        }) ==> final(p).tasks@ == old(p).tasks@.update(tid as int, TaskState::Ready),
        !(match old(p).tasks@[tid as int] {
            TaskState::Sleeping { until } => until <= now_ms,
            _ => false,
        }) ==> final(p).tasks@ == old(p).tasks@,
        final(p).m == old(p).m,
        final(p).s == old(p).s,
        final(p).mutex_waiters == old(p).mutex_waiters,
        final(p).semaphore_waiters == old(p).semaphore_waiters,
        final(p).condvar_waiters == old(p).condvar_waiters,
        final(p).use_dead_lock == old(p).use_dead_lock,
{
    match p.tasks[tid] {
        TaskState::Sleeping { until } => {
            if until <= now_ms {
                p.tasks.set(tid, TaskState::Ready);
            }
        },
        _ => {},
    }
}

/// The effect of a signal on condition variable `c`: with no waiter, nothing
/// changes; otherwise the first waiter leaves the queue and takes back its
/// mutex, at once if it is free (becoming ready), or else by queueing on it.
pub open spec fn signal_post(o: Process, f: Process, c: int) -> bool {
    let cq = queues(o.condvar_waiters@);
    let mq = queues(o.mutex_waiters@);
    if cq[c].len() == 0 {
        &&& queues(f.condvar_waiters@) == cq
        &&& f.m == o.m
        &&& f.tasks@ == o.tasks@
        &&& queues(f.mutex_waiters@) == mq
    } else {
        let w = cq[c][0].0 as int;
        let r = cq[c][0].1 as int;
        &&& queues(f.condvar_waiters@) == cq.update(c, cq[c].drop_first())
        &&& if o.m.available@[r] > 0 {
            &&& f.m.need_s() == settle_one(o.m.need_s(), w, r)
            &&& f.m.alloc_s() == bump(o.m.alloc_s(), w, r, 1)
            &&& f.m.available@ == o.m.available@.update(r, (o.m.available@[r] - 1) as u64)
            &&& f.m.capacity@ == o.m.capacity@
            &&& f.tasks@ == o.tasks@.update(w, TaskState::Ready)
            &&& queues(f.mutex_waiters@) == mq
        } else {
            &&& f.m == o.m
            &&& f.tasks@ == o.tasks@
            &&& queues(f.mutex_waiters@) == mq.update(r, mq[r].push(w as usize))
        }
    }
}

/// Wakes the first waiter of condition variable `condvar_id`, if any, which
/// then takes back the mutex it waited with.
pub fn sys_condvar_signal(p: &mut Process, condvar_id: usize) -> (r: isize)
    requires
        old(p).wf(),
        condvar_id < old(p).condvar_list@.len(),
    ensures
        final(p).wf(),
        r == 0,
        signal_post(*old(p), *final(p), condvar_id as int),
        final(p).s == old(p).s,
        final(p).semaphore_waiters == old(p).semaphore_waiters,
        final(p).mutex_list == old(p).mutex_list,
        final(p).semaphore_list == old(p).semaphore_list,
        final(p).condvar_list == old(p).condvar_list,
        final(p).use_dead_lock == old(p).use_dead_lock,
{
    let ghost cq = queues(p.condvar_waiters@);
    let ghost mq = queues(p.mutex_waiters@);
    let front = dequeue(&mut p.condvar_waiters, condvar_id);
    proof {
        let nq = queues(p.condvar_waiters@);
        assert forall|c: int, j: int| 0 <= c < nq.len() && 0 <= j < nq[c].len() implies (
        #[trigger] nq[c][j]).0 < p.n() && nq[c][j].1 < p.m.k() by {
            if c == condvar_id {
                assert(nq[c][j] == cq[c][j + 1]);
            } else {
                assert(nq[c][j] == cq[c][j]);
            }
        }
    }
    match front {
        Some((w, mid)) => {
            assert(cq[condvar_id as int][0].0 < p.n());
            if p.m.available[mid] > 0 {
                p.m.grant(w, mid);
                p.tasks.set(w, TaskState::Ready);
            } else {
                enqueue(&mut p.mutex_waiters, mid, w);
                assert forall|i: int, j: int|
                    0 <= i < queues(p.mutex_waiters@).len() && 0 <= j < queues(p.mutex_waiters@)[i].len()
                        implies (#[trigger] queues(p.mutex_waiters@)[i][j]) < p.n() by {
                    if i == mid && j == mq[i].len() {
                    } else {
                        assert(queues(p.mutex_waiters@)[i][j] == mq[i][j]);
                    }
                }
            }
        },
        None => {},
    }
    0
}

/// Task `tid`, holding mutex `mutex_id`, waits on condition variable
/// `condvar_id`: in one step it releases the mutex (handing it to the mutex's
/// first waiter, if any), records that it wants it back, joins the condition
/// variable's queue and blocks.
pub fn sys_condvar_wait(p: &mut Process, tid: usize, condvar_id: usize, mutex_id: usize) -> (r: isize)
    requires
        old(p).wf(),
        tid < old(p).n(),
        condvar_id < old(p).condvar_list@.len(),
        mutex_id < old(p).mutex_list@.len(),
        old(p).m.alloc_s()[tid as int][mutex_id as int] > 0,
        old(p).m.need_s()[tid as int][mutex_id as int] < u64::MAX,
    ensures
        final(p).wf(),
        r == 0,
        wait_post(
            old(p).m,
            final(p).m,
            queues(old(p).mutex_waiters@),
            queues(final(p).mutex_waiters@),
            old(p).tasks@,
            final(p).tasks@,
            tid as int,
            mutex_id as int,
        ),
        queues(final(p).condvar_waiters@) == queues(old(p).condvar_waiters@).update(
            condvar_id as int,
            queues(old(p).condvar_waiters@)[condvar_id as int].push((tid, mutex_id)),
        ),
        final(p).s == old(p).s,
        final(p).semaphore_waiters == old(p).semaphore_waiters,
        final(p).mutex_list == old(p).mutex_list,
        final(p).semaphore_list == old(p).semaphore_list,
        final(p).condvar_list == old(p).condvar_list,
        final(p).use_dead_lock == old(p).use_dead_lock,
{
    let ghost cq = queues(p.condvar_waiters@);
    release(&mut p.m, &mut p.mutex_waiters, &mut p.tasks, tid, mutex_id);
    p.m.request(tid, mutex_id);
    enqueue(&mut p.condvar_waiters, condvar_id, (tid, mutex_id));
    p.tasks.set(tid, TaskState::Blocked);
    proof {
        let nq = queues(p.condvar_waiters@);
        assert forall|c: int, j: int| 0 <= c < nq.len() && 0 <= j < nq[c].len() implies (
        #[trigger] nq[c][j]).0 < p.n() && nq[c][j].1 < p.m.k() by {
            if c == condvar_id && j == cq[c].len() {
            } else {
                assert(nq[c][j] == cq[c][j]);
            }
        }
    }
    0
}

} // verus!
