use vstd::prelude::*;

verus! {

/// The wait queues, one per resource, as sequences.
pub open spec fn queues<T>(qs: Seq<Vec<T>>) -> Seq<Seq<T>> {
    qs.map_values(|v: Vec<T>| v@)
}

/// Appends `x` at the back of queue `i`.
pub fn enqueue<T>(qs: &mut Vec<Vec<T>>, i: usize, x: T)
    requires
        i < old(qs)@.len(),
    ensures
        final(qs)@.len() == old(qs)@.len(),
        queues(final(qs)@) == queues(old(qs)@).update(i as int, queues(old(qs)@)[i as int].push(x)),
{
    let ghost before = queues(qs@);
    let mut q: Vec<T> = Vec::new();
    std::mem::swap(&mut qs[i], &mut q);
    q.push(x);
    std::mem::swap(&mut qs[i], &mut q);
    assert(queues(qs@) =~= before.update(i as int, before[i as int].push(x)));
}

/// Takes the front of queue `i`, if it has one.
pub fn dequeue<T>(qs: &mut Vec<Vec<T>>, i: usize) -> (r: Option<T>)
    requires
        i < old(qs)@.len(),
    ensures
        final(qs)@.len() == old(qs)@.len(),
        queues(old(qs)@)[i as int].len() == 0 ==> r is None && queues(final(qs)@) == queues(old(qs)@),
        queues(old(qs)@)[i as int].len() > 0 ==> r == Some(queues(old(qs)@)[i as int][0])
            && queues(final(qs)@) == queues(old(qs)@).update(
            i as int,
            queues(old(qs)@)[i as int].drop_first(),
        ),
{
    let ghost before = queues(qs@);
    let mut q: Vec<T> = Vec::new();
    std::mem::swap(&mut qs[i], &mut q);
    if q.len() == 0 {
        std::mem::swap(&mut qs[i], &mut q);
        assert(queues(qs@) =~= before);
        None
    } else {
        let x = q.remove(0);
        std::mem::swap(&mut qs[i], &mut q);
        assert(queues(qs@) =~= before.update(i as int, before[i as int].drop_first()));
        Some(x)
    }
}

/// Whether `i` is the lowest empty slot of `s`, or its length when no slot is empty.
pub open spec fn lowest_free<T>(s: Seq<Option<T>>, i: int) -> bool {
    &&& 0 <= i <= s.len()
    &&& i < s.len() ==> s[i] is None
    &&& forall|j: int| 0 <= j < i ==> (#[trigger] s[j]) is Some
}

/// The lowest empty slot of a resource table, if any.
pub fn first_free<T>(v: &Vec<Option<T>>) -> (r: Option<usize>)
    ensures
        r is Some ==> r->0 < v@.len() && lowest_free(v@, r->0 as int),
        r is None ==> lowest_free(v@, v@.len() as int),
{
    let mut i: usize = 0;
    while i < v.len()
        invariant
            i <= v@.len(),
            forall|j: int| 0 <= j < i ==> (#[trigger] v@[j]) is Some,
        decreases v@.len() - i,
    {
        if v[i].is_none() {
            return Some(i);
        }
        i += 1;
    }
    None
}

} // verus!
