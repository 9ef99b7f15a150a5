//! Stable ordering of rules by priority, lowest first.

use vstd::prelude::*;

verus! {

/// Something ordered by a numeric priority.
pub trait Prioritized: Sized {
    spec fn spec_priority(&self) -> u32;

    fn priority(&self) -> (r: u32)
        ensures
            r == self.spec_priority(),
    ;
}

/// `x` placed after every element whose priority is not above its own, counting from the back.
pub open spec fn insert_by_priority<T: Prioritized>(s: Seq<T>, x: T) -> Seq<T>
    decreases s.len(),
{
    if s.len() == 0 || s.last().spec_priority() <= x.spec_priority() {
        s.push(x)
    } else {
        insert_by_priority(s.drop_last(), x).push(s.last())
    }
}

/// `s` ordered by priority; elements of equal priority keep their order.
pub open spec fn sort_by_priority<T: Prioritized>(s: Seq<T>) -> Seq<T>
    decreases s.len(),
{
    if s.len() == 0 {
        s
    } else {
        insert_by_priority(sort_by_priority(s.drop_last()), s.last())
    }
}

proof fn lemma_insert_at<T: Prioritized>(s: Seq<T>, x: T, p: int)
    requires
        0 <= p <= s.len(),
        forall|k: int| p <= k < s.len() ==> (#[trigger] s[k]).spec_priority() > x.spec_priority(),
        p == 0 || s[p - 1].spec_priority() <= x.spec_priority(),
    ensures
        insert_by_priority(s, x) == s.subrange(0, p).push(x) + s.subrange(p, s.len() as int),
    decreases s.len(),
{
    if p == s.len() {
        assert(s.subrange(0, p) =~= s);
        assert(s.subrange(p, s.len() as int) =~= Seq::<T>::empty());
        assert(s.push(x) + Seq::<T>::empty() =~= s.push(x));
    } else {
        let d = s.drop_last();
        assert forall|k: int| p <= k < d.len() implies (#[trigger] d[k]).spec_priority() > x.spec_priority() by {
            assert(d[k] == s[k]);
        }
        lemma_insert_at(d, x, p);
        assert(d.subrange(0, p) =~= s.subrange(0, p));
        assert((d.subrange(0, p).push(x) + d.subrange(p, d.len() as int)).push(s.last())
            =~= s.subrange(0, p).push(x) + s.subrange(p, s.len() as int));
    }
}

/// Orders `v` by priority, keeping the order of equal priorities.
pub fn stable_sort_by_priority<T: Prioritized>(v: Vec<T>) -> (r: Vec<T>)
    ensures
        r@ == sort_by_priority(v@),
{
    let ghost orig = v@;
    let mut rest = v;
    let mut out: Vec<T> = Vec::new();
    let mut taken: usize = 0;
    assert(orig.subrange(0, 0) =~= Seq::<T>::empty());
    assert(orig.subrange(0, orig.len() as int) =~= orig);
    let total = rest.len();
    while rest.len() > 0
        invariant
            orig.len() == total,
            out@ == sort_by_priority(orig.subrange(0, taken as int)),
            taken + rest@.len() == orig.len(),
            rest@ == orig.subrange(taken as int, orig.len() as int),
        decreases rest@.len(),
    {
        let ghost before_rest = rest@;
        let x = rest.remove(0);
        assert(rest@ =~= orig.subrange(taken + 1, orig.len() as int));
        assert(x == orig[taken as int]);
        let xp = x.priority();
        let mut p: usize = out.len();
        while p > 0 && out[p - 1].priority() > xp
            invariant
                p <= out@.len(),
                xp == x.spec_priority(),
                forall|k: int| p <= k < out@.len() ==> (#[trigger] out@[k]).spec_priority() > x.spec_priority(),
            decreases p,
        {
            p = p - 1;
        }
        proof {
            lemma_insert_at(out@, x, p as int);
        }
        let ghost before_out = out@;
        out.insert(p, x);
        assert(out@ =~= before_out.subrange(0, p as int).push(x) + before_out.subrange(p as int, before_out.len() as int));
        let ghost pre = orig.subrange(0, taken + 1);
        assert(pre.drop_last() =~= orig.subrange(0, taken as int));
        assert(pre.last() == x);
        taken = taken + 1;
    }
    assert(orig.subrange(0, taken as int) =~= orig);
    out
}

pub proof fn lemma_insert_keeps<T: Prioritized>(s: Seq<T>, x: T, p: spec_fn(T) -> bool)
    requires
        forall|k: int| 0 <= k < s.len() ==> p(#[trigger] s[k]),
        p(x),
    ensures
        forall|k: int| 0 <= k < insert_by_priority(s, x).len() ==> p(#[trigger] insert_by_priority(s, x)[k]),
        insert_by_priority(s, x).len() == s.len() + 1,
    decreases s.len(),
{
    if s.len() > 0 && s.last().spec_priority() > x.spec_priority() {
        lemma_insert_keeps(s.drop_last(), x, p);
    }
}

/// Ordering keeps every property that all elements have, and the length.
pub proof fn lemma_sort_keeps<T: Prioritized>(s: Seq<T>, p: spec_fn(T) -> bool)
    requires
        forall|k: int| 0 <= k < s.len() ==> p(#[trigger] s[k]),
    ensures
        forall|k: int| 0 <= k < sort_by_priority(s).len() ==> p(#[trigger] sort_by_priority(s)[k]),
        sort_by_priority(s).len() == s.len(),
    decreases s.len(),
{
    if s.len() > 0 {
        lemma_sort_keeps(s.drop_last(), p);
        lemma_insert_keeps(sort_by_priority(s.drop_last()), s.last(), p);
    }
}

/// A list position with the priority of what stands there.
#[derive(Clone, Copy, Debug)]
pub struct IndexRef {
    pub index: usize,
    pub priority: u32,
}

impl Prioritized for IndexRef {
    open spec fn spec_priority(&self) -> u32 {
        self.priority
    }

    fn priority(&self) -> (r: u32) {
        self.priority
    }
}

} // verus!
