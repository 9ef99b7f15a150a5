//! Ordering of texts as `str`'s `Ord` orders them (by code point, then by length), and a
//! stable sort by a text key.

use vstd::prelude::*;
use crate::text::chars_of;

verus! {

/// Whether `a` comes before `b`: at the first differing character the smaller code point,
/// or `a` a proper prefix of `b`.
pub open spec fn text_lt(a: Seq<char>, b: Seq<char>) -> bool
    decreases a.len(),
{
    if a.len() == 0 {
        b.len() > 0
    } else if b.len() == 0 {
        false
    } else if a[0] != b[0] {
        (a[0] as u32) < (b[0] as u32)
    } else {
        text_lt(a.drop_first(), b.drop_first())
    }
}

fn chars_lt(a: &Vec<char>, b: &Vec<char>) -> (r: bool)
    ensures
        r == text_lt(a@, b@),
{
    let mut i: usize = 0;
    assert(a@.subrange(0, a@.len() as int) =~= a@);
    assert(b@.subrange(0, b@.len() as int) =~= b@);
    while i < a.len() && i < b.len() && a[i] == b[i]
        invariant
            i <= a@.len(),
            i <= b@.len(),
            text_lt(a@, b@) == text_lt(a@.subrange(i as int, a@.len() as int), b@.subrange(i as int, b@.len() as int)),
        decreases a@.len() - i,
    {
        let ghost sa = a@.subrange(i as int, a@.len() as int);
        let ghost sb = b@.subrange(i as int, b@.len() as int);
        assert(sa.drop_first() =~= a@.subrange(i + 1, a@.len() as int));
        assert(sb.drop_first() =~= b@.subrange(i + 1, b@.len() as int));
        i = i + 1;
    }
    if i == a.len() {
        i < b.len()
    } else if i == b.len() {
        false
    } else {
        let ghost sa = a@.subrange(i as int, a@.len() as int);
        let ghost sb = b@.subrange(i as int, b@.len() as int);
        assert(sa[0] == a@[i as int] && sb[0] == b@[i as int]);
        (a[i] as u32) < (b[i] as u32)
    }
}

/// Whether text `a` comes before text `b`.
pub fn str_lt(a: &str, b: &str) -> (r: bool)
    ensures
        r == text_lt(a@, b@),
{
    chars_lt(&chars_of(a), &chars_of(b))
}

/// Something sorted by a text key.
pub trait TextKeyed: Sized {
    spec fn spec_text_key(&self) -> Seq<char>;

    fn text_key(&self) -> (r: &str)
        ensures
            r@ == self.spec_text_key(),
    ;
}

impl TextKeyed for String {
    open spec fn spec_text_key(&self) -> Seq<char> {
        self@
    }

    fn text_key(&self) -> (r: &str) {
        self.as_str()
    }
}

/// `x` placed after every element whose key does not come after its own, from the back.
pub open spec fn insert_by_text<T>(s: Seq<T>, x: T, key: spec_fn(T) -> Seq<char>) -> Seq<T>
    decreases s.len(),
{
    if s.len() == 0 || !text_lt(key(x), key(s.last())) {
        s.push(x)
    } else {
        insert_by_text(s.drop_last(), x, key).push(s.last())
    }
}

/// `s` ordered by key; equal keys keep their order.
pub open spec fn sort_by_text<T>(s: Seq<T>, key: spec_fn(T) -> Seq<char>) -> Seq<T>
    decreases s.len(),
{
    if s.len() == 0 {
        s
    } else {
        insert_by_text(sort_by_text(s.drop_last(), key), s.last(), key)
    }
}

/// The key of a keyed value.
pub open spec fn key_of<T: TextKeyed>() -> spec_fn(T) -> Seq<char> {
    |t: T| t.spec_text_key()
}

/// Sorting commutes with a map that keeps keys.
pub proof fn lemma_sort_map<A, B>(s: Seq<A>, f: spec_fn(A) -> B, ka: spec_fn(A) -> Seq<char>, kb: spec_fn(B) -> Seq<char>)
    requires
        forall|a: A| #[trigger] kb(f(a)) == ka(a),
    ensures
        sort_by_text(s, ka).map_values(f) == sort_by_text(s.map_values(f), kb),
    decreases s.len(),
{
    if s.len() > 0 {
        lemma_sort_map(s.drop_last(), f, ka, kb);
        assert(s.map_values(f).drop_last() =~= s.drop_last().map_values(f));
        lemma_insert_map(sort_by_text(s.drop_last(), ka), s.last(), f, ka, kb);
    }
}

proof fn lemma_insert_map<A, B>(s: Seq<A>, x: A, f: spec_fn(A) -> B, ka: spec_fn(A) -> Seq<char>, kb: spec_fn(B) -> Seq<char>)
    requires
        forall|a: A| #[trigger] kb(f(a)) == ka(a),
    ensures
        insert_by_text(s, x, ka).map_values(f) == insert_by_text(s.map_values(f), f(x), kb),
    decreases s.len(),
{
    if s.len() > 0 {
        assert(s.map_values(f).last() == f(s.last()));
        assert(kb(f(x)) == ka(x));
        assert(kb(f(s.last())) == ka(s.last()));
        if !text_lt(ka(x), ka(s.last())) {
            assert(s.push(x).map_values(f) =~= s.map_values(f).push(f(x)));
        } else {
            lemma_insert_map(s.drop_last(), x, f, ka, kb);
            assert(s.map_values(f).drop_last() =~= s.drop_last().map_values(f));
            assert(insert_by_text(s.drop_last(), x, ka).push(s.last()).map_values(f)
                =~= insert_by_text(s.drop_last(), x, ka).map_values(f).push(f(s.last())));
        }
    } else {
        assert(s.push(x).map_values(f) =~= s.map_values(f).push(f(x)));
    }
}

proof fn lemma_insert_at<T: TextKeyed>(s: Seq<T>, x: T, p: int)
    requires
        0 <= p <= s.len(),
        forall|k: int| p <= k < s.len() ==> text_lt(x.spec_text_key(), (#[trigger] s[k]).spec_text_key()),
        p == 0 || !text_lt(x.spec_text_key(), s[p - 1].spec_text_key()),
    ensures
        insert_by_text(s, x, key_of::<T>()) == s.subrange(0, p).push(x) + s.subrange(p, s.len() as int),
    decreases s.len(),
{
    if p == s.len() {
        assert(s.subrange(0, p) =~= s);
        assert(s.subrange(p, s.len() as int) =~= Seq::<T>::empty());
        assert(s.push(x) + Seq::<T>::empty() =~= s.push(x));
    } else {
        let d = s.drop_last();
        assert forall|k: int| p <= k < d.len() implies text_lt(x.spec_text_key(), (#[trigger] d[k]).spec_text_key()) by {
            assert(d[k] == s[k]);
        }
        lemma_insert_at(d, x, p);
        assert(d.subrange(0, p) =~= s.subrange(0, p));
        assert((d.subrange(0, p).push(x) + d.subrange(p, d.len() as int)).push(s.last())
            =~= s.subrange(0, p).push(x) + s.subrange(p, s.len() as int));
    }
}

/// Orders `v` by key, keeping the order of equal keys.
pub fn stable_sort_by_text<T: TextKeyed>(v: Vec<T>) -> (r: Vec<T>)
    ensures
        r@ == sort_by_text(v@, key_of::<T>()),
{
    let ghost orig = v@;
    let mut rest = v;
    let mut out: Vec<T> = Vec::new();
    let mut taken: usize = 0;
    assert(orig.subrange(0, 0) =~= Seq::<T>::empty());
    assert(orig.subrange(0, orig.len() as int) =~= orig);
    let total = rest.len();
    while rest.len() > 0
        invariant
            orig.len() == total,
            out@ == sort_by_text(orig.subrange(0, taken as int), key_of::<T>()),
            taken + rest@.len() == orig.len(),
            rest@ == orig.subrange(taken as int, orig.len() as int),
        decreases rest@.len(),
    {
        let x = rest.remove(0);
        assert(rest@ =~= orig.subrange(taken + 1, orig.len() as int));
        assert(x == orig[taken as int]);
        let mut p: usize = out.len();
        while p > 0 && str_lt(x.text_key(), out[p - 1].text_key())
            invariant
                p <= out@.len(),
                forall|k: int| p <= k < out@.len() ==> text_lt(x.spec_text_key(), (#[trigger] out@[k]).spec_text_key()),
            decreases p,
        {
            p = p - 1;
        }
        proof {
            lemma_insert_at(out@, x, p as int);
        }
        let ghost before_out = out@;
        out.insert(p, x);
        assert(out@ =~= before_out.subrange(0, p as int).push(x) + before_out.subrange(p as int, before_out.len() as int));
        let ghost pre = orig.subrange(0, taken + 1);
        assert(pre.drop_last() =~= orig.subrange(0, taken as int));
        assert(pre.last() == x);
        taken = taken + 1;
    }
    out
}

} // verus!
