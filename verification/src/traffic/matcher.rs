//! Which rule entries a request's method and path can select, by API selectors.
//! Entries are indexed by method; exact text paths are looked up whole, other paths
//! are checked one by one.

use vstd::prelude::*;
use vstd::string::StrSliceExecFns;
use crate::keyed::{key_index, key_lookup, key_store, lemma_key_index, lemma_key_store_other, lemma_key_store_same};
use crate::plugins::router::rule::helper::{match_label_value, spec_match_label_value};
use crate::specification::{Api, MatchString, MatchStringType, ValueType};
use crate::text::str_equal;

verus! {

/// The method and path of a request, where known.
#[derive(Debug, Clone, PartialEq, Eq)]
pub struct ApiMatchInput {
    pub method: Option<String>,
    pub path: Option<String>,
}

/// A request's method and path as values.
pub struct InputView {
    pub method: Option<Seq<char>>,
    pub path: Option<Seq<char>>,
}

impl View for ApiMatchInput {
    type V = InputView;

    open spec fn view(&self) -> InputView {
        InputView {
            method: match self.method {
                Some(m) => Some(m@),
                None => None,
            },
            path: match self.path {
                Some(p) => Some(p@),
                None => None,
            },
        }
    }
}

impl ApiMatchInput {
    pub fn new(method: Option<String>, path: Option<String>) -> (r: ApiMatchInput)
        ensures
            r.method == method,
            r.path == path,
    {
        ApiMatchInput { method, path }
    }
}

/// Whether a selector names every method: empty or `*`.
pub open spec fn any_method(api: Api) -> bool {
    api.method@.len() == 0 || api.method@ == "*"@
}

/// Whether a request meets an API selector: its method, unless any; its path, if the
/// selector has one and the request has a path that meets it.
pub open spec fn spec_api_matches(input: InputView, api: Api) -> bool {
    &&& (any_method(api) || (input.method matches Some(m) && m == api.method@))
    &&& match api.path {
        None => true,
        Some(rule) => match input.path {
            None => false,
            Some(p) => spec_match_label_value(rule, p),
        },
    }
}

pub fn api_matches(input: &ApiMatchInput, api: &Api) -> (r: bool)
    ensures
        r == spec_api_matches(input@, *api),
{
    if api.method.as_str().unicode_len() != 0 && !str_equal(api.method.as_str(), "*") {
        match &input.method {
            Some(m) => {
                if !str_equal(m.as_str(), api.method.as_str()) {
                    return false;
                }
            },
            None => return false,
        }
    }
    match &api.path {
        None => true,
        Some(rule) => match &input.path {
            None => false,
            Some(p) => match_label_value(rule, p.clone()),
        },
    }
}

/// The exact text path of a selector, looked up whole by the index.
pub open spec fn exact_path(api: Api) -> Option<Seq<char>> {
    match api.path {
        Some(p) => if p.match_type == MatchStringType::Exact && p.value_type == ValueType::Text {
            Some(p.value@)
        } else {
            None
        },
        None => None,
    }
}

/// A selector whose path is neither absent nor an exact text.
pub open spec fn fallback_path(api: Api) -> bool {
    api.path.is_some() && exact_path(api).is_none()
}

/// Whether the index selects an entry's selector for a request: the method as the selector
/// says; no path; an exact text path equal to the request's; or any other path checked
/// with `api_matches`. (An exact text path `*` selects only the path `*`.)
pub open spec fn spec_index_matches(input: InputView, api: Api) -> bool {
    &&& (any_method(api) || (input.method matches Some(m) && m == api.method@))
    &&& path_hit(input, api)
}

/// The path part of selection: an exact text path equal to the request's; no path; or any
/// other path the request meets.
pub open spec fn path_hit(input: InputView, api: Api) -> bool {
    match exact_path(api) {
        Some(p) => input.path == Some(p),
        None => api.path.is_none() || spec_api_matches(input, api),
    }
}

/// Whether some selector of the bucket, of entry `o`, is selected by its path.
pub open spec fn bucket_hit(pairs: Seq<(usize, Api)>, bucket: spec_fn(Api) -> bool, input: InputView, o: usize) -> bool {
    exists|a: Api| #[trigger] pairs.contains((o, a)) && bucket(a) && path_hit(input, a)
}

proof fn lemma_concat_contains<T>(a: Seq<T>, b: Seq<T>, x: T)
    ensures
        (a + b).contains(x) <==> (a.contains(x) || b.contains(x)),
{
    if (a + b).contains(x) {
        let j = choose|j: int| 0 <= j < (a + b).len() && (a + b)[j] == x;
        if j < a.len() {
            assert(a[j] == x);
        } else {
            assert(b[j - a.len()] == x);
        }
    }
    if a.contains(x) {
        let j = choose|j: int| 0 <= j < a.len() && a[j] == x;
        assert((a + b)[j] == x);
    }
    if b.contains(x) {
        let j = choose|j: int| 0 <= j < b.len() && b[j] == x;
        assert((a + b)[a.len() + j] == x);
    }
}

/// Whether an entry is selected: it has no selector, or one of them is selected.
pub open spec fn spec_entry_hit(input: InputView, apis: Seq<Api>) -> bool {
    apis.len() == 0 || exists|i: int| 0 <= i < apis.len() && spec_index_matches(input, #[trigger] apis[i])
}

/// The selected entries, by position, in order.
pub open spec fn spec_candidates(input: InputView, entries: Seq<Seq<Api>>, k: int) -> Seq<usize>
    decreases k,
{
    if k <= 0 {
        Seq::empty()
    } else {
        let prev = spec_candidates(input, entries, k - 1);
        if spec_entry_hit(input, entries[k - 1]) {
            prev.push((k - 1) as usize)
        } else {
            prev
        }
    }
}

/// A selector with the position of its entry.
pub open spec fn tag(o: usize) -> spec_fn(Api) -> (usize, Api) {
    |a: Api| (o, a)
}

/// The selected positions are below the bound.
pub proof fn lemma_candidates_bound(input: InputView, entries: Seq<Seq<Api>>, k: int)
    ensures
        forall|i: int| 0 <= i < spec_candidates(input, entries, k).len() ==> (#[trigger] spec_candidates(input, entries, k)[i]) < k,
        spec_candidates(input, entries, k).len() <= if k < 0 { 0 } else { k },
    decreases k,
{
    if k > 0 {
        lemma_candidates_bound(input, entries, k - 1);
    }
}

/// Every selector with the position of its entry, entry after entry.
pub open spec fn flat(entries: Seq<Seq<Api>>) -> Seq<(usize, Api)>
    decreases entries.len(),
{
    if entries.len() == 0 {
        Seq::empty()
    } else {
        flat(entries.drop_last()) + entries.last().map_values(tag((entries.len() - 1) as usize))
    }
}

/// The pairs that meet a condition, in order.
pub open spec fn select(pairs: Seq<(usize, Api)>, pred: spec_fn((usize, Api)) -> bool) -> Seq<(usize, Api)>
    decreases pairs.len(),
{
    if pairs.len() == 0 {
        pairs
    } else if pred(pairs.last()) {
        select(pairs.drop_last(), pred).push(pairs.last())
    } else {
        select(pairs.drop_last(), pred)
    }
}

pub open spec fn orders(pairs: Seq<(usize, Api)>) -> Seq<usize> {
    pairs.map_values(|x: (usize, Api)| x.0)
}

proof fn lemma_select_member(pairs: Seq<(usize, Api)>, pred: spec_fn((usize, Api)) -> bool, x: (usize, Api))
    ensures
        select(pairs, pred).contains(x) <==> (pairs.contains(x) && pred(x)),
    decreases pairs.len(),
{
    if pairs.len() > 0 {
        lemma_select_member(pairs.drop_last(), pred, x);
        let d = pairs.drop_last();
        if pairs.contains(x) && x != pairs.last() {
            let j = choose|j: int| 0 <= j < pairs.len() && pairs[j] == x;
            assert(d[j] == x);
        }
        if d.contains(x) {
            let j = choose|j: int| 0 <= j < d.len() && d[j] == x;
            assert(pairs[j] == x);
        }
        if pred(pairs.last()) {
            let s = select(d, pred);
            if s.contains(x) {
                let j = choose|j: int| 0 <= j < s.len() && s[j] == x;
                assert(s.push(pairs.last())[j] == x);
            }
            if s.push(pairs.last()).contains(x) && x != pairs.last() {
                let j = choose|j: int| 0 <= j < s.len() + 1 && s.push(pairs.last())[j] == x;
                assert(j < s.len());
                assert(s[j] == x);
            }
            assert(s.push(pairs.last())[s.len() as int] == pairs.last());
        }
        assert(pairs[pairs.len() - 1] == pairs.last());
    }
}

proof fn lemma_orders_member(pairs: Seq<(usize, Api)>, o: usize)
    ensures
        orders(pairs).contains(o) <==> exists|a: Api| pairs.contains((o, a)),
{
    if orders(pairs).contains(o) {
        let j = choose|j: int| 0 <= j < orders(pairs).len() && orders(pairs)[j] == o;
        assert(pairs[j] == (o, pairs[j].1));
        assert(pairs.contains((o, pairs[j].1)));
    }
    if exists|a: Api| pairs.contains((o, a)) {
        let a = choose|a: Api| pairs.contains((o, a));
        let j = choose|j: int| 0 <= j < pairs.len() && pairs[j] == (o, a);
        assert(orders(pairs)[j] == o);
    }
}

proof fn lemma_flat_member(entries: Seq<Seq<Api>>, o: usize, a: Api)
    requires
        entries.len() <= usize::MAX,
    ensures
        flat(entries).contains((o, a)) <==> (o < entries.len() && entries[o as int].contains(a)),
    decreases entries.len(),
{
    if entries.len() > 0 {
        let d = entries.drop_last();
        lemma_flat_member(d, o, a);
        let n1 = (entries.len() - 1) as usize;
        let tail = entries.last().map_values(tag(n1));
        let f = flat(entries);
        assert(f == flat(d) + tail);
        if f.contains((o, a)) {
            let j = choose|j: int| 0 <= j < f.len() && f[j] == (o, a);
            if j < flat(d).len() {
                assert(flat(d)[j] == (o, a));
                assert(flat(d).contains((o, a)));
                assert(entries[o as int] == d[o as int]);
            } else {
                let k = j - flat(d).len();
                assert(tail[k] == (o, a));
                assert(o == n1);
                assert(entries[o as int] == entries.last());
                assert(entries[o as int][k] == a);
            }
        }
        if o < entries.len() && entries[o as int].contains(a) {
            let i = choose|i: int| 0 <= i < entries[o as int].len() && entries[o as int][i] == a;
            if o < d.len() {
                assert(d[o as int] == entries[o as int]);
                assert(d[o as int][i] == a);
                assert(d[o as int].contains(a));
                let j = choose|j: int| 0 <= j < flat(d).len() && flat(d)[j] == (o, a);
                assert(f[j] == (o, a));
            } else {
                assert(o == n1);
                assert(entries.last()[i] == a);
                assert(tail[i] == (o, a));
                assert(f[flat(d).len() + i] == (o, a));
            }
        }
    }
}

/// Entries under exact text paths, looked up by the whole path.
pub struct PathTrie {
    paths: Vec<(String, Vec<usize>)>,
}

impl View for PathTrie {
    type V = Seq<(Seq<char>, Seq<usize>)>;

    closed spec fn view(&self) -> Seq<(Seq<char>, Seq<usize>)> {
        self.paths@.map_values(|e: (String, Vec<usize>)| (e.0@, e.1@))
    }
}

/// The entries kept under a path, none if the path is not kept.
pub open spec fn trie_lookup(t: Seq<(Seq<char>, Seq<usize>)>, path: Seq<char>) -> Seq<usize> {
    match key_lookup(t, path) {
        Some(v) => v,
        None => Seq::empty(),
    }
}

impl PathTrie {
    pub fn new() -> (r: PathTrie)
        ensures
            r@.len() == 0,
    {
        let r = PathTrie { paths: Vec::new() };
        assert(r@ =~= Seq::<(Seq<char>, Seq<usize>)>::empty());
        r
    }

    fn find(&self, path: &str) -> (r: Option<usize>)
        ensures
            match r {
                Some(j) => key_index(self@, path@) == Some(j as int),
                None => key_index(self@, path@).is_none(),
            },
    {
        let mut i: usize = self.paths.len();
        let ghost all = self@;
        assert(all.subrange(0, all.len() as int) =~= all);
        while i > 0
            invariant
                i <= self.paths@.len(),
                all == self@,
                all.len() == self.paths@.len(),
                key_index(all, path@) == key_index(all.subrange(0, i as int), path@),
            decreases i,
        {
            let ghost pre = all.subrange(0, i as int);
            assert(pre.drop_last() =~= all.subrange(0, i - 1));
            if str_equal(self.paths[i - 1].0.as_str(), path) {
                return Some(i - 1);
            }
            i = i - 1;
        }
        None
    }

    /// Keeps an entry under a path.
    pub fn insert(&mut self, path: &str, order: usize)
        ensures
            final(self)@ == key_store(old(self)@, path@, trie_lookup(old(self)@, path@).push(order)),
    {
        let ghost before = self@;
        proof {
            lemma_key_index(before, path@);
        }
        match self.find(path) {
            Some(j) => {
                let (p, mut v) = self.paths.remove(j);
                v.push(order);
                self.paths.insert(j, (p, v));
                assert(self@ =~= before.update(j as int, (path@, trie_lookup(before, path@).push(order))));
            },
            None => {
                let mut v: Vec<usize> = Vec::new();
                v.push(order);
                self.paths.push((String::from_str(path), v));
                assert(self@ =~= before.push((path@, trie_lookup(before, path@).push(order))));
            },
        }
    }

    /// Adds the entries kept under a path to `output`.
    pub fn exact_candidates(&self, path: &str, output: &mut Vec<usize>)
        ensures
            final(output)@ == old(output)@ + trie_lookup(self@, path@),
    {
        proof {
            lemma_key_index(self@, path@);
        }
        match self.find(path) {
            Some(j) => {
                let found = &self.paths[j].1;
                let mut k: usize = 0;
                let ghost start = output@;
                while k < found.len()
                    invariant
                        k <= found@.len(),
                        output@ == start + found@.subrange(0, k as int),
                    decreases found@.len() - k,
                {
                    output.push(found[k]);
                    k = k + 1;
                    assert(output@ =~= start + found@.subrange(0, k as int));
                }
                assert(found@.subrange(0, found@.len() as int) =~= found@);
            },
            None => {
                assert(output@ =~= output@ + Seq::<usize>::empty());
            },
        }
    }
}

/// Entries of one method (or of any method): without path, by exact path, and the rest.
pub struct MethodApiIndex {
    pathless: Vec<usize>,
    exact_paths: PathTrie,
    fallback_paths: Vec<(usize, Api)>,
}

pub open spec fn pathless_pred(bucket: spec_fn(Api) -> bool) -> spec_fn((usize, Api)) -> bool {
    |x: (usize, Api)| bucket(x.1) && x.1.path.is_none()
}

pub open spec fn exact_pred(bucket: spec_fn(Api) -> bool, p: Seq<char>) -> spec_fn((usize, Api)) -> bool {
    |x: (usize, Api)| bucket(x.1) && exact_path(x.1) == Some(p)
}

pub open spec fn fallback_pred(bucket: spec_fn(Api) -> bool) -> spec_fn((usize, Api)) -> bool {
    |x: (usize, Api)| bucket(x.1) && fallback_path(x.1)
}

impl MethodApiIndex {
    /// The index holds exactly the selectors of `pairs` that fall in the bucket.
    pub closed spec fn holds(&self, pairs: Seq<(usize, Api)>, bucket: spec_fn(Api) -> bool) -> bool {
        &&& self.pathless@ == orders(select(pairs, pathless_pred(bucket)))
        &&& forall|p: Seq<char>| #[trigger] trie_lookup(self.exact_paths@, p) == orders(select(pairs, exact_pred(bucket, p)))
        &&& self.fallback_paths@ == select(pairs, fallback_pred(bucket))
    }

    pub fn new() -> (r: MethodApiIndex)
        ensures
            forall|bucket: spec_fn(Api) -> bool| #[trigger] r.holds(Seq::empty(), bucket),
    {
        let r = MethodApiIndex { pathless: Vec::new(), exact_paths: PathTrie::new(), fallback_paths: Vec::new() };
        assert forall|bucket: spec_fn(Api) -> bool| #[trigger] r.holds(Seq::empty(), bucket) by {
            assert(r.pathless@ =~= orders(select(Seq::empty(), pathless_pred(bucket))));
            assert forall|p: Seq<char>| #[trigger] trie_lookup(r.exact_paths@, p) == orders(select(Seq::empty(), exact_pred(bucket, p))) by {
                assert(orders(select(Seq::empty(), exact_pred(bucket, p))) =~= Seq::<usize>::empty());
            }
        }
        r
    }

    /// Takes in a selector of the bucket.
    fn insert(&mut self, order: usize, api: &Api, Ghost(pairs): Ghost<Seq<(usize, Api)>>, Ghost(bucket): Ghost<spec_fn(Api) -> bool>)
        requires
            old(self).holds(pairs, bucket),
            bucket(*api),
        ensures
            final(self).holds(pairs.push((order, *api)), bucket),
    {
        let ghost x = (order, *api);
        let ghost np = pairs.push(x);
        assert(np.drop_last() =~= pairs);
        match &api.path {
            None => {
                self.pathless.push(order);
                assert(self.pathless@ =~= orders(select(np, pathless_pred(bucket))));
                assert forall|p: Seq<char>| #[trigger] trie_lookup(self.exact_paths@, p) == orders(select(np, exact_pred(bucket, p))) by {
                    lemma_select_skip(pairs, exact_pred(bucket, p), x);
                }
                proof {
                    lemma_select_skip(pairs, fallback_pred(bucket), x);
                }
            },
            Some(path) => {
                if path.match_type == MatchStringType::Exact && path.value_type == ValueType::Text {
                    let ghost before = self.exact_paths@;
                    self.exact_paths.insert(path.value.as_str(), order);
                    proof {
                        lemma_select_skip(pairs, pathless_pred(bucket), x);
                        lemma_select_skip(pairs, fallback_pred(bucket), x);
                    }
                    assert(self.pathless@ == orders(select(np, pathless_pred(bucket))));
                    assert forall|p: Seq<char>| #[trigger] trie_lookup(self.exact_paths@, p) == orders(select(np, exact_pred(bucket, p))) by {
                        if p == path.value@ {
                            lemma_key_store_same(before, p, trie_lookup(before, p).push(order));
                            assert(exact_pred(bucket, p)(x));
                            assert(select(np, exact_pred(bucket, p)) == select(pairs, exact_pred(bucket, p)).push(x));
                            assert(trie_lookup(before, p) == orders(select(pairs, exact_pred(bucket, p))));
                            assert(orders(select(pairs, exact_pred(bucket, p)).push(x)) =~= orders(select(pairs, exact_pred(bucket, p))).push(order));
                            assert(orders(select(np, exact_pred(bucket, p))) =~= orders(select(pairs, exact_pred(bucket, p))).push(order));
                        } else {
                            lemma_key_store_other(before, path.value@, trie_lookup(before, path.value@).push(order), p);
                            lemma_select_skip(pairs, exact_pred(bucket, p), x);
                            assert(trie_lookup(before, p) == orders(select(pairs, exact_pred(bucket, p))));
                        }
                    }
                    assert(self.fallback_paths@ == select(np, fallback_pred(bucket)));
                } else {
                    self.fallback_paths.push((order, api.duplicate()));
                    proof {
                        lemma_select_skip(pairs, pathless_pred(bucket), x);
                    }
                    assert(self.pathless@ == orders(select(np, pathless_pred(bucket))));
                    assert forall|p: Seq<char>| #[trigger] trie_lookup(self.exact_paths@, p) == orders(select(np, exact_pred(bucket, p))) by {
                        lemma_select_skip(pairs, exact_pred(bucket, p), x);
                    }
                    assert(self.fallback_paths@ =~= select(np, fallback_pred(bucket)));
                }
            },
        }
    }

    /// What the bucket adds for a request is exactly the entries with a selector of the
    /// bucket selected by its path.
    proof fn lemma_contrib(&self, pairs: Seq<(usize, Api)>, bucket: spec_fn(Api) -> bool, input: InputView, o: usize)
        requires
            self.holds(pairs, bucket),
        ensures
            (self.pathless@ + (match input.path {
                Some(p) => trie_lookup(self.exact_paths@, p),
                None => Seq::empty(),
            }) + orders(select(self.fallback_paths@, |x: (usize, Api)| spec_api_matches(input, x.1)))).contains(o)
            <==> bucket_hit(pairs, bucket, input, o),
    {
        let am = |x: (usize, Api)| spec_api_matches(input, x.1);
        let ex = match input.path {
            Some(p) => trie_lookup(self.exact_paths@, p),
            None => Seq::<usize>::empty(),
        };
        let fb = orders(select(self.fallback_paths@, am));
        lemma_concat_contains(self.pathless@ + ex, fb, o);
        lemma_concat_contains(self.pathless@, ex, o);
        lemma_orders_select(pairs, pathless_pred(bucket), o);
        lemma_orders_select(self.fallback_paths@, am, o);
        match input.path {
            Some(p) => {
                assert(trie_lookup(self.exact_paths@, p) == orders(select(pairs, exact_pred(bucket, p))));
                lemma_orders_select(pairs, exact_pred(bucket, p), o);
            },
            None => {},
        }
        if bucket_hit(pairs, bucket, input, o) {
            let a = choose|a: Api| #[trigger] pairs.contains((o, a)) && bucket(a) && path_hit(input, a);
            match exact_path(a) {
                Some(p) => {
                    assert(exact_pred(bucket, p)((o, a)));
                },
                None => {
                    if a.path.is_none() {
                        assert(pathless_pred(bucket)((o, a)));
                    } else {
                        assert(fallback_pred(bucket)((o, a)));
                        lemma_select_member(pairs, fallback_pred(bucket), (o, a));
                        assert(self.fallback_paths@.contains((o, a)) && am((o, a)));
                    }
                },
            }
        }
        if fb.contains(o) {
            let a = choose|a: Api| #[trigger] self.fallback_paths@.contains((o, a)) && am((o, a));
            lemma_select_member(pairs, fallback_pred(bucket), (o, a));
            assert(pairs.contains((o, a)) && bucket(a) && path_hit(input, a));
        }
        if (self.pathless@).contains(o) {
            let a = choose|a: Api| #[trigger] pairs.contains((o, a)) && pathless_pred(bucket)((o, a));
            assert(pairs.contains((o, a)) && bucket(a) && path_hit(input, a));
        }
        if ex.contains(o) {
            let p = input.path.unwrap();
            let a = choose|a: Api| #[trigger] pairs.contains((o, a)) && exact_pred(bucket, p)((o, a));
            assert(pairs.contains((o, a)) && bucket(a) && path_hit(input, a));
        }
    }

    /// Adds the entries the bucket selects for the request to `output`: those without path,
    /// those under the request's exact path, and the others whose selector the request meets.
    fn candidates(&self, input: &ApiMatchInput, output: &mut Vec<usize>)
        ensures
            final(output)@ == old(output)@ + self.pathless@ + (match input@.path {
                Some(p) => trie_lookup(self.exact_paths@, p),
                None => Seq::empty(),
            }) + orders(select(self.fallback_paths@, |x: (usize, Api)| spec_api_matches(input@, x.1))),
    {
        let ghost start = output@;
        let mut i: usize = 0;
        while i < self.pathless.len()
            invariant
                i <= self.pathless@.len(),
                output@ == start + self.pathless@.subrange(0, i as int),
            decreases self.pathless@.len() - i,
        {
            output.push(self.pathless[i]);
            i = i + 1;
            assert(output@ =~= start + self.pathless@.subrange(0, i as int));
        }
        assert(self.pathless@.subrange(0, self.pathless@.len() as int) =~= self.pathless@);
        let ghost mid = output@;
        match &input.path {
            Some(p) => self.exact_paths.exact_candidates(p.as_str(), output),
            None => {
                assert(output@ =~= mid + Seq::<usize>::empty());
            },
        }
        let ghost mid2 = output@;
        let ghost pred = |x: (usize, Api)| spec_api_matches(input@, x.1);
        let mut k: usize = 0;
        while k < self.fallback_paths.len()
            invariant
                k <= self.fallback_paths@.len(),
                pred == (|x: (usize, Api)| spec_api_matches(input@, x.1)),
                output@ == mid2 + orders(select(self.fallback_paths@.subrange(0, k as int), pred)),
            decreases self.fallback_paths@.len() - k,
        {
            let ghost pre = self.fallback_paths@.subrange(0, k + 1);
            assert(pre.drop_last() =~= self.fallback_paths@.subrange(0, k as int));
            let entry = &self.fallback_paths[k];
            if api_matches(input, &entry.1) {
                output.push(entry.0);
            }
            assert(output@ =~= mid2 + orders(select(pre, pred)));
            k = k + 1;
        }
        assert(self.fallback_paths@.subrange(0, self.fallback_paths@.len() as int) =~= self.fallback_paths@);
    }
}

/// Bucket of selectors for every method.
pub open spec fn wildcard_bucket() -> spec_fn(Api) -> bool {
    |a: Api| any_method(a)
}

/// Bucket of selectors for the method `m`.
pub open spec fn method_bucket(m: Seq<char>) -> spec_fn(Api) -> bool {
    |a: Api| !any_method(a) && a.method@ == m
}

/// The pairs of a method's bucket.
pub open spec fn in_method(m: Seq<char>) -> spec_fn((usize, Api)) -> bool {
    |x: (usize, Api)| !any_method(x.1) && x.1.method@ == m
}

proof fn lemma_orders_select(pairs: Seq<(usize, Api)>, pred: spec_fn((usize, Api)) -> bool, o: usize)
    ensures
        orders(select(pairs, pred)).contains(o) <==> exists|a: Api| #[trigger] pairs.contains((o, a)) && pred((o, a)),
{
    lemma_orders_member(select(pairs, pred), o);
    if orders(select(pairs, pred)).contains(o) {
        let a = choose|a: Api| select(pairs, pred).contains((o, a));
        lemma_select_member(pairs, pred, (o, a));
    }
    if exists|a: Api| #[trigger] pairs.contains((o, a)) && pred((o, a)) {
        let a = choose|a: Api| #[trigger] pairs.contains((o, a)) && pred((o, a));
        lemma_select_member(pairs, pred, (o, a));
    }
}

proof fn lemma_select_skip(pairs: Seq<(usize, Api)>, pred: spec_fn((usize, Api)) -> bool, x: (usize, Api))
    requires
        !pred(x),
    ensures
        select(pairs.push(x), pred) == select(pairs, pred),
{
    assert(pairs.push(x).drop_last() =~= pairs);
}

proof fn lemma_select_empty(pairs: Seq<(usize, Api)>, p1: spec_fn((usize, Api)) -> bool, p2: spec_fn((usize, Api)) -> bool)
    requires
        select(pairs, p1).len() == 0,
        forall|x: (usize, Api)| #[trigger] p2(x) ==> p1(x),
    ensures
        select(pairs, p2).len() == 0,
{
    if select(pairs, p2).len() > 0 {
        let x = select(pairs, p2)[0];
        assert(select(pairs, p2).contains(x));
        lemma_select_member(pairs, p2, x);
        lemma_select_member(pairs, p1, x);
    }
}

impl MethodApiIndex {
    proof fn lemma_holds_skip(&self, pairs: Seq<(usize, Api)>, bucket: spec_fn(Api) -> bool, x: (usize, Api))
        requires
            self.holds(pairs, bucket),
            !bucket(x.1),
        ensures
            self.holds(pairs.push(x), bucket),
    {
        lemma_select_skip(pairs, pathless_pred(bucket), x);
        lemma_select_skip(pairs, fallback_pred(bucket), x);
        assert forall|p: Seq<char>| #[trigger] trie_lookup(self.exact_paths@, p) == orders(select(pairs.push(x), exact_pred(bucket, p))) by {
            lemma_select_skip(pairs, exact_pred(bucket, p), x);
        }
    }

    proof fn lemma_empty_holds(&self, pairs: Seq<(usize, Api)>, m: Seq<char>)
        requires
            self.holds(Seq::empty(), method_bucket(m)),
            select(pairs, in_method(m)).len() == 0,
        ensures
            self.holds(pairs, method_bucket(m)),
    {
        lemma_select_empty(pairs, in_method(m), pathless_pred(method_bucket(m)));
        lemma_select_empty(pairs, in_method(m), fallback_pred(method_bucket(m)));
        assert(self.pathless@ =~= orders(select(pairs, pathless_pred(method_bucket(m)))));
        assert(self.fallback_paths@ =~= select(pairs, fallback_pred(method_bucket(m))));
        assert forall|p: Seq<char>| #[trigger] trie_lookup(self.exact_paths@, p) == orders(select(pairs, exact_pred(method_bucket(m), p))) by {
            lemma_select_empty(pairs, in_method(m), exact_pred(method_bucket(m), p));
            assert(trie_lookup(self.exact_paths@, p) == orders(select(Seq::<(usize, Api)>::empty(), exact_pred(method_bucket(m), p))));
            assert(orders(select(pairs, exact_pred(method_bucket(m), p))) =~= Seq::<usize>::empty());
        }
    }
}

/// Rule entries indexed by their API selectors.
pub struct ApiMatchIndex {
    entries: Ghost<Seq<Seq<Api>>>,
    entry_count: usize,
    match_all: Vec<usize>,
    wildcard_method: MethodApiIndex,
    methods: Vec<(String, MethodApiIndex)>,
}

impl ApiMatchIndex {
    /// The buckets hold exactly the selector pairs.
    pub closed spec fn indexes_pairs(&self, pairs: Seq<(usize, Api)>) -> bool {
        &&& self.wildcard_method.holds(pairs, wildcard_bucket())
        &&& forall|i: int, j: int| 0 <= i < j < self.methods@.len() ==> (#[trigger] self.methods@[i]).0@ != (#[trigger] self.methods@[j]).0@
        &&& forall|i: int| 0 <= i < self.methods@.len() ==>
            (#[trigger] self.methods@[i]).1.holds(pairs, method_bucket(self.methods@[i].0@))
        &&& forall|m: Seq<char>| (forall|i: int| 0 <= i < self.methods@.len() ==> (#[trigger] self.methods@[i]).0@ != m)
            ==> #[trigger] select(pairs, in_method(m)).len() == 0
    }

    /// The selectors of the indexed entries.
    pub closed spec fn spec_entries(&self) -> Seq<Seq<Api>> {
        self.entries@
    }

    /// The index holds exactly its entries.
    pub closed spec fn wf(&self) -> bool {
        self.indexes(self.entries@) && self.entries@.len() <= usize::MAX
    }

    /// The index holds exactly the entries.
    pub closed spec fn indexes(&self, entries: Seq<Seq<Api>>) -> bool {
        &&& self.entry_count == entries.len()
        &&& forall|o: usize| #[trigger] self.match_all@.contains(o) <==> (o < entries.len() && entries[o as int].len() == 0)
        &&& self.indexes_pairs(flat(entries))
    }

    fn find_method(&self, m: &str) -> (r: Option<usize>)
        ensures
            match r {
                Some(j) => j < self.methods@.len() && self.methods@[j as int].0@ == m@,
                None => forall|i: int| 0 <= i < self.methods@.len() ==> (#[trigger] self.methods@[i]).0@ != m@,
            },
    {
        let mut i: usize = 0;
        while i < self.methods.len()
            invariant
                i <= self.methods@.len(),
                forall|k: int| 0 <= k < i ==> (#[trigger] self.methods@[k]).0@ != m@,
            decreases self.methods@.len() - i,
        {
            if str_equal(self.methods[i].0.as_str(), m) {
                return Some(i);
            }
            i = i + 1;
        }
        None
    }

    /// Takes in one selector of an entry.
    fn insert_api(&mut self, order: usize, api: &Api, Ghost(pairs): Ghost<Seq<(usize, Api)>>)
        requires
            old(self).indexes_pairs(pairs),
        ensures
            final(self).indexes_pairs(pairs.push((order, *api))),
            final(self).entry_count == old(self).entry_count,
            final(self).match_all@ == old(self).match_all@,
            final(self).entries == old(self).entries,
    {
        let ghost x = (order, *api);
        let ghost np = pairs.push(x);
        let ghost methods0 = self.methods@;
        if api.method.as_str().unicode_len() == 0 || str_equal(api.method.as_str(), "*") {
            self.wildcard_method.insert(order, api, Ghost(pairs), Ghost(wildcard_bucket()));
            assert(self.methods@ == methods0);
            assert forall|i: int| 0 <= i < self.methods@.len() implies
                (#[trigger] self.methods@[i]).1.holds(np, method_bucket(self.methods@[i].0@)) by {
                self.methods@[i].1.lemma_holds_skip(pairs, method_bucket(self.methods@[i].0@), x);
            }
            assert forall|m: Seq<char>| (forall|i: int| 0 <= i < self.methods@.len() ==> (#[trigger] self.methods@[i]).0@ != m)
                implies #[trigger] select(np, in_method(m)).len() == 0 by {
                lemma_select_skip(pairs, in_method(m), x);
                assert(select(pairs, in_method(m)).len() == 0);
            }
        } else {
            let ghost m = api.method@;
            proof {
                self.wildcard_method.lemma_holds_skip(pairs, wildcard_bucket(), x);
            }
            let ghost old_methods = self.methods@;
            match self.find_method(api.method.as_str()) {
                Some(j) => {
                    let (name, mut index) = self.methods.remove(j);
                    index.insert(order, api, Ghost(pairs), Ghost(method_bucket(m)));
                    self.methods.insert(j, (name, index));
                    assert(self.methods@.len() == old_methods.len());
                    assert forall|i: int| 0 <= i < self.methods@.len() && i != j implies self.methods@[i] == old_methods[i] by {}
                    assert forall|i: int| 0 <= i < self.methods@.len() implies
                        (#[trigger] self.methods@[i]).1.holds(np, method_bucket(self.methods@[i].0@)) by {
                        if i != j {
                            old_methods[i].1.lemma_holds_skip(pairs, method_bucket(old_methods[i].0@), x);
                        }
                    }
                    assert forall|i: int, k: int| 0 <= i < k < self.methods@.len() implies
                        (#[trigger] self.methods@[i]).0@ != (#[trigger] self.methods@[k]).0@ by {
                        assert(self.methods@[i].0@ == old_methods[i].0@);
                        assert(self.methods@[k].0@ == old_methods[k].0@);
                    }
                    assert forall|mm: Seq<char>| (forall|i: int| 0 <= i < self.methods@.len() ==> (#[trigger] self.methods@[i]).0@ != mm)
                        implies #[trigger] select(np, in_method(mm)).len() == 0 by {
                        assert(self.methods@[j as int].0@ == m);
                        assert forall|i: int| 0 <= i < old_methods.len() implies (#[trigger] old_methods[i]).0@ != mm by {
                            assert(self.methods@[i].0@ == old_methods[i].0@);
                        }
                        lemma_select_skip(pairs, in_method(mm), x);
                    }
                },
                None => {
                    let mut index = MethodApiIndex::new();
                    assert(index.holds(Seq::empty(), method_bucket(m)));
                    proof {
                        index.lemma_empty_holds(pairs, m);
                    }
                    index.insert(order, api, Ghost(pairs), Ghost(method_bucket(m)));
                    self.methods.push((api.method.clone(), index));
                    assert forall|i: int| 0 <= i < self.methods@.len() implies
                        (#[trigger] self.methods@[i]).1.holds(np, method_bucket(self.methods@[i].0@)) by {
                        if i < old_methods.len() {
                            assert(self.methods@[i] == old_methods[i]);
                            old_methods[i].1.lemma_holds_skip(pairs, method_bucket(old_methods[i].0@), x);
                        }
                    }
                    assert forall|i: int, k: int| 0 <= i < k < self.methods@.len() implies
                        (#[trigger] self.methods@[i]).0@ != (#[trigger] self.methods@[k]).0@ by {
                        if k == old_methods.len() {
                            assert(self.methods@[i] == old_methods[i]);
                        } else {
                            assert(self.methods@[i] == old_methods[i]);
                            assert(self.methods@[k] == old_methods[k]);
                        }
                    }
                    assert forall|mm: Seq<char>| (forall|i: int| 0 <= i < self.methods@.len() ==> (#[trigger] self.methods@[i]).0@ != mm)
                        implies #[trigger] select(np, in_method(mm)).len() == 0 by {
                        assert(self.methods@[old_methods.len() as int].0@ == m);
                        assert forall|i: int| 0 <= i < old_methods.len() implies (#[trigger] old_methods[i]).0@ != mm by {
                            assert(self.methods@[i] == old_methods[i]);
                        }
                        lemma_select_skip(pairs, in_method(mm), x);
                    }
                },
            }
        }
    }

    /// Indexes the entries, each a list of API selectors (none selects every request).
    pub fn new(entries: &Vec<Vec<Api>>) -> (r: ApiMatchIndex)
        ensures
            r.wf(),
            r.spec_entries() == entries@.map_values(|v: Vec<Api>| v@),
    {
        let ghost ev = entries@.map_values(|v: Vec<Api>| v@);
        let mut index = ApiMatchIndex {
            entries: Ghost(ev),
            entry_count: 0,
            match_all: Vec::new(),
            wildcard_method: MethodApiIndex::new(),
            methods: Vec::new(),
        };
        assert(index.wildcard_method.holds(Seq::empty(), wildcard_bucket()));
        assert(ev.subrange(0, 0) =~= Seq::<Seq<Api>>::empty());
        assert forall|m: Seq<char>| #[trigger] select(flat(ev.subrange(0, 0)), in_method(m)).len() == 0 by {
            assert(flat(ev.subrange(0, 0)) =~= Seq::<(usize, Api)>::empty());
        }
        assert(index.indexes(ev.subrange(0, 0)));
        let mut o: usize = 0;
        while o < entries.len()
            invariant
                o <= entries@.len(),
                ev == entries@.map_values(|v: Vec<Api>| v@),
                index.entries@ == ev,
                index.indexes(ev.subrange(0, o as int)),
            decreases entries@.len() - o,
        {
            let apis = &entries[o];
            let ghost pre = ev.subrange(0, o + 1);
            assert(pre.drop_last() =~= ev.subrange(0, o as int));
            assert(pre.last() == apis@);
            let ghost base = flat(ev.subrange(0, o as int));
            let ghost full = flat(pre);
            assert(full == base + apis@.map_values(tag(o)));
            assert(index.indexes_pairs(base));
            if apis.len() == 0 {
                let ghost ma = index.match_all@;
                let ghost w = index.wildcard_method;
                let ghost ms = index.methods@;
                index.match_all.push(o);
                assert(index.wildcard_method == w);
                assert(index.methods@ == ms);
                assert(full =~= base);
                assert(index.indexes_pairs(full));
                assert forall|q: usize| #[trigger] index.match_all@.contains(q) <==> (ma.contains(q) || q == o) by {
                    if index.match_all@.contains(q) {
                        let j = choose|j: int| 0 <= j < index.match_all@.len() && index.match_all@[j] == q;
                        if j < ma.len() {
                            assert(ma[j] == q);
                        }
                    }
                    if ma.contains(q) {
                        let j = choose|j: int| 0 <= j < ma.len() && ma[j] == q;
                        assert(index.match_all@[j] == q);
                    }
                    if q == o {
                        assert(index.match_all@[ma.len() as int] == q);
                    }
                }
            } else {
                let mut k: usize = 0;
                assert(base + apis@.subrange(0, 0).map_values(tag(o)) =~= base);
                while k < apis.len()
                    invariant
                        k <= apis@.len(),
                        o < entries@.len(),
                        index.entries@ == ev,
                        apis@.len() > 0,
                        index.entry_count == o,
                        forall|q: usize| #[trigger] index.match_all@.contains(q) <==> (q < o && ev[q as int].len() == 0),
                        index.indexes_pairs(base + apis@.subrange(0, k as int).map_values(tag(o))),
                    decreases apis@.len() - k,
                {
                    let ghost cur = base + apis@.subrange(0, k as int).map_values(tag(o));
                    index.insert_api(o, &apis[k], Ghost(cur));
                    assert(cur.push((o, apis@[k as int])) =~= base + apis@.subrange(0, k + 1).map_values(tag(o)));
                    k = k + 1;
                }
                assert(apis@.subrange(0, apis@.len() as int) =~= apis@);
                assert(base + apis@.subrange(0, apis@.len() as int).map_values(tag(o)) =~= full);
                assert(index.indexes_pairs(full));
            }
            let ghost w2 = index.wildcard_method;
            let ghost ms2 = index.methods@;
            index.entry_count = o + 1;
            assert(index.wildcard_method == w2);
            assert(index.methods@ == ms2);
            assert(index.indexes_pairs(flat(pre)));
            assert(pre[o as int] == apis@);
            assert forall|q: usize| #[trigger] index.match_all@.contains(q) <==> (q < o + 1 && pre[q as int].len() == 0) by {
                if q < o {
                    assert(pre[q as int] == ev[q as int]);
                    assert(ev.subrange(0, o as int)[q as int] == ev[q as int]);
                }
            }
            o = o + 1;
        }
        assert(ev.subrange(0, ev.len() as int) =~= ev);
        index
    }

    /// The entries the request selects, by position, in order, each once.
    pub fn candidates(&self, input: &ApiMatchInput) -> (r: Vec<usize>)
        requires
            self.wf(),
        ensures
            r@ == spec_candidates(input@, self.spec_entries(), self.spec_entries().len() as int),
    {
        let ghost entries = self.entries@;
        let ghost fl = flat(entries);
        let mut out: Vec<usize> = Vec::new();
        let mut i: usize = 0;
        while i < self.match_all.len()
            invariant
                i <= self.match_all@.len(),
                out@ == self.match_all@.subrange(0, i as int),
            decreases self.match_all@.len() - i,
        {
            out.push(self.match_all[i]);
            i = i + 1;
            assert(out@ =~= self.match_all@.subrange(0, i as int));
        }
        assert(self.match_all@.subrange(0, self.match_all@.len() as int) =~= self.match_all@);
        let ghost after_all = out@;
        self.wildcard_method.candidates(input, &mut out);
        let ghost after_wild = out@;
        let mut found: Option<usize> = None;
        if let Some(m) = &input.method {
            found = self.find_method(m.as_str());
            if let Some(j) = found {
                self.methods[j].1.candidates(input, &mut out);
            }
        }
        proof {
            self.lemma_candidates_exact(input@, found, after_all, after_wild, out@);
        }
        let n = self.entry_count;
        let mut hits: Vec<bool> = Vec::new();
        let mut z: usize = 0;
        while z < n
            invariant
                z <= n,
                hits@.len() == z,
                forall|k: int| 0 <= k < z ==> !hits@[k],
            decreases n - z,
        {
            hits.push(false);
            z = z + 1;
        }
        let mut k: usize = 0;
        while k < out.len()
            invariant
                k <= out@.len(),
                hits@.len() == n,
                forall|o: int| 0 <= o < n ==> (hits@[o] <==> out@.subrange(0, k as int).contains(o as usize)),
            decreases out@.len() - k,
        {
            let x = out[k];
            let ghost before = hits@;
            if x < n {
                hits.set(x, true);
            }
            assert forall|o: int| 0 <= o < n implies (hits@[o] <==> out@.subrange(0, k + 1).contains(o as usize)) by {
                let pre = out@.subrange(0, k as int);
                let cur = out@.subrange(0, k + 1);
                assert(cur == pre.push(x));
                if pre.contains(o as usize) {
                    let j = choose|j: int| 0 <= j < pre.len() && pre[j] == o as usize;
                    assert(cur[j] == o as usize);
                }
                if cur.contains(o as usize) && x != o as usize {
                    let j = choose|j: int| 0 <= j < cur.len() && cur[j] == o as usize;
                    assert(j < pre.len());
                    assert(pre[j] == o as usize);
                }
                if x == o as usize {
                    assert(cur[k as int] == x);
                }
            }
            k = k + 1;
        }
        assert(out@.subrange(0, out@.len() as int) =~= out@);
        let mut r: Vec<usize> = Vec::new();
        let mut o: usize = 0;
        while o < n
            invariant
                o <= n,
                n == entries.len(),
                hits@.len() == n,
                entries == self.entries@,
                forall|q: int| 0 <= q < n ==> (hits@[q] <==> spec_entry_hit(input@, entries[q])),
                r@ == spec_candidates(input@, entries, o as int),
            decreases n - o,
        {
            if hits[o] {
                r.push(o);
            }
            o = o + 1;
        }
        r
    }

    proof fn lemma_candidates_exact(&self, input: InputView, found: Option<usize>, after_all: Seq<usize>, after_wild: Seq<usize>, out: Seq<usize>)
        requires
            self.wf(),
            after_all == self.match_all@,
            after_wild == after_all + self.wildcard_method.pathless@ + (match input.path {
                Some(p) => trie_lookup(self.wildcard_method.exact_paths@, p),
                None => Seq::empty(),
            }) + orders(select(self.wildcard_method.fallback_paths@, |x: (usize, Api)| spec_api_matches(input, x.1))),
            match input.method {
                Some(m) => match found {
                    Some(j) => j < self.methods@.len() && self.methods@[j as int].0@ == m
                        && out == after_wild + self.methods@[j as int].1.pathless@ + (match input.path {
                            Some(p) => trie_lookup(self.methods@[j as int].1.exact_paths@, p),
                            None => Seq::empty(),
                        }) + orders(select(self.methods@[j as int].1.fallback_paths@, |x: (usize, Api)| spec_api_matches(input, x.1))),
                    None => out == after_wild && forall|i: int| 0 <= i < self.methods@.len() ==> (#[trigger] self.methods@[i]).0@ != m,
                },
                None => out == after_wild,
            },
        ensures
            forall|o: int| 0 <= o < self.entries@.len() ==> (out.contains(o as usize) <==> spec_entry_hit(input, self.entries@[o])),
    {
        let entries = self.entries@;
        let fl = flat(entries);
        let w = self.wildcard_method;
        let wx = w.pathless@ + (match input.path {
            Some(p) => trie_lookup(w.exact_paths@, p),
            None => Seq::empty(),
        }) + orders(select(w.fallback_paths@, |x: (usize, Api)| spec_api_matches(input, x.1)));
        assert(after_wild =~= after_all + wx);
        assert forall|o: int| 0 <= o < entries.len() implies (out.contains(o as usize) <==> spec_entry_hit(input, entries[o])) by {
            let ou = o as usize;
            assert(ou as int == o);
            w.lemma_contrib(fl, wildcard_bucket(), input, ou);
            lemma_concat_contains(after_all, wx, ou);
            match input.method {
                Some(m) => match found {
                    Some(j) => {
                        let mi = self.methods@[j as int].1;
                        let mx = mi.pathless@ + (match input.path {
                            Some(p) => trie_lookup(mi.exact_paths@, p),
                            None => Seq::empty(),
                        }) + orders(select(mi.fallback_paths@, |x: (usize, Api)| spec_api_matches(input, x.1)));
                        assert(out =~= after_wild + mx);
                        mi.lemma_contrib(fl, method_bucket(m), input, ou);
                        lemma_concat_contains(after_wild, mx, ou);
                        assert(out.contains(ou) <==> (after_wild.contains(ou) || bucket_hit(fl, method_bucket(m), input, ou)));
                    },
                    None => {
                        assert(select(fl, in_method(m)).len() == 0);
                        assert forall|a: Api| #[trigger] fl.contains((ou, a)) implies !(!any_method(a) && a.method@ == m) by {
                            lemma_select_member(fl, in_method(m), (ou, a));
                            if select(fl, in_method(m)).contains((ou, a)) {
                                let j = choose|j: int| 0 <= j < select(fl, in_method(m)).len() && select(fl, in_method(m))[j] == (ou, a);
                            }
                        }
                    },
                },
                None => {},
            }
            if spec_entry_hit(input, entries[o]) && entries[o].len() > 0 {
                let i = choose|i: int| 0 <= i < entries[o].len() && spec_index_matches(input, #[trigger] entries[o][i]);
                let a = entries[o][i];
                lemma_flat_member(entries, ou, a);
                assert(entries[ou as int].contains(a));
                assert(fl.contains((ou, a)));
                if any_method(a) {
                    assert(bucket_hit(fl, wildcard_bucket(), input, ou));
                } else {
                    let m = input.method.unwrap();
                    assert(method_bucket(m)(a));
                    if found.is_some() {
                        assert(bucket_hit(fl, method_bucket(m), input, ou));
                    }
                }
            }
            if out.contains(ou) {
                if after_all.contains(ou) {
                } else if bucket_hit(fl, wildcard_bucket(), input, ou) {
                    let a = choose|a: Api| #[trigger] fl.contains((ou, a)) && wildcard_bucket()(a) && path_hit(input, a);
                    lemma_flat_member(entries, ou, a);
                    let i = choose|i: int| 0 <= i < entries[o].len() && entries[o][i] == a;
                    assert(spec_index_matches(input, entries[o][i]));
                } else {
                    let m = input.method.unwrap();
                    let a = choose|a: Api| #[trigger] fl.contains((ou, a)) && method_bucket(m)(a) && path_hit(input, a);
                    lemma_flat_member(entries, ou, a);
                    let i = choose|i: int| 0 <= i < entries[o].len() && entries[o][i] == a;
                    assert(spec_index_matches(input, entries[o][i]));
                }
            }
        }
    }
}

} // verus!
