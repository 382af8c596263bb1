use vstd::prelude::*;

verus! {

/// An edge of `g` runs from `u` to `v`.
pub open spec fn has_edge(g: Seq<(i64, i64)>, u: i64, v: i64) -> bool {
    g.contains((u, v))
}

/// `w` is a walk of at least one page along the edges of `g`.
pub open spec fn is_walk(g: Seq<(i64, i64)>, w: Seq<i64>) -> bool {
    w.len() >= 1 && forall|i: int| 0 <= i < w.len() - 1 ==> #[trigger] has_edge(g, w[i], w[i + 1])
}

/// `w` is a walk of `g` from `s` to `t`.
pub open spec fn walk_between(g: Seq<(i64, i64)>, w: Seq<i64>, s: i64, t: i64) -> bool {
    is_walk(g, w) && w[0] == s && w.last() == t
}

/// `t` can be reached from `s` by following edges (`s` reaches itself).
pub open spec fn reachable(g: Seq<(i64, i64)>, s: i64, t: i64) -> bool {
    exists|w: Seq<i64>| walk_between(g, w, s, t)
}

/// Every page that `s` reaches.
pub open spec fn reachable_set(g: Seq<(i64, i64)>, s: i64) -> Set<i64> {
    Set::new(|t: i64| reachable(g, s, t))
}

/// The edge rows after `e` is inserted: a row that is already there is
/// left alone, so each ordered pair is stored once.
pub open spec fn with_edge(g: Seq<(i64, i64)>, e: (i64, i64)) -> Seq<(i64, i64)> {
    if g.contains(e) {
        g
    } else {
        g.push(e)
    }
}

/// The number of rows of `g` equal to `e`.
pub open spec fn row_count(g: Seq<(i64, i64)>, e: (i64, i64)) -> nat {
    g.filter(|x: (i64, i64)| x == e).len()
}

/// A directed link graph held in memory: a store of unique edge rows.
pub struct LinkGraph {
    edges: Vec<(i64, i64)>,
}

impl LinkGraph {
    /// The edge rows, in the order they were first inserted.
    pub closed spec fn rows(&self) -> Seq<(i64, i64)> {
        self.edges@
    }

    /// No ordered pair is stored twice.
    pub open spec fn wf(&self) -> bool {
        self.rows().no_duplicates()
    }

    pub fn new() -> (r: LinkGraph)
        ensures
            r.wf(),
            r.rows() == Seq::<(i64, i64)>::empty(),
    {
        LinkGraph { edges: Vec::new() }
    }

    /// Inserts the edge `source -> destination`; inserting an edge that is
    /// already stored is a silent no-op. Returns whether a row was added.
    pub fn insert_edge(&mut self, source: i64, destination: i64) -> (added: bool)
        requires
            old(self).wf(),
        ensures
            final(self).wf(),
            final(self).rows() == with_edge(old(self).rows(), (source, destination)),
            added == !old(self).rows().contains((source, destination)),
    {
        let mut i: usize = 0;
        while i < self.edges.len()
            invariant
                self.edges@ == old(self).edges@,
                self.wf(),
                i <= self.edges@.len(),
                forall|j: int| 0 <= j < i ==> self.edges@[j] != (source, destination),
            decreases self.edges@.len() - i,
        {
            let e = self.edges[i];
            if e.0 == source && e.1 == destination {
                assert(self.edges@[i as int] == (source, destination));
                return false;
            }
            i = i + 1;
        }
        assert(!self.edges@.contains((source, destination)));
        let ghost before = self.edges@;
        self.edges.push((source, destination));
        assert(self.edges@.no_duplicates()) by {
            assert forall|a: int, b: int| 0 <= a < self.edges@.len() && 0 <= b < self.edges@.len() && a != b implies self.edges@[a] != self.edges@[b] by {
                if a == before.len() {
                    assert(self.edges@[b] == before[b]);
                } else if b == before.len() {
                    assert(self.edges@[a] == before[a]);
                } else {
                    assert(self.edges@[a] == before[a]);
                    assert(self.edges@[b] == before[b]);
                }
            }
        }
        true
    }

    /// Inserts each row in turn, with the same duplicate rule.
    pub fn insert_edges(&mut self, rows: &Vec<(i64, i64)>)
        requires
            old(self).wf(),
        ensures
            final(self).wf(),
            forall|e: (i64, i64)| #[trigger] final(self).rows().contains(e) <==> old(self).rows().contains(e) || rows@.contains(e),
    {
        let mut k: usize = 0;
        while k < rows.len()
            invariant
                self.wf(),
                k <= rows@.len(),
                forall|e: (i64, i64)| #[trigger] self.rows().contains(e) <==> old(self).rows().contains(e) || rows@.take(k as int).contains(e),
            decreases rows@.len() - k,
        {
            let e = rows[k];
            let ghost prev = self.rows();
            self.insert_edge(e.0, e.1);
            proof {
                assert forall|x: (i64, i64)| #[trigger] self.rows().contains(x) <==> prev.contains(x) || x == e by {
                    if !prev.contains(e) {
                        assert(self.rows() == prev.push(e));
                        if prev.contains(x) {
                            let j = choose|j: int| 0 <= j < prev.len() && prev[j] == x;
                            assert(self.rows()[j] == x);
                        }
                        if x == e {
                            assert(self.rows()[prev.len() as int] == x);
                        }
                        if self.rows().contains(x) && x != e {
                            let j = choose|j: int| 0 <= j < self.rows().len() && self.rows()[j] == x;
                            assert(prev[j] == x);
                        }
                    }
                }
                assert(rows@.take(k + 1) =~= rows@.take(k as int).push(e));
                assert forall|x: (i64, i64)| #[trigger] self.rows().contains(x) <==> old(self).rows().contains(x) || rows@.take(k + 1).contains(x) by {
                    if rows@.take(k as int).contains(x) {
                        let t0 = rows@.take(k as int);
                        let j = choose|j: int| 0 <= j < t0.len() && t0[j] == x;
                        assert(rows@.take(k + 1)[j] == x);
                    }
                    if rows@.take(k + 1).contains(x) && x != e {
                        let t1 = rows@.take(k + 1);
                        let j = choose|j: int| 0 <= j < t1.len() && t1[j] == x;
                        assert(rows@.take(k as int)[j] == x);
                    }
                    if x == e {
                        assert(rows@.take(k + 1)[k as int] == x);
                    }
                }
            }
            k = k + 1;
        }
        assert(rows@.take(rows@.len() as int) =~= rows@);
    }

    /// The destinations of the edges that leave `source`, each once.
    pub fn edges_from(&self, source: i64) -> (r: Vec<i64>)
        ensures
            forall|v: i64| #[trigger] r@.contains(v) <==> has_edge(self.rows(), source, v),
            self.wf() ==> r@.no_duplicates(),
    {
        let mut r: Vec<i64> = Vec::new();
        let mut i: usize = 0;
        while i < self.edges.len()
            invariant
                i <= self.edges@.len(),
                self.wf() ==> r@.no_duplicates(),
                forall|v: i64| #[trigger] r@.contains(v) <==> self.edges@.take(i as int).contains((source, v)),
            decreases self.edges@.len() - i,
        {
            let e = self.edges[i];
            let ghost before = r@;
            proof {
                if self.wf() && e.0 == source && before.contains(e.1) {
                    let t0 = self.edges@.take(i as int);
                    assert(t0.contains((source, e.1)));
                    let j = choose|j: int| 0 <= j < t0.len() && t0[j] == (source, e.1);
                    assert(self.edges@[j] == self.edges@[i as int]);
                }
            }
            if e.0 == source {
                r.push(e.1);
            }
            proof {
                let t0 = self.edges@.take(i as int);
                let t1 = self.edges@.take(i + 1);
                assert(t1 =~= t0.push(e));
                assert forall|v: i64| #[trigger] r@.contains(v) <==> t1.contains((source, v)) by {
                    if t0.contains((source, v)) {
                        let j = choose|j: int| 0 <= j < t0.len() && t0[j] == (source, v);
                        assert(t1[j] == (source, v));
                    }
                    if t1.contains((source, v)) && e != (source, v) {
                        let j = choose|j: int| 0 <= j < t1.len() && t1[j] == (source, v);
                        assert(t0[j] == (source, v));
                    }
                    if e == (source, v) {
                        assert(t1[i as int] == (source, v));
                        assert(r@[r@.len() - 1] == v);
                    }
                    if before.contains(v) {
                        let j = choose|j: int| 0 <= j < before.len() && before[j] == v;
                        assert(r@[j] == v);
                    }
                    if r@.contains(v) && !before.contains(v) {
                        let j = choose|j: int| 0 <= j < r@.len() && r@[j] == v;
                        if j < before.len() {
                            assert(before[j] == v);
                        }
                    }
                }
            }
            i = i + 1;
        }
        assert(self.edges@.take(self.edges@.len() as int) =~= self.edges@);
        r
    }

    /// How many edge rows are stored.
    pub fn edge_count(&self) -> (n: usize)
        ensures
            n == self.rows().len(),
    {
        self.edges.len()
    }
}

/// Inserting the same edge twice into a well-formed store leaves exactly one
/// row for that ordered pair.
pub proof fn lemma_duplicate_edge_kept_once(g: Seq<(i64, i64)>, e: (i64, i64))
    requires
        g.no_duplicates(),
    ensures
        row_count(with_edge(with_edge(g, e), e), e) == 1,
        with_edge(with_edge(g, e), e) == with_edge(g, e),
{
    let g1 = with_edge(g, e);
    if !g.contains(e) {
        assert(g1[g1.len() - 1] == e);
    }
    assert(g1.contains(e));
    assert(g1.no_duplicates()) by {
        if !g.contains(e) {
            assert forall|i: int, j: int| 0 <= i < g1.len() && 0 <= j < g1.len() && i != j implies g1[i] != g1[j] by {
                if i < g.len() && j < g.len() {
                } else if i == g.len() {
                    assert(g1[j] == g[j]);
                } else {
                    assert(g1[i] == g[i]);
                }
            }
        }
    }
    let k = choose|k: int| 0 <= k < g1.len() && g1[k] == e;
    lemma_unique_row_count(g1, e, k);
}

/// In a sequence without duplicates, an element at index `k` is counted once.
proof fn lemma_unique_row_count(g: Seq<(i64, i64)>, e: (i64, i64), k: int)
    requires
        g.no_duplicates(),
        0 <= k < g.len(),
        g[k] == e,
    ensures
        row_count(g, e) == 1,
    decreases g.len(),
{
    let f = |x: (i64, i64)| x == e;
    reveal(Seq::filter);
    if k == g.len() - 1 {
        let h = g.drop_last();
        assert(!h.contains(e)) by {
            if h.contains(e) {
                let j = choose|j: int| 0 <= j < h.len() && h[j] == e;
                assert(g[j] == g[k]);
            }
        }
        lemma_filter_empty(h, e);
        assert(g.filter(f) == h.filter(f).push(e));
    } else {
        let h = g.drop_last();
        assert(h.no_duplicates());
        assert(h[k] == e);
        lemma_unique_row_count(h, e, k);
        assert(g.last() != e);
        assert(g.filter(f) == h.filter(f));
    }
}

proof fn lemma_filter_empty(h: Seq<(i64, i64)>, e: (i64, i64))
    requires
        !h.contains(e),
    ensures
        row_count(h, e) == 0,
    decreases h.len(),
{
    reveal(Seq::filter);
    if h.len() > 0 {
        let t = h.drop_last();
        assert(!t.contains(e)) by {
            if t.contains(e) {
                let j = choose|j: int| 0 <= j < t.len() && t[j] == e;
                assert(h[j] == e);
            }
        }
        lemma_filter_empty(t, e);
        assert(h[h.len() - 1] != e);
    }
}

/// The first row of `rows`, from index `i` on, whose id is `id`.
pub open spec fn first_row(rows: Seq<(i64, String, bool)>, id: i64, i: int) -> Option<(Seq<char>, bool)>
    decreases rows.len() - i,
{
    if i < 0 || i >= rows.len() {
        None
    } else if rows[i].0 == id {
        Some((rows[i].1@, rows[i].2))
    } else {
        first_row(rows, id, i + 1)
    }
}

/// Page rows held in memory, keyed by id: a second row with an id already
/// stored is refused, as a primary key refuses it.
pub struct PageTable {
    rows: Vec<(i64, String, bool)>,
}

impl PageTable {
    /// The stored `(id, title, is_redirect)` rows, in insertion order.
    pub closed spec fn page_rows(&self) -> Seq<(i64, String, bool)> {
        self.rows@
    }

    /// The title and redirect flag stored for `id`.
    pub open spec fn lookup(&self, id: i64) -> Option<(Seq<char>, bool)> {
        first_row(self.page_rows(), id, 0)
    }

    pub fn new() -> (r: PageTable)
        ensures
            r.page_rows().len() == 0,
    {
        PageTable { rows: Vec::new() }
    }

    /// Stores a page row unless its id is already stored; returns whether it
    /// was stored. The first row for an id is kept.
    pub fn insert_page(&mut self, id: i64, title: String, is_redirect: bool) -> (added: bool)
        ensures
            added == (old(self).lookup(id) is None),
            added ==> final(self).page_rows() == old(self).page_rows().push((id, title, is_redirect)),
            !added ==> final(self).page_rows() == old(self).page_rows(),
    {
        let mut i: usize = 0;
        while i < self.rows.len()
            invariant
                self.rows@ == old(self).rows@,
                i <= self.rows@.len(),
                first_row(self.rows@, id, 0) == first_row(self.rows@, id, i as int),
            decreases self.rows@.len() - i,
        {
            if self.rows[i].0 == id {
                return false;
            }
            i = i + 1;
        }
        self.rows.push((id, title, is_redirect));
        true
    }

    /// The title and redirect flag of the page with this id; `None` when no
    /// row has it.
    pub fn page_by_id(&self, id: i64) -> (r: Option<(String, bool)>)
        ensures
            match r {
                Some((t, red)) => self.lookup(id) == Some((t@, red)),
                None => self.lookup(id) is None,
            },
    {
        let mut i: usize = 0;
        while i < self.rows.len()
            invariant
                i <= self.rows@.len(),
                first_row(self.rows@, id, 0) == first_row(self.rows@, id, i as int),
            decreases self.rows@.len() - i,
        {
            if self.rows[i].0 == id {
                return Some((self.rows[i].1.clone(), self.rows[i].2));
            }
            i = i + 1;
        }
        None
    }
}

} // verus!
