use vstd::prelude::*;
use std::collections::{HashMap, VecDeque};
use crate::identity::{identity, identity_of};
use crate::page::LinkedPage;
use crate::graph::{has_edge, is_walk, reachable, reachable_set, walk_between, LinkGraph};

verus! {

broadcast use vstd::std_specs::hash::group_hash_axioms;

/// Breadth-first search state for one query from `start` to `target`.
///
/// The visited map doubles as the table of back pointers: each visited id
/// maps to the page it was first discovered from (none for the start), and
/// that first discovery is never overwritten.
pub struct PathSearch {
    visited: HashMap<i64, Option<i64>>,
    frontier: VecDeque<i64>,
    current: Option<i64>,
    start: i64,
    target: i64,
    found: bool,
    expanded: usize,
    depth: Ghost<Map<i64, nat>>,
}

/// Expanding page `c` with `links`, in order, from visited map `v` and
/// frontier `f`: a visited link is skipped; a new one gets `c` as its
/// predecessor and either ends the expansion (it is `target`) or joins the
/// back of the frontier. Gives the new map, the new frontier, and whether
/// the target was found.
pub open spec fn expand_step(
    v: Map<i64, Option<i64>>,
    f: Seq<i64>,
    c: i64,
    target: i64,
    links: Seq<i64>,
) -> (Map<i64, Option<i64>>, Seq<i64>, bool)
    decreases links.len(),
{
    if links.len() == 0 {
        (v, f, false)
    } else if v.contains_key(links[0]) {
        expand_step(v, f, c, target, links.drop_first())
    } else if links[0] == target {
        (v.insert(links[0], Some(c)), f, true)
    } else {
        expand_step(v.insert(links[0], Some(c)), f.push(links[0]), c, target, links.drop_first())
    }
}

impl PathSearch {
    /// Visited ids and the page each was discovered from.
    pub closed spec fn visited_map(&self) -> Map<i64, Option<i64>> {
        self.visited@
    }

    /// Ids discovered and not yet expanded, in FIFO order.
    pub closed spec fn frontier_seq(&self) -> Seq<i64> {
        self.frontier@
    }

    /// The page being expanded, once one was taken from the frontier.
    pub closed spec fn current_page(&self) -> Option<i64> {
        self.current
    }

    pub closed spec fn start_id(&self) -> i64 {
        self.start
    }

    pub closed spec fn target_id(&self) -> i64 {
        self.target
    }

    /// The target was discovered.
    pub closed spec fn is_done(&self) -> bool {
        self.found
    }

    /// Number of hops from the start along back pointers.
    pub closed spec fn depth_of(&self, id: i64) -> nat {
        self.depth@[id]
    }

    /// How many pages were taken from the frontier.
    pub closed spec fn expansions(&self) -> nat {
        self.expanded as nat
    }

    /// The hop counts of all visited ids.
    pub closed spec fn depths(&self) -> Map<i64, nat> {
        self.depth@
    }

    /// The back pointers form a tree rooted at the start, whose depths
    /// drop by one along each pointer.
    pub closed spec fn wf(&self) -> bool {
        let v = self.visited@;
        let d = self.depth@;
        &&& v.contains_key(self.start)
        &&& v[self.start] is None
        &&& d.dom() == v.dom()
        &&& d[self.start] == 0
        &&& forall|k: i64| #[trigger] v.contains_key(k) ==> d[k] < v.dom().len()
        &&& self.expanded + self.frontier@.len() + (if self.found { 1int } else { 0int }) == v.dom().len()
        &&& forall|k: i64| #![trigger self.visited@[k]] v.contains_key(k) && k != self.start ==> (v[k] matches Some(p)
            && v.contains_key(p) && d[k] == d[p] + 1)
        &&& forall|i: int| 0 <= i < self.frontier@.len() ==> v.contains_key(#[trigger] self.frontier@[i])
        &&& (self.current matches Some(c) ==> v.contains_key(c))
        &&& (self.found ==> self.target != self.start && v.contains_key(self.target))
        &&& (v.contains_key(self.target) && self.target != self.start ==> self.found)
    }

    /// A fresh search: only the start is visited, and it is the whole frontier.
    pub fn new(start: i64, target: i64) -> (r: PathSearch)
        ensures
            r.wf(),
            r.visited_map() == Map::<i64, Option<i64>>::empty().insert(start, None),
            r.frontier_seq() == seq![start],
            r.current_page() is None,
            !r.is_done(),
            r.start_id() == start,
            r.target_id() == target,
            r.depth_of(start) == 0,
            r.expansions() == 0,
    {
        let mut visited: HashMap<i64, Option<i64>> = HashMap::new();
        visited.insert(start, None);
        let mut frontier: VecDeque<i64> = VecDeque::new();
        frontier.push_back(start);
        let r = PathSearch {
            visited,
            frontier,
            current: None,
            start,
            target,
            found: false,
            expanded: 0,
            depth: Ghost(Map::empty().insert(start, 0nat)),
        };
        assert(r.depth@.dom() =~= r.visited@.dom());
        assert(r.visited@.dom() =~= set![start]);
        r
    }

    /// A visited page other than the start points back to a visited page one
    /// level above it.
    pub proof fn lemma_back_pointer_depth(&self, k: i64)
        requires
            self.wf(),
            self.visited_map().contains_key(k),
            k != self.start_id(),
        ensures
            self.visited_map()[k] matches Some(p) && self.visited_map().contains_key(p)
                && self.depth_of(k) == self.depth_of(p) + 1,
    {
        assert(self.visited@[k] is Some);
    }

    /// Whether the target was found.
    pub fn is_found(&self) -> (r: bool)
        ensures
            r == self.is_done(),
    {
        self.found
    }

    /// How many pages were taken from the frontier for expansion.
    pub fn expansion_count(&self) -> (n: usize)
        ensures
            n == self.expansions(),
    {
        self.expanded
    }

    /// How many ids were visited.
    pub fn visited_count(&self) -> (n: usize)
        ensures
            n == self.visited_map().len(),
    {
        self.visited.len()
    }

    /// Takes the next page to expand from the front of the frontier; `None`
    /// once the target was found or the frontier is empty (unreachable).
    pub fn next_page(&mut self) -> (r: Option<i64>)
        requires
            old(self).wf(),
        ensures
            final(self).wf(),
            final(self).visited_map() == old(self).visited_map(),
            final(self).start_id() == old(self).start_id(),
            final(self).target_id() == old(self).target_id(),
            final(self).is_done() == old(self).is_done(),
            final(self).depths() == old(self).depths(),
            old(self).is_done() ==> r is None && final(self).frontier_seq() == old(self).frontier_seq(),
            !old(self).is_done() && old(self).frontier_seq().len() == 0 ==> r is None
                && final(self).frontier_seq() == old(self).frontier_seq(),
            !old(self).is_done() && old(self).frontier_seq().len() > 0 ==> r == Some(
                old(self).frontier_seq()[0],
            ) && final(self).frontier_seq() == old(self).frontier_seq().drop_first(),
            final(self).current_page() == (if r is Some { r } else { old(self).current_page() }),
            final(self).expansions() == old(self).expansions() + (if r is Some { 1int } else { 0int }),
    {
        if self.found {
            return None;
        }
        proof {
            assert(self.visited.len() == self.visited@.len());
        }
        let r = self.frontier.pop_front();
        if r.is_some() {
            self.current = r;
            self.expanded = self.expanded + 1;
        }
        proof {
            assert forall|i: int| 0 <= i < self.frontier@.len() implies self.visited@.contains_key(
                #[trigger] self.frontier@[i],
            ) by {
                assert(self.frontier@[i] == old(self).frontier@[i + 1]);
            }
        }
        r
    }

    /// Discovers `link` from the page being expanded. An id already visited
    /// is skipped; a new one records the current page as its predecessor and
    /// either ends the search (it is the target) or joins the back of the
    /// frontier. Returns whether the target was found.
    fn visit(&mut self, link: i64) -> (r: bool)
        requires
            old(self).wf(),
            old(self).current is Some,
            !old(self).found,
        ensures
            final(self).wf(),
            final(self).start == old(self).start,
            final(self).target == old(self).target,
            final(self).current == old(self).current,
            r == final(self).found,
            old(self).visited@.contains_key(link) ==> final(self).visited@ == old(self).visited@
                && final(self).frontier@ == old(self).frontier@ && final(self).depth@ == old(self).depth@ && !r,
            !old(self).visited@.contains_key(link) ==> {
                &&& final(self).visited@ == old(self).visited@.insert(link, old(self).current)
                &&& final(self).depth@ == old(self).depth@.insert(
                    link,
                    old(self).depth@[old(self).current->0] + 1,
                )
                &&& r == (link == old(self).target)
                &&& final(self).frontier@ == (if r {
                    old(self).frontier@
                } else {
                    old(self).frontier@.push(link)
                })
            },
    {
        if self.visited.contains_key(&link) {
            return false;
        }
        let c = self.current;
        let ghost dc = self.depth@[c->0];
        proof {
            assert(old(self).visited@.dom().finite());
        }
        self.visited.insert(link, c);
        self.depth = Ghost(self.depth@.insert(link, dc + 1));
        if link == self.target {
            self.found = true;
        } else {
            self.frontier.push_back(link);
        }
        proof {
            assert(self.depth@.dom() =~= self.visited@.dom());
            assert(self.visited@.dom() =~= old(self).visited@.dom().insert(link));
            assert(self.visited@.dom().len() == old(self).visited@.dom().len() + 1);
            assert forall|i: int| 0 <= i < self.frontier@.len() implies self.visited@.contains_key(
                #[trigger] self.frontier@[i],
            ) by {
                if i < old(self).frontier@.len() {
                    assert(self.frontier@[i] == old(self).frontier@[i]);
                }
            }
        }
        self.found
    }

    /// Expands the current page with its outgoing links, in order, until the
    /// target is discovered. Does nothing once the target was found or
    /// before a page was taken. Returns whether the target was found.
    pub fn expand(&mut self, links: &Vec<i64>) -> (r: bool)
        requires
            old(self).wf(),
        ensures
            final(self).wf(),
            r == final(self).is_done(),
            final(self).start_id() == old(self).start_id(),
            final(self).target_id() == old(self).target_id(),
            final(self).current_page() == old(self).current_page(),
            old(self).is_done() || old(self).current_page() is None ==> final(self).visited_map()
                == old(self).visited_map() && final(self).frontier_seq() == old(self).frontier_seq(),
            forall|k: i64| #[trigger] old(self).visited_map().contains_key(k) ==> final(self).visited_map().contains_key(k)
                && final(self).visited_map()[k] == old(self).visited_map()[k],
            forall|k: i64| #[trigger] final(self).visited_map().contains_key(k) && !old(self).visited_map().contains_key(k)
                ==> links@.contains(k) && final(self).visited_map()[k] == old(self).current_page(),
            !r && old(self).current_page() is Some ==> forall|j: int| 0 <= j < links@.len()
                ==> final(self).visited_map().contains_key(#[trigger] links@[j]),
            !old(self).is_done() && old(self).current_page() is Some ==> (final(self).visited_map(),
                final(self).frontier_seq(), r) == expand_step(
                old(self).visited_map(),
                old(self).frontier_seq(),
                old(self).current_page()->0,
                old(self).target_id(),
                links@,
            ),
            forall|k: i64| #[trigger] old(self).visited_map().contains_key(k) ==> final(self).depth_of(k)
                == old(self).depth_of(k),
            old(self).current_page() matches Some(c) ==> forall|k: i64| #[trigger] final(self).visited_map().contains_key(k)
                && !old(self).visited_map().contains_key(k) ==> final(self).depth_of(k) == old(self).depth_of(c) + 1,
    {
        if self.found || self.current.is_none() {
            return self.found;
        }
        let mut j: usize = 0;
        assert(links@.skip(0) =~= links@);
        while j < links.len()
            invariant
                self.wf(),
                !self.found,
                !old(self).found,
                self.current == old(self).current,
                self.current is Some,
                self.start == old(self).start,
                self.target == old(self).target,
                j <= links@.len(),
                forall|k: i64| #[trigger] old(self).visited@.contains_key(k) ==> self.visited@.contains_key(k)
                    && self.visited@[k] == old(self).visited@[k],
                forall|k: i64| #[trigger] self.visited@.contains_key(k) && !old(self).visited@.contains_key(k)
                    ==> links@.take(j as int).contains(k) && self.visited@[k] == old(self).current,
                forall|m: int| 0 <= m < j ==> self.visited@.contains_key(#[trigger] links@[m]),
                expand_step(old(self).visited@, old(self).frontier@, old(self).current->0, old(self).target, links@)
                    == expand_step(self.visited@, self.frontier@, old(self).current->0, old(self).target, links@.skip(j as int)),
                forall|k: i64| #[trigger] old(self).visited@.contains_key(k) ==> self.depth@[k] == old(self).depth@[k],
                forall|k: i64| #[trigger] self.visited@.contains_key(k) && !old(self).visited@.contains_key(k)
                    ==> self.depth@[k] == old(self).depth@[old(self).current->0] + 1,
            decreases links@.len() - j,
        {
            let link = links[j];
            let ghost before = self.visited@;
            let ghost dbefore = self.depth@;
            proof {
                assert(links@.skip(j as int)[0] == link);
                assert(links@.skip(j as int).drop_first() =~= links@.skip(j + 1));
            }
            let hit = self.visit(link);
            proof {
                assert(links@.take(j + 1) =~= links@.take(j as int).push(link));
                assert forall|k: i64| #[trigger] self.visited@.contains_key(k) && !old(self).visited@.contains_key(k)
                    implies links@.take(j + 1).contains(k) && self.visited@[k] == old(self).current by {
                    if before.contains_key(k) {
                        let t = links@.take(j as int);
                        let w = choose|w: int| 0 <= w < t.len() && t[w] == k;
                        assert(links@.take(j + 1)[w] == k);
                    } else {
                        assert(links@.take(j + 1)[j as int] == k);
                    }
                }
            }
            if hit {
                return true;
            }
            j = j + 1;
        }
        proof {
            assert(links@.skip(j as int).len() == 0);
        }
        false
    }

    /// The ids of the path found, start first and target last: each id is
    /// the back pointer of the next one. Empty while the target is not found.
    pub fn path(&self) -> (r: Vec<i64>)
        requires
            self.wf(),
        ensures
            !self.is_done() ==> r@.len() == 0,
            self.is_done() ==> {
                &&& r@.len() == self.depth_of(self.target_id()) + 1
                &&& r@[0] == self.start_id()
                &&& r@.last() == self.target_id()
                &&& forall|i: int| 0 <= i < r@.len() - 1 ==> self.visited_map().contains_key(r@[i + 1])
                    && #[trigger] self.visited_map()[r@[i + 1]] == Some(r@[i])
                &&& forall|i: int| 0 <= i < r@.len() ==> self.visited_map().contains_key(#[trigger] r@[i])
            },
    {
        let mut out: Vec<i64> = Vec::new();
        if !self.found {
            return out;
        }
        let ghost d = self.depth@;
        let ghost v = self.visited@;
        let ghost dt = d[self.target];
        let mut rev: Vec<i64> = Vec::new();
        rev.push(self.target);
        let mut cur = self.target;
        loop
            invariant
                self.wf(),
                self.found,
                v == self.visited@,
                d == self.depth@,
                dt == d[self.target],
                v.contains_key(cur),
                d[cur] <= dt,
                rev@.len() == dt - d[cur] + 1,
                rev@[0] == self.target,
                rev@.last() == cur,
                forall|i: int| 0 <= i < rev@.len() ==> v.contains_key(#[trigger] rev@[i]),
                forall|i: int| 0 <= i < rev@.len() - 1 ==> #[trigger] v[rev@[i]] == Some(rev@[i + 1]),
            ensures
                cur == self.start,
                d[cur] == 0,
                rev@.len() == dt + 1,
                rev@[0] == self.target,
                rev@.last() == self.start,
                forall|i: int| 0 <= i < rev@.len() ==> v.contains_key(#[trigger] rev@[i]),
                forall|i: int| 0 <= i < rev@.len() - 1 ==> #[trigger] v[rev@[i]] == Some(rev@[i + 1]),
            decreases d[cur],
        {
            match self.visited.get(&cur) {
                Some(Some(p)) => {
                    let p = *p;
                    proof {
                        if cur == self.start {
                            assert(false);
                        }
                    }
                    rev.push(p);
                    cur = p;
                },
                Some(None) => {
                    assert(v[cur] is None);
                    assert(self.visited@.contains_key(cur));
                    assert(cur == self.start);
                    break;
                },
                None => {
                    assert(false);
                    break;
                },
            }
        }
        assert(cur == self.start);
        let n = rev.len();
        let mut i: usize = 0;
        while i < n
            invariant
                n == rev@.len(),
                i <= n,
                out@.len() == i,
                forall|m: int| 0 <= m < i ==> out@[m] == rev@[n - 1 - m],
            decreases n - i,
        {
            out.push(rev[n - 1 - i]);
            i = i + 1;
        }
        proof {
            assert forall|m: int| 0 <= m < out@.len() - 1 implies #[trigger] v[out@[m + 1]] == Some(out@[m]) by {
                assert(out@[m + 1] == rev@[n - 2 - m]);
                assert(out@[m] == rev@[(n - 2 - m) + 1]);
            }
            assert forall|m: int| 0 <= m < out@.len() implies v.contains_key(#[trigger] out@[m]) by {
                assert(out@[m] == rev@[n - 1 - m]);
            }
        }
        out
    }
}


/// The pages that a search in `g` from `start` can ever visit.
pub open spec fn node_universe(g: Seq<(i64, i64)>, start: i64) -> Set<i64> {
    g.map_values(|e: (i64, i64)| e.1).push(start).to_set()
}

/// `p` is a walk from `s` to `t` that no other such walk beats in length.
pub open spec fn is_shortest_path(g: Seq<(i64, i64)>, s: i64, t: i64, p: Seq<i64>) -> bool {
    walk_between(g, p, s, t) && forall|w: Seq<i64>| #[trigger] walk_between(g, w, s, t) ==> p.len() <= w.len()
}

/// What a path query on `g` reports: a shortest path when the target is
/// another page that the start reaches, and nothing otherwise.
pub open spec fn path_result(g: Seq<(i64, i64)>, s: i64, t: i64, r: Option<Seq<i64>>) -> bool {
    match r {
        Some(p) => s != t && is_shortest_path(g, s, t, p),
        None => s == t || !reachable(g, s, t),
    }
}

/// While a page `c` at level `l` is expanded, every walk from the start of
/// at most `l` hops ends at a visited page.
proof fn lemma_short_walks_visited(
    g: Seq<(i64, i64)>,
    v: Map<i64, Option<i64>>,
    d: Map<i64, nat>,
    f: Seq<i64>,
    c: i64,
    l: int,
    start: i64,
    w: Seq<i64>,
    n: int,
)
    requires
        v.contains_key(start),
        d[start] == 0,
        d.dom() == v.dom(),
        forall|i: int| 0 <= i < f.len() ==> d[#[trigger] f[i]] >= l,
        d[c] == l,
        forall|u: i64, x: i64|
            v.contains_key(u) && !f.contains(u) && u != c && #[trigger] has_edge(g, u, x) ==> v.contains_key(x)
                && d[x] <= d[u] + 1,
        is_walk(g, w),
        w[0] == start,
        0 <= n < w.len(),
        w.len() - 1 <= l,
    ensures
        v.contains_key(w[n]),
        d[w[n]] <= n,
    decreases n,
{
    if n > 0 {
        lemma_short_walks_visited(g, v, d, f, c, l, start, w, n - 1);
        let u = w[n - 1];
        assert(has_edge(g, w[n - 1], w[(n - 1) + 1]));
        assert(!f.contains(u)) by {
            if f.contains(u) {
                let i = choose|i: int| 0 <= i < f.len() && f[i] == u;
                assert(d[f[i]] >= l);
            }
        }
    }
}

/// Once no page waits in the frontier, every walk from the start stays
/// among the visited pages.
proof fn lemma_closed_walks_visited(
    g: Seq<(i64, i64)>,
    v: Map<i64, Option<i64>>,
    d: Map<i64, nat>,
    f: Seq<i64>,
    start: i64,
    w: Seq<i64>,
    n: int,
)
    requires
        v.contains_key(start),
        f.len() == 0,
        forall|u: i64, x: i64|
            v.contains_key(u) && !f.contains(u) && #[trigger] has_edge(g, u, x) ==> v.contains_key(x)
                && d[x] <= d[u] + 1,
        is_walk(g, w),
        w[0] == start,
        0 <= n < w.len(),
    ensures
        v.contains_key(w[n]),
    decreases n,
{
    if n > 0 {
        lemma_closed_walks_visited(g, v, d, f, start, w, n - 1);
        assert(has_edge(g, w[n - 1], w[(n - 1) + 1]));
    }
}

/// A visited page is reachable from the start along the back pointers.
proof fn lemma_visited_reachable(
    g: Seq<(i64, i64)>,
    v: Map<i64, Option<i64>>,
    d: Map<i64, nat>,
    start: i64,
    k: i64,
)
    requires
        v.contains_key(start),
        d.dom() == v.dom(),
        forall|x: i64| #[trigger] v.contains_key(x) && x != start ==> (v[x] matches Some(p)
            && v.contains_key(p) && d[x] == d[p] + 1),
        forall|x: i64| #[trigger] v.contains_key(x) ==> (v[x] matches Some(p) ==> has_edge(g, p, x)),
        v.contains_key(k),
    ensures
        reachable(g, start, k),
    decreases d[k],
{
    if k == start {
        let w = seq![start];
        assert(walk_between(g, w, start, start));
    } else {
        let p = v[k]->0;
        lemma_visited_reachable(g, v, d, start, p);
        let w = choose|w: Seq<i64>| walk_between(g, w, start, p);
        let w2 = w.push(k);
        assert forall|i: int| 0 <= i < w2.len() - 1 implies #[trigger] has_edge(g, w2[i], w2[i + 1]) by {
            if i < w.len() - 1 {
                assert(has_edge(g, w[i], w[i + 1]));
            }
        }
        assert(walk_between(g, w2, start, k));
    }
}

/// Every back pointer follows an edge of `g`.
spec fn pointers_are_edges(s: &PathSearch, g: Seq<(i64, i64)>) -> bool {
    forall|k: i64| #![trigger s.visited@[k]] s.visited@.contains_key(k) ==> (s.visited@[k] matches Some(p) ==> has_edge(g, p, k))
}

/// The frontier holds levels `l` and `l + 1` in order, and nothing visited
/// lies deeper than `l + 1`.
spec fn levels_ok(s: &PathSearch, l: int) -> bool {
    &&& forall|i: int| 0 <= i < s.frontier@.len() ==> l <= s.depth@[#[trigger] s.frontier@[i]] <= l + 1
    &&& forall|i: int, j: int| #![trigger s.frontier@[i], s.frontier@[j]] 0 <= i < j < s.frontier@.len()
        ==> s.depth@[s.frontier@[i]] <= s.depth@[s.frontier@[j]]
    &&& forall|u: i64| #[trigger] s.visited@.contains_key(u) ==> s.depth@[u] <= l + 1
}

/// Each visited page out of the frontier, other than `except`, has all its
/// successors visited, at most one level deeper.
spec fn closed_except(s: &PathSearch, g: Seq<(i64, i64)>, except: Option<i64>) -> bool {
    forall|u: i64, x: i64|
        s.visited@.contains_key(u) && !s.frontier@.contains(u) && except != Some(u) && #[trigger] has_edge(g, u, x)
            ==> s.visited@.contains_key(x) && s.depth@[x] <= s.depth@[u] + 1
}

/// Every visited page lies at the fewest hops from the start: no walk to it
/// is shorter than its depth.
spec fn depths_are_distances(s: &PathSearch, g: Seq<(i64, i64)>) -> bool {
    forall|k: i64, w: Seq<i64>| #[trigger] walk_between(g, w, s.start, k) && s.visited@.contains_key(k)
        ==> s.depth@[k] + 1 <= w.len()
}

/// The search measure: unvisited pages count twice, waiting pages once.
spec fn measure(s: &PathSearch, nodes: Set<i64>) -> int {
    2 * (nodes.len() - s.visited@.dom().len()) + s.frontier@.len()
}

/// Expands page `c`, at level `l`, with its edges in `graph`.
fn expand_from_graph(
    s: &mut PathSearch,
    graph: &LinkGraph,
    c: i64,
    Ghost(nodes): Ghost<Set<i64>>,
    Ghost(l): Ghost<int>,
    Ghost(m0): Ghost<int>,
)
    requires
        old(s).wf(),
        !old(s).found,
        old(s).current == Some(c),
        nodes.finite(),
        nodes == node_universe(graph.rows(), old(s).start),
        old(s).visited@.dom().subset_of(nodes),
        old(s).visited@.contains_key(c),
        old(s).depth@[c] == l,
        l >= 0,
        measure(old(s), nodes) < m0,
        pointers_are_edges(old(s), graph.rows()),
        depths_are_distances(old(s), graph.rows()),
        levels_ok(old(s), l),
        closed_except(old(s), graph.rows(), Some(c)),
    ensures
        final(s).wf(),
        final(s).start == old(s).start,
        final(s).target == old(s).target,
        final(s).visited@.dom().subset_of(nodes),
        measure(final(s), nodes) < m0,
        final(s).visited@.dom().len() <= nodes.len(),
        pointers_are_edges(final(s), graph.rows()),
        depths_are_distances(final(s), graph.rows()),
        !final(s).found ==> levels_ok(final(s), l) && closed_except(final(s), graph.rows(), None),
{
    let ghost g = graph.rows();
    let ghost start = s.start;
    let ghost target = s.target;
    let links = graph.edges_from(c);
    let mut j: usize = 0;
    let mut hit = false;
    while j < links.len() && !hit
        invariant
            s.wf(),
            s.start == start,
            s.target == target,
            s.current == Some(c),
            nodes.finite(),
            nodes == node_universe(g, start),
            g == graph.rows(),
            s.visited@.dom().subset_of(nodes),
            s.visited@.contains_key(c),
            s.depth@[c] == l,
            l >= 0,
            hit == s.found,
            j <= links@.len(),
            forall|x: i64| #[trigger] links@.contains(x) <==> has_edge(g, c, x),
            measure(s, nodes) < m0,
            pointers_are_edges(s, g),
            depths_are_distances(s, g),
            !hit ==> levels_ok(s, l),
            !hit ==> closed_except(s, g, Some(c)),
            !hit ==> forall|m: int| 0 <= m < j ==> s.visited@.contains_key(#[trigger] links@[m])
                && s.depth@[links@[m]] <= l + 1,
        decreases links@.len() - j,
    {
        let link = links[j];
        let ghost v0 = s.visited@;
        let ghost d0 = s.depth@;
        let ghost fr0 = s.frontier@;
        proof {
            assert(links@.contains(link)) by {
                assert(links@[j as int] == link);
            }
            if !v0.contains_key(link) {
                assert forall|w: Seq<i64>| #[trigger] walk_between(g, w, start, link)
                    implies l + 2 <= w.len() by {
                    if w.len() - 1 <= l {
                        lemma_short_walks_visited(g, v0, d0, fr0, c, l, start, w, w.len() - 1);
                    }
                }
            }
            vstd::set_lib::lemma_len_subset(v0.dom(), nodes);
        }
        hit = s.visit(link);
        proof {
            if !v0.contains_key(link) {
                assert(has_edge(g, c, link));
                let i = choose|i: int| 0 <= i < g.len() && g[i] == (c, link);
                assert(g.map_values(|e: (i64, i64)| e.1).push(start)[i] == link);
                assert(nodes.contains(link));
                assert(s.visited@.dom() =~= v0.dom().insert(link));
                assert forall|k: i64, w: Seq<i64>| #[trigger] walk_between(g, w, start, k) && s.visited@.contains_key(k)
                    implies s.depth@[k] + 1 <= w.len() by {
                    if k != link {
                        assert(v0.contains_key(k));
                    }
                }
                if !hit {
                    assert forall|i: int| 0 <= i < s.frontier@.len() implies l <= s.depth@[#[trigger] s.frontier@[i]] <= l + 1 by {
                        if i < fr0.len() {
                            assert(s.frontier@[i] == fr0[i]);
                        }
                    }
                    assert forall|i: int, k: int| #![trigger s.frontier@[i], s.frontier@[k]] 0 <= i < k < s.frontier@.len() implies s.depth@[s.frontier@[i]] <= s.depth@[s.frontier@[k]] by {
                        assert(s.frontier@[i] == fr0[i]);
                        if k < fr0.len() {
                            assert(s.frontier@[k] == fr0[k]);
                        } else {
                            assert(s.frontier@[k] == link);
                        }
                    }
                    assert forall|u: i64, x: i64|
                        s.visited@.contains_key(u) && !s.frontier@.contains(u) && Some(c) != Some(u) && #[trigger] has_edge(g, u, x)
                        implies s.visited@.contains_key(x) && s.depth@[x] <= s.depth@[u] + 1 by {
                        if u == link {
                            assert(s.frontier@[fr0.len() as int] == link);
                        } else {
                            if fr0.contains(u) {
                                let i = choose|i: int| 0 <= i < fr0.len() && fr0[i] == u;
                                assert(s.frontier@[i] == u);
                            }
                        }
                    }
                }
            }
        }
        j = j + 1;
    }
    proof {
        vstd::set_lib::lemma_len_subset(s.visited@.dom(), nodes);
        if !hit {
            assert forall|u: i64, x: i64|
                s.visited@.contains_key(u) && !s.frontier@.contains(u) && None::<i64> != Some(u) && #[trigger] has_edge(g, u, x)
                implies s.visited@.contains_key(x) && s.depth@[x] <= s.depth@[u] + 1 by {
                if u == c {
                    assert(links@.contains(x));
                    let m = choose|m: int| 0 <= m < links@.len() && links@[m] == x;
                    assert(s.visited@.contains_key(links@[m]));
                }
            }
        }
    }
}

/// Taking the front page `c` of the frontier keeps the levels in order, at
/// the level of `c`, and leaves every other expanded page closed.
proof fn lemma_after_pop(s: &PathSearch, f0: Seq<i64>, g: Seq<(i64, i64)>, c: i64, l: int)
    requires
        f0.len() > 0,
        f0[0] == c,
        s.frontier@ == f0.drop_first(),
        forall|i: int| 0 <= i < f0.len() ==> l <= s.depth@[#[trigger] f0[i]] <= l + 1,
        forall|i: int, j: int| #![trigger f0[i], f0[j]] 0 <= i < j < f0.len() ==> s.depth@[f0[i]] <= s.depth@[f0[j]],
        forall|u: i64| #[trigger] s.visited@.contains_key(u) ==> s.depth@[u] <= l + 1,
        forall|u: i64, x: i64|
            s.visited@.contains_key(u) && !f0.contains(u) && None::<i64> != Some(u) && #[trigger] has_edge(g, u, x)
                ==> s.visited@.contains_key(x) && s.depth@[x] <= s.depth@[u] + 1,
    ensures
        l <= s.depth@[c],
        levels_ok(s, s.depth@[c] as int),
        closed_except(s, g, Some(c)),
{
    let lc = s.depth@[c] as int;
    assert(l <= s.depth@[f0[0]]);
    assert forall|i: int| 0 <= i < s.frontier@.len() implies lc <= s.depth@[#[trigger] s.frontier@[i]] <= lc + 1 by {
        assert(s.frontier@[i] == f0[i + 1]);
        assert(s.depth@[f0[0]] <= s.depth@[f0[i + 1]]);
        assert(s.depth@[f0[i + 1]] <= l + 1);
    }
    assert forall|i: int, j: int| #![trigger s.frontier@[i], s.frontier@[j]] 0 <= i < j < s.frontier@.len() implies s.depth@[s.frontier@[i]] <= s.depth@[s.frontier@[j]] by {
        assert(s.frontier@[i] == f0[i + 1]);
        assert(s.frontier@[j] == f0[j + 1]);
        assert(s.depth@[f0[i + 1]] <= s.depth@[f0[j + 1]]);
    }
    assert forall|u: i64, x: i64|
        s.visited@.contains_key(u) && !s.frontier@.contains(u) && Some(c) != Some(u) && #[trigger] has_edge(g, u, x)
        implies s.visited@.contains_key(x) && s.depth@[x] <= s.depth@[u] + 1 by {
        if f0.contains(u) {
            let i = choose|i: int| 0 <= i < f0.len() && f0[i] == u;
            if i > 0 {
                assert(s.frontier@[i - 1] == u);
            }
        }
    }
}

/// Runs a whole search from `start` to `target` over an in-memory graph.
///
/// The search always ends. It finds the target exactly when the target is
/// another page that the start reaches, and then at the fewest hops; when it
/// does not, it has visited each page that the start reaches, once, and no
/// other, and has expanded as many pages as the start reaches.
pub fn search_graph(graph: &LinkGraph, start: i64, target: i64) -> (s: PathSearch)
    ensures
        s.wf(),
        s.start_id() == start,
        s.target_id() == target,
        s.is_done() <==> start != target && reachable(graph.rows(), start, target),
        s.is_done() ==> forall|w: Seq<i64>| #[trigger] walk_between(graph.rows(), w, start, target)
            ==> s.depth_of(target) + 1 <= w.len(),
        forall|k: i64, w: Seq<i64>| #[trigger] walk_between(graph.rows(), w, start, k) && s.visited_map().contains_key(k)
            ==> s.depth_of(k) + 1 <= w.len(),
        forall|k: i64| #[trigger] s.visited_map().contains_key(k) ==> (s.visited_map()[k] matches Some(p)
            ==> has_edge(graph.rows(), p, k)),
        !s.is_done() ==> s.visited_map().dom() == reachable_set(graph.rows(), start),
        !s.is_done() ==> s.expansions() == reachable_set(graph.rows(), start).len(),
{
    let ghost g = graph.rows();
    let ghost nodes = node_universe(g, start);
    let mut s = PathSearch::new(start, target);
    let ghost mut l: int = 0;
    let mut exhausted = false;
    proof {
        vstd::seq_lib::seq_to_set_is_finite(g.map_values(|e: (i64, i64)| e.1).push(start));
        assert(g.map_values(|e: (i64, i64)| e.1).push(start)[g.len() as int] == start);
        assert(s.visited@.dom() =~= set![start]);
        assert(s.frontier@[0] == start);
        assert forall|k: i64, w: Seq<i64>| #[trigger] walk_between(g, w, start, k) && s.visited@.contains_key(k)
            implies s.depth@[k] + 1 <= w.len() by {
            assert(s.visited@.dom().contains(k));
        }
    }
    while !s.found && !exhausted
        invariant
            s.wf(),
            s.start == start,
            s.target == target,
            nodes.finite(),
            nodes == node_universe(g, start),
            g == graph.rows(),
            s.visited@.dom().subset_of(nodes),
            l >= 0,
            exhausted ==> !s.found && s.frontier@.len() == 0,
            pointers_are_edges(&s, g),
            depths_are_distances(&s, g),
            !s.found ==> levels_ok(&s, l),
            !s.found ==> closed_except(&s, g, None),
        decreases measure(&s, nodes) + (if exhausted { 0int } else { 1int }),
    {
        proof { vstd::set_lib::lemma_len_subset(s.visited@.dom(), nodes); }
        let ghost m0 = measure(&s, nodes);
        let ghost f0 = s.frontier@;
        match s.next_page() {
            None => {
                exhausted = true;
            },
            Some(c) => {
                let ghost lc: int = s.depth@[c] as int;
                proof {
                    lemma_after_pop(&s, f0, g, c, l);
                    l = lc;
                }
                expand_from_graph(&mut s, graph, c, Ghost(nodes), Ghost(l), Ghost(m0));
            },
        }
    }
    proof {
        let v = s.visited@;
        if !s.found {
            assert forall|t: i64| #[trigger] reachable(g, start, t) implies v.contains_key(t) by {
                let w = choose|w: Seq<i64>| walk_between(g, w, start, t);
                lemma_closed_walks_visited(g, v, s.depth@, s.frontier@, start, w, w.len() - 1);
            }
            assert forall|t: i64| v.contains_key(t) implies #[trigger] reachable(g, start, t) by {
                lemma_visited_reachable(g, v, s.depth@, start, t);
            }
            assert(v.dom() =~= reachable_set(g, start));
        } else {
            lemma_visited_reachable(g, v, s.depth@, start, target);
        }
    }
    s
}

/// The shortest path from `start` to `target` in an in-memory graph, start
/// first; `None` when the target is the start itself or is unreachable.
pub fn find_path(graph: &LinkGraph, start: i64, target: i64) -> (r: Option<Vec<i64>>)
    ensures
        path_result(graph.rows(), start, target, match r {
            Some(p) => Some(p@),
            None => None,
        }),
{
    let s = search_graph(graph, start, target);
    if s.is_found() {
        let p = s.path();
        proof {
            let g = graph.rows();
            assert forall|i: int| 0 <= i < p@.len() - 1 implies #[trigger] has_edge(g, p@[i], p@[i + 1]) by {
                assert(s.visited_map().contains_key(p@[i + 1]));
                assert(s.visited_map()[p@[i + 1]] == Some(p@[i]));
            }
            assert(walk_between(g, p@, start, target));
        }
        Some(p)
    } else {
        None
    }
}

/// The shortest path between two titles, each resolved to its id by the
/// identity used at ingestion; letter case differences vanish in the ids.
pub fn find_path_by_title(graph: &LinkGraph, start: &str, target: &str) -> (r: Option<Vec<i64>>)
    ensures
        path_result(graph.rows(), identity_of(start@), identity_of(target@), match r {
            Some(p) => Some(p@),
            None => None,
        }),
{
    find_path(graph, identity(start), identity(target))
}

/// When exactly one walk from `s` to `t` has the fewest hops, a path query
/// reports that walk, page by page from start to target.
pub proof fn lemma_unique_shortest_path(
    g: Seq<(i64, i64)>,
    s: i64,
    t: i64,
    q: Seq<i64>,
    r: Option<Seq<i64>>,
)
    requires
        s != t,
        walk_between(g, q, s, t),
        forall|w: Seq<i64>| #[trigger] walk_between(g, w, s, t) ==> q.len() <= w.len(),
        forall|w: Seq<i64>| #[trigger] walk_between(g, w, s, t) && w.len() == q.len() ==> w == q,
        path_result(g, s, t, r),
    ensures
        r == Some(q),
{
    assert(reachable(g, s, t));
    let p = r->0;
    assert(walk_between(g, p, s, t));
    assert(p.len() <= q.len());
    assert(q.len() <= p.len());
}

/// A path query whose target the start does not reach reports that no path
/// exists.
pub proof fn lemma_unreachable_reported(g: Seq<(i64, i64)>, s: i64, t: i64, r: Option<Seq<i64>>)
    requires
        !reachable(g, s, t),
        path_result(g, s, t, r),
    ensures
        r is None,
{
    if r is Some {
        assert(walk_between(g, r->0, s, t));
    }
}

impl LinkedPage {
    /// The number of pages on the chain of back pointers from this page to
    /// the start, both included.
    pub fn count(&self, search: &PathSearch) -> (n: usize)
        requires
            search.wf(),
            self.from matches Some(p) ==> search.visited_map().contains_key(p),
            search.visited_map().len() < usize::MAX,
        ensures
            n == match self.from {
                Some(p) => search.depth_of(p) + 2,
                None => 1,
            },
    {
        let ghost total: int = match self.from {
            Some(p) => search.depth@[p] + 2int,
            None => 1int,
        };
        proof {
            if let Some(p) = self.from {
                assert(search.depth@[p] < search.visited@.dom().len());
            }
        }
        let mut n: usize = 1;
        let mut cur = self.from;
        while cur.is_some()
            invariant
                search.wf(),
                total <= usize::MAX,
                cur matches Some(q) ==> search.visited@.contains_key(q) && n + search.depth@[q] + 1 == total,
                cur is None ==> n == total,
            decreases match cur {
                Some(q) => search.depth@[q] + 1,
                None => 0,
            },
        {
            let q = cur.unwrap();
            n = n + 1;
            match search.visited.get(&q) {
                Some(x) => {
                    cur = *x;
                    proof {
                        if q == search.start {
                            assert(cur is None);
                            assert(search.depth@[q] == 0);
                        }
                    }
                },
                None => {
                    cur = None;
                },
            }
        }
        n
    }
}

} // verus!
