use vstd::prelude::*;
use crate::identity::{identity, identity_of};

verus! {

/// The rows a record adds to the page buffer and the edge buffer.
pub open spec fn edge_rows(source: i64, links: Seq<String>) -> Seq<(i64, i64)> {
    links.map_values(|l: String| (source, identity_of(l@)))
}

/// Which buffers reached their threshold and must be flushed.
pub struct FlushNeeds {
    pub pages: bool,
    pub links: bool,
}

/// How a buffer of `n` rows is written, from row `pos` on: as many full
/// groups of `width` rows as fit, then the rest one row at a time. Each
/// entry is a half-open range of row indices.
pub open spec fn flush_plan(pos: int, n: int, width: int) -> Seq<(int, int)>
    decreases n - pos,
{
    if pos >= n || width <= 0 {
        Seq::empty()
    } else if n - pos >= width {
        seq![(pos, pos + width)] + flush_plan(pos + width, n, width)
    } else {
        seq![(pos, pos + 1)] + flush_plan(pos + 1, n, width)
    }
}

/// The statement groups for writing `n` buffered rows with batches of `width` rows.
pub fn batch_ranges(n: usize, width: usize) -> (r: Vec<(usize, usize)>)
    requires
        width > 0,
    ensures
        r@.map_values(|p: (usize, usize)| (p.0 as int, p.1 as int)) == flush_plan(0, n as int, width as int),
{
    let mut r: Vec<(usize, usize)> = Vec::new();
    let mut pos: usize = 0;
    while pos < n
        invariant
            width > 0,
            pos <= n,
            flush_plan(0, n as int, width as int) == r@.map_values(|p: (usize, usize)| (p.0 as int, p.1 as int))
                + flush_plan(pos as int, n as int, width as int),
        decreases n - pos,
    {
        let ghost before = r@;
        let next = if n - pos >= width {
            pos + width
        } else {
            pos + 1
        };
        r.push((pos, next));
        proof {
            let f = |p: (usize, usize)| (p.0 as int, p.1 as int);
            assert(r@.map_values(f) =~= before.map_values(f).push((pos as int, next as int)));
            assert(before.map_values(f) + flush_plan(pos as int, n as int, width as int) =~= r@.map_values(f)
                + flush_plan(next as int, n as int, width as int));
        }
        pos = next;
    }
    assert(r@.map_values(|p: (usize, usize)| (p.0 as int, p.1 as int)) + flush_plan(pos as int, n as int, width as int)
        =~= r@.map_values(|p: (usize, usize)| (p.0 as int, p.1 as int)));
    r
}

/// Buffers page rows and edge rows between flushes to the graph store.
pub struct GraphIngestor {
    batch_size: usize,
    pages_insert_threshold: usize,
    links_insert_threshold: usize,
    pages_to_insert: Vec<(i64, String, bool)>,
    links_to_insert: Vec<(i64, i64)>,
}

impl GraphIngestor {
    /// Buffered `(id, title, is_redirect)` rows, oldest first.
    pub closed spec fn pending_pages(&self) -> Seq<(i64, String, bool)> {
        self.pages_to_insert@
    }

    /// Buffered `(source_id, destination_id)` rows, oldest first.
    pub closed spec fn pending_links(&self) -> Seq<(i64, i64)> {
        self.links_to_insert@
    }

    pub closed spec fn batch(&self) -> nat {
        self.batch_size as nat
    }

    pub closed spec fn page_threshold(&self) -> nat {
        self.pages_insert_threshold as nat
    }

    pub closed spec fn link_threshold(&self) -> nat {
        self.links_insert_threshold as nat
    }

    /// An empty buffer that asks for a flush of pages at
    /// `pages_insert_threshold` rows and of edges at `links_insert_threshold`
    /// rows, written in groups of `batch_size` rows.
    pub fn new(batch_size: usize, pages_insert_threshold: usize, links_insert_threshold: usize) -> (r: GraphIngestor)
        requires
            batch_size > 0,
        ensures
            r.batch() == batch_size,
            r.page_threshold() == pages_insert_threshold,
            r.link_threshold() == links_insert_threshold,
            r.pending_pages().len() == 0,
            r.pending_links().len() == 0,
    {
        GraphIngestor {
            batch_size,
            pages_insert_threshold,
            links_insert_threshold,
            pages_to_insert: Vec::new(),
            links_to_insert: Vec::new(),
        }
    }

    pub fn batch_size(&self) -> (r: usize)
        ensures
            r == self.batch(),
    {
        self.batch_size
    }

    /// Buffers one parsed record: a page row keyed by the identity of its
    /// title, and one edge row per link, in order, keyed by the identities
    /// of title and link. Reports which buffers reached their threshold.
    pub fn cache(&mut self, title: String, links: Vec<String>, is_redirect: bool) -> (r: FlushNeeds)
        ensures
            final(self).batch() == old(self).batch(),
            final(self).page_threshold() == old(self).page_threshold(),
            final(self).link_threshold() == old(self).link_threshold(),
            final(self).pending_pages().len() == old(self).pending_pages().len() + 1,
            forall|i: int| 0 <= i < old(self).pending_pages().len() ==> #[trigger] final(self).pending_pages()[i]
                == old(self).pending_pages()[i],
            ({
                let row = final(self).pending_pages().last();
                row.0 == identity_of(title@) && row.1@ == title@ && row.2 == is_redirect
            }),
            final(self).pending_links() == old(self).pending_links() + edge_rows(identity_of(title@), links@),
            r.pages == (final(self).pending_pages().len() >= final(self).page_threshold()),
            r.links == (final(self).pending_links().len() >= final(self).link_threshold()),
    {
        let id = identity(title.as_str());
        self.pages_to_insert.push((id, title, is_redirect));
        let ghost start = self.links_to_insert@;
        let ghost pages = self.pages_to_insert@;
        let mut k: usize = 0;
        while k < links.len()
            invariant
                self.pages_to_insert@ == pages,
                pages == old(self).pages_to_insert@.push((id, title, is_redirect)),
                self.batch_size == old(self).batch_size,
                self.pages_insert_threshold == old(self).pages_insert_threshold,
                self.links_insert_threshold == old(self).links_insert_threshold,
                start == old(self).links_to_insert@,
                k <= links@.len(),
                self.links_to_insert@ == start + edge_rows(id, links@.take(k as int)),
            decreases links@.len() - k,
        {
            let dest = identity(links[k].as_str());
            self.links_to_insert.push((id, dest));
            proof {
                assert(edge_rows(id, links@.take(k + 1)) =~= edge_rows(id, links@.take(k as int)).push((id, dest)));
            }
            k = k + 1;
        }
        assert(links@.take(links@.len() as int) =~= links@);
        FlushNeeds {
            pages: self.pages_to_insert.len() >= self.pages_insert_threshold,
            links: self.links_to_insert.len() >= self.links_insert_threshold,
        }
    }

    /// Hands out the buffered page rows and empties that buffer.
    pub fn take_pages(&mut self) -> (r: Vec<(i64, String, bool)>)
        ensures
            r@ == old(self).pending_pages(),
            final(self).pending_pages().len() == 0,
            final(self).pending_links() == old(self).pending_links(),
            final(self).batch() == old(self).batch(),
            final(self).page_threshold() == old(self).page_threshold(),
            final(self).link_threshold() == old(self).link_threshold(),
    {
        let mut out: Vec<(i64, String, bool)> = Vec::new();
        std::mem::swap(&mut out, &mut self.pages_to_insert);
        out
    }

    /// Hands out the buffered edge rows and empties that buffer.
    pub fn take_links(&mut self) -> (r: Vec<(i64, i64)>)
        ensures
            r@ == old(self).pending_links(),
            final(self).pending_links().len() == 0,
            final(self).pending_pages() == old(self).pending_pages(),
            final(self).batch() == old(self).batch(),
            final(self).page_threshold() == old(self).page_threshold(),
            final(self).link_threshold() == old(self).link_threshold(),
    {
        let mut out: Vec<(i64, i64)> = Vec::new();
        std::mem::swap(&mut out, &mut self.links_to_insert);
        out
    }
}

} // verus!
