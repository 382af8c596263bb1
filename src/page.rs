use vstd::prelude::*;
use crate::identity::{chars_of, identity, identity_of, string_of};
use crate::text::extend;

verus! {

/// What `char::to_uppercase` yields first for a character.
pub uninterp spec fn upper_of(c: char) -> char;

/// Relies on `char::to_uppercase`: the first character of its result; the
/// iterator it returns always yields at least one character.
#[verifier::external_body]
fn first_upper(c: char) -> (r: char)
    ensures
        r == upper_of(c),
{
    c.to_uppercase().next().unwrap()
}

/// Title case for display: the first character of the title and each
/// character after a space are upper-cased, the rest is kept.
pub open spec fn titlecase(s: Seq<char>) -> Seq<char> {
    Seq::new(
        s.len(),
        |i: int|
            if s[i] == ' ' {
                ' '
            } else if i == 0 || s[i - 1] == ' ' {
                upper_of(s[i])
            } else {
                s[i]
            },
    )
}

/// The arrow shown after a hop: distinct for a redirect page.
pub open spec fn hop_arrow(redirect: bool) -> Seq<char> {
    if redirect {
        " =?=>"@
    } else {
        " --->"@
    }
}

/// One line of a displayed path for a page that is not the last.
pub open spec fn hop_line(title: Seq<char>, redirect: bool) -> Seq<char> {
    titlecase(title) + hop_arrow(redirect)
}

/// A path shown one page per line, from start to target; every page but the
/// last carries the arrow of its kind.
pub open spec fn render(hops: Seq<(Seq<char>, bool)>) -> Seq<char>
    decreases hops.len(),
{
    if hops.len() == 0 {
        Seq::empty()
    } else if hops.len() == 1 {
        titlecase(hops[0].0)
    } else {
        hop_line(hops[0].0, hops[0].1) + seq!['\n'] + render(hops.drop_first())
    }
}

fn titlecase_chars(s: &Vec<char>) -> (r: Vec<char>)
    ensures
        r@ == titlecase(s@),
{
    let mut r: Vec<char> = Vec::with_capacity(s.len());
    let mut capitalise = true;
    for i in 0..s.len()
        invariant
            r@ == titlecase(s@).take(i as int),
            capitalise <==> (i == 0 || s@[i - 1] == ' '),
    {
        let c = s[i];
        if c == ' ' {
            capitalise = true;
            r.push(' ');
        } else if capitalise {
            r.push(first_upper(c));
            capitalise = false;
        } else {
            r.push(c);
            capitalise = false;
        }
        assert(r@ =~= titlecase(s@).take(i + 1));
    }
    assert(r@ =~= titlecase(s@));
    r
}

/// The title in title case, as paths are displayed.
pub fn to_titlecase(name: &String) -> (r: String)
    ensures
        r@ == titlecase(name@),
{
    string_of(&titlecase_chars(&chars_of(name.as_str())))
}

fn hop_line_chars(title: &String, redirect: bool) -> (r: Vec<char>)
    ensures
        r@ == hop_line(title@, redirect),
{
    let mut out = titlecase_chars(&chars_of(title.as_str()));
    if redirect {
        extend(&mut out, &chars_of(" =?=>"));
    } else {
        extend(&mut out, &chars_of(" --->"));
    }
    out
}

/// Renders a path of `(title, is_redirect)` pages, start first.
pub fn render_path(hops: &Vec<(String, bool)>) -> (r: String)
    ensures
        r@ == render(hops@.map_values(|h: (String, bool)| (h.0@, h.1))),
{
    let ghost hv = hops@.map_values(|h: (String, bool)| (h.0@, h.1));
    let mut out: Vec<char> = Vec::new();
    if hops.len() == 0 {
        return string_of(&out);
    }
    let mut i: usize = 0;
    assert(hv.skip(0) =~= hv);
    assert(out@ + render(hv) =~= render(hv));
    while i + 1 < hops.len()
        invariant
            hv == hops@.map_values(|h: (String, bool)| (h.0@, h.1)),
            hops.len() > 0,
            i < hops.len(),
            render(hv) == out@ + render(hv.skip(i as int)),
        decreases hops.len() - i,
    {
        let line = hop_line_chars(&hops[i].0, hops[i].1);
        extend(&mut out, &line);
        out.push('\n');
        proof {
            assert(hv.skip(i as int).drop_first() =~= hv.skip(i + 1));
            assert(hv.skip(i as int)[0] == hv[i as int]);
        }
        i = i + 1;
    }
    proof {
        assert(hv.skip(i as int).len() == 1);
        assert(hv.skip(i as int)[0] == hv[i as int]);
    }
    extend(&mut out, &titlecase_chars(&chars_of(hops[i].0.as_str())));
    string_of(&out)
}

/// A page of the graph, known by the id of its title.
pub struct Page {
    pub id: i64,
    pub from_redirect: bool,
}

impl Page {
    pub fn new(id: i64, from_redirect: bool) -> (r: Page)
        ensures
            r.id == id,
            r.from_redirect == from_redirect,
    {
        Page { id, from_redirect }
    }

    /// The page whose id is the identity of `title`.
    pub fn from_title(title: String, from_redirect: bool) -> (r: Page)
        ensures
            r.id == identity_of(title@),
            r.from_redirect == from_redirect,
    {
        Page { id: identity(title.as_str()), from_redirect }
    }
}

impl PartialEq for Page {
    fn eq(&self, other: &Page) -> (r: bool) {
        self.id == other.id
    }
}

impl vstd::std_specs::cmp::PartialEqSpecImpl for Page {
    open spec fn obeys_eq_spec() -> bool {
        true
    }

    open spec fn eq_spec(&self, other: &Page) -> bool {
        self.id == other.id
    }
}

impl Eq for Page {}

/// A page together with the page it was discovered from during a search.
pub struct LinkedPage {
    pub page: i64,
    pub from: Option<i64>,
}

impl LinkedPage {
    pub fn new(page: i64, from: Option<i64>) -> (r: LinkedPage)
        ensures
            r.page == page,
            r.from == from,
    {
        LinkedPage { page, from }
    }

    /// One line of a displayed path for a page that is not the last: its
    /// title in title case, then the arrow of a redirect or of a link.
    pub fn fmt_title(title: String, redirect: bool) -> (r: String)
        ensures
            r@ == hop_line(title@, redirect),
    {
        string_of(&hop_line_chars(&title, redirect))
    }
}

impl PartialEq for LinkedPage {
    fn eq(&self, other: &LinkedPage) -> (r: bool) {
        self.page == other.page
    }
}

impl vstd::std_specs::cmp::PartialEqSpecImpl for LinkedPage {
    open spec fn obeys_eq_spec() -> bool {
        true
    }

    open spec fn eq_spec(&self, other: &LinkedPage) -> bool {
        self.page == other.page
    }
}

impl Eq for LinkedPage {}

/// A redirect hop and a link hop of the same title are shown differently.
pub proof fn lemma_redirect_hop_marked(title: Seq<char>)
    ensures
        hop_line(title, true) != hop_line(title, false),
{
    reveal_strlit(" =?=>");
    reveal_strlit(" --->");
    let n = titlecase(title).len() as int;
    assert(hop_line(title, true)[n + 2] == '?');
    assert(hop_line(title, false)[n + 2] == '-');
}

} // verus!
