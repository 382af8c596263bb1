use vstd::prelude::*;
use crate::identity::{chars_of, string_of};
use crate::text::{
    before_char, before_char_exec, extend, find_char_from, find_char_from_exec, find_from,
    find_from_exec, lemma_find_bounds, lemma_find_char_bounds, occurs_at, slice,
    starts_with, starts_with_exec, trim, trim_exec,
};

verus! {

/// The text that opens the body of a redirect record.
pub open spec fn redirect_marker() -> Seq<char> {
    "#REDIRECT [["@
}

/// Section headers at which link extraction stops.
pub open spec fn see_also_header() -> Seq<char> {
    "==See also=="@
}

pub open spec fn references_header() -> Seq<char> {
    "==References=="@
}

/// Title prefixes of pages that are not articles.
pub open spec fn namespaces() -> Seq<Seq<char>> {
    seq![
        "Wikipedia:"@,
        "Category:"@,
        "File:"@,
        "Special:"@,
        "Template:"@,
        "Template_talk:"@,
        "User:"@,
        "WP:"@,
        "Help:"@,
        "File:"@,
    ]
}

/// `s` begins with a non-article namespace prefix.
pub open spec fn has_excluded_prefix(s: Seq<char>) -> bool {
    exists|k: int| 0 <= k < namespaces().len() && starts_with(s, #[trigger] namespaces()[k])
}

/// The first index at or after `i` that holds `|` or `]`: where a link title ends.
pub open spec fn link_end_from(t: Seq<char>, i: int) -> Option<int>
    decreases t.len() - i,
{
    if i < 0 || i >= t.len() {
        None
    } else if t[i] == '|' || t[i] == ']' {
        Some(i)
    } else {
        link_end_from(t, i + 1)
    }
}

/// What a trimmed candidate link contributes: nothing when it lies in an
/// excluded namespace or is a pure anchor, else its text before any `#`.
pub open spec fn kept_link(l: Seq<char>) -> Option<Seq<char>> {
    if has_excluded_prefix(l) {
        None
    } else {
        match find_char_from(l, '#', 0) {
            Some(k) => if k == 0 {
                None
            } else {
                Some(l.take(k))
            },
            None => Some(l),
        }
    }
}

/// The links of `t` found from index `i` on: each `[[` (matched without
/// overlap) opens a candidate that runs to the next `|` or `]`; a candidate
/// with no such end stops the scan.
pub open spec fn scan_links(t: Seq<char>, i: int) -> Seq<Seq<char>>
    decreases t.len() - i,
{
    if i < 0 || i + 2 > t.len() {
        Seq::empty()
    } else if t[i] == '[' && t[i + 1] == '[' {
        match link_end_from(t, i + 2) {
            None => Seq::empty(),
            Some(e) => {
                let rest = scan_links(t, i + 2);
                match kept_link(trim(t.subrange(i + 2, e))) {
                    Some(l) => seq![l] + rest,
                    None => rest,
                }
            },
        }
    } else {
        scan_links(t, i + 1)
    }
}

/// Where link extraction stops: the first "See also" or "References"
/// header, whichever comes first, else the end of the body.
pub open spec fn link_limit(b: Seq<char>) -> int {
    match (find_from(b, see_also_header(), 0), find_from(b, references_header(), 0)) {
        (Some(k), Some(m)) => if k <= m {
            k
        } else {
            m
        },
        (Some(k), None) => k,
        (None, Some(m)) => m,
        (None, None) => b.len() as int,
    }
}

/// The body is a redirect.
pub open spec fn is_redirect_body(b: Seq<char>) -> bool {
    b.len() > redirect_marker().len() && starts_with(b, redirect_marker())
}

/// The links of a body and whether it is a redirect; `None` for a redirect
/// with no closing `]]`.
pub open spec fn parse_body(b: Seq<char>) -> Option<(Seq<Seq<char>>, bool)> {
    if is_redirect_body(b) {
        match find_from(b, "]]"@, redirect_marker().len() as int) {
            None => None,
            Some(e) => {
                let target = trim(before_char(trim(b.subrange(redirect_marker().len() as int, e)), '#'));
                if has_excluded_prefix(target) {
                    Some((Seq::empty(), true))
                } else {
                    Some((seq![target], true))
                }
            },
        }
    } else {
        Some((scan_links(b.take(link_limit(b)), 0), false))
    }
}

/// The message for a redirect record with no closing `]]`.
pub open spec fn redirect_error(title: Seq<char>) -> Seq<char> {
    "Getting redirect link from '"@ + title + "' failed"@
}

/// The views of a list of strings.
pub open spec fn views(v: Seq<String>) -> Seq<Seq<char>> {
    v.map_values(|s: String| s@)
}

/// The namespace prefixes, as character vectors.
pub fn namespace_prefixes() -> (r: Vec<Vec<char>>)
    ensures
        r@.len() == namespaces().len(),
        forall|k: int| 0 <= k < r@.len() ==> #[trigger] r@[k]@ == namespaces()[k],
{
    let mut r: Vec<Vec<char>> = Vec::new();
    r.push(chars_of("Wikipedia:"));
    r.push(chars_of("Category:"));
    r.push(chars_of("File:"));
    r.push(chars_of("Special:"));
    r.push(chars_of("Template:"));
    r.push(chars_of("Template_talk:"));
    r.push(chars_of("User:"));
    r.push(chars_of("WP:"));
    r.push(chars_of("Help:"));
    r.push(chars_of("File:"));
    r
}

/// Whether `s` begins with one of the prefixes.
pub fn excluded_prefix_exec(s: &Vec<char>, prefixes: &Vec<Vec<char>>) -> (r: bool)
    requires
        prefixes@.len() == namespaces().len(),
        forall|k: int| 0 <= k < prefixes@.len() ==> #[trigger] prefixes@[k]@ == namespaces()[k],
    ensures
        r == has_excluded_prefix(s@),
{
    let mut k: usize = 0;
    while k < prefixes.len()
        invariant
            k <= prefixes@.len(),
            prefixes@.len() == namespaces().len(),
            forall|m: int| 0 <= m < prefixes@.len() ==> #[trigger] prefixes@[m]@ == namespaces()[m],
            forall|m: int| 0 <= m < k ==> !starts_with(s@, #[trigger] namespaces()[m]),
        decreases prefixes@.len() - k,
    {
        if starts_with_exec(s, &prefixes[k]) {
            return true;
        }
        k = k + 1;
    }
    false
}

/// The first index at or after `i` that holds `|` or `]`.
fn link_end_exec(t: &Vec<char>, i: usize) -> (r: Option<usize>)
    ensures
        match r {
            Some(e) => link_end_from(t@, i as int) == Some(e as int) && i <= e < t.len(),
            None => link_end_from(t@, i as int) is None,
        },
{
    let mut j: usize = i;
    while j < t.len()
        invariant
            i <= j,
            link_end_from(t@, i as int) == link_end_from(t@, j as int),
        decreases t.len() - j,
    {
        if t[j] == '|' || t[j] == ']' {
            return Some(j);
        }
        j = j + 1;
    }
    None
}

/// The link a trimmed candidate contributes, if any.
fn kept_link_exec(l: &Vec<char>, prefixes: &Vec<Vec<char>>) -> (r: Option<Vec<char>>)
    requires
        prefixes@.len() == namespaces().len(),
        forall|k: int| 0 <= k < prefixes@.len() ==> #[trigger] prefixes@[k]@ == namespaces()[k],
    ensures
        match r {
            Some(v) => kept_link(l@) == Some(v@),
            None => kept_link(l@) is None,
        },
{
    if excluded_prefix_exec(l, prefixes) {
        return None;
    }
    match find_char_from_exec(l, '#', 0) {
        Some(k) => {
            if k == 0 {
                None
            } else {
                proof { lemma_find_char_bounds(l@, '#', 0); }
                Some(slice(l, 0, k))
            }
        },
        None => Some(l.clone()),
    }
}

/// The links of `t`, in document order, as `scan_links` describes them.
pub fn scan_links_exec(t: &Vec<char>, prefixes: &Vec<Vec<char>>) -> (r: Vec<String>)
    requires
        prefixes@.len() == namespaces().len(),
        forall|k: int| 0 <= k < prefixes@.len() ==> #[trigger] prefixes@[k]@ == namespaces()[k],
    ensures
        views(r@) == scan_links(t@, 0),
{
    let mut out: Vec<String> = Vec::new();
    let mut i: usize = 0;
    while t.len() >= 2 && i <= t.len() - 2
        invariant
            i <= t.len(),
            prefixes@.len() == namespaces().len(),
            forall|k: int| 0 <= k < prefixes@.len() ==> #[trigger] prefixes@[k]@ == namespaces()[k],
            scan_links(t@, 0) == views(out@) + scan_links(t@, i as int),
        decreases t.len() - i,
    {
        if t[i] == '[' && t[i + 1] == '[' {
            match link_end_exec(t, i + 2) {
                None => {
                    assert(scan_links(t@, i as int) == Seq::<Seq<char>>::empty());
                    assert(views(out@) + Seq::<Seq<char>>::empty() =~= views(out@));
                    return out;
                },
                Some(e) => {
                    let cand = trim_exec(&slice(t, i + 2, e));
                    match kept_link_exec(&cand, prefixes) {
                        Some(l) => {
                            let ghost before = out@;
                            out.push(string_of(&l));
                            assert(views(out@) =~= views(before).push(l@));
                            assert(views(before) + scan_links(t@, i as int) =~= views(out@)
                                + scan_links(t@, i + 2));
                        },
                        None => {},
                    }
                    i = i + 2;
                },
            }
        } else {
            i = i + 1;
        }
    }
    assert(views(out@) + scan_links(t@, i as int) =~= views(out@));
    out
}

/// Parses one article body: the link titles it holds, in document order, and
/// whether it is a redirect. A redirect with no closing `]]` is an error that
/// names the record's title.
pub fn get_links_from_body(body: String, title: &String) -> (r: Result<(Vec<String>, bool), String>)
    ensures
        match parse_body(body@) {
            Some((links, redirect)) => r matches Ok((v, red)) && views(v@) == links && red
                == redirect,
            None => r matches Err(e) && e@ == redirect_error(title@),
        },
{
    let b = chars_of(body.as_str());
    let prefixes = namespace_prefixes();
    let marker = chars_of("#REDIRECT [[");
    if b.len() > marker.len() && starts_with_exec(&b, &marker) {
        let close = chars_of("]]");
        match find_from_exec(&b, &close, marker.len()) {
            None => {
                let mut msg = chars_of("Getting redirect link from '");
                extend(&mut msg, &chars_of(title.as_str()));
                extend(&mut msg, &chars_of("' failed"));
                Err(string_of(&msg))
            },
            Some(e) => {
                proof { lemma_find_bounds(b@, close@, marker@.len() as int); }
                let inner = trim_exec(&slice(&b, marker.len(), e));
                let target = trim_exec(&before_char_exec(&inner, '#'));
                if excluded_prefix_exec(&target, &prefixes) {
                    let v: Vec<String> = Vec::new();
                    assert(views(v@) =~= Seq::<Seq<char>>::empty());
                    Ok((v, true))
                } else {
                    let mut v: Vec<String> = Vec::new();
                    v.push(string_of(&target));
                    assert(views(v@) =~= seq![target@]);
                    Ok((v, true))
                }
            },
        }
    } else {
        let see_also = chars_of("==See also==");
        let references = chars_of("==References==");
        let limit = match (find_from_exec(&b, &see_also, 0), find_from_exec(&b, &references, 0)) {
            (Some(k), Some(m)) => if k <= m {
                k
            } else {
                m
            },
            (Some(k), None) => k,
            (None, Some(m)) => m,
            (None, None) => b.len(),
        };
        proof {
            lemma_find_bounds(b@, see_also@, 0);
            lemma_find_bounds(b@, references@, 0);
        }
        let t = slice(&b, 0, limit);
        assert(t@ == b@.take(link_limit(b@)));
        Ok((scan_links_exec(&t, &prefixes), false))
    }
}

/// A redirect body that parses gives at most one link: its target, unless
/// the target lies in an excluded namespace.
pub proof fn lemma_redirect_single_link(b: Seq<char>)
    requires
        is_redirect_body(b),
        parse_body(b) is Some,
    ensures
        (parse_body(b)->0).1,
        (parse_body(b)->0).0.len() <= 1,
        ({
            let e = find_from(b, "]]"@, redirect_marker().len() as int)->0;
            let target = trim(before_char(trim(b.subrange(redirect_marker().len() as int, e)), '#'));
            (parse_body(b)->0).0.len() == 1 <==> !has_excluded_prefix(target)
        }),
{
}

} // verus!
