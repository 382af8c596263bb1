use std::collections::hash_map::DefaultHasher;
use std::hash::{Hash, Hasher};
use wiki_path::corpus::RecordScanner;
use wiki_path::graph::{LinkGraph, PageTable};
use wiki_path::identity::identity;
use wiki_path::ingest::{batch_ranges, GraphIngestor};
use wiki_path::page::{render_path, to_titlecase, LinkedPage, Page};
use wiki_path::parser::get_links_from_body;
use wiki_path::search::{find_path, search_graph, PathSearch};

fn std_id(s: &str) -> i64 {
    let mut h = DefaultHasher::new();
    s.hash(&mut h);
    h.finish() as i64
}

fn links_of(body: &str) -> (Vec<String>, bool) {
    get_links_from_body(body.to_string(), &"T".to_string()).unwrap()
}

fn graph_of(edges: &[(i64, i64)]) -> LinkGraph {
    let mut g = LinkGraph::new();
    for e in edges {
        g.insert_edge(e.0, e.1);
    }
    g
}

#[test]
fn identity_ignores_ascii_case() {
    assert_eq!(identity("Paris"), identity("paris"));
    assert_eq!(identity("Paris"), identity("Paris"));
    assert_eq!(identity("PARIS"), identity("paris"));
    assert_ne!(identity("Paris"), identity("London"));
}

#[test]
fn identity_hashes_the_lowercased_title() {
    assert_eq!(identity("Paris"), std_id("paris"));
    assert_eq!(identity("Bedford"), std_id("bedford"));
    assert_eq!(identity(""), std_id(""));
}

#[test]
fn page_from_title_uses_identity() {
    let p = Page::from_title("Paris".to_string(), true);
    assert_eq!(p.id, identity("paris"));
    assert!(p.from_redirect);
    let q = Page::new(7, false);
    assert_eq!(q.id, 7);
    assert!(!q.from_redirect);
    assert!(Page::new(7, true) == Page::new(7, false));
}

#[test]
fn links_in_document_order() {
    assert_eq!(links_of("[[B]] [[C]]"), (vec!["B".to_string(), "C".to_string()], false));
    assert_eq!(links_of("no links here"), (vec![], false));
    assert_eq!(links_of(""), (vec![], false));
    assert_eq!(links_of("[[A]] [[A]]"), (vec!["A".to_string(), "A".to_string()], false));
}

#[test]
fn link_titles_are_cut_trimmed_and_filtered() {
    let (links, redirect) =
        links_of("[[Foo|bar]] [[Baz#Sec]] [[#Anchor]] [[Category:X]] [[ Spaced ]] [[File:Y.png|thumb]] [[Help:Z]]");
    assert!(!redirect);
    assert_eq!(links, vec!["Foo".to_string(), "Baz".to_string(), "Spaced".to_string()]);
}

#[test]
fn links_stop_at_see_also_and_references() {
    assert_eq!(links_of("[[A]]\n==See also==\n[[D]]").0, vec!["A".to_string()]);
    assert_eq!(links_of("[[A]]\n==References==\n[[D]]").0, vec!["A".to_string()]);
    assert_eq!(links_of("[[A]]\n==References==\n[[B]]\n==See also==\n[[C]]").0, vec!["A".to_string()]);
    assert_eq!(links_of("[[A]] ==See also== [[B]] ==References== [[C]]").0, vec!["A".to_string()]);
}

#[test]
fn unterminated_link_ends_the_scan() {
    assert_eq!(links_of("[[A]] [[B").0, vec!["A".to_string()]);
}

#[test]
fn redirect_bodies() {
    assert_eq!(links_of("#REDIRECT [[Target#Sec]]"), (vec!["Target".to_string()], true));
    assert_eq!(links_of("#REDIRECT [[ Target ]] {{R}}"), (vec!["Target".to_string()], true));
    assert_eq!(links_of("#REDIRECT [[Category:Foo]]"), (vec![], true));
    let err = get_links_from_body("#REDIRECT [[Oops".to_string(), &"Broken".to_string());
    assert_eq!(err, Err("Getting redirect link from 'Broken' failed".to_string()));
}

#[test]
fn scanner_yields_records() {
    let mut sc = RecordScanner::new();
    let lines = [
        "<page>",
        "    <title>Alpha</title>",
        "    <ns>0</ns>",
        "      <text bytes=\"10\" xml:space=\"preserve\">first [[B]]",
        "second [[C]]</text>",
        "    <title>Category:Skip</title>",
        "      <text xml:space=\"preserve\">[[X]]</text>",
        "    <title>Talk about Category:Things</title>",
        "      <text xml:space=\"preserve\">[[Y]]</text>",
        "    <title>Beta</title>",
        "      <text xml:space=\"preserve\">only [[D]]</text>",
    ];
    let mut out = Vec::new();
    for l in lines.iter() {
        if let Some(r) = sc.feed_line(l) {
            out.push(r);
        }
    }
    assert_eq!(
        out,
        vec![
            ("Alpha".to_string(), "first [[B]]\nsecond [[C]]".to_string()),
            ("Talk about Category:Things".to_string(), "[[Y]]".to_string()),
            ("Beta".to_string(), "only [[D]]".to_string()),
        ]
    );
}

#[test]
fn titlecase_for_display() {
    assert_eq!(to_titlecase(&"hello big world".to_string()), "Hello Big World");
    assert_eq!(to_titlecase(&"élan vital".to_string()), "Élan Vital");
    assert_eq!(to_titlecase(&"".to_string()), "");
}

#[test]
fn hop_lines_mark_redirects() {
    assert_eq!(LinkedPage::fmt_title("paris".to_string(), true), "Paris =?=>");
    assert_eq!(LinkedPage::fmt_title("paris".to_string(), false), "Paris --->");
    let hops = vec![("a".to_string(), false), ("b".to_string(), true), ("d".to_string(), false)];
    assert_eq!(render_path(&hops), "A --->\nB =?=>\nD");
    assert_eq!(render_path(&vec![("x y".to_string(), true)]), "X Y");
}

#[test]
fn duplicate_edge_is_stored_once() {
    let mut g = LinkGraph::new();
    assert!(g.insert_edge(1, 2));
    assert!(!g.insert_edge(1, 2));
    assert_eq!(g.edge_count(), 1);
    g.insert_edges(&vec![(1, 2), (2, 3), (2, 3)]);
    assert_eq!(g.edge_count(), 2);
    assert_eq!(g.edges_from(1), vec![2]);
}

#[test]
fn exhausted_search_visits_reachable_set() {
    let g = graph_of(&[(1, 2), (2, 3), (3, 1), (2, 1), (4, 5), (5, 1)]);
    let s = search_graph(&g, 1, 99);
    assert!(!s.is_found());
    assert_eq!(s.visited_count(), 3);
    assert_eq!(s.expansion_count(), 3);
    let s4 = search_graph(&g, 4, 99);
    assert_eq!(s4.visited_count(), 5);
    assert_eq!(s4.expansion_count(), 5);
}

#[test]
fn unique_shortest_path_is_reported() {
    let g = graph_of(&[(1, 5), (5, 6), (6, 7), (7, 4), (1, 2), (2, 3), (3, 4)]);
    assert_eq!(find_path(&g, 1, 4), Some(vec![1, 2, 3, 4]));
    assert_eq!(find_path(&g, 1, 2), Some(vec![1, 2]));
}

#[test]
fn disconnected_graph_reports_unreachable() {
    let g = graph_of(&[(1, 2), (2, 1), (3, 4), (4, 3)]);
    assert_eq!(find_path(&g, 1, 4), None);
    assert_eq!(find_path(&g, 1, 1), None);
    assert_eq!(find_path(&LinkGraph::new(), 1, 2), None);
}

#[test]
fn stepwise_search_and_count() {
    let mut s = PathSearch::new(10, 30);
    assert_eq!(s.next_page(), Some(10));
    assert!(!s.expand(&vec![20, 10]));
    assert_eq!(s.next_page(), Some(20));
    assert!(s.expand(&vec![30, 40]));
    assert!(s.is_found());
    assert_eq!(s.next_page(), None);
    assert_eq!(s.path(), vec![10, 20, 30]);
    assert_eq!(LinkedPage::new(30, Some(20)).count(&s), 3);
    assert_eq!(LinkedPage::new(10, None).count(&s), 1);
    let mut t = PathSearch::new(1, 2);
    assert_eq!(t.next_page(), Some(1));
    assert!(!t.expand(&vec![]));
    assert_eq!(t.next_page(), None);
    assert!(t.path().is_empty());
}

#[test]
fn flush_groups() {
    assert_eq!(batch_ranges(7, 3), vec![(0, 3), (3, 6), (6, 7)]);
    assert_eq!(batch_ranges(2, 3), vec![(0, 1), (1, 2)]);
    assert_eq!(batch_ranges(0, 3), vec![]);
    assert_eq!(batch_ranges(6, 3), vec![(0, 3), (3, 6)]);
}

#[test]
fn ingestor_buffers_and_thresholds() {
    let mut ing = GraphIngestor::new(2, 2, 3);
    let n = ing.cache("Alpha".to_string(), vec!["Beta".to_string(), "gamma".to_string()], false);
    assert!(!n.pages);
    assert!(!n.links);
    let n = ing.cache("Beta".to_string(), vec!["Alpha".to_string()], true);
    assert!(n.pages);
    assert!(n.links);
    let pages = ing.take_pages();
    assert_eq!(pages, vec![(identity("alpha"), "Alpha".to_string(), false), (identity("beta"), "Beta".to_string(), true)]);
    let links = ing.take_links();
    assert_eq!(
        links,
        vec![
            (identity("Alpha"), identity("Beta")),
            (identity("Alpha"), identity("Gamma")),
            (identity("Beta"), identity("Alpha")),
        ]
    );
    assert!(ing.take_pages().is_empty());
    assert_eq!(ing.batch_size(), 2);
}

#[test]
fn page_table_keeps_first_row() {
    let mut t = PageTable::new();
    assert!(t.insert_page(1, "One".to_string(), false));
    assert!(!t.insert_page(1, "Uno".to_string(), true));
    assert_eq!(t.page_by_id(1), Some(("One".to_string(), false)));
    assert_eq!(t.page_by_id(2), None);
}

fn ingest_corpus(lines: &[&str]) -> (LinkGraph, PageTable) {
    let mut sc = RecordScanner::new();
    let mut ing = GraphIngestor::new(2, 1000, 1000);
    for l in lines {
        if let Some((title, body)) = sc.feed_line(l) {
            let (links, redirect) = get_links_from_body(body, &title).unwrap();
            ing.cache(title, links, redirect);
        }
    }
    let mut g = LinkGraph::new();
    g.insert_edges(&ing.take_links());
    let mut pages = PageTable::new();
    for (id, title, redirect) in ing.take_pages() {
        pages.insert_page(id, title, redirect);
    }
    (g, pages)
}

fn shown(path: &[i64], pages: &PageTable) -> String {
    let hops: Vec<(String, bool)> = path.iter().map(|id| pages.page_by_id(*id).unwrap()).collect();
    render_path(&hops)
}

#[test]
fn see_also_scenario_paths_through_b() {
    let (g, pages) = ingest_corpus(&[
        "    <title>A</title>",
        "      <text xml:space=\"preserve\">[[B]] [[C]]</text>",
        "    <title>B</title>",
        "      <text xml:space=\"preserve\">[[D]]</text>",
        "    <title>C</title>",
        "      <text xml:space=\"preserve\">intro",
        "==See also==",
        "[[D]]</text>",
        "    <title>D</title>",
        "      <text xml:space=\"preserve\"></text>",
    ]);
    let (a, b, c, d) = (identity("A"), identity("B"), identity("C"), identity("D"));
    assert_eq!(g.edge_count(), 3);
    assert_eq!(g.edges_from(a), vec![b, c]);
    assert_eq!(g.edges_from(b), vec![d]);
    assert!(g.edges_from(c).is_empty());
    let path = find_path(&g, a, d).unwrap();
    assert_eq!(path, vec![a, b, d]);
    assert_eq!(shown(&path, &pages), "A --->\nB --->\nD");
}

#[test]
fn redirect_record_has_one_edge_and_marked_hop() {
    let (g, pages) = ingest_corpus(&[
        "    <title>Start</title>",
        "      <text xml:space=\"preserve\">[[Old name]]</text>",
        "    <title>Old name</title>",
        "      <text xml:space=\"preserve\">#REDIRECT [[New name#History]]</text>",
        "    <title>New name</title>",
        "      <text xml:space=\"preserve\">body</text>",
    ]);
    let old = identity("Old name");
    assert_eq!(g.edges_from(old), vec![identity("new name")]);
    let path = find_path(&g, identity("start"), identity("NEW NAME")).unwrap();
    assert_eq!(path.len(), 3);
    assert_eq!(shown(&path, &pages), "Start --->\nOld Name =?=>\nNew Name");
}

#[test]
fn path_by_title_ignores_case() {
    let g = graph_of(&[(identity("a"), identity("b")), (identity("b"), identity("c"))]);
    assert_eq!(
        wiki_path::search::find_path_by_title(&g, "A", "C"),
        Some(vec![identity("a"), identity("b"), identity("c")])
    );
    assert_eq!(wiki_path::search::find_path_by_title(&g, "c", "a"), None);
}

#[test]
fn expansion_keeps_frontier_order() {
    let mut s = PathSearch::new(1, 9);
    assert_eq!(s.next_page(), Some(1));
    assert!(!s.expand(&vec![3, 2, 3, 1]));
    assert_eq!(s.next_page(), Some(3));
    assert!(!s.expand(&vec![4, 2]));
    assert_eq!(s.next_page(), Some(2));
    assert_eq!(s.next_page(), Some(4));
    assert_eq!(s.next_page(), None);
    assert_eq!(s.visited_count(), 4);
    assert_eq!(s.expansion_count(), 4);
}

#[test]
fn edges_from_lists_each_destination_once() {
    let g = graph_of(&[(1, 2), (1, 3), (1, 2), (2, 1)]);
    assert_eq!(g.edges_from(1), vec![2, 3]);
    assert!(g.edges_from(3).is_empty());
}
