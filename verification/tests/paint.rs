use mpfiles::cells::Cell;
use mpfiles::fit::{fit_tail, fit_text};
use mpfiles::kind::{kind_tag, FileKind, KIND_BUNDLE};
use mpfiles::paint::{
    crumbs_shown, label_of, labels_of, place_name, tile_paint, Edge, Ink, Room, TilePaint,
    LABEL_BUDGET,
};
use mpfiles::path::{FilePath, Name, Part, Step};
use mpfiles::scan::{end_message, step_message};
use mpfiles::tree::{Node, ScanStep};
use mpfiles::view::TreemapView;
use std::cell::RefCell;

/// `text`, split at its bars.
fn path(text: &str) -> FilePath {
    let mut path = FilePath::new();
    if text.starts_with('/') {
        path.push(Part::Root { written: "/".to_string() });
    }
    for part in text.split('/').filter(|p| !p.is_empty()) {
        path.push(match part {
            "." => Part::Current,
            ".." => Part::Parent,
            name => Part::Name(Name::Text(name.to_string())),
        });
    }
    path
}

fn bytes(n: u64) -> String {
    format!("{n} B")
}

fn percent(a: u64, b: u64) -> String {
    format!("{:.1}", a as f64 * 100.0 / b as f64)
}

fn node(name: &str, is_dir: bool, size: u64, children: Vec<Node>) -> Node {
    Node {
        name: name.to_string(),
        size,
        files: if is_dir { children.iter().map(|c| c.files).sum() } else { 1 },
        kind: kind_tag(if is_dir { FileKind::Folder } else { FileKind::Text }),
        is_dir,
        pending: false,
        denied: false,
        children,
    }
}

fn tree() -> Node {
    let a = node("a", true, 30, vec![node("x", false, 10, vec![]), node("y", false, 20, vec![])]);
    node("h", true, 40, vec![a, node("top", false, 10, vec![])])
}

fn cell(at: &str, size: u64, is_dir: bool) -> Cell {
    let path = path(at);
    Cell {
        name: path.file_name().unwrap_or_default(),
        path,
        size,
        files: if is_dir { 2 } else { 1 },
        kind: kind_tag(if is_dir { FileKind::Folder } else { FileKind::Video }),
        depth: 1,
        is_dir,
        is_group: false,
        pending: false,
        extra: 0,
    }
}

fn map() -> TreemapView {
    let mut view = TreemapView::new();
    let _ = view.set_root(&path("/u/h"), "Home".to_string());
    let step = ScanStep::Closed { at: Vec::new(), node: tree() };
    let _ = view.drain(vec![step_message(1, step), end_message(1, true)], 60, 0);
    let mut group = cell("/u/h/a", 30, true);
    group.is_group = true;
    let mut rest = cell("/u/h", 5, false);
    rest.kind = KIND_BUNDLE;
    rest.name = "9 smaller items".to_string();
    rest.extra = 9;
    view.relayout(vec![group, cell("/u/h/a/x", 10, false), rest], 0);
    view
}

#[test]
fn the_status_says_what_is_shown() {
    let mut view = map();
    assert_eq!(
        view.status(bytes, |p| p.text()),
        "h — 40 B in 3 files · double-click a folder to zoom in, Esc to go back"
    );
    let _ = view.set_selected(Some(path("/u/h/a/x")));
    let _ = view.zoom_into(&path("/u/h/a"));
    assert_eq!(
        view.status(bytes, |p| p.text()),
        "a — 30 B in 2 files · double-click a folder to zoom in, Esc to go back · picked /u/h/a/x"
    );
}

#[test]
fn the_status_says_how_far_the_scan_is() {
    let mut view = TreemapView::new();
    let _ = view.set_root(&path("/"), "Disk".to_string());
    let step = ScanStep::Closed { at: Vec::new(), node: tree() };
    let _ = view.drain(vec![step_message(1, step)], 0, 0);
    assert_eq!(
        view.status(bytes, |p| p.text()),
        "Scanning / — 3 files · 40 B so far · 0 folders still open"
    );
    let _ = view.drain(vec![step_message(1, ScanStep::Pace { folders_left: 1 })], 0, 0);
    assert_eq!(
        view.status(bytes, |p| p.text()),
        "Scanning / — 3 files · 40 B so far · 1 folder still open"
    );
    assert_eq!(
        view.note(bytes, |n| format!("{n} s ago"), None),
        "scanning  ·  3 files  ·  40 B  ·  1 folders open"
    );
    assert_eq!(place_name(&path("/")), "/");
}

#[test]
fn the_status_says_what_went_wrong() {
    let mut view = TreemapView::new();
    let _ = view.set_root(&path("/q"), "Q".to_string());
    assert_eq!(view.empty_text(), Some("Reading the folder…".to_string()));
    let _ = view.drain(vec![end_message(1, false)], 0, 0);
    assert_eq!(view.status(bytes, |p| p.text()), "Could not map Q");
    assert_eq!(TreemapView::new().empty_text(), Some("Nothing to map".to_string()));
    assert_eq!(map().empty_text(), None);
}

#[test]
fn the_breadcrumb_names_every_level() {
    let mut view = map();
    assert_eq!(view.crumb_texts(), vec!["Home".to_string()]);
    let _ = view.zoom_into(&path("/u/h/a"));
    assert_eq!(view.crumb_texts(), vec!["Home".to_string(), "› a".to_string()]);
}

#[test]
fn the_note_admits_what_the_map_is_worth() {
    let age = |n: u64| format!("at {n}");
    assert_eq!(map().note(bytes, age, None), "at 60");
    assert_eq!(
        map().note(bytes, age, Some("no caches".to_string())),
        "at 60  ·  no caches"
    );
    let mut view = TreemapView::new();
    let _ = view.set_root(&path("/u/h"), "Home".to_string());
    let mut found = tree();
    found.children[0].denied = true;
    found.children[1].denied = true;
    let step = ScanStep::Closed { at: Vec::new(), node: found };
    let _ = view.drain(vec![step_message(1, step), end_message(1, true)], 7, 0);
    assert_eq!(
        view.note(bytes, age, Some("no caches".to_string())),
        "at 7  ·  no caches  ·  no access: h/a, h/top"
    );
}

#[test]
fn the_footer_tells_the_truth_about_one_path() {
    let mut view = map();
    let footer = view.footer(bytes, percent);
    assert_eq!(footer.head, "");
    assert_eq!(
        footer.path,
        "Click a rectangle to pick it · double-click a folder to zoom in · Esc goes back · right-click for the file menu"
    );
    assert_eq!(footer.ink, Ink::Dim);
    let _ = view.set_selected(Some(path("/u/h/a")));
    let footer = view.footer(bytes, percent);
    assert_eq!(footer.head, "30 B   75.0% of 40 B   2 files");
    assert_eq!(footer.path, "/u/h/a");
    assert_eq!(footer.ink, Ink::Bright);
    let _ = view.set_selected(Some(path("/u/h/a/x")));
    assert_eq!(view.footer(bytes, percent).head, "10 B   25.0% of 40 B");
    let _ = view.set_selected(Some(path("/u/h")));
    let footer = view.footer(bytes, percent);
    assert_eq!(footer.head, "5 B   12.5% of what is on screen");
    assert_eq!(footer.path, "9 items each too small to draw on their own");
    assert_eq!(footer.ink, Ink::Dim);
}

#[test]
fn a_share_is_never_of_nothing() {
    let mut view = TreemapView::new();
    let _ = view.set_selected(Some(path("/q")));
    assert_eq!(view.footer(bytes, percent).head, "0 B   0.0% of 1 B");
}

#[test]
fn the_tooltip_says_where_it_is_from_here() {
    let mut view = map();
    assert!(view.tooltip(bytes, percent).is_none());
    let _ = view.set_hover(Some(1));
    assert_eq!(
        view.tooltip(bytes, percent),
        Some(("a/x".to_string(), "10 B · 25.0%".to_string()))
    );
    let _ = view.set_hover(Some(0));
    assert_eq!(
        view.tooltip(bytes, percent),
        Some(("a".to_string(), "30 B · 75.0% · 2 files".to_string()))
    );
    let _ = view.set_hover(Some(2));
    assert_eq!(view.tooltip(bytes, percent).unwrap().0, "9 smaller items");
    let _ = view.set_hover(Some(3));
    assert!(view.tooltip(bytes, percent).is_none());
    let mut far = cell("/v/z", 4, true);
    far.pending = true;
    view.relayout(vec![far], 0);
    let _ = view.set_hover(Some(0));
    assert_eq!(
        view.tooltip(bytes, percent),
        Some(("/v/z".to_string(), "4 B · 10.0% · 2 files · still scanning".to_string()))
    );
}

#[test]
fn paths_are_shown_the_way_they_were_written() {
    let mut view = map();
    let mut spelt = path("/u/h/a/x");
    spelt.steps[4].lead = "//".to_string();
    spelt.tail = "/".to_string();
    assert_eq!(spelt.text(), "/u/h/a//x/");
    let mut odd = cell("/u/h/a/x", 10, false);
    odd.path = spelt.copy();
    view.relayout(vec![odd], 0);
    let _ = view.set_hover(Some(0));
    assert_eq!(view.tooltip(bytes, percent).unwrap().0, "a//x");
    let _ = view.set_selected(Some(spelt));
    assert_eq!(view.footer(bytes, percent).path, "/u/h/a//x/");
    let mut root = FilePath::new();
    root.steps.push(Step { lead: String::new(), part: Part::Root { written: "/".to_string() } });
    root.tail = "//".to_string();
    let mut view = TreemapView::new();
    let _ = view.set_root(&root, "Disk".to_string());
    assert!(view.status(bytes, |p| p.text()).starts_with("Scanning /// — "));
}

#[test]
fn tiles_are_told_apart() {
    let mut tile = cell("/h/a", 1, false);
    assert_eq!(
        tile_paint(&tile),
        TilePaint::Leaf { class: 0, lifted: false, depth: 1, folder: false }
    );
    tile.kind = kind_tag(FileKind::Generic);
    tile.depth = 100;
    assert_eq!(
        tile_paint(&tile),
        TilePaint::Leaf { class: 6, lifted: true, depth: 6, folder: false }
    );
    tile.is_dir = true;
    assert_eq!(
        tile_paint(&tile),
        TilePaint::Leaf { class: 6, lifted: false, depth: 6, folder: true }
    );
    tile.is_group = true;
    assert_eq!(tile_paint(&tile), TilePaint::Plate { class: 6, lifted: false, depth: 4 });
    tile.kind = KIND_BUNDLE;
    assert_eq!(tile_paint(&tile), TilePaint::Bundle);
}

#[test]
fn the_picked_tile_shows_whatever_the_pointer_is_over() {
    let mut view = map();
    assert_eq!((view.edge(0), view.ringed()), (Edge::Plain, None));
    let _ = view.set_hover(Some(1));
    assert_eq!(view.edge(1), Edge::Hovered);
    let _ = view.set_selected(Some(path("/u/h/a/x")));
    assert_eq!((view.edge(1), view.edge(0)), (Edge::Picked, Edge::Plain));
    assert_eq!(view.ringed(), Some(1));
    // The bundle carries a folder's path and is not that folder.
    let _ = view.set_selected(Some(path("/u/h")));
    assert_eq!((view.edge(2), view.ringed()), (Edge::Plain, None));
}

#[test]
fn labels_stand_where_there_is_room() {
    let room = |header, name, two| Room { header, name, two };
    let leaf = cell("/h/x", 10, false);
    assert!(label_of(&leaf, room(true, false, true), &bytes).is_none());
    let label = label_of(&leaf, room(false, true, false), &bytes).unwrap();
    assert_eq!((label.line.as_str(), label.below, label.header), ("x", None, false));
    let label = label_of(&leaf, room(false, true, true), &bytes).unwrap();
    assert_eq!(label.below, Some("10 B".to_string()));
    let mut group = cell("/h/a", 30, true);
    group.is_group = true;
    assert!(label_of(&group, room(false, true, true), &bytes).is_none());
    let label = label_of(&group, room(true, false, false), &bytes).unwrap();
    assert_eq!((label.line.as_str(), label.below, label.header), ("a  30 B", None, true));
}

#[test]
fn no_more_labels_than_the_budget() {
    let cells: Vec<Cell> = (0..2000).map(|i| cell(&format!("/h/{i}"), i, false)).collect();
    let rooms: Vec<Room> =
        (0..2000).map(|i| Room { header: false, name: i % 2 == 1, two: false }).collect();
    let labels = labels_of(&cells, &rooms, bytes);
    assert_eq!(labels.len(), LABEL_BUDGET);
    assert_eq!((labels[0].0, labels[0].1.line.as_str()), (1, "1"));
    assert_eq!((labels[699].0, labels[699].1.line.as_str()), (1399, "1399"));
    let few = labels_of(&cells[..10].iter().map(|c| cell("/h/n", c.size, false)).collect(), &rooms[..10].to_vec(), bytes);
    assert_eq!(few.iter().map(|l| l.0).collect::<Vec<_>>(), vec![1, 3, 5, 7, 9]);
    assert!(labels_of(&Vec::new(), &Vec::new(), bytes).is_empty());
}

#[test]
fn the_breadcrumb_stops_at_what_does_not_fit() {
    assert_eq!(crumbs_shown(4, |_| true), 4);
    assert_eq!(crumbs_shown(4, |i| i != 2), 2);
    assert_eq!(crumbs_shown(4, |_| false), 0);
    assert_eq!(crumbs_shown(0, |_| false), 0);
}

#[test]
fn a_line_is_shortened_until_it_fits() {
    let asked = RefCell::new(Vec::new());
    let at_most = |n: usize| {
        let asked = &asked;
        move |s: &str| {
            asked.borrow_mut().push(s.to_string());
            s.chars().count() <= n
        }
    };
    assert_eq!(fit_text("abcdefghij", false, 0, at_most(10)), "abcdefghij");
    assert_eq!(fit_text("abcdefghij", true, 9, at_most(10)), "");
    assert_eq!(fit_text("abcdefghij", false, 5, at_most(6)), "abcde…");
    assert_eq!(fit_tail("abcdefghij", false, 5, at_most(6)), "…fghij");
    asked.borrow_mut().clear();
    assert_eq!(fit_text("abcdefghij", false, 99, at_most(6)), "abcde…");
    assert_eq!(
        asked.borrow_mut().split_off(0),
        vec!["abcdefghij", "abcdefghi…", "abcdefg…", "abcde…"]
    );
    assert_eq!(fit_text("abcdefghij", false, 9, at_most(1)), "…");
    assert_eq!(asked.borrow_mut().split_off(0).len(), 6);
    assert_eq!(fit_tail("abcdefghij", false, 0, at_most(6)), "…");
    assert_eq!(asked.borrow_mut().split_off(0), vec!["abcdefghij", "…"]);
    // What does not fit is not drawn, be it an ellipsis.
    assert_eq!(fit_text("abcdefghij", false, 9, at_most(0)), "");
    assert_eq!(fit_tail("abcdefghij", false, 9, at_most(0)), "");
    assert_eq!(fit_tail("äöü", false, 1, at_most(2)), "…ü");
    assert_eq!(fit_text("", false, 3, |_| false), "");
}
