use mpfiles::cells::{Cell, Outcome, ScanMessage, TreemapAction};
use mpfiles::kind::{kind_tag, FileKind, KIND_BUNDLE};
use mpfiles::path::{FilePath, Name, Part};
use mpfiles::scan::{
    end_message, opening, saved_messages, signal_at, step_message, tries_saved, Opening, SavedMap,
};
use mpfiles::tree::{Node, ScanStep};
use mpfiles::view::{is_primary, press_at, Effects, LayoutStep, PressAt, TreemapView};
use mpfiles::view_ref::TreemapViewRef;

/// `text`, split at its bars.
fn path(text: &str) -> FilePath {
    let mut path = FilePath::new();
    if text.starts_with('/') {
        path.push(Part::Root { written: "/".to_string() });
    }
    for part in text.split('/').filter(|p| !p.is_empty()) {
        path.push(match part {
            "." => Part::Current,
            ".." => Part::Parent,
            name => Part::Name(Name::Text(name.to_string())),
        });
    }
    path
}

fn file(name: &str, size: u64) -> Node {
    Node {
        name: name.to_string(),
        size,
        files: 1,
        kind: kind_tag(FileKind::Generic),
        is_dir: false,
        pending: false,
        denied: false,
        children: Vec::new(),
    }
}

fn folder(name: &str, children: Vec<Node>) -> Node {
    let mut node = Node::dir(name.to_string(), kind_tag(FileKind::Folder));
    node.size = children.iter().map(|c| c.size).sum();
    node.files = children.iter().map(|c| c.files).sum();
    node.children = children;
    node
}

/// `/h`: `a` with `x` and `y`, `b` with an empty `c`, and `top`.
fn tree() -> Node {
    folder(
        "h",
        vec![
            folder("a", vec![file("x", 10), file("y", 20)]),
            folder("b", vec![folder("c", Vec::new())]),
            file("top", 1),
        ],
    )
}

fn closed(generation: u64, node: Node) -> ScanMessage {
    step_message(generation, ScanStep::Closed { at: Vec::new(), node })
}

fn scanning() -> TreemapView {
    let mut view = TreemapView::new();
    let _ = view.set_root(&path("/h"), "Home".to_string());
    view
}

fn scanned() -> TreemapView {
    let mut view = scanning();
    let (any, effects) = view.drain(vec![closed(1, tree()), end_message(1, true)], 1000, 0);
    assert!(any && effects.save && effects.redraw);
    view
}

fn cell(at: &str, size: u64, is_dir: bool) -> Cell {
    let path = path(at);
    Cell {
        name: path.file_name().unwrap_or_default(),
        path,
        size,
        files: if is_dir { 2 } else { 1 },
        kind: kind_tag(if is_dir { FileKind::Folder } else { FileKind::Video }),
        depth: 1,
        is_dir,
        is_group: false,
        pending: false,
        extra: 0,
    }
}

fn bundle(at: &str, size: u64, extra: u32) -> Cell {
    Cell {
        path: path(at),
        name: format!("{extra} smaller items"),
        size,
        files: extra,
        kind: KIND_BUNDLE,
        depth: 1,
        is_dir: false,
        is_group: false,
        pending: false,
        extra,
    }
}

/// The map of [`tree`], laid out: `a`, `a/x`, the bundle of `/h`, `b` and `top`.
fn laid_out() -> TreemapView {
    let mut view = scanned();
    let cells = vec![
        cell("/h/a", 30, true),
        cell("/h/a/x", 10, false),
        bundle("/h", 3, 17),
        cell("/h/b", 0, true),
        cell("/h/top", 1, false),
    ];
    view.relayout(cells, 0);
    view
}

fn is_nothing(effects: &Effects) -> bool {
    !effects.redraw
        && !effects.next_frame
        && !effects.save
        && !effects.forget_saved
        && !effects.cancel
        && effects.scan.is_none()
        && effects.action == TreemapAction::Nothing
}

#[test]
fn mapping_a_folder_asks_for_its_scan() {
    let mut view = TreemapView::new();
    let effects = view.set_root(&path("/h"), "Home".to_string());
    let scan = effects.scan.unwrap();
    assert_eq!((scan.generation, scan.fresh), (1, false));
    assert_eq!(scan.root, path("/h"));
    assert!(effects.redraw && !effects.cancel && !effects.forget_saved);
    assert!(view.scanning());
    assert_eq!(view.root(), &path("/h"));
    assert_eq!(view.tree().name, "Home");
    // Another folder before the scan is over: the first one is told to stop.
    let effects = view.set_root(&path("/g"), "Other".to_string());
    assert!(effects.cancel);
    assert_eq!(effects.scan.unwrap().generation, 2);
}

#[test]
fn the_folder_on_screen_is_not_measured_again() {
    let mut view = scanned();
    assert!(is_nothing(&view.set_root(&path("/h"), "Home".to_string())));
    assert_eq!(view.tree().size, 31);
    assert!(view.set_root(&path("/h/a"), "a".to_string()).scan.is_some());
    // An empty map is asked for again.
    let mut empty = scanning();
    assert_eq!(empty.set_root(&path("/h"), "Home".to_string()).scan.unwrap().generation, 2);
}

#[test]
fn only_rescan_measures_afresh() {
    let mut view = scanned();
    let effects = view.rescan();
    let scan = effects.scan.unwrap();
    assert!(scan.fresh && effects.forget_saved);
    assert_eq!((scan.generation, scan.root), (2, path("/h")));
    assert!(view.tree().children.is_empty());
    assert!(is_nothing(&TreemapView::new().rescan()));
}

#[test]
fn stopping_stops_once() {
    let mut view = scanning();
    let effects = view.stop();
    assert!(effects.cancel && effects.redraw);
    assert!(!view.scanning());
    assert!(is_nothing(&view.stop()));
}

#[test]
fn only_a_running_scan_is_told_to_stop() {
    let mut view = TreemapView::new();
    assert!(!view.set_root(&path("/h"), "Home".to_string()).cancel);
    assert!(view.rescan().cancel);
    let _ = view.drain(vec![closed(2, tree()), end_message(2, true)], 0, 0);
    assert!(!view.rescan().cancel);
    assert!(view.press(PressAt::Rescan, 1, true, true).cancel);
}

#[test]
fn a_scan_of_another_generation_is_dropped() {
    let mut view = scanning();
    let _ = view.set_root(&path("/g"), "G".to_string());
    let (any, effects) = view.drain(vec![closed(1, tree()), end_message(1, true)], 1000, 0);
    assert!(any && !effects.save);
    assert!(view.tree().children.is_empty());
    assert!(view.scanning());
    assert_eq!(view.scanned_at(), 0);
}

#[test]
fn a_finished_scan_is_settled_and_saved() {
    let mut view = scanning();
    let mut found = tree();
    found.children[1].denied = true;
    let messages = vec![
        step_message(1, ScanStep::Pace { folders_left: 9 }),
        closed(1, found),
        end_message(1, true),
    ];
    let (any, effects) = view.drain(messages, 1234, 50);
    assert!(any && effects.redraw && effects.save && !effects.next_frame);
    assert!(!view.scanning());
    assert_eq!((view.folders_left(), view.scanned_at()), (0, 1234));
    assert!(!view.tree().children[0].pending);
    assert_eq!(view.denied(), &vec!["h/b".to_string()]);
    assert!(view.error().is_none());
    assert!(is_nothing(&view.stop()));
}

#[test]
fn nothing_sent_is_nothing_taken() {
    let (any, effects) = scanned().drain(Vec::new(), 0, 0);
    assert!(!any && is_nothing(&effects));
}

#[test]
fn a_saved_map_keeps_its_age() {
    let mut view = scanning();
    let saved = SavedMap { tree: tree(), scanned_at: 77 };
    let (_, effects) = view.drain(saved_messages(1, saved), 5000, 0);
    assert!(effects.redraw && !effects.save);
    assert_eq!((view.scanned_at(), view.tree().size), (77, 31));
    assert!(!view.scanning());
    assert!(tries_saved(false, false));
    assert!(!tries_saved(true, false) && !tries_saved(false, true));
}

#[test]
fn a_folder_that_cannot_be_read_says_so() {
    let mut view = scanning();
    let (_, effects) = view.drain(vec![end_message(1, false)], 1, 0);
    assert!(!effects.save);
    assert_eq!(view.error(), &Some("Could not map Home".to_string()));
    assert_eq!(view.empty_text(), Some("Could not map Home".to_string()));
    // Part of a tree is better than an error.
    let mut view = scanning();
    let _ = view.drain(vec![closed(1, tree()), end_message(1, false)], 1, 0);
    assert!(view.error().is_none());
}

#[test]
fn a_running_scan_is_laid_out_now_and_then() {
    let mut view = scanning();
    assert!(view.layout_is_due(0));
    let (_, effects) = view.drain(vec![closed(1, tree())], 0, 0);
    assert!(effects.redraw);
    assert_eq!(view.layout_step(false, 0), LayoutStep::Relayout);
    view.relayout(Vec::new(), 1000);
    assert_eq!(view.layout_step(true, 1000), LayoutStep::Keep);
    assert_eq!(view.layout_step(false, 1000), LayoutStep::Relayout);
    let (_, effects) = view.drain(vec![closed(1, tree())], 0, 1109);
    assert!(!effects.redraw && effects.next_frame);
    assert_eq!(view.layout_step(true, 1109), LayoutStep::Wait);
    assert!(view.frame(1109).next_frame);
    assert!(view.frame(1110).redraw);
    assert_eq!(view.layout_step(true, 1110), LayoutStep::Relayout);
    // A finished scan is not throttled.
    let (_, effects) = view.drain(vec![end_message(1, true)], 0, 1109);
    assert!(effects.redraw && !effects.next_frame);
    assert!(view.layout_is_due(1000));
    view.relayout(Vec::new(), 1200);
    assert!(is_nothing(&view.frame(2000)));
}

#[test]
fn the_pace_alone_ends_nothing() {
    let mut view = scanning();
    let message = ScanMessage {
        generation: 1,
        step: Some(ScanStep::Pace { folders_left: 4 }),
        finished: Some(Outcome::Scanned),
    };
    let (_, effects) = view.drain(vec![message], 0, 0);
    assert!(!effects.save);
    assert!(view.scanning());
    assert_eq!(view.folders_left(), 4);
}

#[test]
fn the_worker_wakes_the_view_at_most_so_often() {
    assert_eq!(signal_at(100, 100), Some(145));
    assert_eq!(signal_at(99, 100), None);
    assert_eq!(signal_at(500, 100), Some(545));
}

// ---------------------------------------------------------- zoom and selection

#[test]
fn zooming_in_and_out_again() {
    let mut view = laid_out();
    let (zoomed, effects) = view.zoom_into(&path("/h/b/c"));
    assert!(zoomed && effects.redraw);
    assert_eq!(view.focus_path(), path("/h/b/c"));
    assert_eq!(view.focused().name, "c");
    assert_eq!(view.layout_step(true, 0), LayoutStep::Relayout);
    assert!(view.zoom_out().0);
    assert_eq!(view.focus_path(), path("/h/b"));
    assert!(view.zoom_out().0);
    let (more, effects) = view.zoom_out();
    assert!(!more && is_nothing(&effects));
    assert_eq!(view.focus_path(), path("/h"));
}

#[test]
fn only_known_folders_are_zoomed_into() {
    let mut view = laid_out();
    for at in ["/h", "/h/a/x", "/h/q", "/g", "/h/a/q", "/h/top/q"] {
        let (zoomed, effects) = view.zoom_into(&path(at));
        assert!(!zoomed && is_nothing(&effects), "{at}");
    }
    assert!(view.zoom().is_empty());
}

#[test]
fn a_breadcrumb_zooms_out_to_itself() {
    let mut view = laid_out();
    let _ = view.zoom_into(&path("/h/b/c"));
    assert!(is_nothing(&view.zoom_to(2)));
    assert!(view.zoom_to(1).redraw);
    assert_eq!(view.zoom(), vec!["b".to_string()]);
    assert!(view.press(PressAt::Crumb(0), 1, true, true).redraw);
    assert!(view.zoom().is_empty());
    assert!(is_nothing(&view.press(PressAt::Crumb(0), 1, true, true)));
}

#[test]
fn a_selection_has_its_cells_numbers() {
    let mut view = laid_out();
    assert!(view.set_selected(Some(path("/h/a"))).redraw);
    let pick = view.pick().as_ref().unwrap();
    assert_eq!((pick.size, pick.files, pick.is_dir, pick.bundle), (30, 2, true, 0));
    assert!(is_nothing(&view.set_selected(Some(path("/h/a")))));
    assert!(view.set_selected(Some(path("/h/a/y"))).redraw);
    let pick = view.pick().as_ref().unwrap();
    assert_eq!((pick.size, pick.files, pick.is_dir, pick.bundle), (0, 0, false, 0));
    assert_eq!(view.selection(), Some(path("/h/a/y")));
    assert!(view.set_selected(None).redraw);
    assert_eq!(view.selection(), None);
    assert!(is_nothing(&view.set_selected(None)));
}

#[test]
fn the_selection_survives_a_layout() {
    let mut view = laid_out();
    let _ = view.set_hover(Some(1));
    let _ = view.set_selected(Some(path("/h/a")));
    view.relayout(vec![bundle("/h/a", 1, 2), cell("/h/a", 99, true)], 5);
    assert_eq!(view.pick().as_ref().unwrap().size, 99);
    assert_eq!(view.hover(), None);
    view.relayout(Vec::new(), 6);
    assert_eq!(view.pick().as_ref().unwrap().size, 99);
    assert_eq!(view.selection(), Some(path("/h/a")));
}

#[test]
fn hovering_redraws_only_when_the_cell_changes() {
    let mut view = laid_out();
    assert!(view.set_hover(Some(1)).redraw);
    assert!(is_nothing(&view.set_hover(Some(1))));
    assert!(view.set_hover(Some(2)).redraw);
    assert!(view.set_hover(None).redraw);
    assert!(is_nothing(&view.set_hover(None)));
}

// --------------------------------------------------------------------- presses

#[test]
fn a_click_picks() {
    let mut view = laid_out();
    let effects = view.press(PressAt::Cell(1), 1, true, true);
    assert_eq!(effects.action, TreemapAction::Selected(path("/h/a/x")));
    assert!(effects.redraw && !effects.save);
    assert_eq!(view.selection(), Some(path("/h/a/x")));
    let effects = view.press(PressAt::Cell(0), 1, true, true);
    assert_eq!(effects.action, TreemapAction::Selected(path("/h/a")));
    assert!(view.zoom().is_empty());
}

#[test]
fn a_double_click_zooms_or_reveals() {
    let mut view = laid_out();
    let effects = view.press(PressAt::Cell(4), 2, true, true);
    assert_eq!(effects.action, TreemapAction::Reveal(path("/h/top")));
    let effects = view.press(PressAt::Cell(0), 2, true, true);
    assert_eq!(effects.action, TreemapAction::Nothing);
    assert!(effects.redraw);
    assert_eq!(view.focus_path(), path("/h/a"));
    assert_eq!(view.selection(), Some(path("/h/a")));
}

#[test]
fn a_double_click_on_a_folder_that_is_not_in_the_tree_picks() {
    let mut view = scanned();
    view.relayout(vec![cell("/h/q", 1, true)], 0);
    let effects = view.press(PressAt::Cell(0), 2, true, true);
    assert_eq!(effects.action, TreemapAction::Selected(path("/h/q")));
}

#[test]
fn a_secondary_press_only_picks() {
    let mut view = laid_out();
    for taps in [1, 2] {
        let effects = view.press(PressAt::Cell(0), taps, false, true);
        assert_eq!(effects.action, TreemapAction::Selected(path("/h/a")));
        assert!(view.zoom().is_empty());
    }
    assert!(is_nothing(&view.press(PressAt::Rescan, 1, false, true)));
    let _ = view.zoom_into(&path("/h/a"));
    assert!(is_nothing(&view.press(PressAt::Crumb(0), 1, false, true)));
    assert_eq!(view.zoom().len(), 1);
}

#[test]
fn the_bundle_is_never_a_target() {
    let mut view = laid_out();
    // It is not on the disk, and that is no news.
    for present in [true, false] {
        let effects = view.press(PressAt::Cell(2), 2, true, present);
        assert_eq!(effects.action, TreemapAction::Nothing);
        assert!(effects.redraw && !effects.save);
        assert_eq!(view.pick().as_ref().unwrap().bundle, 17);
    }
    assert_eq!(view.path_at(Some(2)), None);
    assert_eq!(view.path_at(Some(1)), Some(path("/h/a/x")));
    assert_eq!(view.path_at(Some(9)), None);
    assert_eq!(view.path_at(None), None);
}

#[test]
fn what_vanished_goes() {
    let mut view = laid_out();
    let _ = view.set_selected(Some(path("/h/a/x")));
    let effects = view.press(PressAt::Cell(1), 1, true, false);
    assert_eq!(effects.action, TreemapAction::Vanished(path("/h/a/x")));
    assert!(effects.save && effects.redraw);
    assert_eq!((view.tree().size, view.tree().files), (21, 2));
    assert_eq!(view.selection(), None);
    // It is gone already; the browser hears of it all the same.
    let effects = view.press(PressAt::Cell(1), 1, true, false);
    assert_eq!(effects.action, TreemapAction::Vanished(path("/h/a/x")));
    assert!(!effects.save && !effects.redraw);
}

#[test]
fn a_press_beside_everything_does_nothing() {
    let mut view = laid_out();
    assert!(is_nothing(&view.press(PressAt::Nowhere, 1, true, true)));
    assert!(is_nothing(&view.press(PressAt::Cell(99), 1, true, true)));
    let effects = view.press(PressAt::Rescan, 1, true, true);
    assert!(effects.scan.unwrap().fresh);
}

#[test]
fn the_strip_is_in_front_of_the_map() {
    assert!(matches!(press_at(true, Some(1), Some(2)), PressAt::Rescan));
    assert!(matches!(press_at(false, Some(1), Some(2)), PressAt::Crumb(1)));
    assert!(matches!(press_at(false, None, Some(2)), PressAt::Cell(2)));
    assert!(matches!(press_at(false, None, None), PressAt::Nowhere));
    assert!(is_primary(true, false));
    assert!(!is_primary(true, true) && !is_primary(false, false));
}

// ----------------------------------------------------------------- corrections

#[test]
fn a_delete_is_arithmetic() {
    let mut view = laid_out();
    let _ = view.set_selected(Some(path("/h/a/x")));
    let effects = view.absorb_moves(&[(path("/h/a/x"), None)]);
    assert!(effects.save && effects.redraw && effects.scan.is_none());
    assert_eq!((view.tree().size, view.tree().files), (21, 2));
    assert_eq!(view.tree().children[0].size, 20);
    assert_eq!(view.selection(), None);
    assert_eq!(view.layout_step(true, 0), LayoutStep::Relayout);
}

#[test]
fn a_move_takes_its_bytes_along() {
    let mut view = laid_out();
    let moves = [(path("/h/a/x"), Some(path("/h/b/c/renamed")))];
    assert!(view.absorb_moves(&moves).save);
    assert_eq!((view.tree().size, view.tree().files), (31, 3));
    let moved = ["b", "c", "renamed"].map(String::from).to_vec();
    assert_eq!(view.tree().at(&moved).unwrap().size, 10);
    assert!(view.tree().at(&["a", "x"].map(String::from).to_vec()).is_none());
    // To the mapped folder itself.
    assert!(view.absorb_moves(&[(path("/h/b/c/renamed"), Some(path("/h/x")))]).save);
    assert_eq!(view.tree().children.last().unwrap().name, "x");
    // Off the map: it is gone from it.
    assert!(view.absorb_moves(&[(path("/h/x"), Some(path("/elsewhere/x")))]).save);
    assert_eq!(view.tree().size, 21);
}

#[test]
fn moves_are_taken_in_order() {
    let mut view = laid_out();
    let moves = [
        (path("/h/a"), Some(path("/h/b/a"))),
        (path("/h/b/a/x"), None),
        (path("/h/a/y"), None),
    ];
    assert!(view.absorb_moves(&moves).save);
    assert_eq!((view.tree().size, view.tree().files), (21, 2));
    let kept = ["b", "a", "y"].map(String::from).to_vec();
    assert_eq!(view.tree().at(&kept).unwrap().size, 20);
}

#[test]
fn a_move_of_what_is_not_there_changes_nothing() {
    let mut view = laid_out();
    let moves = [(path("/h/q"), None), (path("/g/x"), None), (path("/h"), None)];
    assert!(is_nothing(&view.absorb_moves(&moves)));
    assert_eq!(view.tree().size, 31);
}

#[test]
fn a_copy_appears_and_its_source_stays() {
    let mut view = laid_out();
    assert!(view.absorb_copies(&[(path("/h/a"), path("/h/b/copy"))]).save);
    assert_eq!((view.tree().size, view.tree().files), (61, 5));
    assert_eq!(view.tree().children[0].size, 30);
    let copied = ["b", "copy", "y"].map(String::from).to_vec();
    assert_eq!(view.tree().at(&copied).unwrap().size, 20);
    // Nowhere to put it, and nothing to put.
    assert!(is_nothing(&view.absorb_copies(&[(path("/h/a"), path("/h/q/copy"))])));
    assert!(is_nothing(&view.absorb_copies(&[(path("/h/q"), path("/h/copy"))])));
    assert!(is_nothing(&view.absorb_copies(&[(path("/h/a"), path("/g/copy"))])));
    assert_eq!(view.tree().size, 61);
}

#[test]
fn a_running_scan_owns_the_tree() {
    let mut view = scanning();
    let _ = view.drain(vec![closed(1, tree())], 0, 0);
    assert!(is_nothing(&view.absorb_moves(&[(path("/h/a"), None)])));
    assert!(is_nothing(&view.absorb_copies(&[(path("/h/a"), path("/h/b/a"))])));
    assert_eq!(view.tree().size, 31);
}

#[test]
fn what_is_gone_goes_while_a_scan_runs_too() {
    let mut view = scanning();
    let _ = view.drain(vec![closed(1, tree())], 0, 0);
    view.relayout(vec![cell("/h/a/x", 10, false)], 0);
    let _ = view.set_selected(Some(path("/h/a/x")));
    let effects = view.press(PressAt::Cell(0), 1, true, false);
    assert_eq!(effects.action, TreemapAction::Vanished(path("/h/a/x")));
    assert!(effects.redraw && !effects.save);
    assert_eq!((view.tree().size, view.selection()), (21, None));
    assert!(view.tree().at(&["a", "x"].map(String::from).to_vec()).is_none());
    assert!(view.scanning());
    let effects = view.forget(&path("/h/a/y"));
    assert!(effects.redraw && !effects.save);
    assert!(is_nothing(&view.forget(&path("/h/a/y"))));
    // At rest the map is saved as well.
    let _ = view.stop();
    let effects = view.forget(&path("/h/a"));
    assert!(effects.redraw && effects.save);
    assert_eq!(view.tree().size, 1);
}

#[test]
fn a_saved_map_is_delivered_and_otherwise_the_disk_is_walked() {
    assert!(matches!(opening(3, None), Opening::Walk));
    match opening(3, Some(SavedMap { tree: tree(), scanned_at: 8 })) {
        Opening::Walk => panic!("walked"),
        Opening::Deliver(messages) => {
            assert_eq!(messages.len(), 2);
            assert!(messages.iter().all(|m| m.generation == 3));
            assert!(matches!(messages[1].finished, Some(Outcome::Loaded { scanned_at: 8 })));
        }
    }
}

// -------------------------------------------------------------- other spellings

/// `base`, and below it a name that is not text.
fn odd(base: &str, units: &[u16]) -> FilePath {
    let mut odd = path(base);
    odd.push(Part::Name(Name::Odd { units: units.to_vec(), shown: "caf\u{fffd}".to_string() }));
    odd
}

#[test]
fn a_name_that_is_no_text_stays_what_it_is() {
    let mut view = scanned();
    let here = odd("/h", &[0x63, 0x61, 0x66, 0xe9]);
    let other = odd("/h", &[0x63, 0x61, 0x66, 0xea]);
    let text = path("/h/caf\u{fffd}");
    let mut gone = cell("/h/x", 4, false);
    gone.path = here.copy();
    view.relayout(vec![gone], 0);
    assert!(view.set_selected(Some(here.copy())).redraw);
    assert_eq!(view.selection(), Some(here.copy()));
    assert_ne!(view.selection(), Some(other.copy()));
    assert_ne!(view.selection(), Some(text));
    assert_eq!(view.pick().as_ref().unwrap().size, 4);
    let effects = view.press(PressAt::Cell(0), 2, true, true);
    assert_eq!(effects.action, TreemapAction::Reveal(here.copy()));
    let effects = view.press(PressAt::Cell(0), 1, true, false);
    assert_eq!(effects.action, TreemapAction::Vanished(here));
    assert!(view.set_selected(Some(other.copy())).redraw);
    assert_eq!(view.pick().as_ref().unwrap().size, 0);
}

#[test]
fn the_tree_knows_a_name_by_what_is_shown_of_it() {
    let mut view = scanning();
    let found = folder("h", vec![folder("caf\u{fffd}", vec![file("x", 3)])]);
    let _ = view.drain(vec![closed(1, found), end_message(1, true)], 0, 0);
    let here = odd("/h", &[0x63, 0x61, 0x66, 0xe9]);
    assert!(view.zoom_into(&here).0);
    assert_eq!(view.zoom(), vec!["caf\u{fffd}".to_string()]);
    assert_eq!(view.focus_path(), path("/h/caf\u{fffd}"));
    assert!(view.zoom_out().0);
    assert!(view.absorb_moves(&[(here, None)]).save);
    assert_eq!(view.tree().size, 0);
}

#[test]
fn the_same_folder_spelt_differently_is_on_screen_already() {
    let mut view = scanned();
    let mut spelt = path("/h");
    spelt.tail = "/.//".to_string();
    assert!(is_nothing(&view.set_root(&spelt, "Home".to_string())));
    assert_eq!(view.root().text(), "/h");
}

// ---------------------------------------------------------------- the reference

#[test]
fn an_empty_reference_does_nothing() {
    let mut none = TreemapViewRef { uid: 1, view: None };
    assert!(is_nothing(&none.set_root(&path("/h"), "Home".to_string())));
    assert!(is_nothing(&none.stop()));
    let (any, effects) = none.drain(vec![end_message(1, true)], 0, 0);
    assert!(!any && is_nothing(&effects));
    assert_eq!(none.status(|n| n.to_string(), |p| p.text()), "");
    assert_eq!(none.root(), FilePath::new());
    assert!(is_nothing(&none.set_selected(Some(path("/h")))));
    assert_eq!(none.selection(), None);
    assert_eq!(none.path_at(Some(0)), None);
    assert!(is_nothing(&none.rescan()));
    assert!(is_nothing(&none.absorb_moves(&[(path("/h"), None)])));
    assert!(is_nothing(&none.absorb_copies(&[(path("/h"), path("/g"))])));
    assert!(!none.zoom_out().0);
    assert!(!none.zoom_into_selection().0);
}

#[test]
fn a_reference_passes_everything_on() {
    let mut map = TreemapViewRef { uid: 1, view: Some(laid_out()) };
    assert_eq!(map.root(), path("/h"));
    assert!(map.status(|n| n.to_string(), |p| p.text()).starts_with("h — 31 in 3 files"));
    assert!(!map.zoom_into_selection().0);
    assert!(map.set_selected(Some(path("/h/a"))).redraw);
    assert_eq!(map.selection(), Some(path("/h/a")));
    assert!(map.zoom_into_selection().0);
    assert!(map.zoom_out().0);
    assert!(!map.zoom_out().0);
    assert_eq!(map.path_at(Some(4)), Some(path("/h/top")));
    assert!(map.absorb_copies(&[(path("/h/top"), path("/h/a/top"))]).save);
    assert!(map.absorb_moves(&[(path("/h/top"), None)]).save);
    assert_eq!(map.view.as_ref().unwrap().tree().size, 31);
    assert_eq!(map.rescan().scan.unwrap().generation, 2);
    let (any, effects) = map.drain(vec![closed(2, tree()), end_message(2, true)], 9, 9);
    assert!(any && effects.save);
    assert!(map.set_root(&path("/g"), "G".to_string()).scan.is_some());
    assert!(map.stop().cancel);
}

#[test]
fn the_first_action_of_its_own_is_the_maps() {
    let map = TreemapViewRef { uid: 5, view: None };
    let actions = vec![
        (4, TreemapAction::Reveal(path("/other"))),
        (5, TreemapAction::Nothing),
        (5, TreemapAction::Selected(path("/h"))),
        (5, TreemapAction::Vanished(path("/h"))),
    ];
    assert_eq!(map.action(&actions), TreemapAction::Selected(path("/h")));
    assert_eq!(map.action(&actions[..2]), TreemapAction::Nothing);
    assert_eq!(map.action(&[]), TreemapAction::Nothing);
    assert_eq!(TreemapAction::default(), TreemapAction::Nothing);
}
