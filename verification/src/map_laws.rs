//! What each operation on the map does, and what it leaves as it was.

use vstd::prelude::*;
use vstd::string::*;
use crate::cells;
use crate::cells::{ActionView, CellView, Outcome, PickView, ScanMessage};
use crate::kind;
use crate::path;
use crate::path::{PartView, PathView};
use crate::shape_laws;
use crate::tree;
use crate::tree::{NodeView, ScanStep};
use crate::tree_laws;
use crate::view;
use crate::view::{EffectsView, LayoutStep, MapView, MoveView, PressAt};
use crate::view_laws;

verus! {

// ----------------------------------------------------------- what is left alone

/// Whether the two maps are of one folder and one scan: the same root, the same tree, and
/// nothing new of the scan.
pub open spec fn same_scan(a: MapView, b: MapView) -> bool {
    &&& a.root == b.root
    &&& a.root_name == b.root_name
    &&& a.tree == b.tree
    &&& same_progress(a, b)
}

/// Whether the two maps know the same of their scan.
pub open spec fn same_progress(a: MapView, b: MapView) -> bool {
    &&& a.generation == b.generation
    &&& a.cancellable == b.cancellable
    &&& a.scanning == b.scanning
    &&& a.folders_left == b.folders_left
    &&& a.scanned_at == b.scanned_at
    &&& a.denied == b.denied
    &&& a.error == b.error
}

/// Whether the two maps have the same picture on screen.
pub open spec fn same_picture(a: MapView, b: MapView) -> bool {
    &&& a.cells == b.cells
    &&& a.laid_out == b.laid_out
    &&& a.stale == b.stale
    &&& a.last_layout == b.last_layout
    &&& a.hover == b.hover
}

/// Whether nothing is to be done but, at most, to draw and to pass an action on.
pub open spec fn only_shows(e: EffectsView) -> bool {
    !e.next_frame && !e.save && !e.forget_saved && !e.cancel && e.scan is None
}

// ------------------------------------------------------------------- zooming

/// A breadcrumb zooms out to exactly its own depth: the names before it stay, those behind it
/// go, and the folder in focus is the one that it names. One that is not further out than the
/// map is already does nothing.
pub proof fn a_breadcrumb_zooms_to_itself(m: MapView, depth: usize, taps: u32, present: bool)
    ensures
        ({
            let after = view::zoomed_to(m, depth as int);
            let clicked = view::pressed(m, PressAt::Crumb(depth), taps, true, present);
            let missed = view::pressed(m, PressAt::Crumb(depth), taps, false, present);
            &&& missed == (m, view::nothing())
            &&& if depth < m.zoom.len() {
                &&& after.zoom.len() == depth
                &&& forall|i: int| 0 <= i < depth ==> #[trigger] after.zoom[i] == m.zoom[i]
                &&& path::keys(view::focus(after)) == path::keys(view::focus(m)).take(
                    m.root.steps.len() + depth,
                )
                &&& same_scan(after, m)
                &&& after.pick == m.pick
                &&& clicked.0 == after
                &&& clicked.1.redraw
                &&& only_shows(clicked.1) && clicked.1.action is Nothing
            } else {
                &&& after == m
                &&& clicked == (m, view::nothing())
            }
        }),
{
    if depth < m.zoom.len() {
        let after = view::zoomed_to(m, depth as int);
        path::joining_adds_parts(m.root, m.zoom);
        path::joining_adds_parts(m.root, after.zoom);
        assert(path::keys(view::focus(after)) =~= path::keys(view::focus(m)).take(
            m.root.steps.len() + depth,
        ));
    }
}

/// The map draws the folder in focus, or the nearest around it that is still on the map; the
/// names that lead there are those of the zoom, one for each part.
pub proof fn the_map_draws_the_focus(m: MapView, k: int)
    requires
        0 <= k <= m.zoom.len(),
        tree::at(m.tree, view::zoom_names(m).take(k)) is Some,
        k < m.zoom.len() ==> tree::at(m.tree, view::zoom_names(m).take(k + 1)) is None,
    ensures
        Some(view::focused_node(m)) == tree::at(m.tree, view::zoom_names(m).take(k)),
        view::zoom_names(m).len() == m.zoom.len(),
        forall|i: int|
            0 <= i < m.zoom.len() ==> #[trigger] view::zoom_names(m)[i] == path::part_text(
                m.zoom[i],
            ),
        view::focus(m) == path::joined(m.root, m.zoom),
{
    shape_laws::the_focus_goes_as_far_as_names_resolve(m.tree, view::zoom_names(m), k);
}

/// Zooming out leaves all names but the last.
pub proof fn zooming_out_leaves_all_but_the_last(m: MapView)
    requires
        m.zoom.len() > 0,
    ensures
        ({
            let after = view::zoomed_out(m);
            &&& after.zoom.len() == m.zoom.len() - 1
            &&& forall|i: int| 0 <= i < after.zoom.len() ==> #[trigger] after.zoom[i] == m.zoom[i]
            &&& same_scan(after, m)
            &&& after.pick == m.pick
        }),
{
}

/// A folder below the mapped one can be zoomed into exactly where the scan knows it: where its
/// names lead through folders, all the way. Nothing else can, the mapped folder least of all.
pub proof fn known_folders_can_be_zoomed_into(m: MapView, path: PathView)
    ensures
        view::can_zoom_into(m, path) <==> (view::names_below(m.root, path) matches Some(names)
            && names.len() > 0 && forall|k: int|
            1 <= k <= names.len() ==> (#[trigger] tree::at(m.tree, names.take(k)) matches Some(
                found,
            ) && found.is_dir)),
        path::same(path, m.root) ==> !view::can_zoom_into(m, path),
{
    if let Some(names) = view::names_below(m.root, path) {
        shape_laws::a_trail_is_folders_all_the_way(m.tree, names);
    }
    if path::same(path, m.root) {
        assert(path::keys(path).len() == path::keys(m.root).len());
    }
}

/// Zooming in sets the zoom to what leads from the mapped folder to the path, and where it
/// cannot be done it changes nothing.
pub proof fn zooming_in_goes_to_the_path(m: MapView, path: PathView)
    ensures
        ({
            let after = view::zoomed_into(m, path);
            if view::can_zoom_into(m, path) {
                &&& view::zoom_names(after) == view::names_below(m.root, path)->0
                &&& after.zoom.len() == path.steps.len() - m.root.steps.len()
                &&& same_scan(after, m)
                &&& after.pick == m.pick
            } else {
                after == m
            }
        }),
{
}

/// Whatever zooms asks for a new layout: what was laid out is of another place, and nothing is
/// hovered.
pub proof fn a_zoom_is_laid_out_at_once(
    m: MapView,
    zoom: Seq<PartView>,
    same_place: bool,
    clock: u64,
)
    ensures
        ({
            let after = view::rezoomed(m, zoom);
            &&& after.zoom == zoom
            &&& view::layout_step_of(after, same_place, clock) == LayoutStep::Relayout
            &&& view::due(after, clock)
            &&& after.hover is None
            &&& after.cells == m.cells
            &&& after.pick == m.pick
            &&& same_scan(after, m)
        }),
{
}

// ------------------------------------------------------------------ the names

/// What is below the mapped folder is known by the names that lead to it, one for each part;
/// what is not below it, and the folder itself, by none.
pub proof fn names_lead_down(root: PathView, path: PathView)
    ensures
        match view::names_below(root, path) {
            Some(names) => {
                &&& names.len() > 0
                &&& names.len() == path.steps.len() - root.steps.len()
                &&& path::keys(path).take(root.steps.len() as int) == path::keys(root)
                &&& forall|i: int|
                    0 <= i < names.len() ==> (path.steps[root.steps.len() + i].part matches
                        PartView::Name(name) ==> #[trigger] names[i] == path::name_text(name))
            },
            None => {
                ||| path.steps.len() <= root.steps.len()
                ||| path::keys(path).take(root.steps.len() as int) != path::keys(root)
            },
        },
{
    if let Some(names) = view::names_below(root, path) {
        let n = root.steps.len() as int;
        let rest = path::below(path, root)->0;
        assert forall|i: int| 0 <= i < names.len() implies (path.steps[n + i].part matches
            PartView::Name(name) ==> #[trigger] names[i] == path::name_text(name)) by {
            assert(rest.steps[i].part == path.steps[n + i].part);
        }
    }
}

/// What goes to a path goes into the folder around it: the mapped folder itself, or the one
/// that the names of the folder lead to.
pub proof fn a_path_is_received_by_its_folder(root: PathView, full: PathView)
    ensures
        match path::parent(full) {
            None => view::receiver(root, full) is None,
            Some(around) => if path::same(around, root) {
                view::receiver(root, full) matches Some(names) && names.len() == 0
            } else {
                view::receiver(root, full) == view::names_below(root, around)
            },
        },
{
}

// ------------------------------------------------------------------- scanning

/// A scan that is asked for starts clean: the map is of the folder that was asked for and of
/// nothing else, waits for a scan of its own number, and nothing of the old map is on screen,
/// picked or hovered.
pub proof fn a_scan_starts_clean(m: MapView, root: PathView, name: Seq<char>, fresh: bool)
    ensures
        ({
            let after = view::begun(m, root, name);
            let effects = view::begin_effects(m, root, fresh);
            &&& after.root == root
            &&& after.root_name == name
            &&& after.zoom.len() == 0
            &&& after.tree.name == name
            &&& after.tree.children.len() == 0
            &&& after.tree.size == 0
            &&& after.tree.files == 0
            &&& after.tree.is_dir
            &&& after.tree.kind == kind::tag_of(kind::FileKind::Folder)
            &&& !after.tree.denied
            &&& after.cells.len() == 0
            &&& after.pick is None
            &&& after.hover is None
            &&& after.error is None
            &&& after.folders_left == 0
            &&& after.scanned_at == 0
            &&& after.scanning
            &&& after.cancellable
            &&& after.denied == m.denied
            &&& after.stale && !after.laid_out && after.last_layout is None
            &&& after.generation != m.generation
            &&& m.generation < u64::MAX ==> after.generation == m.generation + 1
            &&& m.generation == u64::MAX ==> after.generation == 0
            &&& effects.redraw
            &&& effects.cancel == m.cancellable
            &&& !effects.save && !effects.forget_saved && !effects.next_frame
            &&& effects.action is Nothing
            &&& effects.scan matches Some(request)
            &&& request.generation == after.generation
            &&& request.root == root
            &&& request.fresh == fresh
        }),
{
}

/// Measuring again is of the folder on screen, afresh, and drops what was saved of it; where
/// nothing is mapped nothing happens.
pub proof fn rescanning_measures_the_same_folder(m: MapView, taps: u32, present: bool)
    ensures
        ({
            let (after, effects) = view::rescanned(m);
            if m.root.steps.len() == 0 {
                after == m && effects == view::nothing()
            } else {
                &&& after == view::begun(m, m.root, m.root_name)
                &&& effects.forget_saved
                &&& effects.redraw
                &&& effects.cancel == m.cancellable
                &&& !effects.save && !effects.next_frame && effects.action is Nothing
                &&& effects.scan matches Some(request)
                &&& request.fresh
                &&& request.root == m.root
                &&& request.generation == after.generation
            }
        }),
        view::pressed(m, PressAt::Rescan, taps, true, present) == view::rescanned(m),
        view::pressed(m, PressAt::Rescan, taps, false, present) == (m, view::nothing()),
        view::pressed(m, PressAt::Nowhere, taps, true, present) == (m, view::nothing()),
        view::pressed(m, PressAt::Nowhere, taps, false, present) == (m, view::nothing()),
{
}

/// Nothing to do is nothing, and drawing is nothing but that.
pub proof fn nothing_is_nothing()
    ensures
        only_shows(view::nothing()) && !view::nothing().redraw && view::nothing().action is Nothing,
        only_shows(view::redrawn()) && view::redrawn().redraw && view::redrawn().action is Nothing,
        ({
            let e = view::correction_effects();
            e.redraw && e.save && !e.next_frame && !e.forget_saved && !e.cancel && e.scan is None
                && e.action is Nothing
        }),
{
}

/// The folder on screen is not measured again exactly where it is the one asked for, something
/// of it is known, and nothing went wrong.
pub proof fn what_is_shown_already(m: MapView, path: PathView)
    ensures
        view::already_shows(m, path) <==> path::keys(path) == path::keys(m.root)
            && m.tree.children.len() > 0 && m.error is None,
{
}

/// A step of the scan says how many folders are left, or what a folder holds: the one changes
/// that number alone, the other the tree alone, which is then to be drawn.
pub proof fn a_step_changes_what_it_says(m: MapView, message: ScanMessage, now: u64)
    requires
        message.generation == m.generation,
        message.finished is None,
    ensures
        ({
            let after = view::told(m, message, now);
            match message.step {
                None => after == m,
                Some(ScanStep::Pace { folders_left }) => after == (MapView { folders_left, ..m }),
                Some(ScanStep::Closed { at, node }) => after == (MapView {
                    tree: tree::replaced(m.tree, path::names_view(at@), node@),
                    stale: true,
                    ..m
                }),
            }
        }),
{
}

/// A folder that the scan reports is on the map as it was reported, down to the file, and
/// everything that is neither above nor below it is as it was. It can be zoomed into where it
/// can be reached.
pub proof fn a_reported_folder_is_on_the_map(
    m: MapView,
    message: ScanMessage,
    now: u64,
    other: Seq<Seq<char>>,
)
    requires
        message.generation == m.generation,
        message.finished is None,
        message.step matches Some(ScanStep::Closed { at, node }) && {
            let names = path::names_view(at@);
            &&& tree::at(m.tree, names) is Some
            &&& names.len() > 0 ==> node@.name == names.last()
        },
    ensures
        message.step matches Some(ScanStep::Closed { at, node }) && {
            let names = path::names_view(at@);
            let after = view::told(m, message, now);
            &&& tree::at(after.tree, names) == Some(node@)
            &&& !tree_laws::begins_with(names, other) && !tree_laws::begins_with(other, names)
                ==> tree::at(after.tree, other) == tree::at(m.tree, other)
        },
{
    if let Some(ScanStep::Closed { at, node }) = message.step {
        let names = path::names_view(at@);
        shape_laws::a_report_is_found(m.tree, names, node@);
        if !tree_laws::begins_with(names, other) && !tree_laws::begins_with(other, names) {
            shape_laws::a_report_leaves_the_rest(m.tree, names, node@, other);
        }
    }
}

/// An end of a scan dates the map: by the clock where the disk was walked, by what it was saved
/// with where it was loaded, and not at all where it failed. Only a failure that leaves nothing
/// to show is an error, and says of what folder.
pub proof fn an_end_dates_the_map(m: MapView, message: ScanMessage, now: u64)
    requires
        message.generation == m.generation,
        message.finished is Some,
        message.step is None,
    ensures
        ({
            let after = view::told(m, message, now);
            &&& message.finished->0 is Scanned ==> after.scanned_at == now
            &&& message.finished->0 matches Outcome::Loaded { scanned_at } ==> after.scanned_at
                == scanned_at
            &&& message.finished->0 is Failed ==> after.scanned_at == m.scanned_at
            &&& message.finished->0 is Failed && m.tree.children.len() == 0 ==> after.error
                == Some("Could not map "@ + m.root_name)
            &&& !(message.finished->0 is Failed && m.tree.children.len() == 0) ==> after.error
                == m.error
            &&& after.tree == tree::sealed(m.tree)
            &&& !after.scanning && !after.cancellable && after.folders_left == 0 && after.stale
            &&& after.denied == tree::at_most(tree::refused(after.tree, after.tree.name), 4)
            &&& after.root == m.root && after.root_name == m.root_name && after.zoom == m.zoom
            &&& after.cells == m.cells && after.laid_out == m.laid_out && after.last_layout
                == m.last_layout
            &&& after.hover == m.hover && after.pick == m.pick && after.generation == m.generation
        }),
{
    shape_laws::sealing_changes_nothing_else(m.tree, seq![]);
}

/// A message that both reports a folder and ends the scan does the one and then the other.
pub proof fn a_last_report_is_taken_first(m: MapView, message: ScanMessage, now: u64)
    requires
        message.generation == m.generation,
        message.finished is Some,
        message.step is Some,
    ensures
        ({
            let step = ScanMessage {
                generation: message.generation,
                step: message.step,
                finished: None,
            };
            let end = ScanMessage {
                generation: message.generation,
                step: None,
                finished: message.finished,
            };
            let after = view::told(m, message, now);
            if message.step->0 is Pace {
                after == view::told(m, step, now)
            } else {
                after == view::told(view::told(m, step, now), end, now)
            }
        }),
{
}

/// Messages are taken one after another: those of two batches in a row as those of the one and
/// then of the other, and a single one by itself.
pub proof fn messages_are_taken_in_order(
    m: MapView,
    a: Seq<ScanMessage>,
    b: Seq<ScanMessage>,
    message: ScanMessage,
    now: u64,
)
    ensures
        view::all_told(m, a + b, now) == view::all_told(view::all_told(m, a, now), b, now),
        view::all_told(m, seq![message], now) == view::told(m, message, now),
        view::all_told(m, seq![], now) == m,
    decreases b.len(),
{
    let one = seq![message];
    assert(one.drop_last() =~= Seq::<ScanMessage>::empty());
    assert(view::all_told(m, one.drop_last(), now) == m);
    assert(one.last() == message);
    if b.len() == 0 {
        assert(a + b =~= a);
    } else {
        messages_are_taken_in_order(m, a, b.drop_last(), message, now);
        assert((a + b).drop_last() =~= a + b.drop_last());
        assert((a + b).last() == b.last());
    }
}

/// Taking messages saves the map exactly where one of them, of this scan, ended a walk of the
/// disk, and draws at once where one ended the scan or a layout is due; and it asks for nothing
/// else.
pub proof fn a_walk_is_saved(m: MapView, messages: Seq<ScanMessage>, now: u64, clock: u64)
    requires
        messages.len() > 0,
    ensures
        ({
            let effects = view::drain_effects(m, messages, now, clock);
            let after = view::all_told(m, messages, now);
            let mine = |i: int| messages[i].generation == m.generation && messages[i].finished is Some
                && !(messages[i].step is Some && messages[i].step->0 is Pace);
            &&& effects.save <==> exists|i: int|
                0 <= i < messages.len() && #[trigger] mine(i) && messages[i].finished->0 is Scanned
            &&& effects.redraw <==> (exists|i: int|
                0 <= i < messages.len() && #[trigger] mine(i)) || view::due(after, clock)
            &&& effects.next_frame == !effects.redraw
            &&& !effects.forget_saved && !effects.cancel && effects.scan is None
                && effects.action is Nothing
        }),
{
    let mine = |i: int| messages[i].generation == m.generation && messages[i].finished is Some && !(
    messages[i].step is Some && messages[i].step->0 is Pace);
    assert forall|i: int| 0 <= i < messages.len() implies #[trigger] mine(i) == (
    messages[i].generation == m.generation && view::ends(messages[i])) by {}
    if view::measured(messages, m.generation) {
        let i = choose|i: int|
            0 <= i < messages.len() && (#[trigger] messages[i]).generation == m.generation
                && view::ends(messages[i]) && messages[i].finished->0 is Scanned;
        assert(mine(i));
    }
    if view::finishes(messages, m.generation) {
        let i = choose|i: int|
            0 <= i < messages.len() && (#[trigger] messages[i]).generation == m.generation
                && view::ends(messages[i]);
        assert(mine(i));
    }
}

/// Where nothing was sent nothing happens.
pub proof fn no_message_is_no_news(m: MapView, now: u64, clock: u64)
    ensures
        view::drain_effects(m, seq![], now, clock) == view::nothing(),
        view::all_told(m, seq![], now) == m,
{
}

/// A picture may be rebuilt at once where no scan feeds the map or none was built yet, and
/// otherwise from a hundred and ten milliseconds after the last on.
pub proof fn the_throttle_is_exact(m: MapView, laid: Seq<CellView>, clock: u64, now: u64)
    ensures
        !m.scanning ==> view::due(m, now),
        m.last_layout is None ==> view::due(m, now),
        m.scanning ==> (view::due(view::relaid(m, laid, clock), now) <==> now >= clock + 110),
{
}

/// A drawing lays the map out where it has to, comes back where the throttle holds it, and
/// otherwise draws what there is.
pub proof fn a_drawing_does_what_it_must(m: MapView, same_place: bool, clock: u64)
    ensures
        ({
            let step = view::layout_step_of(m, same_place, clock);
            let fresh = m.laid_out && same_place && !m.stale;
            &&& step == LayoutStep::Keep <==> fresh
            &&& step == LayoutStep::Wait <==> m.laid_out && same_place && m.stale && !view::due(
                m,
                clock,
            )
        }),
{
}

// ------------------------------------------------------------------ the layout

/// A layout is taken over whole: its cells are the map's, nothing is hovered, and the map is
/// fresh from now on; nothing else of the map changes but the numbers of the pick.
pub proof fn a_layout_is_taken_over(m: MapView, laid: Seq<CellView>, clock: u64)
    ensures
        ({
            let after = view::relaid(m, laid, clock);
            &&& after.cells == laid
            &&& after.laid_out
            &&& !after.stale
            &&& after.last_layout == Some(clock)
            &&& after.hover is None
            &&& after.zoom == m.zoom
            &&& same_scan(after, m)
        }),
{
}

/// Whether `i` is the first of these cells that stands for `path`, leaving bundles out where
/// asked to.
pub open spec fn stands_for(all: Seq<CellView>, path: PathView, on_disk: bool, i: int) -> bool {
    &&& 0 <= i < all.len()
    &&& path::same(all[i].path, path)
    &&& on_disk ==> all[i].kind != 255
    &&& forall|j: int|
        0 <= j < i ==> !(path::same((#[trigger] all[j]).path, path) && (on_disk ==> all[j].kind
            != 255))
}

/// Whether none of these cells stands for `path`.
pub open spec fn none_stands_for(all: Seq<CellView>, path: PathView, on_disk: bool) -> bool {
    forall|j: int|
        0 <= j < all.len() ==> !(path::same((#[trigger] all[j]).path, path) && (on_disk ==> all[j].kind
            != 255))
}

/// The cell that is found for a path is the first that stands for it.
pub proof fn the_first_cell_is_found(all: Seq<CellView>, path: PathView, on_disk: bool)
    ensures
        match cells::cell_at(all, path, on_disk, 0) {
            Some(i) => stands_for(all, path, on_disk, i),
            None => none_stands_for(all, path, on_disk),
        },
{
    lemma_cell_at(all, path, on_disk, 0);
}

proof fn lemma_cell_at(all: Seq<CellView>, path: PathView, on_disk: bool, i: int)
    requires
        0 <= i,
    ensures
        match cells::cell_at(all, path, on_disk, i) {
            Some(at) => {
                &&& i <= at < all.len()
                &&& path::same(all[at].path, path)
                &&& on_disk ==> all[at].kind != 255
                &&& forall|j: int|
                    i <= j < at ==> !(path::same((#[trigger] all[j]).path, path) && (on_disk
                        ==> all[j].kind != 255))
            },
            None => forall|j: int|
                i <= j < all.len() ==> !(path::same((#[trigger] all[j]).path, path) && (on_disk
                    ==> all[j].kind != 255)),
        },
    decreases all.len() - i,
{
    if i < all.len() {
        lemma_cell_at(all, path, on_disk, i + 1);
    }
}

/// Whether a pick has the path and the numbers of a cell.
pub open spec fn is_pick_of(pick: PickView, cell: CellView) -> bool {
    &&& pick.path == cell.path
    &&& pick.size == cell.size
    &&& pick.files == cell.files
    &&& pick.is_dir == cell.is_dir
    &&& pick.bundle == cell.extra
}

/// A selection has the numbers of the first cell that stands for its path, and none where none
/// does; asking for what is selected already, or for nothing where nothing is, changes nothing.
pub proof fn a_selection_has_its_cells_numbers(m: MapView, path: PathView, i: int)
    requires
        stands_for(m.cells, path, false, i) || none_stands_for(m.cells, path, false),
    ensures
        ({
            let after = view::selected(m, Some(path));
            let already = m.pick is Some && path::same(m.pick->0.path, path);
            &&& already ==> after == m
            &&& !already ==> {
                let pick = after.pick->0;
                &&& after.pick is Some
                &&& stands_for(m.cells, path, false, i) ==> is_pick_of(pick, m.cells[i])
                &&& none_stands_for(m.cells, path, false) ==> pick.path == path && pick.size == 0
                    && pick.files == 0 && !pick.is_dir && pick.bundle == 0
            }
            &&& same_scan(after, m)
            &&& same_picture(after, m)
            &&& after.zoom == m.zoom
            &&& view::is_selected(m, Some(path)) == already
            &&& view::is_selected(m, None) == (m.pick is None)
            &&& view::selected(m, None) == (MapView { pick: None, ..m })
        }),
{
    the_first_cell_is_found(m.cells, path, false);
    if let Some(k) = cells::cell_at(m.cells, path, false, 0) {
        if stands_for(m.cells, path, false, i) {
            assert(k == i) by {
                if k < i {
                    assert(path::same(m.cells[k].path, path));
                }
                if i < k {
                    assert(path::same(m.cells[i].path, path));
                }
            }
        } else {
            assert(path::same(m.cells[k].path, path));
        }
    } else if stands_for(m.cells, path, false, i) {
        assert(path::same(m.cells[i].path, path));
    }
}

/// A layout gives the pick the numbers of the first cell on the disk that now stands for it,
/// and leaves it as it was where none does.
pub proof fn a_layout_refreshes_the_pick(m: MapView, laid: Seq<CellView>, clock: u64, i: int)
    requires
        m.pick is Some,
        stands_for(laid, m.pick->0.path, true, i) || none_stands_for(laid, m.pick->0.path, true),
    ensures
        ({
            let after = view::relaid(m, laid, clock).pick;
            &&& after is Some
            &&& stands_for(laid, m.pick->0.path, true, i) ==> is_pick_of(after->0, laid[i])
            &&& none_stands_for(laid, m.pick->0.path, true) ==> after == m.pick
        }),
{
    let path = m.pick->0.path;
    the_first_cell_is_found(laid, path, true);
    if let Some(k) = cells::cell_at(laid, path, true, 0) {
        if stands_for(laid, path, true, i) {
            assert(k == i) by {
                if k < i {
                    assert(path::same(laid[k].path, path));
                }
                if i < k {
                    assert(path::same(laid[i].path, path));
                }
            }
        } else {
            assert(path::same(laid[k].path, path));
        }
    } else if stands_for(laid, path, true, i) {
        assert(path::same(laid[i].path, path));
    }
}

/// What is under a point is the path of the cell there, and nothing where there is no cell or
/// where it is the bundle.
pub proof fn a_point_is_on_its_cell(m: MapView, hit: Option<usize>)
    ensures
        match view::path_under(m, hit) {
            Some(path) => hit is Some && hit->0 < m.cells.len() && m.cells[hit->0 as int].kind != 255
                && path == m.cells[hit->0 as int].path,
            None => hit is None || hit->0 >= m.cells.len() || m.cells[hit->0 as int].kind == 255,
        },
{
}

// --------------------------------------------------------------------- presses

/// A press lands on the word that starts a scan, else on a breadcrumb, else on a cell.
pub proof fn a_press_lands_on_what_is_in_front(
    rescan: bool,
    crumb: Option<usize>,
    hit: Option<usize>,
)
    ensures
        rescan ==> view::landing(rescan, crumb, hit) is Rescan,
        !rescan && crumb is Some ==> view::landing(rescan, crumb, hit) == PressAt::Crumb(crumb->0),
        !rescan && crumb is None && hit is Some ==> view::landing(rescan, crumb, hit)
            == PressAt::Cell(hit->0),
        !rescan && crumb is None && hit is None ==> view::landing(rescan, crumb, hit) is Nowhere,
{
}

/// A press on something that is on the disk picks it, with its numbers, and draws; the tree
/// stays, and nothing is saved or scanned. The browser hears that it was selected, unless it
/// was double-clicked: then a file is revealed, and a folder that the scan knows is zoomed into
/// without a word.
pub proof fn a_press_picks_what_it_hits(m: MapView, i: usize, taps: u32, primary: bool)
    requires
        i < m.cells.len(),
        m.cells[i as int].kind != 255,
    ensures
        ({
            let cell = m.cells[i as int];
            let (after, effects) = view::pressed(m, PressAt::Cell(i), taps, primary, true);
            let double = primary && taps >= 2;
            let zooms = double && cell.is_dir && view::can_zoom_into(m, cell.path);
            &&& after.pick is Some
            &&& is_pick_of(after.pick->0, cell)
            &&& same_scan(after, m)
            &&& after.cells == m.cells
            &&& effects.redraw
            &&& only_shows(effects)
            &&& zooms ==> view::zoom_names(after) == view::names_below(m.root, cell.path)->0
                && effects.action is Nothing
            &&& !zooms ==> after.zoom == m.zoom && same_picture(after, m)
            &&& double && !cell.is_dir ==> effects.action == ActionView::Reveal(cell.path)
            &&& !zooms && !(double && !cell.is_dir) ==> effects.action == ActionView::Selected(
                cell.path,
            )
        }),
{
}

/// A press on the bundle picks it, with how many items it stands for, and that is the whole of
/// it. One on a cell that is not there does nothing.
pub proof fn a_press_on_the_bundle_only_picks(
    m: MapView,
    i: usize,
    taps: u32,
    primary: bool,
    present: bool,
)
    ensures
        ({
            let (after, effects) = view::pressed(m, PressAt::Cell(i), taps, primary, present);
            &&& i >= m.cells.len() ==> after == m && effects == view::nothing()
            &&& i < m.cells.len() && m.cells[i as int].kind == 255 ==> {
                &&& after.pick is Some
                &&& is_pick_of(after.pick->0, m.cells[i as int])
                &&& after == (MapView { pick: after.pick, ..m })
                &&& effects.redraw && only_shows(effects) && effects.action is Nothing
            }
        }),
{
}

/// Dropping a path leaves all of the map but it: the rest of the tree, the folder, the scan and
/// any other pick; and the picture is to be built anew.
pub proof fn dropping_leaves_the_rest(m: MapView, path: PathView, other: Seq<Seq<char>>)
    requires
        view::names_below(m.root, path) is Some,
        tree::at(m.tree, view::names_below(m.root, path)->0) is Some,
    ensures
        ({
            let names = view::names_below(m.root, path)->0;
            let (after, there) = view::dropped(m, path);
            &&& there
            &&& same_progress(after, m)
            &&& after.root == m.root && after.root_name == m.root_name && after.zoom == m.zoom
            &&& after.cells == m.cells && after.laid_out == m.laid_out
            &&& after.stale && after.hover is None && after.last_layout is None
            &&& after.pick == (if m.pick is Some && path::same(m.pick->0.path, path) {
                None
            } else {
                m.pick
            })
            &&& tree::at(m.tree, other) is Some && !tree_laws::begins_with(names, other)
                && !tree_laws::begins_with(other, names) ==> tree::at(after.tree, other) == tree::at(
                m.tree,
                other,
            )
        }),
{
    let names = view::names_below(m.root, path)->0;
    shape_laws::whatever_is_there_can_be_taken_out(m.tree, names);
    if tree::at(m.tree, other) is Some && !tree_laws::begins_with(names, other)
        && !tree_laws::begins_with(other, names) {
        tree_laws::a_detach_leaves_the_rest(m.tree, names, other);
    }
}

// ----------------------------------------------------------------- corrections

/// Corrections are taken exactly where no scan is running and something is on the map.
pub proof fn corrections_are_taken_at_rest(m: MapView)
    ensures
        view::takes_corrections(m) <==> !m.scanning && m.tree.children.len() > 0,
        ({
            let after = view::corrected(m);
            &&& same_scan(after, m)
            &&& after.zoom == m.zoom
            &&& after.pick == m.pick
            &&& after.cells == m.cells
            &&& after.laid_out == m.laid_out
            &&& after.stale
            &&& after.hover is None
            &&& after.last_layout is None
        }),
{
}

/// A move is taken exactly where what moved is on the map, and lands exactly where it goes to a
/// folder on what is then left of the map and has a name there. It changes the tree and the
/// pick, and nothing else.
pub proof fn a_move_is_taken_where_it_can_be(m: MapView, mv: MoveView)
    ensures
        ({
            let (after, taken) = view::moved(m, mv);
            let names = view::names_below(m.root, mv.0);
            &&& taken <==> names is Some && tree::at(m.tree, names->0) is Some
            &&& after == (MapView { tree: after.tree, pick: after.pick, ..m })
            &&& !taken ==> after == m
            &&& taken ==> after.pick == (if m.pick is Some && path::same(m.pick->0.path, mv.0) {
                None
            } else {
                m.pick
            })
            &&& taken ==> {
                let (kept, gone) = tree::detached(m.tree, names->0)->0;
                let without = MapView { tree: kept, pick: after.pick, ..m };
                &&& view_laws::lands(without, gone, mv.1) <==> mv.1 is Some && path::last_name(
                    mv.1->0,
                ) is Some && view::receiver(m.root, mv.1->0) is Some && (tree::at(
                    kept,
                    view::receiver(m.root, mv.1->0)->0,
                ) matches Some(place) && place.is_dir)
                &&& !view_laws::lands(without, gone, mv.1) ==> after.tree == kept
            }
        }),
{
    if let Some(names) = view::names_below(m.root, mv.0) {
        shape_laws::whatever_is_there_can_be_taken_out(m.tree, names);
        if let Some((kept, gone)) = tree::detached(m.tree, names) {
            if let Some(to) = mv.1 {
                if let (Some(into), Some(name)) = (view::receiver(m.root, to), path::last_name(to)) {
                    shape_laws::a_folder_takes_anything(kept, into, NodeView { name, ..gone });
                }
            }
        }
    }
}

/// A move leaves everything else on the map where it is: what is neither above nor below the
/// place that it left, nor above the place that it goes to.
pub proof fn a_move_leaves_the_rest(m: MapView, mv: MoveView, other: Seq<Seq<char>>)
    requires
        view::names_below(m.root, mv.0) is Some,
        tree::at(m.tree, other) is Some,
        !tree_laws::begins_with(view::names_below(m.root, mv.0)->0, other),
        !tree_laws::begins_with(other, view::names_below(m.root, mv.0)->0),
        mv.1 matches Some(to) ==> (view::receiver(m.root, to) matches Some(into)
            ==> !tree_laws::begins_with(into, other)),
    ensures
        tree::at(view::moved(m, mv).0.tree, other) == tree::at(m.tree, other),
{
    let names = view::names_below(m.root, mv.0)->0;
    if let Some((kept, gone)) = tree::detached(m.tree, names) {
        tree_laws::a_detach_leaves_the_rest(m.tree, names, other);
        if let Some(to) = mv.1 {
            if let (Some(into), Some(name)) = (view::receiver(m.root, to), path::last_name(to)) {
                let come = NodeView { name, ..gone };
                if tree::grafted(kept, into, come) is Some {
                    tree_laws::a_graft_leaves_the_rest(kept, into, come, other);
                }
            }
        }
    }
}

/// Moves are taken one after another, every one of them, and the map has changed where one of
/// them changed it.
pub proof fn moves_are_taken_in_order(m: MapView, a: Seq<MoveView>, b: Seq<MoveView>, mv: MoveView)
    ensures
        ({
            let first = view::all_moved(m, a);
            let then = view::all_moved(first.0, b);
            view::all_moved(m, a + b) == (then.0, first.1 || then.1)
        }),
        view::all_moved(m, seq![mv]) == view::moved(m, mv),
        view::all_moved(m, seq![]) == (m, false),
    decreases b.len(),
{
    let one = seq![mv];
    assert(one.drop_last() =~= Seq::<MoveView>::empty());
    assert(view::all_moved(m, one.drop_last()) == (m, false));
    assert(one.last() == mv);
    if b.len() == 0 {
        assert(a + b =~= a);
    } else {
        moves_are_taken_in_order(m, a, b.drop_last(), mv);
        assert((a + b).drop_last() =~= a + b.drop_last());
        assert((a + b).last() == b.last());
    }
}

/// Whether a copy can be taken: its source is on the map, and it goes to a folder on the map
/// under a name.
pub open spec fn can_copy(m: MapView, from: PathView, to: PathView) -> bool {
    &&& view::names_below(m.root, from) matches Some(names) && tree::at(m.tree, names) is Some
    &&& view::names_below(m.root, to) is Some
    &&& path::last_name(to) is Some
    &&& view::receiver(m.root, to) matches Some(into) && (tree::at(m.tree, into) matches Some(place)
        && place.is_dir)
}

/// A copy is taken exactly where it can be, and changes nothing but the tree.
pub proof fn a_copy_is_taken_where_it_can_be(m: MapView, from: PathView, to: PathView)
    ensures
        ({
            let (after, taken) = view::copied(m, (from, to));
            &&& taken <==> can_copy(m, from, to)
            &&& after == (MapView { tree: after.tree, ..m })
            &&& !taken ==> after == m
        }),
{
    if let (Some(names), Some(into), Some(name)) = (
        view::names_below(m.root, from),
        view::receiver(m.root, to),
        path::last_name(to),
    ) {
        if let Some(source) = tree::at(m.tree, names) {
            shape_laws::a_folder_takes_anything(m.tree, into, NodeView { name, ..source });
        }
    }
}

/// Copies are taken one after another, every one of them, and the map has changed where one of
/// them changed it.
pub proof fn copies_are_taken_in_order(
    m: MapView,
    a: Seq<(PathView, PathView)>,
    b: Seq<(PathView, PathView)>,
    copy: (PathView, PathView),
)
    ensures
        ({
            let first = view::all_copied(m, a);
            let then = view::all_copied(first.0, b);
            view::all_copied(m, a + b) == (then.0, first.1 || then.1)
        }),
        view::all_copied(m, seq![copy]) == view::copied(m, copy),
        view::all_copied(m, seq![]) == (m, false),
    decreases b.len(),
{
    let one = seq![copy];
    assert(one.drop_last() =~= Seq::<(PathView, PathView)>::empty());
    assert(view::all_copied(m, one.drop_last()) == (m, false));
    assert(one.last() == copy);
    if b.len() == 0 {
        assert(a + b =~= a);
    } else {
        copies_are_taken_in_order(m, a, b.drop_last(), copy);
        assert((a + b).drop_last() =~= a + b.drop_last());
        assert((a + b).last() == b.last());
    }
}

/// The bytes that a copy brings onto the map.
pub open spec fn bytes_copied(m: MapView, copy: (PathView, PathView)) -> nat {
    if can_copy(m, copy.0, copy.1) {
        (tree::at(m.tree, view::names_below(m.root, copy.0)->0)->0).size as nat
    } else {
        0
    }
}

/// The files that a copy brings onto the map.
pub open spec fn files_copied(m: MapView, copy: (PathView, PathView)) -> nat {
    if can_copy(m, copy.0, copy.1) {
        (tree::at(m.tree, view::names_below(m.root, copy.0)->0)->0).files as nat
    } else {
        0
    }
}

/// The bytes that these copies bring onto the map, each at its turn.
pub open spec fn bytes_come(m: MapView, copies: Seq<(PathView, PathView)>) -> nat
    decreases copies.len(),
{
    if copies.len() == 0 {
        0
    } else {
        bytes_copied(m, copies[0]) + bytes_come(view::copied(m, copies[0]).0, copies.skip(1))
    }
}

/// The files that these copies bring onto the map, each at its turn.
pub open spec fn files_come(m: MapView, copies: Seq<(PathView, PathView)>) -> nat
    decreases copies.len(),
{
    if copies.len() == 0 {
        0
    } else {
        files_copied(m, copies[0]) + files_come(view::copied(m, copies[0]).0, copies.skip(1))
    }
}

/// Copies are arithmetic, any number of them: the whole gains what every copy that can be taken
/// at its turn weighs, wherever the numbers can hold the sum, and every folder is still the sum
/// of what it holds.
pub proof fn copies_are_arithmetic(m: MapView, copies: Seq<(PathView, PathView)>)
    requires
        tree_laws::adds_up(m.tree),
        m.tree.size + bytes_come(m, copies) <= u64::MAX,
        m.tree.files + files_come(m, copies) <= u32::MAX,
    ensures
        ({
            let after = view::all_copied(m, copies).0;
            &&& tree_laws::adds_up(after.tree)
            &&& after.tree.size == m.tree.size + bytes_come(m, copies)
            &&& after.tree.files == m.tree.files + files_come(m, copies)
        }),
    decreases copies.len(),
{
    if copies.len() > 0 {
        let first = copies[0];
        let rest = copies.skip(1);
        let one = seq![first];
        assert(one + rest =~= copies);
        copies_are_taken_in_order(m, one, rest, first);
        a_copy_is_taken_where_it_can_be(m, first.0, first.1);
        if can_copy(m, first.0, first.1) {
            view_laws::a_copy_is_arithmetic(m, first.0, first.1);
        }
        copies_are_arithmetic(view::copied(m, first).0, rest);
    }
}

/// Every copy of a batch that can be taken at its turn is found at its destination when the
/// batch is done, if its name was free there.
pub proof fn every_copy_is_found(m: MapView, copies: Seq<(PathView, PathView)>, k: int)
    requires
        0 <= k < copies.len(),
        ({
            let before = view::all_copied(m, copies.take(k)).0;
            let to = copies[k].1;
            &&& can_copy(before, copies[k].0, to)
            &&& tree::at(
                before.tree,
                (view::receiver(m.root, to)->0).push(path::last_name(to)->0),
            ) is None
        }),
    ensures
        ({
            let to = copies[k].1;
            let there = (view::receiver(m.root, to)->0).push(path::last_name(to)->0);
            tree::at(view::all_copied(m, copies).0.tree, there) is Some
        }),
{
    let before = view::all_copied(m, copies.take(k)).0;
    let to = copies[k].1;
    let there = (view::receiver(m.root, to)->0).push(path::last_name(to)->0);
    let one = seq![copies[k]];
    let rest = copies.skip(k + 1);
    lemma_copies_keep_the_rest(m, copies.take(k));
    a_copy_is_taken_where_it_can_be(before, copies[k].0, to);
    view_laws::a_copy_appears_and_its_source_stays(before, copies[k].0, to);
    assert(copies =~= copies.take(k) + (one + rest));
    copies_are_taken_in_order(m, copies.take(k), one + rest, copies[k]);
    copies_are_taken_in_order(before, one, rest, copies[k]);
    lemma_found_stays_found(view::copied(before, copies[k]).0, rest, there);
}

proof fn lemma_copies_keep_the_rest(m: MapView, copies: Seq<(PathView, PathView)>)
    ensures
        view::all_copied(m, copies).0 == (MapView { tree: view::all_copied(m, copies).0.tree, ..m }),
    decreases copies.len(),
{
    if copies.len() > 0 {
        lemma_copies_keep_the_rest(m, copies.drop_last());
        let before = view::all_copied(m, copies.drop_last()).0;
        a_copy_is_taken_where_it_can_be(before, copies.last().0, copies.last().1);
    }
}

/// What is on the map stays on it, whatever is copied.
proof fn lemma_found_stays_found(
    m: MapView,
    copies: Seq<(PathView, PathView)>,
    names: Seq<Seq<char>>,
)
    requires
        tree::at(m.tree, names) is Some,
    ensures
        tree::at(view::all_copied(m, copies).0.tree, names) is Some,
    decreases copies.len(),
{
    if copies.len() > 0 {
        lemma_found_stays_found(m, copies.drop_last(), names);
        let before = view::all_copied(m, copies.drop_last()).0;
        let (from, to) = copies.last();
        if view::copied(before, (from, to)).1 {
            let source = tree::at(before.tree, view::names_below(before.root, from)->0)->0;
            let come = NodeView { name: path::last_name(to)->0, ..source };
            let into = view::receiver(before.root, to)->0;
            if tree_laws::begins_with(into, names) {
                shape_laws::a_graft_comes_last(before.tree, into, come, names.len() as int);
            } else {
                tree_laws::a_graft_leaves_the_rest(before.tree, into, come, names);
            }
        } else {
            a_copy_is_taken_where_it_can_be(before, from, to);
        }
    }
}

} // verus!
