//! What always holds of the map, whatever the user and the disk do.

use vstd::prelude::*;
use crate::cells;
use crate::path;
use crate::path::{NameView, PartView, PathView};
use crate::scan;
use crate::tree;
use crate::tree::{NodeView, ScanStep};
use crate::tree_laws;
use crate::view;
use crate::view::{LayoutStep, MapView, MoveView, PressAt};
use crate::cells::{CellView, ScanMessage};

verus! {

// -------------------------------------------------------------------- scans

/// A scan the user already navigated away from is dropped: messages of another generation
/// change nothing.
pub proof fn another_scan_is_dropped(m: MapView, messages: Seq<ScanMessage>, now: u64)
    requires
        forall|i: int|
            0 <= i < messages.len() ==> (#[trigger] messages[i]).generation != m.generation,
    ensures
        view::all_told(m, messages, now) == m,
    decreases messages.len(),
{
    if messages.len() > 0 {
        assert(messages.last() == messages[messages.len() - 1]);
        assert forall|i: int| 0 <= i < messages.drop_last().len() implies (
        #[trigger] messages.drop_last()[i]).generation != m.generation by {
            assert(messages.drop_last()[i] == messages[i]);
        }
        another_scan_is_dropped(m, messages.drop_last(), now);
    }
}

/// Asking for a folder leaves the scan that was running behind: whatever it still sends
/// changes nothing in the map that was asked for.
pub proof fn a_new_scan_drops_the_old_one(
    m: MapView,
    root: PathView,
    name: Seq<char>,
    messages: Seq<ScanMessage>,
    now: u64,
)
    requires
        forall|i: int|
            0 <= i < messages.len() ==> (#[trigger] messages[i]).generation == m.generation,
    ensures
        view::all_told(view::begun(m, root, name), messages, now) == view::begun(m, root, name),
{
    another_scan_is_dropped(view::begun(m, root, name), messages, now);
}

/// When a scan has ended, nothing is pending, no folder is still open, and no scan is
/// running.
pub proof fn an_ended_scan_is_settled(m: MapView, message: ScanMessage, now: u64)
    requires
        message.generation == m.generation,
        view::ends(message),
    ensures
        ({
            let after = view::told(m, message, now);
            &&& tree_laws::settled(after.tree)
            &&& !after.scanning
            &&& !after.cancellable
            &&& after.folders_left == 0
            &&& after.stale
            &&& after.denied.len() <= view::DENIED_SHOWN
        }),
{
    let stepped = view::stepped(m, message.step);
    tree_laws::sealing_only_settles(stepped.tree);
}

/// Whether the map can stop exactly the scan that it waits for.
pub open spec fn stoppable(m: MapView) -> bool {
    m.scanning == m.cancellable
}

/// A scan that is waited for can always be told to stop, and one that is over is never told
/// to: this holds of a new map, and a scan that starts or reports itself keeps it, and so
/// does a press.
pub proof fn a_running_scan_can_be_stopped(
    m: MapView,
    root: PathView,
    name: Seq<char>,
    messages: Seq<ScanMessage>,
    now: u64,
)
    requires
        stoppable(m),
    ensures
        stoppable(view::unmapped()),
        stoppable(view::begun(m, root, name)),
        stoppable(view::all_told(m, messages, now)),
        forall|at: PressAt, taps: u32, primary: bool, present: bool|
            stoppable((#[trigger] view::pressed(m, at, taps, primary, present)).0),
    decreases messages.len(),
{
    if messages.len() > 0 {
        a_running_scan_can_be_stopped(m, root, name, messages.drop_last(), now);
    }
}

/// A saved map that is delivered is what the map then shows, with the age it was saved with;
/// it is drawn at once, and it is not saved again.
pub proof fn a_saved_map_is_shown(
    m: MapView,
    messages: Seq<ScanMessage>,
    saved: scan::SavedMap,
    now: u64,
    clock: u64,
)
    requires
        scan::carries_saved(messages, m.generation, saved),
    ensures
        ({
            let after = view::all_told(m, messages, now);
            let effects = view::drain_effects(m, messages, now, clock);
            &&& after.tree == tree::sealed(saved.tree@)
            &&& after.scanned_at == saved.scanned_at
            &&& !after.scanning
            &&& effects.redraw
            &&& !effects.save
        }),
{
    let first = messages.drop_last();
    assert(first.drop_last() =~= Seq::<ScanMessage>::empty());
    assert(view::all_told(m, first.drop_last(), now) == m);
    assert(first.last() == messages[0]);
    assert(messages.last() == messages[1]);
    let stepped = view::all_told(m, first, now);
    assert(stepped == view::told(m, messages[0], now));
    assert(stepped.tree == saved.tree@) by {
        let at = messages[0].step->0->at;
        assert(path::names_view(at@) =~= Seq::<Seq<char>>::empty());
    }
    assert(view::finishes(messages, m.generation)) by {
        assert(messages[1].generation == m.generation && view::ends(messages[1]));
    }
}

/// No update is lost: whatever is taken is drawn at once, or picked up on the next frame,
/// and one of the two only.
pub proof fn no_update_is_lost(m: MapView, messages: Seq<ScanMessage>, now: u64, clock: u64)
    requires
        messages.len() > 0,
    ensures
        ({
            let effects = view::drain_effects(m, messages, now, clock);
            effects.redraw != effects.next_frame
        }),
{
}

/// A finished scan is drawn at once, and its picture is never held back.
pub proof fn a_finished_map_is_not_throttled(m: MapView, same_place: bool, clock: u64)
    requires
        !m.scanning,
    ensures
        view::due(m, clock),
        view::layout_step_of(m, same_place, clock) != LayoutStep::Wait,
        m.stale ==> view::layout_step_of(m, same_place, clock) == LayoutStep::Relayout,
{
}

/// No press reads the disk again but one on the word that says so.
pub proof fn only_rescan_starts_a_scan(
    m: MapView,
    at: PressAt,
    taps: u32,
    primary: bool,
    present: bool,
)
    ensures
        (view::pressed(m, at, taps, primary, present).1.scan is Some) ==> at is Rescan && primary,
{
}

// ------------------------------------------------------------------ zooming

/// Whether every name of `path` below `root` is text. The map knows names as text alone: of
/// one that is none it knows what is shown of it.
pub open spec fn is_text_below(root: PathView, path: PathView) -> bool {
    forall|i: int|
        root.steps.len() <= i < path.steps.len() ==> !((#[trigger] path.steps[i]).part matches
            PartView::Name(NameView::Odd { .. }))
}

/// Zooming into a folder puts the focus on it: the map then draws that folder's node.
pub proof fn zooming_in_focuses(m: MapView, path: PathView)
    requires
        view::can_zoom_into(m, path),
        is_text_below(m.root, path),
    ensures
        ({
            let after = view::zoomed_into(m, path);
            let names = view::zoom_names(after);
            &&& path::same(view::focus(after), path)
            &&& tree::at(after.tree, names) == Some(view::focused_node(after))
            &&& view::focused_node(after).is_dir
            &&& after.tree == m.tree
        }),
{
    let after = view::zoomed_into(m, path);
    lemma_focus_keys(m.root, path);
    assert(path::keys(view::focus(after)) =~= path::keys(path));
    lemma_trail_resolves(m.tree, view::zoom_names(after));
}

/// The parts of the mapped folder and those below it are the parts of the path.
proof fn lemma_focus_keys(root: PathView, path: PathView)
    requires
        view::parts_below(root, path) is Some,
        is_text_below(root, path),
    ensures
        path::keys(path::joined(root, view::parts_below(root, path)->0)) == path::keys(path),
{
    let parts = view::parts_below(root, path)->0;
    let n = root.steps.len() as int;
    path::joining_adds_parts(root, parts);
    let whole = path::keys(path::joined(root, parts));
    assert forall|i: int| 0 <= i < path.steps.len() implies whole[i] == path::keys(path)[i] by {
        if i < n {
            assert(path::keys(path).take(n)[i] == path::keys(path)[i]);
        } else {
            let rest = path::below(path, root)->0;
            assert(rest.steps[i - n].part == path.steps[i].part);
            assert(parts[i - n] == path::plain(path.steps[i].part, path.bar));
        }
    }
    assert(whole =~= path::keys(path));
}

proof fn lemma_trail_resolves(node: NodeView, names: Seq<Seq<char>>)
    requires
        tree::is_folder_trail(node, names),
    ensures
        tree::at(node, names) == Some(tree::deepest(node, names)),
        names.len() > 0 ==> tree::deepest(node, names).is_dir,
    decreases names.len(),
{
    if names.len() > 0 {
        let i = tree::child(node, names[0])->0;
        lemma_trail_resolves(node.children[i], names.skip(1));
        if names.len() == 1 {
            assert(tree::deepest(node.children[i], names.skip(1)) == node.children[i]);
        }
    }
}

/// Zooming out of a folder that was zoomed into puts the focus on the folder around it.
pub proof fn zooming_out_undoes_zooming_in(m: MapView, path: PathView)
    requires
        view::can_zoom_into(m, path),
        is_text_below(m.root, path),
    ensures
        ({
            let after = view::zoomed_out(view::zoomed_into(m, path));
            &&& path::keys(view::focus(after)) == path::keys(path).drop_last()
            &&& path::parent(path) matches Some(around) ==> path::same(view::focus(after), around)
            &&& after.zoom == (view::parts_below(m.root, path)->0).drop_last()
            &&& after.tree == m.tree
        }),
{
    let parts = view::parts_below(m.root, path)->0;
    let inner = path::joined(m.root, parts.drop_last());
    lemma_focus_keys(m.root, path);
    assert(path::keys(path::joined(m.root, parts)).drop_last() =~= path::keys(inner));
    if let Some(around) = path::parent(path) {
        assert(path::keys(around) =~= path::keys(path).drop_last());
    }
}

/// Zooming out often enough always reaches the whole map, one level at a time.
pub proof fn zooming_out_ends(m: MapView)
    ensures
        m.zoom.len() > 0 ==> view::zoomed_out(m).zoom.len() == m.zoom.len() - 1,
        m.zoom.len() == 0 ==> view::zoomed_out(m) == m,
{
}

// ---------------------------------------------------------------- selection

/// The selection survives a layout: what was picked stays picked.
pub proof fn the_selection_survives_a_layout(m: MapView, laid: Seq<CellView>, clock: u64)
    ensures
        match m.pick {
            Some(pick) => {
                let after = view::relaid(m, laid, clock).pick;
                after is Some && path::same(after->0.path, pick.path)
            },
            None => view::relaid(m, laid, clock).pick is None,
        },
{
    if let Some(pick) = m.pick {
        lemma_cell_at(laid, pick.path, true, 0);
    }
}

proof fn lemma_cell_at(all: Seq<CellView>, path: PathView, on_disk: bool, i: int)
    requires
        0 <= i,
    ensures
        match cells::cell_at(all, path, on_disk, i) {
            Some(at) => {
                &&& i <= at < all.len()
                &&& path::same(all[at].path, path)
                &&& on_disk ==> !all[at].is_bundle()
            },
            None => true,
        },
    decreases all.len() - i,
{
    if i < all.len() {
        lemma_cell_at(all, path, on_disk, i + 1);
    }
}

/// Selecting a path selects that path, whether or not a cell stands for it.
pub proof fn selecting_selects(m: MapView, path: PathView)
    ensures
        view::selected(m, Some(path)).pick is Some,
        path::same(view::selected(m, Some(path)).pick->0.path, path),
        view::selected(m, None).pick is None,
{
    lemma_cell_at(m.cells, path, false, 0);
}

/// The bundle is never the target of an operation: a press on it tells the browser nothing,
/// zooms nowhere and leaves the tree alone.
pub proof fn the_bundle_is_never_a_target(
    m: MapView,
    i: usize,
    taps: u32,
    primary: bool,
    present: bool,
)
    requires
        i < m.cells.len(),
        m.cells[i as int].is_bundle(),
    ensures
        ({
            let (after, effects) = view::pressed(m, PressAt::Cell(i), taps, primary, present);
            &&& effects.action is Nothing
            &&& after.tree == m.tree
            &&& after.zoom == m.zoom
            &&& !effects.save
        }),
{
}

/// A press on something that is not on the disk any more takes it off the map, whether or not
/// a scan is running: it is not found there again, and it is not picked. Nothing else is
/// picked in its place, and the browser hears of it.
pub proof fn a_vanished_path_goes(m: MapView, i: usize, taps: u32, primary: bool)
    requires
        i < m.cells.len(),
        !m.cells[i as int].is_bundle(),
        tree_laws::distinct(m.tree),
        view::names_below(m.root, m.cells[i as int].path) is Some,
    ensures
        ({
            let path = m.cells[i as int].path;
            let (after, effects) = view::pressed(m, PressAt::Cell(i), taps, primary, false);
            &&& effects.action == cells::ActionView::Vanished(path)
            &&& after.pick == m.pick || after.pick is None
            &&& tree_laws::distinct(after.tree)
            &&& tree::at(after.tree, view::names_below(m.root, path)->0) is None
            &&& tree::at(m.tree, view::names_below(m.root, path)->0) is Some ==> {
                &&& effects.redraw
                &&& effects.save == !m.scanning
                &&& tree_laws::adds_up(m.tree) ==> is_less(
                    after.tree,
                    m.tree,
                    tree::at(m.tree, view::names_below(m.root, path)->0)->0,
                )
                &&& after.pick matches Some(pick) ==> !path::same(pick.path, path)
            }
        }),
{
    let path = m.cells[i as int].path;
    let names = view::names_below(m.root, path)->0;
    lemma_detached_or_absent(m.tree, names);
    if tree::detached(m.tree, names) is Some {
        tree_laws::a_detached_node_is_gone(m.tree, names);
        if tree_laws::adds_up(m.tree) {
            forgetting_is_arithmetic(m, path);
        }
    }
}

/// Whether `kept` is `whole` without `gone`: every folder is the sum of what it holds, and
/// the whole is less by exactly what is gone.
pub open spec fn is_less(kept: NodeView, whole: NodeView, gone: NodeView) -> bool {
    &&& tree_laws::adds_up(kept)
    &&& kept.size + gone.size == whole.size
    &&& kept.files + gone.files == whole.files
}

/// Dropping a path is exact: the whole loses what was there, every folder is still the sum of
/// what it holds, and a path that is not there takes nothing with it.
pub proof fn forgetting_is_arithmetic(m: MapView, path: PathView)
    requires
        tree_laws::adds_up(m.tree),
    ensures
        ({
            let (after, there) = view::dropped(m, path);
            if there {
                is_less(
                    after.tree,
                    m.tree,
                    tree::at(m.tree, view::names_below(m.root, path)->0)->0,
                )
            } else {
                after == m
            }
        }),
{
    if let Some(names) = view::names_below(m.root, path) {
        tree_laws::detaching_keeps_the_sums(m.tree, names);
    }
}

proof fn lemma_detached_or_absent(node: NodeView, names: Seq<Seq<char>>)
    requires
        names.len() > 0,
    ensures
        tree::detached(node, names) is None <==> tree::at(node, names) is None,
    decreases names.len(),
{
    if let Some(i) = tree::child(node, names[0]) {
        if names.len() > 1 {
            lemma_detached_or_absent(node.children[i], names.skip(1));
        } else {
            assert(tree::at(node.children[i], names.skip(1)) is Some);
        }
    }
}

// -------------------------------------------------------------------- names

/// No folder of a new map holds two things of one name, nor does one of a map whose scan has
/// just been asked for.
pub proof fn a_new_map_has_distinct_names(m: MapView, root: PathView, name: Seq<char>)
    ensures
        tree_laws::distinct(view::unmapped().tree),
        tree_laws::distinct(view::begun(m, root, name).tree),
{
}

/// A message of a scan keeps names distinct, where they are in the folder that it reports and
/// that folder's own is free beside what it takes the place of.
pub proof fn a_message_keeps_names_distinct(m: MapView, message: ScanMessage, now: u64)
    requires
        tree_laws::distinct(m.tree),
        message.step matches Some(ScanStep::Closed { at, node }) ==> {
            &&& tree_laws::distinct(node@)
            &&& tree_laws::free_beside(m.tree, path::names_view(at@), node@.name)
        },
    ensures
        tree_laws::distinct(view::told(m, message, now).tree),
{
    if let Some(ScanStep::Closed { at, node }) = message.step {
        tree_laws::replacing_keeps_names_distinct(m.tree, path::names_view(at@), node@);
    }
    tree_laws::sealing_keeps_names_distinct(view::stepped(m, message.step).tree);
}

/// A copy keeps names distinct, wherever its name is free at the place that it goes to.
pub proof fn a_copy_keeps_names_distinct(m: MapView, from: PathView, to: PathView)
    requires
        tree_laws::distinct(m.tree),
        match (view::receiver(m.root, to), path::last_name(to)) {
            (Some(into), Some(name)) => tree::at(m.tree, into.push(name)) is None,
            _ => true,
        },
    ensures
        tree_laws::distinct(view::copied(m, (from, to)).0.tree),
{
    if view::copied(m, (from, to)).1 {
        let names = view::names_below(m.root, from)->0;
        let name = path::last_name(to)->0;
        tree_laws::what_is_found_has_distinct_names(m.tree, names);
        let come = NodeView { name, ..tree::at(m.tree, names)->0 };
        assert(tree_laws::distinct(come));
        tree_laws::grafting_keeps_names_distinct(m.tree, view::receiver(m.root, to)->0, come);
    }
}

/// A move keeps names distinct, wherever its name is free at the place that it goes to.
pub proof fn a_move_keeps_names_distinct(m: MapView, mv: MoveView)
    requires
        tree_laws::distinct(m.tree),
        match (view::names_below(m.root, mv.0), mv.1) {
            (Some(names), Some(to)) => match (
                tree::detached(m.tree, names),
                view::receiver(m.root, to),
                path::last_name(to),
            ) {
                (Some((kept, _)), Some(into), Some(name)) => tree::at(kept, into.push(name)) is None,
                _ => true,
            },
            _ => true,
        },
    ensures
        tree_laws::distinct(view::moved(m, mv).0.tree),
{
    if let Some(names) = view::names_below(m.root, mv.0) {
        if let Some((kept, gone)) = tree::detached(m.tree, names) {
            tree_laws::a_detached_node_is_gone(m.tree, names);
            tree_laws::a_detached_node_is_distinct(m.tree, names);
            if let Some(to) = mv.1 {
                if let (Some(into), Some(name)) = (
                    view::receiver(m.root, to),
                    path::last_name(to),
                ) {
                    let come = NodeView { name, ..gone };
                    assert(tree_laws::distinct(come));
                    if tree::grafted(kept, into, come) is Some {
                        tree_laws::grafting_keeps_names_distinct(kept, into, come);
                    }
                }
            }
        }
    }
}

// -------------------------------------------------------------- corrections

/// Whether what was taken out lands on the map again.
pub open spec fn lands(m: MapView, node: NodeView, to: Option<PathView>) -> bool {
    match to {
        None => false,
        Some(to) => match path::last_name(to) {
            None => false,
            Some(name) => view::grafted_at(m, to, NodeView { name, ..node }).1,
        },
    }
}

/// The bytes that one move takes off the map.
pub open spec fn bytes_moved_off(m: MapView, mv: MoveView) -> nat {
    match view::names_below(m.root, mv.0) {
        None => 0,
        Some(names) => match tree::detached(m.tree, names) {
            None => 0,
            Some((kept, gone)) => {
                let without = MapView { tree: kept, pick: view::unpicked(m.pick, mv.0), ..m };
                if lands(without, gone, mv.1) {
                    0
                } else {
                    gone.size as nat
                }
            },
        },
    }
}

/// The bytes that these moves take off the map.
pub open spec fn bytes_gone(m: MapView, moves: Seq<MoveView>) -> nat
    decreases moves.len(),
{
    if moves.len() == 0 {
        0
    } else {
        bytes_gone(m, moves.drop_last()) + bytes_moved_off(
            view::all_moved(m, moves.drop_last()).0,
            moves.last(),
        )
    }
}

/// One move makes the map true by arithmetic: the whole loses exactly what left the map,
/// which is nothing where the thing landed on it again, and every folder is still the sum of
/// what it holds.
pub proof fn a_move_is_arithmetic(m: MapView, mv: MoveView)
    requires
        tree_laws::adds_up(m.tree),
    ensures
        ({
            let after = view::moved(m, mv).0;
            &&& tree_laws::adds_up(after.tree)
            &&& after.tree.size + bytes_moved_off(m, mv) == m.tree.size
        }),
{
    if let Some(names) = view::names_below(m.root, mv.0) {
        tree_laws::detaching_keeps_the_sums(m.tree, names);
        if let Some((kept, gone)) = tree::detached(m.tree, names) {
            let without = MapView { tree: kept, pick: view::unpicked(m.pick, mv.0), ..m };
            if let Some(to) = mv.1 {
                if let Some(name) = path::last_name(to) {
                    if let Some(into) = view::receiver(m.root, to) {
                        tree_laws::lemma_renamed_adds_up(gone, name);
                        tree_laws::grafting_keeps_the_sums(
                            kept,
                            into,
                            NodeView { name, ..gone },
                        );
                    }
                }
            }
        }
    }
}

/// The same of any number of moves and deletes, in order.
pub proof fn moves_are_arithmetic(m: MapView, moves: Seq<MoveView>)
    requires
        tree_laws::adds_up(m.tree),
    ensures
        ({
            let after = view::all_moved(m, moves).0;
            &&& tree_laws::adds_up(after.tree)
            &&& after.tree.size + bytes_gone(m, moves) == m.tree.size
        }),
    decreases moves.len(),
{
    if moves.len() > 0 {
        moves_are_arithmetic(m, moves.drop_last());
        a_move_is_arithmetic(view::all_moved(m, moves.drop_last()).0, moves.last());
    }
}

/// What was moved or deleted is not picked any more.
pub proof fn what_moved_is_not_picked(m: MapView, mv: MoveView)
    requires
        view::moved(m, mv).1,
    ensures
        view::moved(m, mv).0.pick == view::unpicked(m.pick, mv.0),
        view::moved(m, mv).0.pick matches Some(pick) ==> !path::same(pick.path, mv.0),
{
}

/// A copy adds a second rectangle of the same size, wherever the numbers can hold the sum:
/// the whole gains exactly what the source weighs, and every folder is still the sum of what
/// it holds.
pub proof fn a_copy_is_arithmetic(m: MapView, from: PathView, to: PathView)
    requires
        tree_laws::adds_up(m.tree),
        view::copied(m, (from, to)).1,
        ({
            let source = tree::at(m.tree, view::names_below(m.root, from)->0)->0;
            &&& m.tree.size + source.size <= u64::MAX
            &&& m.tree.files + source.files <= u32::MAX
        }),
    ensures
        ({
            let source = tree::at(m.tree, view::names_below(m.root, from)->0)->0;
            let after = view::copied(m, (from, to)).0;
            &&& tree_laws::adds_up(after.tree)
            &&& after.tree.size == m.tree.size + source.size
            &&& after.tree.files == m.tree.files + source.files
        }),
{
    let names = view::names_below(m.root, from)->0;
    let source = tree::at(m.tree, names)->0;
    let name = path::last_name(to)->0;
    lemma_found_adds_up(m.tree, names);
    tree_laws::lemma_renamed_adds_up(source, name);
    tree_laws::grafting_keeps_the_sums(
        m.tree,
        view::receiver(m.root, to)->0,
        NodeView { name, ..source },
    );
}

proof fn lemma_found_adds_up(node: NodeView, names: Seq<Seq<char>>)
    requires
        tree_laws::adds_up(node),
    ensures
        tree::at(node, names) matches Some(found) ==> tree_laws::adds_up(found),
    decreases names.len(),
{
    if names.len() > 0 {
        if let Some(i) = tree::child(node, names[0]) {
            lemma_child_in_range(node.children, names[0], 0);
            assert(tree_laws::adds_up(node.children[i]));
            lemma_found_adds_up(node.children[i], names.skip(1));
        }
    }
}

proof fn lemma_child_in_range(children: Seq<NodeView>, name: Seq<char>, i: int)
    requires
        0 <= i,
    ensures
        tree::child_from(children, name, i) matches Some(at) ==> i <= at < children.len(),
    decreases children.len() - i,
{
    if i < children.len() {
        lemma_child_in_range(children, name, i + 1);
    }
}

/// A copy's source stays where it is, as it was, unless the copy went into the source
/// itself; and the copy is found at its destination, if its name was free there.
pub proof fn a_copy_appears_and_its_source_stays(m: MapView, from: PathView, to: PathView)
    requires
        view::copied(m, (from, to)).1,
    ensures
        ({
            let source_names = view::names_below(m.root, from)->0;
            let source = tree::at(m.tree, source_names)->0;
            let into = view::receiver(m.root, to)->0;
            let name = path::last_name(to)->0;
            let after = view::copied(m, (from, to)).0;
            &&& !tree_laws::begins_with(into, source_names) ==> tree::at(after.tree, source_names)
                == Some(source)
            &&& tree::at(m.tree, into.push(name)) is None ==> tree::at(
                after.tree,
                into.push(name),
            ) == Some(NodeView { name, ..source })
        }),
{
    let source_names = view::names_below(m.root, from)->0;
    let source = tree::at(m.tree, source_names)->0;
    let into = view::receiver(m.root, to)->0;
    let name = path::last_name(to)->0;
    let come = NodeView { name, ..source };
    if !tree_laws::begins_with(into, source_names) {
        tree_laws::a_graft_leaves_the_rest(m.tree, into, come, source_names);
    }
    if tree::at(m.tree, into.push(name)) is None {
        tree_laws::a_graft_is_found(m.tree, into, come);
    }
}

/// A thing that moves within the map is found where it went, if its name was free there. The
/// place that it left is empty, where names are distinct and it did not come back to it.
pub proof fn a_moved_thing_is_found(m: MapView, from: PathView, to: PathView)
    requires
        view::names_below(m.root, from) is Some,
        tree::detached(m.tree, view::names_below(m.root, from)->0) is Some,
        ({
            let (kept, gone) = tree::detached(m.tree, view::names_below(m.root, from)->0)->0;
            let without = MapView { tree: kept, pick: view::unpicked(m.pick, from), ..m };
            &&& lands(without, gone, Some(to))
            &&& tree::at(kept, (view::receiver(m.root, to)->0).push(path::last_name(to)->0)) is None
        }),
    ensures
        ({
            let left = view::names_below(m.root, from)->0;
            let gone = (tree::detached(m.tree, left)->0).1;
            let name = path::last_name(to)->0;
            let there = (view::receiver(m.root, to)->0).push(name);
            let after = view::moved(m, (from, Some(to))).0;
            &&& tree::at(after.tree, there) == Some(NodeView { name, ..gone })
            &&& tree_laws::distinct(m.tree) && !tree_laws::begins_with(left, there) ==> tree::at(
                after.tree,
                left,
            ) is None
        }),
{
    let left = view::names_below(m.root, from)->0;
    let (kept, gone) = tree::detached(m.tree, left)->0;
    let name = path::last_name(to)->0;
    let into = view::receiver(m.root, to)->0;
    let come = NodeView { name, ..gone };
    tree_laws::a_graft_is_found(kept, into, come);
    if tree_laws::distinct(m.tree) && !tree_laws::begins_with(left, into.push(name)) {
        tree_laws::a_detached_node_is_gone(m.tree, left);
        tree_laws::a_graft_adds_nothing_else(kept, into, come, left);
    }
}

} // verus!
