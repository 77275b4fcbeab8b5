//! The map's state: what is mapped, how far in, what is picked, and what a scan or a
//! finished file operation makes of it.
//!
//! The view draws nothing and touches no disk. Each operation says in its [`Effects`] what
//! the app around it has to do: redraw, ask for another frame, start or cancel a scan, save
//! the map, pass an action on. Times are milliseconds of a clock that never runs backwards.

use vstd::prelude::*;
use vstd::string::*;
use crate::kind;
use crate::kind::FileKind;
use crate::cells;
use crate::cells::{Cell, CellView, Outcome, Pick, PickView, ScanMessage, TreemapAction};
use crate::path;
use crate::path::{FilePath, Part, PartView, PathView};
use crate::tree;
use crate::tree::{Node, NodeView, ScanStep};

verus! {

/// The map is laid out anew only this often while a scan is still feeding it: the tree
/// changes hundreds of times a second and the picture does not need to.
pub const RELAYOUT_EVERY: u64 = 110;
/// How many of the folders that the scan was refused are named.
pub const DENIED_SHOWN: usize = 4;

/// A scan to start.
pub struct ScanRequest {
    /// What its messages are to carry.
    pub generation: u64,
    pub root: FilePath,
    /// Measure the disk, whatever was saved.
    pub fresh: bool,
}

/// What an operation asks the app to do.
pub struct Effects {
    /// Draw the view again.
    pub redraw: bool,
    /// Come back on the next frame.
    pub next_frame: bool,
    /// Write the tree out for next time.
    pub save: bool,
    /// Drop what was saved of this folder.
    pub forget_saved: bool,
    /// Tell the running scan to stop.
    pub cancel: bool,
    /// Start this scan.
    pub scan: Option<ScanRequest>,
    /// Pass this on to the folder view.
    pub action: TreemapAction,
}

/// Where a press landed.
#[derive(Clone, Copy, Debug)]
pub enum PressAt {
    /// On the word that starts a scan.
    Rescan,
    /// On the breadcrumb this many names deep.
    Crumb(usize),
    /// On this cell.
    Cell(usize),
    /// On nothing.
    Nowhere,
}

/// What a drawing does about the layout.
#[derive(Clone, Copy, Debug, PartialEq, Eq, Structural)]
pub enum LayoutStep {
    /// Lay the map out first.
    Relayout,
    /// Draw the map as it is, and come back on the next frame.
    Wait,
    /// Draw the map as it is.
    Keep,
}

/// The map's state.
pub struct TreemapView {
    /// The folder the map is of.
    root: FilePath,
    /// How that folder is shown.
    root_name: String,
    /// The names between the mapped folder and the one the map is zoomed into.
    zoom: Vec<Part>,
    tree: Node,
    cells: Vec<Cell>,
    /// Whether `cells` are of this zoom and this folder at all.
    laid_out: bool,
    stale: bool,
    last_layout: Option<u64>,
    generation: u64,
    /// Whether a scan can still be told to stop.
    cancellable: bool,
    scanning: bool,
    /// Folders the walk has not opened yet.
    folders_left: u32,
    /// When the numbers were measured, in seconds since the epoch.
    scanned_at: u64,
    /// Folders the scan was refused.
    denied: Vec<String>,
    error: Option<String>,
    hover: Option<usize>,
    pick: Option<Pick>,
}

// -------------------------------------------------------------------- models

/// A [`TreemapView`] as a value.
pub struct MapView {
    pub root: PathView,
    pub root_name: Seq<char>,
    pub zoom: Seq<PartView>,
    pub tree: NodeView,
    pub cells: Seq<CellView>,
    pub laid_out: bool,
    pub stale: bool,
    pub last_layout: Option<u64>,
    pub generation: u64,
    pub cancellable: bool,
    pub scanning: bool,
    pub folders_left: u32,
    pub scanned_at: u64,
    pub denied: Seq<Seq<char>>,
    pub error: Option<Seq<char>>,
    pub hover: Option<usize>,
    pub pick: Option<PickView>,
}

/// A [`ScanRequest`] as a value.
pub struct RequestView {
    pub generation: u64,
    pub root: PathView,
    pub fresh: bool,
}

/// [`Effects`] as a value.
pub struct EffectsView {
    pub redraw: bool,
    pub next_frame: bool,
    pub save: bool,
    pub forget_saved: bool,
    pub cancel: bool,
    pub scan: Option<RequestView>,
    pub action: cells::ActionView,
}

pub open spec fn text_view(text: Option<String>) -> Option<Seq<char>> {
    match text {
        Some(text) => Some(text@),
        None => None,
    }
}

pub open spec fn path_view(path: Option<FilePath>) -> Option<PathView> {
    match path {
        Some(path) => Some(path@),
        None => None,
    }
}

impl View for TreemapView {
    type V = MapView;

    closed spec fn view(&self) -> MapView {
        MapView {
            root: self.root@,
            root_name: self.root_name@,
            zoom: path::parts_view(self.zoom@),
            tree: self.tree@,
            cells: cells::cells_view(self.cells@),
            laid_out: self.laid_out,
            stale: self.stale,
            last_layout: self.last_layout,
            generation: self.generation,
            cancellable: self.cancellable,
            scanning: self.scanning,
            folders_left: self.folders_left,
            scanned_at: self.scanned_at,
            denied: path::names_view(self.denied@),
            error: text_view(self.error),
            hover: self.hover,
            pick: cells::pick_view(self.pick),
        }
    }
}

impl View for ScanRequest {
    type V = RequestView;

    open spec fn view(&self) -> RequestView {
        RequestView { generation: self.generation, root: self.root@, fresh: self.fresh }
    }
}

impl View for Effects {
    type V = EffectsView;

    open spec fn view(&self) -> EffectsView {
        EffectsView {
            redraw: self.redraw,
            next_frame: self.next_frame,
            save: self.save,
            forget_saved: self.forget_saved,
            cancel: self.cancel,
            scan: match self.scan {
                Some(request) => Some(request@),
                None => None,
            },
            action: self.action@,
        }
    }
}

/// A move of a file: where it was and where it went, or that it stopped existing.
pub type MoveView = (PathView, Option<PathView>);

pub open spec fn moves_view(moves: Seq<(FilePath, Option<FilePath>)>) -> Seq<MoveView> {
    Seq::new(moves.len(), |i: int| (moves[i].0@, path_view(moves[i].1)))
}

pub open spec fn copies_view(copies: Seq<(FilePath, FilePath)>) -> Seq<(PathView, PathView)> {
    Seq::new(copies.len(), |i: int| (copies[i].0@, copies[i].1@))
}

// ------------------------------------------------------------------ behaviour

/// Nothing to do.
pub open spec fn nothing() -> EffectsView {
    EffectsView {
        redraw: false,
        next_frame: false,
        save: false,
        forget_saved: false,
        cancel: false,
        scan: None,
        action: cells::ActionView::Nothing,
    }
}

/// Draw again, and nothing else.
pub open spec fn redrawn() -> EffectsView {
    EffectsView { redraw: true, ..nothing() }
}

/// The parts from the mapped folder down to `path`. `None` where it is not below it.
pub open spec fn parts_below(root: PathView, path: PathView) -> Option<Seq<PartView>> {
    match path::below(path, root) {
        Some(rest) => if rest.steps.len() > 0 {
            Some(path::plain_parts(rest))
        } else {
            None
        },
        None => None,
    }
}

/// The chain of names from the mapped folder down to `path`. `None` where it is not below it.
pub open spec fn names_below(root: PathView, path: PathView) -> Option<Seq<Seq<char>>> {
    match parts_below(root, path) {
        Some(parts) => Some(path::part_texts(parts)),
        None => None,
    }
}

/// The names between the mapped folder and the one the map is zoomed into.
pub open spec fn zoom_names(m: MapView) -> Seq<Seq<char>> {
    path::part_texts(m.zoom)
}

/// The folder the map is zoomed into.
pub open spec fn focus(m: MapView) -> PathView {
    path::joined(m.root, m.zoom)
}

/// The node the map is drawing.
pub open spec fn focused_node(m: MapView) -> NodeView {
    tree::deepest(m.tree, zoom_names(m))
}

/// The folder that receives what goes to `full`, as names below the mapped folder.
pub open spec fn receiver(root: PathView, full: PathView) -> Option<Seq<Seq<char>>> {
    match path::parent(full) {
        Some(parent) => if path::same(parent, root) {
            Some(Seq::<Seq<char>>::empty())
        } else {
            names_below(root, parent)
        },
        None => None,
    }
}

/// Whether the picture may be rebuilt at `now`. Nothing is throttled once no scan is running.
pub open spec fn due(m: MapView, now: u64) -> bool {
    m.scanning ==> match m.last_layout {
        Some(at) => now >= at + RELAYOUT_EVERY,
        None => true,
    }
}

/// A folder of which nothing is known yet.
pub open spec fn unread(name: Seq<char>) -> NodeView {
    NodeView {
        name,
        size: 0,
        files: 0,
        kind: kind::tag_of(FileKind::Folder),
        is_dir: true,
        pending: true,
        denied: false,
        children: seq![],
    }
}

/// A map of nothing yet.
pub open spec fn unmapped() -> MapView {
    MapView {
        root: path::nowhere(),
        root_name: seq![],
        zoom: seq![],
        tree: unread(seq![]),
        cells: seq![],
        laid_out: false,
        stale: false,
        last_layout: None,
        generation: 0,
        cancellable: false,
        scanning: false,
        folders_left: 0,
        scanned_at: 0,
        denied: seq![],
        error: None,
        hover: None,
        pick: None,
    }
}

/// A scan of `root` has been asked for: everything that was of the old one is dropped.
pub open spec fn begun(m: MapView, root: PathView, name: Seq<char>) -> MapView {
    MapView {
        root,
        root_name: name,
        zoom: seq![],
        tree: unread(name),
        cells: seq![],
        laid_out: false,
        stale: true,
        last_layout: None,
        hover: None,
        pick: None,
        error: None,
        folders_left: 0,
        scanned_at: 0,
        scanning: true,
        cancellable: true,
        generation: if m.generation == u64::MAX { 0 } else { (m.generation + 1) as u64 },
        denied: m.denied,
    }
}

/// What a scan that is asked for brings about.
pub open spec fn begin_effects(m: MapView, root: PathView, fresh: bool) -> EffectsView {
    EffectsView {
        redraw: true,
        cancel: m.cancellable,
        scan: Some(
            RequestView {
                generation: if m.generation == u64::MAX { 0 } else { (m.generation + 1) as u64 },
                root,
                fresh,
            },
        ),
        ..nothing()
    }
}

/// Whether `path` is on screen already, measured and without an error.
pub open spec fn already_shows(m: MapView, path: PathView) -> bool {
    path::same(path, m.root) && m.tree.children.len() > 0 && m.error is None
}

/// The map after a change of zoom.
pub open spec fn rezoomed(m: MapView, zoom: Seq<PartView>) -> MapView {
    MapView { zoom, hover: None, stale: true, last_layout: None, laid_out: false, ..m }
}

/// Whether `path` is a folder below the mapped one that the scan knows about.
pub open spec fn can_zoom_into(m: MapView, path: PathView) -> bool {
    match names_below(m.root, path) {
        Some(names) => tree::is_folder_trail(m.tree, names),
        None => false,
    }
}

/// The map zoomed into `path`, where it can be.
pub open spec fn zoomed_into(m: MapView, path: PathView) -> MapView {
    if can_zoom_into(m, path) {
        rezoomed(m, parts_below(m.root, path)->0)
    } else {
        m
    }
}

/// The map zoomed out to `depth` names.
pub open spec fn zoomed_to(m: MapView, depth: int) -> MapView {
    if depth < m.zoom.len() {
        rezoomed(m, m.zoom.take(depth))
    } else {
        m
    }
}

/// The map zoomed out one level, where there is one.
pub open spec fn zoomed_out(m: MapView) -> MapView {
    if m.zoom.len() > 0 {
        rezoomed(m, m.zoom.drop_last())
    } else {
        m
    }
}

/// The map after its tree was corrected.
pub open spec fn corrected(m: MapView) -> MapView {
    MapView { hover: None, stale: true, last_layout: None, ..m }
}

/// What a corrected tree brings about.
pub open spec fn correction_effects() -> EffectsView {
    EffectsView { save: true, redraw: true, ..nothing() }
}

/// The pick, unless it is of `path`.
pub open spec fn unpicked(pick: Option<PickView>, path: PathView) -> Option<PickView> {
    match pick {
        Some(p) => if path::same(p.path, path) {
            None
        } else {
            Some(p)
        },
        None => None,
    }
}

/// The map with `node` put where `full` says, and whether it could be.
pub open spec fn grafted_at(m: MapView, full: PathView, node: NodeView) -> (MapView, bool) {
    match receiver(m.root, full) {
        None => (m, false),
        Some(names) => match tree::grafted(m.tree, names, node) {
            None => (m, false),
            Some(grown) => (MapView { tree: grown, ..m }, true),
        },
    }
}

/// The map with `node` landed at `to` under the name that it has there.
pub open spec fn landed(m: MapView, node: NodeView, to: Option<PathView>) -> MapView {
    match to {
        None => m,
        Some(to) => match path::last_name(to) {
            None => m,
            Some(name) => grafted_at(m, to, NodeView { name, ..node }).0,
        },
    }
}

/// The map after one move, and whether it changed.
pub open spec fn moved(m: MapView, mv: MoveView) -> (MapView, bool) {
    match names_below(m.root, mv.0) {
        None => (m, false),
        Some(names) => match tree::detached(m.tree, names) {
            None => (m, false),
            Some((kept, gone)) => (
                landed(MapView { tree: kept, pick: unpicked(m.pick, mv.0), ..m }, gone, mv.1),
                true,
            ),
        },
    }
}

/// The map after these moves, in order, and whether any changed it.
pub open spec fn all_moved(m: MapView, moves: Seq<MoveView>) -> (MapView, bool)
    decreases moves.len(),
{
    if moves.len() == 0 {
        (m, false)
    } else {
        let (before, changed) = all_moved(m, moves.drop_last());
        let (after, more) = moved(before, moves.last());
        (after, changed || more)
    }
}

/// The map after one copy, and whether it changed.
pub open spec fn copied(m: MapView, copy: (PathView, PathView)) -> (MapView, bool) {
    match (names_below(m.root, copy.0), names_below(m.root, copy.1), path::last_name(copy.1)) {
        (Some(names), Some(_), Some(name)) => match tree::at(m.tree, names) {
            None => (m, false),
            Some(source) => grafted_at(m, copy.1, NodeView { name, ..source }),
        },
        _ => (m, false),
    }
}

/// The map after these copies, in order, and whether any changed it.
pub open spec fn all_copied(m: MapView, copies: Seq<(PathView, PathView)>) -> (MapView, bool)
    decreases copies.len(),
{
    if copies.len() == 0 {
        (m, false)
    } else {
        let (before, changed) = all_copied(m, copies.drop_last());
        let (after, more) = copied(before, copies.last());
        (after, changed || more)
    }
}

/// Whether finished operations are folded in. A running scan owns the tree and will produce
/// the truth on its own, and an empty map has nothing to correct.
pub open spec fn takes_corrections(m: MapView) -> bool {
    !m.scanning && m.tree.children.len() > 0
}

/// The map without `path`, and whether it was there.
pub open spec fn dropped(m: MapView, path: PathView) -> (MapView, bool) {
    match names_below(m.root, path) {
        None => (m, false),
        Some(names) => match tree::detached(m.tree, names) {
            None => (m, false),
            Some((kept, _)) => (
                corrected(MapView { tree: kept, pick: unpicked(m.pick, path), ..m }),
                true,
            ),
        },
    }
}

/// What dropping a path brings about, where it was there. A tree that a scan is still
/// measuring is not worth saving.
pub open spec fn drop_effects(m: MapView, there: bool) -> EffectsView {
    EffectsView { redraw: there, save: there && !m.scanning, ..nothing() }
}

/// The map after the step of a message.
pub open spec fn stepped(m: MapView, step: Option<ScanStep>) -> MapView {
    match step {
        None => m,
        Some(step) => match step {
            ScanStep::Pace { folders_left } => MapView { folders_left, ..m },
            ScanStep::Closed { .. } => MapView {
                tree: tree::stepped(m.tree, step),
                stale: true,
                ..m
            },
        },
    }
}

/// The map after a scan ended. `now` is the time, in seconds since the epoch.
pub open spec fn ended(m: MapView, outcome: Outcome, now: u64) -> MapView {
    let whole = tree::sealed(m.tree);
    let quiet = MapView {
        scanning: false,
        cancellable: false,
        stale: true,
        folders_left: 0,
        tree: whole,
        denied: tree::at_most(tree::refused(whole, whole.name), DENIED_SHOWN as nat),
        ..m
    };
    match outcome {
        Outcome::Scanned => MapView { scanned_at: now, ..quiet },
        Outcome::Loaded { scanned_at } => MapView { scanned_at, ..quiet },
        Outcome::Failed => if whole.children.len() == 0 {
            MapView { error: Some("Could not map "@ + m.root_name), ..quiet }
        } else {
            quiet
        },
    }
}

/// Whether a message ends its scan. One that only says how many folders are left does not,
/// whatever else it carries.
pub open spec fn ends(message: ScanMessage) -> bool {
    message.finished is Some && !(message.step matches Some(ScanStep::Pace { .. }))
}

/// The map after a message. One of another generation changes nothing.
pub open spec fn told(m: MapView, message: ScanMessage, now: u64) -> MapView {
    if message.generation != m.generation {
        m
    } else if ends(message) {
        ended(stepped(m, message.step), message.finished->0, now)
    } else {
        stepped(m, message.step)
    }
}

/// The map after these messages, in order.
pub open spec fn all_told(m: MapView, messages: Seq<ScanMessage>, now: u64) -> MapView
    decreases messages.len(),
{
    if messages.len() == 0 {
        m
    } else {
        told(all_told(m, messages.drop_last(), now), messages.last(), now)
    }
}

/// Whether one of these messages ended the scan of this generation.
pub open spec fn finishes(messages: Seq<ScanMessage>, generation: u64) -> bool {
    exists|i: int|
        0 <= i < messages.len() && (#[trigger] messages[i]).generation == generation && ends(
            messages[i],
        )
}

/// Whether one of these messages ended a walk of the disk.
pub open spec fn measured(messages: Seq<ScanMessage>, generation: u64) -> bool {
    exists|i: int|
        0 <= i < messages.len() && (#[trigger] messages[i]).generation == generation && ends(
            messages[i],
        ) && messages[i].finished->0 is Scanned
}

/// What taking these messages brings about. A finished scan redraws at once; an update that
/// the throttle holds back is picked up on the next frame.
pub open spec fn drain_effects(m: MapView, messages: Seq<ScanMessage>, now: u64, clock: u64) -> EffectsView {
    let after = all_told(m, messages, now);
    let at_once = finishes(messages, m.generation) || due(after, clock);
    if messages.len() == 0 {
        nothing()
    } else {
        EffectsView {
            redraw: at_once,
            next_frame: !at_once,
            save: measured(messages, m.generation),
            ..nothing()
        }
    }
}

/// The pick for a path of which nothing else is known.
pub open spec fn bare_pick(path: PathView) -> PickView {
    PickView { path, size: 0, files: 0, is_dir: false, bundle: 0 }
}

/// The pick for a path: of the cell that stands for it, where there is one.
pub open spec fn pick_for(m: MapView, path: PathView) -> PickView {
    match cells::cell_at(m.cells, path, false, 0) {
        Some(i) => cells::picked(m.cells[i]),
        None => bare_pick(path),
    }
}

/// Whether `path` is what is picked already.
pub open spec fn is_selected(m: MapView, path: Option<PathView>) -> bool {
    match (m.pick, path) {
        (Some(pick), Some(path)) => path::same(pick.path, path),
        (None, None) => true,
        _ => false,
    }
}

/// The map with `path` picked.
pub open spec fn selected(m: MapView, path: Option<PathView>) -> MapView {
    if is_selected(m, path) {
        m
    } else {
        MapView {
            pick: match path {
                Some(path) => Some(pick_for(m, path)),
                None => None,
            },
            ..m
        }
    }
}

/// The pick, with the numbers of the cell that now stands for it.
pub open spec fn refreshed(pick: Option<PickView>, cells: Seq<CellView>) -> Option<PickView> {
    match pick {
        None => None,
        Some(pick) => match cells::cell_at(cells, pick.path, true, 0) {
            Some(i) => Some(cells::picked(cells[i])),
            None => Some(pick),
        },
    }
}

/// The map laid out as `cells`.
pub open spec fn relaid(m: MapView, cells: Seq<CellView>, clock: u64) -> MapView {
    MapView {
        cells,
        laid_out: true,
        stale: false,
        last_layout: Some(clock),
        hover: None,
        pick: refreshed(m.pick, cells),
        ..m
    }
}

/// The path of the cell under a point. Never the bundle's, which is not a thing on disk.
pub open spec fn path_under(m: MapView, hit: Option<usize>) -> Option<PathView> {
    match hit {
        Some(i) => if i < m.cells.len() && !m.cells[i as int].is_bundle() {
            Some(m.cells[i as int].path)
        } else {
            None
        },
        None => None,
    }
}

/// A press on the cell `i`, where `present` is whether its path is still on the disk.
pub open spec fn cell_pressed(m: MapView, i: int, taps: u32, primary: bool, present: bool) -> (
    MapView,
    EffectsView,
) {
    let cell = m.cells[i];
    let now_picked = MapView { pick: Some(cells::picked(cell)), ..m };
    if !cell.is_bundle() && !present {
        // The map was out of date: the path goes, and the browser hears of it.
        let (after, there) = dropped(m, cell.path);
        (
            after,
            EffectsView {
                action: cells::ActionView::Vanished(cell.path),
                ..drop_effects(m, there)
            },
        )
    } else if cell.is_bundle() {
        (now_picked, redrawn())
    } else if primary && taps >= 2 && cell.is_dir && can_zoom_into(now_picked, cell.path) {
        (zoomed_into(now_picked, cell.path), redrawn())
    } else if primary && taps >= 2 && !cell.is_dir {
        (now_picked, EffectsView { action: cells::ActionView::Reveal(cell.path), ..redrawn() })
    } else {
        (now_picked, EffectsView { action: cells::ActionView::Selected(cell.path), ..redrawn() })
    }
}

/// Measuring the disk again: the saved map goes, and a fresh scan starts. Nothing, where
/// nothing is mapped.
pub open spec fn rescanned(m: MapView) -> (MapView, EffectsView) {
    if m.root.steps.len() == 0 {
        (m, nothing())
    } else {
        (
            begun(m, m.root, m.root_name),
            EffectsView { forget_saved: true, ..begin_effects(m, m.root, true) },
        )
    }
}

/// A press on the map. Only a primary press acts on the strip above it.
pub open spec fn pressed(m: MapView, at: PressAt, taps: u32, primary: bool, present: bool) -> (
    MapView,
    EffectsView,
) {
    match at {
        PressAt::Rescan => if primary {
            rescanned(m)
        } else {
            (m, nothing())
        },
        PressAt::Crumb(depth) => if primary && depth < m.zoom.len() {
            (zoomed_to(m, depth as int), redrawn())
        } else {
            (m, nothing())
        },
        PressAt::Cell(i) => if i < m.cells.len() {
            cell_pressed(m, i as int, taps, primary, present)
        } else {
            (m, nothing())
        },
        PressAt::Nowhere => (m, nothing()),
    }
}

/// Where a press landed, of all that is under it: the strip is in front of the map.
pub open spec fn landing(rescan: bool, crumb: Option<usize>, hit: Option<usize>) -> PressAt {
    if rescan {
        PressAt::Rescan
    } else {
        match (crumb, hit) {
            (Some(depth), _) => PressAt::Crumb(depth),
            (None, Some(i)) => PressAt::Cell(i),
            (None, None) => PressAt::Nowhere,
        }
    }
}

/// What a drawing does about the layout, where `same_place` is whether the map was laid out
/// for the place it is drawn in.
pub open spec fn layout_step_of(m: MapView, same_place: bool, clock: u64) -> LayoutStep {
    if !m.laid_out || !same_place || (m.stale && due(m, clock)) {
        LayoutStep::Relayout
    } else if m.stale {
        LayoutStep::Wait
    } else {
        LayoutStep::Keep
    }
}

// ------------------------------------------------------------------- the view

impl Effects {
    /// Nothing to do.
    pub fn none() -> (r: Effects)
        ensures
            r@ == nothing(),
    {
        Effects {
            redraw: false,
            next_frame: false,
            save: false,
            forget_saved: false,
            cancel: false,
            scan: None,
            action: TreemapAction::Nothing,
        }
    }

    fn redraw() -> (r: Effects)
        ensures
            r@ == redrawn(),
    {
        let mut r = Effects::none();
        r.redraw = true;
        r
    }
}

impl TreemapView {
    /// A map of nothing yet.
    pub fn new() -> (r: TreemapView)
        ensures
            r@ == unmapped(),
    {
        let r = TreemapView {
            root: FilePath::new(),
            root_name: String::new(),
            zoom: Vec::new(),
            tree: Node::dir(String::new(), kind::kind_tag(FileKind::Folder)),
            cells: Vec::new(),
            laid_out: false,
            stale: false,
            last_layout: None,
            generation: 0,
            cancellable: false,
            scanning: false,
            folders_left: 0,
            scanned_at: 0,
            denied: Vec::new(),
            error: None,
            hover: None,
            pick: None,
        };
        proof {
            assert(r@.root_name =~= seq![]);
            assert(r@.tree.name =~= seq![]);
            assert(r@.zoom =~= seq![]);
            assert(r@.cells =~= seq![]);
            assert(r@.denied =~= seq![]);
        }
        r
    }

    /// The folder the map is currently of.
    pub fn root(&self) -> (r: &FilePath)
        ensures
            r@ == self@.root,
    {
        &self.root
    }

    /// How that folder is shown.
    pub fn root_name(&self) -> (r: &String)
        ensures
            r@ == self@.root_name,
    {
        &self.root_name
    }

    /// The names between the mapped folder and the one the map is zoomed into. Empty means
    /// the whole scan is on screen.
    pub fn zoom(&self) -> (r: Vec<String>)
        ensures
            path::names_view(r@) == zoom_names(self@),
    {
        path::texts_of(&self.zoom)
    }

    /// Everything the scan found.
    pub fn tree(&self) -> (r: &Node)
        ensures
            r@ == self@.tree,
    {
        &self.tree
    }

    /// The rectangles of the picture.
    pub fn cells(&self) -> (r: &Vec<Cell>)
        ensures
            cells::cells_view(r@) == self@.cells,
    {
        &self.cells
    }

    /// Whether a scan is running.
    pub fn scanning(&self) -> (r: bool)
        ensures
            r == self@.scanning,
    {
        self.scanning
    }

    /// Folders the walk has not opened yet.
    pub fn folders_left(&self) -> (r: u32)
        ensures
            r == self@.folders_left,
    {
        self.folders_left
    }

    /// When the numbers were measured, in seconds since the epoch.
    pub fn scanned_at(&self) -> (r: u64)
        ensures
            r == self@.scanned_at,
    {
        self.scanned_at
    }

    /// Folders the scan was refused.
    pub fn denied(&self) -> (r: &Vec<String>)
        ensures
            path::names_view(r@) == self@.denied,
    {
        &self.denied
    }

    /// What went wrong, if anything did.
    pub fn error(&self) -> (r: &Option<String>)
        ensures
            text_view(*r) == self@.error,
    {
        &self.error
    }

    /// The cell under the pointer.
    pub fn hover(&self) -> (r: Option<usize>)
        ensures
            r == self@.hover,
    {
        self.hover
    }

    /// What the last click landed on.
    pub fn pick(&self) -> (r: &Option<Pick>)
        ensures
            cells::pick_view(*r) == self@.pick,
    {
        &self.pick
    }

    /// The folder the map is zoomed into: the root itself when it is not.
    pub fn focus_path(&self) -> (r: FilePath)
        ensures
            r@ == focus(self@),
    {
        let mut r = self.root.copy();
        let mut i: usize = 0;
        while i < self.zoom.len()
            invariant
                i <= self.zoom@.len(),
                r@ == path::joined(self.root@, self@.zoom.take(i as int)),
            decreases self.zoom@.len() - i,
        {
            r.push(self.zoom[i].copy());
            i += 1;
            assert(self@.zoom.take(i as int).drop_last() =~= self@.zoom.take(i - 1));
            assert(self@.zoom.take(i as int).last() == self.zoom@[i - 1]@);
        }
        assert(self@.zoom.take(self@.zoom.len() as int) =~= self@.zoom);
        r
    }

    /// The node the map is drawing, following the zoom as far as it still resolves.
    pub fn focused(&self) -> (r: &Node)
        ensures
            r@ == focused_node(self@),
    {
        self.tree.deepest(&path::texts_of(&self.zoom))
    }

    // ------------------------------------------------------------- scanning

    /// Map `path`, shown as `name`, from the saved map when there is one. A scan already
    /// running for another folder is cancelled first.
    ///
    /// Asking for the folder already on screen is not a request to measure it again: the map
    /// that was just corrected by arithmetic must survive the browser listing its folder
    /// anew.
    pub fn set_root(&mut self, path: &FilePath, name: String) -> (r: Effects)
        ensures
            already_shows(old(self)@, path@) ==> {
                &&& final(self)@ == old(self)@
                &&& r@ == nothing()
            },
            !already_shows(old(self)@, path@) ==> {
                &&& final(self)@ == begun(old(self)@, path@, name@)
                &&& r@ == begin_effects(old(self)@, path@, false)
            },
    {
        let measured = self.tree.children.len() != 0;
        let flawless = match &self.error {
            Some(_) => false,
            None => true,
        };
        if path.same(&self.root) && measured && flawless {
            return Effects::none();
        }
        let path = path.copy();
        self.begin(path, name, false)
    }

    /// Measure the disk again and replace the saved map, whatever its age.
    pub fn rescan(&mut self) -> (r: Effects)
        ensures
            final(self)@ == rescanned(old(self)@).0,
            r@ == rescanned(old(self)@).1,
    {
        if self.root.is_empty() {
            return Effects::none();
        }
        let root = self.root.copy();
        let name = self.root_name.clone();
        let mut r = self.begin(root, name, true);
        r.forget_saved = true;
        r
    }

    fn begin(&mut self, root: FilePath, name: String, fresh: bool) -> (r: Effects)
        ensures
            final(self)@ == begun(old(self)@, root@, name@),
            r@ == begin_effects(old(self)@, root@, fresh),
    {
        let mut r = self.stop();
        r.redraw = true;
        self.root = root.copy();
        self.root_name = name.clone();
        self.zoom = Vec::new();
        self.tree = Node::dir(name, kind::kind_tag(FileKind::Folder));
        self.cells = Vec::new();
        self.laid_out = false;
        self.stale = true;
        self.last_layout = None;
        self.hover = None;
        self.pick = None;
        self.error = None;
        self.folders_left = 0;
        self.scanned_at = 0;
        self.scanning = true;
        self.cancellable = true;
        self.generation = if self.generation == u64::MAX { 0 } else { self.generation + 1 };
        r.scan = Some(ScanRequest { generation: self.generation, root, fresh });
        proof {
            assert(self@.zoom =~= seq![]);
            assert(self@.cells =~= seq![]);
        }
        r
    }

    /// Stop whatever scan is running. Called when the view is left, when the folder changes,
    /// and when the window goes away.
    pub fn stop(&mut self) -> (r: Effects)
        ensures
            final(self)@ == (MapView { cancellable: false, scanning: false, ..old(self)@ }),
            r@ == (EffectsView {
                cancel: old(self)@.cancellable,
                redraw: old(self)@.scanning,
                ..nothing()
            }),
    {
        let mut r = Effects::none();
        if self.cancellable {
            self.cancellable = false;
            r.cancel = true;
        }
        if self.scanning {
            self.scanning = false;
            r.redraw = true;
        }
        r
    }

    /// Take everything the worker sent. True when there was anything. `now` is the time in
    /// seconds since the epoch, `clock` the view's own.
    pub fn drain(&mut self, messages: Vec<ScanMessage>, now: u64, clock: u64) -> (r: (
        bool,
        Effects,
    ))
        ensures
            final(self)@ == all_told(old(self)@, messages@, now),
            r.0 == (messages@.len() > 0),
            r.1@ == drain_effects(old(self)@, messages@, now, clock),
    {
        let ghost all = messages@;
        let ghost start = self@;
        let generation: u64 = self.generation;
        let n = messages.len();
        let mut rest: Vec<ScanMessage> = messages;
        let mut queue: Vec<ScanMessage> = Vec::new();
        // Turned over, so that each message is taken from the end.
        while rest.len() > 0
            invariant
                all.len() == n,
                rest@.len() + queue@.len() == n,
                rest@ == all.take(rest@.len() as int),
                forall|i: int| 0 <= i < queue@.len() ==> #[trigger] queue@[i] == all[n - 1 - i],
            decreases rest@.len(),
        {
            match rest.pop() {
                Some(message) => {
                    queue.push(message);
                },
                None => {},
            }
            assert(rest@ =~= all.take(rest@.len() as int));
        }
        let mut finished = false;
        let mut save = false;
        let ghost mut taken: int = 0;
        assert(all.take(0) =~= Seq::<ScanMessage>::empty());
        while queue.len() > 0
            invariant
                all.len() == n,
                0 <= taken,
                taken + queue@.len() == n,
                forall|i: int|
                    0 <= i < queue@.len() ==> #[trigger] queue@[i] == all[taken + queue@.len() - 1
                        - i],
                self@ == all_told(start, all.take(taken), now),
                self@.generation == generation,
                start.generation == generation,
                finished == finishes(all.take(taken), generation),
                save == measured(all.take(taken), generation),
            decreases queue@.len(),
        {
            let ghost before = all.take(taken);
            if let Some(message) = queue.pop() {
                assert(message == all[taken]);
                let ghost so_far = all.take(taken + 1);
                assert(so_far.drop_last() =~= before);
                assert(so_far.last() == message);
                proof {
                    lemma_one_more(before, message, generation);
                    assert(before.push(message) =~= so_far);
                }
                let (done, fresh) = self.take_message(message, now);
                finished = finished || done;
                save = save || fresh;
                proof {
                    taken = taken + 1;
                }
            }
        }
        assert(all.take(n as int) =~= all);
        let mut r = Effects::none();
        if n == 0 {
            return (false, r);
        }
        if finished || self.layout_is_due(clock) {
            r.redraw = true;
        } else {
            r.next_frame = true;
        }
        r.save = save;
        (true, r)
    }

    /// Take one message: whether it ended the scan, and whether the disk was walked.
    fn take_message(&mut self, message: ScanMessage, now: u64) -> (r: (bool, bool))
        ensures
            final(self)@ == told(old(self)@, message, now),
            final(self)@.generation == old(self)@.generation,
            r.0 == (message.generation == old(self)@.generation && ends(message)),
            r.1 == (r.0 && message.finished->0 is Scanned),
    {
        if message.generation != self.generation {
            return (false, false);
        }
        match message.step {
            None => {},
            Some(step) => match step {
                ScanStep::Pace { folders_left } => {
                    self.folders_left = folders_left;
                    return (false, false);
                },
                ScanStep::Closed { at, node } => {
                    self.tree.apply(ScanStep::Closed { at, node });
                    self.stale = true;
                },
            },
        }
        match message.finished {
            None => (false, false),
            Some(outcome) => {
                self.scanning = false;
                self.cancellable = false;
                self.stale = true;
                self.folders_left = 0;
                self.tree.seal();
                self.denied = self.tree.denied_paths(DENIED_SHOWN);
                match outcome {
                    Outcome::Scanned => {
                        self.scanned_at = now;
                        (true, true)
                    },
                    Outcome::Loaded { scanned_at } => {
                        self.scanned_at = scanned_at;
                        (true, false)
                    },
                    Outcome::Failed => {
                        if self.tree.children.len() == 0 {
                            let mut text: String = "Could not map ".to_owned();
                            text.append(self.root_name.as_str());
                            self.error = Some(text);
                        }
                        (true, false)
                    },
                }
            },
        }
    }

    /// Whether the picture may be rebuilt now. The throttle exists only to keep a running
    /// scan from laying the map out hundreds of times a second.
    pub fn layout_is_due(&self, clock: u64) -> (r: bool)
        ensures
            r == due(self@, clock),
    {
        if !self.scanning {
            return true;
        }
        match self.last_layout {
            Some(at) => clock >= at && clock - at >= RELAYOUT_EVERY,
            None => true,
        }
    }

    // ------------------------------------------------- selection and zooming

    /// Which path is highlighted on the map. The numbers come from the cell when there is
    /// one, so a reveal from the list view reads the same as a click on the map.
    pub fn set_selected(&mut self, path: Option<FilePath>) -> (r: Effects)
        ensures
            final(self)@ == selected(old(self)@, path_view(path)),
            r@ == (if is_selected(old(self)@, path_view(path)) {
                nothing()
            } else {
                redrawn()
            }),
    {
        let same = match (&self.pick, &path) {
            (Some(pick), Some(path)) => pick.path.same(path),
            (None, None) => true,
            _ => false,
        };
        if same {
            return Effects::none();
        }
        self.pick = match path {
            None => None,
            Some(path) => match cells::find_cell(&self.cells, &path, false) {
                Some(i) => Some(cells::pick_of(&self.cells[i])),
                None => Some(Pick { path, size: 0, files: 0, is_dir: false, bundle: 0 }),
            },
        };
        Effects::redraw()
    }

    /// The path the last click landed on.
    pub fn selection(&self) -> (r: Option<FilePath>)
        ensures
            path_view(r) == (match self@.pick {
                Some(pick) => Some(pick.path),
                None => None,
            }),
    {
        match &self.pick {
            Some(pick) => Some(pick.path.copy()),
            None => None,
        }
    }

    /// Zoom out one level. False when the map is already at the top.
    pub fn zoom_out(&mut self) -> (r: (bool, Effects))
        ensures
            final(self)@ == zoomed_out(old(self)@),
            r.0 == (old(self)@.zoom.len() > 0),
            r.1@ == (if old(self)@.zoom.len() > 0 {
                redrawn()
            } else {
                nothing()
            }),
    {
        let ghost before = self@;
        match self.zoom.pop() {
            None => (false, Effects::none()),
            Some(_) => {
                self.after_zoom();
                assert(self@.zoom =~= before.zoom.drop_last());
                (true, Effects::redraw())
            },
        }
    }

    /// Zoom out to `depth` names deep, for a breadcrumb click.
    pub fn zoom_to(&mut self, depth: usize) -> (r: Effects)
        ensures
            final(self)@ == zoomed_to(old(self)@, depth as int),
            r@ == (if depth < old(self)@.zoom.len() {
                redrawn()
            } else {
                nothing()
            }),
    {
        let ghost before = self@;
        if depth >= self.zoom.len() {
            return Effects::none();
        }
        self.zoom.truncate(depth);
        self.after_zoom();
        assert(self@.zoom =~= before.zoom.take(depth as int));
        Effects::redraw()
    }

    /// Zoom into `path`, which must be under the mapped folder. False when it is not, or is
    /// not a folder the scan knows about.
    pub fn zoom_into(&mut self, path: &FilePath) -> (r: (bool, Effects))
        ensures
            final(self)@ == zoomed_into(old(self)@, path@),
            r.0 == can_zoom_into(old(self)@, path@),
            r.1@ == (if can_zoom_into(old(self)@, path@) {
                redrawn()
            } else {
                nothing()
            }),
    {
        match self.parts_of(path) {
            None => (false, Effects::none()),
            Some(parts) => {
                if !self.tree.leads_to_folder(&path::texts_of(&parts)) {
                    return (false, Effects::none());
                }
                self.zoom = parts;
                self.after_zoom();
                (true, Effects::redraw())
            },
        }
    }

    fn after_zoom(&mut self)
        ensures
            final(self)@ == rezoomed(old(self)@, old(self)@.zoom),
    {
        self.hover = None;
        self.stale = true;
        self.last_layout = None;
        self.laid_out = false;
    }

    // ------------------------------------------------------------ corrections

    /// `path` as the chain of names between the mapped folder and it.
    fn names_of(&self, path: &FilePath) -> (r: Option<Vec<String>>)
        ensures
            match r {
                Some(names) => names_below(self@.root, path@) == Some(path::names_view(names@)),
                None => names_below(self@.root, path@) is None,
            },
    {
        match self.parts_of(path) {
            None => None,
            Some(parts) => Some(path::texts_of(&parts)),
        }
    }

    /// The parts between the mapped folder and `path`.
    fn parts_of(&self, path: &FilePath) -> (r: Option<Vec<Part>>)
        ensures
            match r {
                Some(parts) => parts_below(self@.root, path@) == Some(path::parts_view(parts@)),
                None => parts_below(self@.root, path@) is None,
            },
    {
        match path.strip(&self.root) {
            None => None,
            Some(rest) => {
                if rest.is_empty() {
                    None
                } else {
                    Some(rest.plain_parts())
                }
            },
        }
    }

    /// Fold a set of finished moves into the map instead of measuring the disk again. Each
    /// pair is where something was and where it went, with `None` for "it stopped existing".
    ///
    /// The app already knows exactly how big the thing it just deleted was, so the picture
    /// can be made true again by arithmetic. A scan in flight owns the tree and will produce
    /// the truth on its own, so this stays out of its way.
    pub fn absorb_moves(&mut self, moves: &[(FilePath, Option<FilePath>)]) -> (r: Effects)
        ensures
            ({
                let (after, changed) = all_moved(old(self)@, moves_view(moves@));
                if takes_corrections(old(self)@) && changed {
                    &&& final(self)@ == corrected(after)
                    &&& r@ == correction_effects()
                } else {
                    &&& final(self)@ == old(self)@
                    &&& r@ == nothing()
                }
            }),
    {
        if self.scanning || self.tree.children.len() == 0 {
            return Effects::none();
        }
        let ghost start = self@;
        let ghost all = moves_view(moves@);
        let mut changed = false;
        let mut i: usize = 0;
        assert(all.take(0) =~= Seq::<MoveView>::empty());
        while i < moves.len()
            invariant
                i <= moves@.len(),
                all == moves_view(moves@),
                (self@, changed) == all_moved(start, all.take(i as int)),
            decreases moves@.len() - i,
        {
            proof {
                assert(all.take(i + 1).drop_last() =~= all.take(i as int));
                assert(all.take(i + 1).last() == (moves@[i as int].0@, path_view(
                    moves@[i as int].1,
                )));
            }
            if self.absorb_move(&moves[i].0, &moves[i].1) {
                changed = true;
            }
            i += 1;
        }
        assert(all.take(all.len() as int) =~= all);
        if changed {
            self.after_change()
        } else {
            proof {
                lemma_unmoved(start, all);
            }
            Effects::none()
        }
    }

    /// One move. True when it changed the tree.
    fn absorb_move(&mut self, from: &FilePath, to: &Option<FilePath>) -> (r: bool)
        ensures
            (final(self)@, r) == moved(old(self)@, (from@, path_view(*to))),
    {
        let names = match self.names_of(from) {
            None => {
                return false;
            },
            Some(names) => names,
        };
        let mut node = match self.tree.detach(&names) {
            None => {
                return false;
            },
            Some(node) => node,
        };
        self.unpick(from);
        // Moved rather than removed, and landed somewhere still on the map: the bytes did
        // not leave, so neither does the rectangle.
        if let Some(to) = to {
            if let Some(name) = to.file_name() {
                let ghost gone = node@;
                node.name = name;
                assert(node@.children =~= gone.children);
                let _ = self.graft_at(to, node);
            }
        }
        true
    }

    /// Forget the pick, if it is of `path`.
    fn unpick(&mut self, path: &FilePath)
        ensures
            final(self)@ == (MapView { pick: unpicked(old(self)@.pick, path@), ..old(self)@ }),
    {
        let same = match &self.pick {
            Some(pick) => pick.path.same(path),
            None => false,
        };
        if same {
            self.pick = None;
        }
    }

    /// Fold finished copies in: the source stays where it is and a second rectangle of the
    /// same size appears at the destination.
    pub fn absorb_copies(&mut self, copies: &[(FilePath, FilePath)]) -> (r: Effects)
        ensures
            ({
                let (after, changed) = all_copied(old(self)@, copies_view(copies@));
                if takes_corrections(old(self)@) && changed {
                    &&& final(self)@ == corrected(after)
                    &&& r@ == correction_effects()
                } else {
                    &&& final(self)@ == old(self)@
                    &&& r@ == nothing()
                }
            }),
    {
        if self.scanning || self.tree.children.len() == 0 {
            return Effects::none();
        }
        let ghost start = self@;
        let ghost all = copies_view(copies@);
        let mut changed = false;
        let mut i: usize = 0;
        assert(all.take(0) =~= Seq::<(PathView, PathView)>::empty());
        while i < copies.len()
            invariant
                i <= copies@.len(),
                all == copies_view(copies@),
                (self@, changed) == all_copied(start, all.take(i as int)),
            decreases copies@.len() - i,
        {
            proof {
                assert(all.take(i + 1).drop_last() =~= all.take(i as int));
                assert(all.take(i + 1).last() == (copies@[i as int].0@, copies@[i as int].1@));
            }
            if self.absorb_copy(&copies[i].0, &copies[i].1) {
                changed = true;
            }
            i += 1;
        }
        assert(all.take(all.len() as int) =~= all);
        if changed {
            self.after_change()
        } else {
            proof {
                lemma_uncopied(start, all);
            }
            Effects::none()
        }
    }

    /// One copy. True when it changed the tree.
    fn absorb_copy(&mut self, from: &FilePath, to: &FilePath) -> (r: bool)
        ensures
            (final(self)@, r) == copied(old(self)@, (from@, to@)),
    {
        let names = match self.names_of(from) {
            None => {
                return false;
            },
            Some(names) => names,
        };
        if self.names_of(to).is_none() {
            return false;
        }
        let mut node = match self.tree.at(&names) {
            None => {
                return false;
            },
            Some(source) => source.copy(),
        };
        let name = match to.file_name() {
            None => {
                return false;
            },
            Some(name) => name,
        };
        let ghost source = node@;
        node.name = name;
        assert(node@.children =~= source.children);
        self.graft_at(to, node)
    }

    /// Put `node` where `full` says, which is a path including the node's own name: the
    /// parent is what actually receives it.
    fn graft_at(&mut self, full: &FilePath, node: Node) -> (r: bool)
        ensures
            (final(self)@, r) == grafted_at(old(self)@, full@, node@),
    {
        let parent = match full.parent() {
            None => {
                return false;
            },
            Some(parent) => parent,
        };
        let names: Vec<String> = if parent.same(&self.root) {
            let none: Vec<String> = Vec::new();
            assert(path::names_view(none@) =~= Seq::<Seq<char>>::empty());
            none
        } else {
            match self.names_of(&parent) {
                None => {
                    return false;
                },
                Some(names) => names,
            }
        };
        self.tree.graft(&names, node)
    }

    /// Drop `path` from the map because the disk says it is not there any more, whether or
    /// not a scan is running.
    pub fn forget(&mut self, path: &FilePath) -> (r: Effects)
        ensures
            final(self)@ == dropped(old(self)@, path@).0,
            r@ == drop_effects(old(self)@, dropped(old(self)@, path@).1),
    {
        let names = match self.names_of(path) {
            None => {
                return Effects::none();
            },
            Some(names) => names,
        };
        match self.tree.detach(&names) {
            None => Effects::none(),
            Some(_) => {
                self.unpick(path);
                let mut r = self.after_change();
                r.save = !self.scanning;
                r
            },
        }
    }

    fn after_change(&mut self) -> (r: Effects)
        ensures
            final(self)@ == corrected(old(self)@),
            r@ == correction_effects(),
    {
        self.hover = None;
        self.stale = true;
        self.last_layout = None;
        let mut r = Effects::redraw();
        r.save = true;
        r
    }

    // ------------------------------------------------------ layout and events

    /// Take a new layout. The hovered index means nothing any more; the selection is a path,
    /// not an index, so it survives, with the numbers of whatever cell now stands for it.
    pub fn relayout(&mut self, cells: Vec<Cell>, clock: u64)
        ensures
            final(self)@ == relaid(old(self)@, cells::cells_view(cells@), clock),
    {
        let found = match &self.pick {
            None => None,
            Some(pick) => cells::find_cell(&cells, &pick.path, true),
        };
        if let Some(i) = found {
            self.pick = Some(cells::pick_of(&cells[i]));
        }
        self.cells = cells;
        self.laid_out = true;
        self.stale = false;
        self.last_layout = Some(clock);
        self.hover = None;
    }

    /// What a drawing does about the layout, where `same_place` is whether the map was laid
    /// out for the place it is drawn in. A layout that the throttle holds back is come back
    /// for: one that nothing ever comes back for is a map that stops updating and never says
    /// so.
    pub fn layout_step(&self, same_place: bool, clock: u64) -> (r: LayoutStep)
        ensures
            r == layout_step_of(self@, same_place, clock),
    {
        if !self.laid_out || !same_place || (self.stale && self.layout_is_due(clock)) {
            LayoutStep::Relayout
        } else if self.stale {
            LayoutStep::Wait
        } else {
            LayoutStep::Keep
        }
    }

    /// The frame that was asked for has come.
    pub fn frame(&self, clock: u64) -> (r: Effects)
        ensures
            r@ == (if !self@.stale {
                nothing()
            } else if due(self@, clock) {
                redrawn()
            } else {
                EffectsView { next_frame: true, ..nothing() }
            }),
    {
        if !self.stale {
            return Effects::none();
        }
        if self.layout_is_due(clock) {
            Effects::redraw()
        } else {
            let mut r = Effects::none();
            r.next_frame = true;
            r
        }
    }

    /// The pointer is over this cell, or over none. Only when the cell changes is anything
    /// drawn.
    pub fn set_hover(&mut self, hover: Option<usize>) -> (r: Effects)
        ensures
            final(self)@ == (MapView { hover, ..old(self)@ }),
            r@ == (if hover != old(self)@.hover {
                redrawn()
            } else {
                nothing()
            }),
    {
        let same = match (hover, self.hover) {
            (Some(a), Some(b)) => a == b,
            (None, None) => true,
            _ => false,
        };
        if same {
            return Effects::none();
        }
        self.hover = hover;
        Effects::redraw()
    }

    /// The file or folder of the cell under a point: what a right-click there is about. Never
    /// the bundle, which is not a thing on disk and must never become the target of an
    /// operation.
    pub fn path_at(&self, hit: Option<usize>) -> (r: Option<FilePath>)
        ensures
            path_view(r) == path_under(self@, hit),
    {
        match hit {
            None => None,
            Some(i) => {
                if i < self.cells.len() && !self.cells[i].is_bundle() {
                    Some(self.cells[i].path.copy())
                } else {
                    None
                }
            },
        }
    }

    /// A press on the map. `present` is whether the path of the pressed cell is still on the
    /// disk: a map read back from a file can be out of date, and one look at the one thing
    /// that was just pointed at is where that stops being invisible.
    pub fn press(&mut self, at: PressAt, taps: u32, primary: bool, present: bool) -> (r: Effects)
        ensures
            final(self)@ == pressed(old(self)@, at, taps, primary, present).0,
            r@ == pressed(old(self)@, at, taps, primary, present).1,
    {
        match at {
            PressAt::Rescan => {
                if primary {
                    self.rescan()
                } else {
                    Effects::none()
                }
            },
            PressAt::Crumb(depth) => {
                if primary {
                    self.zoom_to(depth)
                } else {
                    Effects::none()
                }
            },
            PressAt::Cell(i) => {
                if i < self.cells.len() {
                    self.press_cell(i, taps, primary, present)
                } else {
                    Effects::none()
                }
            },
            PressAt::Nowhere => Effects::none(),
        }
    }

    fn press_cell(&mut self, i: usize, taps: u32, primary: bool, present: bool) -> (r: Effects)
        requires
            i < old(self)@.cells.len(),
        ensures
            final(self)@ == cell_pressed(old(self)@, i as int, taps, primary, present).0,
            r@ == cell_pressed(old(self)@, i as int, taps, primary, present).1,
    {
        let path = self.cells[i].path.copy();
        let bundle = self.cells[i].is_bundle();
        let is_dir = self.cells[i].is_dir;
        if !bundle && !present {
            let mut r = self.forget(&path);
            r.action = TreemapAction::Vanished(path);
            return r;
        }
        self.pick = Some(cells::pick_of(&self.cells[i]));
        let mut r = Effects::redraw();
        if bundle {
            // Nothing on disk is under there to act on.
            return r;
        }
        // A secondary press only picks: zooming out from under a menu that is about to open
        // would be a trap.
        if primary && taps >= 2 {
            if is_dir {
                // Zooming draws another part of the picture without reading the disk again.
                let (zoomed, effects) = self.zoom_into(&path);
                if zoomed {
                    return effects;
                }
            } else {
                r.action = TreemapAction::Reveal(path);
                return r;
            }
        }
        r.action = TreemapAction::Selected(path);
        r
    }
}

/// Where a press landed: whether on the word that starts a scan, else on which breadcrumb,
/// else on which cell.
pub fn press_at(rescan: bool, crumb: Option<usize>, hit: Option<usize>) -> (r: PressAt)
    ensures
        r == landing(rescan, crumb, hit),
{
    if rescan {
        return PressAt::Rescan;
    }
    match (crumb, hit) {
        (Some(depth), _) => PressAt::Crumb(depth),
        (None, Some(i)) => PressAt::Cell(i),
        (None, None) => PressAt::Nowhere,
    }
}

/// Whether a press is a primary one: with the control key held, the primary button stands
/// for the secondary one.
pub fn is_primary(button: bool, control: bool) -> (r: bool)
    ensures
        r == (button && !control),
{
    button && !control
}

/// One more message at the end.
proof fn lemma_one_more(messages: Seq<ScanMessage>, message: ScanMessage, generation: u64)
    ensures
        finishes(messages.push(message), generation) == (finishes(messages, generation) || (
        message.generation == generation && ends(message))),
        measured(messages.push(message), generation) == (measured(messages, generation) || (
        message.generation == generation && ends(message) && message.finished->0 is Scanned)),
{
    let more = messages.push(message);
    let n = messages.len() as int;
    assert(more[n] == message);
    assert(forall|i: int| 0 <= i < n ==> more[i] == messages[i]);
}

/// Moves that change nothing leave the map as it is.
proof fn lemma_unmoved(m: MapView, moves: Seq<MoveView>)
    requires
        !all_moved(m, moves).1,
    ensures
        all_moved(m, moves).0 == m,
    decreases moves.len(),
{
    if moves.len() > 0 {
        lemma_unmoved(m, moves.drop_last());
    }
}

/// Copies that change nothing leave the map as it is.
proof fn lemma_uncopied(m: MapView, copies: Seq<(PathView, PathView)>)
    requires
        !all_copied(m, copies).1,
    ensures
        all_copied(m, copies).0 == m,
    decreases copies.len(),
{
    if copies.len() > 0 {
        lemma_uncopied(m, copies.drop_last());
    }
}

} // verus!
