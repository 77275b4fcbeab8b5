//! What the map is made of: its rectangles, the picked one, and the messages of a scan.

use vstd::prelude::*;
use vstd::string::*;
use crate::kind;
use crate::kind::FileKind;
use crate::path;
use crate::path::{FilePath, PathView};
use crate::tree::ScanStep;

verus! {

/// One rectangle of the map. Where it is drawn is the painter's business.
pub struct Cell {
    pub path: FilePath,
    pub name: String,
    pub size: u64,
    pub files: u32,
    /// The tag of its [`FileKind`], or that of the bundle.
    pub kind: u8,
    /// How far inside the map.
    pub depth: usize,
    pub is_dir: bool,
    /// A folder that its children are drawn on.
    pub is_group: bool,
    /// The walk is still inside it.
    pub pending: bool,
    /// How many items a bundle stands for.
    pub extra: u32,
}

/// A [`Cell`] as a value.
pub struct CellView {
    pub path: PathView,
    pub name: Seq<char>,
    pub size: u64,
    pub files: u32,
    pub kind: u8,
    pub depth: usize,
    pub is_dir: bool,
    pub is_group: bool,
    pub pending: bool,
    pub extra: u32,
}

impl View for Cell {
    type V = CellView;

    open spec fn view(&self) -> CellView {
        CellView {
            path: self.path@,
            name: self.name@,
            size: self.size,
            files: self.files,
            kind: self.kind,
            depth: self.depth,
            is_dir: self.is_dir,
            is_group: self.is_group,
            pending: self.pending,
            extra: self.extra,
        }
    }
}

pub open spec fn cells_view(cells: Seq<Cell>) -> Seq<CellView> {
    Seq::new(cells.len(), |i: int| cells[i]@)
}

impl CellView {
    /// The "N smaller items" rectangle: nothing on disk.
    pub open spec fn is_bundle(self) -> bool {
        self.kind == kind::KIND_BUNDLE
    }
}

impl Cell {
    /// Whether this is the "N smaller items" rectangle, which is nothing on disk.
    pub fn is_bundle(&self) -> (r: bool)
        ensures
            r == self@.is_bundle(),
    {
        self.kind == kind::KIND_BUNDLE
    }
}

/// The kind a cell paints as.
pub fn cell_kind(cell: &Cell) -> (r: FileKind)
    ensures
        r == kind::kind_of_tag(cell@.kind),
{
    kind::tag_kind(cell.kind)
}

/// What the last click landed on. It is held apart from the cells because a relayout throws
/// every cell away and the selection must survive it.
pub struct Pick {
    pub path: FilePath,
    pub size: u64,
    pub files: u32,
    pub is_dir: bool,
    /// How many items, where it is the bundle.
    pub bundle: u32,
}

/// A [`Pick`] as a value.
pub struct PickView {
    pub path: PathView,
    pub size: u64,
    pub files: u32,
    pub is_dir: bool,
    pub bundle: u32,
}

impl View for Pick {
    type V = PickView;

    open spec fn view(&self) -> PickView {
        PickView {
            path: self.path@,
            size: self.size,
            files: self.files,
            is_dir: self.is_dir,
            bundle: self.bundle,
        }
    }
}

pub open spec fn pick_view(pick: Option<Pick>) -> Option<PickView> {
    match pick {
        Some(pick) => Some(pick@),
        None => None,
    }
}

/// The pick that stands for a cell.
pub open spec fn picked(cell: CellView) -> PickView {
    PickView {
        path: cell.path,
        size: cell.size,
        files: cell.files,
        is_dir: cell.is_dir,
        bundle: cell.extra,
    }
}

/// The pick that stands for a cell.
pub fn pick_of(cell: &Cell) -> (r: Pick)
    ensures
        r@ == picked(cell@),
{
    Pick {
        path: cell.path.copy(),
        size: cell.size,
        files: cell.files,
        is_dir: cell.is_dir,
        bundle: cell.extra,
    }
}

/// The first cell at or after `i` with this path, leaving out bundles where asked to.
pub open spec fn cell_at(cells: Seq<CellView>, path: PathView, on_disk: bool, i: int) -> Option<int>
    decreases cells.len() - i,
{
    if i < 0 || i >= cells.len() {
        None
    } else if path::same(cells[i].path, path) && !(on_disk && cells[i].is_bundle()) {
        Some(i)
    } else {
        cell_at(cells, path, on_disk, i + 1)
    }
}

/// The first cell with this path, leaving out bundles where asked to.
pub fn find_cell(cells: &Vec<Cell>, path: &FilePath, on_disk: bool) -> (r: Option<usize>)
    ensures
        match r {
            Some(i) => {
                &&& i < cells@.len()
                &&& cell_at(cells_view(cells@), path@, on_disk, 0) == Some(i as int)
            },
            None => cell_at(cells_view(cells@), path@, on_disk, 0) is None,
        },
{
    let mut i: usize = 0;
    while i < cells.len()
        invariant
            i <= cells@.len(),
            cell_at(cells_view(cells@), path@, on_disk, 0) == cell_at(
                cells_view(cells@),
                path@,
                on_disk,
                i as int,
            ),
        decreases cells@.len() - i,
    {
        if cells[i].path.same(path) && !(on_disk && cells[i].is_bundle()) {
            return Some(i);
        }
        i += 1;
    }
    None
}

/// What a press on the map means to the folder view around it.
#[derive(Clone, Debug, Default, PartialEq)]
pub enum TreemapAction {
    /// A rectangle was picked. The map keeps showing it; the browser may select it too when
    /// it happens to be in the current listing.
    Selected(FilePath),
    /// A file was double-clicked: take the browser to where it lives.
    Reveal(FilePath),
    /// What was picked is not on the disk any more; the map has dropped it.
    Vanished(FilePath),
    /// Nothing.
    #[default]
    Nothing,
}

/// A [`TreemapAction`] as a value.
pub enum ActionView {
    Selected(PathView),
    Reveal(PathView),
    Vanished(PathView),
    Nothing,
}

impl View for TreemapAction {
    type V = ActionView;

    open spec fn view(&self) -> ActionView {
        match self {
            TreemapAction::Selected(path) => ActionView::Selected(path@),
            TreemapAction::Reveal(path) => ActionView::Reveal(path@),
            TreemapAction::Vanished(path) => ActionView::Vanished(path@),
            TreemapAction::Nothing => ActionView::Nothing,
        }
    }
}

impl TreemapAction {
    /// The same action again.
    pub fn copy(&self) -> (r: TreemapAction)
        ensures
            r@ == self@,
    {
        match self {
            TreemapAction::Selected(path) => TreemapAction::Selected(path.copy()),
            TreemapAction::Reveal(path) => TreemapAction::Reveal(path.copy()),
            TreemapAction::Vanished(path) => TreemapAction::Vanished(path.copy()),
            TreemapAction::Nothing => TreemapAction::Nothing,
        }
    }
}

/// How a request for a folder's map ended.
pub enum Outcome {
    /// The disk was walked. The tree in hand is fresh, and worth saving.
    Scanned,
    /// The saved map was good and is what got delivered: nothing was read off the disk.
    Loaded { scanned_at: u64 },
    /// Cancelled, or the folder could not be read.
    Failed,
}

/// One message from the scan's worker. `generation` is the request it answers, so a scan the
/// user already navigated away from is dropped rather than folded into the folder they are
/// looking at now.
pub struct ScanMessage {
    pub generation: u64,
    pub step: Option<ScanStep>,
    pub finished: Option<Outcome>,
}

} // verus!
