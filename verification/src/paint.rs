//! What the map says and how its tiles are told apart: every line of text, and every choice
//! between two ways of painting. Where things go and what colour they are is the painter's
//! business, and so is how bytes, shares, ages and paths are written out: those come in as
//! functions.

use vstd::prelude::*;
use vstd::string::*;
use crate::cells;
use crate::cells::{Cell, CellView};
use crate::kind;
use crate::path;
use crate::path::{FilePath, PathView};
use crate::text;
use crate::view;
use crate::view::{MapView, TreemapView};

verus! {

/// A ceiling on labels per frame. Past a few hundred names nobody is reading them and every
/// one costs a text layout.
pub const LABEL_BUDGET: usize = 700;

// --------------------------------------------------------------- the status

/// How a folder is named: by its last name, or by its whole path where it has none.
pub open spec fn place_text(path: PathView) -> Seq<char> {
    match path::last_name(path) {
        Some(name) => name,
        None => path::path_text(path),
    }
}

/// An `s`, unless there is one.
pub open spec fn plural(n: u32) -> Seq<char> {
    if n == 1 {
        seq![]
    } else {
        "s"@
    }
}

/// The status line of a running scan. `bytes` is what has been measured so far, written out.
pub open spec fn scanning_status(m: MapView, bytes: Seq<char>) -> Seq<char> {
    "Scanning "@ + place_text(view::focus(m)) + " — "@ + text::decimal(
        m.tree.files as nat,
    ) + " files · "@ + bytes + " so far · "@ + text::decimal(m.folders_left as nat) + " folder"@
        + plural(m.folders_left) + " still open"@
}

/// The status line of a map at rest. `bytes` is the size of the folder in focus, written out,
/// and `picked` how the picked path is shown.
pub open spec fn resting_status(m: MapView, bytes: Seq<char>, picked: Option<Seq<char>>) -> Seq<
    char,
> {
    place_text(view::focus(m)) + " — "@ + bytes + " in "@ + text::decimal(
        view::focused_node(m).files as nat,
    ) + " files · double-click a folder to zoom in, Esc to go back"@ + (match picked {
        Some(name) => " · picked "@ + name,
        None => seq![],
    })
}

/// Whether `line` is the status line of a map: what went wrong, or how far the scan has got,
/// or what is shown and what is picked.
pub open spec fn is_status<B: Fn(u64) -> String, N: Fn(&FilePath) -> String>(
    m: MapView,
    format_bytes: B,
    display_name: N,
    line: Seq<char>,
) -> bool {
    match m.error {
        Some(error) => line == error,
        None => if m.scanning {
            exists|bytes: String|
                #[trigger] call_ensures(format_bytes, (m.tree.size,), bytes) && line
                    == scanning_status(m, bytes@)
        } else {
            exists|bytes: String|
                #[trigger] call_ensures(
                    format_bytes,
                    (view::focused_node(m).size,),
                    bytes,
                ) && match m.pick {
                    Some(pick) => exists|p: &FilePath, name: String|
                        p@ == pick.path && #[trigger] call_ensures(display_name, (p,), name)
                            && line == resting_status(m, bytes@, Some(name@)),
                    None => line == resting_status(m, bytes@, None),
                }
        },
    }
}

/// How a folder is named.
pub fn place_name(path: &FilePath) -> (r: String)
    ensures
        r@ == place_text(path@),
{
    match path.file_name() {
        Some(name) => name,
        None => path.text(),
    }
}

impl TreemapView {
    /// The status line for the map: what it is showing, or how far the scan has got, and what
    /// the last click landed on.
    pub fn status<B: Fn(u64) -> String, N: Fn(&FilePath) -> String>(
        &self,
        format_bytes: B,
        display_name: N,
    ) -> (r: String)
        requires
            forall|n: u64| call_requires(format_bytes, (n,)),
            forall|p: &FilePath| call_requires(display_name, (p,)),
        ensures
            is_status(self@, format_bytes, display_name, r@),
    {
        if let Some(error) = self.error() {
            return error.clone();
        }
        let place = place_name(&self.focus_path());
        let mut r = String::new();
        if self.scanning() {
            let bytes = format_bytes(self.tree().size);
            assert(call_ensures(format_bytes, (self@.tree.size,), bytes));
            r.append("Scanning ");
            r.append(place.as_str());
            r.append(" — ");
            text::push_decimal(&mut r, self.tree().files as u64);
            r.append(" files · ");
            r.append(bytes.as_str());
            r.append(" so far · ");
            text::push_decimal(&mut r, self.folders_left() as u64);
            r.append(" folder");
            if self.folders_left() != 1 {
                r.append("s");
            }
            r.append(" still open");
            assert(r@ =~= scanning_status(self@, bytes@));
            return r;
        }
        let bytes = format_bytes(self.focused().size);
        assert(call_ensures(format_bytes, (view::focused_node(self@).size,), bytes));
        r.append(place.as_str());
        r.append(" — ");
        r.append(bytes.as_str());
        r.append(" in ");
        text::push_decimal(&mut r, self.focused().files as u64);
        r.append(" files · double-click a folder to zoom in, Esc to go back");
        match self.pick() {
            Some(pick) => {
                let name = display_name(&pick.path);
                assert(call_ensures(display_name, (&pick.path,), name));
                r.append(" · picked ");
                r.append(name.as_str());
                assert(r@ =~= resting_status(self@, bytes@, Some(name@)));
            },
            None => {
                assert(r@ =~= resting_status(self@, bytes@, None));
            },
        }
        r
    }

    /// What stands in place of a map that has nothing to draw.
    pub fn empty_text(&self) -> (r: Option<String>)
        ensures
            view::text_view(r) == empty_text_of(self@),
    {
        if self.tree().children.len() != 0 {
            return None;
        }
        match self.error() {
            Some(error) => Some(error.clone()),
            None => {
                if self.scanning() {
                    Some("Reading the folder…".to_owned())
                } else {
                    Some("Nothing to map".to_owned())
                }
            },
        }
    }
}

/// What stands in place of a map that has nothing to draw.
pub open spec fn empty_text_of(m: MapView) -> Option<Seq<char>> {
    if m.tree.children.len() > 0 {
        None
    } else {
        match m.error {
            Some(error) => Some(error),
            None => Some(
                if m.scanning {
                    "Reading the folder…"@
                } else {
                    "Nothing to map"@
                },
            ),
        }
    }
}

// ------------------------------------------------------------ the breadcrumb

/// The breadcrumb's names: the mapped folder, and the names zoomed through.
pub open spec fn crumb_names(m: MapView) -> Seq<Seq<char>> {
    seq![m.root_name] + view::zoom_names(m)
}

/// How the name at `depth` stands in the breadcrumb.
pub open spec fn crumb_text(name: Seq<char>, depth: int) -> Seq<char> {
    if depth == 0 {
        name
    } else {
        "› "@ + name
    }
}

/// Names with a comma between them.
pub open spec fn listed(names: Seq<Seq<char>>) -> Seq<char>
    decreases names.len(),
{
    if names.len() == 0 {
        seq![]
    } else if names.len() == 1 {
        names[0]
    } else {
        listed(names.drop_last()) + ", "@ + names.last()
    }
}

/// What the strip says of a running scan.
pub open spec fn scanning_note(m: MapView, bytes: Seq<char>) -> Seq<char> {
    "scanning  ·  "@ + text::decimal(m.tree.files as nat) + " files  ·  "@ + bytes + "  ·  "@
        + text::decimal(m.folders_left as nat) + " folders open"@
}

/// What the strip says of a map at rest: how old the numbers are, what was left out on
/// purpose, and what it was not allowed to look at.
pub open spec fn resting_note(m: MapView, age: Seq<char>, excluded: Option<Seq<char>>) -> Seq<
    char,
> {
    age + (match excluded {
        Some(what) => "  ·  "@ + what,
        None => seq![],
    }) + (if m.denied.len() > 0 {
        "  ·  no access: "@ + listed(m.denied)
    } else {
        seq![]
    })
}

/// Names with a comma between them.
fn list_names(names: &Vec<String>) -> (r: String)
    ensures
        r@ == listed(path::names_view(names@)),
{
    let ghost all = path::names_view(names@);
    let mut r = String::new();
    let mut i: usize = 0;
    assert(r@ =~= listed(all.take(0)));
    while i < names.len()
        invariant
            i <= names@.len(),
            all == path::names_view(names@),
            r@ == listed(all.take(i as int)),
        decreases names@.len() - i,
    {
        proof {
            assert(all.take(i + 1).drop_last() =~= all.take(i as int));
            assert(all.take(i + 1).last() == names@[i as int]@);
        }
        if i > 0 {
            r.append(", ");
        }
        r.append(names[i].as_str());
        assert(r@ =~= listed(all.take(i + 1)));
        i += 1;
    }
    assert(all.take(all.len() as int) =~= all);
    r
}

impl TreemapView {
    /// The breadcrumb's segments, outermost first. The last one is the folder in focus.
    pub fn crumb_texts(&self) -> (r: Vec<String>)
        ensures
            r@.len() == crumb_names(self@).len(),
            forall|i: int|
                0 <= i < r@.len() ==> (#[trigger] r@[i])@ == crumb_text(crumb_names(self@)[i], i),
    {
        let mut r: Vec<String> = Vec::new();
        r.push(self.root_name().clone());
        let zoom = self.zoom();
        let mut i: usize = 0;
        while i < zoom.len()
            invariant
                i <= zoom@.len(),
                path::names_view(zoom@) == view::zoom_names(self@),
                r@.len() == i + 1,
                forall|j: int|
                    0 <= j <= i ==> (#[trigger] r@[j])@ == crumb_text(crumb_names(self@)[j], j),
            decreases zoom@.len() - i,
        {
            let mut segment: String = "› ".to_owned();
            segment.append(zoom[i].as_str());
            assert(zoom@[i as int]@ == view::zoom_names(self@)[i as int]);
            r.push(segment);
            i += 1;
        }
        r
    }

    /// What the strip says at its end: how far the scan is, or what the map is worth.
    pub fn note<B: Fn(u64) -> String, A: Fn(u64) -> String>(
        &self,
        format_bytes: B,
        age_text: A,
        excluded: Option<String>,
    ) -> (r: String)
        requires
            forall|n: u64| call_requires(format_bytes, (n,)),
            forall|n: u64| call_requires(age_text, (n,)),
        ensures
            self@.scanning ==> exists|bytes: String|
                #[trigger] call_ensures(format_bytes, (self@.tree.size,), bytes) && r@
                    == scanning_note(self@, bytes@),
            !self@.scanning ==> exists|age: String|
                #[trigger] call_ensures(age_text, (self@.scanned_at,), age) && r@ == resting_note(
                    self@,
                    age@,
                    view::text_view(excluded),
                ),
    {
        if self.scanning() {
            let bytes = format_bytes(self.tree().size);
            assert(call_ensures(format_bytes, (self@.tree.size,), bytes));
            let mut r: String = "scanning  ·  ".to_owned();
            text::push_decimal(&mut r, self.tree().files as u64);
            r.append(" files  ·  ");
            r.append(bytes.as_str());
            r.append("  ·  ");
            text::push_decimal(&mut r, self.folders_left() as u64);
            r.append(" folders open");
            assert(r@ =~= scanning_note(self@, bytes@));
            return r;
        }
        let age = age_text(self.scanned_at());
        assert(call_ensures(age_text, (self@.scanned_at,), age));
        let mut r: String = age.clone();
        if let Some(what) = &excluded {
            r.append("  ·  ");
            r.append(what.as_str());
        }
        let denied = self.denied();
        if denied.len() != 0 {
            let names = list_names(denied);
            r.append("  ·  no access: ");
            r.append(names.as_str());
        }
        assert(r@ =~= resting_note(self@, age@, view::text_view(excluded)));
        r
    }
}

/// How many of the breadcrumb's `n` segments are drawn: up to the first that does not fit,
/// in whose place an ellipsis stands.
pub fn crumbs_shown<F: Fn(usize) -> bool>(n: usize, fits: F) -> (r: usize)
    requires
        forall|i: usize| call_requires(fits, (i,)),
    ensures
        r <= n,
        forall|i: usize| i < r ==> #[trigger] call_ensures(fits, (i,), true),
        r < n ==> call_ensures(fits, (r,), false),
{
    let mut i: usize = 0;
    while i < n
        invariant
            forall|i: usize| call_requires(fits, (i,)),
            i <= n,
            forall|j: usize| j < i ==> #[trigger] call_ensures(fits, (j,), true),
        decreases n - i,
    {
        if !fits(i) {
            return i;
        }
        i += 1;
    }
    n
}

// ---------------------------------------------------------------- the footer

/// How strong a line is drawn.
#[derive(Clone, Copy, Debug, PartialEq, Eq, Structural)]
pub enum Ink {
    Dim,
    Bright,
}

/// The footer: the numbers first, then the path, which takes whatever room is left.
pub struct Footer {
    pub head: String,
    pub path: String,
    pub ink: Ink,
}

/// What a share is taken of: never nothing.
pub open spec fn whole_of(size: u64) -> u64 {
    if size == 0 {
        1
    } else {
        size
    }
}

/// How many files, where there is more to say than a name.
pub open spec fn files_text(lead: Seq<char>, is_dir: bool, files: u32) -> Seq<char> {
    if is_dir {
        lead + text::decimal(files as nat) + " files"@
    } else {
        seq![]
    }
}

/// Append how many files, for a folder.
fn push_files(out: &mut String, lead: &str, is_dir: bool, files: u32)
    ensures
        final(out)@ == old(out)@ + files_text(lead@, is_dir, files),
{
    let ghost before = out@;
    if is_dir {
        out.append(lead);
        text::push_decimal(out, files as u64);
        out.append(" files");
    }
    assert(out@ =~= before + files_text(lead@, is_dir, files));
}

/// What the footer says where nothing is picked.
pub const FOOTER_HELP: &'static str =
    "Click a rectangle to pick it · double-click a folder to zoom in · Esc goes back \
     · right-click for the file menu";

impl TreemapView {
    /// The persistent readout: what the last click landed on, and how big it is. This is the
    /// line a person cleaning up a full disk actually reads, so it never shows anything but
    /// the truth about one path. `percent` writes out what share its first number is of its
    /// second.
    pub fn footer<B: Fn(u64) -> String, P: Fn(u64, u64) -> String>(
        &self,
        format_bytes: B,
        percent: P,
    ) -> (r: Footer)
        requires
            forall|n: u64| call_requires(format_bytes, (n,)),
            forall|a: u64, b: u64| b > 0 ==> call_requires(percent, (a, b)),
        ensures
            match self@.pick {
                None => {
                    &&& r.head@.len() == 0
                    &&& r.path@ == FOOTER_HELP@
                    &&& r.ink == Ink::Dim
                },
                Some(pick) => {
                    let total = whole_of(view::focused_node(self@).size);
                    exists|bytes: String, share: String|
                        #[trigger] call_ensures(format_bytes, (pick.size,), bytes)
                            && #[trigger] call_ensures(percent, (pick.size, total), share)
                            && if pick.bundle > 0 {
                            &&& r.head@ == bytes@ + "   "@ + share@ + "% of what is on screen"@
                            &&& r.path@ == text::decimal(pick.bundle as nat)
                                + " items each too small to draw on their own"@
                            &&& r.ink == Ink::Dim
                        } else {
                            &&& r.path@ == path::path_text(pick.path)
                            &&& r.ink == Ink::Bright
                            &&& exists|all: String|
                                #[trigger] call_ensures(format_bytes, (total,), all) && r.head@
                                    == bytes@ + "   "@ + share@ + "% of "@ + all@ + files_text(
                                    "   "@,
                                    pick.is_dir,
                                    pick.files,
                                )
                        }
                },
            },
    {
        let pick = match self.pick() {
            None => {
                return Footer {
                    head: String::new(),
                    path: FOOTER_HELP.to_owned(),
                    ink: Ink::Dim,
                };
            },
            Some(pick) => pick,
        };
        let size: u64 = self.focused().size;
        let total: u64 = if size == 0 { 1 } else { size };
        assert(total == whole_of(view::focused_node(self@).size));
        let bytes = format_bytes(pick.size);
        let share = percent(pick.size, total);
        assert(call_ensures(format_bytes, (pick@.size,), bytes));
        assert(call_ensures(percent, (pick@.size, total), share));
        let mut head: String = bytes.clone();
        head.append("   ");
        head.append(share.as_str());
        if pick.bundle > 0 {
            head.append("% of what is on screen");
            let mut line = String::new();
            text::push_decimal(&mut line, pick.bundle as u64);
            line.append(" items each too small to draw on their own");
            assert(line@ =~= text::decimal(pick.bundle as nat)
                + " items each too small to draw on their own"@);
            return Footer { head, path: line, ink: Ink::Dim };
        }
        let all = format_bytes(total);
        assert(call_ensures(format_bytes, (total,), all));
        head.append("% of ");
        head.append(all.as_str());
        push_files(&mut head, "   ", pick.is_dir, pick.files);
        Footer { head, path: pick.path.text(), ink: Ink::Bright }
    }
}

// --------------------------------------------------------------- the tooltip

/// The first line of a cell's tooltip: where it is, from the folder in focus.
pub open spec fn tooltip_head(m: MapView, cell: CellView) -> Seq<char> {
    if cell.is_bundle() {
        cell.name
    } else {
        match path::below(cell.path, view::focus(m)) {
            Some(rest) => path::path_text(rest),
            None => path::path_text(cell.path),
        }
    }
}

/// The second line of a cell's tooltip.
pub open spec fn tooltip_foot(cell: CellView, bytes: Seq<char>, share: Seq<char>) -> Seq<char> {
    bytes + " · "@ + share + "%"@ + files_text(" · "@, cell.is_dir, cell.files) + (
    if cell.pending {
        " · still scanning"@
    } else {
        seq![]
    })
}

impl TreemapView {
    /// The hovered rectangle's two lines: its name, and its size.
    pub fn tooltip<B: Fn(u64) -> String, P: Fn(u64, u64) -> String>(
        &self,
        format_bytes: B,
        percent: P,
    ) -> (r: Option<(String, String)>)
        requires
            forall|n: u64| call_requires(format_bytes, (n,)),
            forall|a: u64, b: u64| b > 0 ==> call_requires(percent, (a, b)),
        ensures
            match self@.hover {
                None => r is None,
                Some(i) => if i >= self@.cells.len() {
                    r is None
                } else {
                    let cell = self@.cells[i as int];
                    let total = whole_of(view::focused_node(self@).size);
                    &&& r is Some
                    &&& (r->0).0@ == tooltip_head(self@, cell)
                    &&& exists|bytes: String, share: String|
                        #[trigger] call_ensures(format_bytes, (cell.size,), bytes)
                            && #[trigger] call_ensures(percent, (cell.size, total), share)
                            && (r->0).1@ == tooltip_foot(cell, bytes@, share@)
                },
            },
    {
        let i = match self.hover() {
            None => {
                return None;
            },
            Some(i) => i,
        };
        let all = self.cells();
        if i >= all.len() {
            return None;
        }
        let cell = &all[i];
        assert(cell@ == self@.cells[i as int]);
        let size: u64 = self.focused().size;
        let total: u64 = if size == 0 { 1 } else { size };
        let head = if cell.is_bundle() {
            cell.name.clone()
        } else {
            match cell.path.strip(&self.focus_path()) {
                Some(rest) => rest.text(),
                None => cell.path.text(),
            }
        };
        let bytes = format_bytes(cell.size);
        let share = percent(cell.size, total);
        assert(call_ensures(format_bytes, (cell@.size,), bytes));
        assert(call_ensures(percent, (cell@.size, total), share));
        let mut foot: String = bytes.clone();
        foot.append(" · ");
        foot.append(share.as_str());
        foot.append("%");
        push_files(&mut foot, " · ", cell.is_dir, cell.files);
        if cell.pending {
            foot.append(" · still scanning");
        }
        assert(foot@ =~= tooltip_foot(cell@, bytes@, share@));
        Some((head, foot))
    }
}

// ----------------------------------------------------------------- the tiles

/// How a tile is painted.
#[derive(Clone, Copy, Debug, PartialEq, Eq, Structural)]
pub enum TilePaint {
    /// The sum of everything too small to see: a texture rather than a thing.
    Bundle,
    /// The plate that a group's children sit on: nearly background, with a trace of its hue.
    Plate { class: u8, lifted: bool, depth: u8 },
    /// A leaf, a little darker the further in it is. A folder too small to open is half way
    /// to a plate, so it never reads as one big file.
    Leaf { class: u8, lifted: bool, depth: u8, folder: bool },
}

/// `depth`, or `most`.
pub open spec fn capped(depth: usize, most: u8) -> u8 {
    if depth < most {
        depth as u8
    } else {
        most
    }
}

/// How a cell is painted. An unclassified file is lifted out of the border's grey: on a real
/// disk the unclassifiable blobs are most of what there is to clean up.
pub open spec fn paint_of(cell: CellView) -> TilePaint {
    let class = kind::class_of(kind::kind_of_tag(cell.kind));
    let lifted = class == kind::OTHER_CLASS && !cell.is_dir;
    if cell.is_bundle() {
        TilePaint::Bundle
    } else if cell.is_group {
        TilePaint::Plate { class, lifted, depth: capped(cell.depth, 4) }
    } else {
        TilePaint::Leaf { class, lifted, depth: capped(cell.depth, 6), folder: cell.is_dir }
    }
}

fn cap(depth: usize, most: u8) -> (r: u8)
    ensures
        r == capped(depth, most),
{
    if depth < most as usize {
        depth as u8
    } else {
        most
    }
}

/// How a cell is painted.
pub fn tile_paint(cell: &Cell) -> (r: TilePaint)
    ensures
        r == paint_of(cell@),
{
    if cell.is_bundle() {
        return TilePaint::Bundle;
    }
    let class: u8 = kind::kind_class(cells::cell_kind(cell));
    let lifted = class == kind::OTHER_CLASS && !cell.is_dir;
    if cell.is_group {
        TilePaint::Plate { class, lifted, depth: cap(cell.depth, 4) }
    } else {
        TilePaint::Leaf { class, lifted, depth: cap(cell.depth, 6), folder: cell.is_dir }
    }
}

/// How a tile's border is drawn.
#[derive(Clone, Copy, Debug, PartialEq, Eq, Structural)]
pub enum Edge {
    Picked,
    Hovered,
    Plain,
}

/// Whether the cell is what is picked.
pub open spec fn is_picked(m: MapView, cell: CellView) -> bool {
    match m.pick {
        Some(pick) => path::same(pick.path, cell.path) && !cell.is_bundle(),
        None => false,
    }
}

/// How a cell's border is drawn. What is picked shows, whatever the pointer is over.
pub open spec fn edge_of(m: MapView, i: int) -> Edge {
    if is_picked(m, m.cells[i]) {
        Edge::Picked
    } else if m.hover == Some(i as usize) {
        Edge::Hovered
    } else {
        Edge::Plain
    }
}

/// The name of a tile, waiting to be drawn on top of the finished tiles.
pub struct Label {
    pub line: String,
    pub below: Option<String>,
    /// In the strip that a group reserved for it.
    pub header: bool,
}

impl TreemapView {
    /// How the border of a cell is drawn.
    pub fn edge(&self, i: usize) -> (r: Edge)
        requires
            i < self@.cells.len(),
        ensures
            r == edge_of(self@, i as int),
    {
        let cell = &self.cells()[i];
        assert(cell@ == self@.cells[i as int]);
        let picked = match self.pick() {
            Some(pick) => pick.path.same(&cell.path) && !cell.is_bundle(),
            None => false,
        };
        if picked {
            return Edge::Picked;
        }
        match self.hover() {
            Some(h) => if h == i {
                Edge::Hovered
            } else {
                Edge::Plain
            },
            None => Edge::Plain,
        }
    }

    /// The cell that gets the ring on top of everything: the thing about to be deleted must
    /// be findable even when it is a folder whose children cover it.
    pub fn ringed(&self) -> (r: Option<usize>)
        ensures
            match self@.pick {
                None => r is None,
                Some(pick) => match cells::cell_at(self@.cells, pick.path, true, 0) {
                    Some(i) => r is Some && r->0 == i,
                    None => r is None,
                },
            },
    {
        match self.pick() {
            None => None,
            Some(pick) => cells::find_cell(self.cells(), &pick.path, true),
        }
    }
}

/// What room there is for the name of a tile.
#[derive(Clone, Copy, Debug)]
pub struct Room {
    /// A strip that a group reserved for its name.
    pub header: bool,
    /// Room for a name.
    pub name: bool,
    /// Room for a second line.
    pub two: bool,
}

/// Whether a cell's name is worth drawing: a group's in the strip that it reserved, which is
/// the only place on it that its children are not drawn over; a leaf's where it fits.
pub open spec fn worth_naming(cell: CellView, room: Room) -> bool {
    if cell.is_group {
        room.header
    } else {
        room.name
    }
}

/// Whether `label` is the label of a cell: a group's name and size in one line, or a leaf's
/// name, with its size below where there is room for it.
pub open spec fn is_label<B: Fn(u64) -> String>(
    cell: CellView,
    room: Room,
    format_bytes: B,
    label: Label,
) -> bool {
    &&& label.header == cell.is_group
    &&& if cell.is_group {
        &&& label.below is None
        &&& exists|bytes: String|
            #[trigger] call_ensures(format_bytes, (cell.size,), bytes) && label.line@ == cell.name
                + "  "@ + bytes@
    } else {
        &&& label.line@ == cell.name
        &&& label.below is Some <==> room.two
        &&& label.below matches Some(bytes) ==> call_ensures(format_bytes, (cell.size,), bytes)
    }
}

/// Which of the first `n` cells have a name worth drawing, in order.
pub open spec fn named_among(cells: Seq<CellView>, rooms: Seq<Room>, n: nat) -> Seq<int>
    decreases n,
{
    if n == 0 {
        seq![]
    } else if worth_naming(cells[n - 1], rooms[n - 1]) {
        named_among(cells, rooms, (n - 1) as nat).push(n - 1)
    } else {
        named_among(cells, rooms, (n - 1) as nat)
    }
}

/// The label of a cell, where its name is worth drawing.
pub fn label_of<B: Fn(u64) -> String>(cell: &Cell, room: Room, format_bytes: &B) -> (r: Option<
    Label,
>)
    requires
        forall|n: u64| call_requires(*format_bytes, (n,)),
    ensures
        r is Some <==> worth_naming(cell@, room),
        r matches Some(label) ==> is_label(cell@, room, *format_bytes, label),
{
    if cell.is_group {
        if !room.header {
            return None;
        }
        let bytes = format_bytes(cell.size);
        assert(call_ensures(*format_bytes, (cell@.size,), bytes));
        let mut line: String = cell.name.clone();
        line.append("  ");
        line.append(bytes.as_str());
        Some(Label { line, below: None, header: true })
    } else if room.name {
        let below = if room.two {
            Some(format_bytes(cell.size))
        } else {
            None
        };
        Some(Label { line: cell.name.clone(), below, header: false })
    } else {
        None
    }
}

/// The labels of a frame, each with the cell it is of, in the order of the cells. Past the
/// budget nothing more is named.
pub fn labels_of<B: Fn(u64) -> String>(cells: &Vec<Cell>, rooms: &Vec<Room>, format_bytes: B) -> (r:
    Vec<(usize, Label)>)
    requires
        rooms@.len() == cells@.len(),
        forall|n: u64| call_requires(format_bytes, (n,)),
    ensures
        ({
            let named = named_among(cells::cells_view(cells@), rooms@, cells@.len());
            &&& r@.len() == (if named.len() <= LABEL_BUDGET {
                named.len()
            } else {
                LABEL_BUDGET as nat
            })
            &&& forall|i: int|
                #![trigger r@[i]]
                0 <= i < r@.len() ==> r@[i].0 == named[i] && 0 <= named[i] < cells@.len()
                    && is_label(
                    cells@[named[i]]@,
                    rooms@[named[i]],
                    format_bytes,
                    r@[i].1,
                )
        }),
{
    let ghost all = cells::cells_view(cells@);
    let mut r: Vec<(usize, Label)> = Vec::new();
    let mut i: usize = 0;
    while i < cells.len()
        invariant
            rooms@.len() == cells@.len(),
            forall|n: u64| call_requires(format_bytes, (n,)),
            all == cells::cells_view(cells@),
            i <= cells@.len(),
            r@.len() <= LABEL_BUDGET,
            r@.len() <= named_among(all, rooms@, i as nat).len(),
            r@.len() < LABEL_BUDGET ==> r@.len() == named_among(all, rooms@, i as nat).len(),
            forall|k: int|
                #![trigger r@[k]]
                0 <= k < r@.len() ==> {
                    let at = named_among(all, rooms@, i as nat)[k];
                    r@[k].0 == at && 0 <= at < cells@.len() && is_label(
                        cells@[at]@,
                        rooms@[at],
                        format_bytes,
                        r@[k].1,
                    )
                },
        decreases cells@.len() - i,
    {
        assert(all[i as int] == cells@[i as int]@);
        if r.len() < LABEL_BUDGET {
            if let Some(label) = label_of(&cells[i], rooms[i], &format_bytes) {
                r.push((i, label));
            }
        }
        i += 1;
    }
    r
}

} // verus!
