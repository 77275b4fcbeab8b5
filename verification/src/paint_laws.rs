//! What the map says, word for word, and how its tiles are told apart.

use vstd::prelude::*;
use vstd::string::*;
use crate::cells::CellView;
use crate::kind;
use crate::paint;
use crate::paint::{Edge, Label, Room, TilePaint};
use crate::path;
use crate::path::{FilePath, PathView};
use crate::text;
use crate::view;
use crate::view::MapView;

verus! {

// --------------------------------------------------------------- the status

/// A folder is named by its last name, and by its whole path only where it has none.
pub proof fn a_folder_is_named_by_its_last_name(p: PathView)
    ensures
        path::last_name(p) matches Some(name) ==> paint::place_text(p) == name,
        path::last_name(p) is None ==> paint::place_text(p) == path::path_text(p),
{
}

/// The status of a running scan names the folder in focus and says how many files were found,
/// how much was measured and how many folders are still open, one or more.
pub proof fn the_status_tells_how_far_the_scan_is(m: MapView, bytes: Seq<char>)
    ensures
        ({
            let place = paint::place_text(path::joined(m.root, m.zoom));
            let files = text::decimal(m.tree.files as nat);
            let left = text::decimal(m.folders_left as nat);
            let line = paint::scanning_status(m, bytes);
            let head = "Scanning "@ + place + " — "@ + files + " files · "@ + bytes
                + " so far · "@ + left;
            &&& m.folders_left == 1 ==> line == head + " folder"@ + " still open"@
            &&& m.folders_left != 1 ==> line == head + " folder"@ + "s"@ + " still open"@
        }),
{
    let place = paint::place_text(path::joined(m.root, m.zoom));
    let files = text::decimal(m.tree.files as nat);
    let left = text::decimal(m.folders_left as nat);
    let line = paint::scanning_status(m, bytes);
    let head = "Scanning "@ + place + " — "@ + files + " files · "@ + bytes + " so far · "@ + left;
    if m.folders_left == 1 {
        assert(line =~= head + " folder"@ + " still open"@);
    }
}

/// The status of a map at rest names the folder in focus, and says how much is in it, in how
/// many files, and what is picked, if anything is.
pub proof fn the_status_tells_what_is_shown(m: MapView, bytes: Seq<char>, picked: Seq<char>)
    ensures
        ({
            let place = paint::place_text(path::joined(m.root, m.zoom));
            let files = text::decimal(view::focused_node(m).files as nat);
            let line = place + " — "@ + bytes + " in "@ + files
                + " files · double-click a folder to zoom in, Esc to go back"@;
            &&& paint::resting_status(m, bytes, None) == line
            &&& paint::resting_status(m, bytes, Some(picked)) == line + " · picked "@ + picked
        }),
{
    let place = paint::place_text(path::joined(m.root, m.zoom));
    let files = text::decimal(view::focused_node(m).files as nat);
    let line = place + " — "@ + bytes + " in "@ + files
        + " files · double-click a folder to zoom in, Esc to go back"@;
    assert(paint::resting_status(m, bytes, None) =~= line);
    assert(paint::resting_status(m, bytes, Some(picked)) =~= line + " · picked "@ + picked);
}

/// An error is the whole of the status; while a scan runs it tells how far it is, with what was
/// measured so far; and at rest what is shown, with the size of the folder in focus and the
/// name of what is picked. `written` and `named` are how a size and a path are put into words.
pub proof fn the_status_is_one_of_three<B: Fn(u64) -> String, N: Fn(&FilePath) -> String>(
    m: MapView,
    format_bytes: B,
    display_name: N,
    written: spec_fn(u64) -> Seq<char>,
    named: spec_fn(PathView) -> Seq<char>,
    line: Seq<char>,
)
    requires
        paint::is_status(m, format_bytes, display_name, line),
        forall|n: u64, s: String|
            #[trigger] call_ensures(format_bytes, (n,), s) ==> s@ == written(n),
        forall|p: &FilePath, s: String|
            #[trigger] call_ensures(display_name, (p,), s) ==> s@ == named(p@),
    ensures
        m.error matches Some(error) ==> line == error,
        m.error is None && m.scanning ==> line == paint::scanning_status(m, written(m.tree.size)),
        m.error is None && !m.scanning ==> line == paint::resting_status(
            m,
            written(view::focused_node(m).size),
            match m.pick {
                Some(pick) => Some(named(pick.path)),
                None => None,
            },
        ),
{
}

/// Where nothing is to be drawn stands what went wrong, else that the folder is being read,
/// else that there is nothing; where something is, nothing stands in its place.
pub proof fn an_empty_map_says_why(m: MapView)
    ensures
        m.tree.children.len() > 0 ==> paint::empty_text_of(m) is None,
        m.tree.children.len() == 0 ==> paint::empty_text_of(m) == Some(
            if m.error is Some {
                m.error->0
            } else if m.scanning {
                "Reading the folder…"@
            } else {
                "Nothing to map"@
            },
        ),
{
}

// ------------------------------------------------------------ the breadcrumb

/// The breadcrumb has the mapped folder first and then every name that was zoomed through, each
/// behind an arrow.
pub proof fn the_breadcrumb_has_every_name(m: MapView, i: int)
    requires
        0 <= i <= m.zoom.len(),
    ensures
        paint::crumb_names(m).len() == m.zoom.len() + 1,
        i == 0 ==> paint::crumb_text(paint::crumb_names(m)[i], i) == m.root_name,
        i > 0 ==> paint::crumb_text(paint::crumb_names(m)[i], i) == "› "@ + path::part_text(
            m.zoom[i - 1],
        ),
{
}

/// A list has every name, in order, and a comma between each two.
pub proof fn a_list_has_every_name(a: Seq<Seq<char>>, b: Seq<Seq<char>>, name: Seq<char>)
    ensures
        paint::listed(seq![]).len() == 0,
        paint::listed(seq![name]) == name,
        a.len() > 0 && b.len() > 0 ==> paint::listed(a + b) == paint::listed(a) + ", "@
            + paint::listed(b),
    decreases b.len(),
{
    if a.len() > 0 && b.len() > 0 {
        let all = a + b;
        assert(all.drop_last() =~= a + b.drop_last());
        assert(all.last() == b.last());
        if b.len() == 1 {
            assert(a + b.drop_last() =~= a);
            assert(paint::listed(all) =~= paint::listed(a) + ", "@ + paint::listed(b));
        } else {
            a_list_has_every_name(a, b.drop_last(), name);
            assert(paint::listed(all) =~= paint::listed(a) + ", "@ + paint::listed(b));
        }
    }
}

/// The note of a running scan says how many files, how much and how many folders; that of a map
/// at rest how old it is, what was left out on purpose, if anything, and every folder that was
/// refused, if any.
pub proof fn the_note_admits_everything(m: MapView, words: Seq<char>, excluded: Seq<char>)
    ensures
        paint::scanning_note(m, words) == "scanning  ·  "@ + text::decimal(m.tree.files as nat)
            + " files  ·  "@ + words + "  ·  "@ + text::decimal(m.folders_left as nat)
            + " folders open"@,
        ({
            let refused: Seq<char> = if m.denied.len() == 0 {
                seq![]
            } else {
                "  ·  no access: "@ + paint::listed(m.denied)
            };
            &&& paint::resting_note(m, words, None) == words + refused
            &&& paint::resting_note(m, words, Some(excluded)) == words + "  ·  "@ + excluded
                + refused
        }),
{
    let refused: Seq<char> = if m.denied.len() == 0 {
        seq![]
    } else {
        "  ·  no access: "@ + paint::listed(m.denied)
    };
    assert(paint::resting_note(m, words, None) =~= words + refused);
    assert(paint::resting_note(m, words, Some(excluded)) =~= words + "  ·  "@ + excluded + refused);
}

// ------------------------------------------------------- the footer, the tooltip

/// A share is of the whole, or of one byte where the whole is nothing; how many files is said
/// of a folder alone.
pub proof fn a_share_is_of_the_whole(size: u64, lead: Seq<char>, files: u32)
    ensures
        size > 0 ==> paint::whole_of(size) == size,
        size == 0 ==> paint::whole_of(size) == 1,
        paint::files_text(lead, true, files) == lead + text::decimal(files as nat) + " files"@,
        paint::files_text(lead, false, files).len() == 0,
        paint::FOOTER_HELP@
            == "Click a rectangle to pick it · double-click a folder to zoom in · Esc goes back \
     · right-click for the file menu"@,
{
}

/// A tooltip says where its cell is from the folder in focus, or where it is at all if it is
/// not below it, and of the bundle what it is; and then its size, its share, its files if it is
/// a folder, and whether the walk is still inside.
pub proof fn the_tooltip_tells_of_its_cell(
    m: MapView,
    cell: CellView,
    bytes: Seq<char>,
    share: Seq<char>,
)
    ensures
        ({
            let head = paint::tooltip_head(m, cell);
            let below = path::below(cell.path, path::joined(m.root, m.zoom));
            &&& cell.kind == 255 ==> head == cell.name
            &&& cell.kind != 255 && below is Some ==> head == path::path_text(below->0)
            &&& cell.kind != 255 && below is None ==> head == path::path_text(cell.path)
        }),
        ({
            let files: Seq<char> = if cell.is_dir {
                " · "@ + text::decimal(cell.files as nat) + " files"@
            } else {
                seq![]
            };
            let scanning: Seq<char> = if cell.pending {
                " · still scanning"@
            } else {
                seq![]
            };
            paint::tooltip_foot(cell, bytes, share) == bytes + " · "@ + share + "%"@ + files
                + scanning
        }),
{
}

// ----------------------------------------------------------------- the tiles

/// A bundle is painted as one and a group as a plate; anything else is a leaf, a folder or not.
/// Each has the hue of its own kind, lifted where it is an unclassified file, and is shaded by
/// its depth, up to four levels for a plate and six for a leaf.
pub proof fn a_tile_is_painted_as_what_it_is(cell: CellView)
    ensures
        ({
            let hue = kind::class_of(kind::kind_of_tag(cell.kind));
            let raised = hue == 6 && !cell.is_dir;
            match paint::paint_of(cell) {
                TilePaint::Bundle => cell.kind == 255,
                TilePaint::Plate { class, lifted, depth } => {
                    &&& cell.kind != 255
                    &&& cell.is_group
                    &&& class == hue
                    &&& lifted == raised
                    &&& depth == (if cell.depth < 4 {
                        cell.depth
                    } else {
                        4
                    })
                },
                TilePaint::Leaf { class, lifted, depth, folder } => {
                    &&& cell.kind != 255
                    &&& !cell.is_group
                    &&& class == hue
                    &&& lifted == raised
                    &&& depth == (if cell.depth < 6 {
                        cell.depth
                    } else {
                        6
                    })
                    &&& folder == cell.is_dir
                },
            }
        }),
{
}

/// The border of what is picked shows it, whatever is hovered; of what is hovered and not
/// picked, that; and any other is plain. The bundle is never shown as picked.
pub proof fn a_border_shows_what_is_picked(m: MapView, i: int)
    requires
        0 <= i < m.cells.len(),
        i <= usize::MAX,
    ensures
        ({
            let cell = m.cells[i];
            let picked = m.pick is Some && path::same(m.pick->0.path, cell.path) && cell.kind != 255;
            let hovered = m.hover is Some && m.hover->0 == i;
            &&& paint::edge_of(m, i) == Edge::Picked <==> picked
            &&& paint::edge_of(m, i) == Edge::Hovered <==> hovered && !picked
        }),
{
}

/// A group is named where it kept a strip for it, a leaf where there is room; a group in one
/// line with its size, a leaf with its size below where there is room for two.
pub proof fn a_label_names_its_cell<B: Fn(u64) -> String>(
    cell: CellView,
    room: Room,
    format_bytes: B,
    written: spec_fn(u64) -> Seq<char>,
    label: Label,
)
    requires
        forall|n: u64, s: String|
            #[trigger] call_ensures(format_bytes, (n,), s) ==> s@ == written(n),
    ensures
        cell.is_group ==> paint::worth_naming(cell, room) == room.header,
        !cell.is_group ==> paint::worth_naming(cell, room) == room.name,
        paint::is_label(cell, room, format_bytes, label) ==> {
            &&& label.header == cell.is_group
            &&& cell.is_group ==> label.line@ == cell.name + "  "@ + written(cell.size)
                && label.below is None
            &&& !cell.is_group ==> label.line@ == cell.name
            &&& !cell.is_group && room.two ==> label.below is Some && (label.below->0)@ == written(
                cell.size,
            )
            &&& !room.two ==> label.below is None
        },
{
}

/// The cells that are named are those worth naming, every one of them, in order and once.
pub proof fn every_cell_worth_it_is_named(
    cells: Seq<CellView>,
    rooms: Seq<Room>,
    n: nat,
    i: int,
)
    requires
        n <= cells.len(),
        n <= rooms.len(),
    ensures
        ({
            let named = paint::named_among(cells, rooms, n);
            &&& named.contains(i) <==> 0 <= i < n && paint::worth_naming(cells[i], rooms[i])
            &&& forall|a: int, b: int|
                0 <= a < b < named.len() ==> #[trigger] named[a] < #[trigger] named[b]
            &&& forall|a: int| 0 <= a < named.len() ==> 0 <= #[trigger] named[a] < n
        }),
    decreases n,
{
    let named = paint::named_among(cells, rooms, n);
    if n > 0 {
        every_cell_worth_it_is_named(cells, rooms, (n - 1) as nat, i);
        let before = paint::named_among(cells, rooms, (n - 1) as nat);
        if paint::worth_naming(cells[n - 1], rooms[n - 1]) {
            assert(named[before.len() as int] == n - 1);
            if before.contains(i) {
                let k = choose|k: int| 0 <= k < before.len() && before[k] == i;
                assert(named[k] == i);
            }
            if named.contains(i) && i != n - 1 {
                let k = choose|k: int| 0 <= k < named.len() && named[k] == i;
                assert(before[k] == i);
            }
        }
    }
}

} // verus!
