//! The models hold what the values hold, and leave nothing of them out.

use vstd::prelude::*;
use vstd::string::*;
use crate::cells;
use crate::cells::{ActionView, Cell, Pick, TreemapAction};
use crate::fit;
use crate::kind;
use crate::model_file;
use crate::paint;
use crate::path;
use crate::path::{FilePath, Name, NameView, Part, PartView, Step};
use crate::scan;
use crate::tool_call;
use crate::tree::Node;
use crate::view;
use crate::view::{Effects, ScanRequest};
use crate::view_ref;
use crate::view_ref::TreemapViewRef;
use crate::worker;
use crate::worker::{Action, ChatEvent, EventView};

verus! {

/// A node's model has everything of the node, and the models of all its children, in order.
pub proof fn a_node_is_modelled_whole(node: Node, i: int)
    ensures
        node@.name == node.name@,
        node@.size == node.size,
        node@.files == node.files,
        node@.kind == node.kind,
        node@.is_dir == node.is_dir,
        node@.pending == node.pending,
        node@.denied == node.denied,
        node@.children.len() == node.children@.len(),
        0 <= i < node.children@.len() ==> node@.children[i] == node.children@[i]@,
{
}

/// A cell's model has everything of the cell, and the models of cells are one for each.
pub proof fn a_cell_is_modelled_whole(cell: Cell, all: Seq<Cell>, i: int)
    ensures
        cell@.path == cell.path@,
        cell@.name == cell.name@,
        cell@.size == cell.size,
        cell@.files == cell.files,
        cell@.kind == cell.kind,
        cell@.depth == cell.depth,
        cell@.is_dir == cell.is_dir,
        cell@.is_group == cell.is_group,
        cell@.pending == cell.pending,
        cell@.extra == cell.extra,
        cell@.is_bundle() == (cell.kind == 255),
        cells::cells_view(all).len() == all.len(),
        0 <= i < all.len() ==> cells::cells_view(all)[i] == all[i]@,
{
}

/// A pick's model has everything of the pick.
pub proof fn a_pick_is_modelled_whole(pick: Pick)
    ensures
        pick@.path == pick.path@,
        pick@.size == pick.size,
        pick@.files == pick.files,
        pick@.is_dir == pick.is_dir,
        pick@.bundle == pick.bundle,
        cells::pick_view(Some(pick)) == Some(pick@),
        cells::pick_view(None) is None,
{
}

/// A path's model has every step of the path as it is written.
pub proof fn a_path_is_modelled_whole(p: FilePath, step: Step, i: int)
    ensures
        p@.steps.len() == p.steps@.len(),
        0 <= i < p.steps@.len() ==> p@.steps[i] == p.steps@[i]@,
        p@.tail == p.tail@,
        p@.bar == p.bar,
        step@.lead == step.lead@,
        step@.part == step.part@,
        view::path_view(Some(p)) == Some(p@),
        view::path_view(None) is None,
{
}

/// A part's model has everything of the part, and so has a name's.
pub proof fn a_part_is_modelled_whole(part: Part, name: Name)
    ensures
        match part {
            Part::Prefix { key, name, drive } => part@ == (PartView::Prefix {
                key: key@,
                name: name@,
                drive,
            }),
            Part::Root { written } => part@ == (PartView::Root { written: written@ }),
            Part::Current => part@ is Current,
            Part::Parent => part@ is Parent,
            Part::Name(name) => part@ == PartView::Name(name@),
        },
        match name {
            Name::Text(text) => name@ == NameView::Text(text@),
            Name::Odd { units, shown } => name@ == (NameView::Odd { units: units@, shown: shown@ }),
        },
{
}

/// Lists of names, of moves, of copies and of arguments are modelled one for each.
pub proof fn lists_are_modelled_one_for_each(
    names: Seq<String>,
    parts: Seq<Part>,
    moves: Seq<(FilePath, Option<FilePath>)>,
    copies: Seq<(FilePath, FilePath)>,
    args: Seq<(String, String)>,
    i: int,
)
    ensures
        path::names_view(names).len() == names.len(),
        0 <= i < names.len() ==> path::names_view(names)[i] == names[i]@,
        path::parts_view(parts).len() == parts.len(),
        0 <= i < parts.len() ==> path::parts_view(parts)[i] == parts[i]@,
        view::moves_view(moves).len() == moves.len(),
        0 <= i < moves.len() ==> view::moves_view(moves)[i] == (
            moves[i].0@,
            view::path_view(moves[i].1),
        ),
        view::copies_view(copies).len() == copies.len(),
        0 <= i < copies.len() ==> view::copies_view(copies)[i] == (copies[i].0@, copies[i].1@),
        tool_call::args_view(args).len() == args.len(),
        0 <= i < args.len() ==> tool_call::args_view(args)[i] == (args[i].0@, args[i].1@),
{
}

/// Texts, actions, calls and a map that may not be there are modelled one for each.
pub proof fn the_rest_is_modelled_whole(
    text: String,
    actions: Seq<(u64, TreemapAction)>,
    calls: Seq<(String, Vec<(String, String)>)>,
    map: TreemapViewRef,
    i: int,
)
    ensures
        view::text_view(Some(text)) == Some(text@),
        view::text_view(None) is None,
        view_ref::actions_view(actions).len() == actions.len(),
        0 <= i < actions.len() ==> view_ref::actions_view(actions)[i] == (
            actions[i].0,
            actions[i].1@,
        ),
        worker::calls_view(calls).len() == calls.len(),
        0 <= i < calls.len() ==> worker::calls_view(calls)[i] == (
            calls[i].0@,
            tool_call::args_view(calls[i].1@),
        ),
        map.view matches Some(m) ==> view_ref::map_of(map) == Some(m@),
        map.view is None ==> view_ref::map_of(map) is None,
        map.view matches Some(m) ==> view_ref::picked_path(m@) == (if m@.pick is Some {
            Some(m@.pick->0.path)
        } else {
            None
        }),
{
}

/// The limits and the names that the app goes by.
pub proof fn the_limits_are_these()
    ensures
        worker::MAX_CONTEXT == 16384,
        worker::MAX_NEW_TOKENS == 640,
        worker::MIN_REMAINING_CONTEXT == 256,
        view::RELAYOUT_EVERY == 110,
        view::DENIED_SHOWN == 4,
        scan::SIGNAL_EVERY == 45,
        paint::LABEL_BUDGET == 700,
        fit::TRIES == 4,
        kind::KIND_BUNDLE == 255,
        kind::OTHER_CLASS == 6,
        kind::KIND_CLASSES == 7,
        model_file::MODEL_FILE@ == "local/models/Qwen3.5-9B-UD-Q4_K_XL.gguf"@,
        model_file::MODEL_ENV@ == "MPFILES_CHAT_MODEL"@,
{
}

/// What an operation asks for is modelled whole, and so is an action.
pub proof fn effects_are_modelled_whole(e: Effects, request: ScanRequest, action: TreemapAction)
    ensures
        e@.redraw == e.redraw,
        e@.next_frame == e.next_frame,
        e@.save == e.save,
        e@.forget_saved == e.forget_saved,
        e@.cancel == e.cancel,
        e.scan matches Some(scan) ==> e@.scan == Some(scan@),
        e.scan is None ==> e@.scan is None,
        e@.action == e.action@,
        request@.generation == request.generation,
        request@.root == request.root@,
        request@.fresh == request.fresh,
        match action {
            TreemapAction::Selected(p) => action@ == ActionView::Selected(p@),
            TreemapAction::Reveal(p) => action@ == ActionView::Reveal(p@),
            TreemapAction::Vanished(p) => action@ == ActionView::Vanished(p@),
            TreemapAction::Nothing => action@ is Nothing,
        },
{
}

/// What the worker says and does is modelled whole.
pub proof fn events_are_modelled_whole<F>(
    event: ChatEvent<F>,
    action: Action,
    all: Seq<ChatEvent<F>>,
    i: int,
)
    ensures
        worker::events_view(all).len() == all.len(),
        0 <= i < all.len() ==> worker::events_view(all)[i] == worker::event_view(all[i]),
        match event {
            ChatEvent::Loading { phase, fraction } => worker::event_view(event)
                == (EventView::Loading { phase: phase@, fraction }),
            ChatEvent::Ready { prefill_tokens, secs } => worker::event_view(event)
                == (EventView::Ready { prefill_tokens, secs }),
            ChatEvent::Failed(text) => worker::event_view(event) == EventView::<F>::Failed(text@),
            ChatEvent::Delta(text) => worker::event_view(event) == EventView::<F>::Delta(text@),
            ChatEvent::ToolCall { name, args } => worker::event_view(event)
                == EventView::<F>::ToolCall((name@, tool_call::args_view(args@))),
            ChatEvent::TurnDone { tool_calls, tokens, secs, context_used, context_max } => {
                worker::event_view(event) == (EventView::TurnDone {
                    tool_calls: tool_calls as nat,
                    tokens: tokens as nat,
                    secs,
                    context_used,
                    context_max,
                })
            },
            ChatEvent::ContextFull => worker::event_view(event) is ContextFull,
        },
        match action {
            Action::Load => worker::action_view(action) is Load,
            Action::Tokenize(text) => worker::action_view(action) == worker::ActionView::Tokenize(
                text@,
            ),
            Action::Append => worker::action_view(action) is Append,
            Action::Receive => worker::action_view(action) is Receive,
            Action::Check => worker::action_view(action) is Check,
            Action::NextToken => worker::action_view(action) is NextToken,
            Action::Decode(token) => worker::action_view(action) == worker::ActionView::Decode(
                token,
            ),
            Action::Close(token) => worker::action_view(action) == worker::ActionView::Close(token),
            Action::Stop => worker::action_view(action) is Stop,
        },
{
}

} // verus!
