//! A map that may not be there.
//!
//! The window holds its widgets by reference, and a reference to a map may be empty. Every
//! operation on an empty one does nothing and answers with nothing.

use vstd::prelude::*;
use vstd::string::*;
use crate::cells;
use crate::cells::{ScanMessage, TreemapAction};
use crate::paint;
use crate::path;
use crate::path::{FilePath, PathView};
use crate::view;
use crate::view::{Effects, MapView, TreemapView};

verus! {

/// A reference to a map, which may be empty.
pub struct TreemapViewRef {
    /// What the map's actions carry.
    pub uid: u64,
    pub view: Option<TreemapView>,
}

/// The map of a reference, if it has one.
pub open spec fn map_of(r: TreemapViewRef) -> Option<MapView> {
    match r.view {
        Some(view) => Some(view@),
        None => None,
    }
}

pub open spec fn actions_view(actions: Seq<(u64, TreemapAction)>) -> Seq<(u64, cells::ActionView)> {
    Seq::new(actions.len(), |i: int| (actions[i].0, actions[i].1@))
}

/// The first action of `uid` that is one.
pub open spec fn first_action(actions: Seq<(u64, cells::ActionView)>, uid: u64) -> cells::ActionView
    decreases actions.len(),
{
    if actions.len() == 0 {
        cells::ActionView::Nothing
    } else if actions[0].0 == uid && !(actions[0].1 is Nothing) {
        actions[0].1
    } else {
        first_action(actions.skip(1), uid)
    }
}

/// The path of a pick.
pub open spec fn picked_path(m: MapView) -> Option<PathView> {
    match m.pick {
        Some(pick) => Some(pick.path),
        None => None,
    }
}

impl TreemapViewRef {
    pub fn set_root(&mut self, path: &FilePath, name: String) -> (r: Effects)
        ensures
            final(self).uid == old(self).uid,
            match map_of(*old(self)) {
                Some(m) => if view::already_shows(m, path@) {
                    &&& map_of(*final(self)) == Some(m)
                    &&& r@ == view::nothing()
                } else {
                    &&& map_of(*final(self)) == Some(view::begun(m, path@, name@))
                    &&& r@ == view::begin_effects(m, path@, false)
                },
                None => map_of(*final(self)) is None && r@ == view::nothing(),
            },
    {
        match &mut self.view {
            Some(inner) => inner.set_root(path, name),
            None => Effects::none(),
        }
    }

    pub fn stop(&mut self) -> (r: Effects)
        ensures
            final(self).uid == old(self).uid,
            match map_of(*old(self)) {
                Some(m) => {
                    &&& map_of(*final(self)) == Some(
                        MapView { cancellable: false, scanning: false, ..m },
                    )
                    &&& r@ == (view::EffectsView {
                        cancel: m.cancellable,
                        redraw: m.scanning,
                        ..view::nothing()
                    })
                },
                None => map_of(*final(self)) is None && r@ == view::nothing(),
            },
    {
        match &mut self.view {
            Some(inner) => inner.stop(),
            None => Effects::none(),
        }
    }

    pub fn drain(&mut self, messages: Vec<ScanMessage>, now: u64, clock: u64) -> (r: (
        bool,
        Effects,
    ))
        ensures
            final(self).uid == old(self).uid,
            match map_of(*old(self)) {
                Some(m) => {
                    &&& map_of(*final(self)) == Some(view::all_told(m, messages@, now))
                    &&& r.0 == (messages@.len() > 0)
                    &&& r.1@ == view::drain_effects(m, messages@, now, clock)
                },
                None => map_of(*final(self)) is None && !r.0 && r.1@ == view::nothing(),
            },
    {
        match &mut self.view {
            Some(inner) => inner.drain(messages, now, clock),
            None => (false, Effects::none()),
        }
    }

    pub fn status<B: Fn(u64) -> String, N: Fn(&FilePath) -> String>(
        &self,
        format_bytes: B,
        display_name: N,
    ) -> (r: String)
        requires
            forall|n: u64| call_requires(format_bytes, (n,)),
            forall|p: &FilePath| call_requires(display_name, (p,)),
        ensures
            match map_of(*self) {
                None => r@.len() == 0,
                Some(m) => paint::is_status(m, format_bytes, display_name, r@),
            },
    {
        match &self.view {
            Some(inner) => inner.status(format_bytes, display_name),
            None => String::new(),
        }
    }

    pub fn root(&self) -> (r: FilePath)
        ensures
            r@ == (match map_of(*self) {
                Some(m) => m.root,
                None => path::nowhere(),
            }),
    {
        match &self.view {
            Some(inner) => inner.root().copy(),
            None => FilePath::new(),
        }
    }

    pub fn set_selected(&mut self, path: Option<FilePath>) -> (r: Effects)
        ensures
            final(self).uid == old(self).uid,
            match map_of(*old(self)) {
                Some(m) => {
                    &&& map_of(*final(self)) == Some(view::selected(m, view::path_view(path)))
                    &&& r@ == (if view::is_selected(m, view::path_view(path)) {
                        view::nothing()
                    } else {
                        view::redrawn()
                    })
                },
                None => map_of(*final(self)) is None && r@ == view::nothing(),
            },
    {
        match &mut self.view {
            Some(inner) => inner.set_selected(path),
            None => Effects::none(),
        }
    }

    pub fn selection(&self) -> (r: Option<FilePath>)
        ensures
            view::path_view(r) == (match map_of(*self) {
                Some(m) => picked_path(m),
                None => None,
            }),
    {
        match &self.view {
            Some(inner) => inner.selection(),
            None => None,
        }
    }

    pub fn path_at(&self, hit: Option<usize>) -> (r: Option<FilePath>)
        ensures
            view::path_view(r) == (match map_of(*self) {
                Some(m) => view::path_under(m, hit),
                None => None,
            }),
    {
        match &self.view {
            Some(inner) => inner.path_at(hit),
            None => None,
        }
    }

    /// Measure the disk again, replacing whatever was saved.
    pub fn rescan(&mut self) -> (r: Effects)
        ensures
            final(self).uid == old(self).uid,
            match map_of(*old(self)) {
                Some(m) => {
                    &&& map_of(*final(self)) == Some(view::rescanned(m).0)
                    &&& r@ == view::rescanned(m).1
                },
                None => map_of(*final(self)) is None && r@ == view::nothing(),
            },
    {
        match &mut self.view {
            Some(inner) => inner.rescan(),
            None => Effects::none(),
        }
    }

    /// Fold finished moves and deletes into the map rather than scanning again.
    pub fn absorb_moves(&mut self, moves: &[(FilePath, Option<FilePath>)]) -> (r: Effects)
        ensures
            final(self).uid == old(self).uid,
            match map_of(*old(self)) {
                Some(m) => {
                    let (after, changed) = view::all_moved(m, view::moves_view(moves@));
                    if view::takes_corrections(m) && changed {
                        &&& map_of(*final(self)) == Some(view::corrected(after))
                        &&& r@ == view::correction_effects()
                    } else {
                        &&& map_of(*final(self)) == Some(m)
                        &&& r@ == view::nothing()
                    }
                },
                None => map_of(*final(self)) is None && r@ == view::nothing(),
            },
    {
        match &mut self.view {
            Some(inner) => inner.absorb_moves(moves),
            None => Effects::none(),
        }
    }

    /// Fold finished copies into the map rather than scanning again.
    pub fn absorb_copies(&mut self, copies: &[(FilePath, FilePath)]) -> (r: Effects)
        ensures
            final(self).uid == old(self).uid,
            match map_of(*old(self)) {
                Some(m) => {
                    let (after, changed) = view::all_copied(m, view::copies_view(copies@));
                    if view::takes_corrections(m) && changed {
                        &&& map_of(*final(self)) == Some(view::corrected(after))
                        &&& r@ == view::correction_effects()
                    } else {
                        &&& map_of(*final(self)) == Some(m)
                        &&& r@ == view::nothing()
                    }
                },
                None => map_of(*final(self)) is None && r@ == view::nothing(),
            },
    {
        match &mut self.view {
            Some(inner) => inner.absorb_copies(copies),
            None => Effects::none(),
        }
    }

    /// Step back out one zoom level. False when there was nowhere to go.
    pub fn zoom_out(&mut self) -> (r: (bool, Effects))
        ensures
            final(self).uid == old(self).uid,
            match map_of(*old(self)) {
                Some(m) => {
                    &&& map_of(*final(self)) == Some(view::zoomed_out(m))
                    &&& r.0 == (m.zoom.len() > 0)
                    &&& r.1@ == (if m.zoom.len() > 0 {
                        view::redrawn()
                    } else {
                        view::nothing()
                    })
                },
                None => map_of(*final(self)) is None && !r.0 && r.1@ == view::nothing(),
            },
    {
        match &mut self.view {
            Some(inner) => inner.zoom_out(),
            None => (false, Effects::none()),
        }
    }

    /// Zoom into whatever the last click picked, when that was a folder.
    pub fn zoom_into_selection(&mut self) -> (r: (bool, Effects))
        ensures
            final(self).uid == old(self).uid,
            match map_of(*old(self)) {
                None => map_of(*final(self)) is None && !r.0 && r.1@ == view::nothing(),
                Some(m) => match picked_path(m) {
                    None => {
                        &&& map_of(*final(self)) == Some(m)
                        &&& !r.0
                        &&& r.1@ == view::nothing()
                    },
                    Some(path) => {
                        &&& map_of(*final(self)) == Some(view::zoomed_into(m, path))
                        &&& r.0 == view::can_zoom_into(m, path)
                        &&& r.1@ == (if view::can_zoom_into(m, path) {
                            view::redrawn()
                        } else {
                            view::nothing()
                        })
                    },
                },
            },
    {
        match &mut self.view {
            None => (false, Effects::none()),
            Some(inner) => match inner.selection() {
                None => (false, Effects::none()),
                Some(path) => inner.zoom_into(&path),
            },
        }
    }

    /// The map's action out of a batch: the first of its own that is one.
    pub fn action(&self, actions: &[(u64, TreemapAction)]) -> (r: TreemapAction)
        ensures
            r@ == first_action(actions_view(actions@), self.uid),
    {
        let ghost all = actions_view(actions@);
        let mut i: usize = 0;
        assert(all.skip(0) =~= all);
        while i < actions.len()
            invariant
                i <= actions@.len(),
                all == actions_view(actions@),
                first_action(all, self.uid) == first_action(all.skip(i as int), self.uid),
            decreases actions@.len() - i,
        {
            assert(all.skip(i as int)[0] == (actions@[i as int].0, actions@[i as int].1@));
            if actions[i].0 == self.uid {
                match &actions[i].1 {
                    TreemapAction::Nothing => {},
                    action => {
                        return action.copy();
                    },
                }
            }
            assert(all.skip(i as int).skip(1) =~= all.skip(i + 1));
            i += 1;
        }
        TreemapAction::Nothing
    }
}

/// The map's action out of a batch is the first of its own that is one, and nothing where none
/// is.
pub proof fn the_first_action_of_its_own_counts(
    actions: Seq<(u64, cells::ActionView)>,
    uid: u64,
    i: int,
)
    requires
        0 <= i <= actions.len(),
        forall|j: int|
            0 <= j < i ==> (#[trigger] actions[j]).0 != uid || actions[j].1 is Nothing,
        i < actions.len() ==> actions[i].0 == uid && !(actions[i].1 is Nothing),
    ensures
        i < actions.len() ==> first_action(actions, uid) == actions[i].1,
        i == actions.len() ==> first_action(actions, uid) is Nothing,
    decreases i,
{
    if i > 0 {
        assert(actions[0].0 != uid || actions[0].1 is Nothing);
        assert forall|j: int| 0 <= j < i - 1 implies (#[trigger] actions.skip(1)[j]).0 != uid
            || actions.skip(1)[j].1 is Nothing by {
            assert(actions.skip(1)[j] == actions[j + 1]);
        }
        the_first_action_of_its_own_counts(actions.skip(1), uid, i - 1);
    }
}

} // verus!
