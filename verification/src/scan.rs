//! The scan's side of the map: what its worker sends, and when it wakes the view.

use vstd::prelude::*;
use crate::cells::{Outcome, ScanMessage};
use crate::tree::{Node, ScanStep};

verus! {

/// How often the worker wakes the view, in milliseconds. The steps themselves queue freely;
/// this only bounds the signals.
pub const SIGNAL_EVERY: u64 = 45;

/// A map that was saved.
pub struct SavedMap {
    pub tree: Node,
    /// When it was measured, in seconds since the epoch.
    pub scanned_at: u64,
}

/// Whether a saved map is looked for first. Never where the disk is to be measured afresh,
/// nor on a disk that is only a demonstration.
pub fn tries_saved(fresh: bool, demo: bool) -> (r: bool)
    ensures
        r == (!fresh && !demo),
{
    !fresh && !demo
}

/// A step of the walk, as a message.
pub fn step_message(generation: u64, step: ScanStep) -> (r: ScanMessage)
    ensures
        r == (ScanMessage { generation, step: Some(step), finished: None }),
{
    ScanMessage { generation, step: Some(step), finished: None }
}

/// Whether these messages carry a saved map: the whole tree in the place of the root, and
/// that it was loaded rather than measured.
pub open spec fn carries_saved(messages: Seq<ScanMessage>, generation: u64, saved: SavedMap) -> bool {
    &&& messages.len() == 2
    &&& messages[0].generation == generation
    &&& messages[0].finished is None
    &&& messages[0].step matches Some(ScanStep::Closed { at, node }) && at@.len() == 0 && node
        == saved.tree
    &&& messages[1] == (ScanMessage {
        generation,
        step: None,
        finished: Some(Outcome::Loaded { scanned_at: saved.scanned_at }),
    })
}

/// A saved map, as messages: the whole tree in the place of the root, and that it was loaded
/// rather than measured.
pub fn saved_messages(generation: u64, saved: SavedMap) -> (r: Vec<ScanMessage>)
    ensures
        carries_saved(r@, generation, saved),
{
    let mut r: Vec<ScanMessage> = Vec::new();
    r.push(step_message(generation, ScanStep::Closed { at: Vec::new(), node: saved.tree }));
    r.push(
        ScanMessage {
            generation,
            step: None,
            finished: Some(Outcome::Loaded { scanned_at: saved.scanned_at }),
        },
    );
    r
}

/// How a request for a folder's map is answered.
pub enum Opening {
    /// Send these, and be done: nothing is read off the disk.
    Deliver(Vec<ScanMessage>),
    /// Walk the disk.
    Walk,
}

/// How a request is answered, where `saved` is the map that was found saved: it is delivered
/// and no walk follows; where there is none, the disk is walked.
pub fn opening(generation: u64, saved: Option<SavedMap>) -> (r: Opening)
    ensures
        match saved {
            Some(s) => r matches Opening::Deliver(ms) && carries_saved(ms@, generation, s),
            None => r is Walk,
        },
{
    match saved {
        Some(saved) => Opening::Deliver(saved_messages(generation, saved)),
        None => Opening::Walk,
    }
}

/// The end of a walk, as a message.
pub fn end_message(generation: u64, walked: bool) -> (r: ScanMessage)
    ensures
        r == (ScanMessage {
            generation,
            step: None,
            finished: Some(
                if walked {
                    Outcome::Scanned
                } else {
                    Outcome::Failed
                },
            ),
        }),
{
    ScanMessage {
        generation,
        step: None,
        finished: Some(
            if walked {
                Outcome::Scanned
            } else {
                Outcome::Failed
            },
        ),
    }
}

/// Whether the view is woken at `now`, where it is not before `due`: then when it may be
/// woken next.
pub fn signal_at(now: u64, due: u64) -> (r: Option<u64>)
    requires
        now + SIGNAL_EVERY <= u64::MAX,
    ensures
        r == (if now >= due {
            Some((now + SIGNAL_EVERY) as u64)
        } else {
            None
        }),
{
    if now >= due {
        Some(now + SIGNAL_EVERY)
    } else {
        None
    }
}

} // verus!
