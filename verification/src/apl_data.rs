//! Action priority lists as loaded from data: per-character tracks of
//! actions, each scheduled at a tick.
use vstd::prelude::*;

verus! {

/// One action of a track: which action to run and from which tick on.
#[derive(Debug)]
pub struct ActionEntry {
    pub action_id: String,
    /// Tick at which the action should start.
    pub at: u64,
}

impl View for ActionEntry {
    type V = (Seq<char>, u64);

    open spec fn view(&self) -> (Seq<char>, u64) {
        (self.action_id@, self.at)
    }
}

impl Clone for ActionEntry {
    fn clone(&self) -> (r: Self)
        ensures
            r == *self,
    {
        ActionEntry { action_id: self.action_id.clone(), at: self.at }
    }
}

/// The entries of a list of actions, by their views.
pub open spec fn entries_view(s: Seq<ActionEntry>) -> Seq<(Seq<char>, u64)> {
    s.map_values(|e: ActionEntry| e@)
}

/// One track of a plan: the action sequence of one character.
#[derive(Debug)]
pub struct Track {
    pub track_id: String,
    /// Character this track is assigned to.
    pub char_id: String,
    pub actions: Vec<ActionEntry>,
}

/// A full action priority list.
#[derive(Debug)]
pub struct APLData {
    pub tracks: Vec<Track>,
}

} // verus!
