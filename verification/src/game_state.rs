//! Game state machine: tick counter, team, mode and termination state.
//! Each tick the runner advances the tick, runs the phases, then checks
//! whether the simulation should stop.
use vstd::prelude::*;
use crate::enums::SimMode;

verus! {

/// Aggregate simulation state; `T` is the team.
#[derive(Debug)]
pub struct GameState<T> {
    /// Current tick, starting at 0.
    pub current_tick: u64,
    pub team: T,
    pub mode: SimMode,
    /// Whether the simulation has been marked as finished.
    pub is_terminated: bool,
    /// Why it finished.
    pub termination_reason: Option<String>,
}

/// The reason a check gives, in the order the conditions are checked:
/// all enemies defeated, all characters defeated, the tick limit reached,
/// the action lists exhausted; none when the simulation goes on.
pub open spec fn termination_cause(
    enemies_defeated: bool,
    team_defeated: bool,
    current_tick: u64,
    max_tick: u64,
    apl_exhausted: bool,
) -> Option<Seq<char>> {
    if enemies_defeated {
        Some("All enemies defeated"@)
    } else if team_defeated {
        Some("All characters defeated"@)
    } else if current_tick >= max_tick {
        Some("Max tick reached"@)
    } else if apl_exhausted {
        Some("APL tracks exhausted"@)
    } else {
        None
    }
}

/// Law: a simulation goes on exactly while no enemy side, no team side,
/// no tick limit and no exhausted plan ends it; when several hold, the
/// enemies' defeat is reported first, then the team's, then the tick
/// limit, then the plan.
pub proof fn lemma_termination_order(
    enemies_defeated: bool,
    team_defeated: bool,
    current_tick: u64,
    max_tick: u64,
    apl_exhausted: bool,
)
    ensures
        termination_cause(enemies_defeated, team_defeated, current_tick, max_tick, apl_exhausted) is None
            <==> (!enemies_defeated && !team_defeated && current_tick < max_tick && !apl_exhausted),
        enemies_defeated ==> termination_cause(enemies_defeated, team_defeated, current_tick, max_tick, apl_exhausted)
            == Some("All enemies defeated"@),
        !enemies_defeated && team_defeated ==> termination_cause(enemies_defeated, team_defeated, current_tick, max_tick, apl_exhausted)
            == Some("All characters defeated"@),
        !enemies_defeated && !team_defeated && current_tick >= max_tick
            ==> termination_cause(enemies_defeated, team_defeated, current_tick, max_tick, apl_exhausted) == Some("Max tick reached"@),
        !enemies_defeated && !team_defeated && current_tick < max_tick && apl_exhausted
            ==> termination_cause(enemies_defeated, team_defeated, current_tick, max_tick, apl_exhausted) == Some("APL tracks exhausted"@),
{
}

/// The reason of a state, as plain text.
pub open spec fn reason_view(r: Option<String>) -> Option<Seq<char>> {
    match r {
        Some(s) => Some(s@),
        None => None,
    }
}

impl<T> GameState<T> {
    /// A state at tick 0, not terminated.
    pub fn new(team: T, mode: SimMode) -> (s: Self)
        ensures
            s.current_tick == 0,
            s.team == team,
            s.mode == mode,
            !s.is_terminated,
            s.termination_reason is None,
    {
        GameState { current_tick: 0, team, mode, is_terminated: false, termination_reason: None }
    }

    /// Advance the tick counter by one.
    pub fn advance_tick(&mut self)
        requires
            old(self).current_tick < u64::MAX,
        ensures
            final(self).current_tick == old(self).current_tick + 1,
            final(self).team == old(self).team,
            final(self).mode == old(self).mode,
            final(self).is_terminated == old(self).is_terminated,
            final(self).termination_reason == old(self).termination_reason,
    {
        self.current_tick = self.current_tick + 1;
    }

    /// Mark the simulation as finished, with a reason (a later reason
    /// replaces an earlier one).
    pub fn terminate(&mut self, reason: &str)
        ensures
            final(self).is_terminated,
            reason_view(final(self).termination_reason) == Some(reason@),
            final(self).current_tick == old(self).current_tick,
            final(self).team == old(self).team,
            final(self).mode == old(self).mode,
    {
        self.is_terminated = true;
        self.termination_reason = Some(String::from_str(reason));
    }

    /// The end of a tick in the run loop: when the plan has tracks and all
    /// of them are exhausted, the simulation finishes with "APL tracks
    /// exhausted" and stops; otherwise the tick advances. Returns whether
    /// it stops.
    pub fn finish_tick(&mut self, plan_has_tracks: bool, apl_exhausted: bool) -> (stop: bool)
        requires
            (plan_has_tracks && apl_exhausted) || old(self).current_tick < u64::MAX,
        ensures
            stop == (plan_has_tracks && apl_exhausted),
            stop ==> final(self).is_terminated
                && reason_view(final(self).termination_reason) == Some("APL tracks exhausted"@)
                && final(self).current_tick == old(self).current_tick,
            !stop ==> final(self).current_tick == old(self).current_tick + 1
                && final(self).is_terminated == old(self).is_terminated
                && final(self).termination_reason == old(self).termination_reason,
            final(self).team == old(self).team,
            final(self).mode == old(self).mode,
    {
        if plan_has_tracks && apl_exhausted {
            self.terminate("APL tracks exhausted");
            true
        } else {
            self.advance_tick();
            false
        }
    }

    /// Check the termination conditions in order (see
    /// `termination_cause`) and mark the state finished when one holds.
    /// A state already finished stays as it is. Returns whether the
    /// simulation should stop.
    pub fn check_termination(&mut self, enemies_defeated: bool, team_defeated: bool, max_tick: u64, apl_exhausted: bool) -> (r: bool)
        ensures
            old(self).is_terminated ==> final(self).is_terminated == old(self).is_terminated
                && final(self).termination_reason == old(self).termination_reason,
            !old(self).is_terminated ==> match termination_cause(enemies_defeated, team_defeated, old(self).current_tick, max_tick, apl_exhausted) {
                Some(c) => final(self).is_terminated && reason_view(final(self).termination_reason) == Some(c),
                None => final(self).is_terminated == old(self).is_terminated
                    && final(self).termination_reason == old(self).termination_reason,
            },
            r == final(self).is_terminated,
            final(self).current_tick == old(self).current_tick,
            final(self).team == old(self).team,
            final(self).mode == old(self).mode,
    {
        if self.is_terminated {
            return true;
        }
        if enemies_defeated {
            self.terminate("All enemies defeated");
            return true;
        }
        if team_defeated {
            self.terminate("All characters defeated");
            return true;
        }
        if self.current_tick >= max_tick {
            self.terminate("Max tick reached");
            return true;
        }
        if apl_exhausted {
            self.terminate("APL tracks exhausted");
            return true;
        }
        false
    }
}

} // verus!
