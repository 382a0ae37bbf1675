//! Action-list scheduler: runs each character's track of skills through
//! its life cycle (due check, prerequisite, start, animation frames, hit
//! frames, charging, completion) one tick at a time.
//!
//! Each tick the caller steps every track in order. A track whose next
//! action is due and allowed answers `TrackStep::Ready`; the caller then
//! checks and pays the character's resources and either starts the action
//! (`start_action`), reports the character missing, or leaves the track
//! as it is so the action is tried again on the next tick.
use vstd::prelude::*;
use crate::apl_data::{APLData, ActionEntry, Track, entries_view};
use crate::skill::{SkillTiming, SkillView, find_skill, lemma_skill_index_of, skill_index_of, skills_view};
use crate::validator::{ResourceType, ValidationError};

verus! {

/// A validated and dispatched action, ready to be executed by the runner.
#[derive(Debug)]
pub struct SkillAction {
    pub action_id: String,
    pub source_id: String,
    pub target_id: String,
    pub started_at_tick: u64,
}

impl Clone for SkillAction {
    fn clone(&self) -> (r: Self)
        ensures
            r == *self,
    {
        SkillAction {
            action_id: self.action_id.clone(),
            source_id: self.source_id.clone(),
            target_id: self.target_id.clone(),
            started_at_tick: self.started_at_tick,
        }
    }
}

/// A skill action as plain values.
pub struct ActionView {
    pub action_id: Seq<char>,
    pub source_id: Seq<char>,
    pub target_id: Seq<char>,
    pub started_at_tick: u64,
}

impl View for SkillAction {
    type V = ActionView;

    open spec fn view(&self) -> ActionView {
        ActionView {
            action_id: self.action_id@,
            source_id: self.source_id@,
            target_id: self.target_id@,
            started_at_tick: self.started_at_tick,
        }
    }
}

/// A list of skill actions by their views.
pub open spec fn actions_view(s: Seq<SkillAction>) -> Seq<ActionView> {
    s.map_values(|a: SkillAction| a@)
}

/// Events produced while actions run; drained with `get_pending_actions`.
#[derive(Debug)]
pub enum PendingAction {
    /// The skill started (animation begins).
    ActionStarted { char_id: String, action_id: String },
    /// A hit frame was reached; `hit_index` is the position of the hit in
    /// the skill's damage list.
    HitFrameTriggered { char_id: String, action_id: String, frame: u64, hit_index: usize },
    /// The skill's animation finished.
    ActionCompleted { char_id: String, action_id: String },
    /// The action could not run.
    ActionFailed { char_id: String, action_id: String, reason: String },
    /// A chargeable skill started charging.
    ChargingStarted { char_id: String, action_id: String, charge_duration: u64 },
    /// Charging finished and the variant action starts.
    ChargingCompleted { char_id: String, action_id: String, variant_action_id: String },
}

/// An event as plain values.
pub enum EventView {
    Started { char_id: Seq<char>, action_id: Seq<char> },
    Hit { char_id: Seq<char>, action_id: Seq<char>, frame: u64, hit_index: usize },
    Completed { char_id: Seq<char>, action_id: Seq<char> },
    Failed { char_id: Seq<char>, action_id: Seq<char>, reason: Seq<char> },
    ChargingStarted { char_id: Seq<char>, action_id: Seq<char>, charge_duration: u64 },
    ChargingCompleted { char_id: Seq<char>, action_id: Seq<char>, variant_action_id: Seq<char> },
}

impl View for PendingAction {
    type V = EventView;

    open spec fn view(&self) -> EventView {
        match self {
            PendingAction::ActionStarted { char_id, action_id } => EventView::Started {
                char_id: char_id@,
                action_id: action_id@,
            },
            PendingAction::HitFrameTriggered { char_id, action_id, frame, hit_index } => EventView::Hit {
                char_id: char_id@,
                action_id: action_id@,
                frame: *frame,
                hit_index: *hit_index,
            },
            PendingAction::ActionCompleted { char_id, action_id } => EventView::Completed {
                char_id: char_id@,
                action_id: action_id@,
            },
            PendingAction::ActionFailed { char_id, action_id, reason } => EventView::Failed {
                char_id: char_id@,
                action_id: action_id@,
                reason: reason@,
            },
            PendingAction::ChargingStarted { char_id, action_id, charge_duration } => EventView::ChargingStarted {
                char_id: char_id@,
                action_id: action_id@,
                charge_duration: *charge_duration,
            },
            PendingAction::ChargingCompleted { char_id, action_id, variant_action_id } => EventView::ChargingCompleted {
                char_id: char_id@,
                action_id: action_id@,
                variant_action_id: variant_action_id@,
            },
        }
    }
}

/// A list of events by their views.
pub open spec fn events_view(s: Seq<PendingAction>) -> Seq<EventView> {
    s.map_values(|e: PendingAction| e@)
}

/// What a track is doing.
#[derive(Debug)]
pub enum AnimationState {
    /// No action running.
    Idle,
    /// A skill's animation is playing; `hit_frames` holds the hits not yet
    /// fired as (frame, position in the skill's damage list).
    Animating { action_id: String, total_frames: u64, elapsed_frames: u64, hit_frames: Vec<(u64, usize)> },
    /// A chargeable action is charging.
    Charging { action_id: String, charge_elapsed: u64, charge_duration: u64, variant_action_id: String },
}

/// What a track is doing, as plain values.
pub enum AnimView {
    Idle,
    Animating { action_id: Seq<char>, total_frames: u64, elapsed_frames: u64, hit_frames: Seq<(u64, usize)> },
    Charging { action_id: Seq<char>, charge_elapsed: u64, charge_duration: u64, variant_action_id: Seq<char> },
}

impl View for AnimationState {
    type V = AnimView;

    open spec fn view(&self) -> AnimView {
        match self {
            AnimationState::Idle => AnimView::Idle,
            AnimationState::Animating { action_id, total_frames, elapsed_frames, hit_frames } => AnimView::Animating {
                action_id: action_id@,
                total_frames: *total_frames,
                elapsed_frames: *elapsed_frames,
                hit_frames: hit_frames@,
            },
            AnimationState::Charging { action_id, charge_elapsed, charge_duration, variant_action_id } => AnimView::Charging {
                action_id: action_id@,
                charge_elapsed: *charge_elapsed,
                charge_duration: *charge_duration,
                variant_action_id: variant_action_id@,
            },
        }
    }
}

/// Run-time state of one track.
#[derive(Debug)]
pub struct TrackState {
    pub track_id: String,
    pub char_id: String,
    actions: Vec<ActionEntry>,
    /// Index in the track of the next action to consider.
    pub next_action_index: usize,
    /// The action started most recently (for prerequisite checks).
    pub last_completed_action_id: Option<String>,
    pub animation: AnimationState,
    /// Set once the track has been held back by a prerequisite.
    pub waiting_for_prerequisite: bool,
}

/// A track's state as plain values.
pub struct TrackView {
    pub track_id: Seq<char>,
    pub char_id: Seq<char>,
    pub actions: Seq<(Seq<char>, u64)>,
    pub next: nat,
    pub last_completed: Option<Seq<char>>,
    pub anim: AnimView,
    pub waiting: bool,
}

impl View for TrackState {
    type V = TrackView;

    closed spec fn view(&self) -> TrackView {
        TrackView {
            track_id: self.track_id@,
            char_id: self.char_id@,
            actions: entries_view(self.actions@),
            next: self.next_action_index as nat,
            last_completed: match self.last_completed_action_id {
                Some(a) => Some(a@),
                None => None,
            },
            anim: self.animation@,
            waiting: self.waiting_for_prerequisite,
        }
    }
}

/// Positions of a skill's hits, paired with their frames.
pub open spec fn indexed_hits(frames: Seq<u64>) -> Seq<(u64, usize)> {
    Seq::new(frames.len(), |i: int| (frames[i], i as usize))
}

/// The hits of a list that fall on `frame`, in order.
pub open spec fn hits_at(hits: Seq<(u64, usize)>, frame: u64) -> Seq<(u64, usize)>
    decreases hits.len(),
{
    if hits.len() == 0 {
        hits
    } else {
        let rest = hits_at(hits.drop_last(), frame);
        if hits.last().0 == frame { rest.push(hits.last()) } else { rest }
    }
}

/// The hits of a list that do not fall on `frame`, in order.
pub open spec fn hits_not_at(hits: Seq<(u64, usize)>, frame: u64) -> Seq<(u64, usize)>
    decreases hits.len(),
{
    if hits.len() == 0 {
        hits
    } else {
        let rest = hits_not_at(hits.drop_last(), frame);
        if hits.last().0 != frame { rest.push(hits.last()) } else { rest }
    }
}

/// The hit events of a list of hits.
pub open spec fn hit_events(char_id: Seq<char>, action_id: Seq<char>, hits: Seq<(u64, usize)>) -> Seq<EventView> {
    Seq::new(
        hits.len(),
        |i: int| EventView::Hit { char_id: char_id, action_id: action_id, frame: hits[i].0, hit_index: hits[i].1 },
    )
}

/// What stepping a track answers.
#[derive(Debug, Clone, Copy, PartialEq, Eq, Structural)]
pub enum TrackStep {
    /// The track's work for this tick is done.
    Done,
    /// The next action is due and allowed; it is the skill at `skill_index`.
    Ready { skill_index: usize },
}

/// The track is idle with no action left.
pub open spec fn track_exhausted(t: TrackView) -> bool {
    t.next >= t.actions.len() && t.anim is Idle
}

/// `"Unknown action: <id>"`.
pub open spec fn unknown_action_msg(id: Seq<char>) -> Seq<char> {
    "Unknown action: "@ + id
}

/// `"Variant '<id>' not found"`.
pub open spec fn variant_missing_msg(id: Seq<char>) -> Seq<char> {
    "Variant '"@ + id + "' not found"@
}

/// `"Character '<id>' not in team"`.
pub open spec fn missing_character_msg(id: Seq<char>) -> Seq<char> {
    "Character '"@ + id + "' not in team"@
}

/// One tick of an idle track: skip what is not due, fail unknown actions,
/// hold back on a missing prerequisite, or report the due action ready.
pub open spec fn idle_step(t: TrackView, tick: u64, skills: Seq<SkillView>) -> (TrackView, Seq<EventView>, TrackStep) {
    if t.next >= t.actions.len() {
        (t, Seq::empty(), TrackStep::Done)
    } else {
        let entry = t.actions[t.next as int];
        if entry.1 > tick {
            (t, Seq::empty(), TrackStep::Done)
        } else {
            match skill_index_of(skills, entry.0) {
                None => (
                    TrackView { next: t.next + 1, ..t },
                    seq![EventView::Failed { char_id: t.char_id, action_id: entry.0, reason: unknown_action_msg(entry.0) }],
                    TrackStep::Done,
                ),
                Some(i) => match skills[i].prerequisite {
                    Some(p) if t.last_completed != Some(p) => (
                        TrackView { waiting: true, ..t },
                        Seq::empty(),
                        TrackStep::Done,
                    ),
                    _ => (t, Seq::empty(), TrackStep::Ready { skill_index: i as usize }),
                },
            }
        }
    }
}

/// One tick of a track.
pub open spec fn step_view(t: TrackView, tick: u64, skills: Seq<SkillView>) -> (TrackView, Seq<EventView>, TrackStep) {
    match t.anim {
        AnimView::Animating { action_id, total_frames, elapsed_frames, hit_frames } => {
            if elapsed_frames >= total_frames {
                (
                    TrackView { anim: AnimView::Idle, ..t },
                    seq![EventView::Completed { char_id: t.char_id, action_id: action_id }],
                    TrackStep::Done,
                )
            } else {
                let e = (elapsed_frames + 1) as u64;
                (
                    TrackView {
                        anim: AnimView::Animating {
                            action_id: action_id,
                            total_frames: total_frames,
                            elapsed_frames: e,
                            hit_frames: hits_not_at(hit_frames, e),
                        },
                        ..t
                    },
                    hit_events(t.char_id, action_id, hits_at(hit_frames, e)),
                    TrackStep::Done,
                )
            }
        },
        AnimView::Charging { action_id, charge_elapsed, charge_duration, variant_action_id } => {
            if charge_elapsed + 1 >= charge_duration {
                match skill_index_of(skills, variant_action_id) {
                    Some(i) => {
                        let hits = indexed_hits(skills[i].damage_frames);
                        (
                            TrackView {
                                anim: AnimView::Animating {
                                    action_id: variant_action_id,
                                    total_frames: skills[i].animation_frames,
                                    elapsed_frames: 1,
                                    hit_frames: hits,
                                },
                                ..t
                            },
                            hit_events(t.char_id, variant_action_id, hits_at(hits, 1)) + seq![
                                EventView::ChargingCompleted {
                                    char_id: t.char_id,
                                    action_id: action_id,
                                    variant_action_id: variant_action_id,
                                },
                                EventView::Started { char_id: t.char_id, action_id: variant_action_id },
                            ],
                            TrackStep::Done,
                        )
                    },
                    None => (
                        TrackView { anim: AnimView::Idle, ..t },
                        seq![EventView::Failed {
                            char_id: t.char_id,
                            action_id: variant_action_id,
                            reason: variant_missing_msg(variant_action_id),
                        }],
                        TrackStep::Done,
                    ),
                }
            } else {
                (
                    TrackView {
                        anim: AnimView::Charging {
                            action_id: action_id,
                            charge_elapsed: (charge_elapsed + 1) as u64,
                            charge_duration: charge_duration,
                            variant_action_id: variant_action_id,
                        },
                        ..t
                    },
                    Seq::empty(),
                    TrackStep::Done,
                )
            }
        },
        AnimView::Idle => idle_step(t, tick, skills),
    }
}

/// Starting the next action of an idle track with skill `s`: the action
/// counts as the last one done, the track moves on, and the skill either
/// charges, completes at once (at most one frame), or starts animating.
/// Hits on frame 1 fire at the start.
pub open spec fn start_view(t: TrackView, s: SkillView) -> (TrackView, Seq<EventView>) {
    let a = t.actions[t.next as int].0;
    let c = t.char_id;
    let moved = TrackView { last_completed: Some(a), next: t.next + 1, ..t };
    let hits = indexed_hits(s.damage_frames);
    if s.charge_branches.len() > 0 {
        let b = s.charge_branches[0];
        (
            TrackView {
                anim: AnimView::Charging {
                    action_id: s.action_id,
                    charge_elapsed: 0,
                    charge_duration: b.0,
                    variant_action_id: b.1,
                },
                ..moved
            },
            seq![EventView::ChargingStarted { char_id: c, action_id: a, charge_duration: b.0 }],
        )
    } else if s.animation_frames <= 1 {
        (
            moved,
            hit_events(c, a, hits_at(hits, 1)) + seq![
                EventView::Started { char_id: c, action_id: a },
                EventView::Completed { char_id: c, action_id: a },
            ],
        )
    } else {
        (
            TrackView {
                anim: AnimView::Animating {
                    action_id: s.action_id,
                    total_frames: s.animation_frames,
                    elapsed_frames: 1,
                    hit_frames: hits,
                },
                ..moved
            },
            hit_events(c, a, hits_at(hits, 1)) + seq![EventView::Started { char_id: c, action_id: a }],
        )
    }
}

/// The hit list of a skill: each damage frame paired with its position.
fn indexed_hit_list(frames: &Vec<u64>) -> (r: Vec<(u64, usize)>)
    ensures
        r@ == indexed_hits(frames@),
{
    let mut r: Vec<(u64, usize)> = Vec::new();
    let mut i: usize = 0;
    while i < frames.len()
        invariant
            i <= frames.len(),
            r@ == indexed_hits(frames@.take(i as int)),
        decreases frames.len() - i,
    {
        r.push((frames[i], i));
        i = i + 1;
        assert(r@ =~= indexed_hits(frames@.take(i as int)));
    }
    assert(frames@.take(i as int) =~= frames@);
    r
}

/// Push the hit events of the hits in `hits` that fall on `frame`.
fn emit_hits_on_frame(
    pending: &mut Vec<PendingAction>,
    char_id: &String,
    action_id: &String,
    hits: &Vec<(u64, usize)>,
    frame: u64,
)
    ensures
        events_view(final(pending)@) == events_view(old(pending)@) + hit_events(char_id@, action_id@, hits_at(hits@, frame)),
{
    let ghost start = events_view(pending@);
    let mut i: usize = 0;
    while i < hits.len()
        invariant
            i <= hits.len(),
            events_view(pending@) == start + hit_events(char_id@, action_id@, hits_at(hits@.take(i as int), frame)),
        decreases hits.len() - i,
    {
        let (f, k) = hits[i];
        let ghost before = pending@;
        proof {
            assert(hits@.take(i as int + 1).drop_last() =~= hits@.take(i as int));
        }
        if f == frame {
            pending.push(PendingAction::HitFrameTriggered {
                char_id: char_id.clone(),
                action_id: action_id.clone(),
                frame: f,
                hit_index: k,
            });
            proof {
                assert(events_view(pending@) =~= events_view(before).push(pending@.last()@));
                assert(hit_events(char_id@, action_id@, hits_at(hits@.take(i as int + 1), frame)) =~= hit_events(
                    char_id@,
                    action_id@,
                    hits_at(hits@.take(i as int), frame),
                ).push(EventView::Hit { char_id: char_id@, action_id: action_id@, frame: f, hit_index: k }));
            }
        }
        i = i + 1;
    }
    assert(hits@.take(i as int) =~= hits@);
}

/// The hits of `hits` that do not fall on `frame`.
fn hits_left_after(hits: &Vec<(u64, usize)>, frame: u64) -> (r: Vec<(u64, usize)>)
    ensures
        r@ == hits_not_at(hits@, frame),
{
    let mut r: Vec<(u64, usize)> = Vec::new();
    let mut i: usize = 0;
    while i < hits.len()
        invariant
            i <= hits.len(),
            r@ == hits_not_at(hits@.take(i as int), frame),
        decreases hits.len() - i,
    {
        proof {
            assert(hits@.take(i as int + 1).drop_last() =~= hits@.take(i as int));
        }
        if hits[i].0 != frame {
            r.push(hits[i]);
        }
        i = i + 1;
    }
    assert(hits@.take(i as int) =~= hits@);
    r
}

fn unknown_action_reason(id: &String) -> (m: String)
    ensures
        m@ == unknown_action_msg(id@),
{
    let mut m = String::from_str("Unknown action: ");
    m.append(id.as_str());
    m
}

fn variant_missing_reason(id: &String) -> (m: String)
    ensures
        m@ == variant_missing_msg(id@),
{
    let mut m = String::from_str("Variant '");
    m.append(id.as_str());
    m.append("' not found");
    m
}

fn missing_character_reason(id: &String) -> (m: String)
    ensures
        m@ == missing_character_msg(id@),
{
    let mut m = String::from_str("Character '");
    m.append(id.as_str());
    m.append("' not in team");
    m
}

impl TrackState {
    /// A fresh track state: nothing done, idle, at the first action.
    pub fn from_track(track: &Track) -> (r: Self)
        ensures
            r@ == (TrackView {
                track_id: track.track_id@,
                char_id: track.char_id@,
                actions: entries_view(track.actions@),
                next: 0,
                last_completed: None,
                anim: AnimView::Idle,
                waiting: false,
            }),
    {
        let mut actions: Vec<ActionEntry> = Vec::new();
        let mut i: usize = 0;
        while i < track.actions.len()
            invariant
                i <= track.actions.len(),
                actions@ == track.actions@.take(i as int),
            decreases track.actions.len() - i,
        {
            actions.push(track.actions[i].clone());
            i = i + 1;
            assert(actions@ =~= track.actions@.take(i as int));
        }
        assert(track.actions@.take(i as int) =~= track.actions@);
        TrackState {
            track_id: track.track_id.clone(),
            char_id: track.char_id.clone(),
            actions,
            next_action_index: 0,
            last_completed_action_id: None,
            animation: AnimationState::Idle,
            waiting_for_prerequisite: false,
        }
    }

    /// True when every action of the track has been dispatched and the
    /// track is idle.
    pub fn is_exhausted(&self) -> (r: bool)
        ensures
            r == track_exhausted(self@),
    {
        self.next_action_index >= self.actions.len() && match self.animation {
            AnimationState::Idle => true,
            _ => false,
        }
    }

    /// The next action of the track, if any is left.
    pub fn current_action(&self) -> (r: Option<&ActionEntry>)
        ensures
            match r {
                Some(e) => self@.next < self@.actions.len() && e@ == self@.actions[self@.next as int],
                None => self@.next >= self@.actions.len(),
            },
    {
        if self.next_action_index < self.actions.len() {
            Some(&self.actions[self.next_action_index])
        } else {
            None
        }
    }

    /// One tick of this track (see `step_view`); events are appended to
    /// `pending`.
    pub fn step(&mut self, current_tick: u64, skills: &[SkillTiming], pending: &mut Vec<PendingAction>) -> (r: TrackStep)
        ensures
            ({
                let (t, ev, step) = step_view(old(self)@, current_tick, skills_view(skills@));
                &&& final(self)@ == t
                &&& events_view(final(pending)@) == events_view(old(pending)@) + ev
                &&& r == step
            }),
    {
        let ghost t0 = self@;
        let ghost p0 = events_view(pending@);
        let mut anim = AnimationState::Idle;
        std::mem::swap(&mut anim, &mut self.animation);
        match anim {
            AnimationState::Animating { action_id, total_frames, elapsed_frames, hit_frames } => {
                if elapsed_frames >= total_frames {
                    pending.push(PendingAction::ActionCompleted { char_id: self.char_id.clone(), action_id });
                    assert(events_view(pending@) =~= p0 + step_view(t0, current_tick, skills_view(skills@)).1);
                    assert(self@ =~= step_view(t0, current_tick, skills_view(skills@)).0);
                    return TrackStep::Done;
                }
                let e = elapsed_frames + 1;
                emit_hits_on_frame(pending, &self.char_id, &action_id, &hit_frames, e);
                let left = hits_left_after(&hit_frames, e);
                self.animation = AnimationState::Animating {
                    action_id,
                    total_frames,
                    elapsed_frames: e,
                    hit_frames: left,
                };
                assert(self@ =~= step_view(t0, current_tick, skills_view(skills@)).0);
                TrackStep::Done
            },
            AnimationState::Charging { action_id, charge_elapsed, charge_duration, variant_action_id } => {
                if charge_duration == 0 || charge_elapsed >= charge_duration - 1 {
                    match find_skill(skills, &variant_action_id) {
                        Some(i) => {
                            assert(skills_view(skills@)[i as int] == skills@[i as int]@);
                            let hits = indexed_hit_list(&skills[i].damage_frames);
                            emit_hits_on_frame(pending, &self.char_id, &variant_action_id, &hits, 1);
                            let ghost p1 = pending@;
                            pending.push(PendingAction::ChargingCompleted {
                                char_id: self.char_id.clone(),
                                action_id,
                                variant_action_id: variant_action_id.clone(),
                            });
                            let ghost p2 = pending@;
                            pending.push(PendingAction::ActionStarted {
                                char_id: self.char_id.clone(),
                                action_id: variant_action_id.clone(),
                            });
                            assert(events_view(p2) =~= events_view(p1).push(p2.last()@));
                            assert(events_view(pending@) =~= events_view(p2).push(pending@.last()@));
                            let total = skills[i].animation_frames;
                            self.animation = AnimationState::Animating {
                                action_id: variant_action_id,
                                total_frames: total,
                                elapsed_frames: 1,
                                hit_frames: hits,
                            };
                            assert(events_view(pending@) =~= p0 + step_view(t0, current_tick, skills_view(skills@)).1);
                            assert(self@ =~= step_view(t0, current_tick, skills_view(skills@)).0);
                        },
                        None => {
                            let reason = variant_missing_reason(&variant_action_id);
                            pending.push(PendingAction::ActionFailed {
                                char_id: self.char_id.clone(),
                                action_id: variant_action_id,
                                reason,
                            });
                            assert(events_view(pending@) =~= p0 + step_view(t0, current_tick, skills_view(skills@)).1);
                            assert(self@ =~= step_view(t0, current_tick, skills_view(skills@)).0);
                        },
                    }
                } else {
                    self.animation = AnimationState::Charging {
                        action_id,
                        charge_elapsed: charge_elapsed + 1,
                        charge_duration,
                        variant_action_id,
                    };
                    assert(events_view(pending@) =~= p0 + step_view(t0, current_tick, skills_view(skills@)).1);
                    assert(self@ =~= step_view(t0, current_tick, skills_view(skills@)).0);
                }
                TrackStep::Done
            },
            AnimationState::Idle => {
                assert(self@ =~= t0);
                self.step_idle(current_tick, skills, pending)
            },
        }
    }

    fn step_idle(&mut self, current_tick: u64, skills: &[SkillTiming], pending: &mut Vec<PendingAction>) -> (r: TrackStep)
        requires
            old(self)@.anim is Idle,
        ensures
            ({
                let (t, ev, step) = idle_step(old(self)@, current_tick, skills_view(skills@));
                &&& final(self)@ == t
                &&& events_view(final(pending)@) == events_view(old(pending)@) + ev
                &&& r == step
            }),
    {
        let ghost t0 = self@;
        let ghost p0 = events_view(pending@);
        let ghost sv = skills_view(skills@);
        if self.next_action_index >= self.actions.len() {
            assert(events_view(pending@) =~= p0 + idle_step(t0, current_tick, sv).1);
            return TrackStep::Done;
        }
        let idx = self.next_action_index;
        assert(self.actions@[idx as int]@ == t0.actions[idx as int]);
        if self.actions[idx].at > current_tick {
            assert(events_view(pending@) =~= p0 + idle_step(t0, current_tick, sv).1);
            return TrackStep::Done;
        }
        match find_skill(skills, &self.actions[idx].action_id) {
            None => {
                let id = self.actions[idx].action_id.clone();
                let reason = unknown_action_reason(&id);
                pending.push(PendingAction::ActionFailed { char_id: self.char_id.clone(), action_id: id, reason });
                self.next_action_index = idx + 1;
                assert(events_view(pending@) =~= p0 + idle_step(t0, current_tick, sv).1);
                assert(self@ =~= idle_step(t0, current_tick, sv).0);
                TrackStep::Done
            },
            Some(i) => {
                let blocked = match &skills[i].prerequisite_action_id {
                    Some(p) => match &self.last_completed_action_id {
                        Some(last) => *last != *p,
                        None => true,
                    },
                    None => false,
                };
                assert(skills@[i as int]@ == sv[i as int]);
                if blocked {
                    self.waiting_for_prerequisite = true;
                    assert(events_view(pending@) =~= p0 + idle_step(t0, current_tick, sv).1);
                    assert(self@ =~= idle_step(t0, current_tick, sv).0);
                    TrackStep::Done
                } else {
                    assert(events_view(pending@) =~= p0 + idle_step(t0, current_tick, sv).1);
                    TrackStep::Ready { skill_index: i }
                }
            },
        }
    }

    /// Start the track's next action with skill `skill` (see `start_view`).
    pub fn start(&mut self, skill: &SkillTiming, pending: &mut Vec<PendingAction>)
        requires
            old(self)@.next < old(self)@.actions.len(),
        ensures
            ({
                let (t, ev) = start_view(old(self)@, skill@);
                &&& final(self)@ == t
                &&& events_view(final(pending)@) == events_view(old(pending)@) + ev
            }),
    {
        let ghost t0 = self@;
        let ghost p0 = events_view(pending@);
        let idx = self.next_action_index;
        assert(t0.next == idx as int);
        assert(t0.actions.len() == self.actions@.len());
        assert(idx < self.actions.len());
        assert(self.actions@[idx as int]@ == t0.actions[idx as int]);
        let action_id = self.actions[idx].action_id.clone();
        self.last_completed_action_id = Some(action_id.clone());
        if skill.charge_branches.len() > 0 {
            let duration = skill.charge_branches[0].charge_duration;
            self.animation = AnimationState::Charging {
                action_id: skill.action_id.clone(),
                charge_elapsed: 0,
                charge_duration: duration,
                variant_action_id: skill.charge_branches[0].variant_action_id.clone(),
            };
            pending.push(PendingAction::ChargingStarted {
                char_id: self.char_id.clone(),
                action_id,
                charge_duration: duration,
            });
            assert(events_view(pending@) =~= p0 + start_view(t0, skill@).1);
        } else if skill.animation_frames <= 1 {
            let hits = indexed_hit_list(&skill.damage_frames);
            emit_hits_on_frame(pending, &self.char_id, &action_id, &hits, 1);
            let ghost p1 = pending@;
            pending.push(PendingAction::ActionStarted { char_id: self.char_id.clone(), action_id: action_id.clone() });
            let ghost p2 = pending@;
            pending.push(PendingAction::ActionCompleted { char_id: self.char_id.clone(), action_id });
            assert(events_view(p2) =~= events_view(p1).push(p2.last()@));
            assert(events_view(pending@) =~= events_view(p2).push(pending@.last()@));
            assert(events_view(pending@) =~= p0 + start_view(t0, skill@).1);
        } else {
            let hits = indexed_hit_list(&skill.damage_frames);
            emit_hits_on_frame(pending, &self.char_id, &action_id, &hits, 1);
            let ghost p1 = pending@;
            pending.push(PendingAction::ActionStarted { char_id: self.char_id.clone(), action_id });
            assert(events_view(pending@) =~= events_view(p1).push(pending@.last()@));
            assert(events_view(pending@) =~= p0 + start_view(t0, skill@).1);
            self.animation = AnimationState::Animating {
                action_id: skill.action_id.clone(),
                total_frames: skill.animation_frames,
                elapsed_frames: 1,
                hit_frames: hits,
            };
        }
        self.next_action_index = idx + 1;
        assert(events_view(pending@) =~= p0 + start_view(t0, skill@).1);
        assert(self@ =~= start_view(t0, skill@).0);
    }

    /// Report the next action as failed because the track's character is
    /// not in the team, and move on.
    pub fn fail_missing_character(&mut self, pending: &mut Vec<PendingAction>)
        requires
            old(self)@.next < old(self)@.actions.len(),
        ensures
            final(self)@ == (TrackView { next: old(self)@.next + 1, ..old(self)@ }),
            events_view(final(pending)@) == events_view(old(pending)@).push(EventView::Failed {
                char_id: old(self)@.char_id,
                action_id: old(self)@.actions[old(self)@.next as int].0,
                reason: missing_character_msg(old(self)@.char_id),
            }),
    {
        let ghost t0 = self@;
        let ghost p0 = events_view(pending@);
        let idx = self.next_action_index;
        assert(t0.next == idx as int);
        assert(t0.actions.len() == self.actions@.len());
        assert(idx < self.actions.len());
        assert(self.actions@[idx as int]@ == t0.actions[idx as int]);
        let reason = missing_character_reason(&self.char_id);
        pending.push(PendingAction::ActionFailed {
            char_id: self.char_id.clone(),
            action_id: self.actions[idx].action_id.clone(),
            reason,
        });
        self.next_action_index = idx + 1;
        assert(events_view(pending@) =~= p0.push(pending@.last()@));
        assert(self@ =~= TrackView { next: t0.next + 1, ..t0 });
    }
}

/// The tracks of a list by their views.
pub open spec fn tracks_view(s: Seq<TrackState>) -> Seq<TrackView> {
    s.map_values(|t: TrackState| t@)
}

/// Every track is idle with nothing left.
pub open spec fn all_exhausted(s: Seq<TrackView>) -> bool {
    forall|i: int| 0 <= i < s.len() ==> #[trigger] track_exhausted(s[i])
}

/// The tick from which an action may run again, by the first record
/// naming it.
pub open spec fn ready_tick_of(records: Seq<(Seq<char>, u64)>, id: Seq<char>) -> Option<u64>
    decreases records.len(),
{
    if records.len() == 0 {
        None
    } else if records[0].0 == id {
        Some(records[0].1)
    } else {
        ready_tick_of(records.drop_first(), id)
    }
}

/// The records after `id` is set ready from tick `t`: the first record
/// naming it is replaced, or a record is added at the end.
pub open spec fn set_ready(records: Seq<(Seq<char>, u64)>, id: Seq<char>, t: u64) -> Seq<(Seq<char>, u64)>
    decreases records.len(),
{
    if records.len() == 0 {
        seq![(id, t)]
    } else if records[0].0 == id {
        records.update(0, (id, t))
    } else {
        seq![records[0]] + set_ready(records.drop_first(), id, t)
    }
}

/// The tick a cooldown of `cooldown_ticks` started at `tick` ends
/// (saturating).
pub open spec fn cooldown_end(tick: u64, cooldown_ticks: u64) -> u64 {
    if tick + cooldown_ticks <= u64::MAX { (tick + cooldown_ticks) as u64 } else { u64::MAX }
}

/// Replacing the first record naming `id` is `set_ready`.
proof fn lemma_set_ready_at(recs: Seq<(Seq<char>, u64)>, i: int, id: Seq<char>, t: u64)
    requires
        0 <= i < recs.len(),
        recs[i].0 == id,
        forall|j: int| 0 <= j < i ==> #[trigger] recs[j].0 != id,
    ensures
        set_ready(recs, id, t) == recs.update(i, (id, t)),
    decreases i,
{
    if i > 0 {
        assert(recs[0].0 != id);
        assert forall|j: int| 0 <= j < i - 1 implies #[trigger] recs.drop_first()[j].0 != id by {
            assert(recs.drop_first()[j] == recs[j + 1]);
        }
        lemma_set_ready_at(recs.drop_first(), i - 1, id, t);
        assert(set_ready(recs, id, t) =~= recs.update(i, (id, t)));
    }
}

/// With no record naming `id`, `set_ready` adds one at the end.
proof fn lemma_set_ready_absent(recs: Seq<(Seq<char>, u64)>, id: Seq<char>, t: u64)
    requires
        forall|j: int| 0 <= j < recs.len() ==> #[trigger] recs[j].0 != id,
    ensures
        set_ready(recs, id, t) == recs.push((id, t)),
    decreases recs.len(),
{
    if recs.len() > 0 {
        assert(recs[0].0 != id);
        assert forall|j: int| 0 <= j < recs.drop_first().len() implies #[trigger] recs.drop_first()[j].0 != id by {
            assert(recs.drop_first()[j] == recs[j + 1]);
        }
        lemma_set_ready_absent(recs.drop_first(), id, t);
        assert(set_ready(recs, id, t) =~= recs.push((id, t)));
    } else {
        assert(set_ready(recs, id, t) =~= recs.push((id, t)));
    }
}

/// What the team answers about an action a track has ready.
#[derive(Debug, Clone, Copy, PartialEq, Eq, Structural)]
pub enum Admission {
    /// The track's character is not in the team.
    NotInTeam,
    /// A check failed: the action waits for a later tick.
    Refused,
    /// Every check passed and the costs were paid.
    Admitted,
}

/// The team side of a tick: checks and pays the resources of the actions
/// the tracks have ready.
pub trait ResourceKeeper {
    /// What `consider` answers in the keeper's present state, for the track's
    /// character, the skill's position in the skill book, the tick and
    /// whether the skill is off cooldown. The default refuses; a keeper
    /// written in verified code defines it.
    open spec fn verdict(&self, char_id: Seq<char>, skill_index: usize, tick: u64, off_cooldown: bool) -> Admission {
        Admission::Refused
    }

    /// Decide on the ready action `skill_index` of a track of `char_id`:
    /// whether the character is in the team, then its checks (the cooldown
    /// verdict among them, which it may record); it pays the costs only
    /// when it admits, which it must not do when the cooldown check failed.
    fn consider(
        &mut self,
        char_id: &String,
        skill_index: usize,
        current_tick: u64,
        cooldown: &Result<(), ValidationError>,
    ) -> (r: Admission)
        ensures
            r == old(self).verdict(char_id@, skill_index, current_tick, cooldown is Ok),
    ;
}

/// A keeper that knows who is in the team and nothing of their resources:
/// a member's action is admitted when off cooldown and refused otherwise
/// (the cooldown error is kept in `refusals`); the actions of others are
/// reported as missing their character.
#[derive(Debug)]
pub struct RosterKeeper {
    pub members: Vec<String>,
    pub refusals: Vec<ValidationError>,
}

/// `id` names a member.
pub open spec fn is_member(members: Seq<String>, id: Seq<char>) -> bool {
    exists|i: int| 0 <= i < members.len() && (#[trigger] members[i])@ == id
}

impl ResourceKeeper for RosterKeeper {
    open spec fn verdict(&self, char_id: Seq<char>, skill_index: usize, tick: u64, off_cooldown: bool) -> Admission {
        if !is_member(self.members@, char_id) {
            Admission::NotInTeam
        } else if off_cooldown {
            Admission::Admitted
        } else {
            Admission::Refused
        }
    }

    fn consider(
        &mut self,
        char_id: &String,
        skill_index: usize,
        current_tick: u64,
        cooldown: &Result<(), ValidationError>,
    ) -> (r: Admission)
        ensures
            final(self).members == old(self).members,
    {
        let mut i: usize = 0;
        while i < self.members.len()
            invariant
                i <= self.members.len(),
                self.members == old(self).members,
                forall|j: int| 0 <= j < i ==> (#[trigger] self.members@[j])@ != char_id@,
            decreases self.members.len() - i,
        {
            if self.members[i] == *char_id {
                return match cooldown {
                    Ok(()) => Admission::Admitted,
                    Err(e) => {
                        self.refusals.push(e.clone());
                        Admission::Refused
                    },
                };
            }
            i = i + 1;
        }
        Admission::NotInTeam
    }
}

/// A skill is off cooldown at `tick` under the records: it has no
/// cooldown, or no record, or its record's tick has come.
pub open spec fn off_cooldown(records: Seq<(Seq<char>, u64)>, s: SkillView, tick: u64) -> bool {
    s.cooldown_ticks == 0 || match ready_tick_of(records, s.action_id) {
        Some(t) => tick >= t,
        None => true,
    }
}

/// The keeper's answer for track `t` in a tick: asked only when the track
/// has an action ready (otherwise the keeper is not asked; `Refused` stands
/// in).
pub open spec fn keeper_answer<G: ResourceKeeper>(
    t: TrackView,
    tick: u64,
    skills: Seq<SkillView>,
    records: Seq<(Seq<char>, u64)>,
    keeper: G,
) -> Admission {
    match step_view(t, tick, skills).2 {
        TrackStep::Ready { skill_index } => keeper.verdict(
            t.char_id,
            skill_index,
            tick,
            off_cooldown(records, skills[skill_index as int], tick),
        ),
        TrackStep::Done => Admission::Refused,
    }
}

/// One track's part of a tick given the keeper's answer: the track steps
/// (see `step_view`); an action it has ready fails when the character is
/// missing, starts (and goes on cooldown) when admitted and off cooldown,
/// and otherwise waits.
pub open spec fn track_tick(
    t: TrackView,
    tick: u64,
    skills: Seq<SkillView>,
    records: Seq<(Seq<char>, u64)>,
    answer: Admission,
) -> (TrackView, Seq<EventView>, Seq<(Seq<char>, u64)>) {
    let (t1, ev1, step) = step_view(t, tick, skills);
    match step {
        TrackStep::Done => (t1, ev1, records),
        TrackStep::Ready { skill_index } => {
            let s = skills[skill_index as int];
            if answer == Admission::NotInTeam {
                (
                    TrackView { next: t1.next + 1, ..t1 },
                    ev1.push(EventView::Failed {
                        char_id: t1.char_id,
                        action_id: t1.actions[t1.next as int].0,
                        reason: missing_character_msg(t1.char_id),
                    }),
                    records,
                )
            } else if answer == Admission::Admitted && off_cooldown(records, s, tick) {
                let (t2, ev2) = start_view(t1, s);
                (t2, ev1 + ev2, set_ready(records, s.action_id, cooldown_end(tick, s.cooldown_ticks)))
            } else {
                (t1, ev1, records)
            }
        },
    }
}

/// The tracks, events and cooldown records after the first `n` tracks of
/// a tick, in track order; `keepers[i]` is the keeper as track `i` meets it.
pub open spec fn tick_prefix<G: ResourceKeeper>(
    tracks: Seq<TrackView>,
    pending: Seq<EventView>,
    records: Seq<(Seq<char>, u64)>,
    tick: u64,
    skills: Seq<SkillView>,
    keepers: Seq<G>,
    n: nat,
) -> (Seq<TrackView>, Seq<EventView>, Seq<(Seq<char>, u64)>)
    decreases n,
{
    if n == 0 {
        (tracks, pending, records)
    } else {
        let (ts, ev, rs) = tick_prefix(tracks, pending, records, tick, skills, keepers, (n - 1) as nat);
        let i = n - 1;
        let (t, e, r) = track_tick(tracks[i], tick, skills, rs, keeper_answer(tracks[i], tick, skills, rs, keepers[i]));
        (ts.update(i, t), ev + e, r)
    }
}

/// The keeper is left as it is by every track that has no action ready.
pub open spec fn keepers_follow<G: ResourceKeeper>(tracks: Seq<TrackView>, tick: u64, skills: Seq<SkillView>, keepers: Seq<G>) -> bool {
    &&& keepers.len() == tracks.len() + 1
    &&& forall|i: int| #![trigger tracks[i]]
        0 <= i < tracks.len() && step_view(tracks[i], tick, skills).2 is Done ==> keepers[i + 1] == keepers[i]
}

proof fn lemma_tick_prefix_shape<G: ResourceKeeper>(
    tracks: Seq<TrackView>,
    pending: Seq<EventView>,
    records: Seq<(Seq<char>, u64)>,
    tick: u64,
    skills: Seq<SkillView>,
    keepers: Seq<G>,
    n: nat,
)
    requires
        n <= tracks.len(),
    ensures
        tick_prefix(tracks, pending, records, tick, skills, keepers, n).0.len() == tracks.len(),
        forall|j: int| n <= j < tracks.len() ==> #[trigger] tick_prefix(tracks, pending, records, tick, skills, keepers, n).0[j] == tracks[j],
    decreases n,
{
    if n > 0 {
        lemma_tick_prefix_shape(tracks, pending, records, tick, skills, keepers, (n - 1) as nat);
    }
}

/// An action a track has ready names a skill of the book.
proof fn lemma_ready_skill(t: TrackView, tick: u64, skills: Seq<SkillView>)
    ensures
        step_view(t, tick, skills).2 matches TrackStep::Ready { skill_index } ==> skill_index < skills.len(),
{
    lemma_dispatch_only_when_due(t, tick, skills);
    if step_view(t, tick, skills).2 is Ready {
        lemma_skill_index_of(skills, t.actions[t.next as int].0);
    }
}

/// The first `n` tracks of a tick only see the keepers they meet.
proof fn lemma_tick_prefix_keepers<G: ResourceKeeper>(
    tracks: Seq<TrackView>,
    pending: Seq<EventView>,
    records: Seq<(Seq<char>, u64)>,
    tick: u64,
    skills: Seq<SkillView>,
    keepers: Seq<G>,
    keepers2: Seq<G>,
    n: nat,
)
    requires
        n < keepers.len(),
        n < keepers2.len(),
        forall|j: int| 0 <= j <= n ==> #[trigger] keepers[j] == keepers2[j],
    ensures
        tick_prefix(tracks, pending, records, tick, skills, keepers2, n) == tick_prefix(tracks, pending, records, tick, skills, keepers, n),
    decreases n,
{
    if n > 0 {
        lemma_tick_prefix_keepers(tracks, pending, records, tick, skills, keepers, keepers2, (n - 1) as nat);
        assert(keepers[n - 1] == keepers2[n - 1]);
    }
}

/// Manages the execution of all tracks of a plan.
#[derive(Debug)]
pub struct APLManager {
    pub tracks: Vec<TrackState>,
    /// Set once every track has dispatched all its actions.
    pub is_exhausted: bool,
    /// Events produced and not yet drained.
    pending_actions: Vec<PendingAction>,
    /// Cooldown records: (action, tick from which it is ready again).
    cooldowns: Vec<(String, u64)>,
}

impl APLManager {
    /// The manager's tracks.
    pub closed spec fn track_list(&self) -> Seq<TrackState> {
        self.tracks@
    }

    /// Whether the manager has been marked exhausted.
    pub closed spec fn exhausted_flag(&self) -> bool {
        self.is_exhausted
    }

    /// The events produced and not yet drained.
    pub closed spec fn pending(&self) -> Seq<EventView> {
        events_view(self.pending_actions@)
    }

    /// The cooldown records as plain values.
    pub closed spec fn cooldown_records(&self) -> Seq<(Seq<char>, u64)> {
        self.cooldowns@.map_values(|r: (String, u64)| (r.0@, r.1))
    }

    /// The tick from which `id` may run again, if it has a cooldown record.
    pub open spec fn ready_tick(&self, id: Seq<char>) -> Option<u64> {
        ready_tick_of(self.cooldown_records(), id)
    }

    /// A manager for the plan's tracks, all fresh; nothing pending.
    pub fn new(apl_data: APLData) -> (r: Self)
        ensures
            r.track_list().len() == apl_data.tracks@.len(),
            forall|i: int| 0 <= i < apl_data.tracks@.len() ==> (#[trigger] r.track_list()[i])@ == (TrackView {
                track_id: apl_data.tracks@[i].track_id@,
                char_id: apl_data.tracks@[i].char_id@,
                actions: entries_view(apl_data.tracks@[i].actions@),
                next: 0,
                last_completed: None,
                anim: AnimView::Idle,
                waiting: false,
            }),
            !r.exhausted_flag(),
            r.pending() == Seq::<EventView>::empty(),
            r.cooldown_records() == Seq::<(Seq<char>, u64)>::empty(),
    {
        let mut tracks: Vec<TrackState> = Vec::new();
        let mut i: usize = 0;
        while i < apl_data.tracks.len()
            invariant
                i <= apl_data.tracks.len(),
                tracks@.len() == i,
                forall|j: int| 0 <= j < i ==> (#[trigger] tracks@[j])@ == (TrackView {
                    track_id: apl_data.tracks@[j].track_id@,
                    char_id: apl_data.tracks@[j].char_id@,
                    actions: entries_view(apl_data.tracks@[j].actions@),
                    next: 0,
                    last_completed: None,
                    anim: AnimView::Idle,
                    waiting: false,
                }),
            decreases apl_data.tracks.len() - i,
        {
            tracks.push(TrackState::from_track(&apl_data.tracks[i]));
            i = i + 1;
        }
        let r = APLManager { tracks, is_exhausted: false, pending_actions: Vec::new(), cooldowns: Vec::new() };
        assert(r.pending() =~= Seq::<EventView>::empty());
        assert(r.cooldown_records() =~= Seq::<(Seq<char>, u64)>::empty());
        r
    }

    /// True when every track has dispatched all its actions.
    pub fn all_tracks_exhausted(&self) -> (r: bool)
        ensures
            r == all_exhausted(tracks_view(self.track_list())),
    {
        let ghost tv = tracks_view(self.tracks@);
        let mut i: usize = 0;
        while i < self.tracks.len()
            invariant
                i <= self.tracks.len(),
                tv == tracks_view(self.tracks@),
                forall|j: int| 0 <= j < i ==> #[trigger] track_exhausted(tv[j]),
            decreases self.tracks.len() - i,
        {
            if !self.tracks[i].is_exhausted() {
                assert(!track_exhausted(tv[i as int]));
                return false;
            }
            i = i + 1;
        }
        true
    }

    /// One tick of track `track_idx` (see `step_view`).
    pub fn step_track(&mut self, track_idx: usize, current_tick: u64, skills: &[SkillTiming]) -> (r: TrackStep)
        requires
            track_idx < old(self).track_list().len(),
        ensures
            ({
                let (t, ev, step) = step_view(old(self).track_list()[track_idx as int]@, current_tick, skills_view(skills@));
                &&& tracks_view(final(self).track_list()) == tracks_view(old(self).track_list()).update(track_idx as int, t)
                &&& final(self).pending() == old(self).pending() + ev
                &&& r == step
            }),
            final(self).exhausted_flag() == old(self).exhausted_flag(),
            final(self).cooldown_records() == old(self).cooldown_records(),
    {
        let r = self.tracks[track_idx].step(current_tick, skills, &mut self.pending_actions);
        assert(tracks_view(self.tracks@) =~= tracks_view(old(self).track_list()).update(
            track_idx as int,
            self.tracks@[track_idx as int]@,
        ));
        r
    }

    /// Record that `action_id` may run again only from `current_tick +
    /// cooldown_ticks` on (saturating).
    pub fn set_cooldown(&mut self, action_id: &String, cooldown_ticks: u64, current_tick: u64)
        ensures
            final(self).ready_tick(action_id@) == Some(
                (if current_tick + cooldown_ticks <= u64::MAX { (current_tick + cooldown_ticks) as u64 } else { u64::MAX }),
            ),
            forall|other: Seq<char>| other != action_id@ ==> final(self).ready_tick(other) == old(self).ready_tick(other),
            final(self).cooldown_records() == set_ready(
                old(self).cooldown_records(),
                action_id@,
                cooldown_end(current_tick, cooldown_ticks),
            ),
            final(self).track_list() == old(self).track_list(),
            final(self).pending() == old(self).pending(),
            final(self).exhausted_flag() == old(self).exhausted_flag(),
    {
        let ready = current_tick.saturating_add(cooldown_ticks);
        let ghost old_recs = self.cooldown_records();
        let mut i: usize = 0;
        while i < self.cooldowns.len()
            invariant
                i <= self.cooldowns.len(),
                self.cooldowns == old(self).cooldowns,
                ready == (if current_tick + cooldown_ticks <= u64::MAX { (current_tick + cooldown_ticks) as u64 } else { u64::MAX }),
                self.tracks@ == old(self).track_list(),
                self.pending_actions == old(self).pending_actions,
                self.is_exhausted == old(self).exhausted_flag(),
                old_recs == self.cooldown_records(),
                forall|j: int| 0 <= j < i ==> #[trigger] old_recs[j].0 != action_id@,
            decreases self.cooldowns.len() - i,
        {
            assert(old_recs[i as int] == (self.cooldowns@[i as int].0@, self.cooldowns@[i as int].1));
            if self.cooldowns[i].0 == *action_id {
                self.cooldowns.set(i, (action_id.clone(), ready));
                proof {
                    let new_recs = self.cooldown_records();
                    assert(new_recs =~= old_recs.update(i as int, (action_id@, ready)));
                    lemma_ready_tick_update(old_recs, i as int, action_id@, ready);
                    lemma_set_ready_at(old_recs, i as int, action_id@, ready);
                }
                return;
            }
            i = i + 1;
        }
        self.cooldowns.push((action_id.clone(), ready));
        proof {
            assert(self.cooldown_records() =~= old_recs.push((action_id@, ready)));
            lemma_ready_tick_push(old_recs, action_id@, ready);
            lemma_set_ready_absent(old_recs, action_id@, ready);
        }
    }

    /// Ticks until `action_id` may run again (zero when it has no record
    /// or its cooldown is over).
    pub fn remaining_cooldown(&self, action_id: &String, current_tick: u64) -> (r: u64)
        ensures
            r == match self.ready_tick(action_id@) {
                Some(t) => if t > current_tick { (t - current_tick) as u64 } else { 0 },
                None => 0,
            },
    {
        let ghost recs = self.cooldown_records();
        assert(recs.subrange(0, recs.len() as int) =~= recs);
        let mut i: usize = 0;
        while i < self.cooldowns.len()
            invariant
                i <= self.cooldowns.len(),
                recs == self.cooldown_records(),
                ready_tick_of(recs, action_id@) == ready_tick_of(recs.subrange(i as int, recs.len() as int), action_id@),
            decreases self.cooldowns.len() - i,
        {
            proof {
                assert(recs.subrange(i as int, recs.len() as int).drop_first() =~= recs.subrange(i as int + 1, recs.len() as int));
            }
            assert(recs[i as int] == (self.cooldowns@[i as int].0@, self.cooldowns@[i as int].1));
            if self.cooldowns[i].0 == *action_id {
                let t = self.cooldowns[i].1;
                return if t > current_tick { t - current_tick } else { 0 };
            }
            i = i + 1;
        }
        0
    }

    /// Check that `skill` is off cooldown at `current_tick`: a skill
    /// without cooldown, or never started, is always ready; otherwise it is
    /// ready from its recorded tick on.
    pub fn check_cooldown(&self, skill: &SkillTiming, current_tick: u64) -> (r: Result<(), ValidationError>)
        ensures
            r is Ok <==> (skill.cooldown_ticks == 0 || match self.ready_tick(skill@.action_id) {
                Some(t) => current_tick >= t,
                None => true,
            }),
            r matches Err(e) ==> {
                &&& e.action_id@ == skill@.action_id
                &&& e.missing_resource == ResourceType::Cooldown
                &&& e.current_value == current_tick
                &&& Some(e.required_value) == self.ready_tick(skill@.action_id)
            },
    {
        if skill.cooldown_ticks == 0 {
            return Ok(());
        }
        let remaining = self.remaining_cooldown(&skill.action_id, current_tick);
        if remaining == 0 {
            Ok(())
        } else {
            Err(ValidationError {
                action_id: skill.action_id.clone(),
                missing_resource: ResourceType::Cooldown,
                current_value: current_tick,
                required_value: current_tick + remaining,
            })
        }
    }

    /// Start the next action of track `track_idx` with `skill` (see
    /// `start_view`), and put the skill on cooldown from this tick.
    pub fn start_action(&mut self, track_idx: usize, current_tick: u64, skill: &SkillTiming)
        requires
            track_idx < old(self).track_list().len(),
            old(self).track_list()[track_idx as int]@.next < old(self).track_list()[track_idx as int]@.actions.len(),
        ensures
            ({
                let (t, ev) = start_view(old(self).track_list()[track_idx as int]@, skill@);
                &&& tracks_view(final(self).track_list()) == tracks_view(old(self).track_list()).update(track_idx as int, t)
                &&& final(self).pending() == old(self).pending() + ev
            }),
            final(self).ready_tick(skill@.action_id) == Some(
                (if current_tick + skill.cooldown_ticks <= u64::MAX { (current_tick + skill.cooldown_ticks) as u64 } else { u64::MAX }),
            ),
            forall|other: Seq<char>| other != skill@.action_id ==> final(self).ready_tick(other) == old(self).ready_tick(other),
            final(self).cooldown_records() == set_ready(
                old(self).cooldown_records(),
                skill@.action_id,
                cooldown_end(current_tick, skill.cooldown_ticks),
            ),
            final(self).exhausted_flag() == old(self).exhausted_flag(),
    {
        self.set_cooldown(&skill.action_id, skill.cooldown_ticks, current_tick);
        self.tracks[track_idx].start(skill, &mut self.pending_actions);
        assert(tracks_view(self.tracks@) =~= tracks_view(old(self).track_list()).update(
            track_idx as int,
            self.tracks@[track_idx as int]@,
        ));
    }

    /// Report the next action of track `track_idx` as failed because its
    /// character is not in the team, and move the track on.
    pub fn skip_missing_character(&mut self, track_idx: usize)
        requires
            track_idx < old(self).track_list().len(),
            old(self).track_list()[track_idx as int]@.next < old(self).track_list()[track_idx as int]@.actions.len(),
        ensures
            ({
                let t = old(self).track_list()[track_idx as int]@;
                &&& tracks_view(final(self).track_list()) == tracks_view(old(self).track_list()).update(
                    track_idx as int,
                    TrackView { next: t.next + 1, ..t },
                )
                &&& final(self).pending() == old(self).pending().push(EventView::Failed {
                    char_id: t.char_id,
                    action_id: t.actions[t.next as int].0,
                    reason: missing_character_msg(t.char_id),
                })
            }),
            final(self).exhausted_flag() == old(self).exhausted_flag(),
            final(self).cooldown_records() == old(self).cooldown_records(),
    {
        self.tracks[track_idx].fail_missing_character(&mut self.pending_actions);
        assert(tracks_view(self.tracks@) =~= tracks_view(old(self).track_list()).update(
            track_idx as int,
            self.tracks@[track_idx as int]@,
        ));
    }

    /// Refresh the exhausted flag after all tracks have been stepped.
    pub fn refresh_exhausted(&mut self)
        ensures
            final(self).exhausted_flag() == all_exhausted(tracks_view(old(self).track_list())),
            final(self).track_list() == old(self).track_list(),
            final(self).pending() == old(self).pending(),
            final(self).cooldown_records() == old(self).cooldown_records(),
    {
        self.is_exhausted = self.all_tracks_exhausted();
    }

    /// One tick of the whole plan: nothing at all once the manager is
    /// exhausted (the keeper is not asked either). Otherwise each track in
    /// order steps; an action a track has ready is put to the keeper, with
    /// the verdict of its cooldown, and then fails (character missing),
    /// starts and goes on cooldown (admitted and off cooldown), or waits
    /// for a later tick. Last, the exhausted flag is refreshed.
    pub fn process_tick<G: ResourceKeeper>(&mut self, current_tick: u64, skills: &[SkillTiming], keeper: &mut G)
        ensures
            old(self).exhausted_flag() ==> {
                &&& final(self).track_list() == old(self).track_list()
                &&& final(self).pending() == old(self).pending()
                &&& final(self).cooldown_records() == old(self).cooldown_records()
                &&& final(self).exhausted_flag()
                &&& *final(keeper) == *old(keeper)
            },
            !old(self).exhausted_flag() ==> exists|keepers: Seq<G>| {
                &&& keepers_follow(tracks_view(old(self).track_list()), current_tick, skills_view(skills@), keepers)
                &&& keepers[0] == *old(keeper)
                &&& keepers.last() == *final(keeper)
                &&& (tracks_view(final(self).track_list()), final(self).pending(), final(self).cooldown_records())
                    == tick_prefix(
                    tracks_view(old(self).track_list()),
                    old(self).pending(),
                    old(self).cooldown_records(),
                    current_tick,
                    skills_view(skills@),
                    keepers,
                    old(self).track_list().len(),
                )
                &&& final(self).exhausted_flag() == all_exhausted(tracks_view(final(self).track_list()))
            },
    {
        if self.is_exhausted {
            return;
        }
        let ghost tv0 = tracks_view(self.track_list());
        let ghost p0 = self.pending();
        let ghost r0 = self.cooldown_records();
        let ghost sv = skills_view(skills@);
        let ghost g0 = *keeper;
        let ghost mut keepers: Seq<G> = seq![g0];
        let mut i: usize = 0;
        while i < self.tracks.len()
            invariant
                i <= self.track_list().len(),
                self.track_list().len() == tv0.len(),
                tv0 == tracks_view(old(self).track_list()),
                p0 == old(self).pending(),
                r0 == old(self).cooldown_records(),
                sv == skills_view(skills@),
                g0 == *old(keeper),
                !self.exhausted_flag(),
                keepers.len() == i + 1,
                keepers[0] == g0,
                keepers[i as int] == *keeper,
                forall|j: int| #![trigger tv0[j]]
                    0 <= j < i && step_view(tv0[j], current_tick, sv).2 is Done ==> keepers[j + 1] == keepers[j],
                (tracks_view(self.track_list()), self.pending(), self.cooldown_records())
                    == tick_prefix(tv0, p0, r0, current_tick, sv, keepers, i as nat),
            decreases tv0.len() - i,
        {
            let ghost pre = tick_prefix(tv0, p0, r0, current_tick, sv, keepers, i as nat);
            proof {
                lemma_tick_prefix_shape(tv0, p0, r0, current_tick, sv, keepers, i as nat);
                assert(tracks_view(self.track_list())[i as int] == tv0[i as int]);
                lemma_ready_skill(tv0[i as int], current_tick, sv);
                lemma_dispatch_only_when_due(tv0[i as int], current_tick, sv);
            }
            let ghost keeper_before = *keeper;
            let step = self.step_track(i, current_tick, skills);
            proof {
                assert(tracks_view(self.track_list()).len() == self.track_list().len());
                assert(self.track_list()[i as int]@ == tracks_view(self.track_list())[i as int]);
            }
            match step {
                TrackStep::Done => {},
                TrackStep::Ready { skill_index } => {
                    let cooldown = self.check_cooldown(&skills[skill_index], current_tick);
                    let answer = keeper.consider(&self.tracks[i].char_id, skill_index, current_tick, &cooldown);
                    match answer {
                        Admission::NotInTeam => {
                            self.skip_missing_character(i);
                        },
                        Admission::Admitted => {
                            if cooldown.is_ok() {
                                self.start_action(i, current_tick, &skills[skill_index]);
                            }
                        },
                        Admission::Refused => {},
                    }
                },
            }
            proof {
                let keepers2 = keepers.push(*keeper);
                assert(keepers2.drop_last() =~= keepers);
                assert forall|n: nat| n <= i implies tick_prefix(tv0, p0, r0, current_tick, sv, keepers2, n) == tick_prefix(tv0, p0, r0, current_tick, sv, keepers, n) by {
                    lemma_tick_prefix_keepers(tv0, p0, r0, current_tick, sv, keepers, keepers2, n);
                }
                keepers = keepers2;
                assert(tracks_view(self.track_list()) =~= tick_prefix(tv0, p0, r0, current_tick, sv, keepers, (i + 1) as nat).0);
            }
            i = i + 1;
        }
        self.refresh_exhausted();
        proof {
            assert(keepers.last() == *keeper);
        }
    }

    /// Drain the events produced so far.
    pub fn get_pending_actions(&mut self) -> (r: Vec<PendingAction>)
        ensures
            events_view(r@) == old(self).pending(),
            final(self).pending() == Seq::<EventView>::empty(),
            final(self).track_list() == old(self).track_list(),
            final(self).exhausted_flag() == old(self).exhausted_flag(),
            final(self).cooldown_records() == old(self).cooldown_records(),
    {
        let mut r: Vec<PendingAction> = Vec::new();
        std::mem::swap(&mut r, &mut self.pending_actions);
        assert(self.pending() =~= Seq::<EventView>::empty());
        r
    }
}

/// Replacing the first record of `id` sets its ready tick and leaves the
/// others alone.
proof fn lemma_ready_tick_update(recs: Seq<(Seq<char>, u64)>, i: int, id: Seq<char>, t: u64)
    requires
        0 <= i < recs.len(),
        recs[i].0 == id,
        forall|j: int| 0 <= j < i ==> #[trigger] recs[j].0 != id,
    ensures
        ready_tick_of(recs.update(i, (id, t)), id) == Some(t),
        forall|other: Seq<char>| other != id ==> ready_tick_of(recs.update(i, (id, t)), other) == ready_tick_of(recs, other),
    decreases i,
{
    let u = recs.update(i, (id, t));
    if i > 0 {
        assert(recs[0].0 != id);
        assert(u[0] == recs[0]);
        assert(u.drop_first() =~= recs.drop_first().update(i - 1, (id, t)));
        lemma_ready_tick_update(recs.drop_first(), i - 1, id, t);
    } else {
        assert(u[0] == (id, t));
        assert(u.drop_first() =~= recs.drop_first());
    }
    assert forall|other: Seq<char>| other != id implies ready_tick_of(u, other) == ready_tick_of(recs, other) by {
        if recs[0].0 == other {
            assert(u[0] == recs[0]);
        } else {
            assert(u[0].0 != other);
            assert(ready_tick_of(u, other) == ready_tick_of(u.drop_first(), other));
            assert(ready_tick_of(recs, other) == ready_tick_of(recs.drop_first(), other));
        }
    }
}

/// Appending a record for an action without one sets its ready tick and
/// leaves the others alone.
proof fn lemma_ready_tick_push(recs: Seq<(Seq<char>, u64)>, id: Seq<char>, t: u64)
    requires
        forall|j: int| 0 <= j < recs.len() ==> #[trigger] recs[j].0 != id,
    ensures
        ready_tick_of(recs.push((id, t)), id) == Some(t),
        forall|other: Seq<char>| other != id ==> ready_tick_of(recs.push((id, t)), other) == ready_tick_of(recs, other),
    decreases recs.len(),
{
    let p = recs.push((id, t));
    if recs.len() > 0 {
        assert(recs[0].0 != id);
        assert(p[0] == recs[0]);
        assert(p.drop_first() =~= recs.drop_first().push((id, t)));
        lemma_ready_tick_push(recs.drop_first(), id, t);
    } else {
        assert(p[0] == (id, t));
        assert(p.drop_first().len() == 0);
    }
    assert forall|other: Seq<char>| other != id implies ready_tick_of(p, other) == ready_tick_of(recs, other) by {
        if recs.len() > 0 && recs[0].0 == other {
            assert(p[0] == recs[0]);
        } else if recs.len() > 0 {
            assert(p[0] == recs[0]);
            assert(ready_tick_of(p, other) == ready_tick_of(p.drop_first(), other));
            assert(ready_tick_of(recs, other) == ready_tick_of(recs.drop_first(), other));
        } else {
            assert(ready_tick_of(p, other) == ready_tick_of(p.drop_first(), other));
        }
    }
}

/// A track after `k` ticks at a fixed tick number.
pub open spec fn steps(t: TrackView, tick: u64, skills: Seq<SkillView>, k: nat) -> TrackView
    decreases k,
{
    if k == 0 {
        t
    } else {
        step_view(steps(t, tick, skills, (k - 1) as nat), tick, skills).0
    }
}

/// The hits of a list whose frame is not in `(lo, hi]`, in order.
pub open spec fn hits_outside(hits: Seq<(u64, usize)>, lo: int, hi: int) -> Seq<(u64, usize)>
    decreases hits.len(),
{
    if hits.len() == 0 {
        hits
    } else {
        let rest = hits_outside(hits.drop_last(), lo, hi);
        if !(lo < hits.last().0 <= hi) { rest.push(hits.last()) } else { rest }
    }
}

proof fn lemma_hits_outside_empty_range(hits: Seq<(u64, usize)>, lo: int)
    ensures
        hits_outside(hits, lo, lo) == hits,
    decreases hits.len(),
{
    if hits.len() > 0 {
        lemma_hits_outside_empty_range(hits.drop_last(), lo);
        assert(hits.drop_last().push(hits.last()) =~= hits);
    }
}

proof fn lemma_hits_outside_grow(hits: Seq<(u64, usize)>, lo: int, hi: int)
    requires
        lo <= hi,
        0 <= hi + 1 <= u64::MAX,
    ensures
        hits_not_at(hits_outside(hits, lo, hi), (hi + 1) as u64) == hits_outside(hits, lo, hi + 1),
        hits_at(hits_outside(hits, lo, hi), (hi + 1) as u64) == hits_at(hits, (hi + 1) as u64),
    decreases hits.len(),
{
    if hits.len() > 0 {
        let h = hits.drop_last();
        lemma_hits_outside_grow(h, lo, hi);
        let rest = hits_outside(h, lo, hi);
        let x = hits.last();
        if !(lo < x.0 <= hi) {
            assert(rest.push(x).drop_last() =~= rest);
        }
    }
}

/// Law: a track with nothing left does nothing.
pub proof fn lemma_exhausted_track_is_still(t: TrackView, tick: u64, skills: Seq<SkillView>)
    requires
        track_exhausted(t),
    ensures
        step_view(t, tick, skills) == (t, Seq::<EventView>::empty(), TrackStep::Done),
{
}

/// Law: an action is never taken up before its scheduled tick. A track
/// moves on by at most one action per tick, and only when the action it
/// leaves was due; a track that reports an action ready is left exactly as
/// it was, so an action the caller refuses is tried again on a later tick.
pub proof fn lemma_dispatch_only_when_due(t: TrackView, tick: u64, skills: Seq<SkillView>)
    ensures
        ({
            let (t2, ev, r) = step_view(t, tick, skills);
            &&& (t2.next == t.next || t2.next == t.next + 1)
            &&& (t2.next == t.next + 1 ==> t.anim is Idle && t.next < t.actions.len() && t.actions[t.next as int].1 <= tick)
            &&& (r is Ready ==> {
                &&& t.anim is Idle
                &&& t.next < t.actions.len()
                &&& t.actions[t.next as int].1 <= tick
                &&& t2 == t
                &&& ev.len() == 0
            })
        }),
{
}

/// Law: starting an action moves its track on by exactly one action and
/// records it as the last one done.
pub proof fn lemma_start_moves_on(t: TrackView, s: SkillView)
    requires
        t.next < t.actions.len(),
    ensures
        start_view(t, s).0.next == t.next + 1,
        start_view(t, s).0.last_completed == Some(t.actions[t.next as int].0),
{
}

/// Law: while a skill animates, each tick advances it by one frame and
/// fires exactly the hits of its list that fall on the new frame; a hit is
/// removed once fired, so each hit between the current frame and the last
/// fires once, on its own frame.
pub proof fn lemma_hits_fire_on_their_frame(t: TrackView, tick: u64, skills: Seq<SkillView>, k: nat)
    requires
        t.anim matches AnimView::Animating { total_frames, elapsed_frames, .. } && elapsed_frames + k < total_frames,
    ensures
        ({
            let action_id = t.anim->Animating_action_id;
            let total_frames = t.anim->total_frames;
            let elapsed_frames = t.anim->elapsed_frames;
            let hit_frames = t.anim->hit_frames;
            let tk = steps(t, tick, skills, k);
            &&& tk == TrackView {
                anim: AnimView::Animating {
                    action_id,
                    total_frames,
                    elapsed_frames: (elapsed_frames + k) as u64,
                    hit_frames: hits_outside(hit_frames, elapsed_frames as int, elapsed_frames + k),
                },
                ..t
            }
            &&& step_view(tk, tick, skills).1 == hit_events(
                t.char_id,
                action_id,
                hits_at(hit_frames, (elapsed_frames + k + 1) as u64),
            )
        }),
    decreases k,
{
    let elapsed_frames = t.anim->elapsed_frames;
    let hit_frames = t.anim->hit_frames;
    if k == 0 {
        lemma_hits_outside_empty_range(hit_frames, elapsed_frames as int);
    } else {
        lemma_hits_fire_on_their_frame(t, tick, skills, (k - 1) as nat);
        lemma_hits_outside_grow(hit_frames, elapsed_frames as int, elapsed_frames + k - 1);
    }
    lemma_hits_outside_grow(hit_frames, elapsed_frames as int, elapsed_frames + k);
}

/// Law: an animation of `n` frames that is at frame `e` completes on the
/// `(n - e + 1)`-th tick from now, with one completion event, and not
/// before.
pub proof fn lemma_animation_completes_on_time(t: TrackView, tick: u64, skills: Seq<SkillView>)
    requires
        t.anim matches AnimView::Animating { total_frames, elapsed_frames, .. } && elapsed_frames <= total_frames,
    ensures
        ({
            let action_id = t.anim->Animating_action_id;
            let k = (t.anim->total_frames - t.anim->elapsed_frames) as nat;
            let last = steps(t, tick, skills, k);
            &&& forall|j: nat| j <= k ==> (#[trigger] steps(t, tick, skills, j)).anim is Animating
            &&& step_view(last, tick, skills).0 == TrackView { anim: AnimView::Idle, ..t }
            &&& step_view(last, tick, skills).1 == seq![EventView::Completed { char_id: t.char_id, action_id }]
        }),
{
    let k = (t.anim->total_frames - t.anim->elapsed_frames) as nat;
    assert forall|j: nat| j <= k implies (#[trigger] steps(t, tick, skills, j)).anim is Animating by {
        lemma_animation_frames(t, tick, skills, j);
    }
    lemma_animation_frames(t, tick, skills, k);
}

proof fn lemma_animation_frames(t: TrackView, tick: u64, skills: Seq<SkillView>, j: nat)
    requires
        t.anim matches AnimView::Animating { total_frames, elapsed_frames, .. } && elapsed_frames + j <= total_frames,
    ensures
        ({
            let action_id = t.anim->Animating_action_id;
            let total_frames = t.anim->total_frames;
            let elapsed_frames = t.anim->elapsed_frames;
            &&& steps(t, tick, skills, j).anim matches AnimView::Animating { action_id: a, total_frames: n, elapsed_frames: e, .. }
                && a == action_id && n == total_frames && e == elapsed_frames + j
            &&& steps(t, tick, skills, j) == TrackView { anim: steps(t, tick, skills, j).anim, ..t }
        }),
    decreases j,
{
    if j > 0 {
        lemma_animation_frames(t, tick, skills, (j - 1) as nat);
    }
}

/// Law: a charge of duration `d` that has run `c < d` ticks finishes on the
/// `(d - c)`-th tick from now and stays charging until then.
pub proof fn lemma_charge_finishes_on_time(t: TrackView, tick: u64, skills: Seq<SkillView>, j: nat)
    requires
        t.anim matches AnimView::Charging { charge_elapsed, charge_duration, .. } && charge_elapsed + j < charge_duration,
    ensures
        ({
            let action_id = t.anim->Charging_action_id;
            let charge_elapsed = t.anim->charge_elapsed;
            let charge_duration = t.anim->charge_duration;
            let variant_action_id = t.anim->variant_action_id;
            &&& steps(t, tick, skills, j) == TrackView {
                anim: AnimView::Charging {
                    action_id,
                    charge_elapsed: (charge_elapsed + j) as u64,
                    charge_duration,
                    variant_action_id,
                },
                ..t
            }
            &&& (charge_elapsed + j + 1 == charge_duration ==> !(step_view(steps(t, tick, skills, j), tick, skills).0.anim is Charging))
            &&& (charge_elapsed + j + 1 < charge_duration ==> step_view(steps(t, tick, skills, j), tick, skills).0.anim is Charging)
        }),
    decreases j,
{
    if j > 0 {
        lemma_charge_finishes_on_time(t, tick, skills, (j - 1) as nat);
    }
}

} // verus!
