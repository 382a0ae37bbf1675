//! Combat events as the runner publishes them and listeners see them.
use vstd::prelude::*;
use crate::apl::{PendingAction, EventView};
use serde_json::Value;

verus! {

/// Kinds of combat events.
#[derive(Debug, Clone, Copy, PartialEq, Eq, Structural, Hash)]
pub enum EventType {
    TickStart,
    ActionStart,
    DamageDealt,
    AnomalyTriggered,
    ChainAttack,
    BuffChanged,
    CoordinatedAction,
    ErrorRaised,
}

#[verifier::external_type_specification]
#[verifier::external_body]
pub struct ExValue(Value);

/// One combat event: its kind, tick, the actors involved and its details
/// (a JSON value the library carries without reading).
#[derive(Debug)]
pub struct GameEvent {
    pub event_type: EventType,
    pub tick: u64,
    pub source_id: Option<String>,
    pub target_id: Option<String>,
    pub payload: Option<Value>,
}

/// An optional name as plain text.
pub open spec fn opt_view(s: Option<String>) -> Option<Seq<char>> {
    match s {
        Some(x) => Some(x@),
        None => None,
    }
}

impl GameEvent {
    /// An event of a kind at a tick, with no actors.
    pub fn new(event_type: EventType, tick: u64) -> (e: Self)
        ensures
            e.event_type == event_type,
            e.tick == tick,
            e.source_id is None,
            e.target_id is None,
            e.payload is None,
    {
        GameEvent { event_type, tick, source_id: None, target_id: None, payload: None }
    }

    /// The same event with a source.
    pub fn with_source(self, source: &str) -> (e: Self)
        ensures
            e.event_type == self.event_type,
            e.tick == self.tick,
            opt_view(e.source_id) == Some(source@),
            e.target_id == self.target_id,
            e.payload == self.payload,
    {
        let mut e = self;
        e.source_id = Some(String::from_str(source));
        e
    }

    /// The same event with a target.
    pub fn with_target(self, target: &str) -> (e: Self)
        ensures
            e.event_type == self.event_type,
            e.tick == self.tick,
            e.source_id == self.source_id,
            opt_view(e.target_id) == Some(target@),
            e.payload == self.payload,
    {
        let mut e = self;
        e.target_id = Some(String::from_str(target));
        e
    }

    /// The same event with details.
    pub fn with_payload(self, payload: Value) -> (e: Self)
        ensures
            e.event_type == self.event_type,
            e.tick == self.tick,
            e.source_id == self.source_id,
            e.target_id == self.target_id,
            e.payload == Some(payload),
    {
        let mut e = self;
        e.payload = Some(payload);
        e
    }
}

/// The kind of event a pending action is published as; completions are
/// internal bookkeeping and are not published.
pub open spec fn published_type(a: EventView) -> Option<EventType> {
    match a {
        EventView::Started { .. } => Some(EventType::ActionStart),
        EventView::Hit { .. } => Some(EventType::DamageDealt),
        EventView::Failed { .. } => Some(EventType::ErrorRaised),
        EventView::ChargingStarted { .. } => Some(EventType::ActionStart),
        EventView::Completed { .. } => None,
        EventView::ChargingCompleted { .. } => None,
    }
}

/// The character a pending action is about.
pub open spec fn acting_character(a: EventView) -> Seq<char> {
    match a {
        EventView::Started { char_id, .. } => char_id,
        EventView::Hit { char_id, .. } => char_id,
        EventView::Failed { char_id, .. } => char_id,
        EventView::ChargingStarted { char_id, .. } => char_id,
        EventView::Completed { char_id, .. } => char_id,
        EventView::ChargingCompleted { char_id, .. } => char_id,
    }
}

/// The event a pending action is published as at `tick`, with its
/// character as source; the caller attaches the details as its payload.
pub fn pending_action_to_event(action: &PendingAction, tick: u64) -> (r: Option<GameEvent>)
    ensures
        match published_type(action@) {
            Some(t) => r matches Some(e) && e.event_type == t && e.tick == tick
                && opt_view(e.source_id) == Some(acting_character(action@)) && e.target_id is None
                && e.payload is None,
            None => r is None,
        },
{
    match action {
        PendingAction::ActionStarted { char_id, .. } => Some(GameEvent::new(EventType::ActionStart, tick).with_source(char_id.as_str())),
        PendingAction::HitFrameTriggered { char_id, .. } => Some(GameEvent::new(EventType::DamageDealt, tick).with_source(char_id.as_str())),
        PendingAction::ActionFailed { char_id, .. } => Some(GameEvent::new(EventType::ErrorRaised, tick).with_source(char_id.as_str())),
        PendingAction::ChargingStarted { char_id, .. } => Some(GameEvent::new(EventType::ActionStart, tick).with_source(char_id.as_str())),
        PendingAction::ActionCompleted { .. } => None,
        PendingAction::ChargingCompleted { .. } => None,
    }
}

} // verus!
