//! Coordinated actions: off-field characters react to combat events
//! (damage dealt, anomaly triggered, chain attacks, ...) with derived skill
//! actions. Each listener has its own cooldown; derived actions run in the
//! same tick as the event that caused them.
use vstd::prelude::*;
use crate::apl::{ActionView, SkillAction, actions_view};
use crate::events::{EventType, GameEvent, opt_view};
use crate::game_state::GameState;

verus! {

/// A listener that derives skill actions from combat events.
pub trait CoordinatedListener {
    /// What this listener answers to `event` in `game_state`, as plain
    /// values. `on_event` takes any team type alike, so the answer is one
    /// of the state without its team (see `without_team`). The default is
    /// no action; a listener that derives actions defines it.
    open spec fn answer(&self, event: GameEvent, game_state: GameState<()>) -> Seq<ActionView> {
        Seq::empty()
    }

    /// The actions derived from `event`, possibly none; `T` is the team
    /// type of the game state.
    fn on_event<T>(&self, event: &GameEvent, game_state: &GameState<T>) -> (r: Vec<SkillAction>)
        ensures
            actions_view(r@) == self.answer(*event, without_team(*game_state)),
    ;

    /// The event types this listener responds to.
    fn event_types(&self) -> Vec<EventType>;
}

/// The game state as a listener sees it: everything but the team.
pub open spec fn without_team<T>(s: GameState<T>) -> GameState<()> {
    GameState {
        current_tick: s.current_tick,
        team: (),
        mode: s.mode,
        is_terminated: s.is_terminated,
        termination_reason: s.termination_reason,
    }
}

/// A listener that answers one event type with one fixed action.
#[derive(Debug)]
pub struct SimpleCoordinatedListener {
    pub source_id: String,
    pub action_id: String,
    pub trigger_event: EventType,
}

/// Target of a derived action when the event names none.
pub open spec fn default_target() -> Seq<char> {
    "enemy_default"@
}

impl CoordinatedListener for SimpleCoordinatedListener {
    /// One action: this listener's action by its source, at the event's
    /// target (or the default target), at the current tick.
    open spec fn answer(&self, event: GameEvent, game_state: GameState<()>) -> Seq<ActionView> {
        seq![ActionView {
            action_id: self.action_id@,
            source_id: self.source_id@,
            target_id: match opt_view(event.target_id) {
                Some(t) => t,
                None => default_target(),
            },
            started_at_tick: game_state.current_tick,
        }]
    }

    fn on_event<T>(&self, event: &GameEvent, game_state: &GameState<T>) -> (r: Vec<SkillAction>) {
        let target_id = match &event.target_id {
            Some(t) => t.clone(),
            None => String::from_str("enemy_default"),
        };
        let mut r: Vec<SkillAction> = Vec::new();
        r.push(SkillAction {
            action_id: self.action_id.clone(),
            source_id: self.source_id.clone(),
            target_id,
            started_at_tick: game_state.current_tick,
        });
        proof {
            reveal_strlit("enemy_default");
            assert(actions_view(r@) =~= self.answer(*event, without_team(*game_state)));
        }
        r
    }

    /// Exactly this listener's trigger event.
    fn event_types(&self) -> (r: Vec<EventType>)
        ensures
            r@ == seq![self.trigger_event],
    {
        let mut r: Vec<EventType> = Vec::new();
        r.push(self.trigger_event);
        r
    }
}

/// A registered listener with its trigger rules.
struct ListenerSlot<L> {
    listener: L,
    event_types: Vec<EventType>,
    cooldown_ticks: u64,
    last_trigger_tick: Option<u64>,
}

/// A slot's trigger rules as plain values.
pub struct SlotView {
    pub event_types: Seq<EventType>,
    pub cooldown_ticks: u64,
    pub last_trigger_tick: Option<u64>,
}

/// A slot answers an event of type `et` at `tick` when it listens to that
/// type and its cooldown since the last trigger has passed (the first
/// trigger is always allowed).
pub open spec fn slot_due(s: SlotView, et: EventType, tick: u64) -> bool {
    &&& s.event_types.contains(et)
    &&& match s.last_trigger_tick {
        Some(last) => tick >= last + s.cooldown_ticks,
        None => true,
    }
}

/// The slots after an event whose listeners answered `outs`: a slot whose
/// listener produced actions records the tick.
pub open spec fn slots_after(slots: Seq<SlotView>, outs: Seq<Seq<ActionView>>, tick: u64) -> Seq<SlotView> {
    Seq::new(
        slots.len(),
        |i: int| if outs[i].len() > 0 { SlotView { last_trigger_tick: Some(tick), ..slots[i] } } else { slots[i] },
    )
}

/// The kinds of a list of events.
pub open spec fn event_types(events: Seq<GameEvent>) -> Seq<EventType> {
    events.map_values(|e: GameEvent| e.event_type)
}

/// The slots after a series of events whose listeners answered `outs`
/// (one answer list per event).
pub open spec fn slots_after_events(slots: Seq<SlotView>, outs: Seq<Seq<Seq<ActionView>>>, tick: u64) -> Seq<SlotView>
    decreases outs.len(),
{
    if outs.len() == 0 {
        slots
    } else {
        slots_after(slots_after_events(slots, outs.drop_last(), tick), outs.last(), tick)
    }
}

/// What the listeners of slots `slots` answer to `event`: a due slot's
/// listener answers (see `CoordinatedListener::answer`), the others answer
/// nothing.
pub open spec fn due_answers<L: CoordinatedListener, T>(
    slots: Seq<SlotView>,
    listeners: Seq<L>,
    event: GameEvent,
    game_state: GameState<T>,
) -> Seq<Seq<ActionView>> {
    Seq::new(
        slots.len(),
        |i: int|
            if slot_due(slots[i], event.event_type, game_state.current_tick) {
                listeners[i].answer(event, without_team(game_state))
            } else {
                Seq::empty()
            },
    )
}

/// What the listeners answer to a series of events, event by event, each
/// event seeing the cooldowns left by the ones before it.
pub open spec fn event_answers<L: CoordinatedListener, T>(
    slots: Seq<SlotView>,
    listeners: Seq<L>,
    events: Seq<GameEvent>,
    game_state: GameState<T>,
) -> Seq<Seq<Seq<ActionView>>>
    decreases events.len(),
{
    if events.len() == 0 {
        Seq::empty()
    } else {
        let prev = event_answers(slots, listeners, events.drop_last(), game_state);
        prev.push(
            due_answers(slots_after_events(slots, prev, game_state.current_tick), listeners, events.last(), game_state),
        )
    }
}

/// All actions of a series of answers, event by event and slot by slot.
pub open spec fn all_actions(outs: Seq<Seq<Seq<ActionView>>>) -> Seq<ActionView>
    decreases outs.len(),
{
    if outs.len() == 0 {
        Seq::empty()
    } else {
        all_actions(outs.drop_last()) + outs.last().flatten()
    }
}

proof fn all_actions_push(outs: Seq<Seq<Seq<ActionView>>>, out: Seq<Seq<ActionView>>)
    ensures
        all_actions(outs.push(out)) == all_actions(outs) + out.flatten(),
{
    assert(outs.push(out).drop_last() =~= outs);
}

proof fn lemma_slots_after_events_len(slots: Seq<SlotView>, outs: Seq<Seq<Seq<ActionView>>>, tick: u64)
    ensures
        slots_after_events(slots, outs, tick).len() == slots.len(),
    decreases outs.len(),
{
    if outs.len() > 0 {
        lemma_slots_after_events_len(slots, outs.drop_last(), tick);
    }
}

/// Manages coordinated listeners and the actions they derive.
pub struct CoordinatedActionSystem<L> {
    slots: Vec<ListenerSlot<L>>,
    pending_actions: Vec<SkillAction>,
}

impl<L: CoordinatedListener> CoordinatedActionSystem<L> {
    /// The slots' trigger rules.
    pub closed spec fn slots(&self) -> Seq<SlotView> {
        self.slots@.map_values(
            |s: ListenerSlot<L>| SlotView {
                event_types: s.event_types@,
                cooldown_ticks: s.cooldown_ticks,
                last_trigger_tick: s.last_trigger_tick,
            },
        )
    }

    /// The slots' listeners, in registration order.
    pub closed spec fn listeners(&self) -> Seq<L> {
        self.slots@.map_values(|s: ListenerSlot<L>| s.listener)
    }

    /// The derived actions not yet drained.
    pub closed spec fn pending(&self) -> Seq<ActionView> {
        actions_view(self.pending_actions@)
    }

    /// A system with no listener and nothing pending.
    pub fn new() -> (r: Self)
        ensures
            r.slots() == Seq::<SlotView>::empty(),
            r.listeners() == Seq::<L>::empty(),
            r.pending() == Seq::<ActionView>::empty(),
    {
        let r = CoordinatedActionSystem { slots: Vec::new(), pending_actions: Vec::new() };
        assert(r.slots() =~= Seq::<SlotView>::empty());
        assert(r.listeners() =~= Seq::<L>::empty());
        assert(r.pending() =~= Seq::<ActionView>::empty());
        r
    }

    /// Register a listener for the given event types with a cooldown in
    /// ticks between successive triggers (0: none).
    pub fn register(&mut self, listener: L, event_types: Vec<EventType>, cooldown_ticks: u64)
        ensures
            final(self).slots() == old(self).slots().push(
                SlotView { event_types: event_types@, cooldown_ticks, last_trigger_tick: None },
            ),
            final(self).listeners() == old(self).listeners().push(listener),
            final(self).pending() == old(self).pending(),
    {
        let ghost sv = SlotView { event_types: event_types@, cooldown_ticks, last_trigger_tick: None };
        let ghost lv = listener;
        self.slots.push(ListenerSlot { listener, event_types, cooldown_ticks, last_trigger_tick: None });
        assert forall|j: int| 0 <= j < self.slots@.len() implies #[trigger] self.slots()[j] == old(self).slots().push(sv)[j] by {
            if j < old(self).slots@.len() {
                assert(self.slots@[j] == old(self).slots@[j]);
            }
        }
        assert(self.slots() =~= old(self).slots().push(sv));
        assert forall|j: int| 0 <= j < self.slots@.len() implies #[trigger] self.listeners()[j] == old(self).listeners().push(lv)[j] by {
            if j < old(self).slots@.len() {
                assert(self.slots@[j] == old(self).slots@[j]);
            }
        }
        assert(self.listeners() =~= old(self).listeners().push(lv));
    }

    /// Pass one event to every listener that is due for it (see
    /// `slot_due`), in slot order. Each due listener's answer is queued,
    /// and a listener that answered with at least one action records the
    /// tick; one that answered nothing keeps its cooldown state, so it may
    /// answer a later event. Listeners that are not due are not asked.
    pub fn on_event<T>(&mut self, event: &GameEvent, game_state: &GameState<T>)
        ensures
            final(self).slots() == slots_after(
                old(self).slots(),
                due_answers(old(self).slots(), old(self).listeners(), *event, *game_state),
                game_state.current_tick,
            ),
            final(self).pending() == old(self).pending()
                + due_answers(old(self).slots(), old(self).listeners(), *event, *game_state).flatten(),
            final(self).listeners() == old(self).listeners(),
    {
        let tick = game_state.current_tick;
        let ghost s0 = self.slots();
        let ghost l0 = self.listeners();
        let ghost p0 = self.pending();
        let ghost answers = due_answers(s0, l0, *event, *game_state);
        let ghost mut outs: Seq<Seq<ActionView>> = Seq::empty();
        let mut i: usize = 0;
        while i < self.slots.len()
            invariant
                i <= self.slots.len(),
                self.slots@.len() == s0.len(),
                s0 == old(self).slots(),
                l0 == old(self).listeners(),
                answers == due_answers(s0, l0, *event, *game_state),
                outs.len() == i,
                tick == game_state.current_tick,
                forall|j: int| 0 <= j < i ==> #[trigger] outs[j] == answers[j],
                forall|j: int| 0 <= j < i ==> #[trigger] self.slots()[j] == slots_after(s0, outs, tick)[j],
                forall|j: int| i <= j < s0.len() ==> #[trigger] self.slots()[j] == s0[j],
                forall|j: int| 0 <= j < s0.len() ==> #[trigger] self.listeners()[j] == l0[j],
                self.pending() == p0 + outs.flatten(),
            decreases s0.len() - i,
        {
            assert(self.slots()[i as int] == s0[i as int]);
            assert(self.listeners()[i as int] == l0[i as int]);
            let mut listens = false;
            let mut k: usize = 0;
            while k < self.slots[i].event_types.len()
                invariant
                    i < self.slots@.len(),
                    k <= self.slots@[i as int].event_types@.len(),
                    listens == exists|m: int| 0 <= m < k && self.slots@[i as int].event_types@[m] == event.event_type,
                decreases self.slots@[i as int].event_types@.len() - k,
            {
                if self.slots[i].event_types[k] == event.event_type {
                    listens = true;
                }
                k = k + 1;
            }
            let cooled = match self.slots[i].last_trigger_tick {
                Some(last) => if tick >= last { tick - last >= self.slots[i].cooldown_ticks } else { false },
                None => true,
            };
            let ghost sv = s0[i as int];
            assert(listens == sv.event_types.contains(event.event_type)) by {
                if listens {
                    let m = choose|m: int| 0 <= m < sv.event_types.len() && sv.event_types[m] == event.event_type;
                    assert(sv.event_types.contains(event.event_type));
                }
            }
            let ghost out: Seq<ActionView> = Seq::empty();
            let ghost raw = self.slots@;
            let ghost mid = self.slots();
            let ghost pend = self.pending_actions@;
            assert forall|j: int| 0 <= j < s0.len() implies #[trigger] raw[j].listener == l0[j] by {
                assert(self.listeners()[j] == l0[j]);
            }
            if listens && cooled {
                let mut actions = self.slots[i].listener.on_event(event, game_state);
                proof {
                    out = actions_view(actions@);
                }
                if actions.len() > 0 {
                    let ghost got = actions@;
                    self.slots[i].last_trigger_tick = Some(tick);
                    self.pending_actions.append(&mut actions);
                    assert(actions_view(pend + got) =~= actions_view(pend) + actions_view(got));
                } else {
                    assert(out =~= Seq::<ActionView>::empty());
                }
            }
            proof {
                assert(out == answers[i as int]);
                assert forall|j: int| 0 <= j < s0.len() && j != i implies #[trigger] self.slots()[j] == mid[j] by {
                    assert(self.slots@[j] == raw[j]);
                }
                assert forall|j: int| 0 <= j < s0.len() implies #[trigger] self.listeners()[j] == l0[j] by {
                    assert(self.slots@[j].listener == raw[j].listener);
                    assert(raw[j].listener == l0[j]);
                }
                outs.lemma_flatten_push(out);
                outs = outs.push(out);
                assert forall|j: int| 0 <= j < i + 1 implies #[trigger] self.slots()[j] == slots_after(s0, outs, tick)[j] by {
                    if j < i {
                        assert(outs[j] == outs.drop_last()[j]);
                        assert(mid[j] == slots_after(s0, outs.drop_last(), tick)[j]);
                    } else {
                        assert(self.slots@[j] == raw[j] || out.len() > 0);
                    }
                }
            }
            i = i + 1;
        }
        proof {
            assert(outs =~= answers);
            assert(self.slots() =~= slots_after(s0, outs, tick));
            assert(self.listeners() =~= l0);
        }
    }

    /// Pass several events, in order (see `on_event`).
    pub fn process_events<T>(&mut self, events: &Vec<GameEvent>, game_state: &GameState<T>)
        ensures
            final(self).slots() == slots_after_events(
                old(self).slots(),
                event_answers(old(self).slots(), old(self).listeners(), events@, *game_state),
                game_state.current_tick,
            ),
            final(self).pending() == old(self).pending()
                + all_actions(event_answers(old(self).slots(), old(self).listeners(), events@, *game_state)),
            final(self).listeners() == old(self).listeners(),
    {
        let ghost s0 = self.slots();
        let ghost l0 = self.listeners();
        let ghost p0 = self.pending();
        let ghost tick = game_state.current_tick;
        let mut i: usize = 0;
        while i < events.len()
            invariant
                i <= events.len(),
                tick == game_state.current_tick,
                s0 == old(self).slots(),
                l0 == old(self).listeners(),
                p0 == old(self).pending(),
                self.listeners() == l0,
                self.slots() == slots_after_events(s0, event_answers(s0, l0, events@.take(i as int), *game_state), tick),
                self.pending() == p0 + all_actions(event_answers(s0, l0, events@.take(i as int), *game_state)),
            decreases events.len() - i,
        {
            let ghost prev = event_answers(s0, l0, events@.take(i as int), *game_state);
            let ghost before = self.slots();
            self.on_event(&events[i], game_state);
            proof {
                let evs = events@.take(i as int + 1);
                assert(evs.drop_last() =~= events@.take(i as int));
                assert(evs.last() == events@[i as int]);
                let out = due_answers(before, l0, events@[i as int], *game_state);
                assert(event_answers(s0, l0, evs, *game_state) == prev.push(out));
                assert(prev.push(out).drop_last() =~= prev);
                all_actions_push(prev, out);
            }
            i = i + 1;
        }
        proof {
            assert(events@.take(i as int) =~= events@);
        }
    }

    /// Drain the pending derived actions.
    pub fn get_pending_actions(&mut self) -> (r: Vec<SkillAction>)
        ensures
            actions_view(r@) == old(self).pending(),
            final(self).pending() == Seq::<ActionView>::empty(),
            final(self).slots() == old(self).slots(),
            final(self).listeners() == old(self).listeners(),
    {
        let mut r: Vec<SkillAction> = Vec::new();
        std::mem::swap(&mut r, &mut self.pending_actions);
        assert(self.pending() =~= Seq::<ActionView>::empty());
        r
    }

    /// Number of registered listeners.
    pub fn listener_count(&self) -> (n: usize)
        ensures
            n == self.slots().len(),
    {
        self.slots.len()
    }

    /// Number of pending actions.
    pub fn pending_count(&self) -> (n: usize)
        ensures
            n == self.pending().len(),
    {
        self.pending_actions.len()
    }
}

/// Law: a listener that produced actions at tick `t` is not due again
/// before `t + cooldown`, and from then on it is due again for every event
/// type it listens to; a listener that produced nothing keeps its state.
pub proof fn lemma_listener_cooldown(
    slots: Seq<SlotView>,
    outs: Seq<Seq<ActionView>>,
    t: u64,
    i: int,
    et: EventType,
    later: u64,
)
    requires
        0 <= i < slots.len(),
        outs.len() == slots.len(),
    ensures
        outs[i].len() > 0 && later < t + slots[i].cooldown_ticks ==> !slot_due(slots_after(slots, outs, t)[i], et, later),
        outs[i].len() > 0 && later >= t + slots[i].cooldown_ticks && slots[i].event_types.contains(et)
            ==> slot_due(slots_after(slots, outs, t)[i], et, later),
        outs[i].len() == 0 ==> slots_after(slots, outs, t)[i] == slots[i],
{
}

/// Law: on an event, the listener of a slot is asked (and its answer is
/// what the slot contributes) exactly when the slot listens to the event's
/// type and either never answered before or answered at a tick at least
/// its cooldown before the current one; otherwise the slot contributes
/// nothing.
pub proof fn lemma_who_is_asked<L: CoordinatedListener, T>(
    slots: Seq<SlotView>,
    listeners: Seq<L>,
    event: GameEvent,
    game_state: GameState<T>,
    i: int,
)
    requires
        0 <= i < slots.len(),
    ensures
        due_answers(slots, listeners, event, game_state)[i] == (if slots[i].event_types.contains(event.event_type)
            && (slots[i].last_trigger_tick matches Some(l) ==> game_state.current_tick >= l + slots[i].cooldown_ticks) {
            listeners[i].answer(event, without_team(game_state))
        } else {
            Seq::empty()
        }),
{
}

/// Law: after an event, a slot whose listener answered with at least one
/// action has the event's tick as its last trigger; any other slot keeps
/// its last trigger; no slot's event types or cooldown change.
pub proof fn lemma_trigger_recorded(slots: Seq<SlotView>, outs: Seq<Seq<ActionView>>, t: u64, i: int)
    requires
        0 <= i < slots.len(),
        outs.len() == slots.len(),
    ensures
        slots_after(slots, outs, t).len() == slots.len(),
        slots_after(slots, outs, t)[i].last_trigger_tick == (if outs[i].len() > 0 { Some(t) } else { slots[i].last_trigger_tick }),
        slots_after(slots, outs, t)[i].event_types == slots[i].event_types,
        slots_after(slots, outs, t)[i].cooldown_ticks == slots[i].cooldown_ticks,
{
}

impl<L: CoordinatedListener> Default for CoordinatedActionSystem<L> {
    /// A system with no listener and nothing pending.
    fn default() -> (r: Self)
        ensures
            r.slots() == Seq::<SlotView>::empty(),
            r.listeners() == Seq::<L>::empty(),
            r.pending() == Seq::<ActionView>::empty(),
    {
        Self::new()
    }
}

} // verus!
