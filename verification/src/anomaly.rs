//! Per-enemy anomaly bookkeeping: which elements have a slot on an enemy,
//! how often each anomaly was triggered, how long it stays active, and
//! disorder detection (a second element triggering while another one is
//! still active). The buildup gauges themselves are numbers kept by the
//! caller; this module is told when a gauge reached its threshold.
use vstd::prelude::*;
use crate::enums::ElementTag;
use crate::keyed::{
    find_key, has_key, keys_distinct, lemma_lookup_absent, lemma_lookup_at, lemma_lookup_push,
    lemma_lookup_same_keys, lemma_lookup_update, lemma_total_push, lemma_total_update, lookup,
    same_keys, total_len,
};

verus! {

/// Ticks an anomaly lasts when no duration was set for its element.
pub const DEFAULT_ANOMALY_DURATION: u64 = 600;

/// Per-element anomaly state for a single enemy.
#[derive(Debug, Clone, Copy, PartialEq, Eq, Structural)]
pub struct AnomalyState {
    pub element: ElementTag,
    /// Remaining ticks of an active anomaly (0 = no active anomaly).
    pub remaining_duration: u64,
    /// How many times this element's anomaly has been triggered.
    pub trigger_count: u32,
    /// Whether the anomaly is currently active.
    pub is_active: bool,
}

impl AnomalyState {
    /// A slot that has never been triggered.
    pub fn new(element: ElementTag) -> (s: Self)
        ensures
            s == empty_slot(element),
    {
        AnomalyState { element, remaining_duration: 0, trigger_count: 0, is_active: false }
    }
}

/// A slot that has never been triggered.
pub open spec fn empty_slot(element: ElementTag) -> AnomalyState {
    AnomalyState { element, remaining_duration: 0, trigger_count: 0, is_active: false }
}

/// Outcome of recording a buildup on an enemy.
#[derive(Debug, Clone, Copy, PartialEq, Eq, Structural)]
pub struct AccumulateOutcome {
    /// Whether the gauge reached the threshold (the anomaly was triggered).
    pub triggered: bool,
    /// Whether a disorder was detected when triggering.
    pub disorder_detected: bool,
}

/// Trigger result returned by `trigger_anomaly()`.
#[derive(Debug, Clone, Copy, PartialEq, Eq, Structural)]
pub struct TriggerAnomalyResult {
    pub element: ElementTag,
    /// Number of times this anomaly has been triggered so far.
    pub trigger_count: u32,
}

/// Position of the slot of `e` in `s`, or -1.
pub open spec fn slot_index(s: Seq<AnomalyState>, e: ElementTag) -> int {
    if exists|i: int| 0 <= i < s.len() && s[i].element == e {
        choose|i: int| 0 <= i < s.len() && s[i].element == e
    } else {
        -1
    }
}

/// No element has two slots.
pub open spec fn elements_distinct(s: Seq<AnomalyState>) -> bool {
    forall|i: int, j: int| 0 <= i < j < s.len() ==> s[i].element != s[j].element
}

/// An inactive slot has no time left.
pub open spec fn slots_consistent(s: Seq<AnomalyState>) -> bool {
    forall|i: int| 0 <= i < s.len() ==> (!s[i].is_active ==> s[i].remaining_duration == 0)
}

/// The slots with a slot for `e` added when missing.
pub open spec fn with_slot(s: Seq<AnomalyState>, e: ElementTag) -> Seq<AnomalyState> {
    if slot_index(s, e) >= 0 { s } else { s.push(empty_slot(e)) }
}

/// A slot after being triggered with the given duration.
pub open spec fn triggered_slot(st: AnomalyState, duration: u64) -> AnomalyState {
    AnomalyState {
        element: st.element,
        remaining_duration: duration,
        trigger_count: (st.trigger_count + 1) as u32,
        is_active: true,
    }
}

/// The slots after triggering `e` (unchanged when `e` has no slot).
pub open spec fn triggered_slots(s: Seq<AnomalyState>, e: ElementTag, duration: u64) -> Seq<AnomalyState> {
    let i = slot_index(s, e);
    if i >= 0 { s.update(i, triggered_slot(s[i], duration)) } else { s }
}

/// Some anomaly of an element other than `e` is active.
pub open spec fn other_active(s: Seq<AnomalyState>, e: ElementTag) -> bool {
    exists|j: int| 0 <= j < s.len() && s[j].element != e && s[j].is_active
}

/// A slot after one tick.
pub open spec fn ticked_slot(st: AnomalyState) -> AnomalyState {
    if st.is_active && st.remaining_duration > 0 {
        AnomalyState {
            element: st.element,
            remaining_duration: (st.remaining_duration - 1) as u64,
            trigger_count: st.trigger_count,
            is_active: st.remaining_duration - 1 != 0,
        }
    } else {
        st
    }
}

/// All slots after one tick.
pub open spec fn ticked_slots(s: Seq<AnomalyState>) -> Seq<AnomalyState> {
    Seq::new(s.len(), |j: int| ticked_slot(s[j]))
}

/// The elements with an active anomaly, in slot order.
pub open spec fn active_of(s: Seq<AnomalyState>) -> Seq<ElementTag>
    decreases s.len(),
{
    if s.len() == 0 {
        Seq::empty()
    } else {
        let r = active_of(s.drop_last());
        if s.last().is_active { r.push(s.last().element) } else { r }
    }
}

/// The optional slots of an enemy after one tick.
pub open spec fn ticked_opt(o: Option<Seq<AnomalyState>>) -> Option<Seq<AnomalyState>> {
    match o {
        Some(s) => Some(ticked_slots(s)),
        None => None,
    }
}

/// The slots of an enemy, or none.
pub open spec fn slots_or_empty(o: Option<Seq<AnomalyState>>) -> Seq<AnomalyState> {
    match o {
        Some(s) => s,
        None => Seq::empty(),
    }
}

/// The configured duration of `e` in a list of settings, or the default.
pub open spec fn duration_in(d: Seq<(ElementTag, u64)>, e: ElementTag) -> u64 {
    if exists|i: int| 0 <= i < d.len() && d[i].0 == e {
        d[choose|i: int| 0 <= i < d.len() && d[i].0 == e].1
    } else {
        DEFAULT_ANOMALY_DURATION
    }
}

/// No element has two configured durations.
pub open spec fn durations_distinct(d: Seq<(ElementTag, u64)>) -> bool {
    forall|i: int, j: int| 0 <= i < j < d.len() ==> d[i].0 != d[j].0
}

/// With distinct elements, the duration of the element at `k` is its setting.
pub proof fn lemma_duration_at(d: Seq<(ElementTag, u64)>, k: int)
    requires
        durations_distinct(d),
        0 <= k < d.len(),
    ensures
        duration_in(d, d[k].0) == d[k].1,
{
    let c = choose|c: int| 0 <= c < d.len() && d[c].0 == d[k].0;
    assert(c == k);
}

/// Enemies appear once; per enemy, elements appear once and inactive
/// slots have no time left.
pub open spec fn states_wf(s: Seq<(String, Vec<AnomalyState>)>) -> bool {
    &&& keys_distinct(s)
    &&& forall|i: int| 0 <= i < s.len() ==> #[trigger] elements_distinct(s[i].1@)
    &&& forall|i: int| 0 <= i < s.len() ==> #[trigger] slots_consistent(s[i].1@)
}

/// Replacing the slots of one enemy by well-formed slots keeps the states
/// well formed, and lookups change only for that enemy.
proof fn lemma_states_update(s: Seq<(String, Vec<AnomalyState>)>, i: int, e: (String, Vec<AnomalyState>))
    requires
        states_wf(s),
        0 <= i < s.len(),
        e.0@ == s[i].0@,
        elements_distinct(e.1@),
        slots_consistent(e.1@),
    ensures
        states_wf(s.update(i, e)),
        forall|key: Seq<char>| #[trigger] lookup(s.update(i, e), key)
            == (if key == s[i].0@ { Some(e.1@) } else { lookup(s, key) }),
        total_len(s.update(i, e)) == total_len(s) - s[i].1@.len() + e.1@.len(),
        s.update(i, e).len() == s.len(),
{
    let t = s.update(i, e);
    assert forall|key: Seq<char>| #[trigger] lookup(t, key)
        == (if key == s[i].0@ { Some(e.1@) } else { lookup(s, key) }) by {
        lemma_lookup_update(s, i, e, key);
    }
    lemma_lookup_update(s, i, e, s[i].0@);
    assert forall|a: int| 0 <= a < t.len() implies #[trigger] elements_distinct(t[a].1@) by {
        if a != i { assert(t[a] == s[a]); }
    }
    assert forall|a: int| 0 <= a < t.len() implies #[trigger] slots_consistent(t[a].1@) by {
        if a != i { assert(t[a] == s[a]); }
    }
    lemma_total_update(s, i, e);
}

/// Adding a slot keeps the slots well formed.
proof fn lemma_with_slot(s: Seq<AnomalyState>, e: ElementTag)
    requires
        elements_distinct(s),
        slots_consistent(s),
    ensures
        elements_distinct(with_slot(s, e)),
        slots_consistent(with_slot(s, e)),
        slot_index(with_slot(s, e), e) >= 0,
        with_slot(s, e)[slot_index(with_slot(s, e), e)].element == e,
        forall|f: ElementTag| f != e ==> slot_index(with_slot(s, e), f) == slot_index(s, f),
        other_active(with_slot(s, e), e) == other_active(s, e),
{
    let w = with_slot(s, e);
    if slot_index(s, e) < 0 {
        assert(w[s.len() as int].element == e);
        assert forall|f: ElementTag| f != e implies slot_index(w, f) == slot_index(s, f) by {
            if exists|i: int| 0 <= i < s.len() && s[i].element == f {
                let c = choose|i: int| 0 <= i < s.len() && s[i].element == f;
                assert(w[c] == s[c]);
                let d = choose|i: int| 0 <= i < w.len() && w[i].element == f;
                assert(d != s.len());
                assert(w[d] == s[d]);
            } else {
                assert(!exists|i: int| 0 <= i < w.len() && w[i].element == f) by {
                    if exists|i: int| 0 <= i < w.len() && w[i].element == f {
                        let d = choose|i: int| 0 <= i < w.len() && w[i].element == f;
                        assert(d != s.len());
                        assert(w[d] == s[d]);
                    }
                }
            }
        }
        assert(other_active(w, e) == other_active(s, e)) by {
            if other_active(w, e) {
                let j = choose|j: int| 0 <= j < w.len() && w[j].element != e && w[j].is_active;
                assert(j != s.len());
                assert(w[j] == s[j]);
            }
            if other_active(s, e) {
                let j = choose|j: int| 0 <= j < s.len() && s[j].element != e && s[j].is_active;
                assert(w[j] == s[j]);
            }
        }
    }
}

/// Triggering keeps the slots well formed and changes only the slot of `e`.
proof fn lemma_triggered(s: Seq<AnomalyState>, e: ElementTag, d: u64)
    requires
        elements_distinct(s),
        slots_consistent(s),
        slot_index(s, e) >= 0 ==> s[slot_index(s, e)].trigger_count < u32::MAX,
    ensures
        elements_distinct(triggered_slots(s, e, d)),
        slots_consistent(triggered_slots(s, e, d)),
        triggered_slots(s, e, d).len() == s.len(),
        forall|f: ElementTag| slot_index(triggered_slots(s, e, d), f) == slot_index(s, f),
{
    let t = triggered_slots(s, e, d);
    assert forall|f: ElementTag| slot_index(t, f) == slot_index(s, f) by {
        assert forall|i: int| 0 <= i < s.len() implies t[i].element == s[i].element by {}
        if exists|i: int| 0 <= i < s.len() && s[i].element == f {
            let c = choose|i: int| 0 <= i < s.len() && s[i].element == f;
            assert(t[c].element == f);
            let c2 = choose|i: int| 0 <= i < t.len() && t[i].element == f;
            assert(c2 == c);
        } else {
            assert(!exists|i: int| 0 <= i < t.len() && t[i].element == f) by {
                if exists|i: int| 0 <= i < t.len() && t[i].element == f {
                    let c2 = choose|i: int| 0 <= i < t.len() && t[i].element == f;
                    assert(t[c2].element == s[c2].element);
                }
            }
        }
    }
    assert forall|a: int, b: int| 0 <= a < b < t.len() implies t[a].element != t[b].element by {
        assert(t[a].element == s[a].element && t[b].element == s[b].element);
    }
}

/// A tick keeps the slots well formed.
proof fn lemma_ticked(s: Seq<AnomalyState>)
    requires
        elements_distinct(s),
        slots_consistent(s),
    ensures
        elements_distinct(ticked_slots(s)),
        slots_consistent(ticked_slots(s)),
{
    let t = ticked_slots(s);
    assert forall|a: int, b: int| 0 <= a < b < t.len() implies t[a].element != t[b].element by {
        assert(t[a].element == s[a].element && t[b].element == s[b].element);
    }
}

/// The slot of `e` among optional slots.
pub open spec fn slot_of(o: Option<Seq<AnomalyState>>, e: ElementTag) -> Option<AnomalyState> {
    match o {
        Some(s) => if slot_index(s, e) >= 0 { Some(s[slot_index(s, e)]) } else { None },
        None => None,
    }
}

/// `j` is the first slot of an element other than `e` that is active.
pub open spec fn is_first_other_active(s: Seq<AnomalyState>, e: ElementTag, j: int) -> bool {
    &&& 0 <= j < s.len()
    &&& s[j].element != e
    &&& s[j].is_active
    &&& forall|k: int| 0 <= k < j ==> !(s[k].element != e && s[k].is_active)
}

/// A trigger of `e` on these slots does not overflow its counter.
pub open spec fn can_trigger(s: Seq<AnomalyState>, e: ElementTag) -> bool {
    slot_index(s, e) >= 0 ==> s[slot_index(s, e)].trigger_count < u32::MAX
}

/// Pushing a new enemy with no slot keeps the states well formed.
proof fn lemma_states_push(s: Seq<(String, Vec<AnomalyState>)>, e: (String, Vec<AnomalyState>))
    requires
        states_wf(s),
        !has_key(s, e.0@),
        e.1@.len() == 0,
    ensures
        states_wf(s.push(e)),
        forall|key: Seq<char>| #[trigger] lookup(s.push(e), key)
            == (if key == e.0@ { Some(e.1@) } else { lookup(s, key) }),
        total_len(s.push(e)) == total_len(s),
{
    let t = s.push(e);
    assert forall|a: int, b: int| 0 <= a < b < t.len() implies t[a].0@ != t[b].0@ by {
        assert(t[a] == s[a]);
        if b < s.len() { assert(t[b] == s[b]); }
    }
    assert forall|a: int| 0 <= a < t.len() implies #[trigger] elements_distinct(t[a].1@) by {
        if a < s.len() { assert(t[a] == s[a]); }
    }
    assert forall|a: int| 0 <= a < t.len() implies #[trigger] slots_consistent(t[a].1@) by {
        if a < s.len() { assert(t[a] == s[a]); }
    }
    assert forall|key: Seq<char>| #[trigger] lookup(t, key)
        == (if key == e.0@ { Some(e.1@) } else { lookup(s, key) }) by {
        lemma_lookup_push(s, e, key);
    }
    lemma_total_push(s, e);
}

fn trigger_in(slots: &mut Vec<AnomalyState>, e: ElementTag, duration: u64)
    requires
        elements_distinct(old(slots)@),
        can_trigger(old(slots)@, e),
    ensures
        final(slots)@ == triggered_slots(old(slots)@, e, duration),
{
    match find_slot(slots, e) {
        Some(i) => {
            let ghost s0 = slots@;
            let c = slots[i].trigger_count;
            slots.set(i, AnomalyState { element: e, remaining_duration: duration, trigger_count: c + 1, is_active: true });
            assert(slots@ =~= s0.update(i as int, triggered_slot(s0[i as int], duration)));
        },
        None => {},
    }
}

fn first_other_active(slots: &Vec<AnomalyState>, e: ElementTag) -> (r: Option<ElementTag>)
    ensures
        r is Some <==> other_active(slots@, e),
        r matches Some(f) ==> exists|j: int| is_first_other_active(slots@, e, j) && slots@[j].element == f,
{
    let n = slots.len();
    let mut i: usize = 0;
    while i < n
        invariant
            n == slots@.len(),
            i <= n,
            forall|k: int| 0 <= k < i ==> !(slots@[k].element != e && slots@[k].is_active),
        decreases n - i,
    {
        if slots[i].element != e && slots[i].is_active {
            assert(is_first_other_active(slots@, e, i as int));
            return Some(slots[i].element);
        }
        i = i + 1;
    }
    None
}

fn active_list(slots: &Vec<AnomalyState>) -> (r: Vec<ElementTag>)
    ensures
        r@ == active_of(slots@),
{
    let ghost s = slots@;
    let n = slots.len();
    let mut out: Vec<ElementTag> = Vec::new();
    let mut i: usize = 0;
    assert(s.take(0) =~= Seq::<AnomalyState>::empty());
    while i < n
        invariant
            n == s.len(),
            s == slots@,
            i <= n,
            out@ == active_of(s.take(i as int)),
        decreases n - i,
    {
        assert(s.take(i + 1).drop_last() =~= s.take(i as int));
        if slots[i].is_active {
            out.push(slots[i].element);
        }
        i = i + 1;
    }
    assert(s.take(n as int) =~= s);
    out
}


/// A slot after `k` ticks.
pub open spec fn ticked_slot_n(st: AnomalyState, k: nat) -> AnomalyState
    decreases k,
{
    if k == 0 { st } else { ticked_slot(ticked_slot_n(st, (k - 1) as nat)) }
}

/// Law: an anomaly triggered with a duration of `d > 0` ticks stays active
/// for the first `d - 1` ticks and ends exactly at the `d`-th tick, its
/// remaining time counting down to zero; a slot with no time left never
/// changes on a tick (so an anomaly triggered with a duration of zero stays
/// active).
pub proof fn lemma_anomaly_countdown(st: AnomalyState, k: nat)
    ensures
        st.is_active && st.remaining_duration > 0 ==> {
            &&& ticked_slot_n(st, k).remaining_duration == (if st.remaining_duration >= k { (st.remaining_duration - k) as int } else { 0int })
            &&& ticked_slot_n(st, k).is_active == (k < st.remaining_duration)
        },
        st.remaining_duration == 0 ==> ticked_slot_n(st, k) == st,
        ticked_slot_n(st, k).element == st.element,
        ticked_slot_n(st, k).trigger_count == st.trigger_count,
    decreases k,
{
    if k > 0 {
        lemma_anomaly_countdown(st, (k - 1) as nat);
    }
}

/// Law: triggering `e` (with its slot added first when missing, as
/// `accumulate` does; `trigger_anomaly` triggers an existing slot the same
/// way) leaves the anomaly of `e` active with exactly the
/// duration `d` it is triggered with, whatever state it was in before,
/// counts one more trigger, and leaves every other element's slot as it
/// was.
pub proof fn lemma_trigger_restarts(s: Seq<AnomalyState>, e: ElementTag, d: u64)
    requires
        elements_distinct(s),
        slots_consistent(s),
        can_trigger(s, e),
    ensures
        slot_of(Some(triggered_slots(with_slot(s, e), e, d)), e) matches Some(st) && {
            &&& st.element == e
            &&& st.is_active
            &&& st.remaining_duration == d
            &&& st.trigger_count == (match slot_of(Some(s), e) {
                Some(prev) => prev.trigger_count + 1,
                None => 1,
            })
        },
        forall|f: ElementTag| f != e ==> #[trigger] slot_of(Some(triggered_slots(with_slot(s, e), e, d)), f) == slot_of(Some(s), f),
        slot_of(Some(s), e) is Some ==> triggered_slots(s, e, d) == triggered_slots(with_slot(s, e), e, d),
{
    let w = with_slot(s, e);
    lemma_with_slot(s, e);
    let i = slot_index(w, e);
    if slot_index(s, e) < 0 {
        assert(w[s.len() as int].element == e);
        assert(i == s.len()) by {
            if i != s.len() {
                assert(w[i].element == e);
                if i < s.len() {
                    assert(w[i] == s[i]);
                    assert(exists|k: int| 0 <= k < s.len() && s[k].element == e);
                }
            }
        }
        assert(w[i] == empty_slot(e));
    } else {
        assert(w == s);
    }
    assert(w[i].trigger_count < u32::MAX);
    lemma_triggered(w, e, d);
    let t = triggered_slots(w, e, d);
    assert(t[i] == triggered_slot(w[i], d));
    assert forall|f: ElementTag| f != e implies #[trigger] slot_of(Some(t), f) == slot_of(Some(s), f) by {
        let j = slot_index(s, f);
        if j >= 0 {
            assert(s[j].element == f);
            assert(w[j] == s[j]);
            assert(j != i);
            assert(t[j] == w[j]);
        }
    }
}

/// Law: a trigger of `e` is a disorder exactly when an anomaly of some
/// other element is active on the enemy.
pub proof fn lemma_disorder_when_other_active(s: Seq<AnomalyState>, e: ElementTag)
    requires
        elements_distinct(s),
    ensures
        other_active(s, e) <==> exists|f: ElementTag| f != e && (#[trigger] slot_of(Some(s), f) matches Some(st) && st.is_active),
{
    if other_active(s, e) {
        let j = choose|j: int| 0 <= j < s.len() && s[j].element != e && s[j].is_active;
        let f = s[j].element;
        let k = slot_index(s, f);
        assert(s[k].element == f);
        assert(k == j);
        assert(f != e && (slot_of(Some(s), f) matches Some(st) && st.is_active));
    }
    if exists|f: ElementTag| f != e && (#[trigger] slot_of(Some(s), f) matches Some(st) && st.is_active) {
        let f = choose|f: ElementTag| f != e && (#[trigger] slot_of(Some(s), f) matches Some(st) && st.is_active);
        let k = slot_index(s, f);
        assert(0 <= k < s.len() && s[k].element != e && s[k].is_active);
    }
}

/// Law: in a well-formed manager, an anomaly that is not active has no
/// remaining time.
pub proof fn lemma_inactive_has_no_time(m: AnomalyDisorderManager, enemy_id: Seq<char>, e: ElementTag)
    requires
        m.wf(),
        slot_of(m.slots_of(enemy_id), e) matches Some(st) && !st.is_active,
    ensures
        slot_of(m.slots_of(enemy_id), e).unwrap().remaining_duration == 0,
{
    let s = m.states@;
    if has_key(s, enemy_id) {
        let k = choose|k: int| 0 <= k < s.len() && s[k].0@ == enemy_id;
        lemma_lookup_at(s, k);
        assert(slots_consistent(s[k].1@));
    } else {
        lemma_lookup_absent(s, enemy_id);
    }
}

/// Law: an element is listed among the active elements of an enemy exactly
/// when its anomaly is active there.
pub proof fn lemma_active_elements_exact(s: Seq<AnomalyState>, e: ElementTag)
    requires
        elements_distinct(s),
    ensures
        active_of(s).contains(e) <==> (slot_index(s, e) >= 0 && s[slot_index(s, e)].is_active),
    decreases s.len(),
{
    if s.len() > 0 {
        let t = s.drop_last();
        assert(elements_distinct(t));
        lemma_active_elements_exact(t, e);
        let r = active_of(t);
        if s.last().element == e {
            let c = choose|c: int| 0 <= c < s.len() && s[c].element == e;
            assert(c == s.len() - 1);
            assert(!(slot_index(t, e) >= 0)) by {
                if exists|i: int| 0 <= i < t.len() && t[i].element == e {
                    let i = choose|i: int| 0 <= i < t.len() && t[i].element == e;
                    assert(s[i].element == e);
                }
            }
            if s.last().is_active {
                assert(r.push(e)[r.len() as int] == e);
            } else {
                assert(!r.contains(e));
            }
        } else {
            if exists|i: int| 0 <= i < t.len() && t[i].element == e {
                let i = choose|i: int| 0 <= i < t.len() && t[i].element == e;
                assert(s[i].element == e);
                let c = choose|c: int| 0 <= c < s.len() && s[c].element == e;
                assert(c == i);
            } else {
                assert(!exists|i: int| 0 <= i < s.len() && s[i].element == e) by {
                    if exists|i: int| 0 <= i < s.len() && s[i].element == e {
                        let i = choose|i: int| 0 <= i < s.len() && s[i].element == e;
                        assert(i != s.len() - 1);
                        assert(t[i].element == e);
                    }
                }
            }
            if s.last().is_active {
                assert(r.push(s.last().element).contains(e) <==> r.contains(e)) by {
                    if r.push(s.last().element).contains(e) {
                        let j = choose|j: int| 0 <= j < r.len() + 1 && r.push(s.last().element)[j] == e;
                        assert(j < r.len());
                        assert(r[j] == e);
                    }
                    if r.contains(e) {
                        let j = choose|j: int| 0 <= j < r.len() && r[j] == e;
                        assert(r.push(s.last().element)[j] == e);
                    }
                }
            }
        }
    }
}

fn find_slot(s: &Vec<AnomalyState>, e: ElementTag) -> (r: Option<usize>)
    requires
        elements_distinct(s@),
    ensures
        r is None ==> slot_index(s@, e) == -1,
        r matches Some(i) ==> i < s@.len() && slot_index(s@, e) == i && s@[i as int].element == e,
{
    let n = s.len();
    let mut i: usize = 0;
    while i < n
        invariant
            n == s@.len(),
            i <= n,
            elements_distinct(s@),
            forall|j: int| 0 <= j < i ==> s@[j].element != e,
        decreases n - i,
    {
        if s[i].element == e {
            proof {
                let c = choose|c: int| 0 <= c < s@.len() && s@[c].element == e;
                assert(c == i);
            }
            return Some(i);
        }
        i = i + 1;
    }
    None
}

/// Count down every active slot by one tick.
fn tick_slots(s: &mut Vec<AnomalyState>)
    ensures
        final(s)@ == ticked_slots(old(s)@),
{
    let ghost orig = s@;
    let n = s.len();
    let mut j: usize = 0;
    while j < n
        invariant
            n == orig.len(),
            s@.len() == n,
            j <= n,
            forall|a: int| 0 <= a < j ==> s@[a] == ticked_slot(orig[a]),
            forall|a: int| j <= a < n ==> s@[a] == orig[a],
        decreases n - j,
    {
        if s[j].is_active && s[j].remaining_duration > 0 {
            let d = s[j].remaining_duration - 1;
            s[j].remaining_duration = d;
            if d == 0 {
                s[j].is_active = false;
            }
        }
        j = j + 1;
    }
    assert(s@ =~= ticked_slots(orig));
}

/// Manages per-enemy anomaly slots, triggering, duration ticking and
/// disorder detection.
pub struct AnomalyDisorderManager {
    /// enemy_id → anomaly slots per element.
    states: Vec<(String, Vec<AnomalyState>)>,
    /// Duration (in ticks) each element's anomaly lasts once triggered.
    anomaly_durations: Vec<(ElementTag, u64)>,
}

impl AnomalyDisorderManager {
    /// Enemies appear once, each element has at most one slot per enemy,
    /// inactive slots have no time left, each element has at most one
    /// configured duration.
    pub closed spec fn wf(self) -> bool {
        &&& states_wf(self.states@)
        &&& durations_distinct(self.anomaly_durations@)
    }

    /// The slots tracked for an enemy, if any.
    pub closed spec fn slots_of(self, enemy_id: Seq<char>) -> Option<Seq<AnomalyState>> {
        lookup(self.states@, enemy_id)
    }

    /// How long an anomaly of `e` lasts once triggered.
    pub closed spec fn duration_of(self, e: ElementTag) -> u64 {
        duration_in(self.anomaly_durations@, e)
    }

    /// Number of enemies tracked.
    pub closed spec fn enemies(self) -> nat {
        self.states@.len()
    }

    /// Number of slots across all enemies.
    pub closed spec fn slot_total(self) -> nat {
        total_len(self.states@)
    }

    /// An empty manager: no enemy tracked, default durations.
    pub fn new() -> (m: Self)
        ensures
            m.wf(),
            forall|id: Seq<char>| m.slots_of(id) is None,
            forall|e: ElementTag| m.duration_of(e) == DEFAULT_ANOMALY_DURATION,
            m.enemies() == 0,
            m.slot_total() == 0,
    {
        AnomalyDisorderManager { states: Vec::new(), anomaly_durations: Vec::new() }
    }

    /// Set how many ticks an anomaly of `element` lasts once triggered.
    pub fn set_anomaly_duration(&mut self, element: ElementTag, duration_ticks: u64)
        requires
            old(self).wf(),
        ensures
            final(self).wf(),
            final(self).duration_of(element) == duration_ticks,
            forall|e: ElementTag| e != element ==> final(self).duration_of(e) == old(self).duration_of(e),
            forall|id: Seq<char>| final(self).slots_of(id) == old(self).slots_of(id),
            final(self).enemies() == old(self).enemies(),
            final(self).slot_total() == old(self).slot_total(),
    {
        let ghost d0 = self.anomaly_durations@;
        let n = self.anomaly_durations.len();
        let mut i: usize = 0;
        while i < n
            invariant
                n == self.anomaly_durations@.len(),
                self.anomaly_durations@ == d0,
                durations_distinct(d0),
                i <= n,
                forall|j: int| 0 <= j < i ==> d0[j].0 != element,
            ensures
                self.anomaly_durations@ == d0,
                i <= n,
                forall|j: int| 0 <= j < i ==> d0[j].0 != element,
                i < n ==> d0[i as int].0 == element,
            decreases n - i,
        {
            if self.anomaly_durations[i].0 == element {
                break;
            }
            i = i + 1;
        }
        if i < n {
            self.anomaly_durations.set(i, (element, duration_ticks));
        } else {
            self.anomaly_durations.push((element, duration_ticks));
        }
        proof {
            let d1 = self.anomaly_durations@;
            assert(d1[i as int] == (element, duration_ticks));
            assert(durations_distinct(d1)) by {
                assert forall|a: int, b: int| 0 <= a < b < d1.len() implies d1[a].0 != d1[b].0 by {
                    if a != i && b != i {
                        assert(d1[a] == d0[a] && d1[b] == d0[b]);
                    } else if a == i {
                        assert(d1[b] == d0[b]);
                    } else {
                        assert(d1[a] == d0[a]);
                    }
                }
            }
            lemma_duration_at(d1, i as int);
            assert forall|e: ElementTag| e != element implies duration_in(d1, e) == duration_in(d0, e) by {
                if exists|c: int| 0 <= c < d0.len() && d0[c].0 == e {
                    let c0 = choose|c: int| 0 <= c < d0.len() && d0[c].0 == e;
                    lemma_duration_at(d0, c0);
                    assert(c0 != i);
                    assert(d1[c0] == d0[c0]);
                    lemma_duration_at(d1, c0);
                } else {
                    assert(!exists|c: int| 0 <= c < d1.len() && d1[c].0 == e) by {
                        if exists|c: int| 0 <= c < d1.len() && d1[c].0 == e {
                            let c1 = choose|c: int| 0 <= c < d1.len() && d1[c].0 == e;
                            assert(c1 != i);
                            assert(d1[c1] == d0[c1]);
                        }
                    }
                }
            }
        }
    }


    fn ensure_slot(&mut self, key: &String, element: ElementTag) -> (idx: usize)
        requires
            old(self).wf(),
        ensures
            final(self).wf(),
            idx < final(self).states@.len(),
            final(self).states@[idx as int].0@ == key@,
            final(self).states@[idx as int].1@ == with_slot(slots_or_empty(old(self).slots_of(key@)), element),
            final(self).slots_of(key@) == Some(with_slot(slots_or_empty(old(self).slots_of(key@)), element)),
            forall|id: Seq<char>| id != key@ ==> #[trigger] final(self).slots_of(id) == old(self).slots_of(id),
            final(self).anomaly_durations == old(self).anomaly_durations,
            final(self).enemies() == old(self).enemies() + (if old(self).slots_of(key@) is None { 1int } else { 0int }),
            final(self).slot_total() == old(self).slot_total()
                - slots_or_empty(old(self).slots_of(key@)).len()
                + with_slot(slots_or_empty(old(self).slots_of(key@)), element).len(),
    {
        let idx = match find_key(&self.states, key) {
            Some(i) => i,
            None => {
                let ghost s0 = self.states@;
                let e: (String, Vec<AnomalyState>) = (key.clone(), Vec::new());
                self.states.push(e);
                proof { lemma_states_push(s0, e); }
                self.states.len() - 1
            },
        };
        let ghost s1 = self.states@;
        proof {
            lemma_lookup_at(s1, idx as int);
            assert(elements_distinct(s1[idx as int].1@));
            assert(slots_consistent(s1[idx as int].1@));
            lemma_with_slot(s1[idx as int].1@, element);
        }
        let mut list: Vec<AnomalyState> = Vec::new();
        std::mem::swap(&mut list, &mut self.states[idx].1);
        match find_slot(&list, element) {
            Some(_) => {},
            None => { list.push(AnomalyState::new(element)); },
        }
        std::mem::swap(&mut list, &mut self.states[idx].1);
        proof {
            assert(self.states@ == s1.update(idx as int, self.states@[idx as int]));
            lemma_states_update(s1, idx as int, self.states@[idx as int]);
        }
        idx
    }

    /// Record a buildup of `element` on an enemy. `reached_threshold` tells
    /// whether the element's gauge reached its threshold with this buildup;
    /// if so the anomaly is triggered and a disorder is reported when an
    /// anomaly of another element was active at that moment.
    pub fn accumulate(&mut self, enemy_id: &str, element: ElementTag, reached_threshold: bool) -> (r: AccumulateOutcome)
        requires
            old(self).wf(),
            reached_threshold ==> can_trigger(slots_or_empty(old(self).slots_of(enemy_id@)), element),
        ensures
            final(self).wf(),
            r.triggered == reached_threshold,
            r.disorder_detected == (reached_threshold && other_active(slots_or_empty(old(self).slots_of(enemy_id@)), element)),
            final(self).slots_of(enemy_id@) == Some(if reached_threshold {
                triggered_slots(with_slot(slots_or_empty(old(self).slots_of(enemy_id@)), element), element, old(self).duration_of(element))
            } else {
                with_slot(slots_or_empty(old(self).slots_of(enemy_id@)), element)
            }),
            forall|id: Seq<char>| id != enemy_id@ ==> #[trigger] final(self).slots_of(id) == old(self).slots_of(id),
            forall|e: ElementTag| #[trigger] final(self).duration_of(e) == old(self).duration_of(e),
            final(self).enemies() == old(self).enemies() + (if old(self).slots_of(enemy_id@) is None { 1int } else { 0int }),
            final(self).slot_total() == old(self).slot_total()
                - slots_or_empty(old(self).slots_of(enemy_id@)).len()
                + with_slot(slots_or_empty(old(self).slots_of(enemy_id@)), element).len(),
    {
        let key = String::from_str(enemy_id);
        let ghost m0 = *self;
        let ghost before = slots_or_empty(self.slots_of(enemy_id@));
        proof {
            if self.slots_of(enemy_id@) is Some {
                assert(has_key(self.states@, enemy_id@)) by {
                    if !has_key(self.states@, enemy_id@) { lemma_lookup_absent(self.states@, enemy_id@); }
                }
                let k = choose|k: int| 0 <= k < self.states@.len() && self.states@[k].0@ == enemy_id@;
                lemma_lookup_at(self.states@, k);
                assert(elements_distinct(self.states@[k].1@));
                assert(slots_consistent(self.states@[k].1@));
            }
        }
        let idx = self.ensure_slot(&key, element);
        let ghost m1 = *self;
        proof { lemma_with_slot(before, element); }
        if reached_threshold {
            let disorder = first_other_active(&self.states[idx].1, element).is_some();
            let duration = self.duration_for(element);
            let ghost s1 = self.states@;
            proof {
                assert(elements_distinct(s1[idx as int].1@));
                assert(slots_consistent(s1[idx as int].1@));
                assert(slot_index(s1[idx as int].1@, element) >= 0);
                if slot_index(before, element) < 0 {
                    assert(s1[idx as int].1@[before.len() as int] == empty_slot(element));
                    let c = choose|c: int| 0 <= c < s1[idx as int].1@.len() && s1[idx as int].1@[c].element == element;
                    assert(c == before.len());
                }
                lemma_triggered(s1[idx as int].1@, element, duration);
            }
            let mut list: Vec<AnomalyState> = Vec::new();
            std::mem::swap(&mut list, &mut self.states[idx].1);
            trigger_in(&mut list, element, duration);
            std::mem::swap(&mut list, &mut self.states[idx].1);
            proof {
                assert(self.states@ == s1.update(idx as int, self.states@[idx as int]));
                lemma_states_update(s1, idx as int, self.states@[idx as int]);
                assert forall|id: Seq<char>| id != enemy_id@ implies #[trigger] self.slots_of(id) == m0.slots_of(id) by {
                    assert(lookup(self.states@, id) == (if id == s1[idx as int].0@ { Some(self.states@[idx as int].1@) } else { lookup(s1, id) }));
                    assert(m1.slots_of(id) == m0.slots_of(id));
                    assert(lookup(s1, id) == m0.slots_of(id));
                }
            }
            AccumulateOutcome { triggered: true, disorder_detected: disorder }
        } else {
            AccumulateOutcome { triggered: false, disorder_detected: false }
        }
    }


    /// Explicitly trigger an anomaly: resets it, counts the trigger and makes
    /// it active for its configured duration. `None` when the enemy has no
    /// slot for the element.
    pub fn trigger_anomaly(&mut self, enemy_id: &str, element: ElementTag) -> (r: Option<TriggerAnomalyResult>)
        requires
            old(self).wf(),
            can_trigger(slots_or_empty(old(self).slots_of(enemy_id@)), element),
        ensures
            final(self).wf(),
            r is Some <==> slot_of(old(self).slots_of(enemy_id@), element) is Some,
            r matches Some(t) ==> t.element == element
                && t.trigger_count == slot_of(old(self).slots_of(enemy_id@), element).unwrap().trigger_count + 1,
            final(self).slots_of(enemy_id@) == (match old(self).slots_of(enemy_id@) {
                Some(s) => Some(triggered_slots(s, element, old(self).duration_of(element))),
                None => None::<Seq<AnomalyState>>,
            }),
            forall|id: Seq<char>| id != enemy_id@ ==> #[trigger] final(self).slots_of(id) == old(self).slots_of(id),
            forall|e: ElementTag| #[trigger] final(self).duration_of(e) == old(self).duration_of(e),
            final(self).enemies() == old(self).enemies(),
            final(self).slot_total() == old(self).slot_total(),
    {
        let key = String::from_str(enemy_id);
        let ghost m0 = *self;
        let idx = match find_key(&self.states, &key) {
            Some(i) => i,
            None => { return None; },
        };
        let ghost s1 = self.states@;
        proof {
            assert(elements_distinct(s1[idx as int].1@));
            assert(slots_consistent(s1[idx as int].1@));
        }
        let pos = match find_slot(&self.states[idx].1, element) {
            Some(j) => j,
            None => {
                proof { lemma_triggered(s1[idx as int].1@, element, 0); }
                assert(triggered_slots(s1[idx as int].1@, element, m0.duration_of(element)) == s1[idx as int].1@);
                return None;
            },
        };
        let duration = self.duration_for(element);
        let count = self.states[idx].1[pos].trigger_count;
        proof { lemma_triggered(s1[idx as int].1@, element, duration); }
        let mut list: Vec<AnomalyState> = Vec::new();
        std::mem::swap(&mut list, &mut self.states[idx].1);
        trigger_in(&mut list, element, duration);
        std::mem::swap(&mut list, &mut self.states[idx].1);
        proof {
            assert(self.states@ == s1.update(idx as int, self.states@[idx as int]));
            lemma_states_update(s1, idx as int, self.states@[idx as int]);
            assert forall|id: Seq<char>| id != enemy_id@ implies #[trigger] self.slots_of(id) == m0.slots_of(id) by {
                assert(lookup(self.states@, id) == (if id == s1[idx as int].0@ { Some(self.states@[idx as int].1@) } else { lookup(s1, id) }));
            }
        }
        Some(TriggerAnomalyResult { element, trigger_count: count + 1 })
    }

    /// If an anomaly of an element other than `new_element` is active on the
    /// enemy, the element of the first such slot.
    pub fn check_disorder(&self, enemy_id: &str, new_element: ElementTag) -> (r: Option<ElementTag>)
        requires
            self.wf(),
        ensures
            r is Some <==> other_active(slots_or_empty(self.slots_of(enemy_id@)), new_element),
            r matches Some(f) ==> exists|j: int| is_first_other_active(slots_or_empty(self.slots_of(enemy_id@)), new_element, j)
                && slots_or_empty(self.slots_of(enemy_id@))[j].element == f,
    {
        let key = String::from_str(enemy_id);
        match find_key(&self.states, &key) {
            Some(i) => first_other_active(&self.states[i].1, new_element),
            None => None,
        }
    }

    /// Advance one tick: every active anomaly with time left loses a tick and
    /// becomes inactive when its time runs out.
    pub fn on_tick(&mut self, _current_tick: u64)
        requires
            old(self).wf(),
        ensures
            final(self).wf(),
            forall|id: Seq<char>| #[trigger] final(self).slots_of(id) == ticked_opt(old(self).slots_of(id)),
            forall|e: ElementTag| #[trigger] final(self).duration_of(e) == old(self).duration_of(e),
            final(self).enemies() == old(self).enemies(),
    {
        let ghost orig = self.states@;
        let ghost d0 = self.anomaly_durations@;
        let n = self.states.len();
        let mut i: usize = 0;
        while i < n
            invariant
                n == orig.len(),
                self.states@.len() == n,
                self.anomaly_durations@ == d0,
                durations_distinct(d0),
                i <= n,
                states_wf(orig),
                same_keys(orig, self.states@),
                forall|a: int| 0 <= a < i ==> self.states@[a].1@ == ticked_slots(orig[a].1@),
                forall|a: int| i <= a < n ==> self.states@[a].1@ == orig[a].1@,
            decreases n - i,
        {
            tick_slots(&mut self.states[i].1);
            i = i + 1;
        }
        proof {
            assert forall|id: Seq<char>| #[trigger] lookup(self.states@, id) == ticked_opt(lookup(orig, id)) by {
                lemma_lookup_same_keys(orig, self.states@, id);
                if has_key(orig, id) {
                    let k = choose|k: int| 0 <= k < orig.len() && orig[k].0@ == id;
                    lemma_lookup_at(orig, k);
                    assert(self.states@[k].0@ == orig[k].0@);
                    lemma_lookup_at(self.states@, k);
                } else {
                    lemma_lookup_absent(orig, id);
                }
            }
            lemma_lookup_same_keys(orig, self.states@, Seq::empty());
            assert forall|a: int| 0 <= a < self.states@.len() implies #[trigger] elements_distinct(self.states@[a].1@) by {
                assert(elements_distinct(orig[a].1@));
                assert(slots_consistent(orig[a].1@));
                lemma_ticked(orig[a].1@);
            }
            assert forall|a: int| 0 <= a < self.states@.len() implies #[trigger] slots_consistent(self.states@[a].1@) by {
                assert(elements_distinct(orig[a].1@));
                assert(slots_consistent(orig[a].1@));
                lemma_ticked(orig[a].1@);
            }
        }
    }

    fn get_state(&self, enemy_id: &str, element: ElementTag) -> (r: Option<AnomalyState>)
        requires
            self.wf(),
        ensures
            r == slot_of(self.slots_of(enemy_id@), element),
    {
        let key = String::from_str(enemy_id);
        match find_key(&self.states, &key) {
            Some(i) => {
                proof { assert(elements_distinct(self.states@[i as int].1@)); }
                match find_slot(&self.states[i].1, element) {
                    Some(j) => Some(self.states[i].1[j]),
                    None => None,
                }
            },
            None => None,
        }
    }

    /// Whether an anomaly of `element` is currently active on the enemy.
    pub fn is_active(&self, enemy_id: &str, element: ElementTag) -> (b: bool)
        requires
            self.wf(),
        ensures
            b == (slot_of(self.slots_of(enemy_id@), element) matches Some(st) && st.is_active),
    {
        match self.get_state(enemy_id, element) {
            Some(st) => st.is_active,
            None => false,
        }
    }

    /// Remaining ticks of the anomaly of `element` on the enemy (0 when none).
    pub fn remaining_duration(&self, enemy_id: &str, element: ElementTag) -> (d: u64)
        requires
            self.wf(),
        ensures
            d == (match slot_of(self.slots_of(enemy_id@), element) { Some(st) => st.remaining_duration, None => 0 }),
    {
        match self.get_state(enemy_id, element) {
            Some(st) => st.remaining_duration,
            None => 0,
        }
    }

    /// How often the anomaly of `element` was triggered on the enemy (0 when
    /// it has no slot).
    pub fn trigger_count(&self, enemy_id: &str, element: ElementTag) -> (c: u32)
        requires
            self.wf(),
        ensures
            c == (match slot_of(self.slots_of(enemy_id@), element) { Some(st) => st.trigger_count, None => 0 }),
    {
        match self.get_state(enemy_id, element) {
            Some(st) => st.trigger_count,
            None => 0,
        }
    }

    /// The elements with an active anomaly on the enemy, in slot order.
    pub fn active_elements(&self, enemy_id: &str) -> (v: Vec<ElementTag>)
        requires
            self.wf(),
        ensures
            v@ == active_of(slots_or_empty(self.slots_of(enemy_id@))),
    {
        let key = String::from_str(enemy_id);
        match find_key(&self.states, &key) {
            Some(i) => active_list(&self.states[i].1),
            None => Vec::new(),
        }
    }

    /// Number of anomaly slots across all enemies (saturating at the largest `usize`).
    pub fn total_slots(&self) -> (n: usize)
        ensures
            n as int == if self.slot_total() <= usize::MAX { self.slot_total() as int } else { usize::MAX as int },
    {
        let ghost s = self.states@;
        let len = self.states.len();
        let mut acc: usize = 0;
        let mut i: usize = 0;
        assert(s.take(0) =~= Seq::<(String, Vec<AnomalyState>)>::empty());
        while i < len
            invariant
                len == s.len(),
                s == self.states@,
                i <= len,
                acc as int == if total_len(s.take(i as int)) <= usize::MAX { total_len(s.take(i as int)) as int } else { usize::MAX as int },
            decreases len - i,
        {
            assert(s.take(i + 1).drop_last() =~= s.take(i as int));
            acc = acc.saturating_add(self.states[i].1.len());
            i = i + 1;
        }
        assert(s.take(len as int) =~= s);
        acc
    }

    /// Number of enemies being tracked.
    pub fn enemy_count(&self) -> (n: usize)
        ensures
            n == self.enemies(),
    {
        self.states.len()
    }

    fn duration_for(&self, element: ElementTag) -> (d: u64)
        requires
            self.wf(),
        ensures
            d == self.duration_of(element),
    {
        let n = self.anomaly_durations.len();
        let mut i: usize = 0;
        while i < n
            invariant
                n == self.anomaly_durations@.len(),
                i <= n,
                self.wf(),
                forall|j: int| 0 <= j < i ==> self.anomaly_durations@[j].0 != element,
            decreases n - i,
        {
            if self.anomaly_durations[i].0 == element {
                proof { lemma_duration_at(self.anomaly_durations@, i as int); }
                return self.anomaly_durations[i].1;
            }
            i = i + 1;
        }
        DEFAULT_ANOMALY_DURATION
    }
}

impl Default for AnomalyDisorderManager {
    /// An empty manager: no enemy tracked, default durations.
    fn default() -> (m: Self)
        ensures
            m.wf(),
            forall|id: Seq<char>| m.slots_of(id) is None,
            forall|e: ElementTag| m.duration_of(e) == DEFAULT_ANOMALY_DURATION,
            m.enemies() == 0,
            m.slot_total() == 0,
    {
        Self::new()
    }
}

} // verus!
