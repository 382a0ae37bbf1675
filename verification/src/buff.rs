//! Buff bookkeeping per character: stacking rules, duration countdown and
//! expiry. A buff carries a list of modifiers of any type `M`; the numbers
//! inside the modifiers are summed outside this module.
use vstd::prelude::*;
use crate::keyed::{
    find_key, has_key, keys_distinct, lemma_lookup_absent, lemma_lookup_at, lemma_lookup_push, lemma_lookup_same_keys,
    lemma_lookup_update, lemma_total_push, lemma_total_update, lookup, same_keys, total_len,
};

verus! {

/// Eight buff categories covering all combat stat domains.
#[derive(Debug, Clone, Copy, PartialEq, Eq, Structural, Hash)]
pub enum BuffCategory {
    Stat,
    DamageBonus,
    Crit,
    Penetration,
    Anomaly,
    Stun,
    Resistance,
    Special,
}

/// How stacking behaves when the same buff is re-applied.
#[derive(Debug, Clone, Copy, PartialEq, Eq, Structural)]
pub enum StackType {
    /// New application replaces the existing buff entirely (refresh duration).
    Replace,
    /// Each application adds one stack up to max_stacks (refresh duration).
    Additive,
    /// Each application creates an independent instance (no stacking limit).
    Independent,
}

/// Template / blueprint for a buff.
#[derive(Debug, Clone)]
pub struct BuffData<M> {
    pub buff_id: String,
    pub category: BuffCategory,
    pub stack_type: StackType,
    pub max_stacks: u32,
    pub duration_ticks: u64,
    pub modifiers: Vec<M>,
}

impl<M> BuffData<M> {
    /// A buff with one stack at most, no duration and no modifiers.
    pub fn new(buff_id: &str, category: BuffCategory, stack_type: StackType) -> (b: Self)
        ensures
            b.buff_id@ == buff_id@,
            b.category == category,
            b.stack_type == stack_type,
            b.max_stacks == 1,
            b.duration_ticks == 0,
            b.modifiers@ == Seq::<M>::empty(),
    {
        BuffData {
            buff_id: String::from_str(buff_id),
            category,
            stack_type,
            max_stacks: 1,
            duration_ticks: 0,
            modifiers: Vec::new(),
        }
    }

    /// Set the stack limit; a limit below one becomes one.
    pub fn with_max_stacks(self, max_stacks: u32) -> (b: Self)
        ensures
            b.max_stacks == (if max_stacks >= 1 { max_stacks } else { 1 }),
            b.buff_id == self.buff_id,
            b.category == self.category,
            b.stack_type == self.stack_type,
            b.duration_ticks == self.duration_ticks,
            b.modifiers == self.modifiers,
    {
        let mut b = self;
        b.max_stacks = if max_stacks >= 1 { max_stacks } else { 1 };
        b
    }

    /// Set the duration in ticks.
    pub fn with_duration(self, ticks: u64) -> (b: Self)
        ensures
            b.duration_ticks == ticks,
            b.buff_id == self.buff_id,
            b.category == self.category,
            b.stack_type == self.stack_type,
            b.max_stacks == self.max_stacks,
            b.modifiers == self.modifiers,
    {
        let mut b = self;
        b.duration_ticks = ticks;
        b
    }

    /// Append a modifier.
    pub fn with_modifier(self, modifier: M) -> (b: Self)
        ensures
            b.modifiers@ == self.modifiers@.push(modifier),
            b.buff_id == self.buff_id,
            b.category == self.category,
            b.stack_type == self.stack_type,
            b.max_stacks == self.max_stacks,
            b.duration_ticks == self.duration_ticks,
    {
        let mut b = self;
        b.modifiers.push(modifier);
        b
    }
}

/// An active buff instance on a character, tracking stacks and remaining time.
#[derive(Debug, Clone)]
pub struct ActiveBuff<M> {
    pub data: BuffData<M>,
    pub current_stacks: u32,
    pub remaining_ticks: u64,
    pub applied_at_tick: u64,
}

/// A freshly applied buff: one stack and its full duration.
pub open spec fn fresh_buff<M>(data: BuffData<M>, tick: u64) -> ActiveBuff<M> {
    ActiveBuff { data, current_stacks: 1, remaining_ticks: data.duration_ticks, applied_at_tick: tick }
}

/// An existing additive buff after one more application: one more stack
/// (up to its limit) and its duration refreshed.
pub open spec fn restacked<M>(b: ActiveBuff<M>) -> ActiveBuff<M> {
    ActiveBuff {
        data: b.data,
        current_stacks: if b.current_stacks < b.data.max_stacks { (b.current_stacks + 1) as u32 } else { b.current_stacks },
        remaining_ticks: b.data.duration_ticks,
        applied_at_tick: b.applied_at_tick,
    }
}

/// The list without any buff carrying the identifier `id`.
pub open spec fn without_buff<M>(s: Seq<ActiveBuff<M>>, id: Seq<char>) -> Seq<ActiveBuff<M>>
    decreases s.len(),
{
    if s.len() == 0 {
        s
    } else {
        let r = without_buff(s.drop_last(), id);
        if s.last().data.buff_id@ == id { r } else { r.push(s.last()) }
    }
}

/// `i` is the first position of a buff carrying `id`.
pub open spec fn is_first_match<M>(s: Seq<ActiveBuff<M>>, id: Seq<char>, i: int) -> bool {
    &&& 0 <= i < s.len()
    &&& s[i].data.buff_id@ == id
    &&& forall|j: int| 0 <= j < i ==> s[j].data.buff_id@ != id
}

/// Position of the first buff carrying `id`, or -1.
pub open spec fn first_match<M>(s: Seq<ActiveBuff<M>>, id: Seq<char>) -> int {
    if exists|i: int| is_first_match(s, id, i) {
        choose|i: int| is_first_match(s, id, i)
    } else {
        -1
    }
}

/// A character's buff list after one application of `data` at `tick`.
pub open spec fn applied<M>(s: Seq<ActiveBuff<M>>, data: BuffData<M>, tick: u64) -> Seq<ActiveBuff<M>> {
    match data.stack_type {
        StackType::Replace => without_buff(s, data.buff_id@).push(fresh_buff(data, tick)),
        StackType::Additive => {
            let i = first_match(s, data.buff_id@);
            if i >= 0 {
                s.update(i, restacked(s[i]))
            } else {
                s.push(fresh_buff(data, tick))
            }
        },
        StackType::Independent => s.push(fresh_buff(data, tick)),
    }
}

/// A buff after one tick: one tick less, never below zero.
pub open spec fn ticked<M>(b: ActiveBuff<M>) -> ActiveBuff<M> {
    ActiveBuff {
        data: b.data,
        current_stacks: b.current_stacks,
        remaining_ticks: if b.remaining_ticks > 0 { (b.remaining_ticks - 1) as u64 } else { 0 },
        applied_at_tick: b.applied_at_tick,
    }
}

/// A buff list after one tick.
pub open spec fn ticked_list<M>(s: Seq<ActiveBuff<M>>) -> Seq<ActiveBuff<M>> {
    Seq::new(s.len(), |j: int| ticked(s[j]))
}

/// The buffs of a list that still have time left, in order.
pub open spec fn unexpired<M>(s: Seq<ActiveBuff<M>>) -> Seq<ActiveBuff<M>>
    decreases s.len(),
{
    if s.len() == 0 {
        s
    } else {
        let r = unexpired(s.drop_last());
        if s.last().remaining_ticks > 0 { r.push(s.last()) } else { r }
    }
}

/// The list of a character, or the empty list when the character has none.
pub open spec fn list_or_empty<M>(o: Option<Seq<ActiveBuff<M>>>) -> Seq<ActiveBuff<M>> {
    match o {
        Some(s) => s,
        None => Seq::empty(),
    }
}

/// A character's optional list after expired buffs are dropped.
pub open spec fn unexpired_opt<M>(o: Option<Seq<ActiveBuff<M>>>) -> Option<Seq<ActiveBuff<M>>> {
    match o {
        Some(s) => Some(unexpired(s)),
        None => None,
    }
}

/// A character's optional list after one tick.
pub open spec fn ticked_opt<M>(o: Option<Seq<ActiveBuff<M>>>) -> Option<Seq<ActiveBuff<M>>> {
    match o {
        Some(s) => Some(ticked_list(s)),
        None => None,
    }
}


/// `n` successive applications of the same buff.
pub open spec fn applied_n<M>(s: Seq<ActiveBuff<M>>, data: BuffData<M>, tick: u64, n: nat) -> Seq<ActiveBuff<M>>
    decreases n,
{
    if n == 0 {
        s
    } else {
        applied(applied_n(s, data, tick, (n - 1) as nat), data, tick)
    }
}

/// Number of buffs carrying `id`.
pub open spec fn count_id<M>(s: Seq<ActiveBuff<M>>, id: Seq<char>) -> nat
    decreases s.len(),
{
    if s.len() == 0 {
        0
    } else {
        count_id(s.drop_last(), id) + (if s.last().data.buff_id@ == id { 1nat } else { 0nat })
    }
}

/// A buff after `k` ticks.
pub open spec fn ticked_n<M>(b: ActiveBuff<M>, k: nat) -> ActiveBuff<M>
    decreases k,
{
    if k == 0 { b } else { ticked(ticked_n(b, (k - 1) as nat)) }
}

proof fn lemma_no_match_count_zero<M>(s: Seq<ActiveBuff<M>>, id: Seq<char>)
    requires
        forall|i: int| 0 <= i < s.len() ==> s[i].data.buff_id@ != id,
    ensures
        count_id(s, id) == 0,
    decreases s.len(),
{
    if s.len() > 0 {
        lemma_no_match_count_zero(s.drop_last(), id);
    }
}

proof fn lemma_without_buff_has_none<M>(s: Seq<ActiveBuff<M>>, id: Seq<char>)
    ensures
        forall|i: int| 0 <= i < without_buff(s, id).len() ==> without_buff(s, id)[i].data.buff_id@ != id,
    decreases s.len(),
{
    if s.len() > 0 {
        lemma_without_buff_has_none(s.drop_last(), id);
    }
}

/// Law: re-applying a buff of the replace kind leaves exactly one instance
/// of it, fresh, at the end of the character's list, whatever was there.
pub proof fn lemma_replace_leaves_one<M>(s: Seq<ActiveBuff<M>>, data: BuffData<M>, tick: u64)
    requires
        data.stack_type == StackType::Replace,
    ensures
        count_id(applied(s, data, tick), data.buff_id@) == 1,
        applied(s, data, tick).last() == fresh_buff(data, tick),
{
    let w = without_buff(s, data.buff_id@);
    lemma_without_buff_has_none(s, data.buff_id@);
    lemma_no_match_count_zero(w, data.buff_id@);
    assert(w.push(fresh_buff(data, tick)).drop_last() =~= w);
}

/// Law: `n` (at least one) applications of an additive buff on a list that
/// does not hold it yield one instance at the end of the list, with
/// `min(n, max_stacks)` stacks (a stack limit below one counts as one),
/// its full duration, and the tick of the first application.
pub proof fn lemma_additive_stacks<M>(s: Seq<ActiveBuff<M>>, data: BuffData<M>, tick: u64, n: nat)
    requires
        data.stack_type == StackType::Additive,
        forall|i: int| 0 <= i < s.len() ==> s[i].data.buff_id@ != data.buff_id@,
        n >= 1,
    ensures
        applied_n(s, data, tick, n) == s.push(ActiveBuff {
            data,
            current_stacks: (if n < (if data.max_stacks >= 1 { data.max_stacks as nat } else { 1nat }) { n } else {
                (if data.max_stacks >= 1 { data.max_stacks as nat } else { 1nat }) }) as u32,
            remaining_ticks: data.duration_ticks,
            applied_at_tick: tick,
        }),
    decreases n,
{
    let id = data.buff_id@;
    if n == 1 {
        assert(applied_n(s, data, tick, 0) == s);
        assert(!exists|i: int| is_first_match(s, id, i));
    } else {
        lemma_additive_stacks(s, data, tick, (n - 1) as nat);
        let prev = applied_n(s, data, tick, (n - 1) as nat);
        assert(is_first_match(prev, id, s.len() as int));
        let c = first_match(prev, id);
        assert(is_first_match(prev, id, c));
        assert(c == s.len());
        assert(prev.update(c, restacked(prev[c])) =~= s.push(restacked(prev[c])));
    }
}

/// Law: counting down never goes below zero; after `k` ticks a buff has
/// `max(remaining - k, 0)` ticks left and is otherwise unchanged.
pub proof fn lemma_buff_countdown<M>(b: ActiveBuff<M>, k: nat)
    ensures
        ticked_n(b, k).remaining_ticks == (if b.remaining_ticks >= k { (b.remaining_ticks - k) as int } else { 0int }),
        ticked_n(b, k).data == b.data,
        ticked_n(b, k).current_stacks == b.current_stacks,
        ticked_n(b, k).applied_at_tick == b.applied_at_tick,
    decreases k,
{
    if k > 0 {
        lemma_buff_countdown(b, (k - 1) as nat);
    }
}

/// Law: after expired buffs are removed, every buff left has time left,
/// and every buff with time left is kept.
pub proof fn lemma_unexpired_exact<M>(s: Seq<ActiveBuff<M>>)
    ensures
        forall|i: int| 0 <= i < unexpired(s).len() ==> unexpired(s)[i].remaining_ticks > 0,
        forall|i: int| 0 <= i < s.len() && s[i].remaining_ticks > 0 ==> unexpired(s).contains(s[i]),
        unexpired(s).len() <= s.len(),
    decreases s.len(),
{
    if s.len() > 0 {
        let t = s.drop_last();
        lemma_unexpired_exact(t);
        let r = unexpired(t);
        assert forall|i: int| 0 <= i < s.len() && s[i].remaining_ticks > 0 implies unexpired(s).contains(s[i]) by {
            if i < s.len() - 1 {
                assert(t[i] == s[i]);
                assert(r.contains(s[i]));
                let j = choose|j: int| 0 <= j < r.len() && r[j] == s[i];
                if s.last().remaining_ticks > 0 {
                    assert(r.push(s.last())[j] == s[i]);
                }
            } else {
                assert(r.push(s.last())[r.len() as int] == s[i]);
            }
        }
    }
}

/// Law: an application of a buff that the list does not hold yet (or of
/// a replace or independent buff) ends the list with a new instance of it:
/// one stack, its full duration, applied at this tick. An additive buff
/// that the list holds instead has its first instance gain a stack (up to
/// its limit) and its duration refreshed, in place, with the rest of the
/// list unchanged.
pub proof fn lemma_application_effect<M>(s: Seq<ActiveBuff<M>>, data: BuffData<M>, tick: u64, i: int)
    ensures
        (data.stack_type != StackType::Additive || forall|j: int| 0 <= j < s.len() ==> #[trigger] s[j].data.buff_id@ != data.buff_id@) ==> {
            let r = applied(s, data, tick);
            &&& r.len() > 0
            &&& r.last().data == data
            &&& r.last().current_stacks == 1
            &&& r.last().remaining_ticks == data.duration_ticks
            &&& r.last().applied_at_tick == tick
        },
        data.stack_type == StackType::Additive && 0 <= i < s.len() && s[i].data.buff_id@ == data.buff_id@
            && (forall|j: int| 0 <= j < i ==> #[trigger] s[j].data.buff_id@ != data.buff_id@) ==> {
            let r = applied(s, data, tick);
            &&& r.len() == s.len()
            &&& r[i].data == s[i].data
            &&& r[i].current_stacks == (if s[i].current_stacks < s[i].data.max_stacks { s[i].current_stacks + 1 } else { s[i].current_stacks as int })
            &&& r[i].remaining_ticks == s[i].data.duration_ticks
            &&& r[i].applied_at_tick == s[i].applied_at_tick
            &&& forall|j: int| 0 <= j < s.len() && j != i ==> #[trigger] r[j] == s[j]
        },
{
    if data.stack_type == StackType::Additive {
        if forall|j: int| 0 <= j < s.len() ==> #[trigger] s[j].data.buff_id@ != data.buff_id@ {
            assert(!exists|k: int| is_first_match(s, data.buff_id@, k));
        }
        if 0 <= i < s.len() && s[i].data.buff_id@ == data.buff_id@
            && (forall|j: int| 0 <= j < i ==> #[trigger] s[j].data.buff_id@ != data.buff_id@) {
            assert(is_first_match(s, data.buff_id@, i));
            let k = first_match(s, data.buff_id@);
            assert(is_first_match(s, data.buff_id@, k));
            assert(k == i) by {
                if k < i {
                    assert(s[k].data.buff_id@ != data.buff_id@);
                } else if k > i {
                    assert(s[i].data.buff_id@ != data.buff_id@);
                }
            }
        }
    }
}

/// Law: a buff of the independent kind always adds one instance.
pub proof fn lemma_independent_adds_one<M>(s: Seq<ActiveBuff<M>>, data: BuffData<M>, tick: u64)
    requires
        data.stack_type == StackType::Independent,
    ensures
        applied(s, data, tick).len() == s.len() + 1,
        count_id(applied(s, data, tick), data.buff_id@) == count_id(s, data.buff_id@) + 1,
{
    assert(s.push(fresh_buff(data, tick)).drop_last() =~= s);
}

/// Drop every buff carrying `id` from `list`.
fn remove_buff_id<M>(list: Vec<ActiveBuff<M>>, id: &String) -> (r: Vec<ActiveBuff<M>>)
    ensures
        r@ == without_buff(list@, id@),
{
    let ghost orig = list@;
    let mut rest = list;
    let mut out: Vec<ActiveBuff<M>> = Vec::new();
    let mut k: usize = 0;
    let n = rest.len();
    assert(orig.take(0) =~= Seq::<ActiveBuff<M>>::empty());
    while rest.len() > 0
        invariant
            n == orig.len(),
            k + rest@.len() == n,
            rest@ == orig.skip(k as int),
            out@ == without_buff(orig.take(k as int), id@),
        decreases rest@.len(),
    {
        let b = rest.remove(0);
        assert(orig.take(k + 1).drop_last() =~= orig.take(k as int));
        assert(orig.take(k + 1).last() == b);
        if !(b.data.buff_id == *id) {
            out.push(b);
        }
        k = k + 1;
        assert(rest@ =~= orig.skip(k as int));
    }
    assert(orig.take(n as int) =~= orig);
    out
}

/// Keep only the buffs with time left.
fn keep_unexpired<M>(list: Vec<ActiveBuff<M>>) -> (r: Vec<ActiveBuff<M>>)
    ensures
        r@ == unexpired(list@),
{
    let ghost orig = list@;
    let mut rest = list;
    let mut out: Vec<ActiveBuff<M>> = Vec::new();
    let mut k: usize = 0;
    let n = rest.len();
    assert(orig.take(0) =~= Seq::<ActiveBuff<M>>::empty());
    while rest.len() > 0
        invariant
            n == orig.len(),
            k + rest@.len() == n,
            rest@ == orig.skip(k as int),
            out@ == unexpired(orig.take(k as int)),
        decreases rest@.len(),
    {
        let b = rest.remove(0);
        assert(orig.take(k + 1).drop_last() =~= orig.take(k as int));
        assert(orig.take(k + 1).last() == b);
        if b.remaining_ticks > 0 {
            out.push(b);
        }
        k = k + 1;
        assert(rest@ =~= orig.skip(k as int));
    }
    assert(orig.take(n as int) =~= orig);
    out
}

/// Count down every buff of a list by one tick.
fn tick_list<M>(list: &mut Vec<ActiveBuff<M>>)
    ensures
        final(list)@ == ticked_list(old(list)@),
{
    let ghost orig = list@;
    let n = list.len();
    let mut j: usize = 0;
    while j < n
        invariant
            n == orig.len(),
            list@.len() == n,
            j <= n,
            forall|a: int| 0 <= a < j ==> list@[a] == ticked(orig[a]),
            forall|a: int| j <= a < n ==> list@[a] == orig[a],
        decreases n - j,
    {
        if list[j].remaining_ticks > 0 {
            list[j].remaining_ticks = list[j].remaining_ticks - 1;
        }
        j = j + 1;
    }
    assert(list@ =~= ticked_list(orig));
}

/// One application of `data` to a character's list.
fn apply_to_list<M>(list: Vec<ActiveBuff<M>>, data: BuffData<M>, current_tick: u64) -> (r: Vec<ActiveBuff<M>>)
    ensures
        r@ == applied(list@, data, current_tick),
{
    match data.stack_type {
        StackType::Replace => {
            let mut out = remove_buff_id(list, &data.buff_id);
            let duration = data.duration_ticks;
            out.push(ActiveBuff { data, current_stacks: 1, remaining_ticks: duration, applied_at_tick: current_tick });
            out
        },
        StackType::Additive => {
            let ghost orig = list@;
            let mut l = list;
            let n = l.len();
            let mut i: usize = 0;
            #[verifier::loop_isolation(false)]
            while i < n
                invariant
                    data.stack_type == StackType::Additive,
                    l@ == orig,
                    n == l@.len(),
                    i <= n,
                    forall|j: int| 0 <= j < i ==> l@[j].data.buff_id@ != data.buff_id@,
                decreases n - i,
            {
                if l[i].data.buff_id == data.buff_id {
                    proof {
                        assert(is_first_match(l@, data.buff_id@, i as int));
                        let c = first_match(l@, data.buff_id@);
                        assert(is_first_match(l@, data.buff_id@, c));
                        assert(c == i);
                    }
                    let ghost before = l@;
                    if l[i].current_stacks < l[i].data.max_stacks {
                        l[i].current_stacks = l[i].current_stacks + 1;
                    }
                    l[i].remaining_ticks = l[i].data.duration_ticks;
                    assert(l@ =~= before.update(i as int, restacked(before[i as int])));
                    assert(l@ == applied(orig, data, current_tick));
                    return l;
                }
                i = i + 1;
            }
            assert(!exists|k: int| is_first_match(l@, data.buff_id@, k));
            let duration = data.duration_ticks;
            l.push(ActiveBuff { data, current_stacks: 1, remaining_ticks: duration, applied_at_tick: current_tick });
            l
        },
        StackType::Independent => {
            let mut l = list;
            let duration = data.duration_ticks;
            l.push(ActiveBuff { data, current_stacks: 1, remaining_ticks: duration, applied_at_tick: current_tick });
            l
        },
    }
}

/// Central buff manager holding active buffs per character.
pub struct BuffManager<M> {
    buffs: Vec<(String, Vec<ActiveBuff<M>>)>,
}

impl<M> BuffManager<M> {
    /// Each character appears at most once.
    pub closed spec fn wf(self) -> bool {
        keys_distinct(self.buffs@)
    }

    /// The buff list of a character, if the manager has ever held one.
    pub closed spec fn buffs_of(self, character_id: Seq<char>) -> Option<Seq<ActiveBuff<M>>> {
        lookup(self.buffs@, character_id)
    }

    /// Number of active buffs across all characters.
    pub closed spec fn total(self) -> nat {
        total_len(self.buffs@)
    }

    /// An empty manager.
    pub fn new() -> (m: Self)
        ensures
            m.wf(),
            forall|id: Seq<char>| m.buffs_of(id) is None,
            m.total() == 0,
    {
        BuffManager { buffs: Vec::new() }
    }

    /// Apply a buff to a character, following the buff's stack type.
    pub fn apply_buff(&mut self, character_id: &str, data: BuffData<M>, current_tick: u64)
        requires
            old(self).wf(),
        ensures
            final(self).wf(),
            final(self).buffs_of(character_id@)
                == Some(applied(list_or_empty(old(self).buffs_of(character_id@)), data, current_tick)),
            forall|id: Seq<char>| id != character_id@ ==> final(self).buffs_of(id) == old(self).buffs_of(id),
            final(self).total() == old(self).total() - list_or_empty(old(self).buffs_of(character_id@)).len()
                + applied(list_or_empty(old(self).buffs_of(character_id@)), data, current_tick).len(),
    {
        let key = String::from_str(character_id);
        let idx = match find_key(&self.buffs, &key) {
            Some(i) => i,
            None => {
                let ghost s0 = self.buffs@;
                let e: (String, Vec<ActiveBuff<M>>) = (key, Vec::new());
                self.buffs.push(e);
                proof {
                    assert forall|a: int, b: int| 0 <= a < b < self.buffs@.len() implies self.buffs@[a].0@ != self.buffs@[b].0@ by {
                        if b == s0.len() {
                            assert(self.buffs@[a] == s0[a]);
                        } else {
                            assert(self.buffs@[a] == s0[a] && self.buffs@[b] == s0[b]);
                        }
                    }
                    assert forall|id: Seq<char>| #[trigger] lookup(self.buffs@, id) == (if id == character_id@ { Some(Seq::<ActiveBuff<M>>::empty()) } else { lookup(s0, id) }) by {
                        lemma_lookup_push(s0, e, id);
                    }
                    lemma_total_push(s0, e);
                }
                self.buffs.len() - 1
            },
        };
        let ghost s1 = self.buffs@;
        let ghost old_list = self.buffs@[idx as int].1@;
        assert(lookup(s1, character_id@) == Some(old_list)) by { lemma_lookup_at(s1, idx as int); }
        let mut list: Vec<ActiveBuff<M>> = Vec::new();
        std::mem::swap(&mut list, &mut self.buffs[idx].1);
        let mut updated = apply_to_list(list, data, current_tick);
        std::mem::swap(&mut updated, &mut self.buffs[idx].1);
        proof {
            assert(self.buffs@ == s1.update(idx as int, self.buffs@[idx as int]));
            assert forall|id: Seq<char>| #[trigger] lookup(self.buffs@, id) == (if id == character_id@ { Some(self.buffs@[idx as int].1@) } else { lookup(s1, id) }) by {
                lemma_lookup_update(s1, idx as int, self.buffs@[idx as int], id);
            }
            lemma_lookup_update(s1, idx as int, self.buffs@[idx as int], character_id@);
            lemma_total_update(s1, idx as int, self.buffs@[idx as int]);
        }
    }

    /// Remove all buffs whose remaining duration has reached zero.
    pub fn remove_expired(&mut self, _current_tick: u64)
        requires
            old(self).wf(),
        ensures
            final(self).wf(),
            forall|id: Seq<char>| #[trigger] final(self).buffs_of(id)
                == unexpired_opt(old(self).buffs_of(id)),
    {
        let ghost orig = self.buffs@;
        let n = self.buffs.len();
        let mut i: usize = 0;
        while i < n
            invariant
                n == orig.len(),
                self.buffs@.len() == n,
                i <= n,
                keys_distinct(orig),
                same_keys(orig, self.buffs@),
                forall|a: int| 0 <= a < i ==> self.buffs@[a].1@ == unexpired(orig[a].1@),
                forall|a: int| i <= a < n ==> self.buffs@[a].1@ == orig[a].1@,
            decreases n - i,
        {
            let mut list: Vec<ActiveBuff<M>> = Vec::new();
            std::mem::swap(&mut list, &mut self.buffs[i].1);
            let mut kept = keep_unexpired(list);
            std::mem::swap(&mut kept, &mut self.buffs[i].1);
            i = i + 1;
        }
        proof {
            assert forall|id: Seq<char>| #[trigger] lookup(self.buffs@, id)
                == unexpired_opt(lookup(orig, id)) by {
                lemma_lookup_same_keys(orig, self.buffs@, id);
                if has_key(orig, id) {
                    let k = choose|k: int| 0 <= k < orig.len() && orig[k].0@ == id;
                    lemma_lookup_at(orig, k);
                    assert(self.buffs@[k].0@ == orig[k].0@);
                    lemma_lookup_at(self.buffs@, k);
                    assert(lookup(orig, id) == Some(orig[k].1@));
                    assert(lookup(self.buffs@, id) == Some(self.buffs@[k].1@));
                } else {
                    lemma_lookup_absent(orig, id);
                    assert(lookup(orig, id) is None);
                    assert(lookup(self.buffs@, id) is None);
                }
            }
            lemma_lookup_same_keys(orig, self.buffs@, Seq::empty());
        }
    }

    /// Count down every active buff by one tick (never below zero).
    pub fn on_tick(&mut self, _current_tick: u64)
        requires
            old(self).wf(),
        ensures
            final(self).wf(),
            forall|id: Seq<char>| #[trigger] final(self).buffs_of(id)
                == ticked_opt(old(self).buffs_of(id)),
    {
        let ghost orig = self.buffs@;
        let n = self.buffs.len();
        let mut i: usize = 0;
        while i < n
            invariant
                n == orig.len(),
                self.buffs@.len() == n,
                i <= n,
                keys_distinct(orig),
                same_keys(orig, self.buffs@),
                forall|a: int| 0 <= a < i ==> self.buffs@[a].1@ == ticked_list(orig[a].1@),
                forall|a: int| i <= a < n ==> self.buffs@[a].1@ == orig[a].1@,
            decreases n - i,
        {
            tick_list(&mut self.buffs[i].1);
            i = i + 1;
        }
        proof {
            assert forall|id: Seq<char>| #[trigger] lookup(self.buffs@, id)
                == ticked_opt(lookup(orig, id)) by {
                lemma_lookup_same_keys(orig, self.buffs@, id);
                if has_key(orig, id) {
                    let k = choose|k: int| 0 <= k < orig.len() && orig[k].0@ == id;
                    lemma_lookup_at(orig, k);
                    assert(self.buffs@[k].0@ == orig[k].0@);
                    lemma_lookup_at(self.buffs@, k);
                    assert(lookup(orig, id) == Some(orig[k].1@));
                    assert(lookup(self.buffs@, id) == Some(self.buffs@[k].1@));
                } else {
                    lemma_lookup_absent(orig, id);
                    assert(lookup(orig, id) is None);
                    assert(lookup(self.buffs@, id) is None);
                }
            }
            lemma_lookup_same_keys(orig, self.buffs@, Seq::empty());
        }
    }

    /// The buffs of a character, if the manager holds a list for it.
    pub fn buffs_for(&self, character_id: &str) -> (r: Option<&Vec<ActiveBuff<M>>>)
        requires
            self.wf(),
        ensures
            r is None <==> self.buffs_of(character_id@) is None,
            r matches Some(v) ==> self.buffs_of(character_id@) == Some(v@),
    {
        let key = String::from_str(character_id);
        match find_key(&self.buffs, &key) {
            Some(i) => Some(&self.buffs[i].1),
            None => None,
        }
    }

    /// Number of active buffs across all characters (saturating at the
    /// largest `usize`).
    pub fn total_active_buffs(&self) -> (n: usize)
        ensures
            n as int == if self.total() <= usize::MAX { self.total() as int } else { usize::MAX as int },
    {
        let ghost s = self.buffs@;
        let len = self.buffs.len();
        let mut acc: usize = 0;
        let mut i: usize = 0;
        assert(s.take(0) =~= Seq::<(String, Vec<ActiveBuff<M>>)>::empty());
        while i < len
            invariant
                len == s.len(),
                s == self.buffs@,
                i <= len,
                acc as int == if total_len(s.take(i as int)) <= usize::MAX { total_len(s.take(i as int)) as int } else { usize::MAX as int },
            decreases len - i,
        {
            assert(s.take(i + 1).drop_last() =~= s.take(i as int));
            acc = acc.saturating_add(self.buffs[i].1.len());
            i = i + 1;
        }
        assert(s.take(len as int) =~= s);
        acc
    }
}

impl<M> Default for BuffManager<M> {
    /// An empty manager.
    fn default() -> (m: Self)
        ensures
            m.wf(),
            forall|id: Seq<char>| m.buffs_of(id) is None,
            m.total() == 0,
    {
        Self::new()
    }
}

} // verus!
