//! Equipment rules that need no numbers: disc set definitions, which set
//! bonuses a character's drive discs earn, and the names under which
//! equipment stats enter the buff system.
use vstd::prelude::*;
use crate::data_entry::DiscSetRecord;

verus! {

/// How long equipment stat buffs last: the longest simulation.
pub const EQUIPMENT_BUFF_DURATION: u64 = 18000;

/// A set bonus: its description and the buff it applies.
#[derive(Debug)]
pub struct DiscBonus {
    pub description: String,
    /// Buff applied when the set threshold is met.
    pub buff_id: String,
}

/// A drive disc set with its two- and four-piece bonuses.
#[derive(Debug)]
pub struct DiscSet {
    pub set_id: String,
    pub name: String,
    pub two_piece_bonus: Option<DiscBonus>,
    pub four_piece_bonus: Option<DiscBonus>,
}

/// The buff of an optional bonus.
pub open spec fn bonus_buff(b: Option<DiscBonus>) -> Option<Seq<char>> {
    match b {
        Some(x) => Some(x.buff_id@),
        None => None,
    }
}

/// The last definition of set `id` (a later definition replaces an
/// earlier one).
pub open spec fn set_def(sets: Seq<DiscSet>, id: Seq<char>) -> Option<DiscSet>
    decreases sets.len(),
{
    if sets.len() == 0 {
        None
    } else if sets.last().set_id@ == id {
        Some(sets.last())
    } else {
        set_def(sets.drop_last(), id)
    }
}

/// How many discs belong to set `id`.
pub open spec fn set_count(ids: Seq<Seq<char>>, id: Seq<char>) -> nat
    decreases ids.len(),
{
    if ids.len() == 0 {
        0
    } else {
        set_count(ids.drop_last(), id) + if ids.last() == id { 1nat } else { 0nat }
    }
}

/// The distinct non-empty set ids, in order of first appearance.
pub open spec fn sets_seen(ids: Seq<Seq<char>>) -> Seq<Seq<char>>
    decreases ids.len(),
{
    if ids.len() == 0 {
        Seq::empty()
    } else {
        let r = sets_seen(ids.drop_last());
        if ids.last().len() > 0 && !r.contains(ids.last()) { r.push(ids.last()) } else { r }
    }
}

/// A bonus buff counts when present and named.
pub open spec fn named(b: Option<Seq<char>>) -> Seq<Seq<char>> {
    match b {
        Some(id) => if id.len() > 0 { seq![id] } else { Seq::empty() },
        None => Seq::empty(),
    }
}

/// The bonus buffs `count` discs of a set earn: the two-piece bonus from
/// two discs on, the four-piece bonus from four on.
pub open spec fn earned(def: Option<DiscSet>, count: nat) -> Seq<Seq<char>> {
    match def {
        Some(d) => (if count >= 2 { named(bonus_buff(d.two_piece_bonus)) } else { Seq::empty() })
            + (if count >= 4 { named(bonus_buff(d.four_piece_bonus)) } else { Seq::empty() }),
        None => Seq::empty(),
    }
}

/// A list of strings as plain text.
pub open spec fn string_views(s: Seq<String>) -> Seq<Seq<char>> {
    s.map_values(|x: String| x@)
}

/// The bonus buffs earned by discs of the given sets, set by set in order
/// of first appearance.
pub open spec fn set_bonuses(ids: Seq<Seq<char>>, sets: Seq<DiscSet>) -> Seq<Seq<char>> {
    let seen = sets_seen(ids);
    Seq::new(seen.len(), |k: int| earned(set_def(sets, seen[k]), set_count(ids, seen[k]))).flatten()
}

proof fn lemma_count_implies_seen(ids: Seq<Seq<char>>, id: Seq<char>)
    requires
        id.len() > 0,
        set_count(ids, id) > 0,
    ensures
        sets_seen(ids).contains(id),
    decreases ids.len(),
{
    let r = sets_seen(ids.drop_last());
    if ids.last() == id {
        if !r.contains(id) {
            assert(sets_seen(ids) == r.push(id));
            assert(sets_seen(ids)[r.len() as int] == id);
        }
    } else {
        lemma_count_implies_seen(ids.drop_last(), id);
        let k = choose|k: int| 0 <= k < r.len() && r[k] == id;
        if ids.last().len() > 0 && !r.contains(ids.last()) {
            assert(sets_seen(ids)[k] == id);
        }
    }
}

proof fn lemma_seen_nonempty(ids: Seq<Seq<char>>)
    ensures
        forall|k: int| 0 <= k < sets_seen(ids).len() ==> (#[trigger] sets_seen(ids)[k]).len() > 0,
    decreases ids.len(),
{
    if ids.len() > 0 {
        lemma_seen_nonempty(ids.drop_last());
        let r = sets_seen(ids.drop_last());
        assert forall|k: int| 0 <= k < sets_seen(ids).len() implies (#[trigger] sets_seen(ids)[k]).len() > 0 by {
            if k < r.len() {
                assert(sets_seen(ids)[k] == r[k]);
            }
        }
    }
}

/// Whether a disc's set is `id`.
pub open spec fn of_set(id: Seq<char>) -> spec_fn(Seq<char>) -> bool {
    |x: Seq<char>| x == id
}

/// How many of the discs belong to set `id`.
pub open spec fn disc_count(ids: Seq<Seq<char>>, id: Seq<char>) -> nat {
    ids.filter(of_set(id)).len()
}

/// `k` is the position of the last definition of set `id`.
pub open spec fn is_last_def(sets: Seq<DiscSet>, id: Seq<char>, k: int) -> bool {
    &&& 0 <= k < sets.len()
    &&& sets[k].set_id@ == id
    &&& forall|j: int| k < j < sets.len() ==> #[trigger] sets[j].set_id@ != id
}

proof fn lemma_set_count_is_disc_count(ids: Seq<Seq<char>>, id: Seq<char>)
    ensures
        set_count(ids, id) == disc_count(ids, id),
    decreases ids.len(),
{
    reveal(Seq::filter);
    if ids.len() > 0 {
        lemma_set_count_is_disc_count(ids.drop_last(), id);
        reveal(Seq::filter);
        let p = of_set(id);
        assert(ids.filter(p) == (if p(ids.last()) { ids.drop_last().filter(p).push(ids.last()) } else { ids.drop_last().filter(p) }));
    }
}

proof fn lemma_set_def_last(sets: Seq<DiscSet>, id: Seq<char>)
    ensures
        set_def(sets, id) matches Some(d) ==> exists|k: int| is_last_def(sets, id, k) && sets[k] == d,
        forall|k: int| #[trigger] is_last_def(sets, id, k) ==> set_def(sets, id) == Some(sets[k]),
    decreases sets.len(),
{
    if sets.len() > 0 {
        let t = sets.drop_last();
        lemma_set_def_last(t, id);
        let n = sets.len() - 1;
        if sets.last().set_id@ == id {
            assert(is_last_def(sets, id, n));
            assert forall|k: int| #[trigger] is_last_def(sets, id, k) implies set_def(sets, id) == Some(sets[k]) by {
                if k < n {
                    assert(sets[n].set_id@ != id);
                }
            }
        } else {
            match set_def(sets, id) {
                Some(d) => {
                    let k = choose|k: int| is_last_def(t, id, k) && t[k] == d;
                    assert forall|j: int| k < j < sets.len() implies #[trigger] sets[j].set_id@ != id by {
                        if j < n {
                            assert(t[j] == sets[j]);
                        }
                    }
                    assert(is_last_def(sets, id, k));
                },
                None => {},
            }
            assert forall|k: int| #[trigger] is_last_def(sets, id, k) implies set_def(sets, id) == Some(sets[k]) by {
                assert(k != n);
                assert(t[k] == sets[k]);
                assert forall|j: int| k < j < t.len() implies #[trigger] t[j].set_id@ != id by {
                    assert(t[j] == sets[j]);
                }
                assert(is_last_def(t, id, k));
            }
        }
    }
}

proof fn lemma_flatten_contains<A>(x: Seq<Seq<A>>, b: A)
    ensures
        x.flatten().contains(b) <==> exists|k: int| 0 <= k < x.len() && #[trigger] x[k].contains(b),
    decreases x.len(),
{
    if x.len() > 0 {
        let rest = x.drop_first();
        lemma_flatten_contains(rest, b);
        let f = x.flatten();
        assert(f == x.first() + rest.flatten());
        if f.contains(b) {
            let i = choose|i: int| 0 <= i < f.len() && f[i] == b;
            if i < x.first().len() {
                assert(x[0].contains(b));
            } else {
                assert(rest.flatten()[i - x.first().len()] == b);
                assert(rest.flatten().contains(b));
                let k = choose|k: int| 0 <= k < rest.len() && #[trigger] rest[k].contains(b);
                assert(rest[k] == x[k + 1]);
            }
        }
        if exists|k: int| 0 <= k < x.len() && #[trigger] x[k].contains(b) {
            let k = choose|k: int| 0 <= k < x.len() && #[trigger] x[k].contains(b);
            let j = choose|j: int| 0 <= j < x[k].len() && x[k][j] == b;
            if k == 0 {
                assert(f[j] == b);
            } else {
                assert(rest[k - 1] == x[k]);
                assert(rest.flatten().contains(b));
                let i = choose|i: int| 0 <= i < rest.flatten().len() && rest.flatten()[i] == b;
                assert(f[x.first().len() + i] == b);
            }
        }
    } else {
        assert(x.flatten() =~= Seq::<A>::empty());
    }
}

/// Law: every bonus buff a character earns comes from the last definition
/// of a set (with a non-empty id) among its discs: a two-piece buff needs
/// at least two discs of that set, a four-piece buff at least four.
pub proof fn lemma_bonus_needs_discs(ids: Seq<Seq<char>>, sets: Seq<DiscSet>, b: Seq<char>)
    requires
        set_bonuses(ids, sets).contains(b),
    ensures
        exists|k: int| #[trigger] is_last_def(sets, sets[k].set_id@, k) && sets[k].set_id@.len() > 0 && {
            let n = disc_count(ids, sets[k].set_id@);
            ||| sets[k].two_piece_bonus matches Some(x) && x.buff_id@ == b && n >= 2
            ||| sets[k].four_piece_bonus matches Some(x) && x.buff_id@ == b && n >= 4
        },
{
    let seen = sets_seen(ids);
    let parts = Seq::new(seen.len(), |q: int| earned(set_def(sets, seen[q]), set_count(ids, seen[q])));
    lemma_flatten_contains(parts, b);
    let q = choose|q: int| 0 <= q < parts.len() && #[trigger] parts[q].contains(b);
    let id = seen[q];
    lemma_seen_nonempty(ids);
    assert(id.len() > 0);
    lemma_set_count_is_disc_count(ids, id);
    lemma_set_def_last(sets, id);
    let c = set_count(ids, id);
    match set_def(sets, id) {
        Some(d) => {
            let k = choose|k: int| is_last_def(sets, id, k) && sets[k] == d;
            let two = if c >= 2 { named(bonus_buff(d.two_piece_bonus)) } else { Seq::empty() };
            let four = if c >= 4 { named(bonus_buff(d.four_piece_bonus)) } else { Seq::empty() };
            assert(parts[q] == two + four);
            let i = choose|i: int| 0 <= i < parts[q].len() && parts[q][i] == b;
            if i < two.len() {
                assert(two[i] == b);
            } else {
                assert(four[i - two.len()] == b);
            }
            assert(is_last_def(sets, sets[k].set_id@, k));
        },
        None => {
            assert(parts[q] =~= Seq::<Seq<char>>::empty());
        },
    }
}

/// Law: the last definition of a set among a character's discs grants its
/// two-piece buff when at least two discs are of that set, and its
/// four-piece buff when at least four are (a bonus with an empty buff
/// name grants nothing).
pub proof fn lemma_discs_earn_bonus(ids: Seq<Seq<char>>, sets: Seq<DiscSet>, k: int)
    requires
        is_last_def(sets, sets[k].set_id@, k),
        sets[k].set_id@.len() > 0,
    ensures
        disc_count(ids, sets[k].set_id@) >= 2 && sets[k].two_piece_bonus is Some
            && sets[k].two_piece_bonus.unwrap().buff_id@.len() > 0
            ==> set_bonuses(ids, sets).contains(sets[k].two_piece_bonus.unwrap().buff_id@),
        disc_count(ids, sets[k].set_id@) >= 4 && sets[k].four_piece_bonus is Some
            && sets[k].four_piece_bonus.unwrap().buff_id@.len() > 0
            ==> set_bonuses(ids, sets).contains(sets[k].four_piece_bonus.unwrap().buff_id@),
{
    let id = sets[k].set_id@;
    lemma_set_count_is_disc_count(ids, id);
    lemma_set_def_last(sets, id);
    assert(set_def(sets, id) == Some(sets[k]));
    let c = set_count(ids, id);
    if c >= 2 {
        lemma_count_implies_seen(ids, id);
        let seen = sets_seen(ids);
        let q = choose|q: int| 0 <= q < seen.len() && seen[q] == id;
        let parts = Seq::new(seen.len(), |p: int| earned(set_def(sets, seen[p]), set_count(ids, seen[p])));
        let d = sets[k];
        let two = named(bonus_buff(d.two_piece_bonus));
        let four = if c >= 4 { named(bonus_buff(d.four_piece_bonus)) } else { Seq::empty() };
        assert(parts[q] == two + four);
        lemma_flatten_contains(parts, id);
        if d.two_piece_bonus is Some && d.two_piece_bonus.unwrap().buff_id@.len() > 0 {
            let x = d.two_piece_bonus.unwrap();
            assert(two[0] == x.buff_id@);
            assert(parts[q][0] == x.buff_id@);
            assert(parts[q].contains(x.buff_id@));
            lemma_flatten_contains(parts, x.buff_id@);
        }
        if c >= 4 {
            if d.four_piece_bonus is Some && d.four_piece_bonus.unwrap().buff_id@.len() > 0 {
                let x = d.four_piece_bonus.unwrap();
                assert(four[0] == x.buff_id@);
                assert(parts[q][two.len() as int] == x.buff_id@);
                assert(parts[q].contains(x.buff_id@));
                lemma_flatten_contains(parts, x.buff_id@);
            }
        }
    }
}

/// The buff ids of the set bonuses that the discs' sets (`disc_set_ids`,
/// one per disc; empty for a disc of no set) earn under the set
/// definitions `disc_sets` (see `set_bonuses`).
pub fn resolve_set_bonuses(disc_set_ids: &Vec<String>, disc_sets: &Vec<DiscSet>) -> (r: Vec<String>)
    ensures
        string_views(r@) == set_bonuses(string_views(disc_set_ids@), disc_sets@),
{
    let ghost ids = string_views(disc_set_ids@);
    let mut seen: Vec<String> = Vec::new();
    let mut counts: Vec<usize> = Vec::new();
    let mut i: usize = 0;
    while i < disc_set_ids.len()
        invariant
            i <= disc_set_ids.len(),
            ids == string_views(disc_set_ids@),
            string_views(seen@) == sets_seen(ids.take(i as int)),
            counts@.len() == seen@.len(),
            forall|j: int| 0 <= j < counts@.len() ==> #[trigger] counts@[j] == set_count(ids.take(i as int), seen@[j]@),
            forall|j: int| 0 <= j < counts@.len() ==> #[trigger] counts@[j] <= i,
            forall|a: int, b: int| 0 <= a < b < seen@.len() ==> seen@[a]@ != seen@[b]@,
        decreases disc_set_ids.len() - i,
    {
        let ghost pre = ids.take(i as int);
        let ghost post = ids.take(i as int + 1);
        proof {
            assert(post.drop_last() =~= pre);
            assert(post.last() == disc_set_ids@[i as int]@);
        }
        let id = &disc_set_ids[i];
        if id.as_str().is_empty() {
            proof {
                assert(string_views(seen@) =~= sets_seen(post));
                assert forall|j: int| 0 <= j < counts@.len() implies #[trigger] counts@[j] == set_count(post, seen@[j]@) by {
                    lemma_seen_nonempty(pre);
                    assert(string_views(seen@)[j] == seen@[j]@);
                }
            }
        } else {
            let mut j: usize = 0;
            let mut found = false;
            while j < seen.len() && !found
                invariant
                    j <= seen.len(),
                    found ==> j < seen.len() && seen@[j as int]@ == id@,
                    forall|m: int| 0 <= m < j ==> seen@[m]@ != id@,
                decreases seen.len() - j, if found { 0int } else { 1int },
            {
                if seen[j] == *id {
                    found = true;
                } else {
                    j = j + 1;
                }
            }
            let ghost sv = string_views(seen@);
            if found {
                let c = counts[j];
                counts.set(j, c + 1);
                proof {
                    assert(sv[j as int] == id@);
                    assert(sv.contains(id@));
                    assert(sets_seen(post) == sets_seen(pre));
                    assert forall|m: int| 0 <= m < counts@.len() implies #[trigger] counts@[m] == set_count(post, seen@[m]@) by {
                        if m != j {
                            assert(seen@[m]@ != seen@[j as int]@);
                        }
                    }
                }
            } else {
                seen.push(id.clone());
                counts.push(1);
                proof {
                    assert(!sv.contains(id@)) by {
                        if sv.contains(id@) {
                            let m = choose|m: int| 0 <= m < sv.len() && sv[m] == id@;
                            assert(seen@[m]@ == id@);
                        }
                    }
                    assert(string_views(seen@) =~= sv.push(id@));
                    if set_count(pre, id@) > 0 {
                        lemma_count_implies_seen(pre, id@);
                    }
                    assert forall|m: int| 0 <= m < counts@.len() implies #[trigger] counts@[m] == set_count(post, seen@[m]@) by {
                        if m < sv.len() {
                            assert(seen@[m]@ == sv[m]);
                            assert(sv[m] != id@);
                        }
                    }
                    assert forall|a: int, b: int| 0 <= a < b < seen@.len() implies seen@[a]@ != seen@[b]@ by {
                        if b == sv.len() {
                            assert(seen@[a]@ == sv[a]);
                        }
                    }
                }
            }
        }
        i = i + 1;
    }
    proof {
        assert(ids.take(i as int) =~= ids);
    }
    let ghost seen_v = sets_seen(ids);
    let ghost parts = Seq::new(seen_v.len(), |k: int| earned(set_def(disc_sets@, seen_v[k]), set_count(ids, seen_v[k])));
    let mut r: Vec<String> = Vec::new();
    let mut k: usize = 0;
    while k < seen.len()
        invariant
            k <= seen.len(),
            string_views(seen@) == seen_v,
            counts@.len() == seen@.len(),
            forall|j: int| 0 <= j < counts@.len() ==> #[trigger] counts@[j] == set_count(ids, seen@[j]@),
            parts == Seq::new(seen_v.len(), |q: int| earned(set_def(disc_sets@, seen_v[q]), set_count(ids, seen_v[q]))),
            string_views(r@) == parts.take(k as int).flatten(),
        decreases seen.len() - k,
    {
        let def = find_set(disc_sets, &seen[k]);
        let count = counts[k];
        let ghost before = string_views(r@);
        proof {
            assert(seen_v[k as int] == seen@[k as int]@);
        }
        if count >= 2 {
            if let Some(d) = def {
                if let Some(b) = &d.two_piece_bonus {
                    if !b.buff_id.as_str().is_empty() {
                        r.push(b.buff_id.clone());
                    }
                }
            }
        }
        let ghost mid = string_views(r@);
        if count >= 4 {
            if let Some(d) = def {
                if let Some(b) = &d.four_piece_bonus {
                    if !b.buff_id.as_str().is_empty() {
                        r.push(b.buff_id.clone());
                    }
                }
            }
        }
        proof {
            let e = parts[k as int];
            assert(string_views(r@) =~= before + e);
            parts.take(k as int).lemma_flatten_push(e);
            assert(parts.take(k as int + 1) =~= parts.take(k as int).push(e));
        }
        k = k + 1;
    }
    proof {
        assert(parts.take(k as int) =~= parts);
    }
    r
}

/// The last definition of a set, if any.
fn find_set<'a>(sets: &'a Vec<DiscSet>, id: &String) -> (r: Option<&'a DiscSet>)
    ensures
        match r {
            Some(d) => set_def(sets@, id@) == Some(*d),
            None => set_def(sets@, id@) is None,
        },
{
    let mut found: Option<&DiscSet> = None;
    let mut i: usize = 0;
    while i < sets.len()
        invariant
            i <= sets.len(),
            match found {
                Some(d) => set_def(sets@.take(i as int), id@) == Some(*d),
                None => set_def(sets@.take(i as int), id@) is None,
            },
        decreases sets.len() - i,
    {
        proof {
            assert(sets@.take(i as int + 1).drop_last() =~= sets@.take(i as int));
        }
        if sets[i].set_id == *id {
            found = Some(&sets[i]);
        }
        i = i + 1;
    }
    proof {
        assert(sets@.take(i as int) =~= sets@);
    }
    found
}

/// The buff-system name of an equipment stat name.
pub open spec fn mapped_stat(name: Seq<char>) -> Seq<char> {
    if name == "hp"@ {
        "hp_flat"@
    } else if name == "atk"@ {
        "atk_flat"@
    } else if name == "def"@ {
        "def_flat"@
    } else if name == "pen_fixed"@ {
        "pen"@
    } else {
        name
    }
}

/// Map an equipment stat name to the name the buff system uses
/// (`hp`, `atk`, `def` become flat stats, `pen_fixed` becomes `pen`;
/// other names are kept).
pub fn map_stat_name(name: &str) -> (r: &str)
    ensures
        r@ == mapped_stat(name@),
{
    let n = String::from_str(name);
    if n == String::from_str("hp") {
        "hp_flat"
    } else if n == String::from_str("atk") {
        "atk_flat"
    } else if n == String::from_str("def") {
        "def_flat"
    } else if n == String::from_str("pen_fixed") {
        "pen"
    } else {
        name
    }
}

/// A disc set as plain values, each bonus as (description, buff).
pub struct DiscSetView {
    pub set_id: Seq<char>,
    pub name: Seq<char>,
    pub two_piece: Option<(Seq<char>, Seq<char>)>,
    pub four_piece: Option<(Seq<char>, Seq<char>)>,
}

/// A disc set row as plain values.
pub struct DiscSetRowView {
    pub set_id: Seq<char>,
    pub name: Seq<char>,
    pub two_piece_description: Option<Seq<char>>,
    pub two_piece_buff_id: Option<Seq<char>>,
    pub four_piece_description: Option<Seq<char>>,
    pub four_piece_buff_id: Option<Seq<char>>,
}

/// An optional bonus as plain values.
pub open spec fn bonus_view(b: Option<DiscBonus>) -> Option<(Seq<char>, Seq<char>)> {
    match b {
        Some(x) => Some((x.description@, x.buff_id@)),
        None => None,
    }
}

/// An optional text as plain values.
pub open spec fn text_view(t: Option<String>) -> Option<Seq<char>> {
    match t {
        Some(x) => Some(x@),
        None => None,
    }
}

/// A disc set as plain values.
pub open spec fn set_view(s: DiscSet) -> DiscSetView {
    DiscSetView { set_id: s.set_id@, name: s.name@, two_piece: bonus_view(s.two_piece_bonus), four_piece: bonus_view(s.four_piece_bonus) }
}

/// A disc set row as plain values.
pub open spec fn row_view(r: DiscSetRecord) -> DiscSetRowView {
    DiscSetRowView {
        set_id: r.set_id@,
        name: r.name@,
        two_piece_description: text_view(r.two_piece_description),
        two_piece_buff_id: text_view(r.two_piece_buff_id),
        four_piece_description: text_view(r.four_piece_description),
        four_piece_buff_id: text_view(r.four_piece_buff_id),
    }
}

/// The row of a disc set: a bonus fills both of its columns, a missing
/// bonus leaves both empty.
pub open spec fn row_of_set(s: DiscSetView) -> DiscSetRowView {
    DiscSetRowView {
        set_id: s.set_id,
        name: s.name,
        two_piece_description: match s.two_piece { Some(b) => Some(b.0), None => None },
        two_piece_buff_id: match s.two_piece { Some(b) => Some(b.1), None => None },
        four_piece_description: match s.four_piece { Some(b) => Some(b.0), None => None },
        four_piece_buff_id: match s.four_piece { Some(b) => Some(b.1), None => None },
    }
}

/// The bonus held by two optional columns: present when either column is,
/// a missing column read as empty text.
pub open spec fn bonus_of_columns(description: Option<Seq<char>>, buff_id: Option<Seq<char>>) -> Option<(Seq<char>, Seq<char>)> {
    if description is Some || buff_id is Some {
        Some((
            match description { Some(d) => d, None => Seq::empty() },
            match buff_id { Some(b) => b, None => Seq::empty() },
        ))
    } else {
        None
    }
}

/// The disc set of a row.
pub open spec fn set_of_row(r: DiscSetRowView) -> DiscSetView {
    DiscSetView {
        set_id: r.set_id,
        name: r.name,
        two_piece: bonus_of_columns(r.two_piece_description, r.two_piece_buff_id),
        four_piece: bonus_of_columns(r.four_piece_description, r.four_piece_buff_id),
    }
}

fn bonus_columns(b: &Option<DiscBonus>) -> (r: (Option<String>, Option<String>))
    ensures
        text_view(r.0) == (match bonus_view(*b) { Some(x) => Some(x.0), None => None }),
        text_view(r.1) == (match bonus_view(*b) { Some(x) => Some(x.1), None => None }),
{
    match b {
        Some(x) => (Some(x.description.clone()), Some(x.buff_id.clone())),
        None => (None, None),
    }
}

fn bonus_from_columns(description: Option<String>, buff_id: Option<String>) -> (r: Option<DiscBonus>)
    ensures
        bonus_view(r) == bonus_of_columns(text_view(description), text_view(buff_id)),
{
    if description.is_none() && buff_id.is_none() {
        return None;
    }
    let description = match description {
        Some(d) => d,
        None => String::new(),
    };
    let buff_id = match buff_id {
        Some(b) => b,
        None => String::new(),
    };
    Some(DiscBonus { description, buff_id })
}

/// The database row of a disc set (see `row_of_set`).
pub fn disc_set_record(set: &DiscSet) -> (r: DiscSetRecord)
    ensures
        row_view(r) == row_of_set(set_view(*set)),
{
    let (tp_desc, tp_buff) = bonus_columns(&set.two_piece_bonus);
    let (fp_desc, fp_buff) = bonus_columns(&set.four_piece_bonus);
    DiscSetRecord {
        set_id: set.set_id.clone(),
        name: set.name.clone(),
        two_piece_description: tp_desc,
        two_piece_buff_id: tp_buff,
        four_piece_description: fp_desc,
        four_piece_buff_id: fp_buff,
    }
}

/// The disc set of a database row (see `set_of_row`).
pub fn disc_set_from_record(rec: DiscSetRecord) -> (s: DiscSet)
    ensures
        set_view(s) == set_of_row(row_view(rec)),
{
    let DiscSetRecord { set_id, name, two_piece_description, two_piece_buff_id, four_piece_description, four_piece_buff_id } = rec;
    DiscSet {
        set_id,
        name,
        two_piece_bonus: bonus_from_columns(two_piece_description, two_piece_buff_id),
        four_piece_bonus: bonus_from_columns(four_piece_description, four_piece_buff_id),
    }
}

/// The bonus held by two optional columns as the simulator's loader reads
/// them: present only when both columns are.
pub open spec fn complete_bonus_of_columns(description: Option<Seq<char>>, buff_id: Option<Seq<char>>) -> Option<(Seq<char>, Seq<char>)> {
    match (description, buff_id) {
        (Some(d), Some(b)) => Some((d, b)),
        _ => None,
    }
}

/// The disc set of a row as the simulator's loader reads it.
pub open spec fn loaded_set_of_row(r: DiscSetRowView) -> DiscSetView {
    DiscSetView {
        set_id: r.set_id,
        name: r.name,
        two_piece: complete_bonus_of_columns(r.two_piece_description, r.two_piece_buff_id),
        four_piece: complete_bonus_of_columns(r.four_piece_description, r.four_piece_buff_id),
    }
}

fn complete_bonus(description: Option<String>, buff_id: Option<String>) -> (r: Option<DiscBonus>)
    ensures
        bonus_view(r) == complete_bonus_of_columns(text_view(description), text_view(buff_id)),
{
    match (description, buff_id) {
        (Some(description), Some(buff_id)) => Some(DiscBonus { description, buff_id }),
        _ => None,
    }
}

/// The disc set of a database row for a simulation: a bonus whose
/// description or buff is missing is left out (see `loaded_set_of_row`).
pub fn disc_set_for_simulation(rec: DiscSetRecord) -> (s: DiscSet)
    ensures
        set_view(s) == loaded_set_of_row(row_view(rec)),
{
    let DiscSetRecord { set_id, name, two_piece_description, two_piece_buff_id, four_piece_description, four_piece_buff_id } = rec;
    DiscSet {
        set_id,
        name,
        two_piece_bonus: complete_bonus(two_piece_description, two_piece_buff_id),
        four_piece_bonus: complete_bonus(four_piece_description, four_piece_buff_id),
    }
}

/// Law: a disc set stored as a row and read back for a simulation is the
/// same disc set.
pub proof fn lemma_disc_set_row_loads_back(s: DiscSetView)
    ensures
        loaded_set_of_row(row_of_set(s)) == s,
{
}

/// Law: reading a row back, a bonus is present exactly when its
/// description or its buff column holds text, with a missing column read
/// as empty text; reading it for a simulation, a bonus is present exactly
/// when both columns hold text.
pub proof fn lemma_bonus_columns(d: Option<Seq<char>>, b: Option<Seq<char>>)
    ensures
        bonus_of_columns(d, b) is Some <==> (d is Some || b is Some),
        bonus_of_columns(d, b) matches Some(x) ==> {
            &&& x.0 == (if d is Some { d.unwrap() } else { Seq::<char>::empty() })
            &&& x.1 == (if b is Some { b.unwrap() } else { Seq::<char>::empty() })
        },
        complete_bonus_of_columns(d, b) is Some <==> (d is Some && b is Some),
        complete_bonus_of_columns(d, b) matches Some(x) ==> x.0 == d.unwrap() && x.1 == b.unwrap(),
{
}

/// Law: a disc set stored as a row and read back is the same disc set.
pub proof fn lemma_disc_set_row_round_trip(s: DiscSetView)
    ensures
        set_of_row(row_of_set(s)) == s,
{
}

} // verus!
