//! The timing side of a skill definition: which frames hit, how long the
//! animation runs, charge branches, prerequisite and cooldown. The damage
//! multiplier of each hit is found again by its position in the skill's
//! hit list.
use vstd::prelude::*;

verus! {

/// A charge branch: after charging for `charge_duration` ticks, the
/// variant action runs.
#[derive(Debug)]
pub struct ChargeBranch {
    pub charge_duration: u64,
    pub variant_action_id: String,
}

/// Animation length of a skill whose data gives none.
pub fn default_animation_frames() -> (n: u64)
    ensures
        n == 1,
{
    1
}

/// Timing of one skill.
#[derive(Debug)]
pub struct SkillTiming {
    pub action_id: String,
    /// Frame of each damage hit, in the order of the skill's multipliers.
    pub damage_frames: Vec<u64>,
    pub charge_branches: Vec<ChargeBranch>,
    pub prerequisite_action_id: Option<String>,
    pub cooldown_ticks: u64,
    /// Total animation frames before the action completes.
    pub animation_frames: u64,
}

/// A skill's timing as plain values.
pub struct SkillView {
    pub action_id: Seq<char>,
    pub damage_frames: Seq<u64>,
    /// Charge branches as (duration, variant action).
    pub charge_branches: Seq<(u64, Seq<char>)>,
    pub prerequisite: Option<Seq<char>>,
    pub cooldown_ticks: u64,
    pub animation_frames: u64,
}

impl View for SkillTiming {
    type V = SkillView;

    open spec fn view(&self) -> SkillView {
        SkillView {
            action_id: self.action_id@,
            damage_frames: self.damage_frames@,
            charge_branches: self.charge_branches@.map_values(
                |b: ChargeBranch| (b.charge_duration, b.variant_action_id@),
            ),
            prerequisite: match self.prerequisite_action_id {
                Some(p) => Some(p@),
                None => None,
            },
            cooldown_ticks: self.cooldown_ticks,
            animation_frames: self.animation_frames,
        }
    }
}

/// The skills of a skill book, by their views.
pub open spec fn skills_view(s: Seq<SkillTiming>) -> Seq<SkillView> {
    s.map_values(|k: SkillTiming| k@)
}

/// `i` is the first position of a skill named `id`.
pub open spec fn is_first_skill(skills: Seq<SkillView>, id: Seq<char>, i: int) -> bool {
    &&& 0 <= i < skills.len()
    &&& skills[i].action_id == id
    &&& forall|j: int| 0 <= j < i ==> skills[j].action_id != id
}

/// Position of the skill named `id` in a skill book (the first one).
pub open spec fn skill_index_of(skills: Seq<SkillView>, id: Seq<char>) -> Option<int> {
    if exists|i: int| 0 <= i < skills.len() && skills[i].action_id == id {
        Some(choose|i: int| is_first_skill(skills, id, i))
    } else {
        None
    }
}

/// A skill named `id` at `j` means one named `id` comes first somewhere.
proof fn lemma_first_skill_exists(skills: Seq<SkillView>, id: Seq<char>, j: int)
    requires
        0 <= j < skills.len(),
        skills[j].action_id == id,
    ensures
        exists|i: int| is_first_skill(skills, id, i),
    decreases j,
{
    if exists|k: int| 0 <= k < j && skills[k].action_id == id {
        let k = choose|k: int| 0 <= k < j && skills[k].action_id == id;
        lemma_first_skill_exists(skills, id, k);
    } else {
        assert(is_first_skill(skills, id, j));
    }
}

/// The position `skill_index_of` gives is the first skill of that name.
pub proof fn lemma_skill_index_of(skills: Seq<SkillView>, id: Seq<char>)
    ensures
        skill_index_of(skills, id) matches Some(i) ==> is_first_skill(skills, id, i),
{
    if exists|i: int| 0 <= i < skills.len() && skills[i].action_id == id {
        let j = choose|i: int| 0 <= i < skills.len() && skills[i].action_id == id;
        lemma_first_skill_exists(skills, id, j);
    }
}

/// Look a skill up by name.
pub fn find_skill(skills: &[SkillTiming], id: &String) -> (r: Option<usize>)
    ensures
        match r {
            Some(i) => {
                &&& i < skills.len()
                &&& skill_index_of(skills_view(skills@), id@) == Some(i as int)
                &&& is_first_skill(skills_view(skills@), id@, i as int)
            },
            None => skill_index_of(skills_view(skills@), id@) is None,
        },
{
    let ghost sv = skills_view(skills@);
    let mut i: usize = 0;
    while i < skills.len()
        invariant
            i <= skills.len(),
            sv == skills_view(skills@),
            forall|j: int| 0 <= j < i ==> sv[j].action_id != id@,
        decreases skills.len() - i,
    {
        if skills[i].action_id == *id {
            proof {
                assert(is_first_skill(sv, id@, i as int));
                assert(exists|k: int| 0 <= k < sv.len() && sv[k].action_id == id@);
                let c = choose|k: int| is_first_skill(sv, id@, k);
                assert(c == i as int) by {
                    if c < i as int {
                    } else if c > i as int {
                    }
                }
            }
            return Some(i);
        }
        i = i + 1;
    }
    None
}

} // verus!
