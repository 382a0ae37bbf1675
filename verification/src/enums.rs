//! Tags that classify characters, enemies, skills and simulation modes.
use vstd::prelude::*;

verus! {

/// Faction tag identifying a character's affiliation.
#[derive(Debug, Clone, Copy, PartialEq, Eq, Structural, Hash)]
pub enum FactionTag {
    GentleHouse,
    CriminalInvestigation,
    Hsos6,
    BelobogHeavyInd,
    VictoriaHousekeeping,
    SonsOfCalydon,
    Lyra,
    ObolusSquad,
    DefenseForceSilver,
    Mockingbird,
    YunKuiMountain,
    OddEaterHouse,
    KrampusDarkBranch,
    DelusionalAngel,
    CityOrderDept,
    Other,
}

/// Specialty tag identifying a character's combat role.
#[derive(Debug, Clone, Copy, PartialEq, Eq, Structural, Hash)]
pub enum SpecialtyTag {
    Attack,
    Stun,
    Support,
    Rupture,
    Anomaly,
    Defense,
}

/// Element tag for damage typing and anomaly interactions.
#[derive(Debug, Clone, Copy, PartialEq, Eq, Structural, Hash)]
pub enum ElementTag {
    Ice,
    Fire,
    Ether,
    Physical,
    Electric,
    AuricInk,
    Frost,
    HonedEdge,
}

/// Character field presence state.
#[derive(Debug, Clone, Copy, PartialEq, Eq, Structural)]
pub enum CharacterState {
    Active,
    Standby,
    Locked,
}

impl Default for CharacterState {
    /// A character starts out on standby.
    fn default() -> (s: Self)
        ensures
            s == CharacterState::Standby,
    {
        CharacterState::Standby
    }
}

/// Enemy tier classification for chain-attack limits.
#[derive(Debug, Clone, Copy, PartialEq, Eq, Structural)]
pub enum EnemyType {
    Normal,
    Elite,
    Boss,
}

impl Default for EnemyType {
    /// An enemy is a normal enemy unless stated otherwise.
    fn default() -> (t: Self)
        ensures
            t == EnemyType::Normal,
    {
        EnemyType::Normal
    }
}

/// How many chain attacks an enemy of the given tier allows.
pub open spec fn spec_chain_attack_limit(t: EnemyType) -> u32 {
    match t {
        EnemyType::Normal => 1,
        EnemyType::Elite => 2,
        EnemyType::Boss => 3,
    }
}

impl EnemyType {
    /// Number of chain attacks this enemy tier allows.
    pub fn chain_attack_limit(&self) -> (n: u32)
        ensures
            n == spec_chain_attack_limit(*self),
            1 <= n <= 3,
    {
        match self {
            EnemyType::Normal => 1,
            EnemyType::Elite => 2,
            EnemyType::Boss => 3,
        }
    }
}

/// Categories of skill actions in a character's kit.
#[derive(Debug, Clone, Copy, PartialEq, Eq, Structural, Hash)]
pub enum SkillType {
    Normal,
    Special,
    Ultimate,
    Chain,
    Dodge,
    Assist,
    Coordinated,
    QuickAssist,
}

/// Trigger conditions for coordinated attacks and reactive skills.
#[derive(Debug, Clone, Copy, PartialEq, Eq, Structural, Hash)]
pub enum TriggerType {
    OnDamageDealt,
    OnAnomalyTriggered,
    OnChainAttack,
    OnDodge,
    OnParry,
}

/// Simulation execution mode.
#[derive(Debug, Clone, Copy, PartialEq, Eq, Structural)]
pub enum SimMode {
    Single,
    Parallel,
}

/// The constellation (and potential) flags of a character whose data
/// gives none: all six unlocked flags off.
pub fn default_constellations() -> (r: [bool; 6])
    ensures
        forall|i: int| 0 <= i < 6 ==> !#[trigger] r@[i],
{
    [false, false, false, false, false, false]
}

} // verus!
