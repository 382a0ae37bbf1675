//! Pre-action resource checks that work on whole-number resources:
//! skill cooldowns, chain points, the team switch cooldown, the role of a
//! character and the presence of an anomaly on the target.
use vstd::prelude::*;
use crate::anomaly::{slot_of, AnomalyDisorderManager};
use crate::enums::{ElementTag, SpecialtyTag};

verus! {

/// Resource types that can be validated.
#[derive(Debug, Clone, Copy, PartialEq, Eq, Structural)]
pub enum ResourceType {
    Energy,
    Hp,
    Decibel,
    ChainPoint,
    Cooldown,
    SwitchCooldown,
    CharacterState,
    AnomalyState,
    Role,
}

/// The display name of a resource type.
pub open spec fn resource_name(t: ResourceType) -> Seq<char> {
    match t {
        ResourceType::Energy => "energy"@,
        ResourceType::Hp => "HP"@,
        ResourceType::Decibel => "decibel"@,
        ResourceType::ChainPoint => "chain_point"@,
        ResourceType::Cooldown => "cooldown"@,
        ResourceType::SwitchCooldown => "switch_cooldown"@,
        ResourceType::CharacterState => "character_state"@,
        ResourceType::AnomalyState => "anomaly_state"@,
        ResourceType::Role => "role"@,
    }
}

impl ResourceType {
    /// The display name of this resource type (`energy`, `HP`, ...).
    pub fn to_string(&self) -> (s: String)
        ensures
            s@ == resource_name(*self),
    {
        match self {
            ResourceType::Energy => String::from_str("energy"),
            ResourceType::Hp => String::from_str("HP"),
            ResourceType::Decibel => String::from_str("decibel"),
            ResourceType::ChainPoint => String::from_str("chain_point"),
            ResourceType::Cooldown => String::from_str("cooldown"),
            ResourceType::SwitchCooldown => String::from_str("switch_cooldown"),
            ResourceType::CharacterState => String::from_str("character_state"),
            ResourceType::AnomalyState => String::from_str("anomaly_state"),
            ResourceType::Role => String::from_str("role"),
        }
    }
}

/// Structured error returned when a whole-number resource check fails.
#[derive(Debug, Clone)]
pub struct ValidationError {
    pub action_id: String,
    pub missing_resource: ResourceType,
    pub current_value: u64,
    pub required_value: u64,
}

/// Pre-action resource validator.
#[derive(Debug, Clone, Copy)]
pub struct ResourceValidator;

/// The tick at which a skill used at `last_used_tick` is ready again
/// (saturating at the largest tick).
pub open spec fn ready_tick(last_used_tick: u64, cooldown_ticks: u64) -> u64 {
    if last_used_tick + cooldown_ticks > u64::MAX {
        u64::MAX
    } else {
        (last_used_tick + cooldown_ticks) as u64
    }
}

/// Whether a skill with the given cooldown is ready at `current_tick`.
pub open spec fn cooldown_ready(last_used_tick: u64, cooldown_ticks: u64, current_tick: u64) -> bool {
    cooldown_ticks == 0 || current_tick >= ready_tick(last_used_tick, cooldown_ticks)
}

impl ResourceValidator {
    /// Validate that the skill cooldown has elapsed.
    ///
    /// A cooldown of 0 ticks means the skill is always ready.
    pub fn validate_cooldown(
        last_used_tick: u64,
        cooldown_ticks: u64,
        current_tick: u64,
        action_id: &str,
    ) -> (r: Result<(), ValidationError>)
        ensures
            r is Ok <==> cooldown_ready(last_used_tick, cooldown_ticks, current_tick),
            r matches Err(e) ==> {
                &&& e.action_id@ == action_id@
                &&& e.missing_resource == ResourceType::Cooldown
                &&& e.current_value == current_tick
                &&& e.required_value == ready_tick(last_used_tick, cooldown_ticks)
            },
    {
        if cooldown_ticks == 0 {
            return Ok(());
        }
        let ready = last_used_tick.saturating_add(cooldown_ticks);
        if current_tick >= ready {
            Ok(())
        } else {
            Err(ValidationError {
                action_id: String::from_str(action_id),
                missing_resource: ResourceType::Cooldown,
                current_value: current_tick,
                required_value: ready,
            })
        }
    }

    /// Validate that the character holds at least `required_points` chain points.
    pub fn validate_chain_point(
        current_points: u32,
        required_points: u32,
        action_id: &str,
    ) -> (r: Result<(), ValidationError>)
        ensures
            r is Ok <==> current_points >= required_points,
            r matches Err(e) ==> {
                &&& e.action_id@ == action_id@
                &&& e.missing_resource == ResourceType::ChainPoint
                &&& e.current_value == current_points
                &&& e.required_value == required_points
            },
    {
        if current_points >= required_points {
            Ok(())
        } else {
            Err(ValidationError {
                action_id: String::from_str(action_id),
                missing_resource: ResourceType::ChainPoint,
                current_value: current_points as u64,
                required_value: required_points as u64,
            })
        }
    }

    /// Validate that the team's switch is not on cooldown.
    pub fn validate_switch_cooldown(
        remaining_ticks: u64,
        action_id: &str,
    ) -> (r: Result<(), ValidationError>)
        ensures
            r is Ok <==> remaining_ticks == 0,
            r matches Err(e) ==> {
                &&& e.action_id@ == action_id@
                &&& e.missing_resource == ResourceType::SwitchCooldown
                &&& e.current_value == remaining_ticks
                &&& e.required_value == 0
            },
    {
        if remaining_ticks == 0 {
            Ok(())
        } else {
            Err(ValidationError {
                action_id: String::from_str(action_id),
                missing_resource: ResourceType::SwitchCooldown,
                current_value: remaining_ticks,
                required_value: 0,
            })
        }
    }

    /// Validate that an anomaly of `required_element` is active on the target enemy.
    pub fn validate_anomaly_state(
        anomaly_mgr: &AnomalyDisorderManager,
        enemy_id: &str,
        required_element: ElementTag,
        action_id: &str,
    ) -> (r: Result<(), ValidationError>)
        requires
            anomaly_mgr.wf(),
        ensures
            r is Ok <==> (slot_of(anomaly_mgr.slots_of(enemy_id@), required_element) matches Some(st) && st.is_active),
            r matches Err(e) ==> {
                &&& e.action_id@ == action_id@
                &&& e.missing_resource == ResourceType::AnomalyState
                &&& e.current_value == 0
                &&& e.required_value == 1
            },
    {
        if anomaly_mgr.is_active(enemy_id, required_element) {
            Ok(())
        } else {
            Err(ValidationError {
                action_id: String::from_str(action_id),
                missing_resource: ResourceType::AnomalyState,
                current_value: 0,
                required_value: 1,
            })
        }
    }

    /// Validate that the character has the required specialty/role.
    pub fn validate_role(
        specialty: SpecialtyTag,
        required_role: SpecialtyTag,
        action_id: &str,
    ) -> (r: Result<(), ValidationError>)
        ensures
            r is Ok <==> specialty == required_role,
            r matches Err(e) ==> {
                &&& e.action_id@ == action_id@
                &&& e.missing_resource == ResourceType::Role
                &&& e.current_value == 0
                &&& e.required_value == 1
            },
    {
        if specialty == required_role {
            Ok(())
        } else {
            Err(ValidationError {
                action_id: String::from_str(action_id),
                missing_resource: ResourceType::Role,
                current_value: 0,
                required_value: 1,
            })
        }
    }
}

/// Law: a skill used at tick `l` with a cooldown of `c > 0` ticks is
/// ready exactly from tick `l + c` on (from the last tick when `l + c`
/// lies beyond it); a skill without cooldown is always ready.
pub proof fn lemma_cooldown_window(last_used_tick: u64, cooldown_ticks: u64, t: u64)
    ensures
        cooldown_ready(last_used_tick, cooldown_ticks, t) <==> (cooldown_ticks == 0 || t >= last_used_tick + cooldown_ticks
            || t == u64::MAX),
{
}

/// Law: once a skill is off cooldown it stays off cooldown as time goes
/// on, and a skill is always ready from its ready tick on.
pub proof fn lemma_cooldown_stays_ready(last_used_tick: u64, cooldown_ticks: u64, t: u64, later: u64)
    requires
        t <= later,
    ensures
        cooldown_ready(last_used_tick, cooldown_ticks, t) ==> cooldown_ready(last_used_tick, cooldown_ticks, later),
        cooldown_ready(last_used_tick, cooldown_ticks, ready_tick(last_used_tick, cooldown_ticks)),
{
}

} // verus!
