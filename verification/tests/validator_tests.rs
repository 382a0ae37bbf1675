use zsim::anomaly::AnomalyDisorderManager;
use zsim::enums::{ElementTag, SpecialtyTag};
use zsim::validator::{ResourceType, ResourceValidator};

#[test]
fn test_validate_cooldown_ready() {
    assert!(ResourceValidator::validate_cooldown(10, 30, 50, "skill_1").is_ok());
}

#[test]
fn test_validate_cooldown_not_ready() {
    let err = ResourceValidator::validate_cooldown(10, 30, 35, "skill_1").unwrap_err();
    assert_eq!(err.missing_resource, ResourceType::Cooldown);
    assert!((err.current_value as f64 - 35.0).abs() < 1e-9);
    assert!((err.required_value as f64 - 40.0).abs() < 1e-9);
}

#[test]
fn test_validate_cooldown_exact_ready() {
    assert!(ResourceValidator::validate_cooldown(10, 30, 40, "skill_1").is_ok());
}

#[test]
fn test_validate_cooldown_zero_cooldown() {
    assert!(ResourceValidator::validate_cooldown(50, 0, 50, "skill_1").is_ok());
    assert!(ResourceValidator::validate_cooldown(50, 0, 30, "skill_1").is_ok());
}

#[test]
fn test_resource_type_display() {
    assert_eq!(ResourceType::Energy.to_string(), "energy");
    assert_eq!(ResourceType::Hp.to_string(), "HP");
    assert_eq!(ResourceType::SwitchCooldown.to_string(), "switch_cooldown");
    assert_eq!(ResourceType::AnomalyState.to_string(), "anomaly_state");
    assert_eq!(ResourceType::Role.to_string(), "role");
}

#[test]
fn test_resource_type_clone_copy() {
    let rt = ResourceType::Decibel;
    let rt2 = rt;
    assert_eq!(rt, rt2);
}

#[test]
fn test_validate_chain_point_sufficient() {
    assert!(ResourceValidator::validate_chain_point(3, 1, "skill_1").is_ok());
}

#[test]
fn test_validate_chain_point_insufficient() {
    let err = ResourceValidator::validate_chain_point(0, 1, "skill_1").unwrap_err();
    assert_eq!(err.missing_resource, ResourceType::ChainPoint);
    assert_eq!(err.current_value, 0);
    assert_eq!(err.required_value, 1);
}

#[test]
fn test_validate_chain_point_zero_required() {
    assert!(ResourceValidator::validate_chain_point(0, 0, "skill_1").is_ok());
}

#[test]
fn test_validate_switch_cooldown_ready() {
    assert!(ResourceValidator::validate_switch_cooldown(0, "skill_1").is_ok());
}

#[test]
fn test_validate_switch_cooldown_active() {
    let err = ResourceValidator::validate_switch_cooldown(15, "skill_1").unwrap_err();
    assert_eq!(err.missing_resource, ResourceType::SwitchCooldown);
    assert_eq!(err.current_value, 15);
    assert_eq!(err.required_value, 0);
}

#[test]
fn test_validate_anomaly_state_active() {
    let mut mgr = AnomalyDisorderManager::new();
    mgr.accumulate("enemy_1", ElementTag::Fire, true);
    assert!(ResourceValidator::validate_anomaly_state(&mgr, "enemy_1", ElementTag::Fire, "skill_1").is_ok());
}

#[test]
fn test_validate_anomaly_state_inactive() {
    let mgr = AnomalyDisorderManager::new();
    let err = ResourceValidator::validate_anomaly_state(&mgr, "enemy_1", ElementTag::Fire, "skill_1").unwrap_err();
    assert_eq!(err.missing_resource, ResourceType::AnomalyState);
    assert_eq!(err.current_value, 0);
    assert_eq!(err.required_value, 1);
}

#[test]
fn test_validate_anomaly_state_different_element() {
    let mut mgr = AnomalyDisorderManager::new();
    mgr.accumulate("enemy_1", ElementTag::Ice, true);
    assert!(ResourceValidator::validate_anomaly_state(&mgr, "enemy_1", ElementTag::Fire, "skill_1").is_err());
}

#[test]
fn test_validate_role_matches() {
    assert!(ResourceValidator::validate_role(SpecialtyTag::Attack, SpecialtyTag::Attack, "skill_1").is_ok());
}

#[test]
fn test_validate_role_mismatch() {
    let err = ResourceValidator::validate_role(SpecialtyTag::Attack, SpecialtyTag::Support, "skill_1").unwrap_err();
    assert_eq!(err.missing_resource, ResourceType::Role);
    assert_eq!(err.action_id, "skill_1");
}

#[test]
fn test_validate_cooldown_saturates_at_largest_tick() {
    let err = ResourceValidator::validate_cooldown(u64::MAX - 5, 10, 7, "late").unwrap_err();
    assert_eq!(err.required_value, u64::MAX);
    assert_eq!(err.action_id, "late");
}

#[test]
fn test_resource_type_remaining_names() {
    assert_eq!(ResourceType::Decibel.to_string(), "decibel");
    assert_eq!(ResourceType::ChainPoint.to_string(), "chain_point");
    assert_eq!(ResourceType::Cooldown.to_string(), "cooldown");
    assert_eq!(ResourceType::CharacterState.to_string(), "character_state");
}
