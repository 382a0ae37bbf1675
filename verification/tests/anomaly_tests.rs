use zsim::anomaly::{AnomalyDisorderManager, DEFAULT_ANOMALY_DURATION};
use zsim::enums::ElementTag;

// The gauge threshold of an anomaly; the gauges themselves are kept by the
// caller, which tells the manager whether a buildup reached it.
const MAX_GAUGE: f64 = 100.0;

fn reaches(amount: f64) -> bool {
    amount >= MAX_GAUGE
}

#[test]
fn test_accumulate_partial_no_trigger() {
    let mut mgr = AnomalyDisorderManager::new();
    let result = mgr.accumulate("enemy_A", ElementTag::Fire, reaches(40.0));
    assert!(!result.triggered);
    assert!(!result.disorder_detected);
}

#[test]
fn test_accumulate_exactly_max_triggers() {
    let mut mgr = AnomalyDisorderManager::new();
    let result = mgr.accumulate("enemy_A", ElementTag::Ice, reaches(100.0));
    assert!(result.triggered);
    assert!(!result.disorder_detected);
}

#[test]
fn test_accumulate_over_max_triggers() {
    let mut mgr = AnomalyDisorderManager::new();
    let result = mgr.accumulate("enemy_A", ElementTag::Fire, reaches(150.0));
    assert!(result.triggered);
}

#[test]
fn test_trigger_anomaly_sets_active() {
    let mut mgr = AnomalyDisorderManager::new();
    mgr.accumulate("enemy_A", ElementTag::Fire, reaches(105.0));
    assert!(mgr.is_active("enemy_A", ElementTag::Fire));
    assert!(mgr.active_elements("enemy_A").contains(&ElementTag::Fire));
}

#[test]
fn test_trigger_anomaly_increments_count() {
    let mut mgr = AnomalyDisorderManager::new();
    mgr.accumulate("enemy_A", ElementTag::Fire, reaches(100.0));
    assert!(mgr.is_active("enemy_A", ElementTag::Fire));
    match mgr.trigger_anomaly("enemy_A", ElementTag::Fire) {
        Some(r) => assert_eq!(r.trigger_count, 2),
        None => panic!("expected result"),
    }
}

#[test]
fn test_trigger_anomaly_unknown_enemy_returns_none() {
    let mut mgr = AnomalyDisorderManager::new();
    assert!(mgr.trigger_anomaly("nobody", ElementTag::Fire).is_none());
}

#[test]
fn test_trigger_anomaly_sets_duration() {
    let mut mgr = AnomalyDisorderManager::new();
    mgr.set_anomaly_duration(ElementTag::Ice, 300);
    mgr.accumulate("enemy_A", ElementTag::Ice, reaches(100.0));
    assert_eq!(mgr.remaining_duration("enemy_A", ElementTag::Ice), 300);
}

#[test]
fn test_default_duration() {
    let mut mgr = AnomalyDisorderManager::new();
    mgr.accumulate("enemy_A", ElementTag::Fire, reaches(100.0));
    assert_eq!(mgr.remaining_duration("enemy_A", ElementTag::Fire), 600);
    assert_eq!(DEFAULT_ANOMALY_DURATION, 600);
}

#[test]
fn test_on_tick_decrements_duration() {
    let mut mgr = AnomalyDisorderManager::new();
    mgr.set_anomaly_duration(ElementTag::Fire, 10);
    mgr.accumulate("enemy_A", ElementTag::Fire, reaches(100.0));
    mgr.on_tick(1);
    assert_eq!(mgr.remaining_duration("enemy_A", ElementTag::Fire), 9);
    assert!(mgr.is_active("enemy_A", ElementTag::Fire));
    mgr.on_tick(2);
    assert_eq!(mgr.remaining_duration("enemy_A", ElementTag::Fire), 8);
}

#[test]
fn test_on_tick_expiry_clears_active() {
    let mut mgr = AnomalyDisorderManager::new();
    mgr.set_anomaly_duration(ElementTag::Electric, 3);
    mgr.accumulate("enemy_A", ElementTag::Electric, reaches(100.0));
    assert!(mgr.is_active("enemy_A", ElementTag::Electric));
    mgr.on_tick(1);
    mgr.on_tick(2);
    mgr.on_tick(3);
    assert!(!mgr.is_active("enemy_A", ElementTag::Electric));
    assert_eq!(mgr.remaining_duration("enemy_A", ElementTag::Electric), 0);
}

#[test]
fn test_on_tick_already_zero_does_not_underflow() {
    let mut mgr = AnomalyDisorderManager::new();
    mgr.set_anomaly_duration(ElementTag::Ice, 1);
    mgr.accumulate("enemy_A", ElementTag::Ice, reaches(100.0));
    mgr.on_tick(1);
    mgr.on_tick(2);
    assert_eq!(mgr.remaining_duration("enemy_A", ElementTag::Ice), 0);
}

#[test]
fn test_disorder_detected_on_second_anomaly() {
    let mut mgr = AnomalyDisorderManager::new();
    let r1 = mgr.accumulate("enemy_A", ElementTag::Fire, reaches(100.0));
    assert!(r1.triggered);
    assert!(!r1.disorder_detected);
    let r2 = mgr.accumulate("enemy_A", ElementTag::Ice, reaches(100.0));
    assert!(r2.triggered);
    assert!(r2.disorder_detected);
}

#[test]
fn test_no_disorder_for_same_element() {
    let mut mgr = AnomalyDisorderManager::new();
    mgr.accumulate("enemy_A", ElementTag::Fire, reaches(100.0));
    for t in 1..=600 {
        mgr.on_tick(t);
    }
    assert!(!mgr.is_active("enemy_A", ElementTag::Fire));
    let r = mgr.accumulate("enemy_A", ElementTag::Fire, reaches(100.0));
    assert!(r.triggered);
    assert!(!r.disorder_detected);
}

#[test]
fn test_disorder_after_expiry() {
    let mut mgr = AnomalyDisorderManager::new();
    mgr.set_anomaly_duration(ElementTag::Fire, 5);
    mgr.set_anomaly_duration(ElementTag::Ice, 10);
    mgr.accumulate("enemy_A", ElementTag::Fire, reaches(100.0));
    for t in 1..=6 {
        mgr.on_tick(t);
    }
    assert!(!mgr.is_active("enemy_A", ElementTag::Fire));
    let r = mgr.accumulate("enemy_A", ElementTag::Ice, reaches(100.0));
    assert!(r.triggered);
    assert!(!r.disorder_detected);
}

#[test]
fn test_check_disorder_returns_elements() {
    let mut mgr = AnomalyDisorderManager::new();
    mgr.accumulate("enemy_A", ElementTag::Fire, reaches(100.0));
    let disorder = mgr.check_disorder("enemy_A", ElementTag::Ice);
    assert!(disorder.is_some());
    assert_eq!(disorder.unwrap(), ElementTag::Fire);
}

#[test]
fn test_check_disorder_no_active_returns_none() {
    let mgr = AnomalyDisorderManager::new();
    assert!(mgr.check_disorder("enemy_A", ElementTag::Fire).is_none());
}

#[test]
fn test_check_disorder_expired_anomaly_returns_none() {
    let mut mgr = AnomalyDisorderManager::new();
    mgr.set_anomaly_duration(ElementTag::Fire, 5);
    mgr.accumulate("enemy_A", ElementTag::Fire, reaches(100.0));
    for t in 1..=6 {
        mgr.on_tick(t);
    }
    assert!(mgr.check_disorder("enemy_A", ElementTag::Ice).is_none());
}

#[test]
fn test_is_active_unknown_returns_false() {
    let mgr = AnomalyDisorderManager::new();
    assert!(!mgr.is_active("nobody", ElementTag::Fire));
}

#[test]
fn test_remaining_duration_unknown_returns_zero() {
    let mgr = AnomalyDisorderManager::new();
    assert_eq!(mgr.remaining_duration("nobody", ElementTag::Fire), 0);
}

#[test]
fn test_active_elements_empty_for_unknown() {
    let mgr = AnomalyDisorderManager::new();
    assert!(mgr.active_elements("nobody").is_empty());
}

#[test]
fn test_active_elements_multiple_elements() {
    let mut mgr = AnomalyDisorderManager::new();
    mgr.set_anomaly_duration(ElementTag::Fire, 100);
    mgr.set_anomaly_duration(ElementTag::Ice, 100);
    mgr.accumulate("enemy_A", ElementTag::Fire, reaches(100.0));
    mgr.accumulate("enemy_A", ElementTag::Ice, reaches(100.0));
    let active = mgr.active_elements("enemy_A");
    assert!(active.contains(&ElementTag::Fire));
    assert!(active.contains(&ElementTag::Ice));
}

#[test]
fn test_total_slots() {
    let mut mgr = AnomalyDisorderManager::new();
    mgr.accumulate("enemy_A", ElementTag::Fire, reaches(10.0));
    mgr.accumulate("enemy_B", ElementTag::Ice, reaches(10.0));
    mgr.accumulate("enemy_B", ElementTag::Fire, reaches(10.0));
    assert_eq!(mgr.total_slots(), 3);
    assert_eq!(mgr.enemy_count(), 2);
}

#[test]
fn anomaly_test_full_lifecycle() {
    let mut mgr = AnomalyDisorderManager::new();
    mgr.set_anomaly_duration(ElementTag::Fire, 10);
    mgr.set_anomaly_duration(ElementTag::Ice, 10);
    let mut fire_gauge = 0.0;
    fire_gauge += 60.0;
    let r = mgr.accumulate("enemy_A", ElementTag::Fire, reaches(fire_gauge));
    assert!(!r.triggered);
    fire_gauge += 40.0;
    assert!(mgr.accumulate("enemy_A", ElementTag::Fire, reaches(fire_gauge)).triggered);
    assert!(mgr.is_active("enemy_A", ElementTag::Fire));
    for t in 1..=10 {
        mgr.on_tick(t);
    }
    assert!(!mgr.is_active("enemy_A", ElementTag::Fire));
    let r = mgr.accumulate("enemy_A", ElementTag::Ice, reaches(100.0));
    assert!(r.triggered);
    assert!(!r.disorder_detected);
    assert!(mgr.is_active("enemy_A", ElementTag::Ice));
    let r = mgr.accumulate("enemy_A", ElementTag::Fire, reaches(100.0));
    assert!(r.triggered);
    assert!(r.disorder_detected);
    assert_eq!(mgr.active_elements("enemy_A").len(), 2);
}

#[test]
fn test_set_anomaly_duration_custom() {
    let mut mgr = AnomalyDisorderManager::new();
    mgr.set_anomaly_duration(ElementTag::Physical, 900);
    mgr.accumulate("enemy_A", ElementTag::Physical, reaches(100.0));
    assert_eq!(mgr.remaining_duration("enemy_A", ElementTag::Physical), 900);
}

#[test]
fn test_trigger_count_query() {
    let mut mgr = AnomalyDisorderManager::new();
    assert_eq!(mgr.trigger_count("enemy_A", ElementTag::Ether), 0);
    mgr.accumulate("enemy_A", ElementTag::Ether, true);
    mgr.accumulate("enemy_A", ElementTag::Ether, true);
    assert_eq!(mgr.trigger_count("enemy_A", ElementTag::Ether), 2);
    assert_eq!(mgr.trigger_count("enemy_B", ElementTag::Ether), 0);
}
