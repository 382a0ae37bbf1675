use zsim::buff::{BuffCategory, BuffData, BuffManager, StackType};

type Modifier = (String, f64);

fn m(name: &str, value: f64) -> Modifier {
    (name.to_string(), value)
}

fn atk_buff() -> BuffData<Modifier> {
    BuffData::new("buff_atk_20", BuffCategory::Stat, StackType::Replace)
        .with_duration(100)
        .with_max_stacks(3)
        .with_modifier(m("atk_flat", 50.0))
}

#[test]
fn test_apply_buff_replace() {
    let mut mgr = BuffManager::new();
    mgr.apply_buff("char_A", atk_buff(), 0);
    assert_eq!(mgr.buffs_for("char_A").unwrap()[0].data.modifiers, vec![m("atk_flat", 50.0)]);
    let buff2 = BuffData::new("buff_atk_20", BuffCategory::Stat, StackType::Replace)
        .with_duration(100)
        .with_modifier(m("atk_flat", 80.0));
    mgr.apply_buff("char_A", buff2, 10);
    let list = mgr.buffs_for("char_A").unwrap();
    assert_eq!(list.len(), 1);
    assert_eq!(list[0].data.modifiers, vec![m("atk_flat", 80.0)]);
    assert_eq!(list[0].applied_at_tick, 10);
    assert_eq!(mgr.total_active_buffs(), 1);
}

#[test]
fn test_apply_buff_additive() {
    let mut mgr = BuffManager::new();
    let buff = BuffData::new("buff_stack", BuffCategory::Stat, StackType::Additive)
        .with_duration(50)
        .with_max_stacks(3)
        .with_modifier(m("atk_flat", 30.0));
    mgr.apply_buff("char_A", buff.clone(), 0);
    mgr.apply_buff("char_A", buff.clone(), 0);
    mgr.apply_buff("char_A", buff.clone(), 0);
    mgr.apply_buff("char_A", buff, 0);
    let list = mgr.buffs_for("char_A").unwrap();
    // Three stacks at most: 3 x 30 flat.
    assert_eq!(list[0].current_stacks, 3);
    assert_eq!(list[0].current_stacks as f64 * list[0].data.modifiers[0].1, 90.0);
    assert_eq!(mgr.total_active_buffs(), 1);
}

#[test]
fn test_apply_buff_independent() {
    let mut mgr = BuffManager::new();
    let buff = BuffData::new("buff_indie", BuffCategory::Crit, StackType::Independent)
        .with_duration(30)
        .with_modifier(m("crit_rate", 0.1));
    mgr.apply_buff("char_A", buff.clone(), 0);
    mgr.apply_buff("char_A", buff, 0);
    let list = mgr.buffs_for("char_A").unwrap();
    let total: f64 = list.iter().map(|b| b.data.modifiers[0].1).sum();
    assert_eq!(total, 0.2);
    assert_eq!(mgr.total_active_buffs(), 2);
}

#[test]
fn test_remove_expired_clears_zero_duration() {
    let mut mgr: BuffManager<Modifier> = BuffManager::new();
    mgr.apply_buff("char_A", BuffData::new("temp", BuffCategory::Stat, StackType::Replace).with_duration(3), 0);
    mgr.on_tick(1);
    mgr.on_tick(2);
    mgr.on_tick(3);
    assert_eq!(mgr.buffs_for("char_A").unwrap()[0].remaining_ticks, 0);
    mgr.remove_expired(3);
    assert!(mgr.buffs_for("char_A").unwrap().is_empty());
}

#[test]
fn test_remove_expired_keeps_active() {
    let mut mgr: BuffManager<Modifier> = BuffManager::new();
    mgr.apply_buff("char_A", BuffData::new("long_buff", BuffCategory::Stat, StackType::Replace).with_duration(100), 0);
    mgr.on_tick(1);
    mgr.remove_expired(1);
    assert_eq!(mgr.total_active_buffs(), 1);
    assert!(mgr.buffs_for("char_A").unwrap()[0].data.modifiers.is_empty());
}

#[test]
fn test_on_tick_decrements_remaining() {
    let mut mgr: BuffManager<Modifier> = BuffManager::new();
    mgr.apply_buff("char_A", BuffData::new("tick_down", BuffCategory::Stat, StackType::Replace).with_duration(5), 10);
    mgr.on_tick(11);
    assert_eq!(mgr.buffs_for("char_A").unwrap()[0].remaining_ticks, 4);
    mgr.on_tick(12);
    assert_eq!(mgr.buffs_for("char_A").unwrap()[0].remaining_ticks, 3);
}

#[test]
fn test_on_tick_does_not_underflow() {
    let mut mgr: BuffManager<Modifier> = BuffManager::new();
    mgr.apply_buff("char_A", BuffData::new("short", BuffCategory::Stat, StackType::Replace).with_duration(1), 0);
    mgr.on_tick(1);
    assert_eq!(mgr.buffs_for("char_A").unwrap()[0].remaining_ticks, 0);
    mgr.on_tick(2);
    assert_eq!(mgr.buffs_for("char_A").unwrap()[0].remaining_ticks, 0);
}

#[test]
fn test_buff_data_builder() {
    let buff = BuffData::new("test_buff", BuffCategory::Anomaly, StackType::Additive)
        .with_max_stacks(5)
        .with_duration(120)
        .with_modifier(m("anomaly_proficiency", 50.0));
    assert_eq!(buff.buff_id, "test_buff");
    assert_eq!(buff.category, BuffCategory::Anomaly);
    assert_eq!(buff.stack_type, StackType::Additive);
    assert_eq!(buff.max_stacks, 5);
    assert_eq!(buff.duration_ticks, 120);
    assert_eq!(buff.modifiers.len(), 1);
    assert_eq!(buff.modifiers[0].0, "anomaly_proficiency");
    assert_eq!(buff.modifiers[0].1, 50.0);
}

#[test]
fn test_max_stacks_clamped_at_one() {
    let buff: BuffData<Modifier> = BuffData::new("clamped", BuffCategory::Stat, StackType::Additive).with_max_stacks(0);
    assert_eq!(buff.max_stacks, 1);
}

#[test]
fn test_buff_full_lifecycle() {
    let mut mgr = BuffManager::new();
    let short_buff = BuffData::new("short", BuffCategory::Stat, StackType::Replace).with_duration(3).with_modifier(m("atk_flat", 100.0));
    let long_buff = BuffData::new("long", BuffCategory::Crit, StackType::Replace).with_duration(10).with_modifier(m("crit_rate", 0.1));
    mgr.apply_buff("char_A", short_buff, 0);
    mgr.apply_buff("char_A", long_buff, 0);
    assert_eq!(mgr.total_active_buffs(), 2);
    for t in 1..=3 {
        mgr.on_tick(t);
    }
    mgr.remove_expired(3);
    assert_eq!(mgr.total_active_buffs(), 1);
    let list = mgr.buffs_for("char_A").unwrap();
    assert_eq!(list[0].data.buff_id, "long");
    assert_eq!(list[0].data.modifiers, vec![m("crit_rate", 0.1)]);
}

#[test]
fn test_unknown_character_has_no_buffs() {
    let mgr: BuffManager<Modifier> = BuffManager::new();
    assert!(mgr.buffs_for("nobody").is_none());
    assert_eq!(mgr.total_active_buffs(), 0);
}

#[test]
fn test_additive_restack_refreshes_duration() {
    let mut mgr: BuffManager<Modifier> = BuffManager::new();
    let buff = BuffData::new("stack", BuffCategory::Stat, StackType::Additive).with_duration(10).with_max_stacks(2);
    mgr.apply_buff("c", buff.clone(), 0);
    for t in 1..=4 {
        mgr.on_tick(t);
    }
    assert_eq!(mgr.buffs_for("c").unwrap()[0].remaining_ticks, 6);
    mgr.apply_buff("c", buff, 4);
    let b = &mgr.buffs_for("c").unwrap()[0];
    assert_eq!(b.remaining_ticks, 10);
    assert_eq!(b.current_stacks, 2);
    assert_eq!(b.applied_at_tick, 0);
}

#[test]
fn test_characters_are_independent() {
    let mut mgr: BuffManager<Modifier> = BuffManager::new();
    mgr.apply_buff("a", BuffData::new("x", BuffCategory::Stat, StackType::Replace).with_duration(1), 0);
    mgr.apply_buff("b", BuffData::new("x", BuffCategory::Stat, StackType::Replace).with_duration(5), 0);
    mgr.on_tick(1);
    mgr.remove_expired(1);
    assert!(mgr.buffs_for("a").unwrap().is_empty());
    assert_eq!(mgr.buffs_for("b").unwrap().len(), 1);
    assert_eq!(mgr.total_active_buffs(), 1);
}
