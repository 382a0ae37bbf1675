use zsim::equipment::{map_stat_name, resolve_set_bonuses, DiscBonus, DiscSet, EQUIPMENT_BUFF_DURATION};

fn thunder_metal_set() -> DiscSet {
    DiscSet {
        set_id: "set_thunder_metal".into(),
        name: "Thunder Metal".into(),
        two_piece_bonus: Some(DiscBonus { description: "+10% Electric DMG".into(), buff_id: "buff_electric_dmg_10".into() }),
        four_piece_bonus: Some(DiscBonus { description: "ATK +20% on Electric DMG".into(), buff_id: "buff_thunder_atk_20".into() }),
    }
}

fn ids(v: &[&str]) -> Vec<String> {
    v.iter().map(|s| s.to_string()).collect()
}

#[test]
fn test_no_discs_no_bonuses() {
    assert!(resolve_set_bonuses(&vec![], &vec![thunder_metal_set()]).is_empty());
}

#[test]
fn test_one_disc_does_not_trigger_bonus() {
    assert!(resolve_set_bonuses(&ids(&["set_thunder_metal"]), &vec![thunder_metal_set()]).is_empty());
}

#[test]
fn test_two_discs_triggers_two_piece() {
    let b = resolve_set_bonuses(&ids(&["set_thunder_metal", "set_thunder_metal"]), &vec![thunder_metal_set()]);
    assert_eq!(b, vec!["buff_electric_dmg_10".to_string()]);
}

#[test]
fn test_four_discs_triggers_both_bonuses() {
    let b = resolve_set_bonuses(&ids(&["set_thunder_metal"; 4]), &vec![thunder_metal_set()]);
    assert_eq!(b.len(), 2);
    assert!(b.contains(&"buff_electric_dmg_10".to_string()));
    assert!(b.contains(&"buff_thunder_atk_20".to_string()));
}

#[test]
fn test_six_discs_same_set_still_triggers_both() {
    let b = resolve_set_bonuses(&ids(&["set_thunder_metal"; 6]), &vec![thunder_metal_set()]);
    assert_eq!(b.len(), 2);
}

#[test]
fn test_unknown_set_id_produces_no_bonuses() {
    assert!(resolve_set_bonuses(&ids(&["set_unknown"; 4]), &vec![thunder_metal_set()]).is_empty());
}

#[test]
fn test_discs_with_empty_set_id_ignored() {
    let mut empty_set = thunder_metal_set();
    empty_set.set_id = String::new();
    assert!(resolve_set_bonuses(&ids(&["", "", "", ""]), &vec![thunder_metal_set(), empty_set]).is_empty());
}

#[test]
fn test_disc_set_with_empty_buff_id() {
    let set = DiscSet {
        set_id: "set_empty".into(),
        name: "Empty".into(),
        two_piece_bonus: Some(DiscBonus { description: "nothing".into(), buff_id: String::new() }),
        four_piece_bonus: None,
    };
    assert!(resolve_set_bonuses(&ids(&["set_empty"; 4]), &vec![set]).is_empty());
}

#[test]
fn test_map_stat_name_mappings() {
    assert_eq!(map_stat_name("hp"), "hp_flat");
    assert_eq!(map_stat_name("atk"), "atk_flat");
    assert_eq!(map_stat_name("def"), "def_flat");
    assert_eq!(map_stat_name("pen_fixed"), "pen");
}

#[test]
fn test_map_stat_name_passthrough() {
    assert_eq!(map_stat_name("crit_rate"), "crit_rate");
    assert_eq!(map_stat_name("atk_pct"), "atk_pct");
    assert_eq!(map_stat_name(""), "");
}

#[test]
fn test_mixed_sets_in_first_appearance_order() {
    let second = DiscSet {
        set_id: "set_b".into(),
        name: "B".into(),
        two_piece_bonus: Some(DiscBonus { description: String::new(), buff_id: "b2".into() }),
        four_piece_bonus: Some(DiscBonus { description: String::new(), buff_id: "b4".into() }),
    };
    let discs = ids(&["set_b", "set_thunder_metal", "set_b", "set_thunder_metal", "set_b", "set_b"]);
    let b = resolve_set_bonuses(&discs, &vec![thunder_metal_set(), second]);
    assert_eq!(b, ids(&["b2", "b4", "buff_electric_dmg_10"]));
}

#[test]
fn test_later_set_definition_wins() {
    let mut newer = thunder_metal_set();
    newer.two_piece_bonus = Some(DiscBonus { description: String::new(), buff_id: "newer".into() });
    let b = resolve_set_bonuses(&ids(&["set_thunder_metal"; 2]), &vec![thunder_metal_set(), newer]);
    assert_eq!(b, ids(&["newer"]));
    assert_eq!(EQUIPMENT_BUFF_DURATION, 18000);
}

#[test]
fn test_disc_set_row_columns() {
    let set = DiscSet {
        set_id: "s".into(),
        name: "S".into(),
        two_piece_bonus: Some(DiscBonus { description: "d2".into(), buff_id: "b2".into() }),
        four_piece_bonus: None,
    };
    let row = zsim::equipment::disc_set_record(&set);
    assert_eq!(row.set_id, "s");
    assert_eq!(row.two_piece_description.as_deref(), Some("d2"));
    assert_eq!(row.two_piece_buff_id.as_deref(), Some("b2"));
    assert!(row.four_piece_description.is_none());
    assert!(row.four_piece_buff_id.is_none());
    let back = zsim::equipment::disc_set_from_record(row);
    assert_eq!(back.set_id, "s");
    assert_eq!(back.name, "S");
    let two = back.two_piece_bonus.unwrap();
    assert_eq!((two.description.as_str(), two.buff_id.as_str()), ("d2", "b2"));
    assert!(back.four_piece_bonus.is_none());
}

#[test]
fn test_disc_set_from_partial_row() {
    let row = zsim::data_entry::DiscSetRecord {
        set_id: "s".into(),
        name: "S".into(),
        two_piece_description: None,
        two_piece_buff_id: Some("b2".into()),
        four_piece_description: Some("d4".into()),
        four_piece_buff_id: None,
    };
    let set = zsim::equipment::disc_set_from_record(row);
    let two = set.two_piece_bonus.unwrap();
    assert_eq!((two.description.as_str(), two.buff_id.as_str()), ("", "b2"));
    let four = set.four_piece_bonus.unwrap();
    assert_eq!((four.description.as_str(), four.buff_id.as_str()), ("d4", ""));
}

#[test]
fn test_disc_set_for_simulation_needs_both_columns() {
    let row = zsim::data_entry::DiscSetRecord {
        set_id: "s".into(),
        name: "S".into(),
        two_piece_description: Some("d2".into()),
        two_piece_buff_id: Some("b2".into()),
        four_piece_description: Some("d4".into()),
        four_piece_buff_id: None,
    };
    let set = zsim::equipment::disc_set_for_simulation(row);
    assert_eq!(set.set_id, "s");
    assert_eq!(set.name, "S");
    let two = set.two_piece_bonus.unwrap();
    assert_eq!((two.description.as_str(), two.buff_id.as_str()), ("d2", "b2"));
    assert!(set.four_piece_bonus.is_none());
}

#[test]
fn test_disc_set_row_loads_back_for_simulation() {
    let set = thunder_metal_set();
    let back = zsim::equipment::disc_set_for_simulation(zsim::equipment::disc_set_record(&set));
    assert_eq!(back.set_id, set.set_id);
    let four = back.four_piece_bonus.unwrap();
    assert_eq!(four.buff_id, "buff_thunder_atk_20");
    assert_eq!(back.two_piece_bonus.unwrap().description, "+10% Electric DMG");
}
