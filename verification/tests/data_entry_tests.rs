use zsim::data_entry::{
    duplicate_deployed_record, generate_config_id, prepare_deployed_config, search_pattern, search_targets,
    validate_char_id, validate_character_basics, validate_deployed_config, validate_drive_disc_fields,
    validate_id_and_name, validate_skill_fields, DeployedConfigRecord, ImportResult, SearchTarget,
};

#[test]
fn test_validate_char_id_valid() {
    assert!(validate_char_id("anby_demara").is_ok());
    assert!(validate_char_id("char_001").is_ok());
    assert!(validate_char_id("a").is_ok());
}

#[test]
fn test_validate_char_id_invalid() {
    assert!(validate_char_id("").is_err());
    assert!(validate_char_id("UpperCase").is_err());
    assert!(validate_char_id("has space").is_err());
    assert!(validate_char_id("has-dash").is_err());
}

#[test]
fn test_char_id_messages() {
    assert_eq!(validate_char_id("").unwrap_err(), "char_id is required");
    assert_eq!(
        validate_char_id("Bad").unwrap_err(),
        "char_id 'Bad' contains invalid characters. Only lowercase letters, digits, and underscores are allowed."
    );
}

#[test]
fn test_character_basics_errors_in_order() {
    assert_eq!(validate_character_basics("", "Bad", 60, 6).unwrap_err(), "char_id is required");
    assert!(validate_character_basics("UPPERCASE", "Bad", 60, 6).is_err());
    assert_eq!(validate_character_basics("ok", "", 60, 6).unwrap_err(), "name is required");
    let e = validate_character_basics("bad_lvl", "Bad", 99, 6).unwrap_err();
    assert!(e.contains("range"));
    assert_eq!(e, "level 99 out of range (1-60)");
    assert_eq!(validate_character_basics("ok", "Ok", 0, 6).unwrap_err(), "level 0 out of range (1-60)");
    assert_eq!(validate_character_basics("ok", "Ok", 60, -1).unwrap_err(), "ascension -1 out of range (0-6)");
    assert!(validate_character_basics("ok", "Ok", 1, 0).is_ok());
    assert!(validate_character_basics("ok", "Ok", 60, 6).is_ok());
}

fn record(name: &str, char_id: &str) -> DeployedConfigRecord {
    DeployedConfigRecord {
        config_id: String::new(),
        name: name.to_string(),
        char_id: char_id.to_string(),
        char_level: None,
        char_ascension: None,
        cinemas: None,
        potentials: None,
        wengine_id: None,
        wengine_level: None,
        wengine_ascension: None,
        disc_configs: None,
        created_at: Some("2024-01-01".to_string()),
        updated_at: Some("2024-01-02".to_string()),
    }
}

#[test]
fn test_deployed_config_validation() {
    assert!(validate_deployed_config(&record("", "c1")).unwrap_err().contains("name is required"));
    assert!(validate_deployed_config(&record("Config", "")).unwrap_err().contains("char_id is required"));
    let mut r = record("Cfg", "c1");
    r.char_level = Some(99);
    assert_eq!(validate_deployed_config(&r).unwrap_err(), "char_level 99 out of range (1-60)");
    let mut r = record("Cfg", "c1");
    r.char_ascension = Some(7);
    assert_eq!(validate_deployed_config(&r).unwrap_err(), "char_ascension 7 out of range (0-6)");
    let mut r = record("Cfg", "c1");
    r.wengine_level = Some(0);
    assert_eq!(validate_deployed_config(&r).unwrap_err(), "wengine_level 0 out of range (1-60)");
    let mut r = record("Cfg", "c1");
    r.wengine_ascension = Some(-2);
    assert_eq!(validate_deployed_config(&r).unwrap_err(), "wengine_ascension -2 out of range (0-6)");
    let mut r = record("Cfg", "c1");
    r.char_level = Some(60);
    r.wengine_ascension = Some(6);
    assert!(validate_deployed_config(&r).is_ok());
}

#[test]
fn test_generated_config_ids() {
    let id = generate_config_id();
    assert!(id.starts_with("config_"));
    let digits = &id["config_".len()..];
    assert!(!digits.is_empty());
    assert!(digits.chars().all(|c| c.is_ascii_digit()));
}

#[test]
fn test_prepare_keeps_or_assigns_id() {
    let fresh = prepare_deployed_config(record("Cfg", "c1")).unwrap();
    assert!(fresh.config_id.starts_with("config_"));
    assert_eq!(fresh.name, "Cfg");
    let mut existing = record("Cfg", "c1");
    existing.config_id = "cfg1".to_string();
    assert_eq!(prepare_deployed_config(existing).unwrap().config_id, "cfg1");
    assert!(prepare_deployed_config(record("", "c1")).is_err());
}

#[test]
fn test_duplicate_record_copy_name_and_timestamps() {
    let mut r = record("Original", "c1");
    r.config_id = "cfg1".to_string();
    r.char_level = Some(50);
    let d = duplicate_deployed_record(r);
    assert_eq!(d.name, "Original (Copy)");
    assert!(d.config_id.starts_with("config_"));
    assert_ne!(d.config_id, "cfg1");
    assert_eq!(d.char_id, "c1");
    assert_eq!(d.char_level, Some(50));
    assert!(d.created_at.is_none());
    assert!(d.updated_at.is_none());
}

#[test]
fn test_skill_field_validation() {
    assert_eq!(validate_skill_fields("", "a", "Normal", 0, 1).unwrap_err(), "char_id is required");
    assert_eq!(validate_skill_fields("c", "", "Normal", 0, 1).unwrap_err(), "action_id is required");
    assert_eq!(validate_skill_fields("c", "a", "", 0, 1).unwrap_err(), "action_type is required");
    assert_eq!(validate_skill_fields("c", "a", "Normal", -3, 1).unwrap_err(), "cooldown_ticks must be >= 0, got -3");
    assert_eq!(validate_skill_fields("c", "a", "Normal", 0, -1).unwrap_err(), "animation_frames must be >= 0, got -1");
    assert!(validate_skill_fields("c", "a", "Normal", 0, 0).is_ok());
}

#[test]
fn test_drive_disc_field_validation() {
    assert_eq!(validate_drive_disc_fields("", 1, "s").unwrap_err(), "id is required");
    assert_eq!(validate_drive_disc_fields("d", 7, "s").unwrap_err(), "slot must be 1-6, got 7");
    assert_eq!(validate_drive_disc_fields("d", 0, "s").unwrap_err(), "slot must be 1-6, got 0");
    assert_eq!(validate_drive_disc_fields("d", 3, "").unwrap_err(), "set_id is required");
    assert!(validate_drive_disc_fields("d", 6, "s").is_ok());
}

#[test]
fn test_id_and_name_validation() {
    assert_eq!(validate_id_and_name("set_id", "", "n").unwrap_err(), "set_id is required");
    assert_eq!(validate_id_and_name("id", "x", "").unwrap_err(), "name is required");
    assert!(validate_id_and_name("id", "x", "n").is_ok());
}

#[test]
fn test_search_targets_by_type() {
    assert_eq!(search_targets("characters").unwrap(), vec![SearchTarget::Characters]);
    assert_eq!(search_targets("disc_sets").unwrap(), vec![SearchTarget::DiscSets]);
    assert_eq!(
        search_targets("all").unwrap(),
        vec![SearchTarget::Characters, SearchTarget::Skills, SearchTarget::Enemies, SearchTarget::WEngines, SearchTarget::DiscSets]
    );
    assert_eq!(
        search_targets("weapons").unwrap_err(),
        "Unknown data_type 'weapons'. Must be one of: characters, skills, enemies, w_engines, disc_sets, all"
    );
    assert_eq!(search_pattern("anby"), "%anby%");
}

#[test]
fn test_import_result_tally() {
    let mut r = ImportResult::new();
    assert_eq!(r.total(), 0);
    r.add_success();
    r.add_success();
    r.add_error("bad file".to_string());
    assert_eq!(r.success, 2);
    assert_eq!(r.errors, vec!["bad file".to_string()]);
    assert_eq!(r.total(), 3);
}

#[test]
fn test_config_id_from_millis_digits() {
    assert_eq!(zsim::data_entry::config_id_from_millis(1700000000123), "config_1700000000123");
    assert_eq!(zsim::data_entry::config_id_from_millis(0), "config_0");
}

#[test]
fn test_import_tally_interleaved() {
    let mut r = ImportResult::new();
    r.add_error("a".to_string());
    r.add_success();
    r.add_success();
    r.add_error("b".to_string());
    r.add_success();
    assert_eq!(r.success, 3);
    assert_eq!(r.errors, vec!["a".to_string(), "b".to_string()]);
    assert_eq!(r.total(), 5);
}
