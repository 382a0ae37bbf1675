use zsim::stored::{flags_or_unset, names_or_empty, stored_flags, stored_names};

#[test]
fn test_stored_flags_reads_six_booleans() {
    assert_eq!(stored_flags("[true,false,true,false,false,true]"), [true, false, true, false, false, true]);
}

#[test]
fn test_stored_flags_default_on_bad_text() {
    assert_eq!(stored_flags("not json"), [false; 6]);
    assert_eq!(stored_flags("[true,true]"), [false; 6]);
    assert_eq!(flags_or_unset(None), [false; 6]);
}

#[test]
fn test_stored_names_reads_list() {
    assert_eq!(stored_names(r#"["ex_skill","ultimate"]"#), vec!["ex_skill".to_string(), "ultimate".to_string()]);
}

#[test]
fn test_stored_names_default_on_bad_text() {
    assert!(stored_names("{}").is_empty());
    assert!(names_or_empty(None).is_empty());
    assert_eq!(names_or_empty(Some(vec!["a".to_string()])), vec!["a".to_string()]);
}
