use zsim::apl::{APLManager, AnimationState, PendingAction, RosterKeeper, TrackState, TrackStep};
use zsim::apl_data::{APLData, ActionEntry, Track};
use zsim::skill::{default_animation_frames, ChargeBranch, SkillTiming};
use zsim::validator::{ResourceType, ValidationError};

// One tick of the whole plan for a team whose members always hold the
// resources a skill costs (only cooldowns and team membership are
// checked); returns the cooldown refusals of the tick.
fn run_tick(mgr: &mut APLManager, tick: u64, skills: &[SkillTiming], team: &[&str]) -> Vec<ValidationError> {
    let mut keeper = RosterKeeper { members: team.iter().map(|c| c.to_string()).collect(), refusals: vec![] };
    mgr.process_tick(tick, skills, &mut keeper);
    keeper.refusals
}

const TEAM: [&str; 2] = ["char_0", "char_1"];

fn skill(action_id: &str, cooldown_ticks: u64) -> SkillTiming {
    SkillTiming {
        action_id: action_id.to_string(),
        damage_frames: vec![],
        charge_branches: vec![],
        prerequisite_action_id: None,
        cooldown_ticks,
        animation_frames: default_animation_frames(),
    }
}

fn default_skills() -> Vec<SkillTiming> {
    vec![skill("normal_atk", 0), skill("ex_skill", 10), skill("ultimate", 120), skill("hp_cost_skill", 0)]
}

fn entry(action_id: &str, at: u64) -> ActionEntry {
    ActionEntry { action_id: action_id.into(), at }
}

fn one_track(char_id: &str, actions: Vec<ActionEntry>) -> APLData {
    APLData { tracks: vec![Track { track_id: "t1".into(), char_id: char_id.into(), actions }] }
}

#[test]
fn test_new_empty_tracks() {
    let mut mgr = APLManager::new(APLData { tracks: vec![] });
    assert!(mgr.tracks.is_empty());
    assert!(mgr.get_pending_actions().is_empty());
    assert!(!mgr.is_exhausted);
    assert!(mgr.all_tracks_exhausted());
}

#[test]
fn test_new_with_tracks() {
    let mgr = APLManager::new(one_track("char_0", vec![entry("atk", 0), entry("skill", 30)]));
    assert_eq!(mgr.tracks.len(), 1);
    assert_eq!(mgr.tracks[0].track_id, "t1");
    assert_eq!(mgr.tracks[0].next_action_index, 0);
    assert!(!mgr.all_tracks_exhausted());
}

#[test]
fn test_track_exhausted_initial() {
    let track = TrackState::from_track(&Track { track_id: "t1".into(), char_id: "c1".into(), actions: vec![entry("a1", 0)] });
    assert!(!track.is_exhausted());
}

#[test]
fn test_track_exhausted_when_done() {
    let mut track = TrackState::from_track(&Track { track_id: "t1".into(), char_id: "c1".into(), actions: vec![entry("a1", 0)] });
    track.next_action_index = 1;
    assert!(track.is_exhausted());
}

#[test]
fn test_track_current_action() {
    let track = TrackState::from_track(&Track { track_id: "t1".into(), char_id: "c1".into(), actions: vec![entry("a1", 0)] });
    let e = track.current_action().unwrap();
    assert_eq!(e.action_id, "a1");
    assert_eq!(e.at, 0);
}

#[test]
fn test_track_current_action_none_when_exhausted() {
    let track = TrackState::from_track(&Track { track_id: "t1".into(), char_id: "c1".into(), actions: vec![] });
    assert!(track.current_action().is_none());
}

#[test]
fn test_dispatch_action_at_tick_zero() {
    let mut mgr = APLManager::new(one_track("char_0", vec![entry("normal_atk", 0)]));
    let skills = default_skills();
    let errors = run_tick(&mut mgr, 0, &skills, &TEAM);
    assert!(errors.is_empty());
    let actions = mgr.get_pending_actions();
    assert!(actions.iter().any(|pa| matches!(pa, PendingAction::ActionStarted { action_id, .. } if action_id == "normal_atk")));
}

#[test]
fn test_action_not_dispatched_before_scheduled_tick() {
    let mut mgr = APLManager::new(one_track("char_0", vec![entry("normal_atk", 30)]));
    let skills = default_skills();
    assert!(run_tick(&mut mgr, 0, &skills, &TEAM).is_empty());
    assert!(mgr.get_pending_actions().is_empty());
    assert!(run_tick(&mut mgr, 30, &skills, &TEAM).is_empty());
    assert!(!mgr.get_pending_actions().is_empty());
}

#[test]
fn test_multiple_actions_in_sequence() {
    let mut mgr = APLManager::new(one_track("char_0", vec![entry("normal_atk", 0), entry("ex_skill", 30)]));
    let skills = default_skills();
    run_tick(&mut mgr, 0, &skills, &TEAM);
    assert!(!mgr.get_pending_actions().is_empty());
    let errors = run_tick(&mut mgr, 30, &skills, &TEAM);
    assert!(errors.is_empty());
    let actions = mgr.get_pending_actions();
    assert!(actions.iter().any(|pa| matches!(pa, PendingAction::ActionStarted { action_id, .. } if action_id == "ex_skill")));
}

#[test]
fn test_track_exhausted_after_all_actions_dispatched() {
    let mut mgr = APLManager::new(one_track("char_0", vec![entry("normal_atk", 0)]));
    let skills = default_skills();
    assert!(!mgr.all_tracks_exhausted());
    run_tick(&mut mgr, 0, &skills, &TEAM);
    let _ = mgr.get_pending_actions();
    assert!(mgr.all_tracks_exhausted());
    assert!(mgr.is_exhausted);
}

#[test]
fn test_no_dispatch_when_exhausted() {
    let mut mgr = APLManager::new(one_track("char_0", vec![entry("normal_atk", 0)]));
    let skills = default_skills();
    run_tick(&mut mgr, 0, &skills, &TEAM);
    let _ = mgr.get_pending_actions();
    run_tick(&mut mgr, 1, &skills, &TEAM);
    assert!(mgr.get_pending_actions().is_empty());
}

#[test]
fn test_animation_advances_and_completes() {
    let mut s = skill("anim_test", 0);
    s.animation_frames = 5;
    let skills = vec![s];
    let mut mgr = APLManager::new(one_track("char_0", vec![entry("anim_test", 0)]));
    run_tick(&mut mgr, 0, &skills, &TEAM);
    assert!(mgr.get_pending_actions().iter().any(|pa| matches!(pa, PendingAction::ActionStarted { .. })));
    for _ in 0..4 {
        run_tick(&mut mgr, 0, &skills, &TEAM);
        assert!(mgr.get_pending_actions().is_empty());
    }
    run_tick(&mut mgr, 0, &skills, &TEAM);
    assert!(mgr.get_pending_actions().iter().any(|pa| matches!(pa, PendingAction::ActionCompleted { .. })));
}

#[test]
fn test_hit_frame_triggers_at_correct_frame() {
    // Hits at frames 3 and 7 (multipliers 1.5 and 2.0, found again by
    // their positions 0 and 1).
    let multipliers = [1.5f64, 2.0f64];
    let mut s = skill("multi_hit", 0);
    s.damage_frames = vec![3, 7];
    s.animation_frames = 10;
    let skills = vec![s];
    let mut mgr = APLManager::new(one_track("char_0", vec![entry("multi_hit", 0)]));
    run_tick(&mut mgr, 0, &skills, &TEAM);
    assert!(mgr.get_pending_actions().iter().any(|pa| matches!(pa, PendingAction::ActionStarted { .. })));
    run_tick(&mut mgr, 0, &skills, &TEAM);
    assert!(mgr.get_pending_actions().is_empty());
    run_tick(&mut mgr, 0, &skills, &TEAM);
    let pa = mgr.get_pending_actions();
    assert_eq!(pa.len(), 1);
    match &pa[0] {
        PendingAction::HitFrameTriggered { frame, hit_index, .. } => {
            assert_eq!(*frame, 3);
            assert_eq!(multipliers[*hit_index], 1.5);
        }
        other => panic!("unexpected {:?}", other),
    }
    for _ in 0..3 {
        run_tick(&mut mgr, 0, &skills, &TEAM);
        assert!(mgr.get_pending_actions().is_empty());
    }
    run_tick(&mut mgr, 0, &skills, &TEAM);
    let pa = mgr.get_pending_actions();
    assert_eq!(pa.len(), 1);
    match &pa[0] {
        PendingAction::HitFrameTriggered { frame, hit_index, .. } => {
            assert_eq!(*frame, 7);
            assert_eq!(multipliers[*hit_index], 2.0);
        }
        other => panic!("unexpected {:?}", other),
    }
}

#[test]
fn test_charge_branch_starts_charging() {
    let mut s = skill("hold_atk", 0);
    s.charge_branches = vec![ChargeBranch { charge_duration: 30, variant_action_id: "hold_atk_charged".to_string() }];
    let skills = vec![s];
    let mut mgr = APLManager::new(one_track("char_0", vec![entry("hold_atk", 0)]));
    run_tick(&mut mgr, 0, &skills, &TEAM);
    let pa = mgr.get_pending_actions();
    assert_eq!(pa.len(), 1);
    assert!(matches!(pa[0], PendingAction::ChargingStarted { ref action_id, charge_duration: 30, .. } if action_id == "hold_atk"));
}

#[test]
fn test_charge_complete_triggers_variant() {
    let mut s = skill("hold_atk", 0);
    s.charge_branches = vec![ChargeBranch { charge_duration: 5, variant_action_id: "hold_atk_charged".to_string() }];
    let mut variant = skill("hold_atk_charged", 0);
    variant.animation_frames = 3;
    let skills = vec![s, variant];
    let mut mgr = APLManager::new(one_track("char_0", vec![entry("hold_atk", 0)]));
    run_tick(&mut mgr, 0, &skills, &TEAM);
    let _ = mgr.get_pending_actions();
    for _ in 0..4 {
        run_tick(&mut mgr, 0, &skills, &TEAM);
        assert!(mgr.get_pending_actions().is_empty());
    }
    run_tick(&mut mgr, 0, &skills, &TEAM);
    let pa = mgr.get_pending_actions();
    assert!(pa.iter().any(|pa| matches!(pa, PendingAction::ChargingCompleted { ref variant_action_id, .. } if variant_action_id == "hold_atk_charged")));
    assert!(pa.iter().any(|pa| matches!(pa, PendingAction::ActionStarted { ref action_id, .. } if action_id == "hold_atk_charged")));
}

#[test]
fn test_prerequisite_not_met_blocks_dispatch() {
    let mut follow_up = skill("follow_up", 0);
    follow_up.prerequisite_action_id = Some("normal_atk".into());
    let skills = vec![skill("normal_atk", 0), follow_up];
    let mut mgr = APLManager::new(one_track("char_0", vec![entry("follow_up", 0)]));
    let errors = run_tick(&mut mgr, 0, &skills, &TEAM);
    assert!(errors.is_empty());
    assert!(mgr.get_pending_actions().is_empty());
}

#[test]
fn test_prerequisite_met_allows_dispatch() {
    let mut follow_up = skill("follow_up", 0);
    follow_up.prerequisite_action_id = Some("normal_atk".into());
    let skills = vec![skill("normal_atk", 0), follow_up];
    let mut mgr = APLManager::new(one_track("char_0", vec![entry("normal_atk", 0), entry("follow_up", 10)]));
    run_tick(&mut mgr, 0, &skills, &TEAM);
    assert!(!mgr.get_pending_actions().is_empty());
    let errors = run_tick(&mut mgr, 10, &skills, &TEAM);
    assert!(errors.is_empty());
    let actions = mgr.get_pending_actions();
    assert!(actions.iter().any(|pa| matches!(pa, PendingAction::ActionStarted { action_id, .. } if action_id == "follow_up")));
}

#[test]
fn test_cooldown_prevents_immediate_reuse() {
    let skills = vec![skill("ex_skill", 30)];
    let mut mgr = APLManager::new(one_track("char_0", vec![entry("ex_skill", 0), entry("ex_skill", 10)]));
    assert!(run_tick(&mut mgr, 0, &skills, &TEAM).is_empty());
    let _ = mgr.get_pending_actions();
    let errors = run_tick(&mut mgr, 10, &skills, &TEAM);
    assert_eq!(errors.len(), 1);
    assert_eq!(errors[0].missing_resource, ResourceType::Cooldown);
}

#[test]
fn test_cooldown_expires_and_allows_reuse() {
    let skills = vec![skill("ex_skill", 20)];
    let mut mgr = APLManager::new(one_track("char_0", vec![entry("ex_skill", 0), entry("ex_skill", 25)]));
    run_tick(&mut mgr, 0, &skills, &TEAM);
    let _ = mgr.get_pending_actions();
    let errors = run_tick(&mut mgr, 25, &skills, &TEAM);
    assert!(errors.is_empty());
    assert!(!mgr.get_pending_actions().is_empty());
}

#[test]
fn test_multi_track_dispatch() {
    let apl = APLData {
        tracks: vec![
            Track { track_id: "t1".into(), char_id: "char_0".into(), actions: vec![entry("normal_atk", 0)] },
            Track { track_id: "t2".into(), char_id: "char_1".into(), actions: vec![entry("normal_atk", 0)] },
        ],
    };
    let mut mgr = APLManager::new(apl);
    let skills = default_skills();
    assert!(run_tick(&mut mgr, 0, &skills, &TEAM).is_empty());
    let actions = mgr.get_pending_actions();
    assert_eq!(actions.len(), 4);
    let sources: Vec<&str> = actions
        .iter()
        .filter_map(|pa| if let PendingAction::ActionStarted { char_id, .. } = pa { Some(char_id.as_str()) } else { None })
        .collect();
    assert!(sources.contains(&"char_0"));
    assert!(sources.contains(&"char_1"));
}

#[test]
fn test_multi_track_independent_ticks() {
    let apl = APLData {
        tracks: vec![
            Track { track_id: "t1".into(), char_id: "char_0".into(), actions: vec![entry("normal_atk", 0)] },
            Track { track_id: "t2".into(), char_id: "char_1".into(), actions: vec![entry("normal_atk", 50)] },
        ],
    };
    let mut mgr = APLManager::new(apl);
    let skills = default_skills();
    run_tick(&mut mgr, 0, &skills, &TEAM);
    assert_eq!(mgr.get_pending_actions().len(), 2);
    run_tick(&mut mgr, 30, &skills, &TEAM);
    assert!(mgr.get_pending_actions().is_empty());
    assert!(run_tick(&mut mgr, 50, &skills, &TEAM).is_empty());
    let actions = mgr.get_pending_actions();
    assert_eq!(actions.len(), 2);
    assert!(actions.iter().any(|pa| matches!(pa, PendingAction::ActionStarted { char_id, .. } if char_id == "char_1")));
}

#[test]
fn test_unknown_skill_id_is_skipped() {
    let mut mgr = APLManager::new(one_track("char_0", vec![entry("nonexistent_skill", 0)]));
    let skills: Vec<SkillTiming> = vec![];
    assert!(run_tick(&mut mgr, 0, &skills, &TEAM).is_empty());
    let pending = mgr.get_pending_actions();
    assert_eq!(pending.len(), 1);
    assert!(matches!(pending[0], PendingAction::ActionFailed { ref action_id, .. } if action_id == "nonexistent_skill"));
    assert!(mgr.all_tracks_exhausted());
}

#[test]
fn test_unknown_char_id_is_skipped() {
    let mut mgr = APLManager::new(one_track("nonexistent_char", vec![entry("normal_atk", 0)]));
    let skills = default_skills();
    assert!(run_tick(&mut mgr, 0, &skills, &TEAM).is_empty());
    let pending = mgr.get_pending_actions();
    assert_eq!(pending.len(), 1);
    assert!(matches!(pending[0], PendingAction::ActionFailed { ref char_id, .. } if char_id == "nonexistent_char"));
}

#[test]
fn test_get_pending_actions_drains() {
    let mut mgr = APLManager::new(one_track("char_0", vec![entry("normal_atk", 0), entry("normal_atk", 10)]));
    let skills = default_skills();
    run_tick(&mut mgr, 0, &skills, &TEAM);
    assert!(!mgr.get_pending_actions().is_empty());
    assert!(mgr.get_pending_actions().is_empty());
    run_tick(&mut mgr, 10, &skills, &TEAM);
    assert!(!mgr.get_pending_actions().is_empty());
}

#[test]
fn test_full_multi_track_integration() {
    let skills = vec![skill("normal_atk", 0), skill("ex_skill", 15)];
    let apl = APLData {
        tracks: vec![
            Track {
                track_id: "t1".into(),
                char_id: "char_0".into(),
                actions: vec![entry("normal_atk", 0), entry("ex_skill", 20), entry("normal_atk", 50)],
            },
            Track { track_id: "t2".into(), char_id: "char_1".into(), actions: vec![entry("normal_atk", 0), entry("normal_atk", 30)] },
        ],
    };
    let mut mgr = APLManager::new(apl);
    assert!(run_tick(&mut mgr, 0, &skills, &TEAM).is_empty());
    assert_eq!(mgr.get_pending_actions().len(), 4);
    assert!(run_tick(&mut mgr, 20, &skills, &TEAM).is_empty());
    assert_eq!(mgr.get_pending_actions().len(), 2);
    assert!(run_tick(&mut mgr, 30, &skills, &TEAM).is_empty());
    assert_eq!(mgr.get_pending_actions().len(), 2);
    assert!(run_tick(&mut mgr, 50, &skills, &TEAM).is_empty());
    assert_eq!(mgr.get_pending_actions().len(), 2);
    assert!(mgr.all_tracks_exhausted());
    assert!(mgr.is_exhausted);
}

#[test]
fn test_exhausted_flag_no_longer_processes() {
    let mut mgr = APLManager::new(one_track("char_0", vec![entry("normal_atk", 0)]));
    let skills = default_skills();
    run_tick(&mut mgr, 0, &skills, &TEAM);
    let _ = mgr.get_pending_actions();
    assert!(mgr.is_exhausted);
    assert!(run_tick(&mut mgr, 100, &skills, &TEAM).is_empty());
    assert!(mgr.get_pending_actions().is_empty());
}

#[test]
fn test_same_tick_no_double_dispatch() {
    let mut mgr = APLManager::new(one_track("char_0", vec![entry("normal_atk", 0)]));
    let skills = default_skills();
    run_tick(&mut mgr, 0, &skills, &TEAM);
    assert!(!mgr.get_pending_actions().is_empty());
    run_tick(&mut mgr, 0, &skills, &TEAM);
    assert!(mgr.get_pending_actions().is_empty());
}

#[test]
fn test_validator_mut_access() {
    let mut mgr = APLManager::new(APLData { tracks: vec![] });
    mgr.set_cooldown(&"test".to_string(), 10, 0);
    assert_eq!(mgr.remaining_cooldown(&"test".to_string(), 5), 5);
}

#[test]
fn test_action_failed_for_unknown_skill_emits_event() {
    let mut mgr = APLManager::new(one_track("char_0", vec![entry("ghost_skill", 0)]));
    let skills: Vec<SkillTiming> = vec![];
    let _ = run_tick(&mut mgr, 0, &skills, &TEAM);
    let pa = mgr.get_pending_actions();
    assert!(pa.iter().any(|pa| matches!(pa, PendingAction::ActionFailed { action_id, .. } if action_id == "ghost_skill")));
}

#[test]
fn test_full_action_lifecycle_integration() {
    let multipliers = [0.8f64];
    let mut s = skill("combo_hit", 0);
    s.damage_frames = vec![2];
    s.animation_frames = 4;
    let skills = vec![s];
    let mut mgr = APLManager::new(one_track("char_0", vec![entry("combo_hit", 0)]));
    run_tick(&mut mgr, 0, &skills, &TEAM);
    assert!(mgr.get_pending_actions().iter().any(|pa| matches!(pa, PendingAction::ActionStarted { .. })));
    run_tick(&mut mgr, 0, &skills, &TEAM);
    let pa = mgr.get_pending_actions();
    assert!(pa.iter().any(|pa| matches!(pa, PendingAction::HitFrameTriggered { frame: 2, hit_index, .. } if multipliers[*hit_index] == 0.8)));
    for _ in 0..2 {
        run_tick(&mut mgr, 0, &skills, &TEAM);
    }
    assert!(mgr.get_pending_actions().is_empty());
    run_tick(&mut mgr, 0, &skills, &TEAM);
    assert!(mgr.get_pending_actions().iter().any(|pa| matches!(pa, PendingAction::ActionCompleted { .. })));
}

// ---- further cases of the library's own ----

#[test]
fn test_ready_step_leaves_track_for_retry() {
    // A track whose due action the caller refuses stays on that action.
    let mut mgr = APLManager::new(one_track("char_0", vec![entry("ex_skill", 0), entry("normal_atk", 10)]));
    let skills = default_skills();
    assert_eq!(mgr.step_track(0, 0, &skills), TrackStep::Ready { skill_index: 1 });
    assert_eq!(mgr.tracks[0].next_action_index, 0);
    assert!(mgr.get_pending_actions().is_empty());
    assert_eq!(mgr.step_track(0, 10, &skills), TrackStep::Ready { skill_index: 1 });
    mgr.start_action(0, 10, &skills[1]);
    assert_eq!(mgr.tracks[0].next_action_index, 1);
    assert_eq!(mgr.tracks[0].last_completed_action_id.as_deref(), Some("ex_skill"));
}

#[test]
fn test_failure_reasons_text() {
    let mut mgr = APLManager::new(one_track("char_9", vec![entry("ghost", 0), entry("normal_atk", 0)]));
    let skills = default_skills();
    run_tick(&mut mgr, 0, &skills, &TEAM);
    run_tick(&mut mgr, 0, &skills, &TEAM);
    let pa = mgr.get_pending_actions();
    assert_eq!(pa.len(), 2);
    assert!(matches!(&pa[0], PendingAction::ActionFailed { reason, .. } if reason == "Unknown action: ghost"));
    assert!(matches!(&pa[1], PendingAction::ActionFailed { reason, .. } if reason == "Character 'char_9' not in team"));
}

#[test]
fn test_missing_variant_fails_and_idles() {
    let mut s = skill("hold", 0);
    s.charge_branches = vec![ChargeBranch { charge_duration: 1, variant_action_id: "nowhere".to_string() }];
    let skills = vec![s];
    let mut mgr = APLManager::new(one_track("char_0", vec![entry("hold", 0)]));
    run_tick(&mut mgr, 0, &skills, &TEAM);
    let _ = mgr.get_pending_actions();
    run_tick(&mut mgr, 1, &skills, &TEAM);
    let pa = mgr.get_pending_actions();
    assert_eq!(pa.len(), 1);
    assert!(matches!(&pa[0], PendingAction::ActionFailed { action_id, reason, .. } if action_id == "nowhere" && reason == "Variant 'nowhere' not found"));
    assert!(matches!(mgr.tracks[0].animation, AnimationState::Idle));
}

#[test]
fn test_frame_one_hits_fire_at_start() {
    let mut s = skill("jab", 0);
    s.damage_frames = vec![1, 1, 2];
    s.animation_frames = 3;
    let skills = vec![s];
    let mut mgr = APLManager::new(one_track("char_0", vec![entry("jab", 0)]));
    run_tick(&mut mgr, 0, &skills, &TEAM);
    let pa = mgr.get_pending_actions();
    assert_eq!(pa.len(), 3);
    assert!(matches!(pa[0], PendingAction::HitFrameTriggered { frame: 1, hit_index: 0, .. }));
    assert!(matches!(pa[1], PendingAction::HitFrameTriggered { frame: 1, hit_index: 1, .. }));
    assert!(matches!(pa[2], PendingAction::ActionStarted { .. }));
}

#[test]
fn test_check_cooldown_reports_ready_tick() {
    let mut mgr = APLManager::new(APLData { tracks: vec![] });
    let s = skill("ex_skill", 30);
    assert!(mgr.check_cooldown(&s, 0).is_ok());
    mgr.set_cooldown(&"ex_skill".to_string(), 30, 10);
    let e = mgr.check_cooldown(&s, 35).unwrap_err();
    assert_eq!(e.action_id, "ex_skill");
    assert_eq!(e.current_value, 35);
    assert_eq!(e.required_value, 40);
    assert!(mgr.check_cooldown(&s, 40).is_ok());
    assert_eq!(mgr.remaining_cooldown(&"other".to_string(), 0), 0);
}

#[test]
fn test_exhausted_manager_tick_changes_nothing() {
    let mut mgr = APLManager::new(one_track("char_0", vec![entry("normal_atk", 0)]));
    let skills = default_skills();
    run_tick(&mut mgr, 0, &skills, &TEAM);
    let _ = mgr.get_pending_actions();
    assert!(mgr.is_exhausted);
    let mut keeper = RosterKeeper { members: vec![], refusals: vec![] };
    mgr.process_tick(1, &skills, &mut keeper);
    assert!(mgr.get_pending_actions().is_empty());
    assert!(keeper.refusals.is_empty());
    assert!(mgr.is_exhausted);
    assert_eq!(mgr.tracks[0].next_action_index, 1);
}

#[test]
fn test_missing_character_reported_by_roster_keeper() {
    let mut mgr = APLManager::new(one_track("char_9", vec![entry("normal_atk", 0)]));
    let skills = default_skills();
    run_tick(&mut mgr, 0, &skills, &TEAM);
    let events = mgr.get_pending_actions();
    assert_eq!(events.len(), 1);
    assert!(matches!(&events[0], PendingAction::ActionFailed { reason, .. } if reason == "Character 'char_9' not in team"));
}
