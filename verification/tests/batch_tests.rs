use zsim::batch::{progress_step, should_report, sim_seed};

#[test]
fn test_sim_seeds_follow_index() {
    assert_eq!(sim_seed(42, 0), 42);
    assert_eq!(sim_seed(42, 9), 51);
    assert_eq!(sim_seed(u64::MAX, 1), 0);
}

#[test]
fn test_progress_step_rounds_up() {
    assert_eq!(progress_step(0), 1);
    assert_eq!(progress_step(10), 1);
    assert_eq!(progress_step(100), 1);
    assert_eq!(progress_step(101), 2);
    assert_eq!(progress_step(250), 3);
}

#[test]
fn test_should_report_on_steps_and_end() {
    assert!(should_report(3, 3, 10));
    assert!(!should_report(4, 3, 10));
    assert!(should_report(10, 3, 10));
}
