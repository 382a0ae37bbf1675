use rand::Rng;
use zsim::rng::RNGManager;

// A draw as the simulation makes it: counted, then taken from the generator.
fn gen_range(m: &mut RNGManager, min: f64, max: f64) -> f64 {
    m.draw_source().gen_range(min..max)
}

fn gen_bool(m: &mut RNGManager, p: f64) -> bool {
    m.draw_source().gen_bool(p)
}

#[test]
fn test_same_seed_identical_sequence() {
    let mut a = RNGManager::new(42);
    let mut b = RNGManager::new(42);
    for _ in 0..100 {
        assert_eq!(gen_range(&mut a, 0.0, 1.0), gen_range(&mut b, 0.0, 1.0));
    }
}

#[test]
fn test_different_seed_different_sequence() {
    let mut a = RNGManager::new(42);
    let mut b = RNGManager::new(99);
    assert_ne!(gen_range(&mut a, 0.0, 1.0), gen_range(&mut b, 0.0, 1.0));
}

#[test]
fn test_call_count_increments() {
    let mut rng = RNGManager::new(1);
    assert_eq!(rng.call_count(), 0);
    gen_range(&mut rng, 0.0, 1.0);
    assert_eq!(rng.call_count(), 1);
    gen_bool(&mut rng, 0.5);
    assert_eq!(rng.call_count(), 2);
}

#[test]
fn test_snapshot_restore() {
    let mut rng = RNGManager::new(99);
    gen_range(&mut rng, 0.0, 1.0);
    gen_bool(&mut rng, 0.5);
    let snap = rng.snapshot();
    let v1 = gen_range(&mut rng, 0.0, 1.0);
    let v2 = gen_bool(&mut rng, 0.5);
    rng.restore(snap);
    assert_eq!(gen_range(&mut rng, 0.0, 1.0), v1);
    assert_eq!(gen_bool(&mut rng, 0.5), v2);
}

#[test]
fn test_snapshot_restore_preserves_call_count() {
    let mut rng = RNGManager::new(5);
    gen_range(&mut rng, 0.0, 1.0);
    gen_range(&mut rng, 0.0, 1.0);
    assert_eq!(rng.call_count(), 2);
    let snap = rng.snapshot();
    gen_range(&mut rng, 0.0, 1.0);
    assert_eq!(rng.call_count(), 3);
    rng.restore(snap);
    assert_eq!(rng.call_count(), 2);
}

#[test]
fn test_multiple_snapshots() {
    let mut rng = RNGManager::new(123);
    gen_range(&mut rng, 0.0, 1.0);
    let snap1 = rng.snapshot();
    let v1 = gen_range(&mut rng, 0.0, 1.0);
    let snap2 = rng.snapshot();
    let v2 = gen_range(&mut rng, 0.0, 1.0);
    rng.restore(snap1);
    assert_eq!(gen_range(&mut rng, 0.0, 1.0), v1);
    assert_eq!(gen_range(&mut rng, 0.0, 1.0), v2);
    rng.restore(snap2);
    assert_eq!(gen_range(&mut rng, 0.0, 1.0), v2);
}

#[test]
fn test_snapshot_restore_noop() {
    let mut rng = RNGManager::new(42);
    let snap = rng.snapshot();
    rng.restore(snap);
    assert_eq!(rng.call_count(), 0);
}

#[test]
fn test_seed_getter() {
    let rng = RNGManager::new(0xDEAD_BEEF);
    assert_eq!(rng.seed(), 0xDEAD_BEEF);
}

#[test]
fn test_restore_keeps_seed() {
    let mut rng = RNGManager::new(7);
    let snap = RNGManager::new(8).snapshot();
    rng.restore(snap);
    assert_eq!(rng.seed(), 7);
}

fn gen_crit(m: &mut RNGManager, rate: f64) -> bool {
    gen_bool(m, rate)
}

#[test]
fn test_gen_range_bounds() {
    let mut rng = RNGManager::new(7);
    for _ in 0..1000 {
        let v = gen_range(&mut rng, 5.0, 10.0);
        assert!((5.0..10.0).contains(&v), "out of bounds: {v}");
    }
}

#[test]
fn test_gen_bool_variety() {
    let mut rng = RNGManager::new(13);
    let mut has_true = false;
    let mut has_false = false;
    for _ in 0..1000 {
        if gen_bool(&mut rng, 0.5) {
            has_true = true;
        } else {
            has_false = true;
        }
    }
    assert!(has_true);
    assert!(has_false);
}

#[test]
fn test_gen_crit_behavior() {
    let mut rng = RNGManager::new(21);
    let mut crit_count = 0u64;
    for _ in 0..10_000 {
        if gen_crit(&mut rng, 0.3) {
            crit_count += 1;
        }
    }
    assert!(crit_count > 2000, "crit_count too low: {crit_count}");
    assert!(crit_count < 4000, "crit_count too high: {crit_count}");
}

#[test]
fn test_deterministic_10_runs() {
    let mut results: Vec<Vec<u64>> = Vec::new();
    for _ in 0..10 {
        let mut rng = RNGManager::new(777);
        let mut vals = Vec::new();
        for _ in 0..50 {
            match vals.len() % 3 {
                0 => vals.push(gen_range(&mut rng, 0.0, 100.0) as u64),
                1 => vals.push(gen_bool(&mut rng, 0.5) as u64),
                _ => vals.push(gen_crit(&mut rng, 0.3) as u64),
            }
        }
        results.push(vals);
    }
    for i in 1..10 {
        assert_eq!(results[0], results[i], "run {i} diverged from run 0");
    }
}

#[test]
fn test_gen_range_negative() {
    let mut rng = RNGManager::new(1);
    for _ in 0..100 {
        let v = gen_range(&mut rng, -10.0, 10.0);
        assert!((-10.0..10.0).contains(&v), "out of bounds: {v}");
    }
}

#[test]
fn test_draw_source_counts_and_advances() {
    let mut a = RNGManager::new(7);
    let mut b = RNGManager::new(7);
    let x: u64 = a.draw_source().gen();
    assert_eq!(a.call_count(), 1);
    let y: u64 = b.draw_source().gen();
    assert_eq!(x, y);
    let x2: u64 = a.draw_source().gen();
    assert_ne!(x, x2);
    assert_eq!(a.call_count(), 2);
    assert_eq!(a.seed(), 7);
}

#[test]
fn test_manager_clone_draws_the_same() {
    let mut a = RNGManager::new(11);
    let _: u64 = a.draw_source().gen();
    let mut b = a.clone();
    assert_eq!(b.call_count(), 1);
    let x: u64 = a.draw_source().gen();
    let y: u64 = b.draw_source().gen();
    assert_eq!(x, y);
}
