//! Benchmark tree planning: exact counts, determinism, and the target guard.

use diskdrift::benchtree::{check_request, next_file_size, plan_tree, BenchMode, GenConfig, RefusalKind, Rng};

fn cfg(files: u64, mode: BenchMode, seed: u64, force: bool) -> GenConfig {
    GenConfig { files, mode, seed, force }
}

fn sizes(c: &GenConfig) -> Vec<u64> {
    let mut rng = Rng::for_config(c);
    (0..c.files).map(|_| next_file_size(&mut rng, c.mode)).collect()
}

#[test]
fn deterministic_tree_same_seed_identical() {
    let cfg_a = cfg(500, BenchMode::Mixed, 42, false);
    let cfg_b = cfg(500, BenchMode::Mixed, 42, false);
    let a = plan_tree("/a", &cfg_a);
    let b = plan_tree("/b", &cfg_b);
    let counts_a: Vec<u64> = a.iter().map(|(_, c)| *c).collect();
    let counts_b: Vec<u64> = b.iter().map(|(_, c)| *c).collect();
    assert_eq!(counts_a, counts_b);
    assert_eq!(a.len(), b.len());
    assert_eq!(counts_a.iter().sum::<u64>(), 500);
    assert_eq!(sizes(&cfg_a), sizes(&cfg_b));
}

#[test]
fn different_seed_different_sizes() {
    let a = cfg(300, BenchMode::Mixed, 1, false);
    let b = cfg(300, BenchMode::Mixed, 2, false);
    assert_eq!(plan_tree("/a", &a).iter().map(|(_, c)| *c).sum::<u64>(), 300);
    assert_eq!(plan_tree("/b", &b).iter().map(|(_, c)| *c).sum::<u64>(), 300);
    let size_a: u64 = sizes(&a).iter().sum();
    let size_b: u64 = sizes(&b).iter().sum();
    assert_ne!(size_a, size_b, "different seeds should change sizes");
}

#[test]
fn exact_count_for_all_modes() {
    for (mode, count) in [
        (BenchMode::Wide, 137u64),
        (BenchMode::Deep, 137),
        (BenchMode::Mixed, 137),
        (BenchMode::Tiny, 137),
        (BenchMode::Large, 9),
    ] {
        let plan = plan_tree("/t", &cfg(count, mode, 7, false));
        assert_eq!(plan.iter().map(|(_, c)| *c).sum::<u64>(), count, "mode {mode:?}");
        assert!(!plan.is_empty());
    }
}

#[test]
fn zero_files_is_invalid() {
    let err = check_request("/t", &cfg(0, BenchMode::Wide, 1, false), false).unwrap_err();
    assert!(err.message.contains(">= 1"));
    assert_eq!(err.kind, RefusalKind::InvalidInput);
}

#[test]
fn non_empty_target_requires_force() {
    let err = check_request("/t", &cfg(10, BenchMode::Wide, 1, false), true).unwrap_err();
    assert!(err.message.contains("--force"));
    assert_eq!(err.kind, RefusalKind::AlreadyExists);
    assert_eq!(check_request("/t", &cfg(25, BenchMode::Wide, 1, true), true), Ok(true));
    let plan = plan_tree("/t", &cfg(25, BenchMode::Wide, 1, true));
    assert_eq!(plan.iter().map(|(_, c)| *c).sum::<u64>(), 25);
}

#[test]
fn repeated_generation_is_stable_and_force_replaces() {
    let c = cfg(400, BenchMode::Mixed, 9, false);
    let first = plan_tree("/t", &c);
    assert_eq!(first.iter().map(|(_, c)| *c).sum::<u64>(), 400);
    assert_eq!(check_request("/t", &c, false), Ok(false));
    assert!(check_request("/t", &c, true).unwrap_err().message.contains("--force"));
    let again = plan_tree("/t", &cfg(400, BenchMode::Mixed, 9, true));
    assert_eq!(again, first);
}

#[test]
fn shapes_name_their_directories() {
    let wide = plan_tree("/t", &cfg(5, BenchMode::Wide, 1, false));
    assert_eq!(wide.iter().map(|(p, _)| p.as_str()).collect::<Vec<_>>(), vec!["/t/d0000", "/t/d0001", "/t/d0002", "/t/d0003", "/t/d0004"]);
    let deep = plan_tree("/t", &cfg(6, BenchMode::Deep, 1, false));
    assert_eq!(deep[0], ("/t/lvl".to_string(), 1));
    assert_eq!(deep[3], ("/t/lvl/lvl/lvl/lvl".to_string(), 1));
    let mixed = plan_tree("/t", &cfg(7, BenchMode::Mixed, 1, false));
    assert_eq!(mixed[0].0, "/t/p0000/src");
    assert_eq!(mixed[4].0, "/t/p0001/docs");
    assert_eq!(mixed.len(), 21);
    let large = plan_tree("/t", &cfg(60, BenchMode::Large, 1, false));
    assert_eq!(large, vec![("/t/large".to_string(), 60)]);
}

#[test]
fn file_sizes_stay_in_their_ranges() {
    let mut rng = Rng(12345);
    for _ in 0..200 {
        let s = next_file_size(&mut rng, BenchMode::Large);
        assert!((1 << 20..=1 << 23).contains(&s) && s.is_power_of_two());
        assert!(next_file_size(&mut rng, BenchMode::Tiny) <= 64);
        let m = next_file_size(&mut rng, BenchMode::Wide);
        assert!((1..=128).contains(&m));
    }
    let mut r = Rng(1);
    assert_eq!(r.next(), 1082269761);
    assert_eq!(Rng(9).below(0), 0);
    assert_eq!(GenConfig::default(10).seed, 0x5eed);
}

#[test]
fn generated_file_names_are_zero_padded() {
    assert_eq!(diskdrift::benchtree::file_name(0), "f000000.dat");
    assert_eq!(diskdrift::benchtree::file_name(42), "f000042.dat");
    assert_eq!(diskdrift::benchtree::file_name(1_234_567), "f1234567.dat");
}
