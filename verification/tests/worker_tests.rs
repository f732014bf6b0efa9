use work_server::bench::{benchmark_average, benchmark_roots};
use work_server::gpu_track::GpuTracker;
use work_server::hashing::work_valid;
use work_server::search::{advance_nonce, search_round, search_round_random, SEARCH_ITERATIONS};

#[test]
fn search_finds_valid_nonce_at_zero_threshold() {
    let root = vec![0x42u8; 32];
    let threshold = vec![0u8; 32];
    let mut trng = work_server::rng::new_thread_rng();
    let mut rng = work_server::rng::worker_rng(&mut trng);
    let nonce = search_round_random(&mut rng, &root, &threshold, 4).unwrap();
    assert_eq!(nonce.len(), 8);
    let (valid, _digest) = work_valid(&root, &nonce, &threshold);
    assert!(valid);
}

#[test]
fn search_gives_up_when_threshold_is_unreachable_in_budget() {
    let root = vec![0x42u8; 32];
    let threshold = vec![0xFFu8; 32];
    let mut trng = work_server::rng::new_thread_rng();
    let mut rng = work_server::rng::worker_rng(&mut trng);
    assert!(search_round_random(&mut rng, &root, &threshold, 8).is_none());
}

#[test]
fn search_iterations_default_is_two_to_the_eighteenth() {
    assert_eq!(SEARCH_ITERATIONS, 1u64 << 18);
}

#[test]
fn advance_nonce_increments_little_endian() {
    let mut n = vec![0u8; 8];
    advance_nonce(&mut n);
    assert_eq!(n, vec![1, 0, 0, 0, 0, 0, 0, 0]);

    let mut n = vec![255u8, 0, 0, 0, 0, 0, 0, 0];
    advance_nonce(&mut n);
    assert_eq!(n, vec![0, 1, 0, 0, 0, 0, 0, 0]);

    let mut n = vec![255u8; 8];
    advance_nonce(&mut n);
    assert_eq!(n, vec![0u8; 8]);
}

#[test]
fn benchmark_roots_are_fresh_and_sized() {
    let roots = benchmark_roots(4);
    assert_eq!(roots.len(), 4);
    assert!(roots.iter().all(|r| r.len() == 32));
}

#[test]
fn benchmark_average_rounds_down() {
    assert_eq!(benchmark_average(10, 4), 2);
    assert_eq!(benchmark_average(0, 4), 0);
    assert_eq!(benchmark_average(9, 1), 9);
}

#[test]
fn three_consecutive_invalid_results_quarantine_the_device() {
    let mut t = GpuTracker::new();
    t.on_invalid();
    assert!(!t.failed);
    t.on_invalid();
    assert!(!t.failed);
    t.on_invalid();
    assert!(t.failed);
}

#[test]
fn productive_dispatches_reset_the_error_streak() {
    let mut t = GpuTracker::new();
    t.on_device_error(true);
    t.on_device_error(true);
    assert!(!t.failed);
    t.on_no_hit();
    t.on_device_error(true);
    t.on_device_error(true);
    assert!(!t.failed);
    t.on_device_error(true);
    assert!(t.failed);
}

#[test]
fn failed_reset_quarantines_at_once() {
    let mut t = GpuTracker::new();
    t.on_device_error(false);
    assert!(t.failed);
}

#[test]
fn new_job_lifts_quarantine() {
    let mut t = GpuTracker::new();
    t.on_device_error(false);
    assert!(t.failed);
    // The same root keeps the worker counted as given up.
    assert!(t.on_new_root(false));
    // A new root lifts the quarantine with clean streaks.
    assert!(!t.on_new_root(true));
    assert_eq!(t.consecutive_errors, 0);
    assert_eq!(t.consecutive_invalid, 0);
    t.on_program_result(true);
    assert!(!t.failed);
    // A failed re-programming quarantines again.
    t.on_program_result(false);
    assert!(t.failed);
}

#[test]
fn third_consecutive_invalid_quarantines_despite_no_hits_between() {
    let mut t = GpuTracker::new();
    t.on_invalid();
    t.on_no_hit();
    t.on_invalid();
    assert!(!t.failed);
    t.on_invalid();
    assert!(t.failed);
}

#[test]
fn search_from_given_start_returns_the_start_at_zero_threshold() {
    let root = vec![0x42u8; 32];
    let threshold = vec![0u8; 32];
    let start = vec![7u8, 0, 0, 0, 0, 0, 0, 0];
    let found = search_round(start.clone(), &root, &threshold, 4).unwrap();
    assert_eq!(found, start);
}

#[test]
fn search_window_wraps_and_exhausts_deterministically() {
    let root = vec![0x42u8; 32];
    let threshold = vec![0xFFu8; 32];
    // The window steps over the wrap-around without incident.
    assert!(search_round(vec![0xFFu8; 8], &root, &threshold, 3).is_none());
}

#[test]
fn valid_hit_clears_both_streaks() {
    let mut t = GpuTracker::new();
    t.on_invalid();
    t.on_invalid();
    t.on_valid_hit();
    assert_eq!(t.consecutive_errors, 0);
    assert_eq!(t.consecutive_invalid, 0);
    assert!(!t.failed);
}
