use screensync::diff::get_and_compare_windows;
use screensync::dispatch::{build_requests, vector_dim_ok, EMBEDDING_DIM};
use screensync::index::{content_write_for, upsert_keys};
use screensync::schedule::{next_phase, sleep_duration_ms, Phase, LOOP_DURATION_MS};
use screensync::store::{reconcile, State};
use screensync::types::Window;

fn win(id: u32, title: &str, bytes: &[u8], z: usize) -> Window {
    Window::new(id, String::from(title), bytes.to_vec(), z)
}

#[test]
fn upsert_keys_hold_only_successful_fingerprints() {
    let changed = vec![win(1, "A", b"X", 0), win(2, "B", b"Y", 1), win(3, "C", b"Z", 2)];
    let ok = vec![true, false, true];
    let keys = upsert_keys(&changed, &ok);
    assert_eq!(keys, vec![changed[0].jpeg_metrohash, changed[2].jpeg_metrohash]);
    let none = upsert_keys(&changed, &vec![false, false, false]);
    assert!(none.is_empty());
    let all = upsert_keys(&changed, &vec![true, true, true]);
    assert_eq!(all.len(), 3);
}

#[test]
fn failed_embedding_still_commits_fresh_fingerprint() {
    let mut state = State::new();
    let (c1, u1) = get_and_compare_windows(vec![win(1, "A", b"X", 0)], &state);
    let m1 = reconcile(c1, u1);
    state.commit(m1);
    let old_hash = state.get(1).unwrap().jpeg_metrohash;

    // The window's content changes, and its embedding call fails.
    let (changed, unchanged) = get_and_compare_windows(vec![win(1, "A", b"X-changed", 0)], &state);
    assert_eq!(changed.len(), 1);
    let new_hash = changed[0].jpeg_metrohash;
    let ok = vec![false];
    let keys = upsert_keys(&changed, &ok);
    assert!(keys.is_empty());
    assert_eq!(content_write_for(&changed[0], false), None);
    let m2 = reconcile(changed, unchanged);
    state.commit(m2);

    // The fresh fingerprint is committed even though no row was written,
    // so the same content is not dispatched again next cycle.
    assert_eq!(state.get(1).unwrap().jpeg_metrohash, new_hash);
    assert_ne!(new_hash, old_hash);
    let (retry, _) = get_and_compare_windows(vec![win(1, "A", b"X-changed", 0)], &state);
    assert!(retry.is_empty());
}

#[test]
fn successful_embedding_is_persisted_under_its_hash() {
    let w = win(1, "A", b"X", 0);
    let path = content_write_for(&w, true).unwrap();
    assert_eq!(path, format!("out/{}.jpg", w.jpeg_metrohash));
}

#[test]
fn one_request_per_changed_window() {
    let changed = vec![win(1, "A", b"X", 0), win(2, "B", b"Y", 1)];
    let requests = build_requests(&changed);
    assert_eq!(requests.len(), 2);
    assert_ne!(requests[0].image_b64, requests[1].image_b64);
}

#[test]
fn embedding_dimension_is_the_pipeline_constant() {
    assert_eq!(EMBEDDING_DIM, 1408);
    assert!(vector_dim_ok(1408));
    assert!(!vector_dim_ok(0));
    assert!(!vector_dim_ok(4096));
}

#[test]
fn sleep_is_the_rest_of_the_cycle_budget() {
    assert_eq!(sleep_duration_ms(5000, 9000, 10000), 6000);
    assert_eq!(sleep_duration_ms(0, 0, 10000), 10000);
    assert_eq!(sleep_duration_ms(100, 100 + LOOP_DURATION_MS - 1, LOOP_DURATION_MS), 1);
}

#[test]
fn overlong_cycle_sleeps_zero_and_restarts_at_once() {
    assert_eq!(sleep_duration_ms(0, 10000, 10000), 0);
    assert_eq!(sleep_duration_ms(0, 25000, 10000), 0);
    assert_eq!(LOOP_DURATION_MS, 10000);
}

#[test]
fn phase_machine_walks_one_cycle_in_order() {
    let order = [
        Phase::Idle,
        Phase::Capturing,
        Phase::Diffing,
        Phase::Dispatching,
        Phase::Writing,
        Phase::Committing,
        Phase::Sleeping,
        Phase::Idle,
    ];
    let mut p = order[0];
    for expected in &order[1..] {
        p = next_phase(p, true, false).unwrap();
        assert_eq!(p, *expected);
    }
}

#[test]
fn capture_failure_aborts_the_cycle_to_sleep() {
    assert_eq!(next_phase(Phase::Capturing, false, false), Some(Phase::Sleeping));
    // A write failure still lets the commit run.
    assert_eq!(next_phase(Phase::Writing, false, false), Some(Phase::Committing));
}

#[test]
fn cancellation_stops_the_loop_between_stages() {
    assert_eq!(next_phase(Phase::Idle, true, true), None);
    assert_eq!(next_phase(Phase::Sleeping, true, true), None);
}
