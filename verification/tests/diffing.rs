use screensync::diff::get_and_compare_windows;
use screensync::store::{reconcile, State, WindowMap};
use screensync::types::Window;

fn win(id: u32, title: &str, bytes: &[u8], z: usize) -> Window {
    Window::new(id, String::from(title), bytes.to_vec(), z)
}

fn run_cycle(state: &mut State, capture: Vec<Window>) -> (Vec<u32>, Vec<u32>) {
    let (changed, unchanged) = get_and_compare_windows(capture, state);
    let changed_ids: Vec<u32> = changed.iter().map(|w| w.id).collect();
    let unchanged_ids: Vec<u32> = unchanged.iter().map(|w| w.id).collect();
    let m = reconcile(changed, unchanged);
    state.commit(m);
    (changed_ids, unchanged_ids)
}

#[test]
fn first_cycle_marks_everything_changed() {
    let mut state = State::new();
    let capture = vec![win(1, "A", b"X", 0), win(2, "B", b"Y", 1)];
    let (changed, unchanged) = get_and_compare_windows(capture, &state);
    assert_eq!(changed.len(), 2);
    assert_eq!(unchanged.len(), 0);
    assert_eq!(changed[0].id, 1);
    assert_eq!(changed[1].id, 2);
    let m = reconcile(changed, unchanged);
    state.commit(m);
    assert!(state.get(1).is_some());
    assert!(state.get(2).is_some());
    assert_eq!(state.window_count(), 2);
}

#[test]
fn second_cycle_with_same_bytes_marks_nothing_changed() {
    let mut state = State::new();
    run_cycle(&mut state, vec![win(1, "A", b"X", 0), win(2, "B", b"Y", 1)]);
    // The same content captured afresh: every fingerprint matches.
    let capture = vec![win(1, "A", b"X", 0), win(2, "B", b"Y", 1)];
    let (changed, unchanged) = get_and_compare_windows(capture, &state);
    assert_eq!(changed.len(), 0);
    assert_eq!(unchanged.len(), 2);
    assert_eq!(unchanged[0].id, 1);
    assert_eq!(unchanged[1].id, 2);
    // No embedding request is built for an empty changed list.
    let requests = screensync::dispatch::build_requests(&changed);
    assert_eq!(requests.len(), 0);
}

#[test]
fn commit_is_idempotent_across_repeated_captures() {
    let mut state = State::new();
    run_cycle(&mut state, vec![win(1, "A", b"X", 0)]);
    let (changed1, _) = run_cycle(&mut state, vec![win(1, "A", b"X", 0)]);
    assert!(changed1.is_empty());
    let (changed2, unchanged2) = run_cycle(&mut state, vec![win(1, "A", b"X", 0)]);
    assert!(changed2.is_empty());
    assert_eq!(unchanged2, vec![1]);
}

#[test]
fn partition_covers_capture_exactly() {
    let mut state = State::new();
    run_cycle(&mut state, vec![win(1, "A", b"X", 0), win(2, "B", b"Y", 1)]);
    // 1 unchanged, 2 changed content, 3 brand new.
    let capture = vec![win(1, "A", b"X", 0), win(2, "B", b"Y2", 1), win(3, "C", b"Z", 2)];
    let (changed, unchanged) = get_and_compare_windows(capture, &state);
    let mut seen: Vec<u32> = Vec::new();
    for w in changed.iter().chain(unchanged.iter()) {
        assert!(!seen.contains(&w.id));
        seen.push(w.id);
    }
    seen.sort();
    assert_eq!(seen, vec![1, 2, 3]);
    let changed_ids: Vec<u32> = changed.iter().map(|w| w.id).collect();
    assert_eq!(changed_ids, vec![2, 3]);
    let unchanged_ids: Vec<u32> = unchanged.iter().map(|w| w.id).collect();
    assert_eq!(unchanged_ids, vec![1]);
}

#[test]
fn window_absent_from_capture_is_evicted() {
    let mut state = State::new();
    run_cycle(&mut state, vec![win(1, "A", b"X", 0), win(2, "B", b"Y", 1)]);
    run_cycle(&mut state, vec![win(1, "A", b"X", 0), win(2, "B", b"Y", 1)]);
    // Window 2 disappears in the third cycle.
    run_cycle(&mut state, vec![win(1, "A", b"X", 0)]);
    assert!(state.get(1).is_some());
    assert!(state.get(2).is_none());
    assert_eq!(state.window_count(), 1);
}

#[test]
fn empty_capture_evicts_everything() {
    let mut state = State::new();
    run_cycle(&mut state, vec![win(1, "A", b"X", 0), win(2, "B", b"Y", 1)]);
    let (changed, unchanged) = run_cycle(&mut state, Vec::new());
    assert!(changed.is_empty());
    assert!(unchanged.is_empty());
    assert_eq!(state.window_count(), 0);
    assert!(state.get(1).is_none());
}

#[test]
fn reused_id_with_new_content_counts_as_changed() {
    let mut state = State::new();
    run_cycle(&mut state, vec![win(1, "A", b"X", 0)]);
    let (changed, unchanged) = get_and_compare_windows(vec![win(1, "other", b"completely different", 0)], &state);
    assert_eq!(changed.len(), 1);
    assert_eq!(unchanged.len(), 0);
}

#[test]
fn registry_insert_replaces_by_id() {
    let mut m = WindowMap::new();
    m.insert(win(1, "A", b"X", 0));
    m.insert(win(2, "B", b"Y", 1));
    m.insert(win(1, "A2", b"X2", 0));
    assert_eq!(m.len(), 2);
    let r = m.get(1).unwrap();
    assert_eq!(r.title, "A2");
    assert!(m.get(3).is_none());
}

#[test]
fn ui_flag_shares_the_state_and_survives_commits() {
    let mut state = State::new();
    assert!(!state.is_ui_open());
    state.set_ui_open(true);
    assert!(state.is_ui_open());
    run_cycle(&mut state, vec![win(1, "A", b"X", 0)]);
    assert!(state.is_ui_open());
    state.set_ui_open(false);
    assert!(!state.is_ui_open());
    assert_eq!(state.window_count(), 1);
}
