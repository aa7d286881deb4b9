use mmry::history::HistoryStore;
use mmry::selection::{NavKey, Selection};

fn store(items: &[&str]) -> HistoryStore {
    // observed last to first so that the store lists `items` in order
    let mut s = HistoryStore::new(100);
    for (t, c) in items.iter().rev().enumerate() {
        s.observe_at(c.to_string(), t as i64);
    }
    s
}

#[test]
fn filtered_commit_picks_entry_by_filtered_position() {
    let mut s = store(&["python", "java", "pytest"]);
    let mut sel = Selection::new();
    sel.start_filter();
    sel.push_query("py");
    assert_eq!(sel.active_positions(&s), vec![0, 2]);
    sel.press(NavKey::Down, 2);
    assert_eq!(sel.selected, 1);
    assert_eq!(sel.selected_id(&s), Some(s.entries()[2].id));
    assert_eq!(sel.commit_selected_at(&mut s, 50), Some("pytest".to_string()));
    assert_eq!(s.entries()[0].content, "pytest");
    assert_eq!(sel.selected, 0);
    assert!(!sel.editing && !sel.applied && sel.query.is_empty());
}

#[test]
fn navigation_stays_inside_view() {
    let mut sel = Selection::new();
    sel.press(NavKey::Up, 3);
    assert_eq!(sel.selected, 0);
    sel.press(NavKey::Down, 3);
    sel.press(NavKey::Down, 3);
    sel.press(NavKey::Down, 3);
    assert_eq!(sel.selected, 2);
    sel.press(NavKey::Up, 3);
    assert_eq!(sel.selected, 1);
    sel.press(NavKey::Last, 3);
    assert_eq!(sel.selected, 2);
    sel.press(NavKey::Down, 0);
    assert_eq!(sel.selected, 2);
}

#[test]
fn go_to_first_takes_two_presses() {
    let mut sel = Selection::new();
    sel.press(NavKey::Last, 5);
    sel.press(NavKey::First, 5);
    assert!(sel.armed);
    assert_eq!(sel.selected, 4);
    sel.press(NavKey::First, 5);
    assert_eq!(sel.selected, 0);
    assert!(!sel.armed);
}

#[test]
fn other_key_disarms_go_to_first() {
    let mut sel = Selection::new();
    sel.press(NavKey::Last, 5);
    sel.press(NavKey::First, 5);
    sel.press(NavKey::Other, 5);
    assert!(!sel.armed);
    sel.press(NavKey::First, 5);
    assert_eq!(sel.selected, 4);
    assert!(sel.armed);
}

#[test]
fn cancelling_filter_restores_selection() {
    let mut sel = Selection::new();
    sel.press(NavKey::Last, 4);
    sel.start_filter();
    assert_eq!(sel.selected, 0);
    sel.push_query("ab");
    sel.pop_query();
    assert_eq!(sel.query, "a");
    assert!(sel.escape());
    assert_eq!(sel.selected, 3);
    assert!(!sel.editing && !sel.applied);
    assert!(!sel.escape());
}

#[test]
fn clearing_applied_filter_goes_to_top() {
    let mut sel = Selection::new();
    sel.press(NavKey::Last, 4);
    sel.start_filter();
    sel.push_query("x");
    sel.press(NavKey::Down, 2);
    sel.apply_filter();
    assert!(sel.applied && !sel.editing);
    assert_eq!(sel.selected, 1);
    assert!(sel.escape());
    assert_eq!(sel.selected, 0);
    assert!(sel.query.is_empty());
}

#[test]
fn clamp_after_delete() {
    let mut sel = Selection::new();
    sel.press(NavKey::Last, 3);
    sel.clamp(2);
    assert_eq!(sel.selected, 1);
    sel.clamp(0);
    assert_eq!(sel.selected, 0);
}

#[test]
fn nothing_selected_commits_nothing() {
    let mut s = store(&["a"]);
    let mut sel = Selection::new();
    sel.start_filter();
    sel.push_query("zzz");
    assert_eq!(sel.selected_id(&s), None);
    assert_eq!(sel.commit_selected_at(&mut s, 9), None);
    assert!(sel.editing);
}

#[test]
fn pop_on_empty_query() {
    let mut sel = Selection::new();
    sel.pop_query();
    assert!(sel.query.is_empty());
}
