use mmry::entry::HistoryEntry;
use mmry::history::HistoryStore;

fn contents(s: &HistoryStore) -> Vec<String> {
    s.entries().iter().map(|e| e.content.clone()).collect()
}

#[test]
fn capacity_three_evicts_oldest() {
    let mut s = HistoryStore::new(3);
    assert!(s.observe_at("a".to_string(), 1));
    assert!(s.observe_at("b".to_string(), 2));
    assert!(s.observe_at("c".to_string(), 3));
    assert!(s.observe_at("d".to_string(), 4));
    assert_eq!(contents(&s), vec!["d", "c", "b"]);
    assert_eq!(s.len(), 3);
}

#[test]
fn commit_second_moves_it_to_front_and_refreshes_time() {
    let mut s = HistoryStore::new(10);
    s.observe_at("x".to_string(), 100);
    s.observe_at("y".to_string(), 200);
    assert_eq!(contents(&s), vec!["y", "x"]);
    let x_id = s.entries()[1].id;
    let got = s.commit_at(1, 300);
    assert_eq!(got, Some("x".to_string()));
    assert_eq!(contents(&s), vec!["x", "y"]);
    assert_eq!(s.entries()[0].id, x_id);
    assert_eq!(s.entries()[0].timestamp, 300);
    assert_eq!(s.entries()[1].timestamp, 200);
}

#[test]
fn repeated_observation_changes_nothing() {
    let mut s = HistoryStore::new(10);
    assert!(s.observe_at("x".to_string(), 1));
    assert!(!s.observe_at("x".to_string(), 2));
    assert!(!s.observe_at("x".to_string(), 3));
    assert_eq!(s.len(), 1);
    assert_eq!(s.entries()[0].timestamp, 1);
    assert_eq!(s.next_id(), 2);
}

#[test]
fn reobserved_content_moves_to_front_keeping_id() {
    let mut s = HistoryStore::new(10);
    s.observe_at("a".to_string(), 1);
    s.observe_at("b".to_string(), 2);
    s.observe_at("c".to_string(), 3);
    let a_id = s.entries()[2].id;
    assert!(s.observe_at("a".to_string(), 4));
    assert_eq!(contents(&s), vec!["a", "c", "b"]);
    assert_eq!(s.entries()[0].id, a_id);
    assert_eq!(s.entries()[0].timestamp, 4);
    assert_eq!(s.next_id(), 4);
}

#[test]
fn contents_stay_distinct_over_many_observations() {
    let mut s = HistoryStore::new(4);
    let seq = ["a", "b", "a", "c", "b", "d", "e", "a", "a", "f", "c"];
    for (t, c) in seq.iter().enumerate() {
        s.observe_at(c.to_string(), t as i64);
        let mut cs = contents(&s);
        let n = cs.len();
        cs.sort();
        cs.dedup();
        assert_eq!(cs.len(), n);
        assert!(n <= 4);
    }
}

#[test]
fn new_content_below_capacity_grows_by_one() {
    let mut s = HistoryStore::new(5);
    s.observe_at("a".to_string(), 1);
    s.observe_at("b".to_string(), 2);
    s.observe_at("c".to_string(), 3);
    assert_eq!(s.len(), 3);
    assert_eq!(s.entries()[0].id, 3);
}

#[test]
fn ids_increase_and_are_not_reused_after_delete() {
    let mut s = HistoryStore::new(10);
    s.observe_at("a".to_string(), 1);
    s.observe_at("b".to_string(), 2);
    assert!(s.delete(0));
    assert_eq!(contents(&s), vec!["a"]);
    s.observe_at("c".to_string(), 3);
    assert_eq!(s.entries()[0].id, 3);
    assert!(!s.delete(5));
}

#[test]
fn deleted_content_observed_again_after_other_content_is_new() {
    let mut s = HistoryStore::new(10);
    s.observe_at("a".to_string(), 1);
    s.delete(0);
    // "a" was the last observed content, so seeing it again is suppressed
    assert!(!s.observe_at("a".to_string(), 2));
    assert_eq!(s.len(), 0);
    s.observe_at("b".to_string(), 3);
    assert!(s.observe_at("a".to_string(), 4));
    assert_eq!(contents(&s), vec!["a", "b"]);
}

#[test]
fn commit_out_of_range_changes_nothing() {
    let mut s = HistoryStore::new(10);
    s.observe_at("a".to_string(), 1);
    assert_eq!(s.commit_at(1, 9), None);
    assert_eq!(s.entries()[0].timestamp, 1);
}

#[test]
fn commit_by_id() {
    let mut s = HistoryStore::new(10);
    s.observe_at("a".to_string(), 1);
    s.observe_at("b".to_string(), 2);
    assert_eq!(s.commit_id_at(1, 5), Some("a".to_string()));
    assert_eq!(contents(&s), vec!["a", "b"]);
    assert_eq!(s.commit_id_at(77, 6), None);
    assert_eq!(s.position_of_id(2), Some(1));
}

#[test]
fn zero_capacity_holds_nothing() {
    let mut s = HistoryStore::new(0);
    s.observe_at("a".to_string(), 1);
    assert_eq!(s.len(), 0);
}

#[test]
fn shrinking_capacity_drops_oldest() {
    let mut s = HistoryStore::new(10);
    for (t, c) in ["a", "b", "c", "d"].iter().enumerate() {
        s.observe_at(c.to_string(), t as i64);
    }
    s.set_capacity(2);
    assert_eq!(contents(&s), vec!["d", "c"]);
    assert_eq!(s.capacity(), 2);
}

#[test]
fn loading_keeps_well_formed_entries_and_continues_ids() {
    let loaded = vec![
        HistoryEntry::new("a".to_string(), 10, 4),
        HistoryEntry::new("b".to_string(), 9, 7),
        HistoryEntry::new("c".to_string(), 8, 2),
    ];
    let s = HistoryStore::from_entries(loaded, 500);
    assert_eq!(contents(&s), vec!["a", "b", "c"]);
    assert_eq!(s.next_id(), 8);
}

#[test]
fn loading_drops_duplicates_and_overflow() {
    let loaded = vec![
        HistoryEntry::new("a".to_string(), 10, 1),
        HistoryEntry::new("a".to_string(), 9, 2),
        HistoryEntry::new("b".to_string(), 8, 1),
        HistoryEntry::new("c".to_string(), 7, 3),
        HistoryEntry::new("d".to_string(), 6, 4),
    ];
    let s = HistoryStore::from_entries(loaded, 2);
    assert_eq!(contents(&s), vec!["a", "c"]);
    // seeded from every loaded id, the dropped ones included
    assert_eq!(s.next_id(), 5);
}

#[test]
fn loading_nothing_starts_ids_at_one() {
    let s = HistoryStore::from_entries(Vec::new(), 5);
    assert_eq!(s.len(), 0);
    assert_eq!(s.next_id(), 1);
}

#[test]
fn filtered_view_is_case_insensitive_and_ordered() {
    let mut s = HistoryStore::new(10);
    s.observe_at("pytest".to_string(), 1);
    s.observe_at("java".to_string(), 2);
    s.observe_at("python".to_string(), 3);
    assert_eq!(contents(&s), vec!["python", "java", "pytest"]);
    assert_eq!(s.filtered_positions("py"), vec![0, 2]);
    assert_eq!(s.filtered_positions("PY"), vec![0, 2]);
    assert_eq!(s.filtered_positions(""), vec![0, 1, 2]);
    assert_eq!(s.filtered_positions("rust"), Vec::<usize>::new());
}

#[test]
fn filtered_commit_resolves_by_id() {
    let mut s = HistoryStore::new(10);
    s.observe_at("pytest".to_string(), 1);
    s.observe_at("java".to_string(), 2);
    s.observe_at("python".to_string(), 3);
    let id = s.resolve_filtered("py", 1).unwrap();
    // the store shifts before the commit happens
    s.observe_at("kotlin".to_string(), 4);
    assert_eq!(s.commit_id_at(id, 5), Some("pytest".to_string()));
    assert_eq!(s.entries()[0].content, "pytest");
    assert_eq!(s.commit_filtered_at("py", 1, 6), Some("python".to_string()));
    assert_eq!(s.entries()[0].content, "python");
    assert_eq!(s.commit_filtered_at("py", 2, 7), None);
    assert_eq!(s.resolve_filtered("py", 2), None);
}

#[test]
fn loading_largest_id_saturates_and_drops_it() {
    let loaded = vec![
        HistoryEntry::new("a".to_string(), 1, u64::MAX),
        HistoryEntry::new("b".to_string(), 2, 3),
    ];
    let s = HistoryStore::from_entries(loaded, 10);
    assert_eq!(contents(&s), vec!["b"]);
    assert_eq!(s.next_id(), u64::MAX);
}
