use mmry::bookmarks::{upgrade_legacy, BookmarkGroup, BookmarkIndex, LegacyGroup};
use mmry::entry::HistoryEntry;

fn names(b: &BookmarkIndex) -> Vec<String> {
    b.groups().iter().map(|g| g.name.clone()).collect()
}

#[test]
fn create_group_once() {
    let mut b = BookmarkIndex::new();
    assert!(b.create_group_at("work".to_string(), 5));
    assert!(!b.create_group_at("work".to_string(), 6));
    assert!(!b.create_group_at(String::new(), 7));
    assert_eq!(names(&b), vec!["work"]);
    assert_eq!(b.groups()[0].created_at, 5);
    assert!(b.groups()[0].clips.is_empty());
}

#[test]
fn adding_same_clip_twice_keeps_count() {
    let mut b = BookmarkIndex::new();
    b.create_group_at("g".to_string(), 1);
    let e = HistoryEntry::new("text".to_string(), 2, 9);
    assert!(b.add_clip(0, &e));
    assert_eq!(b.groups()[0].clips.len(), 1);
    assert!(!b.add_clip(0, &e));
    let same_id = HistoryEntry::new("other".to_string(), 3, 9);
    assert!(!b.add_clip(0, &same_id));
    assert_eq!(b.groups()[0].clips.len(), 1);
    assert!(!b.add_clip(4, &e));
}

#[test]
fn clips_are_independent_copies() {
    let mut b = BookmarkIndex::new();
    b.create_group_at("g".to_string(), 1);
    let mut e = HistoryEntry::new("text".to_string(), 2, 1);
    b.add_clip(0, &e);
    e.content.push_str(" changed");
    assert_eq!(b.groups()[0].clips[0].content, "text");
}

#[test]
fn remove_clip_and_delete_group() {
    let mut b = BookmarkIndex::new();
    b.create_group_at("a".to_string(), 1);
    b.create_group_at("b".to_string(), 2);
    b.add_clip(1, &HistoryEntry::new("x".to_string(), 3, 1));
    b.add_clip(1, &HistoryEntry::new("y".to_string(), 4, 2));
    assert!(b.remove_clip(1, 0));
    assert_eq!(b.groups()[1].clips[0].content, "y");
    assert!(!b.remove_clip(1, 3));
    assert!(b.delete_group(&"a".to_string()));
    assert!(!b.delete_group(&"a".to_string()));
    assert_eq!(names(&b), vec!["b"]);
    assert_eq!(b.find_group(&"b".to_string()), Some(0));
}

#[test]
fn listing_filters_names_ignoring_case() {
    let mut b = BookmarkIndex::new();
    b.create_group_at("Work".to_string(), 1);
    b.create_group_at("home".to_string(), 2);
    b.create_group_at("homework".to_string(), 3);
    assert_eq!(b.list_groups("WORK"), vec![0, 2]);
    assert_eq!(b.list_groups(""), vec![0, 1, 2]);
    assert_eq!(b.list_groups("zzz"), Vec::<usize>::new());
    assert_eq!(b.list_groups("home"), b.list_groups("home"));
}

#[test]
fn legacy_groups_get_empty_clip_lists() {
    let old = vec![
        LegacyGroup { name: "one".to_string(), created_at: 11 },
        LegacyGroup { name: "two".to_string(), created_at: 22 },
    ];
    let groups = upgrade_legacy(old);
    assert_eq!(groups.len(), 2);
    assert_eq!(groups[0].name, "one");
    assert_eq!(groups[0].created_at, 11);
    assert_eq!(groups[1].name, "two");
    assert_eq!(groups[1].created_at, 22);
    assert!(groups.iter().all(|g| g.clips.is_empty()));
}

#[test]
fn loading_groups_drops_duplicates() {
    let g = |n: &str, ids: &[u64]| BookmarkGroup {
        name: n.to_string(),
        created_at: 0,
        clips: ids.iter().map(|&i| HistoryEntry::new(format!("c{}", i), 0, i)).collect(),
    };
    let b = BookmarkIndex::from_groups(vec![g("a", &[1, 2, 1]), g("b", &[]), g("a", &[3])]);
    assert_eq!(names(&b), vec!["a", "b"]);
    let ids: Vec<u64> = b.groups()[0].clips.iter().map(|c| c.id).collect();
    assert_eq!(ids, vec![1, 2]);
}
