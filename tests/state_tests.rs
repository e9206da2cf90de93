use protoncli::state::StateManager;

#[test]
fn same_message_keeps_its_shadow_id_across_a_move() {
    let mut s = StateManager::new();
    let a = s.get_or_create_shadow_uid("me@x", "INBOX", 10, Some("id-abc"), Some("Hi"), None, None);
    let b = s.get_or_create_shadow_uid("me@x", "Archive", 4, Some("id-abc"), None, None, None);
    assert_eq!(a, Some(1));
    assert_eq!(a, b);
    let r = s.resolve_shadow_uids("me@x", &vec![1]).unwrap();
    assert_eq!(r.len(), 1);
    assert_eq!(r[0].folder, "Archive");
    assert_eq!(r[0].uid, 4);
    assert_eq!(r[0].message_id, "id-abc");
    assert_eq!(r[0].subject.as_deref(), Some("Hi"));
}

#[test]
fn shadow_ids_count_up_per_account() {
    let mut s = StateManager::new();
    assert_eq!(s.get_or_create_shadow_uid("a", "INBOX", 1, Some("m1"), None, None, None), Some(1));
    assert_eq!(s.get_or_create_shadow_uid("a", "INBOX", 2, Some("m2"), None, None, None), Some(2));
    assert_eq!(s.get_or_create_shadow_uid("b", "INBOX", 1, Some("m1"), None, None, None), Some(1));
    assert_eq!(s.get_or_create_shadow_uid("a", "INBOX", 3, None, None, None, None), None);
    assert_eq!(s.get_or_create_shadow_uid("a", "INBOX", 3, Some("m3"), None, None, Some(7)), Some(3));
}

#[test]
fn unresolvable_ids_are_listed() {
    let mut s = StateManager::new();
    s.upsert_message("a", "INBOX", 5, Some("m1"), None, None, None);
    s.upsert_message("a", "INBOX", 6, Some("m2"), None, None, None);
    s.clear_message_location("a", "m2");
    match s.resolve_shadow_uids("a", &vec![1, 2, 9]) {
        Err(missing) => assert_eq!(missing, vec![2, 9]),
        Ok(_) => panic!("expected unresolved ids"),
    }
    s.update_message_location("a", "m2", "Trash", Some(1));
    let r = s.resolve_shadow_uids("a", &vec![2, 1]).unwrap();
    assert_eq!(r[0].folder, "Trash");
    assert_eq!(r[1].uid, 5);
}

#[test]
fn agent_read_is_local_bookkeeping() {
    let mut s = StateManager::new();
    s.upsert_message("a", "INBOX", 5, Some("m1"), None, None, None);
    assert!(!s.is_agent_read("a", "m1"));
    s.mark_agent_read("a", "m1");
    assert!(s.is_agent_read("a", "m1"));
    assert!(!s.is_agent_read("b", "m1"));
    s.mark_agent_read("a", "unknown");
    assert!(!s.is_agent_read("a", "unknown"));
}

#[test]
fn adding_the_same_reference_twice_counts_once() {
    let mut s = StateManager::new();
    assert_eq!(s.add_to_selection("a", "INBOX", &[(7, Some("m7"), None)]), 1);
    assert_eq!(s.add_to_selection("a", "INBOX", &[(7, None, Some("Subject"))]), 1);
    assert_eq!(s.selection_count("a"), 1);
    let sel = s.get_selection("a");
    assert_eq!(sel[0].message_id.as_deref(), Some("m7"));
    assert_eq!(sel[0].subject.as_deref(), Some("Subject"));
}

#[test]
fn selection_remove_and_clear() {
    let mut s = StateManager::new();
    s.add_to_selection("a", "INBOX", &[(1, None, None), (2, None, None), (3, None, None)]);
    s.add_to_selection("a", "Sent", &[(1, None, None)]);
    s.add_to_selection("b", "INBOX", &[(1, None, None)]);
    assert_eq!(s.remove_from_selection("a", "INBOX", &[2, 9]), 1);
    let inbox = s.get_selection_for_folder("a", "INBOX");
    assert_eq!(inbox.iter().map(|e| e.uid).collect::<Vec<_>>(), vec![1, 3]);
    assert_eq!(s.clear_selection_for_folder("a", "Sent"), 1);
    assert_eq!(s.selection_count("a"), 2);
    assert_eq!(s.clear_selection("a"), 2);
    assert_eq!(s.selection_count("a"), 0);
    assert_eq!(s.selection_count("b"), 1);
}

#[test]
fn query_history_replaces_per_folder() {
    let mut s = StateManager::new();
    assert!(s.get_last_query_string("a", "INBOX").is_none());
    assert!(s.get_last_query_results("a", "INBOX").is_empty());
    s.save_query_results("a", "INBOX", "from:x", &[(3, Some("m3"), None), (1, None, None)], 100);
    s.save_query_results("a", "INBOX", "from:y", &[(9, None, Some("S"))], 200);
    s.save_query_results("a", "Sent", "to:z", &[(4, None, None)], 300);
    assert_eq!(s.get_last_query_string("a", "INBOX").as_deref(), Some("from:y"));
    let r = s.get_last_query_results("a", "INBOX");
    assert_eq!(r.len(), 1);
    assert_eq!(r[0].uid, 9);
    assert_eq!(r[0].subject.as_deref(), Some("S"));
    assert_eq!(s.get_last_query_results("a", "Sent")[0].uid, 4);
}
