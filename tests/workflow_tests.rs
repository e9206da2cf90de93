use protoncli::draft::{FlagParams, FlagRequestError};
use protoncli::state::{needs_schema_migration, ObservedMessage, StateManager, TargetError};

fn observed(uid: u32, id: Option<&str>, subject: Option<&str>) -> ObservedMessage {
    ObservedMessage {
        uid,
        message_id: id.map(|s| s.to_string()),
        subject: subject.map(|s| s.to_string()),
        from_address: None,
        date_sent: None,
    }
}

#[test]
fn query_results_get_shadow_ids_and_replay_into_selection() {
    let mut s = StateManager::new();
    let ids = s.record_query_results(
        "a",
        "INBOX",
        "from:x",
        &[observed(10, Some("m1"), Some("One")), observed(11, None, None), observed(12, Some("m2"), None)],
        1,
    );
    assert_eq!(ids, vec![Some(1), None, Some(2)]);
    assert_eq!(s.get_last_query_string("a", "INBOX").as_deref(), Some("from:x"));
    assert_eq!(s.select_last_query("a", "INBOX"), Some(3));
    assert_eq!(s.selection_count("a"), 3);
    assert_eq!(s.select_last_query("a", "Sent"), None);
    let again = s.record_query_results("a", "Archive", "", &[observed(3, Some("m1"), None)], 2);
    assert_eq!(again, vec![Some(1)]);
}

#[test]
fn batch_targets_from_selection_grouped_by_folder() {
    let mut s = StateManager::new();
    s.record_query_results("a", "INBOX", "q", &[observed(10, Some("m1"), None), observed(11, Some("m2"), None)], 1);
    s.record_query_results("a", "Sent", "q", &[observed(5, Some("m3"), None)], 1);
    assert!(matches!(s.resolve_targets("a", vec![], true), Err(TargetError::EmptySelection)));
    assert!(matches!(s.resolve_targets("a", vec![], false), Err(TargetError::NoIds)));
    s.add_to_selection("a", "INBOX", &[(99, None, None)]);
    assert!(matches!(s.resolve_targets("a", vec![], true), Err(TargetError::NoShadowIds)));
    assert_eq!(s.select_ids("a", &vec![3, 1, 2]), Ok(3));
    let (ids, groups) = s.resolve_targets("a", vec![], true).unwrap();
    assert_eq!(ids, vec![3, 1, 2]);
    assert_eq!(groups.len(), 2);
    assert_eq!(groups[0].folder, "Sent");
    assert_eq!(groups[1].folder, "INBOX");
    assert_eq!(groups[1].messages.iter().map(|m| m.uid).collect::<Vec<_>>(), vec![10, 11]);
    match s.resolve_targets("a", vec![1, 7], false) {
        Err(TargetError::Unresolved(missing)) => assert_eq!(missing, vec![7]),
        _ => panic!("expected unresolved id 7"),
    }
    assert_eq!(s.select_ids("a", &vec![8]), Err(vec![8]));
    assert!(!s.finish_action("a", true));
    assert_eq!(s.selection_count("a"), 4);
    assert!(s.finish_action("a", false));
    assert_eq!(s.selection_count("a"), 0);
}

#[test]
fn flag_requests_from_switches() {
    let p = FlagParams::from_flags(true, false, false, true, vec!["L".to_string()], vec![], None).unwrap();
    assert_eq!(p.read, Some(true));
    assert_eq!(p.starred, Some(false));
    assert_eq!(p.labels, vec!["L".to_string()]);
    assert_eq!(
        FlagParams::from_flags(true, true, true, true, vec![], vec![], None).err(),
        Some(FlagRequestError::ReadAndUnread)
    );
    assert_eq!(
        FlagParams::from_flags(false, false, true, true, vec![], vec![], None).err(),
        Some(FlagRequestError::StarredAndUnstarred)
    );
    assert_eq!(
        FlagParams::from_flags(false, false, false, false, vec![], vec![], None).err(),
        Some(FlagRequestError::NoAction)
    );
}

#[test]
fn legacy_store_is_detected_by_missing_marker() {
    assert!(needs_schema_migration(true, false));
    assert!(!needs_schema_migration(true, true));
    assert!(!needs_schema_migration(false, false));
}

#[test]
fn moves_and_deletes_feed_back_into_identity() {
    let mut s = StateManager::new();
    s.record_query_results("a", "INBOX", "q", &[observed(10, Some("m1"), None), observed(11, Some("m2"), None)], 1);
    let found = s.resolve_shadow_uids("a", &vec![1, 2]).unwrap();
    s.record_moved("a", &found[..1], "Archive");
    assert!(matches!(s.resolve_shadow_uids("a", &vec![1]), Err(ref m) if m == &vec![1]));
    s.record_query_results("a", "Archive", "q", &[observed(4, Some("m1"), None)], 2);
    let again = s.resolve_shadow_uids("a", &vec![1]).unwrap();
    assert_eq!(again[0].folder, "Archive");
    assert_eq!(again[0].uid, 4);
    s.mark_agent_read("a", "m2");
    s.record_deleted("a", &found[1..]);
    assert!(matches!(s.resolve_shadow_uids("a", &vec![2]), Err(ref m) if m == &vec![2]));
    assert!(s.is_agent_read("a", "m2"));
}
