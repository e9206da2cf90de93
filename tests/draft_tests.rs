use protoncli::draft::{format_draft_description, ActionType, Draft, FlagParams};
use protoncli::state::StateManager;

fn labels(v: &[&str]) -> Vec<String> {
    v.iter().map(|s| s.to_string()).collect()
}

fn flag_draft(account: &str, params: FlagParams) -> Draft {
    Draft {
        account: account.to_string(),
        action_type: ActionType::Flag,
        folder: String::new(),
        uids: vec![1, 2],
        flag_params: Some(params),
        dest_folder: None,
        permanent: false,
    }
}

#[test]
fn merge_unions_labels_without_duplicates() {
    let mut p = FlagParams::new();
    let mut a = FlagParams::new();
    a.labels = labels(&["a"]);
    let mut b = FlagParams::new();
    b.labels = labels(&["b"]);
    p.merge(&a);
    p.merge(&b);
    assert_eq!(p.labels, labels(&["a", "b"]));
    p.merge(&a);
    assert_eq!(p.labels, labels(&["a", "b"]));
}

#[test]
fn merge_true_wins_and_destination_is_replaced() {
    let mut p = FlagParams::new();
    p.read = Some(true);
    let mut q = FlagParams::new();
    q.read = Some(false);
    q.starred = Some(false);
    q.move_to = Some("Archive".to_string());
    p.merge(&q);
    assert_eq!(p.read, Some(true));
    assert_eq!(p.starred, Some(false));
    let mut r = FlagParams::new();
    r.starred = Some(true);
    r.move_to = Some("Trash".to_string());
    p.merge(&r);
    assert_eq!(p.starred, Some(true));
    assert_eq!(p.move_to.as_deref(), Some("Trash"));
    assert!(p.has_any_action());
    assert!(!FlagParams::new().has_any_action());
}

#[test]
fn staged_flag_drafts_accumulate() {
    let mut s = StateManager::new();
    let mut p1 = FlagParams::new();
    p1.starred = Some(true);
    s.save_flag_draft(&flag_draft("a", p1));
    let mut p2 = FlagParams::new();
    p2.labels = labels(&["x"]);
    s.save_flag_draft(&flag_draft("a", p2));
    let d = s.get_draft("a").unwrap();
    let p = d.flag_params.unwrap();
    assert_eq!(p.starred, Some(true));
    assert_eq!(p.labels, labels(&["x"]));
}

#[test]
fn drafts_are_single_per_account() {
    let mut s = StateManager::new();
    assert!(!s.has_draft("a"));
    s.save_draft(&flag_draft("a", FlagParams::new()));
    let mv = Draft {
        account: "a".to_string(),
        action_type: ActionType::Move,
        folder: "INBOX".to_string(),
        uids: vec![3],
        flag_params: None,
        dest_folder: Some("Archive".to_string()),
        permanent: false,
    };
    s.save_draft(&mv);
    let d = s.get_draft("a").unwrap();
    assert_eq!(d.action_type, ActionType::Move);
    assert_eq!(d.uids, vec![3]);
    assert!(s.clear_draft("a"));
    assert!(!s.clear_draft("a"));
    assert!(s.get_draft("a").is_none());
}

#[test]
fn action_names_round_trip() {
    for a in [ActionType::Flag, ActionType::Move, ActionType::Copy, ActionType::Delete, ActionType::Archive] {
        assert_eq!(ActionType::from_str(a.as_str()), Some(a));
    }
    assert_eq!(ActionType::from_str("ARCHIVE"), Some(ActionType::Archive));
    assert_eq!(ActionType::from_str("purge"), None);
    assert_eq!(ActionType::Delete.as_str(), "delete");
}

#[test]
fn draft_descriptions() {
    let mut p = FlagParams::new();
    p.read = Some(true);
    p.starred = Some(false);
    p.labels = labels(&["Work"]);
    p.unlabels = labels(&["Old"]);
    p.move_to = Some("Archive".to_string());
    let d = flag_draft("a", p);
    assert_eq!(
        format_draft_description(&d),
        "mark as read, unstar, add label 'Work', remove label 'Old', move to 'Archive' on 2 messages"
    );
    let empty = flag_draft("a", FlagParams::new());
    assert_eq!(format_draft_description(&empty), "Flag 2 messages (no flag changes specified)");
    let mut del = flag_draft("a", FlagParams::new());
    del.action_type = ActionType::Delete;
    del.folder = "INBOX".to_string();
    del.uids = vec![42];
    assert_eq!(format_draft_description(&del), "Move 1 message from 'INBOX' to Trash");
    del.permanent = true;
    assert_eq!(format_draft_description(&del), "Permanently delete 1 message from 'INBOX'");
    let mut mv = del.clone();
    mv.action_type = ActionType::Copy;
    mv.uids = (0..120).collect();
    assert_eq!(format_draft_description(&mv), "Copy 120 messages from 'INBOX' to '?'");
    mv.action_type = ActionType::Archive;
    assert_eq!(format_draft_description(&mv), "Archive 120 messages from 'INBOX' to 'Archive'");
}
