use protoncli::folder::{folder_to_label, resolve_folder_path, Folder, FolderType};

#[test]
fn test_resolve_folder_path_inbox() {
    assert_eq!(resolve_folder_path("inbox"), "INBOX");
    assert_eq!(resolve_folder_path("INBOX"), "INBOX");
    assert_eq!(resolve_folder_path("InBox"), "INBOX");
}

#[test]
fn test_resolve_folder_path_common_aliases() {
    assert_eq!(resolve_folder_path("archive"), "Archive");
    assert_eq!(resolve_folder_path("ARCHIVE"), "Archive");
    assert_eq!(resolve_folder_path("trash"), "Trash");
    assert_eq!(resolve_folder_path("TRASH"), "Trash");
    assert_eq!(resolve_folder_path("sent"), "Sent");
    assert_eq!(resolve_folder_path("SENT"), "Sent");
    assert_eq!(resolve_folder_path("drafts"), "Drafts");
    assert_eq!(resolve_folder_path("DRAFTS"), "Drafts");
}

#[test]
fn test_resolve_folder_path_spam_aliases() {
    assert_eq!(resolve_folder_path("spam"), "Spam");
    assert_eq!(resolve_folder_path("SPAM"), "Spam");
    assert_eq!(resolve_folder_path("junk"), "Spam");
    assert_eq!(resolve_folder_path("JUNK"), "Spam");
}

#[test]
fn test_resolve_folder_path_all_mail() {
    assert_eq!(resolve_folder_path("all"), "All Mail");
    assert_eq!(resolve_folder_path("all mail"), "All Mail");
}

#[test]
fn test_resolve_folder_path_passthrough() {
    assert_eq!(resolve_folder_path("Custom/Folder"), "Custom/Folder");
    assert_eq!(resolve_folder_path("Folders/Crypto"), "Folders/Crypto");
    assert_eq!(resolve_folder_path("Labels/Important"), "Labels/Important");
    assert_eq!(resolve_folder_path("SomeOtherFolder"), "SomeOtherFolder");
}

#[test]
fn test_resolve_folder_path_preserves_case_on_passthrough() {
    assert_eq!(resolve_folder_path("MyFolder"), "MyFolder");
    assert_eq!(resolve_folder_path("myfolder"), "myfolder");
    assert_eq!(resolve_folder_path("MYFOLDER"), "MYFOLDER");
}

#[test]
fn folder_types_from_paths() {
    assert_eq!(FolderType::from_path("INBOX"), FolderType::Inbox);
    assert_eq!(FolderType::from_path("Inbox"), FolderType::Inbox);
    assert_eq!(FolderType::from_path("inbox"), FolderType::Other);
    assert_eq!(FolderType::from_path("All Mail"), FolderType::AllMail);
    assert_eq!(FolderType::from_path("Labels/Work"), FolderType::Label);
    assert_eq!(FolderType::from_path("Folders/Crypto"), FolderType::Custom);
    assert_eq!(FolderType::from_path("Labels"), FolderType::Other);
    let f = Folder::new("Trash".to_string(), Some("/".to_string()));
    assert_eq!(f.folder_type, FolderType::Trash);
    assert_eq!(f.delimiter.as_deref(), Some("/"));
}

#[test]
fn labels_are_folders_under_labels() {
    let l = folder_to_label(&Folder::new("Labels/Work/Urgent".to_string(), None)).unwrap();
    assert_eq!(l.name, "Work/Urgent");
    assert_eq!(l.path, "Labels/Work/Urgent");
    assert!(folder_to_label(&Folder::new("Folders/Work".to_string(), None)).is_none());
}
