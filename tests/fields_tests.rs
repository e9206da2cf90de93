use protoncli::fields::{parse_fields, QueryField};

#[test]
fn test_query_field_from_str_basic() {
    assert_eq!(QueryField::from_str("uid"), Some(QueryField::Uid));
    assert_eq!(QueryField::from_str("subject"), Some(QueryField::Subject));
    assert_eq!(QueryField::from_str("from"), Some(QueryField::From));
    assert_eq!(QueryField::from_str("date"), Some(QueryField::Date));
    assert_eq!(QueryField::from_str("flags"), Some(QueryField::Flags));
}

#[test]
fn test_query_field_from_str_message_id_variants() {
    assert_eq!(QueryField::from_str("message_id"), Some(QueryField::MessageId));
    assert_eq!(QueryField::from_str("messageid"), Some(QueryField::MessageId));
    assert_eq!(QueryField::from_str("id"), Some(QueryField::MessageId));
}

#[test]
fn test_query_field_from_str_case_insensitive() {
    assert_eq!(QueryField::from_str("UID"), Some(QueryField::Uid));
    assert_eq!(QueryField::from_str("SUBJECT"), Some(QueryField::Subject));
    assert_eq!(QueryField::from_str("FROM"), Some(QueryField::From));
    assert_eq!(QueryField::from_str("Message_Id"), Some(QueryField::MessageId));
}

#[test]
fn test_query_field_from_str_invalid() {
    assert_eq!(QueryField::from_str("invalid"), None);
    assert_eq!(QueryField::from_str("body"), None);
    assert_eq!(QueryField::from_str(""), None);
    assert_eq!(QueryField::from_str("subject "), None);
}

#[test]
fn test_parse_fields_simple() {
    let fields = parse_fields("uid,subject,from");
    assert_eq!(fields.len(), 3);
    assert_eq!(fields[0], QueryField::Uid);
    assert_eq!(fields[1], QueryField::Subject);
    assert_eq!(fields[2], QueryField::From);
}

#[test]
fn test_parse_fields_with_spaces() {
    let fields = parse_fields("uid, subject , from");
    assert_eq!(fields.len(), 3);
    assert_eq!(fields[0], QueryField::Uid);
    assert_eq!(fields[1], QueryField::Subject);
    assert_eq!(fields[2], QueryField::From);
}

#[test]
fn test_parse_fields_ignores_invalid() {
    let fields = parse_fields("uid,invalid,subject,body");
    assert_eq!(fields.len(), 2);
    assert_eq!(fields[0], QueryField::Uid);
    assert_eq!(fields[1], QueryField::Subject);
}

#[test]
fn test_parse_fields_empty_string() {
    let fields = parse_fields("");
    assert!(fields.is_empty());
}

#[test]
fn test_parse_fields_all_invalid() {
    let fields = parse_fields("invalid,body,foo");
    assert!(fields.is_empty());
}

#[test]
fn test_parse_fields_single_field() {
    let fields = parse_fields("uid");
    assert_eq!(fields.len(), 1);
    assert_eq!(fields[0], QueryField::Uid);
}
