use protoncli::filter::{FilterError, MessageFilter, TranslateError};
use protoncli::query::QueryParser;

// 2024-06-01 as a day number (0001-01-01 is day 1).
const TODAY: i64 = 739038;

#[test]
fn test_parse_relative_days_valid() {
    assert_eq!(MessageFilter::parse_relative_days("30d").unwrap(), 30);
    assert_eq!(MessageFilter::parse_relative_days("7d").unwrap(), 7);
    assert_eq!(MessageFilter::parse_relative_days("1d").unwrap(), 1);
}

#[test]
fn test_parse_relative_weeks() {
    assert_eq!(MessageFilter::parse_relative_days("2w").unwrap(), 14);
    assert_eq!(MessageFilter::parse_relative_days("1w").unwrap(), 7);
}

#[test]
fn test_parse_relative_months() {
    assert_eq!(MessageFilter::parse_relative_days("1m").unwrap(), 30);
    assert_eq!(MessageFilter::parse_relative_days("3m").unwrap(), 90);
}

#[test]
fn test_parse_relative_years() {
    assert_eq!(MessageFilter::parse_relative_days("1y").unwrap(), 365);
}

#[test]
fn test_parse_relative_invalid() {
    assert!(MessageFilter::parse_relative_days("abc").is_err());
    assert!(MessageFilter::parse_relative_days("d").is_err());
    assert!(MessageFilter::parse_relative_days("").is_err());
}

#[test]
fn test_newer_query_translation() {
    let filter = MessageFilter::new().with_query("newer:30d".to_string());
    let imap_query = filter.build_imap_search_query(TODAY).unwrap();
    assert!(imap_query.starts_with("SINCE "));
}

#[test]
fn test_older_query_translation() {
    let filter = MessageFilter::new().with_query("older:7d".to_string());
    let imap_query = filter.build_imap_search_query(TODAY).unwrap();
    assert!(imap_query.starts_with("BEFORE "));
}

#[test]
fn test_in_folder_query_translation() {
    let filter = MessageFilter::new().with_query("in:Sent".to_string());
    let imap_query = filter.build_imap_search_query(TODAY).unwrap();
    assert_eq!(imap_query, "ALL");
}

#[test]
fn test_empty_query_returns_all() {
    let filter = MessageFilter::new().with_query("".to_string());
    let imap_query = filter.build_imap_search_query(TODAY).unwrap();
    assert_eq!(imap_query, "ALL");
}

#[test]
fn test_whitespace_query_returns_all() {
    let filter = MessageFilter::new().with_query("   ".to_string());
    let imap_query = filter.build_imap_search_query(TODAY).unwrap();
    assert_eq!(imap_query, "ALL");
}

#[test]
fn test_no_query_returns_all() {
    let filter = MessageFilter::new();
    let imap_query = filter.build_imap_search_query(TODAY).unwrap();
    assert_eq!(imap_query, "ALL");
}

#[test]
fn test_from_query_translation() {
    let filter = MessageFilter::new().with_query("from:test@example.com".to_string());
    let imap_query = filter.build_imap_search_query(TODAY).unwrap();
    assert_eq!(imap_query, "FROM \"test@example.com\"");
}

#[test]
fn test_subject_query_translation() {
    let filter = MessageFilter::new().with_query("subject:hello".to_string());
    let imap_query = filter.build_imap_search_query(TODAY).unwrap();
    assert_eq!(imap_query, "SUBJECT \"hello\"");
}

#[test]
fn test_unread_query_translation() {
    let filter = MessageFilter::new().with_query("unread:true".to_string());
    let imap_query = filter.build_imap_search_query(TODAY).unwrap();
    assert_eq!(imap_query, "UNSEEN");
}

#[test]
fn test_is_unread_query_translation() {
    let filter = MessageFilter::new().with_query("is:unread".to_string());
    let imap_query = filter.build_imap_search_query(TODAY).unwrap();
    assert_eq!(imap_query, "UNSEEN");
}

#[test]
fn test_and_query_translation() {
    let filter = MessageFilter::new().with_query("from:a@b.com AND subject:test".to_string());
    let imap_query = filter.build_imap_search_query(TODAY).unwrap();
    assert!(imap_query.contains("FROM \"a@b.com\""));
    assert!(imap_query.contains("SUBJECT \"test\""));
}

#[test]
fn test_or_query_translation() {
    let filter = MessageFilter::new().with_query("from:a@b.com OR from:c@d.com".to_string());
    let imap_query = filter.build_imap_search_query(TODAY).unwrap();
    assert!(imap_query.starts_with("OR"));
}

#[test]
fn test_not_query_translation() {
    let filter = MessageFilter::new().with_query("NOT from:spam@example.com".to_string());
    let imap_query = filter.build_imap_search_query(TODAY).unwrap();
    assert!(imap_query.starts_with("NOT"));
}

#[test]
fn test_size_greater_than_translation() {
    let filter = MessageFilter::new().with_query("size:>1000000".to_string());
    let imap_query = filter.build_imap_search_query(TODAY).unwrap();
    assert_eq!(imap_query, "LARGER 1000000");
}

#[test]
fn test_size_less_than_translation() {
    let filter = MessageFilter::new().with_query("size:<5000".to_string());
    let imap_query = filter.build_imap_search_query(TODAY).unwrap();
    assert_eq!(imap_query, "SMALLER 5000");
}

#[test]
fn test_unsupported_field_error() {
    let filter = MessageFilter::new().with_query("unsupported:value".to_string());
    let result = filter.build_imap_search_query(TODAY);
    assert!(result.is_err());
    let err = result.unwrap_err().message();
    assert!(err.contains("Unsupported query"));
}

#[test]
fn test_escape_imap_string() {
    assert_eq!(MessageFilter::escape_imap_string("test"), "test");
    assert_eq!(MessageFilter::escape_imap_string("test\"quote"), "test\\\"quote");
    assert_eq!(MessageFilter::escape_imap_string("test\\backslash"), "test\\\\backslash");
    assert_eq!(MessageFilter::escape_imap_string("test\r\nwith\nnewlines"), "testwithnewlines");
    assert_eq!(MessageFilter::escape_imap_string("test\0null"), "testnull");
    assert_eq!(MessageFilter::escape_imap_string("tab\there"), "tabhere");
}

#[test]
fn test_combined_filter_with_unread_only() {
    let filter = MessageFilter::new()
        .with_query("from:test@example.com".to_string())
        .with_unread_only(true);
    let imap_query = filter.build_imap_search_query(TODAY).unwrap();
    assert!(imap_query.contains("FROM \"test@example.com\""));
    assert!(imap_query.contains("UNSEEN"));
}

#[test]
fn test_extract_folders_single() {
    let folders = MessageFilter::extract_folders_from_query("in:Sent");
    assert_eq!(folders, vec!["Sent"]);
}

#[test]
fn test_extract_folders_multiple() {
    let folders = MessageFilter::extract_folders_from_query("in:Sent in:Archive");
    assert_eq!(folders, vec!["Sent", "Archive"]);
}

#[test]
fn test_extract_folders_mixed_syntax() {
    let folders = MessageFilter::extract_folders_from_query("in:Sent folder:Archive in:Drafts");
    assert_eq!(folders, vec!["Sent", "Archive", "Drafts"]);
}

#[test]
fn test_extract_folders_with_other_tokens() {
    let folders =
        MessageFilter::extract_folders_from_query("from:alice@example.com in:Sent in:Archive");
    assert_eq!(folders, vec!["Sent", "Archive"]);
}

#[test]
fn test_extract_folders_deduplication() {
    let folders = MessageFilter::extract_folders_from_query("in:Sent in:Archive in:Sent");
    assert_eq!(folders, vec!["Sent", "Archive"]);
}

#[test]
fn test_extract_folders_preserves_order() {
    let folders =
        MessageFilter::extract_folders_from_query("in:Archive in:Sent in:INBOX in:Drafts");
    assert_eq!(folders, vec!["Archive", "Sent", "INBOX", "Drafts"]);
}

#[test]
fn test_extract_folders_empty_query() {
    let folders = MessageFilter::extract_folders_from_query("");
    assert!(folders.is_empty());
}

#[test]
fn test_extract_folders_no_folders() {
    let folders =
        MessageFilter::extract_folders_from_query("from:alice@example.com subject:test");
    assert!(folders.is_empty());
}

#[test]
fn test_extract_folders_empty_folder_name_ignored() {
    let folders = MessageFilter::extract_folders_from_query("in: in:Sent");
    assert_eq!(folders, vec!["Sent"]);
}

fn translate(q: &str) -> Result<String, TranslateError> {
    let e = QueryParser::parse(q).unwrap();
    MessageFilter::translate_to_imap(&e, TODAY)
}

#[test]
fn relative_dates_count_back_from_today() {
    assert_eq!(translate("newer:30d").unwrap(), "SINCE 02-May-2024");
    assert_eq!(translate("older:1w").unwrap(), "BEFORE 25-May-2024");
    assert_eq!(translate("date:>30d").unwrap(), "SINCE 02-May-2024");
}

#[test]
fn absolute_dates_are_spelled_for_the_protocol() {
    assert_eq!(translate("date:>2024-01-01").unwrap(), "SINCE 01-Jan-2024");
    assert_eq!(translate("date:<2024-01-01").unwrap(), "BEFORE 01-Jan-2024");
    assert_eq!(translate("since:2023-12-25").unwrap(), "SINCE 25-Dec-2023");
    assert_eq!(translate("before:2023-12-25").unwrap(), "BEFORE 25-Dec-2023");
}

#[test]
fn malformed_dates_abort_translation() {
    assert!(matches!(translate("date:>yesterday"), Err(TranslateError::InvalidDate(_))));
    assert!(matches!(translate("from:a date:>2024-13-01"), Err(TranslateError::InvalidDate(_))));
    assert!(matches!(translate("newer:soon"), Err(TranslateError::InvalidRelativeDate(_))));
    assert!(matches!(translate("date:2024-01-01"), Err(TranslateError::UnsupportedField { .. })));
}

#[test]
fn unsupported_field_names_field_value_and_list() {
    match translate("color:red") {
        Err(e) => {
            let m = e.message();
            assert!(m.contains("color:red"));
            assert!(m.contains("from, to, subject"));
        }
        Ok(s) => panic!("unexpected {}", s),
    }
}

#[test]
fn field_names_ignore_case_and_values_are_escaped() {
    assert_eq!(translate("FROM:x").unwrap(), "FROM \"x\"");
    assert_eq!(translate("Body:\"say \\hi\"").unwrap(), "BODY \"say \\\\hi\"");
    assert_eq!(translate("to:a\u{7}b").unwrap(), "TO \"ab\"");
}

#[test]
fn attachment_and_folder_terms_add_no_constraint() {
    assert_eq!(translate("has:attachment").unwrap(), "ALL");
    assert_eq!(translate("from:x has:attachment").unwrap(), "FROM \"x\"");
    assert_eq!(translate("in:Sent folder:Archive").unwrap(), "ALL");
    assert_eq!(translate("in:Sent OR from:x").unwrap(), "ALL");
    assert_eq!(translate("in:Sent AND folder:Spam in:Trash").unwrap(), "ALL");
}

#[test]
fn boolean_forms_of_the_protocol() {
    assert_eq!(translate("from:a OR from:b").unwrap(), "OR (FROM \"a\") (FROM \"b\")");
    assert_eq!(translate("NOT subject:x").unwrap(), "NOT SUBJECT \"x\"");
    assert_eq!(translate("from:a subject:b").unwrap(), "FROM \"a\" SUBJECT \"b\"");
}

#[test]
fn translation_is_repeatable() {
    let a = translate("from:a@b.com subject:\"x y\" size:>10").unwrap();
    let b = translate("from:a@b.com subject:\"x y\" size:>10").unwrap();
    assert_eq!(a, b);
}

#[test]
fn filter_shortcuts_join_with_spaces() {
    let f = MessageFilter::new().with_unread_only(true).with_days(31);
    assert_eq!(f.build_imap_search_query(TODAY).unwrap(), "UNSEEN SINCE 01-May-2024");
    let g = MessageFilter::new().with_query("bare".to_string());
    assert!(matches!(g.build_imap_search_query(TODAY), Err(FilterError::Syntax(_))));
    let h = MessageFilter::new().with_days(u32::MAX);
    assert!(matches!(h.build_imap_search_query(TODAY), Err(FilterError::DaysOutOfRange(_))));
}

#[test]
fn relative_days_edge_cases() {
    assert_eq!(MessageFilter::parse_relative_days(" 2W ").unwrap(), 14);
    assert_eq!(MessageFilter::parse_relative_days("-3d").unwrap(), -3);
    assert!(MessageFilter::parse_relative_days("9223372036854775807w").is_err());
    assert!(MessageFilter::parse_relative_days("3x").is_err());
}

#[test]
fn builders_set_their_fields() {
    let f = MessageFilter::new()
        .with_days(3)
        .with_agent_unread(true)
        .with_limit(5)
        .with_preview(true);
    assert_eq!(f.days, Some(3));
    assert!(f.agent_unread);
    assert_eq!(f.limit, Some(5));
    assert!(f.preview);
    assert!(!f.unread_only);
    assert!(f.query.is_none());
}
