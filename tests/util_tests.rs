use protoncli::util::{basic_html_to_text, chunk_uids, replace_all, truncate, DEFAULT_BATCH_SIZE};

#[test]
fn test_truncate_short_string() {
    assert_eq!(truncate("hello", 10), "hello");
}

#[test]
fn test_truncate_long_string() {
    assert_eq!(truncate("hello world", 8), "hello...");
}

#[test]
fn truncate_to_three_or_fewer_drops_the_ellipsis() {
    assert_eq!(truncate("hello", 3), "hel");
    assert_eq!(truncate("hello", 0), "");
    assert_eq!(truncate("héllo wörld", 8), "héllo...");
}

#[test]
fn test_chunk_uids_empty() {
    let uids: Vec<u32> = vec![];
    let chunks = chunk_uids(&uids, 10);
    assert!(chunks.is_empty());
}

#[test]
fn test_chunk_uids_smaller_than_batch() {
    let uids: Vec<u32> = vec![1, 2, 3];
    let chunks = chunk_uids(&uids, 10);
    assert_eq!(chunks.len(), 1);
    assert_eq!(chunks[0], vec![1, 2, 3]);
}

#[test]
fn test_chunk_uids_exact_batch() {
    let uids: Vec<u32> = vec![1, 2, 3, 4, 5];
    let chunks = chunk_uids(&uids, 5);
    assert_eq!(chunks.len(), 1);
    assert_eq!(chunks[0], vec![1, 2, 3, 4, 5]);
}

#[test]
fn test_chunk_uids_multiple_batches() {
    let uids: Vec<u32> = vec![1, 2, 3, 4, 5, 6, 7];
    let chunks = chunk_uids(&uids, 3);
    assert_eq!(chunks.len(), 3);
    assert_eq!(chunks[0], vec![1, 2, 3]);
    assert_eq!(chunks[1], vec![4, 5, 6]);
    assert_eq!(chunks[2], vec![7]);
}

#[test]
fn chunk_default_batch() {
    let uids: Vec<u32> = (0..250).collect();
    let chunks = chunk_uids(&uids, DEFAULT_BATCH_SIZE);
    assert_eq!(chunks.len(), 3);
    assert_eq!(chunks[2].len(), 50);
}

#[test]
fn html_to_text_drops_markup() {
    assert_eq!(basic_html_to_text("<p>Hello<br>world</p>"), "Hello\nworld\n\n");
    assert_eq!(basic_html_to_text("a<br />b<br/>c"), "a\nb\nc");
    assert_eq!(basic_html_to_text("x > y <b>bold</b>"), " y bold");
    assert_eq!(basic_html_to_text("plain"), "plain");
    assert_eq!(replace_all("aaa", "aa", "b"), "ba");
}
