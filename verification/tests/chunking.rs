use rustyclaw::chunking::{chunk_message, policy_for_messenger};

#[test]
fn test_chunk_message_no_split() {
    let chunks = chunk_message("hello", 10);
    assert_eq!(chunks.len(), 1);
    assert_eq!(chunks[0], "hello");
}

#[test]
fn test_chunk_message_splits_large_text() {
    let text = "a".repeat(9500);
    let chunks = chunk_message(&text, 4096);
    assert!(chunks.len() >= 3);
    assert!(chunks.iter().all(|c| c.chars().count() <= 4096));
    assert_eq!(chunks.concat(), text);
}

#[test]
fn test_policy_for_messenger() {
    assert_eq!(policy_for_messenger("telegram").max_chars, 4096);
    assert_eq!(policy_for_messenger("discord").max_chars, 2000);
    assert_eq!(policy_for_messenger("irc").max_chars, 380);
}

#[test]
fn policy_for_other_messengers() {
    assert_eq!(policy_for_messenger("slack").max_chars, 3900);
    assert_eq!(policy_for_messenger("feishu").max_chars, 3900);
    assert_eq!(policy_for_messenger("line").max_chars, 4900);
    assert_eq!(policy_for_messenger("irc").inter_chunk_delay_ms, 20);
    assert_eq!(policy_for_messenger("unknown").max_chars, 3500);
    assert_eq!(policy_for_messenger("unknown").inter_chunk_delay_ms, 25);
}

#[test]
fn chunk_empty_or_zero_limit() {
    assert_eq!(chunk_message("", 10), vec![String::new()]);
    assert_eq!(chunk_message("abc", 0), vec![String::new()]);
}

#[test]
fn chunk_prefers_paragraph_break() {
    let text = "first paragraph here\n\nsecond one";
    let chunks = chunk_message(text, 25);
    assert_eq!(chunks, vec!["first paragraph here".to_string(), "second one".to_string()]);
}

#[test]
fn chunk_prefers_word_boundary() {
    let chunks = chunk_message("hello world foo", 12);
    assert_eq!(chunks, vec!["hello world".to_string(), "foo".to_string()]);
}

#[test]
fn chunk_sentence_cut_keeps_period_with_next() {
    let chunks = chunk_message("One two. Three four", 12);
    assert_eq!(chunks, vec!["One two".to_string(), ". Three four".to_string()]);
}

#[test]
fn chunk_early_boundary_is_ignored() {
    // the only space is before half the limit, so the cut is hard
    let chunks = chunk_message("a bcdefghij", 8);
    assert_eq!(chunks, vec!["a bcdefg".to_string(), "hij".to_string()]);
}

#[test]
fn chunk_all_whitespace_longer_than_limit_gives_one_empty_chunk() {
    assert_eq!(chunk_message("      ", 3), vec![String::new()]);
    assert_eq!(chunk_message(" \n\n \t ", 2), vec![String::new()]);
    // whitespace within the limit comes back as it is
    assert_eq!(chunk_message("  ", 3), vec!["  ".to_string()]);
}

#[test]
fn chunk_counts_characters_not_bytes() {
    let text = "é".repeat(5);
    assert_eq!(chunk_message(&text, 5), vec![text.clone()]);
    let chunks = chunk_message(&text, 2);
    assert_eq!(chunks, vec!["éé".to_string(), "éé".to_string(), "é".to_string()]);
}

#[test]
fn chunks_keep_all_text_in_order() {
    let mut text = String::new();
    for i in 0..40 {
        text.push_str(&format!("Sentence number {} of the report. ", i));
        if i % 7 == 6 {
            text.push_str("\n\n");
        }
    }
    let chunks = chunk_message(&text, 120);
    assert!(chunks.len() > 1);
    for c in &chunks {
        assert!(c.chars().count() <= 120);
        assert!(!c.is_empty());
    }
    let strip = |s: &str| s.chars().filter(|c| !c.is_whitespace()).collect::<String>();
    assert_eq!(strip(&chunks.concat()), strip(&text));
}
