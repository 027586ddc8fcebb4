use rustyclaw::compaction::{CompactionConfig, CompactionEngine, CompactionResult, CompactionStrategy};
use rustyclaw::message::ChatMessage;

fn create_test_message(role: &str, content: &str) -> ChatMessage {
    ChatMessage {
        role: role.to_string(),
        content: content.to_string(),
        ..Default::default()
    }
}

#[test]
fn test_should_compact() {
    let config = CompactionConfig {
        enabled: true,
        max_messages: 10,
        ..Default::default()
    };

    let engine = CompactionEngine::new(config);

    assert!(!engine.should_compact(5));
    assert!(!engine.should_compact(10));
    assert!(engine.should_compact(11));
    assert!(engine.should_compact(100));
}

#[test]
fn test_sliding_window_basic() {
    let config = CompactionConfig {
        enabled: true,
        strategy: CompactionStrategy::SlidingWindow,
        max_messages: 10,
        keep_initial: 2,
        keep_recent: 3,
        ..Default::default()
    };

    let engine = CompactionEngine::new(config);

    let messages: Vec<_> = (0..20)
        .map(|i| create_test_message("user", &format!("Message {}", i)))
        .collect();

    let (compacted, result) = engine.compact(messages).unwrap();

    assert!(result.compacted);
    assert_eq!(result.before, 20);
    // Should have: 2 initial + 1 marker + 3 recent = 6 messages
    assert_eq!(compacted.len(), 6);
    assert_eq!(compacted[0].content, "Message 0");
    assert_eq!(compacted[1].content, "Message 1");
    assert!(compacted[2].content.contains("Context compacted"));
    assert_eq!(compacted[3].content, "Message 17");
    assert_eq!(compacted[4].content, "Message 18");
    assert_eq!(compacted[5].content, "Message 19");
}

#[test]
fn test_no_compaction_when_disabled() {
    let config = CompactionConfig {
        enabled: false,
        max_messages: 10,
        ..Default::default()
    };

    let engine = CompactionEngine::new(config);

    let messages: Vec<_> = (0..20)
        .map(|i| create_test_message("user", &format!("Message {}", i)))
        .collect();

    let (compacted, result) = engine.compact(messages).unwrap();

    assert!(!result.compacted);
    assert_eq!(result.before, 20);
    assert_eq!(result.after, 20);
    assert_eq!(compacted.len(), 20);
}

#[test]
fn test_importance_scoring() {
    // scores are in ten-thousandths: 5000 is 0.5
    let config = CompactionConfig::default();
    let engine = CompactionEngine::new(config);

    // User message with error keyword
    let msg1 = create_test_message("user", "There's an error in the code");
    assert!(engine.calculate_importance(&msg1) > 5000);

    // Short assistant acknowledgment
    let msg2 = create_test_message("assistant", "OK");
    assert!(engine.calculate_importance(&msg2) < 5000);

    // System message
    let msg3 = create_test_message("system", "Configuration loaded");
    assert!(engine.calculate_importance(&msg3) > 5000);

    // Long detailed message
    let msg4 = create_test_message("user", &"x".repeat(1000));
    assert!(engine.calculate_importance(&msg4) > 6000);
}

#[test]
fn test_summarize_strategy_used() {
    let config = CompactionConfig {
        enabled: true,
        strategy: CompactionStrategy::Summarize,
        max_messages: 6,
        keep_initial: 1,
        keep_recent: 2,
        ..Default::default()
    };
    let engine = CompactionEngine::new(config);
    let messages: Vec<_> = (0..10)
        .map(|i| create_test_message("user", &format!("Message {}", i)))
        .collect();

    let (compacted, result) = engine.compact(messages).unwrap();
    assert_eq!(result.strategy, CompactionStrategy::Summarize);
    assert!(compacted.iter().any(|m| m.content.contains("Context summary")));
}

#[test]
fn test_hybrid_strategy_used() {
    let config = CompactionConfig {
        enabled: true,
        strategy: CompactionStrategy::Hybrid,
        max_messages: 8,
        keep_initial: 1,
        keep_recent: 2,
        importance_threshold: 1000,
        ..Default::default()
    };
    let engine = CompactionEngine::new(config);
    let messages: Vec<_> = (0..14)
        .map(|i| create_test_message("user", &format!("Important message {}", i)))
        .collect();

    let (compacted, result) = engine.compact(messages).unwrap();
    assert_eq!(result.strategy, CompactionStrategy::Hybrid);
    assert!(compacted.len() < result.before);
}

#[test]
fn importance_exact_values() {
    let engine = CompactionEngine::new(CompactionConfig::default());
    // 0.4 + 28 bytes * 0.0003 + 0.15 for "error"
    assert_eq!(engine.calculate_importance(&create_test_message("user", "There's an error in the code")), 5584);
    assert_eq!(engine.calculate_importance(&create_test_message("assistant", "OK")), 3006);
    assert_eq!(engine.calculate_importance(&create_test_message("tool", "")), 2000);
    // keyword matching ignores case
    assert_eq!(engine.calculate_importance(&create_test_message("system", "BUG")), 5000 + 9 + 1500);
    let mut m = create_test_message("system", &"y".repeat(2000));
    m.tool_call_id = Some("call-1".to_string());
    m.media = Some(vec!["img".to_string()]);
    // 0.5 + 0.3 + 0.2 + 0.1 = 1.1, capped at 1
    assert_eq!(engine.calculate_importance(&m), 10000);
    // length counts bytes: each 'é' is two bytes
    assert_eq!(engine.calculate_importance(&create_test_message("user", "éé")), 4012);
}

#[test]
fn sliding_window_marker_text() {
    let config = CompactionConfig {
        enabled: true,
        max_messages: 3,
        keep_initial: 1,
        keep_recent: 1,
        ..Default::default()
    };
    let engine = CompactionEngine::new(config);
    let messages: Vec<_> = (0..5).map(|i| create_test_message("user", &format!("m{}", i))).collect();
    let (out, result) = engine.compact(messages).unwrap();
    assert_eq!(result.after, 3);
    assert_eq!(out[1].role, "system");
    assert_eq!(
        out[1].content,
        "[Context compacted: 3 messages removed from history using sliding window strategy]"
    );
    assert_eq!(out[2].content, "m4");
}

#[test]
fn sliding_window_covering_everything_keeps_all() {
    let config = CompactionConfig {
        enabled: true,
        max_messages: 2,
        keep_initial: 2,
        keep_recent: 2,
        ..Default::default()
    };
    let engine = CompactionEngine::new(config);
    let messages: Vec<_> = (0..4).map(|i| create_test_message("user", &format!("m{}", i))).collect();
    let (out, result) = engine.compact(messages).unwrap();
    assert!(result.compacted);
    assert_eq!(out.len(), 4);
    assert_eq!(result.after, 4);
}

#[test]
fn summarize_block_lists_middle() {
    let config = CompactionConfig {
        enabled: true,
        strategy: CompactionStrategy::Summarize,
        max_messages: 3,
        keep_initial: 1,
        keep_recent: 1,
        ..Default::default()
    };
    let engine = CompactionEngine::new(config);
    let messages = vec![
        create_test_message("user", "first"),
        create_test_message("user", "line one\nline two  "),
        create_test_message("assistant", "ok"),
        create_test_message("user", "last"),
    ];
    let (out, _) = engine.compact(messages).unwrap();
    assert_eq!(out.len(), 3);
    assert_eq!(
        out[1].content,
        "[Context summary: 2 earlier messages compacted]\n- user: line one line two\n- assistant: ok"
    );
}

#[test]
fn summary_cuts_long_snippets() {
    let config = CompactionConfig {
        enabled: true,
        strategy: CompactionStrategy::Summarize,
        max_messages: 2,
        keep_initial: 1,
        keep_recent: 1,
        ..Default::default()
    };
    let engine = CompactionEngine::new(config);
    let long = "z".repeat(200);
    let messages = vec![
        create_test_message("user", "a"),
        create_test_message("user", &long),
        create_test_message("user", "b"),
    ];
    let (out, _) = engine.compact(messages).unwrap();
    let expected = format!("[Context summary: 1 earlier messages compacted]\n- user: {}...", "z".repeat(140));
    assert_eq!(out[1].content, expected);
}

#[test]
fn importance_keeps_high_scores_in_order() {
    let config = CompactionConfig {
        enabled: true,
        strategy: CompactionStrategy::Importance,
        max_messages: 6,
        keep_initial: 1,
        keep_recent: 1,
        importance_threshold: 5000,
        ..Default::default()
    };
    let engine = CompactionEngine::new(config);
    let messages = vec![
        create_test_message("user", "start"),
        create_test_message("assistant", "ok"),
        create_test_message("user", "critical bug found"),
        create_test_message("assistant", "sure"),
        create_test_message("system", "note"),
        create_test_message("assistant", "fine"),
        create_test_message("user", "end"),
    ];
    // budget: 6 * 2 / 3 = 4, minus 2 kept at the ends = 2 middle messages
    let (out, result) = engine.compact(messages).unwrap();
    let contents: Vec<&str> = out.iter().map(|m| m.content.as_str()).collect();
    assert_eq!(
        contents,
        vec![
            "start",
            "[Context compacted: 3 low-importance messages removed]",
            "critical bug found",
            "note",
            "end"
        ]
    );
    assert_eq!(result.after, 5);
}

#[test]
fn hybrid_summary_covers_every_omitted_message() {
    let config = CompactionConfig {
        enabled: true,
        strategy: CompactionStrategy::Hybrid,
        max_messages: 4,
        keep_initial: 1,
        keep_recent: 1,
        importance_threshold: 5000,
        ..Default::default()
    };
    let engine = CompactionEngine::new(config);
    let messages = vec![
        create_test_message("user", "start"),
        create_test_message("assistant", "a"),
        create_test_message("assistant", "b"),
        create_test_message("system", "important decision"),
        create_test_message("assistant", "c"),
        create_test_message("user", "end"),
    ];
    // middle has 4 messages: keep the top 1 ("important decision")
    let (out, result) = engine.compact(messages).unwrap();
    let contents: Vec<&str> = out.iter().map(|m| m.content.as_str()).collect();
    assert_eq!(
        contents,
        vec![
            "start",
            "[Context summary: 3 messages compacted in hybrid mode]\n- assistant: a\n- assistant: b\n- assistant: c",
            "important decision",
            "end"
        ]
    );
    assert_eq!(result.before, 6);
}

#[test]
fn compaction_result_fields() {
    let r = CompactionResult { before: 10, after: 4, compacted: true, strategy: CompactionStrategy::Hybrid };
    assert_eq!(r.before - r.after, 6);
    assert_eq!(CompactionStrategy::default(), CompactionStrategy::SlidingWindow);
    let c = CompactionConfig::default();
    assert!(!c.enabled);
    assert_eq!(c.max_messages, 100);
    assert_eq!(c.keep_recent, 20);
    assert_eq!(c.keep_initial, 5);
    assert_eq!(c.importance_threshold, 5000);
}

#[test]
fn hybrid_summarizes_omissions_after_a_kept_message() {
    let config = CompactionConfig {
        enabled: true,
        strategy: CompactionStrategy::Hybrid,
        max_messages: 3,
        keep_initial: 0,
        keep_recent: 0,
        importance_threshold: 0,
        ..Default::default()
    };
    let engine = CompactionEngine::new(config);
    let messages = vec![
        create_test_message("user", ""),
        create_test_message("system", ""),
        create_test_message("user", ""),
        create_test_message("user", ""),
    ];
    let (out, result) = engine.compact(messages).unwrap();
    assert_eq!(out.len(), 2);
    assert_eq!(result.after, 2);
    assert_eq!(out[0].role, "system");
    assert_eq!(
        out[0].content,
        "[Context summary: 3 messages compacted in hybrid mode]\n- user: \n- user: \n- user: "
    );
    assert_eq!(out[1].role, "system");
    assert_eq!(out[1].content, "");
}
