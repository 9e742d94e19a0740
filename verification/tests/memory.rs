use aichat::memory::{
    cap_preamble, inject_preamble, preamble_from_contents, MemoryPreamble, Message,
    MessageContent, MessageRole, MAX_PREAMBLE_BYTES, MAX_PREAMBLE_LINES,
};

#[test]
fn cap_under_limit_is_untouched() {
    let raw = "- one\n- two\n- three";
    let (text, truncated) = cap_preamble(raw);
    assert_eq!(text, raw);
    assert!(!truncated);
}

#[test]
fn cap_drops_lines_past_200() {
    let raw: String = (1..=250)
        .map(|i| format!("line {i}"))
        .collect::<Vec<_>>()
        .join("\n");
    let (text, truncated) = cap_preamble(&raw);
    assert!(truncated);
    assert_eq!(text.lines().count(), MAX_PREAMBLE_LINES);
    assert!(text.contains("line 200"));
    assert!(!text.contains("line 201"));
}

#[test]
fn cap_honors_byte_budget_before_line_budget() {
    // 50 lines, each ~300 bytes => ~15 KiB, well under 200 lines but over the 8-KiB cap.
    let long = "x".repeat(300);
    let raw: String = (0..50)
        .map(|_| long.clone())
        .collect::<Vec<_>>()
        .join("\n");
    let (text, truncated) = cap_preamble(&raw);
    assert!(truncated);
    assert!(text.len() <= MAX_PREAMBLE_BYTES);
    assert!(text.lines().count() < 50);
}

#[test]
fn cap_hard_truncates_single_oversized_line() {
    let raw = "y".repeat(MAX_PREAMBLE_BYTES + 500);
    let (text, truncated) = cap_preamble(&raw);
    assert!(truncated);
    assert_eq!(text.len(), MAX_PREAMBLE_BYTES);
}

#[test]
fn cap_never_splits_utf8() {
    // Fill just past the byte budget with multi-byte chars on one line.
    let raw = "é".repeat(MAX_PREAMBLE_BYTES); // 2 bytes each
    let (text, _truncated) = cap_preamble(&raw);
    assert!(text.chars().all(|c| c == 'é'));
    assert!(text.len() <= MAX_PREAMBLE_BYTES);
}

#[test]
fn cap_keeps_exactly_the_lines_that_fit() {
    // 27 lines of 300 bytes and their 26 newlines take 8126 bytes; a 28th line would not fit.
    let long = "x".repeat(300);
    let raw: String = (0..30).map(|_| long.clone()).collect::<Vec<_>>().join("\n");
    let (text, truncated) = cap_preamble(&raw);
    assert!(truncated);
    assert_eq!(text.lines().count(), 27);
    assert_eq!(text.len(), 27 * 300 + 26);
}

#[test]
fn cap_cuts_three_byte_chars_on_a_boundary() {
    // 8192 is not a multiple of 3: the cut lands at 8190 bytes.
    let raw = "€".repeat(3000);
    let (text, truncated) = cap_preamble(&raw);
    assert!(truncated);
    assert_eq!(text.len(), 8190);
    assert_eq!(text.chars().count(), 2730);
}

#[test]
fn cap_normalizes_line_endings() {
    let (text, truncated) = cap_preamble("a\r\nb\n\nc\n");
    assert_eq!(text, "a\nb\n\nc");
    assert!(!truncated);
    let (text, _) = cap_preamble("lone\r");
    assert_eq!(text, "lone\r");
    let (text, truncated) = cap_preamble("");
    assert_eq!(text, "");
    assert!(!truncated);
}

#[test]
fn cap_exactly_at_the_limits_is_untouched() {
    let raw: String = (0..200).map(|i| format!("{i}")).collect::<Vec<_>>().join("\n");
    let (text, truncated) = cap_preamble(&raw);
    assert_eq!(text, raw);
    assert!(!truncated);
    let raw = "z".repeat(MAX_PREAMBLE_BYTES);
    let (text, truncated) = cap_preamble(&raw);
    assert_eq!(text.len(), MAX_PREAMBLE_BYTES);
    assert!(!truncated);
}

#[test]
fn inject_appends_to_existing_system_message() {
    let mut messages = vec![
        Message::new(MessageRole::System, MessageContent::Text("Role body.".into())),
        Message::new(MessageRole::User, MessageContent::Text("hi".into())),
    ];
    inject_preamble(&mut messages, "# Project memory\n- remember this");
    match &messages[0].content {
        MessageContent::Text(t) => {
            assert!(t.starts_with("Role body."));
            assert!(t.contains("# Project memory"));
            assert!(t.contains("remember this"));
        }
        _ => panic!("system message should be text"),
    }
    assert_eq!(messages.len(), 2);
}

#[test]
fn inject_prepends_when_no_system_message() {
    let mut messages = vec![Message::new(
        MessageRole::User,
        MessageContent::Text("hi".into()),
    )];
    inject_preamble(&mut messages, "# Project memory\n- standing note");
    assert_eq!(messages.len(), 2);
    assert_eq!(messages[0].role, MessageRole::System);
    match &messages[0].content {
        MessageContent::Text(t) => assert!(t.contains("standing note")),
        _ => panic!("inserted system message should be text"),
    }
}

#[test]
fn inject_uses_a_blank_line_and_skips_non_text_system_messages() {
    let mut messages = vec![
        Message::new(MessageRole::System, MessageContent::Array(vec!["part".into()])),
        Message::new(MessageRole::User, MessageContent::Text("hi".into())),
        Message::new(MessageRole::System, MessageContent::Text("Body".into())),
    ];
    inject_preamble(&mut messages, "block");
    assert_eq!(messages.len(), 3);
    match &messages[2].content {
        MessageContent::Text(t) => assert_eq!(t, "Body\n\nblock"),
        _ => panic!("system message should be text"),
    }
    assert!(matches!(&messages[0].content, MessageContent::Array(parts) if parts.len() == 1));
}

#[test]
fn system_block_has_the_header() {
    let p = MemoryPreamble {
        text: "- note".to_string(),
        truncated: false,
        source: "memory/MEMORY.md".to_string(),
    };
    assert_eq!(p.as_system_block(), "# Project memory\n- note");
}

#[test]
fn preamble_is_none_for_blank_content() {
    assert!(preamble_from_contents("  \n\t\n", "m".to_string()).is_none());
    assert!(preamble_from_contents("", "m".to_string()).is_none());
    let p = preamble_from_contents("- keep\n", "memory/MEMORY.md".to_string()).unwrap();
    assert_eq!(p.text, "- keep");
    assert!(!p.truncated);
    assert_eq!(p.source, "memory/MEMORY.md");
}

#[test]
fn small_memory_file_becomes_the_system_block() {
    let raw = "- [Cite sources](feedback_cite_sources.md) — link docs inline in code\n- [Prefer tokio](rust_async.md) — standardize on tokio across the codebase\n";
    let p = preamble_from_contents(raw, "/tmp/mem/MEMORY.md".to_string()).unwrap();
    assert!(!p.truncated);
    assert_eq!(
        p.as_system_block(),
        "# Project memory\n- [Cite sources](feedback_cite_sources.md) — link docs inline in code\n- [Prefer tokio](rust_async.md) — standardize on tokio across the codebase"
    );
}
