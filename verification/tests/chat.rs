use papers::chat_context::{
    assemble_context, build_context, count_matches, relevance_score, MAX_CONTEXT_CHARS,
};
use papers::chat_text::{
    citation_label, is_page_word, parse_page_citations, reachable_pages, remove_inline_markers,
    strip_markdown,
};
use papers::ollama::ChatEvent;
use papers::sidebar_chat::{controls, current_page, offered_pages, Display, PpsSidebarChat};
use papers::text::chars_of;

fn says(role: &str, content: &str) -> (String, String) {
    (role.to_string(), content.to_string())
}

fn chunk(page: i32, text: &str) -> (i32, String) {
    (page, text.to_string())
}

#[test]
fn relevance_counts_long_words_of_the_question() {
    let text = "The Quick brown FOX";
    assert_eq!(relevance_score(text, "quick BROWN fox the", &[]), 2);
    assert_eq!(relevance_score(text, "quick quick", &[]), 2);
    assert_eq!(relevance_score(text, "", &[]), 0);
    assert_eq!(relevance_score("ÉTÉS d'antan", "étés", &[]), 1);
}

#[test]
fn relevance_counts_bytes_not_characters() {
    assert_eq!(relevance_score("été", "été", &[]), 1);
    assert_eq!(relevance_score("ete", "ete", &[]), 0);
}

#[test]
fn relevance_reads_the_last_four_messages() {
    let history = vec![
        says("user", "alpha"),
        says("assistant", "bravo"),
        says("user", "charlie"),
        says("assistant", "delta"),
        says("user", "echoes"),
    ];
    assert_eq!(
        relevance_score("alpha bravo charlie delta echoes", "", &history),
        4
    );
    assert_eq!(relevance_score("alpha", "", &history), 0);
}

#[test]
fn count_matches_needs_four_bytes() {
    let list: Vec<Vec<char>> = ["abc", "abcd", "zzzz"].iter().map(|s| chars_of(s)).collect();
    assert_eq!(count_matches(&chars_of("xxabcdxx"), &list), 1);
}

#[test]
fn context_is_empty_without_pages() {
    assert_eq!(build_context("anything", &[], &[], 1), "");
}

#[test]
fn context_marks_the_current_page_and_sorts_by_page() {
    let chunks = vec![
        chunk(1, "nothing here"),
        chunk(2, "about whales"),
        chunk(3, "the current one"),
    ];
    assert_eq!(
        build_context("whales", &[], &chunks, 3),
        "=== Page 1 ===\nnothing here\n\n=== Page 2 ===\nabout whales\n\n=== Page 3 (CURRENT PAGE — user is viewing this) ===\nthe current one"
    );
}

#[test]
fn context_prefers_relevant_pages_within_the_limit() {
    let big = "x".repeat(9_000);
    let chunks = vec![
        chunk(1, &format!("{big} plain")),
        chunk(2, &format!("{big} whales")),
        chunk(3, "current"),
    ];
    let context = build_context("whales", &[], &chunks, 3);
    assert!(context.contains("=== Page 2 ==="));
    assert!(!context.contains("=== Page 1 ==="));
    assert!(context.contains("=== Page 3 (CURRENT PAGE"));
}

#[test]
fn context_stops_at_the_first_page_that_does_not_fit() {
    let chunks = vec![
        chunk(1, &"a".repeat(MAX_CONTEXT_CHARS)),
        chunk(2, "small"),
        chunk(5, "current"),
    ];
    assert_eq!(
        assemble_context(&vec![3, 1, 0], &chunks, 5),
        "=== Page 5 (CURRENT PAGE — user is viewing this) ===\ncurrent"
    );
    assert_eq!(
        assemble_context(&vec![0, 1, 0], &chunks, 5),
        "=== Page 2 ===\nsmall\n\n=== Page 5 (CURRENT PAGE — user is viewing this) ===\ncurrent"
    );
    assert_eq!(
        assemble_context(&vec![0, 1, 0], &chunks, 9),
        "=== Page 2 ===\nsmall"
    );
    assert_eq!(
        assemble_context(&vec![0, 1, 1], &chunks, 9),
        "=== Page 2 ===\nsmall\n\n=== Page 5 ===\ncurrent"
    );
}

#[test]
fn an_oversized_current_page_is_sent_alone() {
    let chunks = vec![
        chunk(1, &"c".repeat(MAX_CONTEXT_CHARS + 1)),
        chunk(2, "other"),
    ];
    let context = assemble_context(&vec![0, 9], &chunks, 1);
    assert!(context.starts_with("=== Page 1 (CURRENT PAGE"));
    assert!(!context.contains("other"));
}

#[test]
fn pages_of_equal_relevance_keep_their_order() {
    let chunks = vec![chunk(4, "d"), chunk(2, "b1"), chunk(2, "b2"), chunk(1, "a")];
    assert_eq!(
        assemble_context(&vec![1, 1, 1, 1], &chunks, 7),
        "=== Page 1 ===\na\n\n=== Page 2 ===\nb1\n\n=== Page 2 ===\nb2\n\n=== Page 4 ===\nd"
    );
}

#[test]
fn markdown_becomes_plain_text() {
    assert_eq!(
        strip_markdown("# Title\n## Sub\n### Deep\n* item\n**bold** and `code`\n\n"),
        "Title\nSub\nDeep\n- item\nbold and code"
    );
    assert_eq!(strip_markdown(""), "");
    assert_eq!(strip_markdown("# # # x\r\n#y"), "x\n#y");
    assert_eq!(strip_markdown("### ## # deep"), "deep");
    assert_eq!(strip_markdown("  * kept *"), "   kept");
}

#[test]
fn plain_text_has_no_marks() {
    let clean = strip_markdown("*** a ``b`` * **\n* *x*");
    assert!(!clean.contains('*') && !clean.contains('`'));
}

#[test]
fn inline_markers_are_removed() {
    assert_eq!(remove_inline_markers("**a** *b* `c` ***d"), "a b c d");
    assert_eq!(remove_inline_markers("naïve — ok"), "naïve — ok");
    assert_eq!(
        remove_inline_markers(&remove_inline_markers("*`x`*")),
        remove_inline_markers("*`x`*")
    );
}

#[test]
fn citations_are_found() {
    assert_eq!(
        parse_page_citations("According to page 3, and Pages 12-14; see (p. 7) or page 3."),
        vec![3, 7, 12]
    );
    assert_eq!(parse_page_citations("page"), Vec::<i32>::new());
    assert_eq!(parse_page_citations("page 0 page 10000 page x"), Vec::<i32>::new());
    assert_eq!(parse_page_citations("PAGE 9999"), vec![9999]);
    assert_eq!(parse_page_citations("page 99999999999"), Vec::<i32>::new());
    assert_eq!(parse_page_citations("homepage 4 pager 5"), Vec::<i32>::new());
    assert_eq!(parse_page_citations("\"page\" 4th"), vec![4]);
}

#[test]
fn page_words_are_told_apart() {
    assert!(is_page_word("page"));
    assert!(is_page_word("(pages,"));
    assert!(is_page_word("p."));
    assert!(!is_page_word("p"));
    assert!(!is_page_word("page."));
    assert!(!is_page_word(""));
}

#[test]
fn only_pages_of_the_document_are_offered() {
    assert_eq!(offered_pages("page 2 page 5 page 9", 5), vec![2, 5]);
    assert_eq!(offered_pages("page 2", 0), Vec::<i32>::new());
    assert_eq!(reachable_pages(&vec![-1, 0, 1, 2, 3], 2), vec![1, 2]);
    assert_eq!(citation_label(12), "Go to page 12");
}

#[test]
fn current_page_counts_from_one() {
    assert_eq!(current_page(Some(4)), 5);
    assert_eq!(current_page(None), 1);
}

#[test]
fn controls_follow_the_loading() {
    let busy = controls(true);
    assert!(busy.spinner_shown && busy.stop_visible);
    assert!(!busy.send_visible && !busy.entry_sensitive && !busy.summarize_sensitive);
    let idle = controls(false);
    assert!(!idle.spinner_shown && !idle.stop_visible);
    assert!(idle.send_visible && idle.entry_sensitive && idle.summarize_sensitive);
}

#[test]
fn an_answered_question_joins_the_talk() {
    let mut chat = PpsSidebarChat::new();
    assert_eq!(chat.on_send("  \t "), None);
    let text = chat.on_send("  What of whales? ").unwrap();
    assert_eq!(text, "What of whales?");
    let texts = vec![Some("Whales are large.".to_string()), None, Some(" \n".to_string())];
    let question = chat.send_message(text, &texts, 1);
    assert_eq!(question.history, vec![says("user", "What of whales?")]);
    assert_eq!(
        question.context,
        "=== Page 1 (CURRENT PAGE — user is viewing this) ===\nWhales are large."
    );
    assert!(chat.is_loading() && chat.on_stop());
    assert_eq!(chat.on_send("another"), None);
    assert_eq!(chat.on_summarize(1), None);
    assert!(matches!(
        chat.receive(ChatEvent::Status("Thinking…".to_string())),
        Display::Status(s) if s == "Thinking…"
    ));
    assert!(matches!(
        chat.receive(ChatEvent::Delta("**They** ".to_string())),
        Display::Answer(s) if s == "**They** "
    ));
    assert!(matches!(
        chat.receive(ChatEvent::Delta("are, page 1.".to_string())),
        Display::Answer(s) if s == "**They** are, page 1."
    ));
    assert!(matches!(chat.receive(ChatEvent::Done), Display::Complete));
    let done = chat.finish();
    assert_eq!(done.text, "They are, page 1.");
    assert!(done.actions);
    assert!(!chat.is_loading() && !chat.on_stop());
    assert_eq!(chat.message_count(), 2);
    assert_eq!(chat.message(0), ("user", "What of whales?"));
    assert_eq!(chat.message(1), ("assistant", "**They** are, page 1."));
}

#[test]
fn a_failed_question_leaves_no_trace() {
    let mut chat = PpsSidebarChat::new();
    let _ = chat.send_message("first".to_string(), &[], 1);
    let _ = chat.receive(ChatEvent::Delta("half".to_string()));
    assert!(matches!(
        chat.receive(ChatEvent::Error("Request failed: no".to_string())),
        Display::Complete
    ));
    let done = chat.finish();
    assert_eq!(done.text, "Request failed: no");
    assert!(!done.actions);
    assert_eq!(chat.message_count(), 0);
}

#[test]
fn a_blank_answer_keeps_the_question() {
    let mut chat = PpsSidebarChat::new();
    let _ = chat.send_message("first".to_string(), &[], 1);
    let _ = chat.receive(ChatEvent::Delta(" ** \n".to_string()));
    let _ = chat.receive(ChatEvent::Done);
    let done = chat.finish();
    assert_eq!(done.text, "");
    assert!(!done.actions);
    assert_eq!(chat.message_count(), 1);
}

#[test]
fn page_texts_are_read_once() {
    let mut chat = PpsSidebarChat::new();
    let one = vec![Some("one".to_string()), None, Some("three".to_string())];
    assert_eq!(chat.page_chunks(&one), vec![chunk(1, "one"), chunk(3, "three")]);
    assert!(chat.has_chunks());
    assert_eq!(
        chat.page_chunks(&[Some("changed".to_string())]),
        vec![chunk(1, "one"), chunk(3, "three")]
    );
    chat.document_changed();
    assert!(!chat.has_chunks());
    assert_eq!(
        chat.page_chunks(&[Some("changed".to_string())]),
        vec![chunk(1, "changed")]
    );
}

#[test]
fn the_talk_can_be_forgotten_and_a_page_summarized() {
    let mut chat = PpsSidebarChat::new();
    let _ = chat.send_message("first".to_string(), &[], 1);
    let _ = chat.receive(ChatEvent::Delta("answer".to_string()));
    let _ = chat.finish();
    assert_eq!(chat.message_count(), 2);
    chat.on_clear();
    assert_eq!(chat.message_count(), 0);
    assert_eq!(
        chat.on_summarize(7).unwrap(),
        "Please summarize the content of page 7 in a few sentences."
    );
}
