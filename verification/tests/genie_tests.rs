use genie::backend::{resolve, verify_gpu};
use genie::chunk_text;
use genie::dispatch::{choose_action, Action, Command, Request};
use genie::error::GenieError;
use genie::ffi::{check_generated, extract_text, extract_text_from, user_message_from_quoted, user_message_json, JsonValue};
use genie::graph::{query, stats};
use genie::llm::{describe_image, pending_notice, transcribe_audio};
use genie::rag::{
    append_rows, ask_route, cache, cache_key, directory_mode_notice, embedding_dim, file_signature,
    inline_prompt, large_input_notice, needs_retrieval, retrieval_prompt, sources_footer, table_exists,
    table_name, DocumentAsk, FileMeta,
};
use genie::text::is_whitespace;
use std::collections::hash_map::DefaultHasher;
use std::hash::{Hash, Hasher};

fn strs(v: &[&str]) -> Vec<String> {
    v.iter().map(|s| s.to_string()).collect()
}

#[test]
fn chunk_short_text_is_trimmed_whole() {
    assert_eq!(chunk_text("  hello world  ", 20, 5), strs(&["hello world"]));
}

#[test]
fn chunk_whitespace_only_gives_nothing() {
    assert_eq!(chunk_text(" \n\t ", 20, 5), Vec::<String>::new());
    assert_eq!(chunk_text("", 20, 5), Vec::<String>::new());
    assert_eq!(chunk_text("   \n\n   \t\t  ", 3, 1), Vec::<String>::new());
}

#[test]
fn chunk_windows_overlap_by_capped_overlap() {
    assert_eq!(chunk_text("abcdefghij", 4, 1), strs(&["abcd", "defg", "ghij"]));
    // overlap larger than a quarter of the window is capped at the quarter
    assert_eq!(chunk_text("abcdefghij", 4, 100), strs(&["abcd", "defg", "ghij"]));
    assert_eq!(
        chunk_text("one two three four five", 8, 3),
        strs(&["one two", "o three", "e four f", "five"])
    );
}

#[test]
fn chunk_blank_windows_are_dropped() {
    assert_eq!(chunk_text("ab  \n\n   cd", 3, 0), strs(&["ab", "cd"]));
}

#[test]
fn chunk_counts_characters_not_bytes() {
    assert_eq!(chunk_text("héllo wörld ñ", 5, 1), strs(&["héllo", "o wör", "rld ñ"]));
    assert_eq!(chunk_text("héllo", 5, 1), strs(&["héllo"]));
}

#[test]
fn chunk_zero_window_gives_nothing() {
    assert_eq!(chunk_text("xyz", 0, 0), Vec::<String>::new());
}

#[test]
fn chunk_exact_fit_and_one_over() {
    assert_eq!(chunk_text("abcd", 4, 0), strs(&["abcd"]));
    assert_eq!(chunk_text("abcde", 4, 0), strs(&["abcd", "e"]));
}

#[test]
fn chunk_trims_unicode_whitespace_like_str_trim() {
    let text = "\u{3000}\u{2003} middle \u{a0}\u{85}";
    assert_eq!(chunk_text(text, 100, 0), vec![text.trim().to_string()]);
}

#[test]
fn chunk_law_every_chunk_is_a_trimmed_window() {
    let text = "The quick brown fox jumps over the lazy dog.\n\nA second paragraph follows here.";
    for max in 1..30usize {
        for overlap in 0..10usize {
            for c in chunk_text(text, max, overlap) {
                assert!(!c.is_empty());
                assert_eq!(c.trim(), c);
                assert!(c.chars().count() <= max);
                assert!(text.contains(c.as_str()));
            }
        }
    }
}

#[test]
fn whitespace_matches_char_is_whitespace() {
    for u in 0u32..=0x10ffff {
        if let Some(c) = char::from_u32(u) {
            assert_eq!(is_whitespace(c), c.is_whitespace(), "code point {:x}", u);
        }
    }
}

#[test]
fn table_name_is_hex_of_default_hash() {
    for key in ["", "a", "/tmp/doc.pdf|123-456|cs=1200", "héllo wörld"] {
        let mut h = DefaultHasher::new();
        key.hash(&mut h);
        let expected = format!("doc_{:016x}", h.finish());
        assert_eq!(table_name(key), expected);
        assert_eq!(table_name(key).len(), 20);
    }
    assert_ne!(table_name("a"), table_name("b"));
}

#[test]
fn file_signature_formats() {
    assert_eq!(file_signature(Some(FileMeta { len: 123, modified_secs: Some(456) })), "123-456");
    assert_eq!(file_signature(Some(FileMeta { len: 0, modified_secs: None })), "0-0");
    assert_eq!(file_signature(None), "0");
    assert_eq!(
        file_signature(Some(FileMeta { len: u64::MAX, modified_secs: Some(10) })),
        format!("{}-10", u64::MAX)
    );
}

#[test]
fn cache_key_joins_parts() {
    assert_eq!(cache_key("/tmp/a.pdf", "12-34", 1200), "/tmp/a.pdf|12-34|cs=1200");
    assert_eq!(cache_key("", "0", 0), "|0|cs=0");
}

#[test]
fn retrieval_threshold_counts_bytes() {
    assert!(!needs_retrieval("abc", 3));
    assert!(needs_retrieval("abcd", 3));
    // "é" is two bytes in UTF-8
    assert!(needs_retrieval("aé", 2));
    assert!(!needs_retrieval("", 0));
}

#[test]
fn large_input_notice_shows_byte_length() {
    assert_eq!(
        large_input_notice("aé"),
        "Large input (3 chars) \u{2014} retrieving relevant chunks via LanceDB..."
    );
}

#[test]
fn inline_prompt_layout() {
    assert_eq!(
        inline_prompt("Who owns Apollo?", "/notes.txt", "Jane owns Apollo."),
        "Who owns Apollo?\n\nAnalyze the following document (\"/notes.txt\"):\n\nJane owns Apollo."
    );
}

#[test]
fn retrieval_prompt_layout_and_distinct_sources() {
    let ex = vec![
        ("a.pdf".to_string(), "one".to_string()),
        ("b.pdf".to_string(), "two".to_string()),
        ("a.pdf".to_string(), "three".to_string()),
    ];
    let (prompt, sources) = retrieval_prompt("Q?", "doc.pdf", &ex);
    assert_eq!(
        prompt,
        "Q?\n\nUse the following excerpts from \"doc.pdf\" to answer:\n\n[source: a.pdf]\none\n\n[source: b.pdf]\ntwo\n\n[source: a.pdf]\nthree\n\n"
    );
    assert_eq!(sources, strs(&["a.pdf", "b.pdf"]));
    let (prompt, sources) = retrieval_prompt("Q?", "doc.pdf", &vec![]);
    assert_eq!(prompt, "Q?\n\nUse the following excerpts from \"doc.pdf\" to answer:\n\n");
    assert!(sources.is_empty());
}

#[test]
fn sources_footer_layout() {
    assert_eq!(sources_footer(&vec![]), "");
    assert_eq!(sources_footer(&strs(&["a.pdf", "b.pdf"])), "\nSources:\n  - a.pdf\n  - b.pdf\n");
}

#[test]
fn table_exists_compares_names() {
    let existing = strs(&["doc_0000000000000001", "doc_00000000000000ff"]);
    assert!(table_exists(&existing, &"doc_00000000000000ff".to_string()));
    assert!(!table_exists(&existing, &"doc_00000000000000fe".to_string()));
    assert!(!table_exists(&vec![], &"x".to_string()));
}

#[test]
fn embedding_dim_rejects_zero() {
    assert!(matches!(embedding_dim(Some(256)), Ok(256)));
    assert!(matches!(embedding_dim(Some(0)), Err(GenieError::NoVectors)));
    assert!(matches!(embedding_dim(None), Err(GenieError::NoVectors)));
    assert_eq!(GenieError::NoVectors.message(), "embedder returned no vectors");
}

#[test]
fn append_rows_pairs_source_and_text() {
    let mut out = vec![("s0".to_string(), "t0".to_string())];
    let texts = strs(&["t1", "t2"]);
    let sources = strs(&["s1", "s2"]);
    assert!(append_rows(&mut out, Some(&texts), Some(&sources)).is_ok());
    assert_eq!(
        out,
        vec![
            ("s0".to_string(), "t0".to_string()),
            ("s1".to_string(), "t1".to_string()),
            ("s2".to_string(), "t2".to_string()),
        ]
    );
    match append_rows(&mut out, None, Some(&sources)) {
        Err(e) => assert_eq!(e.message(), "missing text column"),
        Ok(()) => panic!("expected an error"),
    }
    match append_rows(&mut out, Some(&texts), None) {
        Err(e) => assert_eq!(e.message(), "missing source column"),
        Ok(()) => panic!("expected an error"),
    }
    assert_eq!(out.len(), 3);
}

#[test]
fn ask_route_prefers_dir_then_doc_then_txt() {
    assert!(matches!(ask_route(true, Some("d".into()), None), Ok(DocumentAsk::Directory)));
    match ask_route(false, Some("d".into()), Some("t".into())) {
        Ok(DocumentAsk::Document(p)) => assert_eq!(p, "d"),
        _ => panic!("expected the --doc path"),
    }
    match ask_route(false, None, Some("t".into())) {
        Ok(DocumentAsk::Document(p)) => assert_eq!(p, "t"),
        _ => panic!("expected the --txt path"),
    }
    match ask_route(false, None, None) {
        Err(e) => assert_eq!(e.message(), "no --doc/--txt path"),
        _ => panic!("expected an error"),
    }
}

fn obj(entries: Vec<(&str, JsonValue)>) -> JsonValue {
    JsonValue::Object(entries.into_iter().map(|(k, v)| (k.to_string(), v)).collect())
}

fn s(v: &str) -> JsonValue {
    JsonValue::Str(v.to_string())
}

#[test]
fn extract_text_joins_content_items() {
    let raw = r#"{"content":[{"type":"text","text":"Hel"},{"type":"text","text":"lo"}]}"#;
    let parsed = obj(vec![(
        "content",
        JsonValue::Array(vec![
            obj(vec![("text", s("Hel")), ("type", s("text"))]),
            obj(vec![("type", s("image"))]),
            obj(vec![("text", s("lo")), ("type", s("text"))]),
        ]),
    )]);
    assert_eq!(extract_text_from(raw, &Some(parsed)), "Hello");
}

#[test]
fn extract_text_falls_back_in_order() {
    // content string
    let p = obj(vec![("content", s("plain")), ("text", s("other"))]);
    assert_eq!(extract_text_from("{..}", &Some(p)), "plain");
    // array with no text items, then a text member
    let p = obj(vec![("content", JsonValue::Array(vec![obj(vec![("type", s("x"))])])), ("text", s("t"))]);
    assert_eq!(extract_text_from("{..}", &Some(p)), "t");
    // nothing recognised: the raw reply
    let p = obj(vec![("content", JsonValue::Number("3".to_string()))]);
    assert_eq!(extract_text_from("{\"content\":3}", &Some(p)), "{\"content\":3}");
    assert_eq!(extract_text_from("[1,2]", &Some(JsonValue::Array(vec![]))), "[1,2]");
    // not JSON at all
    assert_eq!(extract_text_from("not json", &None), "not json");
}

#[test]
fn check_generated_rejects_blank_output() {
    assert!(matches!(check_generated("  \n\t".to_string()), Err(GenieError::NoOutput)));
    assert!(matches!(check_generated(String::new()), Err(GenieError::NoOutput)));
    match check_generated(" answer \n".to_string()) {
        Ok(out) => assert_eq!(out, " answer \n"),
        Err(_) => panic!("expected the answer"),
    }
    assert_eq!(GenieError::NoOutput.message(), "generation produced no output");
}

#[test]
fn user_message_quotes_the_prompt() {
    assert_eq!(
        user_message_json("say \"hi\"\n\\"),
        "{\"content\":\"say \\\"hi\\\"\\n\\\\\",\"role\":\"user\"}"
    );
    assert_eq!(user_message_json("why"), "{\"content\":\"why\",\"role\":\"user\"}");
    assert_eq!(user_message_json("a\u{1}\u{1f}\t"), "{\"content\":\"a\\u0001\\u001f\\t\",\"role\":\"user\"}");
    assert_eq!(user_message_from_quoted("\"x\""), "{\"content\":\"x\",\"role\":\"user\"}");
}

#[test]
fn backend_not_written_yet() {
    match resolve() {
        Err(e) => assert_eq!(e.message(), "backend::resolve not yet implemented (RUST_PLAN.md M1)"),
        Ok(_) => panic!("expected an error"),
    }
    assert!(!verify_gpu());
}

#[test]
fn pending_notices() {
    assert_eq!(describe_image("x.png"), "genie (rust): --image not yet implemented (M1). See RUST_PLAN.md");
    assert_eq!(transcribe_audio("x.wav"), "genie (rust): --audio not yet implemented (M1). See RUST_PLAN.md");
    assert_eq!(pending_notice("--x", "M9"), "genie (rust): --x not yet implemented (M9). See RUST_PLAN.md");
    assert_eq!(stats(), "genie (rust): --graph-stats not yet implemented (RUST_PLAN.md M4).");
    assert_eq!(query("MATCH (n) RETURN n"), "genie (rust): --graph-query not yet implemented (RUST_PLAN.md M4).");
    assert_eq!(cache("clear"), "genie (rust): cache subcommand not yet implemented (RUST_PLAN.md M3).");
    assert_eq!(
        directory_mode_notice(),
        "genie (rust): directory mode (--dir) not yet implemented (RUST_PLAN.md M3)."
    );
}

fn empty_request() -> Request {
    Request {
        command: None,
        verify_models: false,
        uninstall: false,
        graph_stats: false,
        graph_query: None,
        image: None,
        audio: None,
        ask: None,
        has_doc: false,
        has_txt: false,
        has_dir: false,
    }
}

#[test]
fn dispatch_precedence() {
    assert!(matches!(choose_action(empty_request()), Action::Help));

    let mut r = empty_request();
    r.command = Some(Command::Doctor);
    r.verify_models = true;
    r.ask = Some("q".into());
    assert!(matches!(choose_action(r), Action::Doctor));

    let mut r = empty_request();
    r.command = Some(Command::Cache("clear".into()));
    assert!(matches!(choose_action(r), Action::Cache(a) if a == "clear"));

    let mut r = empty_request();
    r.uninstall = true;
    r.graph_stats = true;
    assert!(matches!(choose_action(r), Action::Uninstall));

    let mut r = empty_request();
    r.graph_query = Some("MATCH".into());
    r.image = Some("i.png".into());
    assert!(matches!(choose_action(r), Action::GraphQuery(q) if q == "MATCH"));

    let mut r = empty_request();
    r.audio = Some("a.wav".into());
    r.ask = Some("q".into());
    assert!(matches!(choose_action(r), Action::TranscribeAudio(p) if p == "a.wav"));

    let mut r = empty_request();
    r.ask = Some("q".into());
    assert!(matches!(choose_action(r), Action::AskModel(q) if q == "q"));

    let mut r = empty_request();
    r.ask = Some("q".into());
    r.has_txt = true;
    assert!(matches!(choose_action(r), Action::AskDocument(q) if q == "q"));

    let mut r = empty_request();
    r.has_doc = true;
    assert!(matches!(choose_action(r), Action::Help));
}

#[test]
fn error_messages() {
    assert_eq!(GenieError::MissingColumn("vector".into()).message(), "missing vector column");
    assert_eq!(GenieError::NotImplemented("x".into()).message(), "x");
}

#[test]
fn chunk_law_nothing_is_lost() {
    let text = "abcdefghijklmnopqrstuvwxyz ABCDEFGHIJ";
    for max in 1..12usize {
        for overlap in 0..6usize {
            let chunks = chunk_text(text, max, overlap);
            for ch in text.chars().filter(|c| !c.is_whitespace()) {
                assert!(chunks.iter().any(|c| c.contains(ch)), "{ch} lost at max {max}");
            }
        }
    }
}

#[test]
fn chunk_trim_is_idempotent_on_chunks() {
    for c in chunk_text("  a b  \n c  d \t e  ", 4, 1) {
        assert_eq!(chunk_text(&c, 100, 0), vec![c.clone()]);
    }
}

#[test]
fn user_message_parses_back_to_the_prompt() {
    for prompt in ["", "plain", "quote \" and \\ back", "ctl \u{0}\u{7}\u{8}\u{c}\r\n\t\u{1b}", "héllo 🌍 \u{7f}"] {
        let m = user_message_json(prompt);
        let v: serde_json::Value = serde_json::from_str(&m).unwrap();
        assert_eq!(v["content"].as_str(), Some(prompt));
        assert_eq!(v["role"].as_str(), Some("user"));
        assert_eq!(v.as_object().unwrap().len(), 2);
    }
}

#[test]
fn extract_text_parses_the_reply() {
    assert_eq!(
        extract_text(r#"{"content":[{"type":"text","text":"Hel"},{"type":"text","text":"lo"}]}"#),
        "Hello"
    );
    assert_eq!(extract_text(r#"{"content":"plain"}"#), "plain");
    assert_eq!(extract_text(r#"{"text":"t"}"#), "t");
    assert_eq!(extract_text(r#"{"content":[]}"#), r#"{"content":[]}"#);
    assert_eq!(extract_text("not json"), "not json");
    assert_eq!(extract_text(r#"{"content":[{"text":"a\nb"}]}"#), "a\nb");
}
