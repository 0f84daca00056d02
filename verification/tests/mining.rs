use precc::json::{Json, JsonNumber, Member};
use precc::mining::{
    basename, can_pair, collect_precc_reasons, commands_similar, compute_pattern_hash,
    detect_project_from_path, detect_project_type, effect_of, event_input, events_from_message,
    extract_exit_code, extract_from_content_block, extract_from_tool_result,
    extract_precc_events, extract_tool_events, find_failure_fix_pairs, hash_label, hash_pair,
    merge_tool_events, mine_session, normalize_pattern, parse_precc_reason, plan_pair_writes,
    replaced_or_same, session_id, session_to_extract, session_to_mine, truncate, Effect,
    FailureFixPair, MineResult, MiningSummary, PairWrite, PreccEvent, ToolEvent,
};
use std::hash::{Hash, Hasher};

fn pairs_of(events: &Vec<ToolEvent>) -> Vec<FailureFixPair> {
    assert!(can_pair(events));
    find_failure_fix_pairs(events)
}

#[test]
fn normalize_strips_paths() {
    let input = "error at /home/user/project/src/main.rs:42:10";
    let normalized = normalize_pattern(input);
    assert!(normalized.contains("<PATH>"));
    assert!(!normalized.contains("/home/user"));
}

#[test]
fn normalize_strips_versions() {
    let input = "requires rustc 1.75.0";
    let normalized = normalize_pattern(input);
    assert!(normalized.contains("<VER>"));
    assert!(!normalized.contains("1.75.0"));
}

#[test]
fn commands_similar_same_tool() {
    assert!(commands_similar("cargo build", "cargo build --release"));
    assert!(commands_similar("cargo test foo", "cargo test bar"));
    assert!(!commands_similar("cargo build", "git status"));
}

#[test]
fn detect_project_type_rust() {
    assert_eq!(detect_project_type("cargo build"), Some("rust".to_string()));
    assert_eq!(detect_project_type("cargo test"), Some("rust".to_string()));
}

#[test]
fn detect_project_type_node() {
    assert_eq!(detect_project_type("npm install"), Some("node".to_string()));
    assert_eq!(detect_project_type("pnpm test"), Some("node".to_string()));
}

#[test]
fn detect_project_type_unknown() {
    assert_eq!(detect_project_type("echo hello"), None);
}

#[test]
fn pattern_hash_deterministic() {
    let h1 = compute_pattern_hash("cargo build", "error: missing lib");
    let h2 = compute_pattern_hash("cargo build", "error: missing lib");
    assert_eq!(h1, h2);
}

#[test]
fn pattern_hash_different_for_different_errors() {
    let h1 = compute_pattern_hash("cargo build", "error: missing lib");
    let h2 = compute_pattern_hash("cargo build", "error: type mismatch");
    assert_ne!(h1, h2);
}

#[test]
fn find_pairs_basic() {
    let events = vec![
        ToolEvent {
            tool: "Bash".to_string(),
            command: Some("cargo build".to_string()),
            output: Some("error: missing semicolon".to_string()),
            exit_code: Some(1),
            is_failure: true,
        },
        ToolEvent {
            tool: "Edit".to_string(),
            command: Some("src/main.rs".to_string()),
            output: None,
            exit_code: None,
            is_failure: false,
        },
        ToolEvent {
            tool: "Bash".to_string(),
            command: Some("cargo build".to_string()),
            output: Some("Finished".to_string()),
            exit_code: Some(0),
            is_failure: false,
        },
    ];

    let pairs = pairs_of(&events);
    assert_eq!(pairs.len(), 1);
    assert_eq!(pairs[0].failure_command, "cargo build");
    assert_eq!(pairs[0].fix_command, "cargo build");
}

#[test]
fn find_pairs_edit_fix() {
    let events = vec![
        ToolEvent {
            tool: "Bash".to_string(),
            command: Some("cargo build".to_string()),
            output: Some("error in src/lib.rs".to_string()),
            exit_code: Some(1),
            is_failure: true,
        },
        ToolEvent {
            tool: "Edit".to_string(),
            command: Some("src/lib.rs".to_string()),
            output: None,
            exit_code: None,
            is_failure: false,
        },
    ];

    let pairs = pairs_of(&events);
    assert_eq!(pairs.len(), 1);
    assert!(pairs[0].fix_command.starts_with("edit:"));
}

#[test]
fn find_pairs_no_fix_found() {
    let events = vec![ToolEvent {
        tool: "Bash".to_string(),
        command: Some("cargo build".to_string()),
        output: Some("error".to_string()),
        exit_code: Some(1),
        is_failure: true,
    }];

    let pairs = pairs_of(&events);
    assert!(pairs.is_empty());
}

#[test]
fn truncate_long_string() {
    let s = "a".repeat(1000);
    let t = truncate(&s, 100);
    assert_eq!(t.len(), 103); // 100 + "..."
    assert!(t.ends_with("..."));
}

#[test]
fn truncate_short_string() {
    let s = "hello";
    let t = truncate(s, 100);
    assert_eq!(t, "hello");
}

#[test]
fn extract_exit_code_with_colon() {
    assert_eq!(extract_exit_code("Exit code: 1"), Some(1));
    assert_eq!(extract_exit_code("Exit code: 127"), Some(127));
}

#[test]
fn extract_exit_code_without_colon() {
    assert_eq!(extract_exit_code("Exit code 1"), Some(1));
    assert_eq!(extract_exit_code("Exit code 101\nerror output"), Some(101));
    assert_eq!(
        extract_exit_code("Exit code 127\n/bin/bash: command not found"),
        Some(127)
    );
}

#[test]
fn extract_exit_code_none() {
    assert_eq!(extract_exit_code("Finished build"), None);
    assert_eq!(extract_exit_code(""), None);
}

#[test]
fn merge_tool_use_and_result() {
    let raw = vec![
        ToolEvent {
            tool: "Bash".to_string(),
            command: Some("cargo build".to_string()),
            output: None,
            exit_code: None,
            is_failure: false,
        },
        ToolEvent {
            tool: "Bash".to_string(),
            command: None,
            output: Some("Exit code 1\nerror".to_string()),
            exit_code: Some(1),
            is_failure: true,
        },
    ];

    let merged = merge_tool_events(raw);
    assert_eq!(merged.len(), 1);
    assert_eq!(merged[0].command.as_deref(), Some("cargo build"));
    assert!(merged[0].output.is_some());
    assert_eq!(merged[0].exit_code, Some(1));
    assert!(merged[0].is_failure);
}

#[test]
fn merge_preserves_unmatched_events() {
    let raw = vec![
        ToolEvent {
            tool: "Bash".to_string(),
            command: Some("cargo build".to_string()),
            output: None,
            exit_code: None,
            is_failure: false,
        },
        // Next event is a different tool — should NOT merge
        ToolEvent {
            tool: "Edit".to_string(),
            command: Some("src/main.rs".to_string()),
            output: None,
            exit_code: None,
            is_failure: false,
        },
    ];

    let merged = merge_tool_events(raw);
    assert_eq!(merged.len(), 2);
}

#[test]
fn extract_events_from_real_jsonl() {
    // A realistic session log
    let jsonl = r#"{"type":"assistant","message":{"role":"assistant","content":[{"type":"tool_use","id":"toolu_01","name":"Bash","input":{"command":"cargo build"}}]}}
{"type":"user","message":{"role":"user","content":[{"tool_use_id":"toolu_01","type":"tool_result","content":"Exit code 1\nerror[E0308]: mismatched types","is_error":true}]}}
{"type":"assistant","message":{"role":"assistant","content":[{"type":"tool_use","id":"toolu_02","name":"Edit","input":{"file_path":"src/main.rs","old_string":"x","new_string":"y"}}]}}
{"type":"user","message":{"role":"user","content":[{"tool_use_id":"toolu_02","type":"tool_result","content":"File edited successfully"}]}}
{"type":"assistant","message":{"role":"assistant","content":[{"type":"tool_use","id":"toolu_03","name":"Bash","input":{"command":"cargo build"}}]}}
{"type":"user","message":{"role":"user","content":[{"tool_use_id":"toolu_03","type":"tool_result","content":"Finished `dev` profile","is_error":false}]}}"#;

    let events = extract_tool_events(jsonl);
    // Should have 4 events: Bash(fail), Edit, Bash(success), + tool_result for edit
    // After merge: Bash(fail, merged), Edit (unmerged since next is not result for same tool),
    // tool_result(edit), Bash(success, merged)
    // Actually: tool_use(Bash) + tool_result(Bash) -> merged Bash event
    //           tool_use(Edit) + tool_result(not Edit tool) -> Edit stays, result stays
    //           tool_use(Bash) + tool_result(Bash) -> merged Bash event

    // Count Bash events with both command and failure info
    let bash_with_cmd: Vec<_> = events
        .iter()
        .filter(|e| e.tool == "Bash" && e.command.is_some())
        .collect();
    assert!(
        bash_with_cmd.len() >= 2,
        "Should have at least 2 merged Bash events, got {}",
        bash_with_cmd.len()
    );

    // First Bash should be a failure
    let first_bash = bash_with_cmd[0];
    assert_eq!(first_bash.command.as_deref(), Some("cargo build"));
    assert!(first_bash.is_failure, "First bash should be a failure");
    assert_eq!(first_bash.exit_code, Some(1));

    // Second Bash should be success
    let second_bash = bash_with_cmd[1];
    assert_eq!(second_bash.command.as_deref(), Some("cargo build"));
    assert!(!second_bash.is_failure, "Second bash should be success");
}

#[test]
fn find_pairs_from_real_jsonl() {
    let jsonl = r#"{"type":"assistant","message":{"role":"assistant","content":[{"type":"tool_use","id":"toolu_01","name":"Bash","input":{"command":"cargo build"}}]}}
{"type":"user","message":{"role":"user","content":[{"tool_use_id":"toolu_01","type":"tool_result","content":"Exit code 1\nerror[E0308]: mismatched types in src/main.rs","is_error":true}]}}
{"type":"assistant","message":{"role":"assistant","content":[{"type":"tool_use","id":"toolu_02","name":"Bash","input":{"command":"cargo build"}}]}}
{"type":"user","message":{"role":"user","content":[{"tool_use_id":"toolu_02","type":"tool_result","content":"Finished `dev` profile","is_error":false}]}}"#;

    let events = extract_tool_events(jsonl);
    let pairs = pairs_of(&events);
    assert_eq!(pairs.len(), 1);
    assert_eq!(pairs[0].failure_command, "cargo build");
    assert_eq!(pairs[0].fix_command, "cargo build");
}

#[test]
fn extract_precc_events_skill_activation() {
    let jsonl = r#"{"hookSpecificOutput":{"permissionDecisionReason":"PRECC: skill:cargo-wrong-dir (conf=0.9)"}}"#;
    let events = extract_precc_events(jsonl);
    assert_eq!(events.len(), 1);
    match &events[0] {
        PreccEvent::SkillActivation { skill_name } => {
            assert_eq!(skill_name, "cargo-wrong-dir");
        }
        _ => panic!("expected SkillActivation"),
    }
}

#[test]
fn extract_precc_events_cd_prepend() {
    let jsonl = r#"{"hookSpecificOutput":{"permissionDecisionReason":"PRECC: cd:Cargo.toml (conf=0.9)"}}"#;
    let events = extract_precc_events(jsonl);
    assert_eq!(events.len(), 1);
    match &events[0] {
        PreccEvent::CdPrepend { marker } => {
            assert_eq!(marker, "Cargo.toml");
        }
        _ => panic!("expected CdPrepend"),
    }
}

#[test]
fn extract_precc_events_compressor_wrap() {
    let jsonl = r#"{"hookSpecificOutput":{"permissionDecisionReason":"PRECC: rtk-rewrite"}}"#;
    let events = extract_precc_events(jsonl);
    assert_eq!(events.len(), 1);
    assert!(matches!(events[0], PreccEvent::CompressorWrap));
}

#[test]
fn extract_precc_events_multiple_tokens() {
    let jsonl = r#"{"hookSpecificOutput":{"permissionDecisionReason":"PRECC: skill:cargo-wrong-dir (conf=0.9); cd:Cargo.toml (conf=0.9); rtk-rewrite"}}"#;
    let events = extract_precc_events(jsonl);
    assert_eq!(events.len(), 3);
}

#[test]
fn extract_precc_events_ignores_non_precc() {
    let jsonl = r#"{"hookSpecificOutput":{"permissionDecisionReason":"allow"}}"#;
    let events = extract_precc_events(jsonl);
    assert!(events.is_empty());
}

#[test]
fn extract_precc_events_empty_content() {
    let events = extract_precc_events("");
    assert!(events.is_empty());
}

fn bash(command: &str, output: &str, is_failure: bool) -> ToolEvent {
    ToolEvent {
        tool: "Bash".to_string(),
        command: Some(command.to_string()),
        output: Some(output.to_string()),
        exit_code: None,
        is_failure,
    }
}

fn text(s: &str) -> Json {
    Json::Text(s.to_string())
}

fn object(members: Vec<(&str, Json)>) -> Json {
    Json::Object(
        members
            .into_iter()
            .map(|(key, value)| Member { key: key.to_string(), value })
            .collect(),
    )
}

#[test]
fn exit_codes_at_the_edges() {
    assert_eq!(extract_exit_code("x\n  Exit code: -7  \nExit code 3"), Some(-7));
    assert_eq!(extract_exit_code("Exit code: none\nExit code 3"), Some(3));
    assert_eq!(extract_exit_code("Exit code: 2147483648"), None);
    assert_eq!(extract_exit_code("Exit code1"), None);
}

#[test]
fn merging_is_complete_after_one_pass() {
    let use_ = |c: &str| ToolEvent {
        tool: "Bash".to_string(),
        command: Some(c.to_string()),
        output: None,
        exit_code: None,
        is_failure: false,
    };
    let result = |o: &str| ToolEvent {
        tool: "Bash".to_string(),
        command: None,
        output: Some(o.to_string()),
        exit_code: None,
        is_failure: false,
    };
    let raw = vec![use_("a"), use_("b"), result("1"), result("2"), use_("c")];
    let once = merge_tool_events(raw);
    assert_eq!(once.len(), 4);
    assert_eq!(once[1].command.as_deref(), Some("b"));
    assert_eq!(once[1].output.as_deref(), Some("1"));
    let again = merge_tool_events(once.iter().map(|e| e.clone()).collect());
    assert_eq!(format!("{:?}", once), format!("{:?}", again));
}

#[test]
fn content_blocks_become_events() {
    let edit = object(vec![
        ("type", text("tool_use")),
        ("name", text("Write")),
        ("input", object(vec![("path", text("x"))])),
    ]);
    let e = extract_from_content_block(&edit).unwrap();
    assert_eq!((e.tool.as_str(), e.command.as_deref()), ("Write", Some("")));
    let other = object(vec![
        ("type", text("tool_use")),
        ("name", text("Glob")),
        ("input", object(vec![])),
    ]);
    assert!(extract_from_content_block(&other).is_none());
    let no_command = object(vec![
        ("type", text("tool_use")),
        ("name", text("Bash")),
        ("input", object(vec![])),
    ]);
    assert!(extract_from_content_block(&no_command).is_none());
    assert!(extract_from_content_block(&text("tool_use")).is_none());
    let result = object(vec![
        ("type", text("tool_result")),
        ("content", Json::Array(vec![
            object(vec![("text", text("Exit code 0"))]),
            object(vec![("image", Json::Null)]),
            object(vec![("text", text("ok"))]),
        ])),
        ("is_error", Json::Bool(true)),
    ]);
    let e = extract_from_content_block(&result).unwrap();
    assert_eq!(e.output.as_deref(), Some("Exit code 0\nok"));
    assert_eq!(e.exit_code, Some(0));
    assert!(!e.is_failure);
    let failed = object(vec![("content", text("boom")), ("is_error", Json::Bool(true))]);
    let e = extract_from_tool_result(&failed).unwrap();
    assert_eq!(e.exit_code, Some(1));
    assert!(e.is_failure);
    let number = object(vec![(
        "content",
        Json::Number(JsonNumber { integer: Some(1), bits: Some(1.0f64.to_bits()) }),
    )]);
    assert!(extract_from_tool_result(&number).is_none());
    assert!(extract_from_tool_result(&object(vec![])).is_none());
    let line = object(vec![("message", object(vec![("content", Json::Array(vec![edit, failed]))]))]);
    assert_eq!(events_from_message(&line).len(), 1);
    assert!(events_from_message(&object(vec![("message", Json::Null)])).is_empty());
}

#[test]
fn broken_lines_hold_no_events() {
    assert!(extract_tool_events("").is_empty());
    assert!(extract_tool_events("  \nnot json\n[1]\n{\"message\":{\"content\":\"x\"}}").is_empty());
}

#[test]
fn fixes_are_looked_for_nine_events_ahead() {
    let mut events = vec![bash("cargo build", "boom", true)];
    for _ in 0..8 {
        events.push(bash("ls", "", false));
    }
    events.push(bash("cargo build -q", "", false));
    let pairs = pairs_of(&events);
    assert_eq!(pairs.len(), 1);
    assert_eq!(pairs[0].fix_command, "cargo build -q");
    assert_eq!(pairs[0].project_type.as_deref(), Some("rust"));
    events.insert(1, bash("ls", "", false));
    assert!(pairs_of(&events).is_empty());
}

#[test]
fn first_fix_wins() {
    let mut edit = bash("/p/src/lib.rs", "", false);
    edit.tool = "Edit".to_string();
    let events = vec![
        bash("cargo build", "error in lib.rs", true),
        bash("cargo test", "", true),
        edit,
        bash("cargo build", "", false),
    ];
    let pairs = pairs_of(&events);
    assert_eq!(pairs.len(), 2);
    assert_eq!(pairs[0].fix_command, "edit:/p/src/lib.rs");
    assert_eq!(pairs[1].failure_command, "cargo test");
    assert_eq!(pairs[1].fix_command, "cargo build");
}

#[test]
fn outputs_that_cannot_be_cut_are_told() {
    let long = format!("a{}", "é".repeat(400));
    let fixed = vec![bash("make", &long, true), bash("make", "", false)];
    assert!(!can_pair(&fixed));
    let unfixed = vec![bash("make", &long, true), bash("ls", "", false)];
    assert!(can_pair(&unfixed));
    let even = vec![bash("make", &"é".repeat(400), true), bash("make", "", false)];
    let pairs = pairs_of(&even);
    assert_eq!(pairs[0].failure_output, format!("{}...", "é".repeat(250)));
}

#[test]
fn patterns_lose_their_variable_parts() {
    assert_eq!(
        normalize_pattern("error at /home/user/project/src/main.rs:42:10"),
        "error at <PATH>:<L>:<C>"
    );
    assert_eq!(normalize_pattern("requires rustc 1.75.0 x:1:2"), "requires rustc <VER> x:<L>:<C>");
    assert_eq!(replaced_or_same("a".to_string(), Some("b".to_string())), "b");
    assert_eq!(replaced_or_same("a".to_string(), None), "a");
    assert_eq!(
        compute_pattern_hash("make /a/b", "at /x/y.c:1:2"),
        compute_pattern_hash("make /c", "at /z.c:34:5")
    );
}

#[test]
fn hashes_are_those_of_std() {
    let mut hasher = std::collections::hash_map::DefaultHasher::new();
    "cargo build".hash(&mut hasher);
    "error: missing lib".hash(&mut hasher);
    let expected = hasher.finish();
    assert_eq!(hash_pair("cargo build", "error: missing lib"), expected);
    assert_eq!(
        compute_pattern_hash("cargo build", "error: missing lib"),
        format!("{:016x}", expected)
    );
    assert_eq!(hash_label(0xab), "00000000000000ab");
    assert_ne!(hash_pair("ab", "c"), hash_pair("a", "bc"));
}

#[test]
fn only_the_start_of_an_output_counts() {
    let a = format!("{}tail one", "x".repeat(200));
    let b = format!("{}tail two", "x".repeat(200));
    assert_eq!(compute_pattern_hash("make", &a), compute_pattern_hash("make", &b));
}

#[test]
fn names_of_files_and_projects() {
    assert_eq!(basename("/p/src/lib.rs"), "lib.rs");
    assert_eq!(basename("/"), "/");
    assert_eq!(session_id("/x/-home-u-p/abc-1.jsonl"), "abc-1");
    assert_eq!(session_id("/"), "unknown");
    assert_eq!(
        detect_project_from_path("/x/-home-u-p/abc.jsonl").as_deref(),
        Some("/home/u/p")
    );
    assert_eq!(detect_project_from_path("abc.jsonl"), None);
    for (tool, kind) in [("rustc", "rust"), ("node", "node"), ("pytest", "python"), ("go", "go"),
        ("g++", "c"), ("mvn", "java")] {
        assert_eq!(detect_project_type(tool).as_deref(), Some(kind));
    }
}

#[test]
fn sessions_are_mined() {
    let log = r#"{"message":{"content":[{"type":"tool_use","name":"Bash","input":{"command":"make"}}]}}
{"message":{"content":[{"type":"tool_result","content":"boom","is_error":true}]}}
{"message":{"content":[{"type":"tool_use","name":"Bash","input":{"command":"make -k"}}]}}"#;
    let m = mine_session("/x/-p/s1.jsonl", log).unwrap();
    assert_eq!(m.session_id, "s1");
    assert_eq!(m.project.as_deref(), Some("/p"));
    assert_eq!(event_input(&m.events[0]), "make");
    match m.result() {
        MineResult::Processed { pairs, events } => assert_eq!((pairs, events), (1, 2)),
        MineResult::Skipped => unreachable!(),
    }
    assert!(matches!(mine_session("s", "").unwrap().result(), MineResult::Skipped));
    let bad = format!("a{}", "é".repeat(400));
    assert!(mine_session("s", &log.replace("boom", &bad)).is_none());
}

#[test]
fn patterns_are_stored_once() {
    let pair = |hash: &str| FailureFixPair {
        failure_command: "make".to_string(),
        failure_output: String::new(),
        fix_command: "make -k".to_string(),
        pattern_hash: hash.to_string(),
        project_type: None,
    };
    let pairs = vec![pair("a"), pair("b"), pair("a"), pair("c"), pair("c")];
    let writes = plan_pair_writes(&pairs, &vec!["b".to_string()]);
    assert_eq!(
        writes,
        vec![
            PairWrite::Insert,
            PairWrite::Bump,
            PairWrite::Bump,
            PairWrite::Insert,
            PairWrite::Bump,
        ]
    );
    assert!(plan_pair_writes(&Vec::new(), &Vec::new()).is_empty());
}

#[test]
fn only_bash_failures_get_a_pair() {
    let event = |tool: &str, command: &str, failed: bool| ToolEvent {
        tool: tool.to_string(),
        command: Some(command.to_string()),
        output: Some("e".to_string()),
        exit_code: Some(if failed { 1 } else { 0 }),
        is_failure: failed,
    };
    let edits = vec![event("Edit", "make x", true), event("Bash", "make y", false)];
    assert!(find_failure_fix_pairs(&edits).is_empty());
    let runs = vec![event("Bash", "make x", true), event("Bash", "make y", false)];
    assert_eq!(find_failure_fix_pairs(&runs).len(), 1);
}

#[test]
fn mined_sessions_are_skipped() {
    let mined = vec!["abc".to_string(), "s1".to_string()];
    assert_eq!(session_to_mine("/logs/p/s1.jsonl", &mined), None);
    assert_eq!(session_to_mine("/elsewhere/s1.jsonl", &mined), None);
    assert_eq!(session_to_mine("/logs/p/s2.jsonl", &mined).as_deref(), Some("s2"));
    assert_eq!(session_to_mine("/logs/p/s1.jsonl", &Vec::new()).as_deref(), Some("s1"));
}

#[test]
fn occurrences_grow_by_the_pairs() {
    let pair = |hash: &str| FailureFixPair {
        failure_command: "make".to_string(),
        failure_output: String::new(),
        fix_command: "make -k".to_string(),
        pattern_hash: hash.to_string(),
        project_type: None,
    };
    let pairs = vec![pair("a"), pair("b"), pair("a"), pair("a")];
    let mut counts = vec![("b".to_string(), 5)];
    let known: Vec<String> = counts.iter().map(|c| c.0.clone()).collect();
    for (p, w) in pairs.iter().zip(plan_pair_writes(&pairs, &known)) {
        match w {
            PairWrite::Insert => counts.push((p.pattern_hash.clone(), 1)),
            PairWrite::Bump => {
                counts.iter_mut().find(|c| c.0 == p.pattern_hash).unwrap().1 += 1;
            }
        }
    }
    assert_eq!(counts, vec![("b".to_string(), 6), ("a".to_string(), 3)]);
}

#[test]
fn summaries_add_up() {
    let mut s = MiningSummary::default();
    for r in [
        Some(MineResult::Skipped),
        Some(MineResult::Processed { pairs: 2, events: 9 }),
        None,
        Some(MineResult::Processed { pairs: 1, events: 4 }),
    ] {
        assert!(s.fits(&r));
        s.add_outcome(&r);
    }
    assert_eq!(s.sessions_processed, 2);
    assert_eq!(s.sessions_skipped, 2);
    assert_eq!(s.events_found, 13);
    assert_eq!(s.pairs_found, 3);
    assert!(!s.fits(&Some(MineResult::Processed { pairs: 1, events: usize::MAX })));
}

#[test]
fn reasons_are_read_token_by_token() {
    let mut events = Vec::new();
    parse_precc_reason("PRECC: skill:; skill:a(b; cd:; other;rtk-rewrite ;", &mut events);
    assert_eq!(events.len(), 3);
    assert!(matches!(&events[0], PreccEvent::SkillActivation { skill_name } if skill_name == "a"));
    assert!(matches!(&events[1], PreccEvent::CdPrepend { marker } if marker.is_empty()));
    assert!(matches!(events[2], PreccEvent::CompressorWrap));
    parse_precc_reason("nothing", &mut events);
    parse_precc_reason("PRECC", &mut events);
    assert_eq!(events.len(), 3);
}

#[test]
fn reasons_are_found_anywhere() {
    let inner = object(vec![("permissionDecisionReason", text("PRECC: cd:go.mod"))]);
    let value = object(vec![
        ("a", Json::Array(vec![inner, Json::Null])),
        ("permissionDecisionReason", text("PRECC: skill:x")),
    ]);
    let mut events = Vec::new();
    collect_precc_reasons(&value, &mut events);
    assert_eq!(events.len(), 2);
    assert!(matches!(events[0], PreccEvent::SkillActivation { .. }));
    assert!(matches!(events[1], PreccEvent::CdPrepend { .. }));
    let log = r#"{"b":{"permissionDecisionReason":"PRECC: cd:b"},"a":[1,null,true,{"x":[{"permissionDecisionReason":"PRECC: cd:a"}]}]}"#;
    let markers: Vec<String> = extract_precc_events(log)
        .into_iter()
        .map(|e| match e {
            PreccEvent::CdPrepend { marker } => marker,
            _ => unreachable!(),
        })
        .collect();
    assert_eq!(markers, vec!["a", "b"]);
    let hidden = "{\"permissionDecisionReason\":\"PRECC\\u003a cd:go.mod\"}";
    assert!(extract_precc_events(hidden).is_empty());
    assert!(extract_precc_events("permissionDecisionReason PRECC: cd:x").is_empty());
}

#[test]
fn wraps_are_read_under_both_names() {
    let mut events = Vec::new();
    parse_precc_reason("PRECC: compressor:rtk; compressor; rtk-rewrite; compressor:none", &mut events);
    assert_eq!(events.len(), 3);
    assert!(events.iter().all(|e| matches!(e, PreccEvent::CompressorWrap)));
}

#[test]
fn joined_logs_tell_what_each_was_told() {
    let cd = |marker: &str| format!("{{\"permissionDecisionReason\":\"PRECC: cd:{marker}\"}}");
    let markers = |log: &str| -> Vec<String> {
        extract_precc_events(log)
            .into_iter()
            .map(|e| match e {
                PreccEvent::CdPrepend { marker } => marker,
                _ => unreachable!(),
            })
            .collect()
    };
    let (a, b) = (format!("{}\n{}", cd("a"), cd("b")), cd("c"));
    assert_eq!(markers(&a), vec!["a", "b"]);
    assert_eq!(markers(&format!("{a}\n{b}")), vec!["a", "b", "c"]);
    assert_eq!(markers(&format!("{a}\n\n{b}\n")), vec!["a", "b", "c"]);
    assert_eq!(markers(&format!("\n{b}")), vec!["c"]);
    assert_eq!(markers(&format!("{a}\r\n{b}")), vec!["a", "b", "c"]);
    assert_eq!(markers(&format!("{a}\r")), vec!["a", "b"]);
    assert_eq!(markers(&format!("{a} \t\r\r\n{b}\r")), vec!["a", "b", "c"]);
    assert!(markers("").is_empty());
    assert!(markers("\r\n\r").is_empty());
    let silent = "not JSON: permissionDecisionReason PRECC:\n\
                  {\"permissionDecisionReason\":\"other\",\"note\":\"PRECC: cd:x\"}\n\
                  {\"reason\":\"PRECC: cd:y\"}";
    assert!(markers(silent).is_empty());
    assert_eq!(markers(&format!("{silent}\n{b}")), vec!["c"]);
}

#[test]
fn sessions_are_extracted_once() {
    let mut rows = vec![("a", 1, false), ("b", 2, true)];
    let log = "{\"permissionDecisionReason\":\"PRECC: cd:x\"}";
    let mut run = || -> usize {
        let mut total = 0;
        for (id, content) in [("a", Some(log)), ("b", Some(log)), ("c", Some(log)), ("a", None)] {
            let row = rows.iter().find(|r| r.0 == id).map(|r| (r.1, r.2));
            if let (Some(db_id), Some(text)) = (session_to_extract(row), content) {
                total += extract_precc_events(text).len();
                rows.iter_mut().find(|r| r.1 == db_id).unwrap().2 = true;
            }
        }
        total
    };
    assert_eq!(run(), 1);
    assert_eq!(run(), 0);
}

#[test]
fn events_lead_to_effects() {
    match effect_of(&PreccEvent::SkillActivation { skill_name: "cargo-wrong-dir".to_string() }) {
        Effect::Activate { skill_name, tool } => {
            assert_eq!(skill_name, "cargo-wrong-dir");
            assert_eq!(tool, "cargo");
        }
        _ => unreachable!(),
    }
    match effect_of(&PreccEvent::CdPrepend { marker: "go.mod".to_string() }) {
        Effect::CountCd { metadata } => assert_eq!(metadata, "{\"marker\":\"go.mod\"}"),
        _ => unreachable!(),
    }
    assert!(matches!(effect_of(&PreccEvent::CompressorWrap), Effect::Nothing));
    assert_eq!(session_to_extract(Some((4, false))), Some(4));
    assert_eq!(session_to_extract(Some((4, true))), None);
    assert_eq!(session_to_extract(None), None);
}
