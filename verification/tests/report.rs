use precc::mining::{MineResult, MiningSummary};
use precc::rewrites::RULES;
use precc::report::{
    can_list, can_show, database_line, history_section, hook_path, hook_setup, mining_summary,
    report_section, savings_report, session_list, session_mined, skill_details, skills_loaded,
    skills_section, skills_table, truncate_str, weighted_avg_tokens, MetricFigures, PatternRow,
    SavingsFigures, SkillPart, SkillRow, TopSkill,
};

fn skill(name: &str, source: &str) -> SkillRow {
    SkillRow {
        id: 3,
        name: name.to_string(),
        description: "d".to_string(),
        source: source.to_string(),
        enabled: true,
        priority: 50,
        activated: 7,
        succeeded: 6,
        failed: 1,
        last_used: None,
    }
}

fn pattern(failure: &str, fix: &str, project_type: Option<&str>) -> PatternRow {
    PatternRow {
        failure_command: failure.to_string(),
        fix_command: fix.to_string(),
        occurrences: 4,
        project_type: project_type.map(|s| s.to_string()),
    }
}

#[test]
fn strings_are_cut() {
    assert_eq!(truncate_str("hello", 3), "hel");
    assert_eq!(truncate_str("hello", 5), "hello");
    assert_eq!(truncate_str("éa", 2), "é");
}

#[test]
fn setup_is_explained() {
    assert_eq!(skills_loaded(Some("/s"), 3), "  Loaded 3 builtin skill(s) from /s\n");
    assert_eq!(skills_loaded(Some("/s"), 0), "  Builtin skills already loaded\n");
    assert_eq!(
        skills_loaded(None, 0),
        "  No builtin skills directory found (looked for skills/builtin/)\n"
    );
    assert_eq!(hook_path(Some("/usr/bin/precc")), "/usr/bin/precc-hook");
    assert_eq!(hook_path(Some("/")), "precc-hook");
    assert_eq!(hook_path(None), "precc-hook");
    let text = hook_setup("settings.json", "/usr/bin/precc-hook");
    assert!(text.starts_with("\nHook setup:\n  Add to settings.json:\n\n  {\n    \"hooks\": {\n"));
    assert!(text.contains("              \"command\": \"/usr/bin/precc-hook\"\n            }\n"));
    assert!(text.ends_with("    }\n  }\n\nInit complete.\n"));
}

#[test]
fn mining_is_reported() {
    assert_eq!(
        session_mined(&MineResult::Skipped),
        "  Session already mined or has no events\n"
    );
    assert_eq!(
        session_mined(&MineResult::Processed { pairs: 2, events: 31 }),
        "  Found 31 event(s), 2 failure-fix pair(s)\n"
    );
    let mut s = MiningSummary::default();
    s.add_outcome(&Some(MineResult::Processed { pairs: 2, events: 31 }));
    assert_eq!(
        mining_summary(&s),
        "\nMining summary:\n  Sessions processed: 1\n  Sessions skipped:   0\n  \
         Events found:       31\n  Pairs found:        2\n"
    );
    assert_eq!(
        session_list(&vec![true, false, true], "/l", "agent"),
        "Found 3 session file(s):\n  2 already mined, 1 new\n\n\
         Run `precc ingest --all` to mine new sessions.\n"
    );
    assert_eq!(
        session_list(&vec![true], "/l", "agent"),
        "Found 1 session file(s):\n  1 already mined, 0 new\n"
    );
    assert_eq!(
        session_list(&Vec::new(), "/l", "agent"),
        "No session files found in /l\nRun agent to generate session logs first.\n"
    );
}

#[test]
fn skills_are_listed() {
    let rows = vec![skill("cargo-wrong-dir", "builtin"), skill("a-name-of-more-than-24-bytes", "external")];
    assert!(can_list(&rows));
    let table = skills_table(&rows);
    let lines: Vec<&str> = table.split('\n').collect();
    assert_eq!(
        lines[0],
        format!(
            "{:<4} {:<25} {:<8} {:<8} {:<6} {:<6} {:<6}",
            "ID", "Name", "Source", "Enabled", "Pri", "Acts", "Succ"
        )
    );
    assert_eq!(lines[1], "-".repeat(70));
    assert_eq!(
        lines[2],
        format!(
            "{:<4} {:<25} {:<8} {:<8} {:<6} {:<6} {:<6}",
            3, "cargo-wrong-dir", "builtin", "yes", 50, 7, 6
        )
    );
    assert!(lines[3].contains("a-name-of-more-than-24-b  externa  "));
    assert_eq!(lines[5], "2 skill(s) total");
    assert!(skills_table(&Vec::new()).starts_with("No skills registered.\n"));
    assert!(!can_list(&vec![skill("ok", "éééé")]));
}

#[test]
fn skills_are_shown() {
    let part = |kind: &str, content: &str, label: &str| SkillPart {
        kind: kind.to_string(),
        content: content.to_string(),
        label: label.to_string(),
    };
    let mut row = skill("s", "mined");
    row.enabled = false;
    row.last_used = Some("today".to_string());
    assert_eq!(
        skill_details(
            &row,
            &vec![part("command_regex", "^a", "1.0"), part("file_exists", "!b", "0.8")],
            &vec![part("prepend_cd", "cd x", "0.9")],
        ),
        "Skill: s\n  Description: d\n  Source:      mined\n  Priority:    50\n  Enabled:     no\n\n  \
         Triggers:\n    [command_regex] ^a (weight=1.0)\n    [file_exists] !b (weight=0.8)\n\n  \
         Actions:\n    [prepend_cd] cd x (confidence=0.9)\n\n  \
         Stats:\n    Activated: 7\n    Succeeded: 6\n    Failed:    1\n    Last used: today\n"
    );
    assert_eq!(
        skill_details(&skill("s", "mined"), &Vec::new(), &Vec::new()),
        "Skill: s\n  Description: d\n  Source:      mined\n  Priority:    50\n  Enabled:     yes\n\n  \
         Stats:\n    Activated: 7\n    Succeeded: 6\n    Failed:    1\n"
    );
}

#[test]
fn sections_are_reported() {
    let figures = MetricFigures {
        count: 2,
        avg: "3.00".to_string(),
        min: "2.50".to_string(),
        max: "3.50".to_string(),
        total: "6.00".to_string(),
    };
    assert_eq!(
        report_section("CD Prepends", &Some(figures)),
        "CD Prepends\n-----------\n  Count: 2\n  Avg:   3.00\n  Min:   2.50\n  Max:   3.50\n  \
         Total: 6.00\n\n"
    );
    assert_eq!(report_section("CD Prepends", &None), "CD Prepends: no data\n\n");
    let top = vec![TopSkill { name: "cargo-wrong-dir".to_string(), activated: 9 }];
    assert_eq!(
        skills_section(12, 11, 9, &top),
        "Skills\n------\n  Total:       12\n  Enabled:     11\n  Activations: 9\n\n  Top skills:\n    \
         cargo-wrong-dir           9 activations\n\n"
    );
    assert_eq!(
        skills_section(0, 0, 0, &Vec::new()),
        "Skills\n------\n  Total:       0\n  Enabled:     0\n  Activations: 0\n\n"
    );
}

#[test]
fn history_is_reported() {
    let rows = vec![
        pattern("npm test", "pnpm test", Some("node")),
        pattern(&"x".repeat(40), "edit:a", None),
    ];
    assert!(can_show(&rows));
    assert_eq!(
        history_section(5, 2, 4, &rows),
        format!(
            "History Mining\n--------------\n  Sessions mined:     5\n  Failure-fix pairs:  2\n  \
             Max occurrences:    4\n\n  Top failure patterns:\n    [node] npm test -> pnpm test (4x)\n    \
             [?] {} -> edit:a (4x)\n\n",
            "x".repeat(30)
        )
    );
    assert!(!history_section(5, 0, 0, &rows).contains("Top failure patterns"));
    assert!(!can_show(&vec![pattern(&format!("a{}", "é".repeat(20)), "b", None)]));
}

#[test]
fn databases_are_reported() {
    assert_eq!(database_line("history.db", Some("48.0")), "  history.db           48.0 KB\n");
    assert_eq!(database_line("metrics.db", None), "  metrics.db       (not created)\n");
}

#[test]
fn estimates_average_over_the_rules() {
    let (sum, count) = weighted_avg_tokens();
    assert_eq!((sum, count), (15480, 64));
    assert_eq!(count as usize, RULES.len());
    assert_eq!(sum, RULES.iter().map(|r| r.2 as u64).sum::<u64>());
    assert_eq!(sum as f64 / count as f64, 241.875);
}

#[test]
fn savings_are_reported() {
    let s = |text: &str| text.to_string();
    let mut f = SavingsFigures {
        wraps: 2,
        per_wrap: s("189"),
        wrap_tokens: s("378"),
        cds: 1,
        cd_tokens: s("300"),
        activations: 2,
        skill_tokens: s("500"),
        preventions: 3,
        mined_tokens: s("600"),
        prevention_tokens: s("1400"),
        grand_total: s("1778"),
        share: Some(s("78.7")),
    };
    let text = savings_report(&f);
    assert!(text.contains("  Wraps recorded        :        2\n"));
    assert!(text.contains("  Est. tokens/wrap      :      189  (per-category weighted avg)\n"));
    assert!(text.contains("  CD prepends (Pillar 1):        1  ×  300 tok =      300 tok\n"));
    assert!(text.contains("  Skill activations (P4):        2  ×  250 tok =      500 tok\n"));
    assert!(text.contains("  Mined preventions (P3):        3  ×  200 tok =      600 tok\n\n"));
    assert!(text.contains("  Grand total saved     :     1778 tokens\n  Prevention share      :    78.7%\n\nNote"));
    assert!(text.ends_with(
        "      Wrap ~189 tok/wrap (weighted avg), CD-miss ~300 tok, skill ~250 tok, pattern ~200 tok.\n"
    ));
    f.share = None;
    assert!(savings_report(&f).contains("  Grand total saved     :     1778 tokens\n\nNote"));
}
