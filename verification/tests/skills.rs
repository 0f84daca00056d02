use precc::confidence::{rank_of_bits, CONF_ACTIVE, CONF_CANDIDATE, CONF_TRUSTED};
use precc::skills::{
    activation_line, apply_template, check_file_triggers, chrono_now,
    command_first_word_for_match, decay_confidence, default_priority, extract_int_field,
    find_matches, logged_activations, may_match, pattern_first_word_literals, row_applies,
    skill_tie_line,
    top_confidence_ties, trigger_file, update_skill_toml, CandidateRow, FileTrigger, UpdateError,
};

fn rank(x: f64) -> i64 {
    rank_of_bits(x.to_bits())
}

fn row(id: i64, name: &str, pattern: &str, template: &str, base: f64, weight: f64) -> CandidateRow {
    CandidateRow {
        skill_id: id,
        skill_name: name.to_string(),
        enabled: true,
        pattern: pattern.to_string(),
        action_type: "rewrite_command".to_string(),
        template: template.to_string(),
        base: rank(base),
        confidence: rank(base * weight),
        conf_label: format!("{:.1}", base * weight),
        files: Vec::new(),
    }
}

fn near_top(confidences: &[f64]) -> Vec<bool> {
    confidences.iter().map(|c| (c - confidences[0]).abs() < 1e-9).collect()
}

#[test]
fn find_matches_returns_matching_skills() {
    let rows = vec![row(1, "test-skill", r"^cargo\s+build", "rtk cargo build", 0.9, 1.0)];
    let matches = find_matches(&rows, "cargo build --release", rank(0.3));
    assert_eq!(matches.len(), 1);
    assert_eq!(matches[0].skill_name, "test-skill");
    assert_eq!(matches[0].confidence, rank(0.9));
}

#[test]
fn find_matches_filters_by_confidence() {
    let rows = vec![row(1, "low-conf", "^cargo", "test", 0.2, 1.0)];
    let matches = find_matches(&rows, "cargo build", rank(0.3));
    assert!(matches.is_empty());
    let matches = find_matches(&rows, "cargo build", rank(0.1));
    assert_eq!(matches.len(), 1);
}

#[test]
fn no_matches_for_unrelated_command() {
    let matches = find_matches(&Vec::new(), "echo hello", rank(0.0));
    assert!(matches.is_empty());
}

#[test]
fn matches_are_ranked_stably() {
    let rows = vec![
        row(1, "a", "^cargo", "a", 0.5, 1.0),
        row(2, "b", "^cargo", "b", 0.9, 1.0),
        row(3, "c", "^npm", "c", 0.9, 1.0),
        row(4, "d", "^cargo", "d", 0.5, 1.0),
        row(5, "e", "^cargo", "e", 1.0, 0.4),
    ];
    let names: Vec<String> = find_matches(&rows, "cargo test", rank(0.3))
        .into_iter()
        .map(|m| m.skill_name)
        .collect();
    assert_eq!(names, vec!["b", "a", "d", "e"]);
}

#[test]
fn disabled_and_broken_rows_do_not_match() {
    let mut off = row(1, "off", "^cargo", "x", 0.9, 1.0);
    off.enabled = false;
    let broken = row(2, "broken", "^cargo(", "x", 0.9, 1.0);
    let rows = vec![off, broken];
    assert!(find_matches(&rows, "cargo build", rank(0.3)).is_empty());
}

#[test]
fn no_pattern_that_matches_is_passed_over() {
    for pattern in [r"^car\S*", "^cargo|ls", "^(cargo|npm)", "^cargo", r"^cargo\s*", r"^cargo\s+\w"] {
        let rows = vec![row(1, "a", pattern, "x", 0.9, 1.0)];
        assert!(may_match(pattern, "cargo build"), "{}", pattern);
        assert_eq!(find_matches(&rows, "cargo build", rank(0.3)).len(), 1, "{}", pattern);
    }
    let rows = vec![row(1, "a", r"^cd\s+/x", "x", 0.9, 1.0)];
    assert!(may_match(r"^cd\s+/x", "cd /x && ls"));
    assert_eq!(find_matches(&rows, "cd /x && ls", rank(0.3)).len(), 1);
}

#[test]
fn patterns_for_other_verbs_need_no_try() {
    assert!(!may_match(r"^cargo\s+build", "npm install"));
    assert!(may_match(r"^cargo\s+build", "cargo test"));
    assert!(may_match(r"^cargo\s+build", "  cargo build"));
    assert!(may_match(r"^(npm|yarn)\s", "yarn add"));
    assert!(!may_match(r"^(npm|yarn)\s", "pnpm add"));
    let rows = vec![row(1, "a", r"^cargo\s+build", "x", 0.9, 1.0)];
    assert!(find_matches(&rows, "npm install", rank(0.3)).is_empty());
}

#[test]
fn rows_that_are_left_out_never_apply() {
    let patterns = [
        r"^go\s", r"^go\s+", "^go ", "^go +x", "^go$", "^go-x_1 ", "^(go|npm) ", r"^( go|npm )\s+x",
        r"^(é|go)\s(?i)X", r"^go\s(?x) x # y", "^go (?m)^x", "^9 ", r"^go\s\)", r"^go\s[)]",
        r"^go (x|y)", r"^go(\s|$)", r"^go(?:$| +)", r"^go(\s+.*)?$", r"^go\s*$", r"^go\b\s", "^go +?x",
        r"^go\s+([[:alpha:]]|\||[^]|(])", r"^go [(]|ls", r"^go (?P<a[>x)|ls[]y]", r"^go [A-[]|ls]",
        "^go (?x) # (\n|ls", r"^go [a]]|ls", r"^go \\|ls", r"^go (?x)x|ls", r"^go\b-x|ls", r"^go(\s|-)",
    ];
    let commands = [
        "go", "go ", "go x", "go\tx", "go\nx", "go\u{a0}x", " go x", "  go  x", "gox", "go-x_1 y", "npm x",
        "npm  x", "é x", "go X", "9 lives", "cd /a && go x", "x && go x", "go )", "", "GO x", "ls", "lsy",
        "ls]", "go y", "go |", "go-x", "go  ", "go [a", "go a]", "go \\",
    ];
    let mut matched = 0;
    for pattern in patterns {
        for command in commands {
            let rows = vec![row(1, "a", pattern, "x", 0.9, 1.0)];
            if !find_matches(&rows, command, rank(0.3)).is_empty() {
                assert!(may_match(pattern, command), "{:?} {:?}", pattern, command);
                matched += 1;
            }
        }
    }
    assert!(matched > 20);
    assert!(!may_match("^go ", "gox"));
}

#[test]
fn verdict_decides_for_rows_that_are_considered() {
    let one = row(1, "a", "^cargo", "x", 0.9, 1.0);
    assert!(row_applies(&one, rank(0.3), Some(true)));
    assert!(!row_applies(&one, rank(0.3), Some(false)));
    assert!(!row_applies(&one, rank(0.3), None));
    assert!(!row_applies(&one, rank(0.95), Some(true)));
    let rows = vec![row(1, "a", "(npm|yarn)", "x", 0.9, 1.0)];
    assert_eq!(find_matches(&rows, "cd /x && yarn add", rank(0.3)).len(), 1);
}

#[test]
fn weighted_confidence_must_reach_the_minimum() {
    let rows = vec![row(1, "a", "^cargo", "x", 0.9, 0.5)];
    assert!(find_matches(&rows, "cargo build", rank(0.6)).is_empty());
    assert_eq!(find_matches(&rows, "cargo build", rank(0.4)).len(), 1);
}

#[test]
fn file_triggers_are_all_needed() {
    let want = |pattern: &str, exists: bool| FileTrigger { pattern: pattern.to_string(), exists };
    assert!(check_file_triggers(&Vec::new()));
    assert!(check_file_triggers(&vec![want("Makefile", true), want("!Cargo.toml", false)]));
    assert!(!check_file_triggers(&vec![want("Makefile", true), want("!Cargo.toml", true)]));
    assert!(!check_file_triggers(&vec![want("Makefile", false)]));
    assert_eq!(trigger_file("!Cargo.toml"), "Cargo.toml");
    assert_eq!(trigger_file("Cargo.toml"), "Cargo.toml");
    let mut gated = row(1, "gated", "^make", "x", 0.9, 1.0);
    gated.files.push(want("!Makefile", true));
    assert!(find_matches(&vec![gated], "make", rank(0.3)).is_empty());
}

#[test]
fn apply_template_replaces_placeholders() {
    let result = apply_template(
        "cd {{project_root}} && {{original_command}}",
        "cargo build",
        "/home/user/myapp",
    );
    assert_eq!(result, "cd /home/user/myapp && cargo build");
}

#[test]
fn placeholders_in_a_command_are_kept() {
    assert_eq!(
        apply_template("{{original_command}}!", "echo {{project_root}}", "/p"),
        "echo {{project_root}}!"
    );
    assert_eq!(
        apply_template(
            "cd {{project_root}} && {{original_command}}",
            "echo {{project_root}}",
            "/{{original_command}}"
        ),
        "cd /{{original_command}} && echo {{project_root}}"
    );
    assert_eq!(apply_template("{{{original_command}}} {x", "ls", "/p"), "{ls} {x");
}

#[test]
fn extract_int_field_parses() {
    let line = r#"{"ts":1779625618,"skill_id":42,"skill_name":"x","conf":0.900}"#;
    assert_eq!(extract_int_field(line, "\"skill_id\":"), Some(42));
    assert_eq!(extract_int_field(line, "\"ts\":"), Some(1779625618));
    assert_eq!(extract_int_field(line, "\"missing\":"), None);
}

#[test]
fn activation_log_reads_back() {
    let mut log = String::new();
    log.push_str(&activation_line(1, 7, "demo", "0.900"));
    log.push_str(&activation_line(2, -3, "\"skill_id\":9", "0.700"));
    assert!(log.starts_with(
        "{\"ts\":1,\"skill_id\":7,\"skill_name\":\"demo\",\"conf\":0.900}\n"
    ));
    assert_eq!(logged_activations(&log), vec![7, -3]);
    assert_eq!(logged_activations("\n  \nnonsense\n{\"skill_id\":x}\n"), Vec::<i64>::new());
    assert_eq!(
        logged_activations(
            "{\"ts\":1,\"skill_id\":7,\"skill_name\":\"demo\",\"conf\":0.900}\n\
             {\"ts\":2,\"skill_id\":7,\"skill_name\":\"demo\",\"conf\":0.900}\n"
        ),
        vec![7, 7]
    );
}

#[test]
fn replay_counts_each_entry() {
    let log = "{\"ts\":1,\"skill_id\":7}\n\n{\"ts\":2,\"skill_id\":3}\n  \n{\"ts\":3,\"skill_id\":7}\n";
    let ids = logged_activations(log);
    assert_eq!(ids.len(), log.lines().filter(|l| !l.trim().is_empty()).count());
    assert_eq!(ids.iter().filter(|i| **i == 7).count(), 2);
    assert_eq!(ids.iter().filter(|i| **i == 3).count(), 1);
    assert!(logged_activations("").is_empty());
}

#[test]
fn first_word_literals_single() {
    assert_eq!(
        pattern_first_word_literals(r"^cargo\s+build"),
        Some(vec!["cargo".to_string()])
    );
    assert_eq!(pattern_first_word_literals(r"^go\s+"), Some(vec!["go".to_string()]));
}

#[test]
fn first_word_literals_alternation() {
    let got = pattern_first_word_literals(r"^(npm|npx|pnpm|yarn)\s+").unwrap();
    assert_eq!(got, vec!["npm", "npx", "pnpm", "yarn"]);
}

#[test]
fn first_word_literals_unanalysable() {
    assert_eq!(pattern_first_word_literals(r"cargo"), None);
    assert_eq!(pattern_first_word_literals(r"^\s*#"), None);
    assert_eq!(pattern_first_word_literals(r"."), None);
    assert_eq!(pattern_first_word_literals(r"^(npm|\w+)"), None);
}

#[test]
fn first_word_literals_edges() {
    assert_eq!(pattern_first_word_literals("^(a | b) x").unwrap(), vec!["a", "b"]);
    assert_eq!(pattern_first_word_literals("^make$").unwrap(), vec!["make"]);
    assert_eq!(pattern_first_word_literals(r"^go\s").unwrap(), vec!["go"]);
    for pattern in [
        r"^go (b|c)", r"^go(\s|$)", r"^go(?:$| +)x", r"^go(\s+.*)?$", r"^go\s*$", "^go +?x", r"^go\b\s",
        r"^go\t+(a|[)|x])", r"^go\s+([[:alpha:]]|\||[^]|(])", r"^go (?i)(a|b)", r"^go (?P<ax>a|b)",
        r"^(go) (a|b(c|d))", r"^go\s\[(a|b)", r"^go (?x) a # (", "^go$x",
    ] {
        assert_eq!(pattern_first_word_literals(pattern).unwrap(), vec!["go"], "{}", pattern);
    }
    for pattern in [
        "^go", "^go.*", r"^go\S*", r"^go\s*", r"^go\s?x", r"^go\s{0,1}x", r"^go\s+|ls",
        r"^go\b", r"^go(\s|x)", r"^go(\s|$)?x", r"^go(\s|$)*", r"^go(\s|)x", r"^go (a|b)|ls",
        r"^go [a](b|c)|ls", r"^go [(]|ls", r"^go (?x) # (\n|ls", r"^go (?P<a[>x)|ls[]y]",
        r"^go [A-[]|ls]", r"^go [a]]|ls", r"^go \(|ls", r"^go \\|ls", r"^go ()|ls", "^go(\\s(a)|$)",
        "^(a|b)", "^(a|b)?x", r"^cd\s+/x", r"^(cd|ls)\s", "^() x", "^(a|) x",
    ] {
        assert_eq!(pattern_first_word_literals(pattern), None, "{}", pattern);
    }
    assert_eq!(pattern_first_word_literals("^(a"), None);
    assert_eq!(pattern_first_word_literals("^"), None);
    assert_eq!(pattern_first_word_literals("^docker-compose_v2 up").unwrap(), vec![
        "docker-compose_v2"
    ]);
}

#[test]
fn cmd_first_word_skips_cd_prepend() {
    assert_eq!(command_first_word_for_match("cd /repo && cargo build"), "cargo");
    assert_eq!(command_first_word_for_match("cargo build"), "cargo");
    assert_eq!(command_first_word_for_match("  cargo build"), "cargo");
    assert_eq!(command_first_word_for_match("ls"), "ls");
    assert_eq!(command_first_word_for_match(""), "");
}

#[test]
fn cmd_first_word_without_a_verb() {
    assert_eq!(command_first_word_for_match("cd /repo"), "cd");
    assert_eq!(command_first_word_for_match("cd /repo && "), "");
}

#[test]
fn top_ties_needs_two() {
    assert_eq!(top_confidence_ties(&near_top(&[])), 0);
    assert_eq!(top_confidence_ties(&near_top(&[0.9])), 0);
}

#[test]
fn top_ties_clear_winner_is_one() {
    assert_eq!(top_confidence_ties(&near_top(&[0.9, 0.5])), 1);
}

#[test]
fn top_ties_counts_shared_top_only() {
    assert_eq!(top_confidence_ties(&near_top(&[0.9, 0.9, 0.5])), 2);
    assert_eq!(top_confidence_ties(&near_top(&[0.8, 0.8, 0.8, 0.2])), 3);
}

#[test]
fn top_ties_respects_epsilon() {
    assert_eq!(top_confidence_ties(&near_top(&[0.9, 0.9 + 1e-12])), 2);
    assert_eq!(top_confidence_ties(&near_top(&[0.9, 0.8])), 1);
}

#[test]
fn tie_is_logged_as_a_metric() {
    assert_eq!(
        skill_tie_line(17, 3),
        "{\"ts\":17,\"type\":\"skill_tie_at_top\",\"value\":3.0}\n"
    );
}

#[test]
fn decay_retires_below_the_threshold() {
    let first = f64::max(0.0, 0.35 - 0.05);
    let second = f64::max(0.0, first - 0.05);
    assert!(!decay_confidence(Some(1), rank(first), rank(0.30)));
    assert!(decay_confidence(Some(1), rank(second), rank(0.30)));
}

#[test]
fn decay_confidence_unknown_skill_is_noop() {
    assert!(!decay_confidence(None, rank(0.0), rank(0.30)));
}

#[test]
fn update_skill_toml_rejects_name_change() {
    let result = update_skill_toml("renamed-skill", "orig-skill", Some(1));
    assert!(result.is_err());
    match result {
        Err(e) => {
            assert!(e.message().contains("rename is not supported"));
            assert_eq!(
                e.message(),
                "skill name in TOML (\"renamed-skill\") does not match existing name \
                 (\"orig-skill\"); rename is not supported via edit"
            );
        }
        Ok(_) => unreachable!(),
    }
}

#[test]
fn update_needs_the_skill() {
    assert_eq!(update_skill_toml("s", "s", Some(4)).ok(), Some(4));
    match update_skill_toml("s", "s", None) {
        Err(UpdateError::NotFound { name }) => {
            assert_eq!(name, "s");
            assert_eq!(UpdateError::NotFound { name }.message(), "skill 's' not found");
        }
        _ => unreachable!(),
    }
    let odd = UpdateError::Renamed { stated: "a\n\"".to_string(), existing: "é".to_string() };
    assert_eq!(
        odd.message(),
        "skill name in TOML (\"a\\n\\\"\") does not match existing name (\"é\"); \
         rename is not supported via edit"
    );
}

#[test]
fn moments_and_defaults() {
    assert_eq!(chrono_now(1779625618), "1779625618");
    assert_eq!(default_priority(), 100);
}

#[test]
fn ranks_order_as_the_numbers_do() {
    let numbers = [f64::NEG_INFINITY, -1.5, -1e-300, 0.0, 1e-300, 0.29999999999999998, 0.3, 0.7,
        0.9, 1.0, f64::INFINITY];
    for a in numbers {
        for b in numbers {
            assert_eq!(a < b, rank(a) < rank(b), "{} {}", a, b);
        }
    }
    assert_eq!(rank(-0.0), rank(0.0));
    assert_eq!(rank(0.3), CONF_CANDIDATE);
    assert_eq!(rank(0.7), CONF_ACTIVE);
    assert_eq!(rank(0.9), CONF_TRUSTED);
}

/// Tries patterns made up of syntax on commands near them, and yields how many
/// patterns with known first words matched something.
fn try_patterns(seed: u64, count: usize) -> usize {
    let parts = [
        r"\s", " ", "$", r"\b", "(", ")", "|", "[", "]", "^", "-", "?", "*", "+", "x", "y", r"\", "?:", "(?x)",
        "#", "(?P<n[>", "A-[", ".", r"\t", "[^]", "(?i)", "\n",
    ];
    let commands = [
        "a", "a ", "a x", "a  y", "ax", "ay", "a-", "a\tx", "a\ny", " a x", "x", "y", "xy", "]", "[", "-", "", "#",
        "a]", "a[", "a |", "a(", "a)", "A", "a x#", "b x", "b", "by", "a.", "a xy", "a #x", "^x", "x y",
    ];
    let mut state = seed;
    let mut draw = |n: usize| -> usize {
        state = state.wrapping_mul(6364136223846793005).wrapping_add(1442695040888963407);
        (state >> 33) as usize % n
    };
    let mut matched = 0;
    for _ in 0..count {
        let mut pattern = ["^a", "^(a|b)", "^( a|b )"][draw(3)].to_string();
        if draw(2) == 0 {
            pattern.push_str([" ", r"\s", r"(\s|$)", r"\s+", r"(\s.*)?$", r"\s*$"][draw(6)]);
        }
        for _ in 0..draw(8) {
            pattern.push_str(parts[draw(parts.len())]);
        }
        if pattern_first_word_literals(&pattern).is_none() {
            continue;
        }
        let Ok(regex) = regex::Regex::new(&pattern) else {
            continue;
        };
        let mut any = false;
        for command in commands {
            if regex.is_match(command) {
                assert!(may_match(&pattern, command), "{:?} {:?}", pattern, command);
                any = true;
            }
        }
        if any {
            matched += 1;
        }
    }
    matched
}

#[test]
fn patterns_of_any_shape_are_not_passed_over() {
    assert!(try_patterns(7919, 4000) > 100);
}
