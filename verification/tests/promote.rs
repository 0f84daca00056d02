use precc::confidence::{rank_of_bits, CONF_ACTIVE, CONF_TRUSTED};
use precc::mining::hash_pair;
use precc::promote::{
    find_candidates, generate_action, generate_skill_name, generate_trigger_regex, lifecycle_step, new_confidence,
    occurrence_threshold, promote_one, promote_patterns, promotion_result, skill_name_for,
    tick_skill_lifecycle, Candidate, PromoteResult, SkillState, Transition,
};

fn rank(x: f64) -> i64 {
    rank_of_bits(x.to_bits())
}

fn candidate(failure: &str, fix: &str, occurrences: i64) -> Candidate {
    Candidate {
        failure_command: failure.to_string(),
        fix_command: fix.to_string(),
        occurrences,
    }
}

fn state(confidence: f64, activated: i64, failed: i64) -> SkillState {
    SkillState {
        id: 1,
        source: "mined".to_string(),
        enabled: true,
        confidence: rank(confidence),
        activated,
        failed,
    }
}

#[test]
fn generate_skill_name_basic() {
    let name = generate_skill_name("cargo build", "cargo build --release");
    assert!(name.starts_with("mined-cargo-build-to-cargo-build"));
    assert!(name.len() < 80);
}

#[test]
fn generate_trigger_regex_two_words() {
    let re = generate_trigger_regex("cargo build --release");
    assert!(re.starts_with(r"^cargo\s+build"));
}

#[test]
fn generate_trigger_regex_one_word() {
    let re = generate_trigger_regex("make");
    assert!(re.starts_with(r"^make\s*"));
}

#[test]
fn generate_action_cd_prefix() {
    let (atype, template) = generate_action("cargo build", "cd /home/user/proj && cargo build");
    assert_eq!(atype, "prepend_cd");
    assert!(template.contains("{{project_root}}"));
}

#[test]
fn generate_action_add_flag() {
    let (atype, template) = generate_action("cargo build", "cargo build --release");
    assert_eq!(atype, "add_flag");
    assert!(template.contains("--release"));
}

#[test]
fn generate_action_rewrite() {
    let (atype, template) = generate_action("npm test", "pnpm test");
    assert_eq!(atype, "rewrite_command");
    assert_eq!(template, "pnpm test");
}

#[test]
fn promote_no_candidates() {
    let candidates = find_candidates(&Vec::new(), occurrence_threshold(None));
    assert!(candidates.is_empty());
    let summary = promote_patterns(&Vec::new());
    assert_eq!(summary.candidates_found, 0);
    assert_eq!(summary.skills_created, 0);
}

#[test]
fn promote_creates_skill() {
    let pairs = vec![candidate("cargo build", "cargo build --release", 5)];
    let candidates = find_candidates(&pairs, occurrence_threshold(Some(3)));
    assert_eq!(candidates.len(), 1);
    let skill = promote_one(&candidates[0]).unwrap();
    assert_eq!(skill.description, "Auto-mined: cargo build -> cargo build --release (5x)");
    assert_eq!(skill.trigger, r"^cargo\s+build");
    assert_eq!(skill.action_type, "add_flag");
    assert_eq!(skill.template, "{{original_command}} --release");
    let summary = promote_patterns(&vec![promotion_result(true, false, true)]);
    assert_eq!(summary.candidates_found, 1);
    assert_eq!(summary.skills_created, 1);
}

#[test]
fn promote_skips_edit_fixes() {
    let pairs = vec![candidate("cargo build", "edit:src/main.rs", 10)];
    let candidates = find_candidates(&pairs, occurrence_threshold(Some(3)));
    assert_eq!(candidates.len(), 1);
    let skill = promote_one(&candidates[0]);
    assert!(skill.is_none());
    let summary = promote_patterns(&vec![promotion_result(skill.is_some(), false, false)]);
    assert_eq!(summary.candidates_found, 1);
    assert_eq!(summary.skipped, 1);
    assert_eq!(summary.skills_created, 0);
}

#[test]
fn promote_idempotent() {
    let first = promote_one(&candidate("npm test", "pnpm test", 5)).unwrap();
    let s1 = promote_patterns(&vec![promotion_result(true, false, true)]);
    assert_eq!(s1.skills_created, 1);
    let second = promote_one(&candidate("npm test", "pnpm test", 6)).unwrap();
    let exists = second.name == first.name;
    let s2 = promote_patterns(&vec![promotion_result(true, exists, false)]);
    assert_eq!(s2.skills_created, 0);
    assert_eq!(s2.already_exists, 1);
}

#[test]
fn candidates_are_the_frequent_pairs() {
    let pairs = vec![
        candidate("a", "x", 3),
        candidate("b", "x", 2),
        candidate("c", "x", 9),
        candidate("d", "x", 3),
    ];
    let names: Vec<String> = find_candidates(&pairs, occurrence_threshold(None))
        .into_iter()
        .map(|c| format!("{}{}", c.failure_command, c.occurrences))
        .collect();
    assert_eq!(names, vec!["c9", "a3", "d3"]);
    assert_eq!(find_candidates(&pairs, i64::MIN).len(), 4);
}

#[test]
fn promotion_results_are_counted() {
    let s = promote_patterns(&vec![
        PromoteResult::Created,
        PromoteResult::Skipped,
        PromoteResult::AlreadyExists,
        PromoteResult::Created,
        promotion_result(true, false, false),
    ]);
    assert_eq!(s.candidates_found, 5);
    assert_eq!(s.skills_created, 2);
    assert_eq!(s.already_exists, 1);
    assert_eq!(s.skipped, 2);
    assert_eq!(occurrence_threshold(None), 3);
    assert_eq!(occurrence_threshold(Some(8)), 8);
}

#[test]
fn mined_names_are_one_token() {
    let name = skill_name_for("g++ -o \"a b\" x", "cd /x && (make)", 0x1_2345);
    assert_eq!(name, "mined-g----o-to-cd--x-2345");
    let hash = hash_pair("npm test", "pnpm test");
    assert_eq!(
        generate_skill_name("npm test", "pnpm test"),
        format!("mined-npm-test-to-pnpm-test-{:04x}", hash & 0xFFFF)
    );
    assert_eq!(skill_name_for("", "", 0), "mined--to--0000");
}

#[test]
fn triggers_are_escaped() {
    assert_eq!(generate_trigger_regex(""), "^$");
    assert_eq!(generate_trigger_regex(" g++ "), r"^g\+\+\s*");
    assert_eq!(generate_trigger_regex("./a.sh [x] y"), r"^\./a\.sh\s+\[x\]");
    assert_eq!(generate_trigger_regex("a-b é~"), r"^a\-b\s+é\~");
    assert!(regex::Regex::new(&generate_trigger_regex("g++ #x&y")).unwrap().is_match("g++  #x&y z"));
}

#[test]
fn actions_at_the_edges() {
    let pair = |a: &str, b: &str| {
        let (kind, template) = generate_action(a, b);
        (kind, template)
    };
    assert_eq!(pair("make", "cd /x").0, "rewrite_command");
    assert_eq!(pair("make", "make all"), ("rewrite_command".to_string(), "make all".to_string()));
    assert_eq!(pair("make", "make"), ("rewrite_command".to_string(), "make".to_string()));
    assert_eq!(
        pair("make", "make-x"),
        ("rewrite_command".to_string(), "make-x".to_string())
    );
    assert_eq!(
        pair("make", "make   -j 4 "),
        ("add_flag".to_string(), "{{original_command}} -j 4".to_string())
    );
}

#[test]
fn tick_promotes_candidate_to_active() {
    let (steps, s) = tick_skill_lifecycle(&vec![state(0.3, 5, 0)]);
    assert_eq!(s.promoted_to_active, 1);
    assert_eq!(new_confidence(steps[0]), Some(CONF_ACTIVE));
}

#[test]
fn tick_promotes_active_to_trusted() {
    let (steps, s) = tick_skill_lifecycle(&vec![state(0.7, 20, 0)]);
    assert_eq!(s.promoted_to_trusted, 1);
    assert_eq!(new_confidence(steps[0]), Some(CONF_TRUSTED));
}

#[test]
fn tick_auto_disables_high_failure_rate() {
    let (steps, s) = tick_skill_lifecycle(&vec![state(0.7, 10, 5)]);
    assert_eq!(s.auto_disabled, 1);
    assert_eq!(steps[0], Transition::Disable);
    assert_eq!(new_confidence(steps[0]), None);
}

#[test]
fn tick_leaves_low_activation_untouched() {
    let (steps, s) = tick_skill_lifecycle(&vec![state(0.3, 2, 0)]);
    assert_eq!(s.promoted_to_active, 0);
    assert_eq!(s.promoted_to_trusted, 0);
    assert_eq!(s.auto_disabled, 0);
    assert_eq!(new_confidence(steps[0]), None);
}

#[test]
fn tick_ignores_builtin_skills() {
    let mut builtin = state(0.3, 50, 0);
    builtin.source = "builtin".to_string();
    let (steps, s) = tick_skill_lifecycle(&vec![builtin]);
    assert_eq!(s.promoted_to_active, 0);
    assert_eq!(new_confidence(steps[0]), None);
}

#[test]
fn tick_ignores_disabled_skills() {
    let mut disabled = state(0.3, 50, 50);
    disabled.enabled = false;
    assert_eq!(lifecycle_step(&disabled), Transition::Keep);
}

#[test]
fn lifecycle_at_the_edges() {
    assert_eq!(lifecycle_step(&state(0.3, 5, 1)), Transition::ToActive);
    assert_eq!(lifecycle_step(&state(0.3, 5, 2)), Transition::Disable);
    assert_eq!(lifecycle_step(&state(0.7, 20, 1)), Transition::Keep);
    assert_eq!(lifecycle_step(&state(0.7, 21, 1)), Transition::ToTrusted);
    assert_eq!(lifecycle_step(&state(0.7, 19, 0)), Transition::Keep);
    assert_eq!(lifecycle_step(&state(0.3, 50, 0)), Transition::ToActive);
    assert_eq!(lifecycle_step(&state(0.9, 50, 0)), Transition::Keep);
    assert_eq!(lifecycle_step(&state(0.8999, 50, 0)), Transition::ToTrusted);
    assert_eq!(lifecycle_step(&state(0.9, 4, 4)), Transition::Keep);
    assert_eq!(lifecycle_step(&state(0.3, i64::MAX, i64::MAX)), Transition::Disable);
    assert!(tick_skill_lifecycle(&Vec::new()).0.is_empty());
}
