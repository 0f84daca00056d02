use precc::compressors::{resolve, Backend, NoneCompressor, RtkCompressor};
use precc::confidence::rank_of_bits;
use precc::context::{Mark, Workspace};
use precc::hooks::{
    cursor_answer, cursor_reply, read_cursor_command, read_hook_command, rewrite_answer,
    shell_command, shell_notice, CursorReply,
};
use precc::mining::{extract_precc_events, parse_precc_reason, PreccEvent};
use precc::pipeline::{split_cd_prefix, Pipeline, AUTO_APPLY_THRESHOLD, SUGGEST_THRESHOLD};
use precc::skills::{CandidateRow, SkillMatch};

fn rank(x: f64) -> i64 {
    rank_of_bits(x.to_bits())
}

fn nowhere() -> Workspace {
    Workspace { cwd: None, home: None, marks: Vec::new() }
}

fn rust_project() -> Workspace {
    Workspace {
        cwd: Some("/p/notes".to_string()),
        home: Some("/home/u".to_string()),
        marks: vec![Mark {
            dir: "/p".to_string(),
            marker: "Cargo.toml".to_string(),
            modified: Some(1),
        }],
    }
}

fn skill(name: &str, pattern: &str, template: &str, confidence: f64) -> CandidateRow {
    CandidateRow {
        skill_id: 5,
        skill_name: name.to_string(),
        enabled: true,
        pattern: pattern.to_string(),
        action_type: "prepend_cd".to_string(),
        template: template.to_string(),
        base: rank(confidence),
        confidence: rank(confidence),
        conf_label: format!("{:.1}", confidence),
        files: Vec::new(),
    }
}

#[test]
fn split_cd_prefix_with_cd() {
    let (prefix, cmd) = split_cd_prefix("cd /home/user/myapp && cargo build");
    assert_eq!(prefix, "cd /home/user/myapp && ");
    assert_eq!(cmd, "cargo build");
}

#[test]
fn split_cd_prefix_without_cd() {
    let (prefix, cmd) = split_cd_prefix("cargo build --release");
    assert_eq!(prefix, "");
    assert_eq!(cmd, "cargo build --release");
}

#[test]
fn split_cd_prefix_needs_both_parts() {
    assert_eq!(split_cd_prefix("ls && cd /x"), ("", "ls && cd /x"));
    assert_eq!(split_cd_prefix("cd /x"), ("", "cd /x"));
}

#[test]
fn pipeline_reason_empty() {
    let p = Pipeline::new("echo hello".to_string());
    assert_eq!(p.reason(), "PRECC");
}

#[test]
fn pipeline_reason_with_entries() {
    let mut p = Pipeline::new("echo hello".to_string());
    p.reasons.push("rtk-rewrite".to_string());
    p.reasons.push("cd:Cargo.toml (conf=0.9)".to_string());
    assert_eq!(p.reason(), "PRECC: rtk-rewrite; cd:Cargo.toml (conf=0.9)");
}

#[test]
fn pipeline_fails_open() {
    let mut p = Pipeline::new("cargo build".to_string());
    assert!(p.run(&Vec::new(), &nowhere(), &NoneCompressor).is_none());
    assert!(!p.modified());
    assert_eq!(p.command, "cargo build");
    assert_eq!(p.reason(), "PRECC");
    assert!(matches!(cursor_reply(&p), CursorReply::Allow));
}

#[test]
fn context_prepends_a_cd_once() {
    let mut p = Pipeline::new("cargo build".to_string());
    p.stage_context(&rust_project());
    assert_eq!(p.command, "cd /p && cargo build");
    assert_eq!(p.reason(), "PRECC: cd:Cargo.toml (conf=0.9)");
    p.stage_context(&rust_project());
    assert_eq!(p.command, "cd /p && cargo build");
    assert_eq!(p.reasons.len(), 1);
}

#[test]
fn run_applies_the_confident_skill() {
    let rows = vec![
        skill("unsure", "^cargo", "echo {{original_command}}", 0.5),
        skill("cargo-wrong-dir", r"^cargo\s+build", "cd {{project_root}} && {{original_command}}", 0.9),
    ];
    let mut p = Pipeline::new("cargo build -q".to_string());
    let applied = p.run(&rows, &rust_project(), &RtkCompressor { available: true }).unwrap();
    assert_eq!(applied.skill_name, "cargo-wrong-dir");
    assert_eq!(applied.skill_id, 5);
    assert_eq!(p.command, "cd /p && rtk cargo build -q");
    assert!(p.modified());
    assert_eq!(p.reason(), "PRECC: skill:cargo-wrong-dir (conf=0.9); compressor:rtk");
}

#[test]
fn run_without_a_root_uses_the_working_directory() {
    let rows = vec![skill("s", "^echo", "{{project_root}}:{{original_command}}", 0.7)];
    let mut p = Pipeline::new("echo x".to_string());
    p.run(&rows, &rust_project(), &NoneCompressor);
    assert_eq!(p.command, "/p/notes:echo x");
    let mut q = Pipeline::new("echo x".to_string());
    q.run(&rows, &nowhere(), &NoneCompressor);
    assert_eq!(q.command, ".:echo x");
}

#[test]
fn skill_stage_takes_the_first_confident_match() {
    let mut p = Pipeline::new("ls".to_string());
    let m = |name: &str, confidence: f64| SkillMatch {
        skill_name: name.to_string(),
        action_type: "rewrite_command".to_string(),
        template: name.to_string(),
        confidence: rank(confidence),
        conf_label: format!("{:.1}", confidence),
        skill_id: 1,
    };
    assert_eq!(p.stage_skills(&vec![m("a", 0.6)], &nowhere()), None);
    assert_eq!(p.command, "ls");
    assert_eq!(p.stage_skills(&vec![m("a", 0.69), m("b", 0.7), m("c", 0.9)], &nowhere()), Some(1));
    assert_eq!(p.command, "b");
}

#[test]
fn thresholds_are_ranks_of_their_numbers() {
    assert_eq!(AUTO_APPLY_THRESHOLD, rank(0.7));
    assert_eq!(SUGGEST_THRESHOLD, rank(0.3));
}

#[test]
fn wrap_goes_behind_the_cd() {
    let mut p = Pipeline::new("cd /x y && git log".to_string());
    p.stage_compressor(&resolve("rtk", true));
    assert_eq!(p.command, "cd /x y && rtk git log");
    let mut q = Pipeline::new("cd /x y && git log".to_string());
    q.stage_compressor(&resolve("none", true));
    assert!(!q.modified());
}

#[test]
fn reasons_read_back_as_what_was_done() {
    let rows = vec![skill("gnu-make", "^gmake", "make {{original_command}}", 0.8)];
    let ws = Workspace {
        cwd: Some("/p/notes".to_string()),
        home: None,
        marks: vec![Mark { dir: "/p".to_string(), marker: "Makefile".to_string(), modified: None }],
    };
    let mut p = Pipeline::new("gmake all".to_string());
    let rtk: Backend = resolve("rtk", true);
    p.run(&rows, &ws, &rtk);
    assert_eq!(p.command, "cd /p && rtk make gmake all");
    assert_eq!(
        p.reason(),
        "PRECC: skill:gnu-make (conf=0.8); cd:Makefile (conf=0.9); compressor:rtk"
    );
    let mut events = Vec::new();
    parse_precc_reason(&p.reason(), &mut events);
    assert_eq!(events.len(), 3);
    assert!(matches!(&events[0], PreccEvent::SkillActivation { skill_name } if skill_name == "gnu-make"));
    assert!(matches!(&events[1], PreccEvent::CdPrepend { marker } if marker == "Makefile"));
    assert!(matches!(&events[2], PreccEvent::CompressorWrap));
}

#[test]
fn hosts_hand_in_their_commands() {
    assert_eq!(
        read_hook_command(r#"{"tool_input":{"command":"cargo build","timeout":5}}"#).as_deref(),
        Some("cargo build")
    );
    assert_eq!(read_hook_command(r#"{"tool_input":{"command":""}}"#), None);
    assert_eq!(read_hook_command(r#"{"tool_input":{"command":7}}"#), None);
    assert_eq!(read_hook_command(r#"{"command":"ls"}"#), None);
    assert_eq!(read_hook_command("nonsense"), None);
    assert_eq!(
        read_cursor_command(r#"{"command":"l\u0073","cwd":"/"}"#).as_deref(),
        Some("ls")
    );
    assert_eq!(read_cursor_command(r#"{"command":""}"#), None);
    assert_eq!(read_cursor_command("[]"), None);
    assert_eq!(read_cursor_command("{"), None);
}

#[test]
fn refused_commands_name_the_corrected_one() {
    let mut p = Pipeline::new("cargo build".to_string());
    p.run(&Vec::new(), &rust_project(), &NoneCompressor);
    match cursor_reply(&p) {
        CursorReply::Deny { user_message, agent_message } => {
            assert_eq!(
                user_message,
                "PRECC: cd:Cargo.toml (conf=0.9). Run instead: cd /p && cargo build"
            );
            assert_eq!(
                agent_message,
                "PRECC suggests the corrected command: `cd /p && cargo build`"
            );
        }
        CursorReply::Allow => unreachable!(),
    }
    assert_eq!(
        shell_notice(&p),
        "[PRECC: cd:Cargo.toml (conf=0.9)] rewrote: cd /p && cargo build"
    );
}

#[test]
fn shells_hand_in_their_commands() {
    let args = |list: &[&str]| list.iter().map(|s| s.to_string()).collect::<Vec<String>>();
    assert_eq!(shell_command(&args(&["-c", "ls", "x"])).as_deref(), Some("ls"));
    assert_eq!(shell_command(&args(&["-c"])), None);
    assert_eq!(shell_command(&args(&["-l", "-c", "ls"])), None);
    assert_eq!(shell_command(&args(&[])), None);
}

#[test]
fn emit_rewrite_produces_valid_json() {
    let mut p = Pipeline::new("git status".to_string());
    p.command = "rtk git status".to_string();
    p.reasons.push("rtk-rewrite".to_string());
    let s = rewrite_answer(r#"{"tool_input":{"command":"git status","timeout":5000}}"#, &p).unwrap();
    assert!(s.contains("rtk git status"));
    assert!(s.contains("PreToolUse"));
    assert_eq!(
        s,
        [
            r#"{"hookSpecificOutput":{"hookEventName":"PreToolUse","permissionDecision":"allow","#,
            r#""permissionDecisionReason":"PRECC: rtk-rewrite","#,
            r#""updatedInput":{"command":"rtk git status","timeout":5000}}}"#,
        ]
        .concat()
    );
}

#[test]
fn rewrites_are_answered_only_if_there_are_any() {
    let event = r#"{"tool_input":{"command":"ls","big":18446744073709551615,"x":[1.5]}}"#;
    let plain = Pipeline::new("ls".to_string());
    assert_eq!(rewrite_answer(event, &plain), None);
    let mut p = Pipeline::new("ls".to_string());
    p.command = "cd \"/a b\" && ls".to_string();
    assert_eq!(rewrite_answer("nonsense", &p), None);
    let answer = rewrite_answer(event, &p).unwrap();
    assert!(answer.contains(r#""big":18446744073709551615"#));
    assert!(answer.contains(r#""command":"cd \"/a b\" && ls""#));
    let events = extract_precc_events(&answer);
    assert!(events.is_empty());
    p.reasons.push("cd:go.mod (conf=0.9)".to_string());
    let answer = rewrite_answer(r#"{"other":1}"#, &p).unwrap();
    assert!(answer.contains(r#""updatedInput":{"command":"#));
    assert_eq!(extract_precc_events(&answer).len(), 1);
    let answer = rewrite_answer(r#"{"tool_input":[1]}"#, &p).unwrap();
    assert!(answer.contains(r#""updatedInput":[1]"#));
}

#[test]
fn answers_to_the_refusing_host() {
    assert_eq!(cursor_answer(&CursorReply::Allow), r#"{"permission":"allow"}"#);
    let deny = CursorReply::Deny { user_message: "u".to_string(), agent_message: "a".to_string() };
    assert_eq!(
        cursor_answer(&deny),
        r#"{"agent_message":"a","permission":"deny","user_message":"u"}"#
    );
}

#[test]
fn commands_are_wrapped_once() {
    for command in ["cargo build", "cd /p && cargo build", "cd /p && cd /q && make -j"] {
        let mut p = Pipeline::new(command.to_string());
        let rtk = RtkCompressor { available: true };
        p.stage_compressor(&rtk);
        assert!(p.modified());
        let once = p.command.clone();
        p.stage_compressor(&rtk);
        assert_eq!(p.command, once);
        assert_eq!(p.reasons.len(), 1);
    }
}
