use precc::db::data_dir;
use precc::embedded_skills::{
    find_skills_dir, materialize, skills_home, BUILTIN_COUNT, BUILTIN_SKILLS,
};
use precc::json::{Json, JsonNumber, Member};
use precc::metrics::{cached_measurement, import_savings_log, savings_row, MetricType};

const SAVINGS_FIXTURE: &str = "{\"cmd_class\":\"cargo build\",\"rewrite_type\":\"rtk\",\"compression_mode\":\"rtk\",\"probe_kind\":\"live\",\"session_id\":\"s1\",\"original_output_tokens\":1000,\"actual_output_tokens\":700,\"savings_tokens\":300,\"savings_pct\":30.0,\"measurement_method\":\"ground_truth\"}\n{\"cmd_class\":\"git status\",\"rewrite_type\":\"diet\",\"compression_mode\":\"diet\",\"probe_kind\":\"live\",\"session_id\":\"s1\",\"original_output_tokens\":500,\"actual_output_tokens\":400,\"savings_tokens\":100,\"savings_pct\":20.0,\"measurement_method\":\"estimate\"}\n";

#[test]
fn data_dir_uses_home() {
    assert_eq!(data_dir(Some("/home/u")).as_deref(), Some("/home/u/.local/share/precc"));
    assert_eq!(data_dir(None), None);
}

#[test]
fn metrics_have_names() {
    assert_eq!(MetricType::HookLatency.as_str(), "hook_latency");
    assert_eq!(MetricType::SkillActivation.as_str(), "skill_activation");
    assert_eq!(MetricType::CdPrepend.as_str(), "cd_prepend");
    assert_eq!(MetricType::GdbSuggestion.as_str(), "gdb_suggestion");
    assert_eq!(MetricType::CompressorWrap.as_str(), "compressor_wrap");
    assert_eq!(MetricType::MinerTick.as_str(), "miner_tick");
}

#[test]
fn savings_log_is_imported() {
    let rows = import_savings_log(SAVINGS_FIXTURE);
    assert_eq!(rows.len(), 2);
    let total = |f: fn(&precc::metrics::SavingsRow) -> i64| rows.iter().map(f).sum::<i64>();
    assert_eq!(total(|r| r.original_output_tokens), 1500);
    assert_eq!(total(|r| r.actual_output_tokens), 1100);
    assert_eq!(total(|r| r.savings_tokens), 400);
    assert_eq!(rows.iter().filter(|r| r.measurement_method == "ground_truth").count(), 1);
    assert_eq!(f64::from_bits(rows[0].savings_pct_bits), 30.0);
    assert_eq!(rows[1].rewrite_type, "diet");
    assert_eq!(rows[1].compression_mode, "diet");
}

#[test]
fn savings_log_lines_may_be_incomplete() {
    assert!(import_savings_log("").is_empty());
    let rows = import_savings_log("\n  \nnot json\n{}\n[1]\n{\"savings_tokens\":1.5,\"savings_pct\":7}\n");
    assert_eq!(rows.len(), 3);
    assert_eq!(rows[0].cmd_class, "");
    assert_eq!(rows[0].compression_mode, "basic");
    assert_eq!(rows[0].probe_kind, "live");
    assert_eq!(rows[0].savings_pct_bits, 0);
    assert_eq!(rows[2].savings_tokens, 0);
    assert_eq!(f64::from_bits(rows[2].savings_pct_bits), 7.0);
}

#[test]
fn savings_rows_from_values() {
    let row = savings_row(&Json::Object(vec![
        Member { key: "session_id".to_string(), value: Json::Text("s9".to_string()) },
        Member {
            key: "savings_tokens".to_string(),
            value: Json::Number(JsonNumber { integer: Some(-4), bits: None }),
        },
        Member { key: "savings_pct".to_string(), value: Json::Bool(true) },
    ]));
    assert_eq!(row.session_id, "s9");
    assert_eq!(row.savings_tokens, -4);
    assert_eq!(row.savings_pct_bits, 0);
}

#[test]
fn fresh_measurements_are_reused() {
    assert_eq!(cached_measurement(Some((1000, 0)), 3600), Some((1000, 0)));
    assert_eq!(cached_measurement(Some((1000, 3600)), 3600), Some((1000, 3600)));
    assert_eq!(cached_measurement(Some((1000, 0)), -1), None);
    assert_eq!(cached_measurement(None, 3600), None);
}

#[test]
fn we_have_at_least_twelve_skills() {
    assert!(BUILTIN_SKILLS.len() >= 12, "expected ≥12 builtin skills");
    assert_eq!(BUILTIN_SKILLS.len(), BUILTIN_COUNT);
}

#[test]
fn missing_skill_files_are_written_once() {
    let written = materialize(&vec![false; BUILTIN_COUNT]);
    assert_eq!(written.len(), BUILTIN_SKILLS.len());
    let written2 = materialize(&vec![true; BUILTIN_COUNT]);
    assert_eq!(written2.len(), 0);
    assert_eq!(materialize(&vec![true, false, true, false]), vec![1, 3]);
}

#[test]
fn skills_are_looked_for_near_the_program() {
    assert_eq!(
        find_skills_dir(Some("/a/b/c/d/e/f/precc"), Some("/h")),
        vec![
            "/a/b/c/d/e/f/skills/builtin",
            "/a/b/c/d/e/skills/builtin",
            "/a/b/c/d/skills/builtin",
            "/a/b/c/skills/builtin",
            "/a/b/skills/builtin",
            "/h/.local/share/precc/skills/builtin",
        ]
    );
    assert_eq!(
        find_skills_dir(Some("/a/precc"), Some("/h")),
        vec!["/a/skills/builtin", "/skills/builtin", "/h/.local/share/precc/skills/builtin"]
    );
    assert_eq!(
        find_skills_dir(Some("/home/u/.cargo/bin/precc"), Some("/home/u")).last().unwrap(),
        "/home/u/.local/share/precc/skills/builtin"
    );
    assert_eq!(
        skills_home(None, Some("/h")).as_deref(),
        Some("/h/.local/share/precc/skills/builtin")
    );
    assert_eq!(skills_home(Some("/x"), Some("/h")).as_deref(), Some("/x/precc/skills/builtin"));
    assert_eq!(skills_home(None, None), None);
    assert_eq!(find_skills_dir(None, Some("/h")), vec!["/h/.local/share/precc/skills/builtin"]);
    assert!(find_skills_dir(None, None).is_empty());
}
