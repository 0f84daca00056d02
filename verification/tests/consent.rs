use precc::consent::{
    chrono_lite_now, config_dir, consent_path, has_explicit_consent, is_counterfactual_enabled,
    is_telemetry_enabled, save, save_counterfactual, ConsentConfig, CounterfactualConsent,
    TelemetryConsent, UiConfig, CONSENT_VERSION,
};
use precc::telemetry::{CapabilitySnapshot, ClassStratumTelemetry};

/// Reads a consent file the way the program does: missing sections and fields
/// of the optional parts take their defaults.
fn config(text: &str) -> ConsentConfig {
    let v: toml::Value = toml::from_str(text).unwrap();
    let part = |name: &str| v.get(name).cloned().unwrap_or(toml::Value::Table(toml::Table::new()));
    let flag = |t: &toml::Value| t.get("enabled").and_then(|e| e.as_bool()).unwrap_or(false);
    let at = |t: &toml::Value| {
        t.get("consented_at").and_then(|e| e.as_str()).unwrap_or("").to_string()
    };
    let version =
        |t: &toml::Value| t.get("consent_version").and_then(|e| e.as_integer()).unwrap_or(0) as u32;
    let t = part("telemetry");
    let c = part("counterfactual");
    ConsentConfig {
        telemetry: TelemetryConsent {
            enabled: flag(&t),
            consented_at: at(&t),
            consent_version: version(&t),
        },
        counterfactual: CounterfactualConsent {
            enabled: flag(&c),
            consented_at: at(&c),
            consent_version: version(&c),
        },
        ui: UiConfig {
            preferred_language: part("ui")
                .get("preferred_language")
                .and_then(|l| l.as_str())
                .unwrap_or("")
                .to_string(),
        },
    }
}

fn telemetry(enabled: bool, version: u32) -> ConsentConfig {
    ConsentConfig {
        telemetry: TelemetryConsent {
            enabled,
            consented_at: "0Z".to_string(),
            consent_version: version,
        },
        counterfactual: CounterfactualConsent::default(),
        ui: UiConfig::default(),
    }
}

#[test]
fn missing_file_returns_none() {
    let result: Option<ConsentConfig> = None;
    assert!(result.is_none());
    assert!(!has_explicit_consent(false, result.as_ref()));
}

#[test]
fn default_on_when_no_consent_file() {
    let enabled = is_telemetry_enabled(false, None);
    assert!(enabled, "missing consent.toml must default to enabled");
}

#[test]
fn explicit_opt_out_is_respected() {
    let cfg = telemetry(false, CONSENT_VERSION);
    let enabled = is_telemetry_enabled(false, Some(&cfg));
    assert!(!enabled, "explicit enabled=false must override default-on");
}

#[test]
fn counterfactual_default_off_when_section_missing() {
    let toml_str = r#"
[telemetry]
enabled = true
consented_at = "0Z"
consent_version = 1
"#;
    let cfg = config(toml_str);
    assert!(cfg.telemetry.enabled);
    assert!(!cfg.counterfactual.enabled);
    assert!(!is_counterfactual_enabled(false, false, Some(&cfg)));
}

#[test]
fn saved_counterfactual_keeps_other_sections() {
    let seed = config(
        r#"
[telemetry]
enabled = false
consented_at = "111Z"
consent_version = 1

[ui]
preferred_language = "ja"
"#,
    );
    let saved = save_counterfactual(true, 5, Some(&seed));
    assert!(saved.counterfactual.enabled);
    assert_eq!(saved.counterfactual.consent_version, CONSENT_VERSION);
    assert_eq!(saved.counterfactual.consented_at, "5Z");
    assert!(!saved.telemetry.enabled, "telemetry section must be preserved verbatim");
    assert_eq!(saved.telemetry.consented_at, "111Z");
    assert_eq!(saved.ui.preferred_language, "ja");
    assert!(is_counterfactual_enabled(false, false, Some(&saved)));

    let off = save_counterfactual(false, 6, Some(&saved));
    assert!(!off.counterfactual.enabled);
    assert!(!off.telemetry.enabled);
    assert_eq!(off.ui.preferred_language, "ja");
}

#[test]
fn version_bump_invalidates_counterfactual_opt_in() {
    let cfg = config(
        r#"
[telemetry]
enabled = true
consented_at = "0Z"
consent_version = 1

[counterfactual]
enabled = true
consented_at = "0Z"
consent_version = 0
"#,
    );
    let counts_as_enabled = is_counterfactual_enabled(false, false, Some(&cfg));
    assert!(!counts_as_enabled, "stale consent_version must not gate emission on");
}

#[test]
fn kill_switches_win() {
    let cfg = save_counterfactual(true, 1, Some(&save(true, 1, None)));
    assert!(is_telemetry_enabled(false, Some(&cfg)));
    assert!(has_explicit_consent(false, Some(&cfg)));
    assert!(is_counterfactual_enabled(false, false, Some(&cfg)));
    assert!(!is_telemetry_enabled(true, Some(&cfg)));
    assert!(!is_telemetry_enabled(true, None));
    assert!(!has_explicit_consent(true, Some(&cfg)));
    assert!(!is_counterfactual_enabled(true, false, Some(&cfg)));
    assert!(!is_counterfactual_enabled(false, true, Some(&cfg)));
}

#[test]
fn opt_outs_outlive_their_version() {
    for version in [0, CONSENT_VERSION, CONSENT_VERSION + 1] {
        assert!(!is_telemetry_enabled(false, Some(&telemetry(false, version))));
        assert!(is_telemetry_enabled(false, Some(&telemetry(true, version))));
    }
    assert!(has_explicit_consent(false, Some(&telemetry(true, CONSENT_VERSION))));
    assert!(!has_explicit_consent(false, Some(&telemetry(true, CONSENT_VERSION + 1))));
}

#[test]
fn saving_without_a_file_takes_the_defaults() {
    let off = save(false, 17, None);
    assert!(!is_telemetry_enabled(false, Some(&off)));
    assert_eq!(off.telemetry.consented_at, "17Z");
    assert!(!off.counterfactual.enabled);
    assert_eq!(off.ui.preferred_language, "");
    let cf = save_counterfactual(true, 17, None);
    assert!(cf.telemetry.enabled);
    assert_eq!(cf.telemetry.consented_at, "17Z");
    let kept = save(false, 20, Some(&cf.clone()));
    assert!(kept.counterfactual.enabled);
    assert_eq!(kept.counterfactual.consented_at, "17Z");
}

#[test]
fn config_directories_in_order() {
    assert_eq!(config_dir(Some("/c"), Some("/d"), Some("/h")).as_deref(), Some("/c"));
    assert_eq!(config_dir(None, Some("/d"), Some("/h")).as_deref(), Some("/d/precc"));
    assert_eq!(config_dir(None, None, Some("/h")).as_deref(), Some("/h/.config/precc"));
    assert_eq!(config_dir(None, None, None), None);
    assert_eq!(consent_path("/h/.config/precc"), "/h/.config/precc/consent.toml");
    assert_eq!(chrono_lite_now(0), "0Z");
}

#[test]
fn telemetry_defaults_are_empty() {
    let c = CapabilitySnapshot::default();
    assert!(!c.rtk_available && !c.diet_enabled && !c.counterfactual_enabled);
    let s = ClassStratumTelemetry::default();
    assert_eq!((s.cmd_class.as_str(), s.population_count, s.measured_count), ("", 0, 0));
    assert_eq!(s.measured_savings_total, 0);
}
