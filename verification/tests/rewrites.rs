use precc::compressors::{
    active, configured_name, resolve, rtk_probes, Backend, Compressor, NoneCompressor,
    RtkCompressor,
};
use precc::rewrites::{
    match_rule, matches_prefix, rewrite, strip_cd_prefix, tokens_saved, RULES, RULE_COUNT,
};

#[test]
fn match_rule_basic() {
    assert!(match_rule("git status").is_some());
    assert!(match_rule("git status --short").is_some());
    assert!(match_rule("python script.py").is_none());
}

#[test]
fn match_rule_no_partial() {
    assert!(match_rule("lsof").is_none());
}

#[test]
fn match_rule_with_cd_prefix() {
    let r = match_rule("cd /foo && cargo build").unwrap();
    assert_eq!(r.from, "cargo build");
}

#[test]
fn tokens_saved_known() {
    assert_eq!(tokens_saved("cargo build"), 420);
    assert_eq!(tokens_saved("git status"), 160);
    assert_eq!(tokens_saved("cd /foo && make"), 400);
}

#[test]
fn tokens_saved_unknown() {
    assert_eq!(tokens_saved("python script.py"), 0);
}

#[test]
fn none_compressor_is_noop() {
    assert_eq!(rewrite("cargo build", &NoneCompressor), None);
}

#[test]
fn prefixes_end_at_a_word() {
    assert!(matches_prefix("ls", "ls"));
    assert!(matches_prefix("ls -l", "ls"));
    assert!(matches_prefix("ls\t-l", "ls"));
    assert!(matches_prefix("ls\n", "ls"));
    assert!(!matches_prefix("ls\r", "ls"));
    assert!(!matches_prefix("lsof", "ls"));
    assert!(!matches_prefix("l", "ls"));
    assert_eq!(strip_cd_prefix("cd /foo && make"), "make");
    assert_eq!(strip_cd_prefix("make && cd /foo"), "make && cd /foo");
}

#[test]
fn rtk_wraps_known_commands_once() {
    let rtk = RtkCompressor { available: true };
    assert_eq!(rewrite("cargo build --release", &rtk).unwrap(), "rtk cargo build --release");
    assert_eq!(rewrite("cd /p && git log -3", &rtk).unwrap(), "cd /p && rtk git log -3");
    assert_eq!(rewrite("rtk cargo build", &rtk), None);
    assert_eq!(rewrite("/usr/bin/rtk cargo build", &rtk), None);
    assert_eq!(rewrite("cat <<EOF", &rtk), None);
    assert_eq!(rewrite("echo hi", &rtk), None);
    assert_eq!(rewrite("ls", &rtk).unwrap(), "rtk ls");
    assert_eq!(rewrite("ls  -l", &rtk).unwrap(), "rtk ls  -l");
    assert_eq!(rewrite("ls\t-l", &rtk).unwrap(), "rtk ls \t-l");
    assert_eq!(rewrite("cd /a && make\nls", &rtk).unwrap(), "cd /a && rtk make \nls");
    assert_eq!(tokens_saved("make\tall"), 400);
    for command in ["cargo build", "make all", "cd /x && npx tsc --watch"] {
        let once = rewrite(command, &rtk).unwrap();
        assert_eq!(rewrite(&once, &rtk), None);
    }
}

#[test]
fn absent_rtk_wraps_nothing() {
    let rtk = RtkCompressor { available: false };
    assert_eq!(rewrite("cargo build", &rtk), None);
    assert!(!rtk.is_available());
}

#[test]
fn every_rule_matches_its_own_prefix() {
    assert_eq!(RULES.len(), RULE_COUNT);
    for rule in RULES {
        assert_eq!(match_rule(rule.0).unwrap().from, rule.0);
    }
}

#[test]
fn compressors_are_picked_by_name() {
    assert_eq!(resolve("rtk", true).name(), "rtk");
    assert_eq!(resolve("none", true).name(), "none");
    assert!(resolve("zip", true).is_noop());
    assert!(resolve("rtk", true).is_available());
    assert!(!resolve("rtk", false).is_available());
    assert!(matches!(resolve("rtk", false), Backend::Rtk(_)));
    assert_eq!(NoneCompressor.wrap("git log", " -3"), "git log -3");
    assert!(!NoneCompressor.is_already_wrapped("rtk ls"));
}

#[test]
fn config_selects_the_compressor() {
    assert_eq!(configured_name("# x\n  compressor = \"rtk\" # y\n").unwrap(), "rtk");
    assert_eq!(configured_name("compressor=\"none\"").unwrap(), "none");
    assert_eq!(configured_name("compressor = rtk\ncompressor = \"rtk\""), None);
    assert_eq!(configured_name("compressor = \"rtk"), None);
    assert_eq!(configured_name(""), None);
    assert_eq!(active(Some("compressor = \"rtk\""), true).name(), "rtk");
    assert_eq!(active(Some("other = 1"), true).name(), "none");
    assert_eq!(active(None, true).name(), "none");
}

#[test]
fn rtk_is_looked_for_in_order() {
    let probes = rtk_probes(Some("/h"), Some(" /opt/rtk\n"), Some("/a:/b/"));
    let places: Vec<(String, bool)> =
        probes.into_iter().map(|p| (p.path, p.remember)).collect();
    assert_eq!(
        places,
        vec![
            ("/opt/rtk".to_string(), false),
            ("/h/.cargo/bin/rtk".to_string(), true),
            ("/usr/local/bin/rtk".to_string(), true),
            ("/usr/bin/rtk".to_string(), true),
            ("/a/rtk".to_string(), true),
            ("/b/rtk".to_string(), true),
        ]
    );
    let bare = rtk_probes(None, Some("/opt/rtk"), Some("/a"));
    assert_eq!(bare.len(), 1);
    assert_eq!(bare[0].path, "/a/rtk");
    assert!(!bare[0].remember);
    assert!(rtk_probes(None, None, None).is_empty());
}
