use precc::gdb::{
    check_opportunity, extract_binary_hint, find_in_path, gdb_args, gdb_available,
    generate_gdbinit, is_debuggable,
};

#[test]
fn cargo_test_is_debuggable() {
    assert!(is_debuggable("cargo test"));
    assert!(is_debuggable("cargo test my_test"));
    assert!(is_debuggable("cargo run -- --flag"));
}

#[test]
fn binary_is_debuggable() {
    assert!(is_debuggable("./target/debug/myapp"));
    assert!(is_debuggable("target/release/myapp --arg"));
    assert!(is_debuggable("./myapp"));
}

#[test]
fn non_debuggable_commands() {
    assert!(!is_debuggable("cargo build"));
    assert!(!is_debuggable("git status"));
    assert!(!is_debuggable("echo hello"));
    assert!(!is_debuggable("ls -la"));
}

#[test]
fn no_suggestion_below_threshold() {
    assert_eq!(check_opportunity("cargo test", 0), None);
    assert_eq!(check_opportunity("cargo test", 1), None);
}

#[test]
fn suggests_at_threshold() {
    let suggestion = check_opportunity("cargo test", 2);
    assert!(suggestion.is_some());
    assert!(suggestion.unwrap().contains("precc debug"));
}

#[test]
fn no_suggestion_for_non_debuggable() {
    assert_eq!(check_opportunity("cargo build", 5), None);
    assert_eq!(check_opportunity("git status", 10), None);
}

#[test]
fn debuggable_at_the_edges() {
    assert!(is_debuggable("cargo  run"));
    assert!(!is_debuggable("cargo"));
    assert!(!is_debuggable(""));
    assert!(is_debuggable("./_x"));
    assert!(is_debuggable("./é"));
    assert!(!is_debuggable("./.x"));
    assert!(!is_debuggable("./"));
    assert!(is_debuggable("node --inspect-brk x.js"));
    assert!(is_debuggable("./target/release/x"));
}

#[test]
fn suggestions_say_what_to_debug() {
    assert_eq!(
        check_opportunity("cargo test x", 2).unwrap(),
        "This command has failed 2 times. Consider: precc debug target/debug/<test-binary>"
    );
    assert_eq!(
        check_opportunity("cargo run", 10).unwrap(),
        "This command has failed 10 times. Consider: precc debug target/debug/<binary>"
    );
    assert_eq!(
        check_opportunity("./app -v", 3).unwrap(),
        "This binary has failed 3 times. Consider: precc debug ./app -v"
    );
    assert_eq!(extract_binary_hint("./app"), "./app");
}

#[test]
fn gdb_is_looked_for_on_the_path() {
    assert_eq!(find_in_path("gdb", Some("/a::/b/")), vec!["/a/gdb", "gdb", "/b/gdb"]);
    assert!(find_in_path("gdb", None).is_empty());
    assert!(gdb_available(&vec![false, true, false]));
    assert!(!gdb_available(&vec![false]));
    assert!(!gdb_available(&Vec::new()));
}

#[test]
fn scripts_fit_the_language() {
    let rust = generate_gdbinit("target/debug/x", false);
    assert!(rust.starts_with("# Generated by precc debug\nset pagination off\n"));
    assert!(rust.contains("break rust_panic\n"));
    assert!(rust.ends_with("end\n\nrun\n"));
    assert_eq!(generate_gdbinit("x", true), rust);
    let c = generate_gdbinit("x", false);
    assert!(c.contains("break abort\nbreak exit\n\n# Show backtrace"));
    assert!(!c.contains("rust"));
    assert_eq!(
        gdb_args("/w/.gdbinit", "./x", &vec!["-v".to_string()]),
        vec!["-x", "/w/.gdbinit", "--args", "./x", "-v"]
    );
}
