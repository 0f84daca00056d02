use precc::context::{
    apply, detect_marker, most_recently_modified, resolve, search_dirs, search_upward,
    tenths_text, ContextResult, Mark, Workspace, TOOL_COUNT, TOOL_MARKERS,
};

fn mark(dir: &str, marker: &str, modified: Option<i128>) -> Mark {
    Mark { dir: dir.to_string(), marker: marker.to_string(), modified }
}

fn workspace(cwd: Option<&str>, home: Option<&str>, marks: Vec<Mark>) -> Workspace {
    Workspace { cwd: cwd.map(|s| s.to_string()), home: home.map(|s| s.to_string()), marks }
}

#[test]
fn detect_cargo_marker() {
    assert_eq!(detect_marker("cargo build --release"), Some("Cargo.toml"));
    assert_eq!(detect_marker("cargo test foo"), Some("Cargo.toml"));
}

#[test]
fn detect_npm_marker() {
    assert_eq!(detect_marker("npm install"), Some("package.json"));
    assert_eq!(detect_marker("pnpm test"), Some("package.json"));
    assert_eq!(detect_marker("npx tsc"), Some("package.json"));
}

#[test]
fn detect_make_marker() {
    assert_eq!(detect_marker("make all"), Some("Makefile"));
    assert_eq!(detect_marker("make"), Some("Makefile"));
}

#[test]
fn detect_go_marker() {
    assert_eq!(detect_marker("go build ./..."), Some("go.mod"));
    assert_eq!(detect_marker("go test -v"), Some("go.mod"));
}

#[test]
fn detect_no_marker() {
    assert_eq!(detect_marker("echo hello"), None);
    assert_eq!(detect_marker("ls -la"), None);
    assert_eq!(detect_marker("git status"), None);
}

#[test]
fn every_tool_has_its_marker() {
    assert_eq!(TOOL_MARKERS.len(), TOOL_COUNT);
    for (tool, marker) in TOOL_MARKERS {
        assert_eq!(detect_marker(tool), Some(marker));
    }
    assert_eq!(detect_marker(""), None);
}

#[test]
fn cwd_has_marker_no_change() {
    let result = resolve("echo hello", &workspace(Some("/p"), None, Vec::new()));
    assert!(result.project_root.is_none());
    assert_eq!(result.confidence, 0);
}

#[test]
fn marker_in_the_working_directory_settles_it() {
    let ws = workspace(
        Some("/p/a"),
        None,
        vec![mark("/p", "Cargo.toml", Some(1)), mark("/p/a", "Cargo.toml", Some(2))],
    );
    let result = resolve("cargo build", &ws);
    assert_eq!(result.project_root, None);
    assert_eq!(result.marker.as_deref(), Some("Cargo.toml"));
    assert_eq!(result.confidence, 10);
}

#[test]
fn single_root_above_is_taken() {
    let ws = workspace(
        Some("/p/a/b"),
        None,
        vec![mark("/p", "Cargo.toml", None), mark("/p/a", "Makefile", Some(2))],
    );
    let result = resolve("cargo build", &ws);
    assert_eq!(result.project_root.as_deref(), Some("/p"));
    assert_eq!(result.confidence, 9);
    let result = resolve("npm test", &ws);
    assert_eq!(result.project_root, None);
    assert_eq!(result.marker.as_deref(), Some("package.json"));
    assert_eq!(result.confidence, 0);
}

#[test]
fn newest_of_several_roots_is_taken() {
    let ws = workspace(
        Some("/p/a/b"),
        None,
        vec![mark("/p/a", "go.mod", Some(5)), mark("/p", "go.mod", Some(7)), mark("/", "go.mod", None)],
    );
    let result = resolve("go build", &ws);
    assert_eq!(result.project_root.as_deref(), Some("/p"));
    assert_eq!(result.confidence, 7);
    let dirs = vec!["/p/a".to_string(), "/x".to_string()];
    assert_eq!(most_recently_modified(&ws, &dirs, "go.mod"), "/p/a");
    let even = workspace(None, None, vec![mark("/a", "m", Some(1)), mark("/b", "m", Some(1))]);
    let dirs = vec!["/a".to_string(), "/b".to_string()];
    assert_eq!(most_recently_modified(&even, &dirs, "m"), "/a");
    let unknown = workspace(None, None, Vec::new());
    assert_eq!(most_recently_modified(&unknown, &dirs, "m"), "/a");
    let known = workspace(None, None, vec![mark("/a", "m", None), mark("/b", "m", Some(1))]);
    assert_eq!(most_recently_modified(&known, &dirs, "m"), "/b");
    let level = workspace(
        Some("/p/a/b"),
        None,
        vec![mark("/p/a", "go.mod", Some(5)), mark("/p", "go.mod", Some(5))],
    );
    assert_eq!(resolve("go build", &level).project_root.as_deref(), Some("/p/a"));
}

#[test]
fn unknown_working_directory_resolves_nothing() {
    let result = resolve("cargo build", &workspace(None, None, Vec::new()));
    assert_eq!(result.project_root, None);
    assert_eq!(result.marker.as_deref(), Some("Cargo.toml"));
    assert_eq!(result.confidence, 0);
}

#[test]
fn search_stops_at_home() {
    assert_eq!(search_dirs("/h/u/p/q", None), vec!["/h/u/p", "/h/u", "/h", "/"]);
    assert_eq!(search_dirs("/h/u/p/q", Some("/h/u/")), vec!["/h/u/p", "/h/u"]);
    assert_eq!(search_dirs("/h/u", Some("/h/u")), vec!["/h", "/"]);
    assert!(search_dirs("/", None).is_empty());
    let ws = workspace(
        Some("/h/u/p"),
        Some("/h/u"),
        vec![mark("/h/u", "Makefile", None), mark("/h", "Makefile", None)],
    );
    assert_eq!(search_upward(&ws, "/h/u/p", "Makefile"), vec!["/h/u"]);
}

#[test]
fn apply_prepends_cd() {
    let ctx = ContextResult {
        project_root: Some("/home/user/myapp".to_string()),
        marker: Some("Cargo.toml".to_string()),
        confidence: 9,
    };
    assert_eq!(
        apply("cargo build", &ctx),
        Some("cd /home/user/myapp && cargo build".to_string())
    );
}

#[test]
fn apply_no_change_when_no_root() {
    let ctx = ContextResult {
        project_root: None,
        marker: Some("Cargo.toml".to_string()),
        confidence: 10,
    };
    assert_eq!(apply("cargo build", &ctx), None);
}

#[test]
fn tenths_have_one_decimal() {
    assert_eq!(tenths_text(9), format!("{:.1}", 0.9));
    assert_eq!(tenths_text(7), "0.7");
    assert_eq!(tenths_text(10), "1.0");
    assert_eq!(tenths_text(0), "0.0");
}
