use precc::paths::{
    has_extension, is_same_path, path_components, path_join, path_name, path_parent, path_stem,
};
use std::path::Path;

const PATHS: [&str; 27] = [
    "", "/", "//", ".", "..", "/.", "/..", "./", "a", "a/", "a/b", "/a", "/a/", "/a/b", "/a//b",
    "/a/./b", "/a/b/.", "./a", "a/..", "a/../b", "/home/u/.agent/x.jsonl", ".jsonl", "x.tar.gz",
    "/a/b//", "a/.", "/a/b/../c", "b.",
];

#[test]
fn parents_are_those_of_std() {
    for p in PATHS {
        let theirs = Path::new(p).parent().map(|q| q.to_str().unwrap().to_string());
        assert_eq!(path_parent(p), theirs, "{:?}", p);
    }
}

#[test]
fn names_are_those_of_std() {
    for p in PATHS {
        let path = Path::new(p);
        let name = path.file_name().map(|n| n.to_str().unwrap().to_string());
        let stem = path.file_stem().map(|n| n.to_str().unwrap().to_string());
        let above = path
            .parent()
            .and_then(|q| q.file_name())
            .map(|n| n.to_str().unwrap().to_string());
        assert_eq!(path_name(p, 0), name, "{:?}", p);
        assert_eq!(path_stem(p), stem, "{:?}", p);
        assert_eq!(path_name(p, 1), above, "{:?}", p);
        let jsonl = path.extension().and_then(|e| e.to_str()) == Some("jsonl");
        assert_eq!(has_extension(p, "jsonl"), jsonl, "{:?}", p);
    }
}

#[test]
fn joins_are_those_of_std() {
    for p in PATHS {
        for rel in ["x/y", "x", "", "/x"] {
            let theirs = Path::new(p).join(rel);
            assert_eq!(path_join(p, rel), theirs.to_str().unwrap(), "{:?} {:?}", p, rel);
        }
    }
}

#[test]
fn equality_is_that_of_std() {
    for p in PATHS {
        for q in PATHS {
            assert_eq!(is_same_path(p, q), Path::new(p) == Path::new(q), "{:?} {:?}", p, q);
        }
    }
}

#[test]
fn components_name_something() {
    assert_eq!(path_components("/a/./b//../c"), vec!["a", "b", "..", "c"]);
}
