//! Collection decisions: which files are read, how lines are counted, and
//! how a member crate's dependencies are split.
use rpi::collect::{
    collect_rs_files, crate_data, is_rust_source, line_count, skips_dir, workspace_info, Dependency,
};
use rpi::model::SourceFile;
use rpi::syntax::SyntaxFile;

const SAMPLE_LIB: &str = "//! Minimal fixture used by rpi-collect / rpi-inspections tests.\n\
\n\
pub mod math;\n\
\n\
/// A public function so `pub-surface` has something to count.\n\
pub fn greet(name: &str) -> String {\n\
    format!(\"hello, {name}\")\n\
}\n";

fn dep(name: &str, normal: bool) -> Dependency {
    Dependency { name: name.into(), normal }
}

#[test]
fn collects_fixture_crate_and_parses_sources() {
    // The sample fixture: one leaf crate with one source file.
    let members = vec!["sample".to_string()];
    let file = SourceFile {
        path: "/f/sample/src/lib.rs".into(),
        loc: line_count(SAMPLE_LIB),
        ast: SyntaxFile { nodes: vec![] },
    };
    let krate = crate_data(
        "sample".into(),
        "/f/sample/Cargo.toml".into(),
        "/f/sample".into(),
        &vec![],
        &members,
        vec![file],
    );
    let crates = vec![krate];
    let ws = workspace_info("/f/sample".into(), &crates);
    assert_eq!(ws.crates, vec!["sample".to_string()]);
    let krate = &crates[0];
    assert_eq!(krate.name, "sample");
    assert!(!krate.files.is_empty(), "expected parsed .rs files");
    assert!(krate.files.iter().all(|f| f.loc > 0), "every file should have a line count");
    // The fixture is a leaf crate: no intra-workspace deps.
    assert!(krate.workspace_deps.is_empty());
}

#[test]
fn skips_target_directory() {
    let found = ["src", "target", "tests", "targets", "Target"];
    let kept: Vec<&str> = found.iter().copied().filter(|d| !skips_dir(d)).collect();
    assert!(kept.iter().all(|d| *d != "target"), "target/ must be excluded");
    assert_eq!(kept, vec!["src", "tests", "targets", "Target"]);
}

#[test]
fn rust_sources_by_extension() {
    assert!(is_rust_source("lib.rs"));
    assert!(is_rust_source("a.rs"));
    assert!(!is_rust_source(".rs"));
    assert!(!is_rust_source("rs"));
    assert!(!is_rust_source("lib.rs.bak"));
    assert!(!is_rust_source("Cargo.toml"));
    assert!(!is_rust_source("librs"));
}

#[test]
fn line_count_matches_str_lines() {
    for text in ["", "a", "a\n", "a\nb", "a\nb\n", "\n\n", "x\r\ny", SAMPLE_LIB] {
        assert_eq!(line_count(text), text.lines().count(), "{text:?}");
    }
    assert_eq!(line_count(SAMPLE_LIB), 8);
}

#[test]
fn files_sorted_by_path_components() {
    let found = vec![
        "/c/src/foo.rs".to_string(),
        "/c/src/foo/bar.rs".to_string(),
        "/c/src/a.rs".to_string(),
        "/c/src/foo-x.rs".to_string(),
    ];
    assert_eq!(
        collect_rs_files(&found),
        vec!["/c/src/a.rs", "/c/src/foo/bar.rs", "/c/src/foo-x.rs", "/c/src/foo.rs"]
    );
}

#[test]
fn dependencies_split_into_workspace_and_external() {
    let members = vec!["core".to_string(), "util".to_string()];
    let deps = vec![
        dep("serde", true),
        dep("util", false),
        dep("tempfile", false),
        dep("core", true),
        dep("anyhow", true),
    ];
    let k = crate_data("app".into(), "/w/app/Cargo.toml".into(), "/w/app".into(), &deps, &members, vec![]);
    assert_eq!(k.workspace_deps, vec!["util", "core"]);
    assert_eq!(k.external_deps, vec!["serde", "anyhow"]);
    assert_eq!(k.manifest_path, "/w/app/Cargo.toml");
    let ws = workspace_info("/w".into(), &vec![k]);
    assert_eq!(ws.root, "/w");
    assert_eq!(ws.crates, vec!["app"]);
}
