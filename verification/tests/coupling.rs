//! `coupling`: distinct crate roots imported per file.
use rpi::coupling::Coupling;
use rpi::model::{Config, Context, CrateData, Inspection, Metric, Severity, SourceFile};
use rpi::syntax::{ItemKind, SyntaxFile, SyntaxNode, UseTree, Visibility};

fn uses(roots: &[&str]) -> SyntaxFile {
    let mut nodes = Vec::new();
    for r in roots {
        nodes.push(SyntaxNode::Item { kind: ItemKind::Use, vis: Visibility::Inherited });
        nodes.push(SyntaxNode::Use { tree: UseTree::Path(r.to_string()) });
    }
    SyntaxFile { nodes }
}

fn ctx_one_file(ast: SyntaxFile, warn: usize) -> Context {
    let krate = CrateData {
        name: "k".into(),
        manifest_path: "/w/k/Cargo.toml".into(),
        root_dir: "/w/k".into(),
        workspace_deps: Vec::new(),
        external_deps: Vec::new(),
        files: vec![SourceFile { path: "/w/k/src/lib.rs".into(), loc: 1, ast }],
    };
    Context {
        crates: vec![krate],
        config: Config { coupling_warn: warn, ..Default::default() },
        ..Default::default()
    }
}

#[test]
fn flags_file_over_threshold() {
    // use a::x; use b::y; use c::z;
    let f = Coupling.run(&ctx_one_file(uses(&["a", "b", "c"]), 2));
    assert_eq!(f.len(), 1);
    assert!(f[0].message.contains("3 distinct"));
}

#[test]
fn under_threshold_is_silent() {
    // use a::x; use b::y;
    let f = Coupling.run(&ctx_one_file(uses(&["a", "b"]), 5));
    assert!(f.is_empty());
}

#[test]
fn coupling_finding_in_full() {
    // use a::x; use a::y; use b::z; -- two distinct roots, threshold 1
    let f = Coupling.run(&ctx_one_file(uses(&["a", "a", "b"]), 1));
    assert_eq!(f.len(), 1);
    assert_eq!(f[0].inspection, "coupling");
    assert_eq!(f[0].severity, Severity::Warn);
    assert_eq!(f[0].message, "file imports 2 distinct crate roots (> 1 threshold)");
    assert_eq!(f[0].location.krate.as_deref(), Some("k"));
    assert_eq!(f[0].location.file.as_deref(), Some("/w/k/src/lib.rs"));
    assert_eq!(f[0].metric, Some(Metric { numerator: 2, denominator: 1, scale: 1 }));
}

#[test]
fn at_threshold_is_silent() {
    let f = Coupling.run(&ctx_one_file(uses(&["a", "b"]), 2));
    assert!(f.is_empty());
    assert_eq!(Coupling.name(), "coupling");
}
