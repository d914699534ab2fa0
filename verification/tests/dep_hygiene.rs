//! `dep-hygiene`: unused declared dependencies and duplicate versions.
use rpi::dep_hygiene::{normalize, DepHygiene};
use rpi::model::{Context, CrateData, Inspection, Metric, Severity, SourceFile};
use rpi::syntax::{BodySpan, FnKind, ItemKind, SyntaxFile, SyntaxNode, UseTree, Visibility};

/// `use {root}::...; fn f() {}`
fn use_then_fn(root: &str) -> SyntaxFile {
    SyntaxFile {
        nodes: vec![
            SyntaxNode::Item { kind: ItemKind::Use, vis: Visibility::Inherited },
            SyntaxNode::Use { tree: UseTree::Path(root.to_string()) },
            SyntaxNode::Item { kind: ItemKind::Fn, vis: Visibility::Inherited },
            SyntaxNode::Fn {
                kind: FnKind::Free,
                name: "f".into(),
                is_unsafe: false,
                body: Some(BodySpan { skip: 0, len: 0 }),
            },
        ],
    }
}

fn krate(name: &str, deps: &[&str], ast: SyntaxFile) -> CrateData {
    CrateData {
        name: name.to_string(),
        manifest_path: format!("/w/{name}/Cargo.toml"),
        root_dir: format!("/w/{name}"),
        workspace_deps: Vec::new(),
        external_deps: deps.iter().map(|s| s.to_string()).collect(),
        files: vec![SourceFile { path: format!("/w/{name}/src/lib.rs"), loc: 1, ast }],
    }
}

fn ctx(crates: Vec<CrateData>, resolved: &[(&str, &str)]) -> Context {
    Context {
        crates,
        resolved_versions: resolved.iter().map(|(n, v)| (n.to_string(), v.to_string())).collect(),
        ..Default::default()
    }
}

#[test]
fn flags_unused_but_not_used_dep() {
    // use serde::Serialize; fn f() {}
    let k = krate("k", &["serde", "unused_dep"], use_then_fn("serde"));
    let f = DepHygiene.run(&ctx(vec![k], &[]));
    let msgs: Vec<_> = f.iter().map(|x| x.message.as_str()).collect();
    assert!(msgs.iter().any(|m| m.contains("`unused_dep`")));
    assert!(!msgs.iter().any(|m| m.contains("`serde`")));
}

#[test]
fn normalizes_hyphenated_dep_names() {
    // use foo_bar::baz; fn f() {}
    let k = krate("k", &["foo-bar"], use_then_fn("foo_bar"));
    let f = DepHygiene.run(&ctx(vec![k], &[]));
    assert!(!f.iter().any(|x| x.message.contains("foo-bar")));
}

#[test]
fn flags_duplicate_versions() {
    let f = DepHygiene.run(&ctx(vec![], &[("dup", "1.0.0"), ("dup", "2.0.0"), ("solo", "1.0.0")]));
    let dup: Vec<_> = f.iter().filter(|x| x.message.contains("`dup`")).collect();
    assert_eq!(dup.len(), 1);
    assert!(dup[0].message.contains("2 versions"));
}

#[test]
fn normalize_replaces_every_hyphen() {
    assert_eq!(normalize("a-b-c"), "a_b_c");
    assert_eq!(normalize("plain"), "plain");
    assert_eq!(normalize(""), "");
}

#[test]
fn unused_finding_in_full() {
    let k = krate("k", &["serde", "unused-dep"], use_then_fn("serde"));
    let f = DepHygiene.run(&ctx(vec![k], &[]));
    assert_eq!(f.len(), 1);
    assert_eq!(f[0].inspection, "dep-hygiene");
    assert_eq!(f[0].severity, Severity::Warn);
    assert_eq!(f[0].message, "declared dependency `unused-dep` appears unused (approx.)");
    assert_eq!(f[0].location.krate.as_deref(), Some("k"));
    assert!(f[0].location.file.is_none());
    assert!(f[0].metric.is_none());
}

#[test]
fn duplicate_versions_are_sorted_and_counted_once() {
    let f = DepHygiene.run(&ctx(
        vec![],
        &[("z", "2.0.0"), ("a", "1.0.0"), ("z", "1.0.0"), ("z", "2.0.0"), ("a", "1.0.0")],
    ));
    assert_eq!(f.len(), 1);
    assert_eq!(f[0].message, "crate `z` resolved to 2 versions: 1.0.0, 2.0.0");
    assert_eq!(f[0].metric, Some(Metric { numerator: 2, denominator: 1, scale: 1 }));
    assert!(f[0].location.krate.is_none());
}

#[test]
fn duplicate_version_findings_follow_name_order() {
    let f = DepHygiene.run(&ctx(
        vec![],
        &[("b", "1"), ("a", "1"), ("b", "2"), ("a", "2"), ("a", "3")],
    ));
    let msgs: Vec<_> = f.iter().map(|x| x.message.as_str()).collect();
    assert_eq!(
        msgs,
        vec!["crate `a` resolved to 3 versions: 1, 2, 3", "crate `b` resolved to 2 versions: 1, 2"]
    );
}
