//! `churn-hotspot`: files both frequently changed and complex.
use rpi::churn_hotspot::ChurnHotspot;
use rpi::model::{Config, Context, CrateData, Inspection, Metric, SourceFile};
use rpi::syntax::{BodySpan, FnKind, ItemKind, SyntaxFile, SyntaxNode, Visibility};

fn item(kind: ItemKind, vis: Visibility) -> SyntaxNode {
    SyntaxNode::Item { kind, vis }
}

fn free_fn(name: &str, is_unsafe: bool, skip: usize, len: usize) -> SyntaxNode {
    SyntaxNode::Fn {
        kind: FnKind::Free,
        name: name.to_string(),
        is_unsafe,
        body: Some(BodySpan { skip, len }),
    }
}

fn path(segs: &[&str]) -> SyntaxNode {
    SyntaxNode::Path { segments: segs.iter().map(|s| s.to_string()).collect() }
}

fn ctx(nodes: Vec<SyntaxNode>, changes: usize) -> Context {
    let path = "/w/k/src/lib.rs".to_string();
    let krate = CrateData {
        name: "k".into(),
        manifest_path: "/w/k/Cargo.toml".into(),
        root_dir: "/w/k".into(),
        workspace_deps: Vec::new(),
        external_deps: Vec::new(),
        files: vec![SourceFile { path: path.clone(), loc: 1, ast: SyntaxFile { nodes } }],
    };
    Context {
        crates: vec![krate],
        config: Config { churn_warn: 3, complexity_warn: 2, ..Default::default() },
        churn: vec![(path, changes)],
        ..Default::default()
    }
}

/// complexity 4 (three ifs): fn f(a:bool){ if a{} if a{} if a{} }
fn complex() -> Vec<SyntaxNode> {
    vec![
        item(ItemKind::Fn, Visibility::Inherited),
        free_fn("f", false, 1, 6),
        path(&["bool"]),
        SyntaxNode::If,
        path(&["a"]),
        SyntaxNode::If,
        path(&["a"]),
        SyntaxNode::If,
        path(&["a"]),
    ]
}

#[test]
fn flags_high_churn_high_complexity() {
    let f = ChurnHotspot.run(&ctx(complex(), 5));
    assert_eq!(f.len(), 1);
    assert_eq!(f[0].metric, Some(Metric::count(5 * 4)));
    assert_eq!(f[0].message, "hotspot: 5 changes × complexity 4 (churn≥3, complexity>2)");
}

#[test]
fn low_churn_is_ignored() {
    assert!(ChurnHotspot.run(&ctx(complex(), 1)).is_empty());
}

#[test]
fn low_complexity_is_ignored() {
    // fn f() {}
    let simple = vec![item(ItemKind::Fn, Visibility::Inherited), free_fn("f", false, 0, 0)];
    assert!(ChurnHotspot.run(&ctx(simple, 9)).is_empty());
}

#[test]
fn no_git_history_is_silent() {
    let mut c = ctx(complex(), 5);
    c.churn.clear();
    assert!(ChurnHotspot.run(&c).is_empty());
}

#[test]
fn churn_exactly_at_threshold_counts() {
    assert_eq!(ChurnHotspot.run(&ctx(complex(), 3)).len(), 1);
}
