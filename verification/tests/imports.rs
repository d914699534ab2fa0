//! Crate roots of a file: imports only, or every path head too. Each source
//! is noted above its syntax.
use rpi::imports::{file_reference_roots, file_use_roots, RootCollector};
use rpi::syntax::{BodySpan, FnKind, ItemKind, SyntaxFile, SyntaxNode, UseTree, Visibility};

fn use_item(tree: UseTree) -> Vec<SyntaxNode> {
    vec![
        SyntaxNode::Item { kind: ItemKind::Use, vis: Visibility::Inherited },
        SyntaxNode::Use { tree },
    ]
}

fn path(segs: &[&str]) -> SyntaxNode {
    SyntaxNode::Path { segments: segs.iter().map(|s| s.to_string()).collect() }
}

fn has(v: &[String], s: &str) -> bool {
    v.iter().any(|x| x == s)
}

#[test]
fn use_roots_are_imports_only() {
    // use serde::Serialize;
    // use std::collections::{HashMap, BTreeSet};
    // fn f() { let x = local_fn(); helper::do_it(); }
    let mut nodes = use_item(UseTree::Path("serde".into()));
    nodes.extend(use_item(UseTree::Path("std".into())));
    nodes.push(SyntaxNode::Item { kind: ItemKind::Fn, vis: Visibility::Inherited });
    nodes.push(SyntaxNode::Fn {
        kind: FnKind::Free,
        name: "f".into(),
        is_unsafe: false,
        body: Some(BodySpan { skip: 0, len: 2 }),
    });
    nodes.push(path(&["local_fn"]));
    nodes.push(path(&["helper", "do_it"]));
    let r = file_use_roots(&SyntaxFile { nodes });
    assert!(has(&r, "serde"));
    assert!(has(&r, "std"));
    // Local call / non-imported path heads must NOT inflate coupling.
    assert!(!has(&r, "local_fn"));
    assert!(!has(&r, "helper"));
}

#[test]
fn reference_roots_include_path_heads() {
    // fn f() { anyhow::bail!("x"); }
    let nodes = vec![
        SyntaxNode::Item { kind: ItemKind::Fn, vis: Visibility::Inherited },
        SyntaxNode::Fn {
            kind: FnKind::Free,
            name: "f".into(),
            is_unsafe: false,
            body: Some(BodySpan { skip: 0, len: 1 }),
        },
        path(&["anyhow", "bail"]),
    ];
    let r = file_reference_roots(&SyntaxFile { nodes });
    assert!(has(&r, "anyhow"));
}

#[test]
fn excludes_intra_crate_keyword_roots() {
    // use crate::foo; use super::bar;
    let mut nodes = use_item(UseTree::Path("crate".into()));
    nodes.extend(use_item(UseTree::Path("super".into())));
    let r = file_use_roots(&SyntaxFile { nodes });
    assert!(r.is_empty(), "no external roots expected, got {r:?}");
}

#[test]
fn roots_are_sorted_and_distinct() {
    // use zeta::a; use alpha::{b, c as d, *}; use zeta::e; #[serde(x)] ...
    let mut nodes = use_item(UseTree::Path("zeta".into()));
    nodes.extend(use_item(UseTree::Group(vec![
        UseTree::Name("b".into()),
        UseTree::Rename("c".into()),
        UseTree::Glob,
        UseTree::Path("alpha".into()),
    ])));
    nodes.extend(use_item(UseTree::Path("zeta".into())));
    nodes.push(SyntaxNode::Attribute { path: vec!["derive".into()] });
    nodes.push(path(&["Self", "x"]));
    let r = file_use_roots(&SyntaxFile { nodes });
    assert_eq!(r, vec!["alpha", "b", "c", "derive", "zeta"]);
}

#[test]
fn reference_roots_add_every_path_head_but_keywords() {
    let nodes = vec![path(&["b", "x"]), path(&["a"]), path(&["self", "y"]), path(&["a", "z"])];
    let r = file_reference_roots(&SyntaxFile { nodes });
    assert_eq!(r, vec!["a", "b"]);
}

#[test]
fn collector_add_skips_keywords_and_keeps_order() {
    let mut c = RootCollector { include_all_paths: false, roots: Vec::new() };
    for s in ["m", "crate", "b", "Self", "m", "z", "self", "super"] {
        c.add(&s.to_string());
    }
    assert_eq!(c.roots, vec!["b", "m", "z"]);
}
