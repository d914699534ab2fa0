//! `complexity`: cyclomatic complexity per function (each source is noted
//! above its syntax).
use rpi::complexity::{file_complexity, function_complexities, Complexity};
use rpi::model::{Config, Context, CrateData, Inspection, Metric, SourceFile};
use rpi::syntax::{BinOp, BodySpan, FnKind, ItemKind, SyntaxFile, SyntaxNode, Visibility};

fn item(kind: ItemKind, vis: Visibility) -> SyntaxNode {
    SyntaxNode::Item { kind, vis }
}

fn free_fn(name: &str, is_unsafe: bool, skip: usize, len: usize) -> SyntaxNode {
    SyntaxNode::Fn {
        kind: FnKind::Free,
        name: name.to_string(),
        is_unsafe,
        body: Some(BodySpan { skip, len }),
    }
}

fn path(segs: &[&str]) -> SyntaxNode {
    SyntaxNode::Path { segments: segs.iter().map(|s| s.to_string()).collect() }
}

fn file(nodes: Vec<SyntaxNode>) -> SyntaxFile {
    SyntaxFile { nodes }
}

fn one_file_ctx(nodes: Vec<SyntaxNode>, warn: usize) -> Context {
    let krate = CrateData {
        name: "k".into(),
        manifest_path: "/w/k/Cargo.toml".into(),
        root_dir: "/w/k".into(),
        workspace_deps: Vec::new(),
        external_deps: Vec::new(),
        files: vec![SourceFile { path: "/w/k/src/lib.rs".into(), loc: 1, ast: file(nodes) }],
    };
    Context {
        crates: vec![krate],
        config: Config { complexity_warn: warn, ..Default::default() },
        ..Default::default()
    }
}

#[test]
fn simple_fn_is_complexity_one() {
    // fn f() { let x = 1; }
    let c = function_complexities(&file(vec![
        item(ItemKind::Fn, Visibility::Inherited),
        free_fn("f", false, 0, 0),
    ]));
    assert_eq!(c, vec![("f".to_string(), 1)]);
}

#[test]
fn counts_decision_points() {
    // fn f(a: bool, b: bool) -> i32 {
    //     if a && b { return 1; }
    //     for _ in 0..3 { }
    //     match a { true => 1, false => 2 }
    // }
    let src = vec![
        item(ItemKind::Fn, Visibility::Inherited),
        free_fn("f", false, 3, 8),
        path(&["bool"]),
        path(&["bool"]),
        path(&["i32"]),
        SyntaxNode::If,
        SyntaxNode::Binary { op: BinOp::And },
        path(&["a"]),
        path(&["b"]),
        SyntaxNode::ForLoop,
        path(&["a"]),
        SyntaxNode::MatchArm,
        SyntaxNode::MatchArm,
    ];
    // 1 base + if(1) + &&(1) + for(1) + 2 arms(2) = 6
    let c = function_complexities(&file(src));
    assert_eq!(c[0].1, 6);
}

#[test]
fn nested_if_accumulates_complexity() {
    // fn f(a: bool, b: bool) { if a { if b {} } }
    let src = vec![
        item(ItemKind::Fn, Visibility::Inherited),
        free_fn("f", false, 2, 4),
        path(&["bool"]),
        path(&["bool"]),
        SyntaxNode::If,
        path(&["a"]),
        SyntaxNode::If,
        path(&["b"]),
    ];
    let c = function_complexities(&file(src));
    assert_eq!(c[0].1, 3, "nested ifs should each add a decision point");
}

#[test]
fn match_arms_each_add_one() {
    // fn f(x: u8) { match x { 1 => {} 2 => {} _ => {} } }
    let src = vec![
        item(ItemKind::Fn, Visibility::Inherited),
        free_fn("f", false, 1, 4),
        path(&["u8"]),
        path(&["x"]),
        SyntaxNode::MatchArm,
        SyntaxNode::MatchArm,
        SyntaxNode::MatchArm,
    ];
    let c = function_complexities(&file(src));
    assert_eq!(c[0].1, 4, "each match arm should add 1 to complexity");
}

/// fn f(a: bool, b: bool){ if a {} if b {} }
fn two_ifs() -> Vec<SyntaxNode> {
    vec![
        item(ItemKind::Fn, Visibility::Inherited),
        free_fn("f", false, 2, 4),
        path(&["bool"]),
        path(&["bool"]),
        SyntaxNode::If,
        path(&["a"]),
        SyntaxNode::If,
        path(&["b"]),
    ]
}

/// fn big(a:bool){ if a {} if a {} if a {} }
fn big() -> Vec<SyntaxNode> {
    vec![
        item(ItemKind::Fn, Visibility::Inherited),
        free_fn("big", false, 1, 6),
        path(&["bool"]),
        SyntaxNode::If,
        path(&["a"]),
        SyntaxNode::If,
        path(&["a"]),
        SyntaxNode::If,
        path(&["a"]),
    ]
}

#[test]
fn at_threshold_is_not_flagged() {
    // 1 base + 2 ifs = 3; threshold=3 → no finding (strictly greater-than).
    let f = Complexity.run(&one_file_ctx(two_ifs(), 3));
    assert!(f.is_empty(), "at threshold must not fire (strictly greater-than)");
}

#[test]
fn flags_over_threshold_only() {
    let f = Complexity.run(&one_file_ctx(big(), 3));
    assert_eq!(f.len(), 1);
    assert!(f[0].message.contains("`big`"));
    assert_eq!(f[0].message, "fn `big` has cyclomatic complexity 4 (> 3)");
    assert_eq!(f[0].metric, Some(Metric::count(4)));
}

#[test]
fn nested_functions_count_in_both() {
    // fn outer() { if x {} fn inner() { while y {} } }
    let src = vec![
        item(ItemKind::Fn, Visibility::Inherited),
        free_fn("outer", false, 0, 6),
        SyntaxNode::If,
        path(&["x"]),
        item(ItemKind::Fn, Visibility::Inherited),
        free_fn("inner", false, 0, 2),
        SyntaxNode::While,
        path(&["y"]),
    ];
    let c = function_complexities(&file(src));
    assert_eq!(c, vec![("outer".to_string(), 3), ("inner".to_string(), 2)]);
    let f = file(vec![
        item(ItemKind::Fn, Visibility::Inherited),
        free_fn("outer", false, 0, 6),
        SyntaxNode::If,
        path(&["x"]),
        item(ItemKind::Fn, Visibility::Inherited),
        free_fn("inner", false, 0, 2),
        SyntaxNode::While,
        path(&["y"]),
    ]);
    assert_eq!(file_complexity(&f), 5);
}

#[test]
fn trait_method_without_body_is_skipped() {
    let f = file(vec![
        SyntaxNode::Fn {
            kind: FnKind::TraitMethod,
            name: "m".into(),
            is_unsafe: false,
            body: None,
        },
        SyntaxNode::Fn {
            kind: FnKind::Method,
            name: "n".into(),
            is_unsafe: false,
            body: Some(BodySpan { skip: 0, len: 2 }),
        },
        SyntaxNode::Try,
        SyntaxNode::Binary { op: BinOp::Or },
    ]);
    assert_eq!(function_complexities(&f), vec![("n".to_string(), 3)]);
}
