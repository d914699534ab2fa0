//! `module-size`, `unsafe-surface`, `pub-surface` and `test-gap` on the
//! syntax of small sources (each source is noted above its syntax).
use rpi::ast_metrics::{analyze, ModuleSize, PubSurface, TestGap, UnsafeSurface};
use rpi::model::{Config, Context, CrateData, Inspection, Metric, Severity, SourceFile};
use rpi::syntax::{BodySpan, FnKind, ItemKind, SyntaxFile, SyntaxNode, Visibility};

fn item(kind: ItemKind, vis: Visibility) -> SyntaxNode {
    SyntaxNode::Item { kind, vis }
}

fn free_fn(name: &str, is_unsafe: bool, skip: usize, len: usize) -> SyntaxNode {
    SyntaxNode::Fn {
        kind: FnKind::Free,
        name: name.to_string(),
        is_unsafe,
        body: Some(BodySpan { skip, len }),
    }
}

fn path(segs: &[&str]) -> SyntaxNode {
    SyntaxNode::Path { segments: segs.iter().map(|s| s.to_string()).collect() }
}

fn attr(segs: &[&str]) -> SyntaxNode {
    SyntaxNode::Attribute { path: segs.iter().map(|s| s.to_string()).collect() }
}

fn krate_from_files(name: &str, files: Vec<(usize, Vec<SyntaxNode>)>) -> CrateData {
    CrateData {
        name: name.to_string(),
        manifest_path: format!("/w/{name}/Cargo.toml"),
        root_dir: format!("/w/{name}"),
        workspace_deps: Vec::new(),
        external_deps: Vec::new(),
        files: files
            .into_iter()
            .enumerate()
            .map(|(i, (loc, nodes))| SourceFile {
                path: format!("/w/{name}/src/f{i}.rs"),
                loc,
                ast: SyntaxFile { nodes },
            })
            .collect(),
    }
}

fn ctx_with(config: Config, crates: Vec<CrateData>) -> Context {
    Context { crates, config, ..Default::default() }
}

/// `pub unsafe fn a() {}`
fn unsafe_fn_a() -> Vec<SyntaxNode> {
    vec![item(ItemKind::Fn, Visibility::Public), free_fn("a", true, 0, 0)]
}

#[test]
fn counts_unsafe_across_forms() {
    // pub unsafe fn a() {}
    // unsafe trait T {}
    // unsafe impl T for () {}
    // fn b() { unsafe { let _ = 1; } }
    let nodes = vec![
        item(ItemKind::Fn, Visibility::Public),
        free_fn("a", true, 0, 0),
        item(ItemKind::Trait, Visibility::Inherited),
        SyntaxNode::Trait { is_unsafe: true },
        item(ItemKind::Impl, Visibility::Inherited),
        SyntaxNode::Impl { is_unsafe: true },
        path(&["T"]),
        item(ItemKind::Fn, Visibility::Inherited),
        free_fn("b", false, 0, 1),
        SyntaxNode::UnsafeBlock,
    ];
    let c = ctx_with(Config::default(), vec![krate_from_files("k", vec![(6, nodes)])]);
    let findings = UnsafeSurface.run(&c);
    assert_eq!(findings.len(), 1);
    // unsafe fn + unsafe trait + unsafe impl + unsafe block = 4
    assert_eq!(findings[0].metric.map(|_| ()), Some(()));
    assert!(findings[0].message.starts_with("4 unsafe items"));
}

#[test]
fn counts_public_items_only() {
    // pub fn a() {} fn b() {} pub struct S; enum E {}
    let nodes = vec![
        item(ItemKind::Fn, Visibility::Public),
        free_fn("a", false, 0, 0),
        item(ItemKind::Fn, Visibility::Inherited),
        free_fn("b", false, 0, 0),
        item(ItemKind::Struct, Visibility::Public),
        item(ItemKind::Enum, Visibility::Inherited),
    ];
    let c = ctx_with(Config::default(), vec![krate_from_files("k", vec![(1, nodes)])]);
    let findings = PubSurface.run(&c);
    assert_eq!(findings.len(), 1);
    assert!(findings[0].message.starts_with("2 public items"));
}

#[test]
fn test_gap_flags_crate_without_tests() {
    // pub fn a() {}
    let no_tests = krate_from_files(
        "no",
        vec![(1, vec![item(ItemKind::Fn, Visibility::Public), free_fn("a", false, 0, 0)])],
    );
    // #[test]
    // fn t() { assert!(true); }
    let with_tests = krate_from_files(
        "yes",
        vec![(
            2,
            vec![
                item(ItemKind::Fn, Visibility::Inherited),
                free_fn("t", false, 2, 1),
                attr(&["test"]),
                path(&["test"]),
                path(&["assert"]),
            ],
        )],
    );
    let c = ctx_with(Config::default(), vec![no_tests, with_tests]);
    let findings = TestGap.run(&c);
    assert_eq!(findings.len(), 1);
    assert_eq!(findings[0].location.krate.as_deref(), Some("no"));
}

#[test]
fn module_size_respects_threshold() {
    // 400 blank lines, then `pub fn a() {}`
    let cfg = Config { module_size_loc: 300, ..Default::default() };
    let nodes = vec![item(ItemKind::Fn, Visibility::Public), free_fn("a", false, 0, 0)];
    let c = ctx_with(cfg, vec![krate_from_files("k", vec![(401, nodes)])]);
    let findings = ModuleSize.run(&c);
    assert_eq!(findings.len(), 1);
    assert_eq!(findings[0].severity, Severity::Warn);
}

#[test]
fn unsafe_density_over_threshold_warns() {
    // One unsafe item in a tiny file: very high density.
    let cfg = Config { unsafe_density_warn_milli: 5000, ..Default::default() };
    let c = ctx_with(cfg, vec![krate_from_files("k", vec![(1, unsafe_fn_a())])]);
    let findings = UnsafeSurface.run(&c);
    assert_eq!(findings[0].severity, Severity::Warn);
}

/// `fn f() {}`
fn fn_f() -> Vec<SyntaxNode> {
    vec![item(ItemKind::Fn, Visibility::Inherited), free_fn("f", false, 0, 0)]
}

#[test]
fn module_size_at_threshold_is_not_flagged() {
    // loc == limit: strictly greater-than is required to trigger.
    let file = krate_from_files("k", vec![(300, fn_f())]);
    let cfg = Config { module_size_loc: 300, ..Default::default() };
    let findings = ModuleSize.run(&ctx_with(cfg, vec![file]));
    assert!(findings.is_empty(), "exactly at threshold must not fire");
}

#[test]
fn module_size_one_over_threshold_is_flagged() {
    let file = krate_from_files("k", vec![(301, fn_f())]);
    let cfg = Config { module_size_loc: 300, ..Default::default() };
    let findings = ModuleSize.run(&ctx_with(cfg, vec![file]));
    assert_eq!(findings.len(), 1, "one line over threshold must fire");
    assert!(findings[0].message.contains("301"));
}

#[test]
fn module_size_empty_file_is_not_flagged() {
    let file = krate_from_files("k", vec![(0, Vec::new())]);
    let cfg = Config { module_size_loc: 300, ..Default::default() };
    let findings = ModuleSize.run(&ctx_with(cfg, vec![file]));
    assert!(findings.is_empty(), "empty file must not fire");
}

#[test]
fn unsafe_fn_alone_counts_one() {
    // pub unsafe fn danger() {}
    let nodes = vec![item(ItemKind::Fn, Visibility::Public), free_fn("danger", true, 0, 0)];
    let c = ctx_with(Config::default(), vec![krate_from_files("k", vec![(1, nodes)])]);
    let f = UnsafeSurface.run(&c);
    assert!(f[0].message.starts_with("1 unsafe item"), "{:?}", f[0].message);
}

#[test]
fn unsafe_impl_alone_counts_one() {
    // struct S; trait T {} unsafe impl T for S {}
    let nodes = vec![
        item(ItemKind::Struct, Visibility::Inherited),
        item(ItemKind::Trait, Visibility::Inherited),
        SyntaxNode::Trait { is_unsafe: false },
        item(ItemKind::Impl, Visibility::Inherited),
        SyntaxNode::Impl { is_unsafe: true },
        path(&["T"]),
        path(&["S"]),
    ];
    let c = ctx_with(Config::default(), vec![krate_from_files("k", vec![(1, nodes)])]);
    let f = UnsafeSurface.run(&c);
    assert!(f[0].message.starts_with("1 unsafe item"), "{:?}", f[0].message);
}

#[test]
fn unsafe_block_alone_counts_one() {
    // fn f() { unsafe { let _ = 1; } }
    let nodes = vec![
        item(ItemKind::Fn, Visibility::Inherited),
        free_fn("f", false, 0, 1),
        SyntaxNode::UnsafeBlock,
    ];
    let c = ctx_with(Config::default(), vec![krate_from_files("k", vec![(1, nodes)])]);
    let f = UnsafeSurface.run(&c);
    assert!(f[0].message.starts_with("1 unsafe item"), "{:?}", f[0].message);
}

#[test]
fn pub_crate_and_pub_super_not_counted_as_pub() {
    // pub(crate) fn a() {} pub(super) struct B; pub fn c() {}
    let nodes = vec![
        item(ItemKind::Fn, Visibility::Restricted),
        free_fn("a", false, 1, 0),
        path(&["crate"]),
        item(ItemKind::Struct, Visibility::Restricted),
        path(&["super"]),
        item(ItemKind::Fn, Visibility::Public),
        free_fn("c", false, 0, 0),
    ];
    let c = ctx_with(Config::default(), vec![krate_from_files("k", vec![(1, nodes)])]);
    let f = PubSurface.run(&c);
    // Only `pub fn c()` counts: 1 public item.
    assert!(
        f.is_empty() || !f[0].message.contains("3 public"),
        "pub(crate) and pub(super) must not be counted as pub: {:?}",
        f
    );
    assert!(f[0].message.starts_with("1 public items"));
}

#[test]
fn pub_surface_zero_items_is_silent() {
    // fn private() {} struct Hidden;
    let nodes = vec![
        item(ItemKind::Fn, Visibility::Inherited),
        free_fn("private", false, 0, 0),
        item(ItemKind::Struct, Visibility::Inherited),
    ];
    let c = ctx_with(Config::default(), vec![krate_from_files("k", vec![(1, nodes)])]);
    let f = PubSurface.run(&c);
    assert!(f.is_empty(), "no pub items must produce no finding");
}

#[test]
fn analyze_tallies_one_file() {
    let file = SourceFile {
        path: "lib.rs".to_string(),
        loc: 2,
        ast: SyntaxFile {
            nodes: vec![
                item(ItemKind::Fn, Visibility::Public),
                free_fn("t", true, 2, 1),
                attr(&["tokio", "test"]),
                path(&["tokio", "test"]),
                SyntaxNode::UnsafeBlock,
                item(ItemKind::ExternCrate, Visibility::Public),
                item(ItemKind::Impl, Visibility::Inherited),
                SyntaxNode::Impl { is_unsafe: false },
                SyntaxNode::Fn {
                    kind: FnKind::TraitMethod,
                    name: "m".to_string(),
                    is_unsafe: true,
                    body: None,
                },
            ],
        },
    };
    let s = analyze(&file);
    assert_eq!(s.items, 3);
    // `pub extern crate` is not public API.
    assert_eq!(s.pub_items, 1);
    // the unsafe fn and the unsafe block; an unsafe trait method does not count.
    assert_eq!(s.unsafe_count, 2);
    assert!(s.has_test);
}

#[test]
fn unsafe_density_is_exact_and_one_decimal() {
    // 3 unsafe items in 700 lines: 4.2857.../kLOC, under 5.0 → Info.
    let nodes = vec![
        SyntaxNode::UnsafeBlock,
        SyntaxNode::UnsafeBlock,
        SyntaxNode::UnsafeBlock,
    ];
    let c = ctx_with(Config::default(), vec![krate_from_files("k", vec![(700, nodes)])]);
    let f = UnsafeSurface.run(&c);
    assert_eq!(f[0].message, "3 unsafe items (4.3/kLOC)");
    assert_eq!(f[0].severity, Severity::Info);
    assert_eq!(f[0].metric, Some(Metric { numerator: 3, denominator: 700, scale: 1000 }));
}

#[test]
fn unsafe_in_empty_crate_has_zero_density() {
    let c = ctx_with(
        Config::default(),
        vec![krate_from_files("k", vec![(0, vec![SyntaxNode::UnsafeBlock])])],
    );
    let f = UnsafeSurface.run(&c);
    assert_eq!(f[0].message, "1 unsafe items (0.0/kLOC)");
    assert_eq!(f[0].severity, Severity::Info);
}

#[test]
fn module_size_message_and_location() {
    let file = krate_from_files("k", vec![(301, fn_f())]);
    let cfg = Config { module_size_loc: 300, ..Default::default() };
    let f = ModuleSize.run(&ctx_with(cfg, vec![file]));
    assert_eq!(f[0].message, "file is 301 lines (> 300 threshold)");
    assert_eq!(f[0].location.file.as_deref(), Some("/w/k/src/f0.rs"));
    assert_eq!(f[0].inspection, "module-size");
    assert_eq!(f[0].metric, Some(Metric::count(301)));
}
