//! End-to-end runs over the syntax of the committed two-crate fixture
//! workspace (`fx_app` depends on `fx_lib`; `fx_lib` has tests, public items
//! and `unsafe`; `fx_app` has no tests).
use rpi::cli::trend_message;
use rpi::collect::{crate_data, workspace_info, Dependency};
use rpi::config::parse_config;
use rpi::model::{Config, Context, CrateData, Finding, Severity, SourceFile};
use rpi::registry::all;
use rpi::syntax::{BinOp, BodySpan, FnKind, ItemKind, SyntaxFile, SyntaxNode, UseTree, Visibility};

fn item(kind: ItemKind, vis: Visibility) -> SyntaxNode {
    SyntaxNode::Item { kind, vis }
}

fn free_fn(name: &str, is_unsafe: bool, skip: usize, len: usize) -> SyntaxNode {
    SyntaxNode::Fn {
        kind: FnKind::Free,
        name: name.to_string(),
        is_unsafe,
        body: Some(BodySpan { skip, len }),
    }
}

fn path(segs: &[&str]) -> SyntaxNode {
    SyntaxNode::Path { segments: segs.iter().map(|s| s.to_string()).collect() }
}

fn attr(segs: &[&str]) -> SyntaxNode {
    SyntaxNode::Attribute { path: segs.iter().map(|s| s.to_string()).collect() }
}

/// A doc comment: an attribute whose meta is the path `doc`.
fn doc() -> Vec<SyntaxNode> {
    vec![attr(&["doc"]), path(&["doc"])]
}

/// crates/fx_app/src/main.rs
fn fx_app_main() -> SourceFile {
    let mut nodes = Vec::new();
    nodes.extend(doc());
    nodes.extend(doc());
    nodes.push(item(ItemKind::Fn, Visibility::Inherited));
    nodes.push(free_fn("main", false, 0, 1));
    nodes.push(path(&["println"]));
    SourceFile {
        path: "/fx/crates/fx_app/src/main.rs".to_string(),
        loc: 6,
        ast: SyntaxFile { nodes },
    }
}

/// crates/fx_lib/src/lib.rs
fn fx_lib_lib() -> SourceFile {
    let mut nodes = Vec::new();
    nodes.extend(doc());
    nodes.push(item(ItemKind::Mod, Visibility::Public));
    // /// Public API item #1.
    // pub fn hello() -> &'static str { "hi" }
    nodes.push(item(ItemKind::Fn, Visibility::Public));
    nodes.push(free_fn("hello", false, 3, 0));
    nodes.extend(doc());
    nodes.push(path(&["str"]));
    // /// Public API item #2.
    // pub struct Widget { pub id: u32 }
    nodes.push(item(ItemKind::Struct, Visibility::Public));
    nodes.extend(doc());
    nodes.push(path(&["u32"]));
    // /// Third public item ...
    // pub unsafe fn raw_poke() -> u8 { 0 }
    nodes.push(item(ItemKind::Fn, Visibility::Public));
    nodes.push(free_fn("raw_poke", true, 3, 0));
    nodes.extend(doc());
    nodes.push(path(&["u8"]));
    // #[cfg(test)] mod tests { use super::*; #[test] fn hello_works() { assert_eq!(..) } }
    nodes.push(item(ItemKind::Mod, Visibility::Inherited));
    nodes.push(attr(&["cfg"]));
    nodes.push(path(&["cfg"]));
    nodes.push(item(ItemKind::Use, Visibility::Inherited));
    nodes.push(SyntaxNode::Use { tree: UseTree::Path("super".to_string()) });
    nodes.push(item(ItemKind::Fn, Visibility::Inherited));
    nodes.push(free_fn("hello_works", false, 2, 1));
    nodes.push(attr(&["test"]));
    nodes.push(path(&["test"]));
    nodes.push(path(&["assert_eq"]));
    SourceFile {
        path: "/fx/crates/fx_lib/src/lib.rs".to_string(),
        loc: 28,
        ast: SyntaxFile { nodes },
    }
}

/// crates/fx_lib/src/util.rs
fn fx_lib_util() -> SourceFile {
    let mut nodes = Vec::new();
    nodes.extend(doc());
    nodes.push(item(ItemKind::Fn, Visibility::Public));
    nodes.push(free_fn("twice", false, 4, 7));
    nodes.extend(doc());
    nodes.push(path(&["u32"]));
    nodes.push(path(&["u32"]));
    // let v = unsafe { core::mem::transmute::<u32, u32>(n) }; v * 2
    nodes.push(SyntaxNode::UnsafeBlock);
    nodes.push(path(&["core", "mem", "transmute"]));
    nodes.push(path(&["u32"]));
    nodes.push(path(&["u32"]));
    nodes.push(path(&["n"]));
    nodes.push(SyntaxNode::Binary { op: BinOp::Other });
    nodes.push(path(&["v"]));
    SourceFile {
        path: "/fx/crates/fx_lib/src/util.rs".to_string(),
        loc: 7,
        ast: SyntaxFile { nodes },
    }
}

fn members() -> Vec<String> {
    vec!["fx_app".to_string(), "fx_lib".to_string()]
}

fn fixture(config: Config) -> Context {
    let app = crate_data(
        "fx_app".to_string(),
        "/fx/crates/fx_app/Cargo.toml".to_string(),
        "/fx/crates/fx_app".to_string(),
        &vec![Dependency { name: "fx_lib".to_string(), normal: true }],
        &members(),
        vec![fx_app_main()],
    );
    let lib = crate_data(
        "fx_lib".to_string(),
        "/fx/crates/fx_lib/Cargo.toml".to_string(),
        "/fx/crates/fx_lib".to_string(),
        &Vec::new(),
        &members(),
        vec![fx_lib_lib(), fx_lib_util()],
    );
    let crates: Vec<CrateData> = vec![app, lib];
    let workspace = workspace_info("/fx".to_string(), &crates);
    Context { workspace, crates, config, ..Default::default() }
}

fn run_with(config: Config) -> Vec<Finding> {
    let ctx = fixture(config);
    all().iter().flat_map(|i| i.run(&ctx)).collect()
}

fn run() -> Vec<Finding> {
    run_with(Config::default())
}

fn has(findings: &[Finding], inspection: &str, krate: &str) -> bool {
    findings
        .iter()
        .any(|f| f.inspection == inspection && f.location.krate.as_deref() == Some(krate))
}

#[test]
fn collects_both_member_crates() {
    let ctx = fixture(Config::default());
    let mut names = ctx.workspace.crates.clone();
    names.sort();
    assert_eq!(names, vec!["fx_app".to_string(), "fx_lib".to_string()]);
    assert_eq!(ctx.crates[0].workspace_deps, vec!["fx_lib".to_string()]);
    assert!(ctx.crates[0].external_deps.is_empty());
}

#[test]
fn test_gap_flags_only_the_untested_crate() {
    let f = run();
    assert!(has(&f, "test-gap", "fx_app"), "fx_app has no tests");
    assert!(!has(&f, "test-gap", "fx_lib"), "fx_lib has tests");
}

#[test]
fn unsafe_surface_flags_fx_lib() {
    let f = run();
    assert!(has(&f, "unsafe-surface", "fx_lib"));
}

#[test]
fn no_circular_dependency() {
    let f = run();
    let cycles = f
        .iter()
        .filter(|x| x.inspection == "workspace-graph" && x.severity == Severity::Error)
        .count();
    assert_eq!(cycles, 0);
}

#[test]
fn rpi_toml_thresholds_are_honored() {
    // The fixture's rpi.toml lowers module_size_loc to 10, so files above
    // that are flagged; with the default (300) none is.
    let cfg = parse_config("module_size_loc = 10\n").unwrap();
    assert_eq!(cfg, Config { module_size_loc: 10, ..Default::default() });
    let f = run_with(cfg);
    assert!(
        f.iter().any(|x| x.inspection == "module-size"),
        "low rpi.toml threshold should trigger module-size"
    );
    assert!(!run().iter().any(|x| x.inspection == "module-size"));
}

#[test]
fn baseline_regression_detected() {
    // Prior report had 0 findings; the fixture has several → regression.
    let count = run().len() as u64;
    let line = trend_message(0, count);
    assert!(line.contains("regression"), "trend must report regression: {line}");
}

#[test]
fn baseline_improvement_detected() {
    let count = run().len() as u64;
    let line = trend_message(9999, count);
    assert!(line.contains("improvement"), "trend must report improvement: {line}");
}

#[test]
fn baseline_no_change_when_equal() {
    let count = run().len() as u64;
    let line = trend_message(count, count);
    assert!(line.contains("no change"), "trend must report no change: {line}");
}

#[test]
fn fixture_report_in_full() {
    let f = run();
    // fx_lib: 2 unsafe markers in 35 lines.
    let u: Vec<&Finding> = f.iter().filter(|x| x.inspection == "unsafe-surface").collect();
    assert_eq!(u.len(), 1);
    assert_eq!(u[0].message, "2 unsafe items (57.1/kLOC)");
    assert_eq!(u[0].severity, Severity::Warn);
    let p: Vec<&Finding> = f.iter().filter(|x| x.inspection == "pub-surface").collect();
    assert_eq!(p.len(), 1);
    assert_eq!(p[0].message, "5 public items");
    assert_eq!(p[0].location.krate.as_deref(), Some("fx_lib"));
    assert_eq!(f.len(), 3);
}
