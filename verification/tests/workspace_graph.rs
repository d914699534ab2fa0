//! `workspace-graph`: dependency cycles and isolated crates.
use rpi::model::{Context, CrateData, Inspection, Metric, Severity};
use rpi::workspace_graph::{circular_findings, WorkspaceGraph};

fn krate(name: &str, deps: &[&str]) -> CrateData {
    CrateData {
        name: name.to_string(),
        manifest_path: format!("/w/{name}/Cargo.toml"),
        root_dir: format!("/w/{name}"),
        workspace_deps: deps.iter().map(|s| s.to_string()).collect(),
        external_deps: Vec::new(),
        files: Vec::new(),
    }
}

fn ctx(crates: Vec<CrateData>) -> Context {
    Context { crates, ..Default::default() }
}

#[test]
fn detects_circular_dependency() {
    // a -> b -> a
    let c = ctx(vec![krate("a", &["b"]), krate("b", &["a"])]);
    let findings = WorkspaceGraph.run(&c);
    let cyc: Vec<_> = findings.iter().filter(|f| f.severity == Severity::Error).collect();
    assert_eq!(cyc.len(), 1);
    assert!(cyc[0].message.contains("a ⇄ b"));
}

#[test]
fn acyclic_graph_has_no_error() {
    // a -> b, a -> c (no cycle)
    let c = ctx(vec![krate("a", &["b", "c"]), krate("b", &[]), krate("c", &[])]);
    let findings = WorkspaceGraph.run(&c);
    assert!(findings.iter().all(|f| f.severity != Severity::Error));
}

#[test]
fn flags_isolated_crate() {
    // a -> b connected; lonely stands alone.
    let c = ctx(vec![krate("a", &["b"]), krate("b", &[]), krate("lonely", &[])]);
    let findings = WorkspaceGraph.run(&c);
    let iso: Vec<_> =
        findings.iter().filter(|f| f.location.krate.as_deref() == Some("lonely")).collect();
    assert_eq!(iso.len(), 1);
    assert_eq!(iso[0].severity, Severity::Info);
}

#[test]
fn single_crate_workspace_is_not_isolated_noise() {
    let c = ctx(vec![krate("solo", &[])]);
    let findings = WorkspaceGraph.run(&c);
    assert!(findings.is_empty());
}

#[test]
fn isolated_finding_in_full() {
    let c = ctx(vec![krate("a", &["b"]), krate("b", &[]), krate("lonely", &[])]);
    let findings = WorkspaceGraph.run(&c);
    assert_eq!(findings.len(), 1);
    let f = &findings[0];
    assert_eq!(f.inspection, "workspace-graph");
    assert_eq!(f.message, "crate `lonely` has no intra-workspace dependencies (isolated)");
    assert_eq!(f.location.krate.as_deref(), Some("lonely"));
    assert!(f.metric.is_none());
}

#[test]
fn three_crate_cycle_names_every_member() {
    // a -> b -> c -> a, plus d -> a outside the cycle
    let c = ctx(vec![krate("a", &["b"]), krate("b", &["c"]), krate("c", &["a"]), krate("d", &["a"])]);
    let findings = WorkspaceGraph.run(&c);
    let cyc: Vec<_> = findings.iter().filter(|f| f.severity == Severity::Error).collect();
    assert_eq!(cyc.len(), 1);
    assert_eq!(cyc[0].message, "circular dependency between crates: a ⇄ b ⇄ c");
    assert_eq!(cyc[0].metric, Some(Metric { numerator: 3, denominator: 1, scale: 1 }));
}

#[test]
fn self_dependency_is_not_a_cycle() {
    let c = ctx(vec![krate("a", &["a", "b"]), krate("b", &[])]);
    let findings = WorkspaceGraph.run(&c);
    assert!(findings.iter().all(|f| f.severity != Severity::Error));
}

#[test]
fn circular_findings_skip_singletons() {
    let names = vec!["x".to_string(), "y".to_string(), "z".to_string()];
    let f = circular_findings(&names, &vec![vec![2], vec![1, 0]]);
    assert_eq!(f.len(), 1);
    assert_eq!(f[0].message, "circular dependency between crates: x ⇄ y");
    assert_eq!(f[0].severity, Severity::Error);
}
