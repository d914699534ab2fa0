//! Text and SARIF renderings of a report.
use rpi::model::{Finding, Location, Metrics, Report, Severity, WorkspaceInfo};
use rpi::render::{severity_counts, text};
use rpi::sarif::{sarif, sarif_level};

fn finding(inspection: &'static str, sev: Severity, krate: &str) -> Finding {
    Finding {
        inspection,
        severity: sev,
        location: Location { krate: Some(krate.to_string()), ..Default::default() },
        message: "msg".into(),
        metric: None,
    }
}

fn report(findings: Vec<Finding>) -> Report {
    Report {
        workspace: WorkspaceInfo::default(),
        metrics: Metrics { crate_count: 2, finding_count: findings.len() },
        findings,
        generated_at: "t".into(),
    }
}

#[test]
fn ranking_orders_by_weighted_risk() {
    let r = report(vec![
        finding("test-gap", Severity::Warn, "low"),
        finding("workspace-graph", Severity::Error, "high"),
    ]);
    let text = text(&r);
    let high = text.find("high").unwrap();
    let low = text.find("low").unwrap();
    // The error crate must be ranked above the warn crate.
    assert!(high < low, "high-risk crate should appear first:\n{text}");
}

#[test]
fn empty_report_is_terse() {
    let text = text(&report(vec![]));
    assert!(text.contains("(no findings)"));
    assert!(!text.contains("crate risk"));
}

#[test]
fn sarif_shape_and_level_mapping() {
    let r = report(vec![
        finding("workspace-graph", Severity::Error, "a"),
        finding("test-gap", Severity::Warn, "b"),
    ]);
    let v = sarif(&r);
    assert_eq!(v.version, "2.1.0");
    assert_eq!(v.tool_name, "rust-project-inspector");
    let results = &v.results;
    assert_eq!(results.len(), 2);
    assert_eq!(results[0].level, "error");
    assert_eq!(results[1].level, "warning");
    // Two distinct inspections → two rules.
    assert_eq!(v.rules.len(), 2);
}

#[test]
fn sarif_emits_relative_file_uri() {
    let f = Finding {
        inspection: "module-size",
        severity: Severity::Warn,
        location: Location {
            krate: Some("k".into()),
            file: Some("/repo/crates/k/src/big.rs".into()),
            span: None,
        },
        message: "big".into(),
        metric: None,
    };
    let r = Report {
        workspace: WorkspaceInfo { root: "/repo".into(), crates: vec!["k".into()] },
        metrics: Metrics { crate_count: 1, finding_count: 1 },
        findings: vec![f],
        generated_at: "t".into(),
    };
    let v = sarif(&r);
    let uri = &v.results[0].location.as_ref().unwrap().uri;
    assert_eq!(uri, "crates/k/src/big.rs");
}

#[test]
fn text_in_full() {
    let r = report(vec![
        finding("test-gap", Severity::Warn, "low"),
        finding("workspace-graph", Severity::Error, "high"),
    ]);
    let expected = "rust-project-inspector\n\
                    \x20 root:     \n\
                    \x20 crates:   2\n\
                    \x20 findings: 2  (1 error, 1 warn, 0 info)\n\
                    \n\
                    \x20 crate risk (score = 100·err + 10·warn + 1·info):\n\
                    \x20   score  err warn info  crate\n\
                    \x20     100    1    0    0  high\n\
                    \x20      10    0    1    0  low\n\
                    \n\
                    \x20 findings:\n\
                    \x20   [error] workspace-graph (high): msg\n\
                    \x20   [warn ] test-gap (low): msg\n";
    assert_eq!(text(&r), expected);
}

#[test]
fn ranking_ties_break_by_name_and_workspace_scope() {
    let mut unscoped = finding("dep-hygiene", Severity::Info, "x");
    unscoped.location.krate = None;
    let r = report(vec![
        finding("a", Severity::Warn, "zeta"),
        finding("b", Severity::Warn, "alpha"),
        finding("c", Severity::Info, "alpha"),
        unscoped,
    ]);
    let t = text(&r);
    let rows: Vec<&str> = t.lines().filter(|l| l.ends_with("zeta") || l.ends_with("alpha") || l.ends_with("workspace")).collect();
    assert_eq!(
        rows,
        vec![
            "       11    0    1    1  alpha",
            "       10    0    1    0  zeta",
            "        1    0    0    1  workspace",
        ]
    );
    assert!(t.contains("    [info ] dep-hygiene (workspace): msg\n"));
}

#[test]
fn empty_report_text_in_full() {
    let r = Report::new(
        WorkspaceInfo { root: "/w".into(), crates: vec![] },
        vec![],
        "t".into(),
    );
    assert_eq!(
        text(&r),
        "rust-project-inspector\n  root:     /w\n  crates:   0\n  findings: 0  (0 error, 0 warn, 0 info)\n  (no findings)\n"
    );
}

#[test]
fn severity_counts_tally() {
    let r = report(vec![
        finding("a", Severity::Info, "k"),
        finding("b", Severity::Error, "k"),
        finding("c", Severity::Info, "k"),
    ]);
    assert_eq!(severity_counts(&r), (1, 0, 2));
}

#[test]
fn sarif_levels_and_rules_in_full() {
    assert_eq!(sarif_level(Severity::Error), "error");
    assert_eq!(sarif_level(Severity::Warn), "warning");
    assert_eq!(sarif_level(Severity::Info), "note");
    let mut spanned = finding("b-rule", Severity::Info, "k");
    spanned.location.file = Some("/elsewhere/f.rs".into());
    spanned.location.span = Some((0, 4));
    let mut later = finding("a-rule", Severity::Warn, "k");
    later.location.file = Some("/w/src/x.rs".into());
    later.location.span = Some((7, 9));
    let r = Report::new(
        WorkspaceInfo { root: "/w".into(), crates: vec!["k".into()] },
        vec![spanned, later, finding("b-rule", Severity::Error, "k")],
        "t".into(),
    );
    let v = sarif(&r);
    assert_eq!(v.schema, "https://json.schemastore.org/sarif-2.1.0.json");
    let ids: Vec<&str> = v.rules.iter().map(|r| r.id.as_str()).collect();
    assert_eq!(ids, vec!["a-rule", "b-rule"]);
    assert!(v.rules.iter().all(|r| r.id == r.name));
    // A path outside the root is kept whole; a zero start line reads as 1.
    let l0 = v.results[0].location.as_ref().unwrap();
    assert_eq!((l0.uri.as_str(), l0.start_line), ("/elsewhere/f.rs", 1));
    let l1 = v.results[1].location.as_ref().unwrap();
    assert_eq!((l1.uri.as_str(), l1.start_line), ("src/x.rs", 7));
    assert!(v.results[2].location.is_none());
    assert_eq!(v.results[2].rule_id, "b-rule");
    assert_eq!(v.results[2].message, "msg");
}
