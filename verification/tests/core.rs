//! The report model.
use rpi::model::{Config, Location, Metric, Report, WorkspaceInfo};

#[test]
fn report_derives_metrics() {
    let ws = WorkspaceInfo { root: "/tmp/x".into(), crates: vec!["a".into(), "b".into()] };
    let report = Report::new(ws, Vec::new(), "1970-01-01T00:00:00Z".into());
    assert_eq!(report.metrics.crate_count, 2);
    assert_eq!(report.metrics.finding_count, 0);
}

#[test]
fn location_constructors() {
    let l = Location::default();
    assert!(l.krate.is_none() && l.file.is_none() && l.span.is_none());
    let l = Location::in_crate(&"core".to_string());
    assert_eq!(l.krate.as_deref(), Some("core"));
    assert!(l.file.is_none() && l.span.is_none());
    let l = Location::in_file(&"core".to_string(), &"/w/src/lib.rs".to_string());
    assert_eq!(l.file.as_deref(), Some("/w/src/lib.rs"));
}

#[test]
fn metric_count_is_a_plain_number() {
    assert_eq!(Metric::count(7), Metric { numerator: 7, denominator: 1, scale: 1 });
}

#[test]
fn default_thresholds() {
    let c = Config::default();
    assert_eq!(c.module_size_loc, 300);
    assert_eq!(c.pub_surface_warn, 50);
    assert_eq!(c.unsafe_density_warn_milli, 5000);
}
