//! Command-line decisions: `--fail-on`, timestamps and baseline trends.
use rpi::cli::{now_rfc3339_ish, should_fail, trend, trend_message, FailLevel, Trend};
use rpi::model::{Finding, Location, Report, Severity};

fn report_with(sev: Severity) -> Report {
    let f = Finding {
        inspection: "x",
        severity: sev,
        location: Location::default(),
        message: "m".into(),
        metric: None,
    };
    Report::new(Default::default(), vec![f], "t".into())
}

#[test]
fn fail_on_error_ignores_warn_and_info() {
    assert!(!should_fail(&report_with(Severity::Warn), FailLevel::Error));
    assert!(!should_fail(&report_with(Severity::Info), FailLevel::Error));
    assert!(should_fail(&report_with(Severity::Error), FailLevel::Error));
}

#[test]
fn fail_on_warn_catches_warn_and_error_but_not_info() {
    assert!(should_fail(&report_with(Severity::Warn), FailLevel::Warn));
    assert!(should_fail(&report_with(Severity::Error), FailLevel::Warn));
    assert!(!should_fail(&report_with(Severity::Info), FailLevel::Warn));
}

#[test]
fn empty_report_never_fails() {
    let r = Report::new(Default::default(), vec![], "t".into());
    assert!(!should_fail(&r, FailLevel::Warn));
    assert!(!should_fail(&r, FailLevel::Error));
}

#[test]
fn timestamp_is_unix_seconds() {
    assert_eq!(now_rfc3339_ish(0), "unix:0");
    assert_eq!(now_rfc3339_ish(1_700_000_000), "unix:1700000000");
    assert_eq!(now_rfc3339_ish(u64::MAX), "unix:18446744073709551615");
}

#[test]
fn trend_classifies_counts() {
    assert_eq!(trend(1, 2), Trend::Regression);
    assert_eq!(trend(9999, 2), Trend::Improvement);
    assert_eq!(trend(3, 3), Trend::NoChange);
}

#[test]
fn trend_messages_in_full() {
    assert_eq!(trend_message(1, 4), "trend: regression (1 → 4 findings)");
    assert_eq!(trend_message(9999, 4), "trend: improvement (9999 → 4 findings)");
    assert_eq!(trend_message(4, 4), "trend: no change (4 findings)");
}
