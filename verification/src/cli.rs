//! Decisions of the command line: when a run fails, and how its timestamp
//! reads.
use vstd::prelude::*;
use crate::model::{views, FindingView, Report, Severity};
use crate::strings::{dec, push_decimal};

verus! {

/// The severity at which `--fail-on` makes a run fail.
#[derive(Clone, Copy, Debug, PartialEq, Eq, Structural)]
pub enum FailLevel {
    Warn,
    Error,
}

/// Whether a finding of severity `sev` meets or exceeds `level`.
pub open spec fn trips(sev: Severity, level: FailLevel) -> bool {
    match level {
        FailLevel::Error => sev == Severity::Error,
        FailLevel::Warn => sev == Severity::Error || sev == Severity::Warn,
    }
}

/// Whether any finding meets or exceeds `level`.
pub open spec fn fails(fs: Seq<FindingView>, level: FailLevel) -> bool {
    exists|i: int| 0 <= i < fs.len() && trips((#[trigger] fs[i]).severity, level)
}

/// Whether any finding meets or exceeds the `--fail-on` threshold.
pub fn should_fail(report: &Report, level: FailLevel) -> (r: bool)
    ensures
        r == fails(views(report.findings@), level),
{
    let ghost fs = views(report.findings@);
    for i in 0..report.findings.len()
        invariant
            fs == views(report.findings@),
            forall|j: int| 0 <= j < i ==> !trips((#[trigger] fs[j]).severity, level),
    {
        let sev = report.findings[i].severity;
        let hit = match level {
            FailLevel::Error => sev == Severity::Error,
            FailLevel::Warn => sev == Severity::Error || sev == Severity::Warn,
        };
        if hit {
            assert(trips(fs[i as int].severity, level));
            return true;
        }
    }
    false
}

/// Law: a report that fails at `error` also fails at `warn` — the warn gate
/// is at least as strict as the error gate.
pub proof fn lemma_fail_on_warn_covers_error(fs: Seq<FindingView>)
    ensures
        fails(fs, FailLevel::Error) ==> fails(fs, FailLevel::Warn),
{
    if fails(fs, FailLevel::Error) {
        let i = choose|i: int| 0 <= i < fs.len() && trips((#[trigger] fs[i]).severity, FailLevel::Error);
        assert(trips(fs[i].severity, FailLevel::Warn));
    }
}

/// Law: a run fails at `warn` exactly when some finding is not merely
/// informational, and at `error` exactly when some finding is an error.
pub proof fn lemma_fail_levels(fs: Seq<FindingView>)
    ensures
        fails(fs, FailLevel::Warn) <==> exists|i: int|
            0 <= i < fs.len() && (#[trigger] fs[i]).severity != Severity::Info,
        fails(fs, FailLevel::Error) <==> exists|i: int|
            0 <= i < fs.len() && (#[trigger] fs[i]).severity == Severity::Error,
{
}

/// The report timestamp for `secs` seconds since the Unix epoch.
pub fn now_rfc3339_ish(secs: u64) -> (r: String)
    ensures
        r@ == "unix:"@ + dec(secs as nat),
{
    let mut s = String::new();
    s.append("unix:");
    push_decimal(&mut s, secs as u128);
    s
}

/// How the finding count moved against a baseline run.
#[derive(Clone, Copy, Debug, PartialEq, Eq, Structural)]
pub enum Trend {
    Regression,
    Improvement,
    NoChange,
}

/// More findings than the baseline is a regression, fewer an improvement.
pub open spec fn trend_spec(prior: nat, current: nat) -> Trend {
    if current > prior {
        Trend::Regression
    } else if current < prior {
        Trend::Improvement
    } else {
        Trend::NoChange
    }
}

/// How `current` findings compare with `prior` ones.
pub fn trend(prior: u64, current: u64) -> (r: Trend)
    ensures
        r == trend_spec(prior as nat, current as nat),
{
    if current > prior {
        Trend::Regression
    } else if current < prior {
        Trend::Improvement
    } else {
        Trend::NoChange
    }
}

/// The line reporting the trend against a baseline.
pub open spec fn trend_message_spec(prior: nat, current: nat) -> Seq<char> {
    match trend_spec(prior, current) {
        Trend::Regression => "trend: regression ("@ + dec(prior) + " → "@ + dec(current)
            + " findings)"@,
        Trend::Improvement => "trend: improvement ("@ + dec(prior) + " → "@ + dec(current)
            + " findings)"@,
        Trend::NoChange => "trend: no change ("@ + dec(current) + " findings)"@,
    }
}

/// The line reporting how `current` findings compare with a baseline of
/// `prior`.
pub fn trend_message(prior: u64, current: u64) -> (r: String)
    ensures
        r@ == trend_message_spec(prior as nat, current as nat),
{
    let mut s = String::new();
    match trend(prior, current) {
        Trend::Regression => {
            s.append("trend: regression (");
            push_decimal(&mut s, prior as u128);
            s.append(" → ");
            push_decimal(&mut s, current as u128);
            s.append(" findings)");
        },
        Trend::Improvement => {
            s.append("trend: improvement (");
            push_decimal(&mut s, prior as u128);
            s.append(" → ");
            push_decimal(&mut s, current as u128);
            s.append(" findings)");
        },
        Trend::NoChange => {
            s.append("trend: no change (");
            push_decimal(&mut s, current as u128);
            s.append(" findings)");
        },
    }
    s
}

} // verus!
