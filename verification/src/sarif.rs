//! SARIF 2.1.0 layout of a report, for code-scanning services.
//!
//! File paths are given relative to the workspace root so that results anchor
//! to the repository tree; crate-scoped findings without a file carry no
//! physical location.
use vstd::prelude::*;
use crate::model::{opt_str, views, Finding, FindingView, Report, Severity};
use crate::strings::{insert_sorted, lemma_sorted_elems, sorted_elems, strictly_sorted, strs};

verus! {

/// What `std::path::Path::strip_prefix` gives for `path` and `base`: the rest
/// of `path` after the whole components of `base`, or nothing when `base` is
/// not a prefix of it.
pub uninterp spec fn path_strip_prefix(path: Seq<char>, base: Seq<char>) -> Option<Seq<char>>;

/// `Path::strip_prefix` from std, on paths given as strings, its result
/// displayed back as a string.
#[verifier::external_body]
fn strip_path_prefix(path: &str, base: &str) -> (r: Option<String>)
    ensures
        opt_str(r) == path_strip_prefix(path@, base@),
{
    std::path::Path::new(path).strip_prefix(base).ok().map(|p| p.display().to_string())
}

/// One rule: an inspection that produced a finding.
#[derive(Debug)]
pub struct SarifRule {
    pub id: String,
    pub name: String,
}

/// Where a result lies: a file and a 1-based start line.
#[derive(Debug)]
pub struct SarifLocation {
    pub uri: String,
    pub start_line: usize,
}

/// One result: a finding.
#[derive(Debug)]
pub struct SarifResult {
    pub rule_id: String,
    pub level: &'static str,
    pub message: String,
    pub location: Option<SarifLocation>,
}

/// A SARIF log with one run.
#[derive(Debug)]
pub struct SarifLog {
    pub schema: &'static str,
    pub version: &'static str,
    pub tool_name: &'static str,
    pub information_uri: &'static str,
    pub rules: Vec<SarifRule>,
    pub results: Vec<SarifResult>,
}

/// The mathematical content of a [`SarifResult`].
pub struct SarifResultView {
    pub rule_id: Seq<char>,
    pub level: Seq<char>,
    pub message: Seq<char>,
    pub location: Option<(Seq<char>, nat)>,
}

impl View for SarifResult {
    type V = SarifResultView;

    open spec fn view(&self) -> SarifResultView {
        SarifResultView {
            rule_id: self.rule_id@,
            level: self.level@,
            message: self.message@,
            location: match self.location {
                Some(l) => Some((l.uri@, l.start_line as nat)),
                None => None,
            },
        }
    }
}

/// The SARIF level of a severity.
pub open spec fn level_of(sev: Severity) -> Seq<char> {
    match sev {
        Severity::Error => "error"@,
        Severity::Warn => "warning"@,
        Severity::Info => "note"@,
    }
}

/// The SARIF level of a severity.
pub fn sarif_level(sev: Severity) -> (r: &'static str)
    ensures
        r@ == level_of(sev),
{
    match sev {
        Severity::Error => "error",
        Severity::Warn => "warning",
        Severity::Info => "note",
    }
}

/// The result for a finding, given what stripping the workspace root off its
/// file gave: the file relative to the root when that worked, else the file
/// as it is; the start line of its span, at least 1 (1 when unknown).
pub open spec fn result_spec(f: FindingView, stripped: Option<Seq<char>>) -> SarifResultView {
    SarifResultView {
        rule_id: f.inspection,
        level: level_of(f.severity),
        message: f.message,
        location: match f.location.file {
            Some(file) => Some(
                (
                    match stripped {
                        Some(s) => s,
                        None => file,
                    },
                    match f.location.span {
                        Some(sp) => if sp.0 >= 1 {
                            sp.0 as nat
                        } else {
                            1nat
                        },
                        None => 1nat,
                    },
                ),
            ),
            None => None,
        },
    }
}

/// The result for a finding; `stripped` is its file with the workspace root
/// stripped off, when that worked.
pub fn sarif_result(f: &Finding, stripped: Option<String>) -> (r: SarifResult)
    ensures
        r@ == result_spec(f@, opt_str(stripped)),
{
    let location = match &f.location.file {
        Some(file) => {
            let uri = match stripped {
                Some(s) => s,
                None => file.clone(),
            };
            let line = match f.location.span {
                Some((start, _)) => if start >= 1 {
                    start
                } else {
                    1
                },
                None => 1,
            };
            Some(SarifLocation { uri, start_line: line })
        },
        None => None,
    };
    SarifResult {
        rule_id: String::from_str(f.inspection),
        level: sarif_level(f.severity),
        message: f.message.clone(),
        location,
    }
}

/// The names of the inspections among the first `k` findings.
pub open spec fn inspections_upto(fs: Seq<FindingView>, k: int) -> Set<Seq<char>> {
    Set::new(|n: Seq<char>| exists|i: int| 0 <= i < k && #[trigger] fs[i].inspection == n)
}

/// What stripping the root gives for each finding's file.
pub open spec fn stripped_of(f: FindingView, root: Seq<char>) -> Option<Seq<char>> {
    match f.location.file {
        Some(file) => path_strip_prefix(file, root),
        None => None,
    }
}

/// The rule ids of a list of rules.
pub open spec fn rule_ids(v: Seq<SarifRule>) -> Seq<Seq<char>> {
    v.map_values(|r: SarifRule| r.id@)
}

/// The SARIF log of a report: one rule per distinct inspection that produced
/// a finding (sorted by name), one result per finding (in order).
pub fn sarif(report: &Report) -> (r: SarifLog)
    ensures
        r.schema@ == "https://json.schemastore.org/sarif-2.1.0.json"@,
        r.version@ == "2.1.0"@,
        r.tool_name@ == "rust-project-inspector"@,
        r.information_uri@ == "https://github.com/flipslidersand/rust-project-inspector"@,
        rule_ids(r.rules@) == sorted_elems(
            inspections_upto(views(report.findings@), report.findings@.len() as int),
        ),
        forall|i: int| 0 <= i < r.rules@.len() ==> (#[trigger] r.rules@[i]).name@ == r.rules@[i].id@,
        r.results@.len() == report.findings@.len(),
        forall|i: int|
            0 <= i < r.results@.len() ==> (#[trigger] r.results@[i])@ == result_spec(
                report.findings@[i]@,
                stripped_of(report.findings@[i]@, report.workspace.root@),
            ),
{
    let ghost fs = views(report.findings@);
    let mut ids: Vec<String> = Vec::new();
    assert(strs(ids@).to_set() =~= inspections_upto(fs, 0));
    for k in 0..report.findings.len()
        invariant
            fs == views(report.findings@),
            strictly_sorted(strs(ids@)),
            strs(ids@).to_set() == inspections_upto(fs, k as int),
    {
        let name = String::from_str(report.findings[k].inspection);
        let ghost nv = name@;
        assert(nv == fs[k as int].inspection);
        insert_sorted(&mut ids, name);
        proof {
            assert forall|n: Seq<char>| inspections_upto(fs, k + 1).contains(n) <==> inspections_upto(
                fs,
                k as int,
            ).insert(nv).contains(n) by {
                if inspections_upto(fs, k + 1).contains(n) {
                    let j = choose|j: int| 0 <= j < k + 1 && #[trigger] fs[j].inspection == n;
                    if j < k {
                        assert(inspections_upto(fs, k as int).contains(n));
                    }
                }
                if inspections_upto(fs, k as int).contains(n) {
                    let j = choose|j: int| 0 <= j < k && #[trigger] fs[j].inspection == n;
                    assert(inspections_upto(fs, k + 1).contains(n));
                }
                if n == fs[k as int].inspection {
                    assert(inspections_upto(fs, k + 1).contains(n));
                }
            }
            assert(strs(ids@).to_set() =~= inspections_upto(fs, k + 1));
        }
    }
    proof {
        lemma_sorted_elems(strs(ids@));
    }
    let mut rules: Vec<SarifRule> = Vec::new();
    for k in 0..ids.len()
        invariant
            rule_ids(rules@) == strs(ids@).take(k as int),
            forall|i: int| 0 <= i < rules@.len() ==> (#[trigger] rules@[i]).name@ == rules@[i].id@,
    {
        let rule = SarifRule { id: ids[k].clone(), name: ids[k].clone() };
        let ghost before = rules@;
        rules.push(rule);
        assert(rules@ == before.push(rule));
        assert(rule_ids(rules@) =~= rule_ids(before).push(ids@[k as int]@));
        assert(rule_ids(rules@) =~= strs(ids@).take(k + 1));
    }
    assert(strs(ids@).take(ids@.len() as int) =~= strs(ids@));
    let mut results: Vec<SarifResult> = Vec::new();
    for k in 0..report.findings.len()
        invariant
            results@.len() == k,
            forall|i: int|
                0 <= i < k ==> (#[trigger] results@[i])@ == result_spec(
                    report.findings@[i]@,
                    stripped_of(report.findings@[i]@, report.workspace.root@),
                ),
    {
        let f = &report.findings[k];
        let stripped = match &f.location.file {
            Some(file) => strip_path_prefix(file.as_str(), report.workspace.root.as_str()),
            None => None,
        };
        results.push(sarif_result(f, stripped));
    }
    SarifLog {
        schema: "https://json.schemastore.org/sarif-2.1.0.json",
        version: "2.1.0",
        tool_name: "rust-project-inspector",
        information_uri: "https://github.com/flipslidersand/rust-project-inspector",
        rules,
        results,
    }
}

} // verus!
