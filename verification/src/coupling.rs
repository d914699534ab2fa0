//! `coupling` — per-file efferent coupling ("God module" smell).
//!
//! Counts the distinct crate roots a file imports. A file that pulls in many
//! different crates is doing too much and is a refactor candidate.
use vstd::prelude::*;
use crate::imports::{file_use_roots, use_roots_spec};
use crate::model::{
    lemma_views_push, views, Context, CrateData, Finding, FindingView, Inspection, Location,
    LocationView, Metric, Severity, SourceFile,
};
use crate::strings::{dec, push_decimal};
use crate::workspace_graph::count_metric;

verus! {

pub struct Coupling;

impl Coupling {
    pub const NAME: &'static str = "coupling";
}

/// The finding for a file importing `count` distinct roots.
pub open spec fn coupling_finding(krate: Seq<char>, f: SourceFile, count: nat, warn: usize) -> FindingView {
    FindingView {
        inspection: "coupling"@,
        severity: Severity::Warn,
        location: LocationView { krate: Some(krate), file: Some(f.path@), span: None },
        message: "file imports "@ + dec(count) + " distinct crate roots (> "@ + dec(warn as nat)
            + " threshold)"@,
        metric: Some(count_metric(count)),
    }
}

/// Coupling findings for a crate's files.
pub open spec fn coupling_files(krate: Seq<char>, files: Seq<SourceFile>, warn: usize) -> Seq<
    FindingView,
>
    decreases files.len(),
{
    if files.len() == 0 {
        seq![]
    } else {
        let count = use_roots_spec(files.last().ast).len();
        coupling_files(krate, files.drop_last(), warn) + if count > warn {
            seq![coupling_finding(krate, files.last(), count, warn)]
        } else {
            seq![]
        }
    }
}

/// Coupling findings for a list of crates.
pub open spec fn coupling_spec(crates: Seq<CrateData>, warn: usize) -> Seq<FindingView>
    decreases crates.len(),
{
    if crates.len() == 0 {
        seq![]
    } else {
        coupling_spec(crates.drop_last(), warn) + coupling_files(
            crates.last().name@,
            crates.last().files@,
            warn,
        )
    }
}

impl Inspection for Coupling {
    open spec fn accepts(&self, ctx: &Context) -> bool {
        true
    }

    open spec fn findings_spec(&self, ctx: &Context) -> Seq<FindingView> {
        coupling_spec(ctx.crates@, ctx.config.coupling_warn)
    }

    open spec fn inspection_name(&self) -> Seq<char> {
        "coupling"@
    }

    fn name(&self) -> (r: &'static str) {
        Self::NAME
    }

    fn run(&self, ctx: &Context) -> (r: Vec<Finding>) {
        let warn = ctx.config.coupling_warn;
        let mut findings: Vec<Finding> = Vec::new();
        let crates = &ctx.crates;
        for c in 0..crates.len()
            invariant
                crates == &ctx.crates,
                warn == ctx.config.coupling_warn,
                views(findings@) == coupling_spec(crates@.take(c as int), warn),
        {
            let krate = &crates[c];
            let ghost before = views(findings@);
            proof {
                assert(crates@.take(c + 1).drop_last() =~= crates@.take(c as int));
            }
            for i in 0..krate.files.len()
                invariant
                    krate == &crates@[c as int],
                    warn == ctx.config.coupling_warn,
                    views(findings@) == before + coupling_files(
                        krate.name@,
                        krate.files@.take(i as int),
                        warn,
                    ),
            {
                let file = &krate.files[i];
                proof {
                    assert(krate.files@.take(i + 1).drop_last() =~= krate.files@.take(i as int));
                }
                let count = file_use_roots(&file.ast).len();
                if count > warn {
                    let mut message = String::new();
                    message.append("file imports ");
                    push_decimal(&mut message, count as u128);
                    message.append(" distinct crate roots (> ");
                    push_decimal(&mut message, warn as u128);
                    message.append(" threshold)");
                    let f = Finding {
                        inspection: Self::NAME,
                        severity: Severity::Warn,
                        location: Location::in_file(&krate.name, &file.path),
                        message,
                        metric: Some(Metric::count(count as u64)),
                    };
                    proof {
                        lemma_views_push(findings@, f);
                        assert(f@ == coupling_finding(krate.name@, *file, count as nat, warn));
                    }
                    findings.push(f);
                }
                proof {
                    assert(views(findings@) =~= before + coupling_files(
                        krate.name@,
                        krate.files@.take(i + 1),
                        warn,
                    ));
                }
            }
            proof {
                assert(krate.files@.take(krate.files@.len() as int) =~= krate.files@);
            }
        }
        proof {
            assert(crates@.take(crates@.len() as int) =~= crates@);
        }
        findings
    }
}

} // verus!
