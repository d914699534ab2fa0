//! `churn-hotspot` — files that are both frequently changed and complex.
//!
//! Neither churn nor complexity alone is alarming; their intersection is where
//! bugs cluster and refactoring pays off. Flags files with a change count of
//! at least `churn_warn` *and* a total cyclomatic complexity above
//! `complexity_warn`. Silent when there is no change history.
use vstd::prelude::*;
use crate::complexity::{file_complexity, total_complexity};
use crate::model::{
    lemma_views_push, views, Context, CrateData, Finding, FindingView, Inspection, Location,
    LocationView, Metric, Severity, SourceFile,
};
use crate::strings::{dec, push_decimal, str_eq};
use crate::workspace_graph::count_metric;

verus! {

pub struct ChurnHotspot;

impl ChurnHotspot {
    pub const NAME: &'static str = "churn-hotspot";
}

/// The change count recorded for `path`: that of its last entry, or 0.
pub open spec fn churn_of(churn: Seq<(String, usize)>, path: Seq<char>) -> nat
    decreases churn.len(),
{
    if churn.len() == 0 {
        0
    } else if churn.last().0@ == path {
        churn.last().1 as nat
    } else {
        churn_of(churn.drop_last(), path)
    }
}

/// The change count of `path`.
pub fn churn_lookup(churn: &Vec<(String, usize)>, path: &str) -> (r: usize)
    ensures
        r == churn_of(churn@, path@),
{
    let mut k = churn.len();
    assert(churn@.take(k as int) =~= churn@);
    while k > 0
        invariant
            k <= churn@.len(),
            churn_of(churn@, path@) == churn_of(churn@.take(k as int), path@),
        decreases k,
    {
        assert(churn@.take(k as int).drop_last() =~= churn@.take(k - 1));
        if str_eq(churn[k - 1].0.as_str(), path) {
            return churn[k - 1].1;
        }
        k = k - 1;
    }
    0
}

/// The hotspot finding for a file.
pub open spec fn hotspot_finding(
    krate: Seq<char>,
    f: SourceFile,
    changes: nat,
    cx: nat,
    churn_warn: usize,
    cx_warn: usize,
) -> FindingView {
    FindingView {
        inspection: "churn-hotspot"@,
        severity: Severity::Warn,
        location: LocationView { krate: Some(krate), file: Some(f.path@), span: None },
        message: "hotspot: "@ + dec(changes) + " changes × complexity "@ + dec(cx) + " (churn≥"@
            + dec(churn_warn as nat) + ", complexity>"@ + dec(cx_warn as nat) + ")"@,
        metric: Some(count_metric(changes * cx)),
    }
}

/// Whether a file churns: its change count reaches the threshold.
pub open spec fn churns(ctx: Context, f: SourceFile) -> bool {
    churn_of(ctx.churn@, f.path@) >= ctx.config.churn_warn
}

/// Hotspot findings for a crate's files.
pub open spec fn hotspot_files(ctx: Context, krate: Seq<char>, files: Seq<SourceFile>) -> Seq<
    FindingView,
>
    decreases files.len(),
{
    if files.len() == 0 {
        seq![]
    } else {
        let f = files.last();
        let changes = churn_of(ctx.churn@, f.path@);
        let cx = total_complexity(f.ast.nodes@);
        hotspot_files(ctx, krate, files.drop_last()) + if churns(ctx, f)
            && cx > ctx.config.complexity_warn {
            seq![
                hotspot_finding(
                    krate,
                    f,
                    changes,
                    cx,
                    ctx.config.churn_warn,
                    ctx.config.complexity_warn,
                ),
            ]
        } else {
            seq![]
        }
    }
}

/// Hotspot findings for the first `k` crates.
pub open spec fn hotspot_upto(ctx: Context, crates: Seq<CrateData>) -> Seq<FindingView>
    decreases crates.len(),
{
    if crates.len() == 0 {
        seq![]
    } else {
        hotspot_upto(ctx, crates.drop_last()) + hotspot_files(
            ctx,
            crates.last().name@,
            crates.last().files@,
        )
    }
}

/// What `churn-hotspot` reports.
pub open spec fn churn_hotspot_spec(ctx: Context) -> Seq<FindingView> {
    if ctx.churn@.len() == 0 {
        seq![]
    } else {
        hotspot_upto(ctx, ctx.crates@)
    }
}

/// For every churning file, its total complexity and the risk product fit a
/// `usize`.
pub open spec fn hotspot_fits(ctx: Context) -> bool {
    forall|c: int, i: int|
        0 <= c < ctx.crates@.len() && 0 <= i < ctx.crates@[c].files@.len() && churns(
            ctx,
            #[trigger] ctx.crates@[c].files@[i],
        ) ==> {
            let f = ctx.crates@[c].files@[i];
            &&& total_complexity(f.ast.nodes@) <= usize::MAX
            &&& churn_of(ctx.churn@, f.path@) * total_complexity(f.ast.nodes@) <= usize::MAX
        }
}

impl Inspection for ChurnHotspot {
    open spec fn accepts(&self, ctx: &Context) -> bool {
        ctx.churn@.len() > 0 ==> hotspot_fits(*ctx)
    }

    open spec fn findings_spec(&self, ctx: &Context) -> Seq<FindingView> {
        churn_hotspot_spec(*ctx)
    }

    open spec fn inspection_name(&self) -> Seq<char> {
        "churn-hotspot"@
    }

    fn name(&self) -> (r: &'static str) {
        Self::NAME
    }

    fn run(&self, ctx: &Context) -> (r: Vec<Finding>) {
        let mut findings: Vec<Finding> = Vec::new();
        if ctx.churn.len() == 0 {
            return findings;
        }
        let churn_warn = ctx.config.churn_warn;
        let cx_warn = ctx.config.complexity_warn;
        let crates = &ctx.crates;
        for c in 0..crates.len()
            invariant
                crates == &ctx.crates,
                churn_warn == ctx.config.churn_warn,
                cx_warn == ctx.config.complexity_warn,
                ctx.churn@.len() > 0,
                hotspot_fits(*ctx),
                views(findings@) == hotspot_upto(*ctx, crates@.take(c as int)),
        {
            let krate = &crates[c];
            let ghost before = views(findings@);
            proof {
                assert(crates@.take(c + 1).drop_last() =~= crates@.take(c as int));
            }
            for i in 0..krate.files.len()
                invariant
                    krate == &crates@[c as int],
                    0 <= c < crates@.len(),
                    crates == &ctx.crates,
                    churn_warn == ctx.config.churn_warn,
                    cx_warn == ctx.config.complexity_warn,
                    hotspot_fits(*ctx),
                    views(findings@) == before + hotspot_files(
                        *ctx,
                        krate.name@,
                        krate.files@.take(i as int),
                    ),
            {
                let file = &krate.files[i];
                proof {
                    assert(krate.files@.take(i + 1).drop_last() =~= krate.files@.take(i as int));
                    assert(krate.files@.take(i + 1).last() == *file);
                }
                let changes = churn_lookup(&ctx.churn, file.path.as_str());
                if changes >= churn_warn {
                    proof {
                        assert(churns(*ctx, ctx.crates@[c as int].files@[i as int]));
                    }
                    let cx = file_complexity(&file.ast);
                    if cx > cx_warn {
                        let mut message = String::new();
                        message.append("hotspot: ");
                        push_decimal(&mut message, changes as u128);
                        message.append(" changes × complexity ");
                        push_decimal(&mut message, cx as u128);
                        message.append(" (churn≥");
                        push_decimal(&mut message, churn_warn as u128);
                        message.append(", complexity>");
                        push_decimal(&mut message, cx_warn as u128);
                        message.append(")");
                        let risk = changes * cx;
                        let f = Finding {
                            inspection: Self::NAME,
                            severity: Severity::Warn,
                            location: Location::in_file(&krate.name, &file.path),
                            message,
                            metric: Some(Metric::count(risk as u64)),
                        };
                        proof {
                            lemma_views_push(findings@, f);
                            assert(f@ == hotspot_finding(
                                krate.name@,
                                *file,
                                changes as nat,
                                cx as nat,
                                churn_warn,
                                cx_warn,
                            ));
                        }
                        findings.push(f);
                    }
                }
                proof {
                    assert(views(findings@) =~= before + hotspot_files(
                        *ctx,
                        krate.name@,
                        krate.files@.take(i + 1),
                    ));
                }
            }
            proof {
                assert(krate.files@.take(krate.files@.len() as int) =~= krate.files@);
            }
        }
        proof {
            assert(crates@.take(crates@.len() as int) =~= crates@);
        }
        findings
    }
}

} // verus!
