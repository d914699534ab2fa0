//! `complexity` — per-function cyclomatic complexity.
//!
//! Complexity = 1 + decision points in the function body, where a decision
//! point is any `if`, `while`, `for`, `loop`, `match` arm, `&&`/`||`, or `?`.
//! Nested functions count toward their enclosing function as well as their
//! own.
use vstd::prelude::*;
use crate::ast_metrics::{lemma_sum_nat_prefix, sum_nat};
use crate::model::{
    lemma_views_push, views, Context, CrateData, Finding, FindingView, Inspection, Location,
    LocationView, Metric, Severity, SourceFile,
};
use crate::strings::{dec, push_decimal};
use crate::syntax::{
    body_end, body_nodes, body_start, count_where, decision, decision_pred,
    lemma_count_where_bound, lemma_count_where_congruent, lemma_count_where_push, BinOp, BodySpan, SyntaxFile, SyntaxNode,
};
use crate::workspace_graph::count_metric;

verus! {

pub struct Complexity;

impl Complexity {
    pub const NAME: &'static str = "complexity";
}

/// The complexity of the function node at `i` whose body is `span`.
pub open spec fn fn_complexity(nodes: Seq<SyntaxNode>, i: int, span: BodySpan) -> nat {
    1 + count_where(body_nodes(nodes, i, span), decision_pred())
}

/// Law: a function's cyclomatic complexity is one plus the number of decision
/// points in its body, where every `if`, `while`, `for`, `loop`, `match` arm,
/// `?`, `&&` and `||` node counts once and no other node counts.
pub proof fn lemma_complexity_counts_each_decision(nodes: Seq<SyntaxNode>, i: int, span: BodySpan)
    ensures
        fn_complexity(nodes, i, span) == 1 + count_where(
            body_nodes(nodes, i, span),
            (|n: SyntaxNode|
                n is If || n is While || n is ForLoop || n is Loop || n is MatchArm || n is Try
                    || n == (SyntaxNode::Binary { op: BinOp::And }) || n == (SyntaxNode::Binary {
                    op: BinOp::Or,
                })),
        ),
{
    let body = body_nodes(nodes, i, span);
    let q = |n: SyntaxNode|
        n is If || n is While || n is ForLoop || n is Loop || n is MatchArm || n is Try || n == (
        SyntaxNode::Binary { op: BinOp::And }) || n == (SyntaxNode::Binary { op: BinOp::Or });
    lemma_count_where_congruent(body, decision_pred(), q);
}

/// `(name, complexity)` of every function with a body among the first `k`
/// nodes, in order.
pub open spec fn complexities_upto(nodes: Seq<SyntaxNode>, k: int) -> Seq<(Seq<char>, nat)>
    decreases k,
{
    if k <= 0 {
        seq![]
    } else {
        complexities_upto(nodes, k - 1) + match nodes[k - 1] {
            SyntaxNode::Fn { name, body: Some(span), .. } => seq![
                (name@, fn_complexity(nodes, k - 1, span)),
            ],
            _ => seq![],
        }
    }
}

/// `(name, complexity)` of every function with a body in a file, in order.
pub open spec fn complexities(nodes: Seq<SyntaxNode>) -> Seq<(Seq<char>, nat)> {
    complexities_upto(nodes, nodes.len() as int)
}

/// The view of a list of `(name, complexity)` pairs.
pub open spec fn pairs_view(v: Seq<(String, usize)>) -> Seq<(Seq<char>, nat)> {
    v.map_values(|p: (String, usize)| (p.0@, p.1 as nat))
}

/// Sum of the complexities of a file's functions.
pub open spec fn total_complexity(nodes: Seq<SyntaxNode>) -> nat {
    sum_nat(complexities(nodes).map_values(|p: (Seq<char>, nat)| p.1))
}

/// Decision points among `nodes[start..end]`.
fn count_decisions(nodes: &Vec<SyntaxNode>, start: usize, end: usize) -> (r: usize)
    requires
        start <= end <= nodes@.len(),
    ensures
        r == count_where(nodes@.subrange(start as int, end as int), decision_pred()),
        r <= end - start,
{
    let mut count: usize = 0;
    let mut j = start;
    proof {
        assert(nodes@.subrange(start as int, start as int) =~= Seq::<SyntaxNode>::empty());
    }
    while j < end
        invariant
            start <= j <= end <= nodes@.len(),
            count == count_where(nodes@.subrange(start as int, j as int), decision_pred()),
            count <= j - start,
        decreases end - j,
    {
        proof {
            let t = nodes@.subrange(start as int, j as int);
            assert(nodes@.subrange(start as int, j + 1) =~= t.push(nodes@[j as int]));
            lemma_count_where_push(t, nodes@[j as int], decision_pred());
        }
        if decision(&nodes[j]) {
            count = count + 1;
        }
        j = j + 1;
    }
    count
}

/// `(function name, cyclomatic complexity)` for every function in a file.
pub fn function_complexities(ast: &SyntaxFile) -> (r: Vec<(String, usize)>)
    ensures
        pairs_view(r@) == complexities(ast.nodes@),
{
    let nodes = &ast.nodes;
    let n = nodes.len();
    let mut out: Vec<(String, usize)> = Vec::new();
    for i in 0..n
        invariant
            nodes == &ast.nodes,
            n == nodes@.len(),
            pairs_view(out@) == complexities_upto(nodes@, i as int),
    {
        match &nodes[i] {
            SyntaxNode::Fn { name, body: Some(span), .. } => {
                let base = i + 1;
                let start = if span.skip <= n - base {
                    base + span.skip
                } else {
                    n
                };
                let end = if span.len <= n - start {
                    start + span.len
                } else {
                    n
                };
                assert(start == body_start(nodes@, i as int, *span));
                assert(end == body_end(nodes@, i as int, *span));
                let d = count_decisions(nodes, start, end);
                let entry = (name.clone(), 1 + d);
                proof {
                    assert(pairs_view(out@.push(entry)) =~= pairs_view(out@).push(
                        (name@, fn_complexity(nodes@, i as int, *span)),
                    ));
                }
                out.push(entry);
            },
            _ => {
                proof {
                    assert(complexities_upto(nodes@, i + 1) =~= complexities_upto(nodes@, i as int));
                }
            },
        }
    }
    out
}

/// Total cyclomatic complexity of a file (sum over its functions).
pub fn file_complexity(ast: &SyntaxFile) -> (r: usize)
    requires
        total_complexity(ast.nodes@) <= usize::MAX,
    ensures
        r == total_complexity(ast.nodes@),
{
    let cs = function_complexities(ast);
    let ghost vals = complexities(ast.nodes@).map_values(|p: (Seq<char>, nat)| p.1);
    let mut total: usize = 0;
    for i in 0..cs.len()
        invariant
            pairs_view(cs@) == complexities(ast.nodes@),
            vals == complexities(ast.nodes@).map_values(|p: (Seq<char>, nat)| p.1),
            sum_nat(vals) <= usize::MAX,
            total == sum_nat(vals.take(i as int)),
    {
        proof {
            assert(vals.take(i + 1).drop_last() =~= vals.take(i as int));
            assert(vals[i as int] == cs@[i as int].1);
            lemma_sum_nat_prefix(vals, i + 1);
        }
        total = total + cs[i].1;
    }
    proof {
        assert(vals.take(cs@.len() as int) =~= vals);
    }
    total
}

/// The finding for one over-complex function.
pub open spec fn complexity_finding(krate: Seq<char>, f: SourceFile, name: Seq<char>, score: nat, warn: usize) -> FindingView {
    FindingView {
        inspection: "complexity"@,
        severity: Severity::Warn,
        location: LocationView { krate: Some(krate), file: Some(f.path@), span: None },
        message: "fn `"@ + name + "` has cyclomatic complexity "@ + dec(score) + " (> "@ + dec(
            warn as nat,
        ) + ")"@,
        metric: Some(count_metric(score)),
    }
}

/// Findings for the functions `cs` of file `f`.
pub open spec fn complexity_fns(krate: Seq<char>, f: SourceFile, cs: Seq<(Seq<char>, nat)>, warn: usize) -> Seq<FindingView>
    decreases cs.len(),
{
    if cs.len() == 0 {
        seq![]
    } else {
        complexity_fns(krate, f, cs.drop_last(), warn) + if cs.last().1 > warn {
            seq![complexity_finding(krate, f, cs.last().0, cs.last().1, warn)]
        } else {
            seq![]
        }
    }
}

/// Findings for a crate's files.
pub open spec fn complexity_files(krate: Seq<char>, files: Seq<SourceFile>, warn: usize) -> Seq<
    FindingView,
>
    decreases files.len(),
{
    if files.len() == 0 {
        seq![]
    } else {
        complexity_files(krate, files.drop_last(), warn) + complexity_fns(
            krate,
            files.last(),
            complexities(files.last().ast.nodes@),
            warn,
        )
    }
}

/// Findings for a list of crates.
pub open spec fn complexity_spec(crates: Seq<CrateData>, warn: usize) -> Seq<FindingView>
    decreases crates.len(),
{
    if crates.len() == 0 {
        seq![]
    } else {
        complexity_spec(crates.drop_last(), warn) + complexity_files(
            crates.last().name@,
            crates.last().files@,
            warn,
        )
    }
}

impl Inspection for Complexity {
    open spec fn accepts(&self, ctx: &Context) -> bool {
        true
    }

    open spec fn findings_spec(&self, ctx: &Context) -> Seq<FindingView> {
        complexity_spec(ctx.crates@, ctx.config.complexity_warn)
    }

    open spec fn inspection_name(&self) -> Seq<char> {
        "complexity"@
    }

    fn name(&self) -> (r: &'static str) {
        Self::NAME
    }

    fn run(&self, ctx: &Context) -> (r: Vec<Finding>) {
        let warn = ctx.config.complexity_warn;
        let mut findings: Vec<Finding> = Vec::new();
        let crates = &ctx.crates;
        for c in 0..crates.len()
            invariant
                crates == &ctx.crates,
                warn == ctx.config.complexity_warn,
                views(findings@) == complexity_spec(crates@.take(c as int), warn),
        {
            let krate = &crates[c];
            let ghost before_crate = views(findings@);
            proof {
                assert(crates@.take(c + 1).drop_last() =~= crates@.take(c as int));
            }
            for i in 0..krate.files.len()
                invariant
                    krate == &crates@[c as int],
                    warn == ctx.config.complexity_warn,
                    views(findings@) == before_crate + complexity_files(
                        krate.name@,
                        krate.files@.take(i as int),
                        warn,
                    ),
            {
                let file = &krate.files[i];
                let ghost before_file = views(findings@);
                proof {
                    assert(krate.files@.take(i + 1).drop_last() =~= krate.files@.take(i as int));
                }
                let cs = function_complexities(&file.ast);
                let ghost cv = complexities(file.ast.nodes@);
                for k in 0..cs.len()
                    invariant
                        pairs_view(cs@) == cv,
                        cv == complexities(file.ast.nodes@),
                        warn == ctx.config.complexity_warn,
                        views(findings@) == before_file + complexity_fns(
                            krate.name@,
                            *file,
                            cv.take(k as int),
                            warn,
                        ),
                {
                    proof {
                        assert(cv.take(k + 1).drop_last() =~= cv.take(k as int));
                        assert(cv[k as int] == (cs@[k as int].0@, cs@[k as int].1 as nat));
                    }
                    let score = cs[k].1;
                    if score > warn {
                        let mut message = String::new();
                        message.append("fn `");
                        message.append(cs[k].0.as_str());
                        message.append("` has cyclomatic complexity ");
                        push_decimal(&mut message, score as u128);
                        message.append(" (> ");
                        push_decimal(&mut message, warn as u128);
                        message.append(")");
                        let f = Finding {
                            inspection: Self::NAME,
                            severity: Severity::Warn,
                            location: Location::in_file(&krate.name, &file.path),
                            message,
                            metric: Some(Metric::count(score as u64)),
                        };
                        proof {
                            lemma_views_push(findings@, f);
                            assert(f@ == complexity_finding(
                                krate.name@,
                                *file,
                                cv[k as int].0,
                                cv[k as int].1,
                                warn,
                            ));
                        }
                        findings.push(f);
                    }
                    proof {
                        assert(views(findings@) =~= before_file + complexity_fns(
                            krate.name@,
                            *file,
                            cv.take(k + 1),
                            warn,
                        ));
                    }
                }
                proof {
                    assert(cv.take(cs@.len() as int) =~= cv);
                    assert(views(findings@) =~= before_crate + complexity_files(
                        krate.name@,
                        krate.files@.take(i + 1),
                        warn,
                    ));
                }
            }
            proof {
                assert(krate.files@.take(krate.files@.len() as int) =~= krate.files@);
            }
        }
        proof {
            assert(crates@.take(crates@.len() as int) =~= crates@);
        }
        findings
    }
}

} // verus!
