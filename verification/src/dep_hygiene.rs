//! `dep-hygiene` — declared-but-unused dependencies and duplicate versions.
//!
//! Two checks:
//! - **unused dep** (per crate): a declared external dependency whose crate
//!   root is never referenced in the crate's sources. Dependencies reached
//!   only through macro expansion may show as false positives.
//! - **duplicate version** (workspace-wide): one package resolved to more
//!   than one version across the dependency graph.
use vstd::prelude::*;
use crate::imports::{file_reference_roots, reference_roots_spec};
use crate::model::{
    lemma_views_append, lemma_views_push, views, Context, CrateData, Finding, FindingView, Inspection, Location,
    Metric, Severity, SourceFile,
};
use crate::strings::{
    contains_str, dec, insert_sorted, join, lemma_sorted_elems, push_char, push_decimal,
    push_joined, sorted_elems, str_eq, strictly_sorted, strs,
};
use crate::workspace_graph::{count_metric, crate_location, no_location};

verus! {

pub struct DepHygiene;

impl DepHygiene {
    pub const NAME: &'static str = "dep-hygiene";
}

/// A dependency name as its crate root is written in code: `-` becomes `_`.
pub open spec fn normalized(name: Seq<char>) -> Seq<char> {
    name.map_values(
        |c: char|
            if c == '-' {
                '_'
            } else {
                c
            },
    )
}

/// Cargo dependency names use `-`; the crate root in code uses `_`.
pub fn normalize(name: &str) -> (r: String)
    ensures
        r@ == normalized(name@),
{
    let n = name.unicode_len();
    let mut out = String::new();
    for i in 0..n
        invariant
            n == name@.len(),
            out@ == normalized(name@.take(i as int)),
    {
        let c = name.get_char(i);
        if c == '-' {
            push_char(&mut out, '_');
        } else {
            push_char(&mut out, c);
        }
        assert(out@ =~= normalized(name@.take(i + 1)));
    }
    assert(name@.take(n as int) =~= name@);
    out
}

/// The roots referenced anywhere in a list of files.
pub open spec fn files_refs(files: Seq<SourceFile>) -> Set<Seq<char>>
    decreases files.len(),
{
    if files.len() == 0 {
        Set::empty()
    } else {
        files_refs(files.drop_last()) + reference_roots_spec(files.last().ast)
    }
}

/// The finding for a dependency that looks unused.
pub open spec fn unused_finding(krate: Seq<char>, dep: Seq<char>) -> FindingView {
    FindingView {
        inspection: "dep-hygiene"@,
        severity: Severity::Warn,
        location: crate_location(krate),
        message: "declared dependency `"@ + dep + "` appears unused (approx.)"@,
        metric: None,
    }
}

/// Findings for the dependencies `deps` of a crate referencing `refs`.
pub open spec fn unused_deps(krate: Seq<char>, refs: Set<Seq<char>>, deps: Seq<Seq<char>>) -> Seq<
    FindingView,
>
    decreases deps.len(),
{
    if deps.len() == 0 {
        seq![]
    } else {
        unused_deps(krate, refs, deps.drop_last()) + if refs.contains(normalized(deps.last())) {
            seq![]
        } else {
            seq![unused_finding(krate, deps.last())]
        }
    }
}

/// Unused-dependency findings for a list of crates.
pub open spec fn unused_spec(crates: Seq<CrateData>) -> Seq<FindingView>
    decreases crates.len(),
{
    if crates.len() == 0 {
        seq![]
    } else {
        let k = crates.last();
        unused_spec(crates.drop_last()) + unused_deps(
            k.name@,
            files_refs(k.files@),
            k.external_deps.deep_view(),
        )
    }
}

/// The names among the first `k` resolved packages.
pub open spec fn names_upto(rv: Seq<(String, String)>, k: int) -> Set<Seq<char>> {
    Set::new(|n: Seq<char>| exists|i: int| 0 <= i < k && #[trigger] rv[i].0@ == n)
}

/// The versions `name` resolved to among the first `k` resolved packages.
pub open spec fn versions_upto(rv: Seq<(String, String)>, name: Seq<char>, k: int) -> Set<
    Seq<char>,
> {
    Set::new(|v: Seq<char>| exists|i: int| 0 <= i < k && #[trigger] rv[i].0@ == name && rv[i].1@ == v)
}

/// The finding for a package resolved to the versions `vers` (sorted).
pub open spec fn version_finding(name: Seq<char>, vers: Seq<Seq<char>>) -> FindingView {
    FindingView {
        inspection: "dep-hygiene"@,
        severity: Severity::Warn,
        location: no_location(),
        message: "crate `"@ + name + "` resolved to "@ + dec(vers.len()) + " versions: "@ + join(
            vers,
            ", "@,
        ),
        metric: Some(count_metric(vers.len())),
    }
}

/// Duplicate-version findings for the packages `names`, in order.
pub open spec fn version_findings(rv: Seq<(String, String)>, names: Seq<Seq<char>>) -> Seq<
    FindingView,
>
    decreases names.len(),
{
    if names.len() == 0 {
        seq![]
    } else {
        let vers = sorted_elems(versions_upto(rv, names.last(), rv.len() as int));
        version_findings(rv, names.drop_last()) + if vers.len() > 1 {
            seq![version_finding(names.last(), vers)]
        } else {
            seq![]
        }
    }
}

/// What `dep-hygiene` reports: unused dependencies crate by crate, then
/// packages with several versions, by name.
pub open spec fn dep_hygiene_spec(ctx: Context) -> Seq<FindingView> {
    let rv = ctx.resolved_versions@;
    unused_spec(ctx.crates@) + version_findings(rv, sorted_elems(names_upto(rv, rv.len() as int)))
}

/// The roots referenced anywhere in a crate, as a sorted list.
fn crate_refs(krate: &CrateData) -> (r: Vec<String>)
    ensures
        strictly_sorted(strs(r@)),
        strs(r@).to_set() == files_refs(krate.files@),
{
    let mut referenced: Vec<String> = Vec::new();
    assert(strs(referenced@).to_set() =~= Set::<Seq<char>>::empty());
    for i in 0..krate.files.len()
        invariant
            strictly_sorted(strs(referenced@)),
            strs(referenced@).to_set() == files_refs(krate.files@.take(i as int)),
    {
        let roots = file_reference_roots(&krate.files[i].ast);
        let ghost before = strs(referenced@).to_set();
        for j in 0..roots.len()
            invariant
                strictly_sorted(strs(referenced@)),
                strs(roots@).to_set() == reference_roots_spec(krate.files@[i as int].ast),
                strs(referenced@).to_set() == before + strs(roots@).take(j as int).to_set(),
        {
            insert_sorted(&mut referenced, roots[j].clone());
            assert(strs(roots@).take(j + 1) =~= strs(roots@).take(j as int).push(roots@[j as int]@));
            proof {
                strs(roots@).take(j as int).lemma_push_to_set_commute(roots@[j as int]@);
            }
            assert(strs(referenced@).to_set() =~= before + strs(roots@).take(j + 1).to_set());
        }
        assert(strs(roots@).take(roots@.len() as int) =~= strs(roots@));
        assert(krate.files@.take(i + 1).drop_last() =~= krate.files@.take(i as int));
        assert(strs(referenced@).to_set() =~= files_refs(krate.files@.take(i + 1)));
    }
    assert(krate.files@.take(krate.files@.len() as int) =~= krate.files@);
    referenced
}

impl DepHygiene {
    /// Unused-dependency findings.
    fn unused_findings(crates: &Vec<CrateData>) -> (r: Vec<Finding>)
        ensures
            views(r@) == unused_spec(crates@),
    {
        let mut findings: Vec<Finding> = Vec::new();
        for c in 0..crates.len()
            invariant
                views(findings@) == unused_spec(crates@.take(c as int)),
        {
            let krate = &crates[c];
            let ghost before = views(findings@);
            let referenced = crate_refs(krate);
            let ghost refs = files_refs(krate.files@);
            let ghost deps = krate.external_deps.deep_view();
            proof {
                assert(crates@.take(c + 1).drop_last() =~= crates@.take(c as int));
            }
            for d in 0..krate.external_deps.len()
                invariant
                    krate == &crates@[c as int],
                    strs(referenced@).to_set() == refs,
                    refs == files_refs(krate.files@),
                    deps == krate.external_deps.deep_view(),
                    views(findings@) == before + unused_deps(
                        krate.name@,
                        refs,
                        deps.take(d as int),
                    ),
            {
                let dep = &krate.external_deps[d];
                let norm = normalize(dep.as_str());
                let found = contains_str(&referenced, norm.as_str());
                proof {
                    assert(deps.take(d + 1).drop_last() =~= deps.take(d as int));
                    assert(deps.take(d + 1).last() == dep@);
                    assert(found == refs.contains(normalized(dep@)));
                }
                if !found {
                    let mut message = String::new();
                    message.append("declared dependency `");
                    message.append(dep.as_str());
                    message.append("` appears unused (approx.)");
                    let f = Finding {
                        inspection: Self::NAME,
                        severity: Severity::Warn,
                        location: Location::in_crate(&krate.name),
                        message,
                        metric: None,
                    };
                    proof {
                        lemma_views_push(findings@, f);
                        assert(f@ == unused_finding(krate.name@, dep@));
                    }
                    findings.push(f);
                }
                proof {
                    assert(views(findings@) =~= before + unused_deps(
                        krate.name@,
                        refs,
                        deps.take(d + 1),
                    ));
                }
            }
            proof {
                assert(deps.take(deps.len() as int) =~= deps);
            }
        }
        proof {
            assert(crates@.take(crates@.len() as int) =~= crates@);
        }
        findings
    }

    /// The distinct package names, sorted.
    fn resolved_names(rv: &Vec<(String, String)>) -> (r: Vec<String>)
        ensures
            strs(r@) == sorted_elems(names_upto(rv@, rv@.len() as int)),
    {
        let mut names: Vec<String> = Vec::new();
        assert(strs(names@).to_set() =~= names_upto(rv@, 0));
        for i in 0..rv.len()
            invariant
                strictly_sorted(strs(names@)),
                strs(names@).to_set() == names_upto(rv@, i as int),
        {
            insert_sorted(&mut names, rv[i].0.clone());
            proof {
                assert forall|n: Seq<char>| names_upto(rv@, i + 1).contains(n) <==> names_upto(
                    rv@,
                    i as int,
                ).insert(rv@[i as int].0@).contains(n) by {
                    if names_upto(rv@, i + 1).contains(n) {
                        let k = choose|k: int| 0 <= k < i + 1 && #[trigger] rv@[k].0@ == n;
                        if k < i {
                            assert(names_upto(rv@, i as int).contains(n));
                        }
                    }
                    if names_upto(rv@, i as int).contains(n) {
                        let k = choose|k: int| 0 <= k < i && #[trigger] rv@[k].0@ == n;
                        assert(names_upto(rv@, i + 1).contains(n));
                    }
                    if n == rv@[i as int].0@ {
                        assert(names_upto(rv@, i + 1).contains(n));
                    }
                }
                assert(strs(names@).to_set() =~= names_upto(rv@, i + 1));
            }
        }
        proof {
            lemma_sorted_elems(strs(names@));
        }
        names
    }

    /// The distinct versions `name` resolved to, sorted.
    fn versions_of(rv: &Vec<(String, String)>, name: &str) -> (r: Vec<String>)
        ensures
            strs(r@) == sorted_elems(versions_upto(rv@, name@, rv@.len() as int)),
    {
        let mut vers: Vec<String> = Vec::new();
        assert(strs(vers@).to_set() =~= versions_upto(rv@, name@, 0));
        for i in 0..rv.len()
            invariant
                strictly_sorted(strs(vers@)),
                strs(vers@).to_set() == versions_upto(rv@, name@, i as int),
        {
            let is_name = str_eq(rv[i].0.as_str(), name);
            if is_name {
                insert_sorted(&mut vers, rv[i].1.clone());
            }
            proof {
                let next = if is_name {
                    versions_upto(rv@, name@, i as int).insert(rv@[i as int].1@)
                } else {
                    versions_upto(rv@, name@, i as int)
                };
                assert forall|v: Seq<char>| versions_upto(rv@, name@, i + 1).contains(v) <==> next.contains(v) by {
                    if versions_upto(rv@, name@, i + 1).contains(v) {
                        let k = choose|k: int|
                            0 <= k < i + 1 && #[trigger] rv@[k].0@ == name@ && rv@[k].1@ == v;
                        if k < i {
                            assert(versions_upto(rv@, name@, i as int).contains(v));
                        }
                    }
                    if versions_upto(rv@, name@, i as int).contains(v) {
                        let k = choose|k: int|
                            0 <= k < i && #[trigger] rv@[k].0@ == name@ && rv@[k].1@ == v;
                        assert(versions_upto(rv@, name@, i + 1).contains(v));
                    }
                    if is_name && v == rv@[i as int].1@ {
                        assert(versions_upto(rv@, name@, i + 1).contains(v));
                    }
                }
                assert(strs(vers@).to_set() =~= versions_upto(rv@, name@, i + 1));
            }
        }
        proof {
            lemma_sorted_elems(strs(vers@));
        }
        vers
    }

    /// Duplicate-version findings.
    fn version_findings(rv: &Vec<(String, String)>) -> (r: Vec<Finding>)
        ensures
            views(r@) == version_findings(rv@, sorted_elems(names_upto(rv@, rv@.len() as int))),
    {
        let names = Self::resolved_names(rv);
        let ghost nm = strs(names@);
        let mut findings: Vec<Finding> = Vec::new();
        for k in 0..names.len()
            invariant
                nm == strs(names@),
                views(findings@) == version_findings(rv@, nm.take(k as int)),
        {
            let name = &names[k];
            let vers = Self::versions_of(rv, name.as_str());
            proof {
                assert(nm.take(k + 1).drop_last() =~= nm.take(k as int));
                assert(nm.take(k + 1).last() == name@);
            }
            if vers.len() > 1 {
                let mut message = String::new();
                message.append("crate `");
                message.append(name.as_str());
                message.append("` resolved to ");
                push_decimal(&mut message, vers.len() as u128);
                message.append(" versions: ");
                push_joined(&mut message, &vers, ", ");
                let f = Finding {
                    inspection: Self::NAME,
                    severity: Severity::Warn,
                    location: Location::none(),
                    message,
                    metric: Some(Metric::count(vers.len() as u64)),
                };
                proof {
                    lemma_views_push(findings@, f);
                    assert(f@ == version_finding(name@, strs(vers@)));
                }
                findings.push(f);
            }
            proof {
                assert(views(findings@) =~= version_findings(rv@, nm.take(k + 1)));
            }
        }
        proof {
            assert(nm.take(names@.len() as int) =~= nm);
        }
        findings
    }
}

proof fn lemma_files_refs_contains(files: Seq<SourceFile>, r: Seq<char>)
    ensures
        files_refs(files).contains(r) <==> exists|i: int|
            0 <= i < files.len() && reference_roots_spec(#[trigger] files[i].ast).contains(r),
    decreases files.len(),
{
    if files.len() > 0 {
        let pre = files.drop_last();
        lemma_files_refs_contains(pre, r);
        if exists|i: int| 0 <= i < pre.len() && reference_roots_spec(#[trigger] pre[i].ast).contains(r) {
            let i = choose|i: int| 0 <= i < pre.len() && reference_roots_spec(#[trigger] pre[i].ast).contains(r);
            assert(files[i] == pre[i]);
        }
        if exists|i: int| 0 <= i < files.len() && reference_roots_spec(#[trigger] files[i].ast).contains(r) {
            let i = choose|i: int| 0 <= i < files.len() && reference_roots_spec(#[trigger] files[i].ast).contains(r);
            if i < pre.len() {
                assert(pre[i] == files[i]);
            }
        }
    }
}

proof fn lemma_unused_deps_sound(krate: Seq<char>, refs: Set<Seq<char>>, deps: Seq<Seq<char>>)
    ensures
        forall|k: int|
            0 <= k < unused_deps(krate, refs, deps).len() ==> exists|d: int|
                0 <= d < deps.len() && (#[trigger] unused_deps(krate, refs, deps)[k]) == unused_finding(
                    krate,
                    deps[d],
                ) && !refs.contains(normalized(deps[d])),
    decreases deps.len(),
{
    if deps.len() > 0 {
        let pre = deps.drop_last();
        let x = deps.last();
        lemma_unused_deps_sound(krate, refs, pre);
        let a = unused_deps(krate, refs, pre);
        let b: Seq<FindingView> = if refs.contains(normalized(x)) {
            seq![]
        } else {
            seq![unused_finding(krate, x)]
        };
        let all = unused_deps(krate, refs, deps);
        assert(all == a + b);
        assert forall|k: int| 0 <= k < all.len() implies exists|d: int|
            0 <= d < deps.len() && (#[trigger] all[k]) == unused_finding(krate, deps[d])
                && !refs.contains(normalized(deps[d])) by {
            if k < a.len() {
                assert(all[k] == a[k]);
                let d = choose|d: int|
                    0 <= d < pre.len() && (#[trigger] a[k]) == unused_finding(krate, pre[d])
                        && !refs.contains(normalized(pre[d]));
                assert(pre[d] == deps[d]);
            } else {
                assert(all[k] == b[0]);
                assert(deps[deps.len() - 1] == x);
            }
        }
    }
}

proof fn lemma_unused_deps_complete(krate: Seq<char>, refs: Set<Seq<char>>, deps: Seq<Seq<char>>, d: int)
    requires
        0 <= d < deps.len(),
        !refs.contains(normalized(deps[d])),
    ensures
        exists|k: int|
            0 <= k < unused_deps(krate, refs, deps).len() && unused_deps(krate, refs, deps)[k]
                == unused_finding(krate, deps[d]),
    decreases deps.len(),
{
    let pre = deps.drop_last();
    let x = deps.last();
    let a = unused_deps(krate, refs, pre);
    let b: Seq<FindingView> = if refs.contains(normalized(x)) {
        seq![]
    } else {
        seq![unused_finding(krate, x)]
    };
    let all = unused_deps(krate, refs, deps);
    assert(all == a + b);
    if d < pre.len() {
        assert(pre[d] == deps[d]);
        lemma_unused_deps_complete(krate, refs, pre, d);
        let k = choose|k: int| 0 <= k < a.len() && a[k] == unused_finding(krate, pre[d]);
        assert(all[k] == a[k]);
    } else {
        assert(x == deps[d]);
        assert(all[a.len() as int] == b[0]);
    }
}

/// Law: a declared dependency is reported unused exactly when no file of its
/// crate, at any position, references its root (its name with `-` read as
/// `_`): every unused-dependency finding names such a dependency of such a
/// crate, and every such dependency is reported.
pub proof fn lemma_unused_exactly_unreferenced(crates: Seq<CrateData>)
    ensures
        forall|k: int|
            0 <= k < unused_spec(crates).len() ==> exists|c: int, d: int|
                0 <= c < crates.len() && 0 <= d < crates[c].external_deps@.len() && (
                #[trigger] unused_spec(crates)[k]) == unused_finding(
                    crates[c].name@,
                    crates[c].external_deps@[d]@,
                ) && !exists|i: int|
                    0 <= i < crates[c].files@.len() && reference_roots_spec(
                        #[trigger] crates[c].files@[i].ast,
                    ).contains(normalized(crates[c].external_deps@[d]@)),
        forall|c: int, d: int|
            0 <= c < crates.len() && 0 <= d < crates[c].external_deps@.len() && !(exists|i: int|
                0 <= i < crates[c].files@.len() && reference_roots_spec(
                    #[trigger] crates[c].files@[i].ast,
                ).contains(normalized(#[trigger] crates[c].external_deps@[d]@))) ==> exists|k: int|
                0 <= k < unused_spec(crates).len() && unused_spec(crates)[k] == unused_finding(
                    crates[c].name@,
                    crates[c].external_deps@[d]@,
                ),
    decreases crates.len(),
{
    if crates.len() > 0 {
        let pre = crates.drop_last();
        let kr = crates.last();
        lemma_unused_exactly_unreferenced(pre);
        let refs = files_refs(kr.files@);
        let deps = kr.external_deps.deep_view();
        lemma_unused_deps_sound(kr.name@, refs, deps);
        assert forall|d: int| 0 <= d < kr.external_deps@.len() implies #[trigger] deps[d]
            == kr.external_deps@[d]@ && deps.len() == kr.external_deps@.len() by {}
        assert(deps.len() == kr.external_deps@.len());
        let a = unused_spec(pre);
        let b = unused_deps(kr.name@, refs, deps);
        let all = unused_spec(crates);
        assert(all == a + b);
        let last = crates.len() - 1;
        assert(crates[last] == kr);
        assert forall|k: int| 0 <= k < all.len() implies exists|c: int, d: int|
            0 <= c < crates.len() && 0 <= d < crates[c].external_deps@.len() && (#[trigger] all[k])
                == unused_finding(crates[c].name@, crates[c].external_deps@[d]@) && !exists|i: int|
                0 <= i < crates[c].files@.len() && reference_roots_spec(
                    #[trigger] crates[c].files@[i].ast,
                ).contains(normalized(crates[c].external_deps@[d]@)) by {
            if k < a.len() {
                assert(all[k] == a[k]);
                let (c, d) = choose|c: int, d: int|
                    0 <= c < pre.len() && 0 <= d < pre[c].external_deps@.len() && (#[trigger] a[k])
                        == unused_finding(pre[c].name@, pre[c].external_deps@[d]@) && !exists|i: int|
                        0 <= i < pre[c].files@.len() && reference_roots_spec(
                            #[trigger] pre[c].files@[i].ast,
                        ).contains(normalized(pre[c].external_deps@[d]@));
                assert(pre[c] == crates[c]);
            } else {
                assert(all[k] == b[k - a.len()]);
                let d = choose|d: int|
                    0 <= d < deps.len() && (#[trigger] b[k - a.len()]) == unused_finding(
                        kr.name@,
                        deps[d],
                    ) && !refs.contains(normalized(deps[d]));
                assert(deps[d] == kr.external_deps@[d]@);
                lemma_files_refs_contains(kr.files@, normalized(deps[d]));
            }
        }
        assert forall|c: int, d: int|
            0 <= c < crates.len() && 0 <= d < crates[c].external_deps@.len() && !(exists|i: int|
                0 <= i < crates[c].files@.len() && reference_roots_spec(
                    #[trigger] crates[c].files@[i].ast,
                ).contains(normalized(#[trigger] crates[c].external_deps@[d]@))) implies exists|k: int|
            0 <= k < all.len() && all[k] == unused_finding(
                crates[c].name@,
                crates[c].external_deps@[d]@,
            ) by {
            if c < pre.len() {
                assert(pre[c] == crates[c]);
                let k = choose|k: int|
                    0 <= k < a.len() && a[k] == unused_finding(
                        pre[c].name@,
                        pre[c].external_deps@[d]@,
                    );
                assert(all[k] == a[k]);
            } else {
                assert(crates[c] == kr);
                assert(deps[d] == kr.external_deps@[d]@);
                lemma_files_refs_contains(kr.files@, normalized(deps[d]));
                lemma_unused_deps_complete(kr.name@, refs, deps, d);
                let k = choose|k: int| 0 <= k < b.len() && b[k] == unused_finding(kr.name@, deps[d]);
                assert(all[a.len() + k] == b[k]);
            }
        }
    }
}

impl Inspection for DepHygiene {
    open spec fn accepts(&self, ctx: &Context) -> bool {
        true
    }

    open spec fn findings_spec(&self, ctx: &Context) -> Seq<FindingView> {
        dep_hygiene_spec(*ctx)
    }

    open spec fn inspection_name(&self) -> Seq<char> {
        "dep-hygiene"@
    }

    fn name(&self) -> (r: &'static str) {
        Self::NAME
    }

    fn run(&self, ctx: &Context) -> (r: Vec<Finding>) {
        let mut findings = Self::unused_findings(&ctx.crates);
        let mut dups = Self::version_findings(&ctx.resolved_versions);
        proof {
            lemma_views_append(findings@, dups@);
        }
        findings.append(&mut dups);
        findings
    }
}

} // verus!
