//! Syntax-counting inspections: `module-size`, `unsafe-surface`,
//! `pub-surface`, `test-gap`.
//!
//! All four read the files' syntax from the [`Context`]; one pass per file
//! ([`analyze`]) gives the counts every inspection needs.
use vstd::prelude::*;
use crate::model::{
    lemma_views_push, views, Config, Context, CrateData, Finding, FindingView, Inspection,
    Location, Metric, Severity, SourceFile,
};
use crate::strings::{dec, one_decimal, push_decimal, push_one_decimal};
use crate::syntax::{
    any_where, count_where, item_is_public, item_pred, lemma_count_where_bound,
    lemma_count_where_congruent, lemma_count_where_push, pub_pred, test_attr, test_pred,
    unsafe_marker, unsafe_pred, FnKind, ItemKind, SyntaxNode, Visibility,
};
use crate::workspace_graph::{count_metric, crate_location};

verus! {

/// Per-file structural counts gathered in one pass.
#[derive(Clone, Copy, Debug, PartialEq, Eq, Structural)]
pub struct FileStats {
    pub items: usize,
    pub unsafe_count: usize,
    pub pub_items: usize,
    pub has_test: bool,
}

/// Items in a file, at any depth.
pub open spec fn file_items(f: SourceFile) -> nat {
    count_where(f.ast.nodes@, item_pred())
}

/// `unsafe` markers in a file.
pub open spec fn file_unsafe(f: SourceFile) -> nat {
    count_where(f.ast.nodes@, unsafe_pred())
}

/// Public items in a file.
pub open spec fn file_pub(f: SourceFile) -> nat {
    count_where(f.ast.nodes@, pub_pred())
}

/// Whether a file holds a test attribute.
pub open spec fn file_has_test(f: SourceFile) -> bool {
    any_where(f.ast.nodes@, test_pred())
}

/// Law: the public items of a file are exactly its items declared `pub`
/// (not `pub(..)`) of the kinds that carry a visibility of their own: `const`,
/// `enum`, `fn`, `mod`, `static`, `struct`, `trait`, trait alias, `type`,
/// `union` and `use`. Each such item counts once, nested ones included.
pub proof fn lemma_public_items_counted(f: SourceFile)
    ensures
        file_pub(f) == count_where(
            f.ast.nodes@,
            (|n: SyntaxNode|
                n matches SyntaxNode::Item { kind, vis } && vis == Visibility::Public && (kind
                    == ItemKind::Const || kind == ItemKind::Enum || kind == ItemKind::Fn || kind
                    == ItemKind::Mod || kind == ItemKind::Static || kind == ItemKind::Struct || kind
                    == ItemKind::Trait || kind == ItemKind::TraitAlias || kind == ItemKind::Type
                    || kind == ItemKind::Union || kind == ItemKind::Use)),
        ),
{
    let q = |n: SyntaxNode|
        n matches SyntaxNode::Item { kind, vis } && vis == Visibility::Public && (kind
            == ItemKind::Const || kind == ItemKind::Enum || kind == ItemKind::Fn || kind
            == ItemKind::Mod || kind == ItemKind::Static || kind == ItemKind::Struct || kind
            == ItemKind::Trait || kind == ItemKind::TraitAlias || kind == ItemKind::Type || kind
            == ItemKind::Union || kind == ItemKind::Use);
    lemma_count_where_congruent(f.ast.nodes@, pub_pred(), q);
}

/// Law: the `unsafe` markers of a file are its `unsafe { .. }` blocks, its
/// `unsafe` free functions and `unsafe` methods (not `unsafe` declarations in
/// a trait), its `unsafe impl`s and its `unsafe trait`s; each counts once.
pub proof fn lemma_unsafe_markers_counted(f: SourceFile)
    ensures
        file_unsafe(f) == count_where(
            f.ast.nodes@,
            (|n: SyntaxNode|
                n is UnsafeBlock || (n matches SyntaxNode::Fn { kind, is_unsafe, .. } && is_unsafe
                    && (kind == FnKind::Free || kind == FnKind::Method)) || (n matches SyntaxNode::Impl {
                    is_unsafe,
                } && is_unsafe) || (n matches SyntaxNode::Trait { is_unsafe } && is_unsafe)),
        ),
{
    let q = |n: SyntaxNode|
        n is UnsafeBlock || (n matches SyntaxNode::Fn { kind, is_unsafe, .. } && is_unsafe && (kind
            == FnKind::Free || kind == FnKind::Method)) || (n matches SyntaxNode::Impl { is_unsafe }
            && is_unsafe) || (n matches SyntaxNode::Trait { is_unsafe } && is_unsafe);
    lemma_count_where_congruent(f.ast.nodes@, unsafe_pred(), q);
}

/// Count every node of one file and tally what the inspections need.
pub fn analyze(file: &SourceFile) -> (r: FileStats)
    ensures
        r.items == file_items(*file),
        r.unsafe_count == file_unsafe(*file),
        r.pub_items == file_pub(*file),
        r.has_test == file_has_test(*file),
{
    let nodes = &file.ast.nodes;
    let mut stats = FileStats { items: 0, unsafe_count: 0, pub_items: 0, has_test: false };
    for i in 0..nodes.len()
        invariant
            nodes == &file.ast.nodes,
            stats.items == count_where(nodes@.take(i as int), item_pred()),
            stats.unsafe_count == count_where(nodes@.take(i as int), unsafe_pred()),
            stats.pub_items == count_where(nodes@.take(i as int), pub_pred()),
            stats.has_test == any_where(nodes@.take(i as int), test_pred()),
    {
        let node = &nodes[i];
        proof {
            let t = nodes@.take(i as int);
            assert(nodes@.take(i + 1) =~= t.push(*node));
            lemma_count_where_push(t, *node, item_pred());
            lemma_count_where_push(t, *node, unsafe_pred());
            lemma_count_where_push(t, *node, pub_pred());
            lemma_count_where_bound(t, item_pred());
            lemma_count_where_bound(t, unsafe_pred());
            lemma_count_where_bound(t, pub_pred());
            if any_where(nodes@.take(i + 1), test_pred()) && !test_pred()(*node) {
                let k = choose|k: int|
                    0 <= k < nodes@.take(i + 1).len() && test_pred()(
                        #[trigger] nodes@.take(i + 1)[k],
                    );
                assert(t[k] == nodes@.take(i + 1)[k]);
            }
            if any_where(t, test_pred()) {
                let k = choose|k: int| 0 <= k < t.len() && test_pred()(#[trigger] t[k]);
                assert(nodes@.take(i + 1)[k] == t[k]);
            }
            if test_pred()(*node) {
                assert(nodes@.take(i + 1)[i as int] == *node);
            }
        }
        match node {
            SyntaxNode::Item { kind, vis } => {
                stats.items = stats.items + 1;
                if item_is_public(*kind, *vis) {
                    stats.pub_items = stats.pub_items + 1;
                }
            },
            _ => {},
        }
        if unsafe_marker(node) {
            stats.unsafe_count = stats.unsafe_count + 1;
        }
        if test_attr(node) {
            stats.has_test = true;
        }
    }
    proof {
        assert(nodes@.take(nodes@.len() as int) =~= nodes@);
    }
    stats
}

/// Sum of a sequence of naturals.
pub open spec fn sum_nat(s: Seq<nat>) -> nat
    decreases s.len(),
{
    if s.len() == 0 {
        0
    } else {
        sum_nat(s.drop_last()) + s.last()
    }
}

/// A prefix of a sequence of naturals sums to no more than the whole.
pub(crate) proof fn lemma_sum_nat_prefix(s: Seq<nat>, i: int)
    requires
        0 <= i <= s.len(),
    ensures
        sum_nat(s.take(i)) <= sum_nat(s),
    decreases s.len() - i,
{
    if i < s.len() {
        lemma_sum_nat_prefix(s.drop_last(), i);
        assert(s.drop_last().take(i) =~= s.take(i));
    } else {
        assert(s.take(i) =~= s);
    }
}

proof fn lemma_sum_nat_step(s: Seq<nat>, i: int)
    requires
        0 <= i < s.len(),
    ensures
        sum_nat(s.take(i + 1)) == sum_nat(s.take(i)) + s[i],
{
    assert(s.take(i + 1).drop_last() =~= s.take(i));
}

pub open spec fn items_per_file(files: Seq<SourceFile>) -> Seq<nat> {
    files.map_values(|f: SourceFile| file_items(f))
}

pub open spec fn unsafe_per_file(files: Seq<SourceFile>) -> Seq<nat> {
    files.map_values(|f: SourceFile| file_unsafe(f))
}

pub open spec fn pub_per_file(files: Seq<SourceFile>) -> Seq<nat> {
    files.map_values(|f: SourceFile| file_pub(f))
}

pub open spec fn loc_per_file(files: Seq<SourceFile>) -> Seq<nat> {
    files.map_values(|f: SourceFile| f.loc as nat)
}

/// Items over all files of a crate.
pub open spec fn crate_items(k: CrateData) -> nat {
    sum_nat(items_per_file(k.files@))
}

/// `unsafe` markers over all files of a crate.
pub open spec fn crate_unsafe(k: CrateData) -> nat {
    sum_nat(unsafe_per_file(k.files@))
}

/// Public items over all files of a crate.
pub open spec fn crate_pub(k: CrateData) -> nat {
    sum_nat(pub_per_file(k.files@))
}

/// Lines over all files of a crate.
pub open spec fn crate_loc(k: CrateData) -> nat {
    sum_nat(loc_per_file(k.files@))
}

/// Whether some file of a crate holds a test attribute.
pub open spec fn crate_has_test(k: CrateData) -> bool {
    exists|i: int| 0 <= i < k.files@.len() && file_has_test(#[trigger] k.files@[i])
}

/// The crate's totals fit a `usize`.
pub open spec fn stats_fit(k: CrateData) -> bool {
    &&& crate_items(k) <= usize::MAX
    &&& crate_unsafe(k) <= usize::MAX
    &&& crate_pub(k) <= usize::MAX
    &&& crate_loc(k) <= usize::MAX
}

/// Every crate's totals fit a `usize`.
pub open spec fn all_stats_fit(crates: Seq<CrateData>) -> bool {
    forall|i: int| 0 <= i < crates.len() ==> stats_fit(#[trigger] crates[i])
}

/// A crate's counts summed over its files, and its total line count.
pub fn crate_stats(krate: &CrateData) -> (r: (FileStats, usize))
    requires
        stats_fit(*krate),
    ensures
        r.0.items == crate_items(*krate),
        r.0.unsafe_count == crate_unsafe(*krate),
        r.0.pub_items == crate_pub(*krate),
        r.0.has_test == crate_has_test(*krate),
        r.1 == crate_loc(*krate),
{
    let mut agg = FileStats { items: 0, unsafe_count: 0, pub_items: 0, has_test: false };
    let mut loc: usize = 0;
    let files = &krate.files;
    let ghost is = items_per_file(files@);
    let ghost us = unsafe_per_file(files@);
    let ghost ps = pub_per_file(files@);
    let ghost ls = loc_per_file(files@);
    for i in 0..files.len()
        invariant
            files == &krate.files,
            stats_fit(*krate),
            is == items_per_file(files@),
            us == unsafe_per_file(files@),
            ps == pub_per_file(files@),
            ls == loc_per_file(files@),
            agg.items == sum_nat(is.take(i as int)),
            agg.unsafe_count == sum_nat(us.take(i as int)),
            agg.pub_items == sum_nat(ps.take(i as int)),
            loc == sum_nat(ls.take(i as int)),
            agg.has_test == exists|j: int| 0 <= j < i && file_has_test(#[trigger] files@[j]),
    {
        let s = analyze(&files[i]);
        proof {
            lemma_sum_nat_step(is, i as int);
            lemma_sum_nat_step(us, i as int);
            lemma_sum_nat_step(ps, i as int);
            lemma_sum_nat_step(ls, i as int);
            lemma_sum_nat_prefix(is, i + 1);
            lemma_sum_nat_prefix(us, i + 1);
            lemma_sum_nat_prefix(ps, i + 1);
            lemma_sum_nat_prefix(ls, i + 1);
        }
        agg.items = agg.items + s.items;
        agg.unsafe_count = agg.unsafe_count + s.unsafe_count;
        agg.pub_items = agg.pub_items + s.pub_items;
        agg.has_test = agg.has_test || s.has_test;
        loc = loc + files[i].loc;
        proof {
            if s.has_test {
                assert(file_has_test(files@[i as int]));
            }
        }
    }
    proof {
        assert(is.take(files@.len() as int) =~= is);
        assert(us.take(files@.len() as int) =~= us);
        assert(ps.take(files@.len() as int) =~= ps);
        assert(ls.take(files@.len() as int) =~= ls);
    }
    (agg, loc)
}

/// Law: a crate's totals add up its files. A crate without files counts
/// nothing and has no test; adding one file to a crate adds that file's
/// items, `unsafe` markers, public items and lines to the crate's, and the
/// crate then has a test exactly when it had one or the file holds one.
pub proof fn lemma_crate_totals_add_files(k: CrateData, bigger: CrateData, f: SourceFile)
    requires
        bigger.files@ == k.files@.push(f),
    ensures
        k.files@.len() == 0 ==> crate_items(k) == 0 && crate_unsafe(k) == 0 && crate_pub(k) == 0
            && crate_loc(k) == 0 && !crate_has_test(k),
        crate_items(bigger) == crate_items(k) + file_items(f),
        crate_unsafe(bigger) == crate_unsafe(k) + file_unsafe(f),
        crate_pub(bigger) == crate_pub(k) + file_pub(f),
        crate_loc(bigger) == crate_loc(k) + f.loc,
        crate_has_test(bigger) == (crate_has_test(k) || file_has_test(f)),
{
    let n = k.files@.len() as int;
    lemma_sum_nat_step(items_per_file(bigger.files@), n);
    lemma_sum_nat_step(unsafe_per_file(bigger.files@), n);
    lemma_sum_nat_step(pub_per_file(bigger.files@), n);
    lemma_sum_nat_step(loc_per_file(bigger.files@), n);
    assert(items_per_file(bigger.files@).take(n) =~= items_per_file(k.files@));
    assert(unsafe_per_file(bigger.files@).take(n) =~= unsafe_per_file(k.files@));
    assert(pub_per_file(bigger.files@).take(n) =~= pub_per_file(k.files@));
    assert(loc_per_file(bigger.files@).take(n) =~= loc_per_file(k.files@));
    assert(items_per_file(bigger.files@).take(n + 1) =~= items_per_file(bigger.files@));
    assert(unsafe_per_file(bigger.files@).take(n + 1) =~= unsafe_per_file(bigger.files@));
    assert(pub_per_file(bigger.files@).take(n + 1) =~= pub_per_file(bigger.files@));
    assert(loc_per_file(bigger.files@).take(n + 1) =~= loc_per_file(bigger.files@));
    assert(bigger.files@[n] == f);
    if crate_has_test(k) {
        let i = choose|i: int| 0 <= i < k.files@.len() && file_has_test(#[trigger] k.files@[i]);
        assert(bigger.files@[i] == k.files@[i]);
    }
    if crate_has_test(bigger) {
        let i = choose|i: int| 0 <= i < bigger.files@.len() && file_has_test(#[trigger] bigger.files@[i]);
        if i < n {
            assert(bigger.files@[i] == k.files@[i]);
        }
    }
    if k.files@.len() == 0 {
        assert(items_per_file(k.files@) =~= Seq::<nat>::empty());
        assert(unsafe_per_file(k.files@) =~= Seq::<nat>::empty());
        assert(pub_per_file(k.files@) =~= Seq::<nat>::empty());
        assert(loc_per_file(k.files@) =~= Seq::<nat>::empty());
    }
}

/// Law: `module-size` flags exactly the files over the limit: every finding
/// is for a file of a crate with more lines than the limit, and every file
/// with more lines than the limit gets its finding; a file at the limit is
/// never flagged.
pub proof fn lemma_module_size_exactly_over_limit(crates: Seq<CrateData>, limit: usize)
    ensures
        forall|k: int|
            0 <= k < module_size_spec(crates, limit).len() ==> exists|c: int, i: int|
                0 <= c < crates.len() && 0 <= i < crates[c].files@.len() && crates[c].files@[i].loc
                    > limit && (#[trigger] module_size_spec(crates, limit)[k]) == module_size_finding(
                    crates[c].name@,
                    #[trigger] crates[c].files@[i],
                    limit,
                ),
        forall|c: int, i: int|
            0 <= c < crates.len() && 0 <= i < crates[c].files@.len() && (#[trigger] crates[c].files@[i]).loc
                > limit ==> exists|k: int|
                0 <= k < module_size_spec(crates, limit).len() && module_size_spec(crates, limit)[k]
                    == module_size_finding(crates[c].name@, crates[c].files@[i], limit),
{
    lemma_module_size_sound(crates, limit);
    assert forall|c: int, i: int|
        0 <= c < crates.len() && 0 <= i < crates[c].files@.len() && (#[trigger] crates[c].files@[i]).loc
            > limit implies exists|k: int|
        0 <= k < module_size_spec(crates, limit).len() && module_size_spec(crates, limit)[k]
            == module_size_finding(crates[c].name@, crates[c].files@[i], limit) by {
        lemma_module_size_complete(crates, limit, c, i);
    }
}

proof fn lemma_module_size_sound(crates: Seq<CrateData>, limit: usize)
    ensures
        forall|k: int|
            0 <= k < module_size_spec(crates, limit).len() ==> exists|c: int, i: int|
                0 <= c < crates.len() && 0 <= i < crates[c].files@.len() && crates[c].files@[i].loc
                    > limit && (#[trigger] module_size_spec(crates, limit)[k]) == module_size_finding(
                    crates[c].name@,
                    #[trigger] crates[c].files@[i],
                    limit,
                ),
    decreases crates.len(),
{
    if crates.len() > 0 {
        let pre = crates.drop_last();
        let kr = crates.last();
        assert(crates[crates.len() - 1] == kr);
        lemma_module_size_sound(pre, limit);
        lemma_module_size_files_sound(kr.name@, kr.files@, limit);
        let a = module_size_spec(pre, limit);
        let b = module_size_files(kr.name@, kr.files@, limit);
        let all = module_size_spec(crates, limit);
        assert(all == a + b);
        assert forall|k: int| 0 <= k < all.len() implies exists|c: int, i: int|
            0 <= c < crates.len() && 0 <= i < crates[c].files@.len() && crates[c].files@[i].loc > limit
                && (#[trigger] all[k]) == module_size_finding(
                crates[c].name@,
                #[trigger] crates[c].files@[i],
                limit,
            ) by {
            if k < a.len() {
                assert(all[k] == a[k]);
                let (c, i) = choose|c: int, i: int|
                    0 <= c < pre.len() && 0 <= i < pre[c].files@.len() && pre[c].files@[i].loc > limit
                        && (#[trigger] a[k]) == module_size_finding(
                        pre[c].name@,
                        #[trigger] pre[c].files@[i],
                        limit,
                    );
                assert(pre[c] == crates[c]);
            } else {
                assert(all[k] == b[k - a.len()]);
            }
        }
    }
}

proof fn lemma_module_size_complete(crates: Seq<CrateData>, limit: usize, c: int, i: int)
    requires
        0 <= c < crates.len(),
        0 <= i < crates[c].files@.len(),
        crates[c].files@[i].loc > limit,
    ensures
        exists|k: int|
            0 <= k < module_size_spec(crates, limit).len() && module_size_spec(crates, limit)[k]
                == module_size_finding(crates[c].name@, crates[c].files@[i], limit),
    decreases crates.len(),
{
    let pre = crates.drop_last();
    let kr = crates.last();
    let a = module_size_spec(pre, limit);
    let b = module_size_files(kr.name@, kr.files@, limit);
    let all = module_size_spec(crates, limit);
    assert(all == a + b);
    if c < pre.len() {
        assert(pre[c] == crates[c]);
        lemma_module_size_complete(pre, limit, c, i);
        let k = choose|k: int|
            0 <= k < a.len() && a[k] == module_size_finding(pre[c].name@, pre[c].files@[i], limit);
        assert(all[k] == a[k]);
    } else {
        assert(crates[c] == kr);
        lemma_module_size_files_complete(kr.name@, kr.files@, limit, i);
        let k = choose|k: int|
            0 <= k < b.len() && b[k] == module_size_finding(kr.name@, kr.files@[i], limit);
        assert(all[a.len() + k] == b[k]);
    }
}

proof fn lemma_module_size_files_sound(krate: Seq<char>, files: Seq<SourceFile>, limit: usize)
    ensures
        forall|k: int|
            0 <= k < module_size_files(krate, files, limit).len() ==> exists|i: int|
                0 <= i < files.len() && files[i].loc > limit && (#[trigger] module_size_files(
                    krate,
                    files,
                    limit,
                )[k]) == module_size_finding(krate, #[trigger] files[i], limit),
    decreases files.len(),
{
    if files.len() > 0 {
        let pre = files.drop_last();
        let x = files.last();
        lemma_module_size_files_sound(krate, pre, limit);
        let a = module_size_files(krate, pre, limit);
        let b: Seq<FindingView> = if x.loc > limit {
            seq![module_size_finding(krate, x, limit)]
        } else {
            seq![]
        };
        let all = module_size_files(krate, files, limit);
        assert(all == a + b);
        assert(files[files.len() - 1] == x);
        assert forall|k: int| 0 <= k < all.len() implies exists|i: int|
            0 <= i < files.len() && files[i].loc > limit && (#[trigger] all[k]) == module_size_finding(
                krate,
                #[trigger] files[i],
                limit,
            ) by {
            if k < a.len() {
                assert(all[k] == a[k]);
                let i = choose|i: int|
                    0 <= i < pre.len() && pre[i].loc > limit && (#[trigger] a[k]) == module_size_finding(
                        krate,
                        #[trigger] pre[i],
                        limit,
                    );
                assert(pre[i] == files[i]);
            } else {
                assert(all[k] == b[0]);
            }
        }
    }
}

proof fn lemma_module_size_files_complete(krate: Seq<char>, files: Seq<SourceFile>, limit: usize, i: int)
    requires
        0 <= i < files.len(),
        files[i].loc > limit,
    ensures
        exists|k: int|
            0 <= k < module_size_files(krate, files, limit).len() && module_size_files(
                krate,
                files,
                limit,
            )[k] == module_size_finding(krate, files[i], limit),
    decreases files.len(),
{
    let pre = files.drop_last();
    let x = files.last();
    let a = module_size_files(krate, pre, limit);
    let b: Seq<FindingView> = if x.loc > limit {
        seq![module_size_finding(krate, x, limit)]
    } else {
        seq![]
    };
    let all = module_size_files(krate, files, limit);
    assert(all == a + b);
    if i < pre.len() {
        assert(pre[i] == files[i]);
        lemma_module_size_files_complete(krate, pre, limit, i);
        let k = choose|k: int| 0 <= k < a.len() && a[k] == module_size_finding(krate, pre[i], limit);
        assert(all[k] == a[k]);
    } else {
        assert(x == files[i]);
        assert(all[a.len() as int] == b[0]);
    }
}

// ---------------------------------------------------------------------------
// module-size
// ---------------------------------------------------------------------------
pub struct ModuleSize;

impl ModuleSize {
    pub const NAME: &'static str = "module-size";
}

/// The finding for an oversized file.
pub open spec fn module_size_finding(krate: Seq<char>, f: SourceFile, limit: usize) -> FindingView {
    FindingView {
        inspection: "module-size"@,
        severity: Severity::Warn,
        location: crate::model::LocationView { krate: Some(krate), file: Some(f.path@), span: None },
        message: "file is "@ + dec(f.loc as nat) + " lines (> "@ + dec(limit as nat)
            + " threshold)"@,
        metric: Some(count_metric(f.loc as nat)),
    }
}

/// Oversized-file findings for a crate's first `k` files.
pub open spec fn module_size_files(krate: Seq<char>, files: Seq<SourceFile>, limit: usize) -> Seq<
    FindingView,
>
    decreases files.len(),
{
    if files.len() == 0 {
        seq![]
    } else {
        module_size_files(krate, files.drop_last(), limit) + if files.last().loc > limit {
            seq![module_size_finding(krate, files.last(), limit)]
        } else {
            seq![]
        }
    }
}

/// Oversized-file findings for a list of crates.
pub open spec fn module_size_spec(crates: Seq<CrateData>, limit: usize) -> Seq<FindingView>
    decreases crates.len(),
{
    if crates.len() == 0 {
        seq![]
    } else {
        module_size_spec(crates.drop_last(), limit) + module_size_files(
            crates.last().name@,
            crates.last().files@,
            limit,
        )
    }
}

impl Inspection for ModuleSize {
    open spec fn accepts(&self, ctx: &Context) -> bool {
        true
    }

    open spec fn findings_spec(&self, ctx: &Context) -> Seq<FindingView> {
        module_size_spec(ctx.crates@, ctx.config.module_size_loc)
    }

    open spec fn inspection_name(&self) -> Seq<char> {
        "module-size"@
    }

    fn name(&self) -> (r: &'static str) {
        Self::NAME
    }

    fn run(&self, ctx: &Context) -> (r: Vec<Finding>) {
        let limit = ctx.config.module_size_loc;
        let mut findings: Vec<Finding> = Vec::new();
        let crates = &ctx.crates;
        for c in 0..crates.len()
            invariant
                crates == &ctx.crates,
                limit == ctx.config.module_size_loc,
                views(findings@) == module_size_spec(crates@.take(c as int), limit),
        {
            let krate = &crates[c];
            let ghost before = views(findings@);
            proof {
                assert(crates@.take(c + 1).drop_last() =~= crates@.take(c as int));
            }
            for i in 0..krate.files.len()
                invariant
                    krate == &crates@[c as int],
                    limit == ctx.config.module_size_loc,
                    views(findings@) == before + module_size_files(
                        krate.name@,
                        krate.files@.take(i as int),
                        limit,
                    ),
            {
                let file = &krate.files[i];
                proof {
                    assert(krate.files@.take(i + 1).drop_last() =~= krate.files@.take(i as int));
                }
                if file.loc > limit {
                    let mut message = String::new();
                    message.append("file is ");
                    push_decimal(&mut message, file.loc as u128);
                    message.append(" lines (> ");
                    push_decimal(&mut message, limit as u128);
                    message.append(" threshold)");
                    let f = Finding {
                        inspection: Self::NAME,
                        severity: Severity::Warn,
                        location: Location::in_file(&krate.name, &file.path),
                        message,
                        metric: Some(Metric::count(file.loc as u64)),
                    };
                    proof {
                        lemma_views_push(findings@, f);
                        assert(f@ == module_size_finding(krate.name@, *file, limit));
                    }
                    findings.push(f);
                }
                proof {
                    assert(views(findings@) =~= before + module_size_files(
                        krate.name@,
                        krate.files@.take(i + 1),
                        limit,
                    ));
                }
            }
            proof {
                assert(krate.files@.take(krate.files@.len() as int) =~= krate.files@);
            }
        }
        proof {
            assert(crates@.take(crates@.len() as int) =~= crates@);
        }
        findings
    }
}

// ---------------------------------------------------------------------------
// unsafe-surface
// ---------------------------------------------------------------------------
pub struct UnsafeSurface;

impl UnsafeSurface {
    pub const NAME: &'static str = "unsafe-surface";
}

/// Whether `unsafe_count` markers in `loc` lines exceed `warn_milli`
/// thousandths of a marker per 1000 lines.
pub open spec fn density_over(unsafe_count: nat, loc: nat, warn_milli: nat) -> bool {
    loc > 0 && unsafe_count * 1_000_000 > warn_milli * loc
}

/// Markers per 1000 lines, exact (0 for an empty crate).
pub open spec fn density_metric(unsafe_count: nat, loc: nat) -> Metric {
    if loc == 0 {
        Metric { numerator: 0, denominator: 1, scale: 1 }
    } else {
        Metric { numerator: unsafe_count as u64, denominator: loc as u64, scale: 1000 }
    }
}

/// Markers per 1000 lines with one decimal place.
pub open spec fn density_text(unsafe_count: nat, loc: nat) -> Seq<char> {
    if loc == 0 {
        one_decimal(0, 1)
    } else {
        one_decimal(unsafe_count * 1000, loc)
    }
}

/// The `unsafe` finding for a crate, if it has any `unsafe` marker.
pub open spec fn unsafe_crate_spec(k: CrateData, cfg: Config) -> Seq<FindingView> {
    let u = crate_unsafe(k);
    let loc = crate_loc(k);
    if u == 0 {
        seq![]
    } else {
        seq![
            FindingView {
                inspection: "unsafe-surface"@,
                severity: if density_over(u, loc, cfg.unsafe_density_warn_milli as nat) {
                    Severity::Warn
                } else {
                    Severity::Info
                },
                location: crate_location(k.name@),
                message: dec(u) + " unsafe items ("@ + density_text(u, loc) + "/kLOC)"@,
                metric: Some(density_metric(u, loc)),
            },
        ]
    }
}

/// `unsafe` findings for a list of crates.
pub open spec fn unsafe_surface_spec(crates: Seq<CrateData>, cfg: Config) -> Seq<FindingView>
    decreases crates.len(),
{
    if crates.len() == 0 {
        seq![]
    } else {
        unsafe_surface_spec(crates.drop_last(), cfg) + unsafe_crate_spec(crates.last(), cfg)
    }
}

impl Inspection for UnsafeSurface {
    open spec fn accepts(&self, ctx: &Context) -> bool {
        all_stats_fit(ctx.crates@)
    }

    open spec fn findings_spec(&self, ctx: &Context) -> Seq<FindingView> {
        unsafe_surface_spec(ctx.crates@, ctx.config)
    }

    open spec fn inspection_name(&self) -> Seq<char> {
        "unsafe-surface"@
    }

    fn name(&self) -> (r: &'static str) {
        Self::NAME
    }

    fn run(&self, ctx: &Context) -> (r: Vec<Finding>) {
        let mut findings: Vec<Finding> = Vec::new();
        let crates = &ctx.crates;
        for c in 0..crates.len()
            invariant
                crates == &ctx.crates,
                all_stats_fit(crates@),
                views(findings@) == unsafe_surface_spec(crates@.take(c as int), ctx.config),
        {
            let krate = &crates[c];
            proof {
                assert(crates@.take(c + 1).drop_last() =~= crates@.take(c as int));
                assert(stats_fit(crates@[c as int]));
            }
            let (stats, loc) = crate_stats(krate);
            if stats.unsafe_count != 0 {
                let u = stats.unsafe_count as u128;
                let l = loc as u128;
                let warn = ctx.config.unsafe_density_warn_milli as u128;
                assert(warn * l <= u128::MAX) by (nonlinear_arith)
                    requires
                        warn <= u64::MAX,
                        l <= u64::MAX,
                ;
                let over = l > 0 && u * 1_000_000 > warn * l;
                let mut message = String::new();
                push_decimal(&mut message, u);
                message.append(" unsafe items (");
                let metric = if l > 0 {
                    push_one_decimal(&mut message, u * 1000, l);
                    Metric { numerator: u as u64, denominator: l as u64, scale: 1000 }
                } else {
                    push_one_decimal(&mut message, 0, 1);
                    Metric { numerator: 0, denominator: 1, scale: 1 }
                };
                message.append("/kLOC)");
                let f = Finding {
                    inspection: Self::NAME,
                    severity: if over {
                        Severity::Warn
                    } else {
                        Severity::Info
                    },
                    location: Location::in_crate(&krate.name),
                    message,
                    metric: Some(metric),
                };
                proof {
                    lemma_views_push(findings@, f);
                    assert(f@ == unsafe_crate_spec(*krate, ctx.config)[0]);
                    assert(unsafe_crate_spec(*krate, ctx.config) =~= seq![f@]);
                }
                findings.push(f);
            }
        }
        proof {
            assert(crates@.take(crates@.len() as int) =~= crates@);
        }
        findings
    }
}

// ---------------------------------------------------------------------------
// pub-surface
// ---------------------------------------------------------------------------
pub struct PubSurface;

impl PubSurface {
    pub const NAME: &'static str = "pub-surface";
}

/// The public-surface finding for a crate, if it has any public item.
pub open spec fn pub_crate_spec(k: CrateData, warn: usize) -> Seq<FindingView> {
    let p = crate_pub(k);
    if p == 0 {
        seq![]
    } else {
        seq![
            FindingView {
                inspection: "pub-surface"@,
                severity: if p > warn {
                    Severity::Warn
                } else {
                    Severity::Info
                },
                location: crate_location(k.name@),
                message: dec(p) + " public items"@,
                metric: Some(count_metric(p)),
            },
        ]
    }
}

/// Public-surface findings for a list of crates.
pub open spec fn pub_surface_spec(crates: Seq<CrateData>, warn: usize) -> Seq<FindingView>
    decreases crates.len(),
{
    if crates.len() == 0 {
        seq![]
    } else {
        pub_surface_spec(crates.drop_last(), warn) + pub_crate_spec(crates.last(), warn)
    }
}

impl Inspection for PubSurface {
    open spec fn accepts(&self, ctx: &Context) -> bool {
        all_stats_fit(ctx.crates@)
    }

    open spec fn findings_spec(&self, ctx: &Context) -> Seq<FindingView> {
        pub_surface_spec(ctx.crates@, ctx.config.pub_surface_warn)
    }

    open spec fn inspection_name(&self) -> Seq<char> {
        "pub-surface"@
    }

    fn name(&self) -> (r: &'static str) {
        Self::NAME
    }

    fn run(&self, ctx: &Context) -> (r: Vec<Finding>) {
        let warn = ctx.config.pub_surface_warn;
        let mut findings: Vec<Finding> = Vec::new();
        let crates = &ctx.crates;
        for c in 0..crates.len()
            invariant
                crates == &ctx.crates,
                warn == ctx.config.pub_surface_warn,
                all_stats_fit(crates@),
                views(findings@) == pub_surface_spec(crates@.take(c as int), warn),
        {
            let krate = &crates[c];
            proof {
                assert(crates@.take(c + 1).drop_last() =~= crates@.take(c as int));
                assert(stats_fit(crates@[c as int]));
            }
            let (stats, _) = crate_stats(krate);
            if stats.pub_items != 0 {
                let over = stats.pub_items > warn;
                let mut message = String::new();
                push_decimal(&mut message, stats.pub_items as u128);
                message.append(" public items");
                let f = Finding {
                    inspection: Self::NAME,
                    severity: if over {
                        Severity::Warn
                    } else {
                        Severity::Info
                    },
                    location: Location::in_crate(&krate.name),
                    message,
                    metric: Some(Metric::count(stats.pub_items as u64)),
                };
                proof {
                    lemma_views_push(findings@, f);
                    assert(pub_crate_spec(*krate, warn) =~= seq![f@]);
                }
                findings.push(f);
            }
        }
        proof {
            assert(crates@.take(crates@.len() as int) =~= crates@);
        }
        findings
    }
}

// ---------------------------------------------------------------------------
// test-gap
// ---------------------------------------------------------------------------
pub struct TestGap;

impl TestGap {
    pub const NAME: &'static str = "test-gap";
}

/// The test-gap finding for a crate without any test attribute.
pub open spec fn test_gap_crate_spec(k: CrateData) -> Seq<FindingView> {
    if crate_has_test(k) {
        seq![]
    } else {
        seq![
            FindingView {
                inspection: "test-gap"@,
                severity: Severity::Warn,
                location: crate_location(k.name@),
                message: "crate has no tests"@,
                metric: None,
            },
        ]
    }
}

/// Test-gap findings for a list of crates.
pub open spec fn test_gap_spec(crates: Seq<CrateData>) -> Seq<FindingView>
    decreases crates.len(),
{
    if crates.len() == 0 {
        seq![]
    } else {
        test_gap_spec(crates.drop_last()) + test_gap_crate_spec(crates.last())
    }
}

proof fn lemma_has_test_attribute(k: CrateData)
    ensures
        crate_has_test(k) <==> exists|i: int, j: int|
            0 <= i < k.files@.len() && 0 <= j < k.files@[i].ast.nodes@.len() && (
            #[trigger] k.files@[i].ast.nodes@[j] matches SyntaxNode::Attribute { path } && path@.len()
                > 0 && path@.last()@ == "test"@),
{
    if crate_has_test(k) {
        let i = choose|i: int| 0 <= i < k.files@.len() && file_has_test(#[trigger] k.files@[i]);
        let nodes = k.files@[i].ast.nodes@;
        let j = choose|j: int| 0 <= j < nodes.len() && test_pred()(#[trigger] nodes[j]);
        if let SyntaxNode::Attribute { path } = nodes[j] {
            assert(path.deep_view().len() == path@.len());
            assert(path.deep_view().last() == path@.last()@);
        }
    }
    if exists|i: int, j: int|
        0 <= i < k.files@.len() && 0 <= j < k.files@[i].ast.nodes@.len() && (
        #[trigger] k.files@[i].ast.nodes@[j] matches SyntaxNode::Attribute { path } && path@.len()
            > 0 && path@.last()@ == "test"@) {
        let (i, j) = choose|i: int, j: int|
            0 <= i < k.files@.len() && 0 <= j < k.files@[i].ast.nodes@.len() && (
            #[trigger] k.files@[i].ast.nodes@[j] matches SyntaxNode::Attribute { path }
                && path@.len() > 0 && path@.last()@ == "test"@);
        let nodes = k.files@[i].ast.nodes@;
        if let SyntaxNode::Attribute { path } = nodes[j] {
            assert(path.deep_view().len() == path@.len());
            assert(path.deep_view().last() == path@.last()@);
        }
        assert(test_pred()(nodes[j]));
        assert(file_has_test(k.files@[i]));
    }
}

/// Law: `test-gap` reports exactly the crates none of whose files, at any
/// position, holds an attribute whose path ends in `test`: every finding
/// names such a crate, and every such crate is named by a finding.
pub proof fn lemma_test_gap_exactly_untested(crates: Seq<CrateData>)
    ensures
        forall|k: int|
            0 <= k < test_gap_spec(crates).len() ==> exists|c: int|
                0 <= c < crates.len() && (#[trigger] test_gap_spec(crates)[k]).location.krate
                    == Some(crates[c].name@) && !exists|i: int, j: int|
                    0 <= i < crates[c].files@.len() && 0 <= j < crates[c].files@[i].ast.nodes@.len()
                        && (#[trigger] crates[c].files@[i].ast.nodes@[j] matches SyntaxNode::Attribute {
                        path,
                    } && path@.len() > 0 && path@.last()@ == "test"@),
        forall|c: int|
            0 <= c < crates.len() && !(exists|i: int, j: int|
                0 <= i < crates[c].files@.len() && 0 <= j < crates[c].files@[i].ast.nodes@.len() && (
                #[trigger] crates[c].files@[i].ast.nodes@[j] matches SyntaxNode::Attribute { path }
                    && path@.len() > 0 && path@.last()@ == "test"@)) ==> exists|k: int|
                0 <= k < test_gap_spec(crates).len() && (#[trigger] test_gap_spec(crates)[k]).location.krate
                    == Some(#[trigger] crates[c].name@),
    decreases crates.len(),
{
    if crates.len() > 0 {
        let pre = crates.drop_last();
        let last = crates.last();
        lemma_test_gap_exactly_untested(pre);
        lemma_has_test_attribute(last);
        let a = test_gap_spec(pre);
        let b = test_gap_crate_spec(last);
        let all = test_gap_spec(crates);
        assert(all == a + b);
        assert forall|c: int| 0 <= c < pre.len() implies #[trigger] pre[c] == crates[c] by {}
        assert forall|k: int| 0 <= k < all.len() implies exists|c: int|
            0 <= c < crates.len() && (#[trigger] all[k]).location.krate == Some(crates[c].name@)
                && !exists|i: int, j: int|
                0 <= i < crates[c].files@.len() && 0 <= j < crates[c].files@[i].ast.nodes@.len() && (
                #[trigger] crates[c].files@[i].ast.nodes@[j] matches SyntaxNode::Attribute { path }
                    && path@.len() > 0 && path@.last()@ == "test"@) by {
            if k < a.len() {
                assert(all[k] == a[k]);
                let c = choose|c: int|
                    0 <= c < pre.len() && (#[trigger] a[k]).location.krate == Some(pre[c].name@)
                        && !exists|i: int, j: int|
                        0 <= i < pre[c].files@.len() && 0 <= j < pre[c].files@[i].ast.nodes@.len() && (
                        #[trigger] pre[c].files@[i].ast.nodes@[j] matches SyntaxNode::Attribute {
                            path,
                        } && path@.len() > 0 && path@.last()@ == "test"@);
                assert(pre[c] == crates[c]);
            } else {
                assert(all[k] == b[k - a.len()]);
                assert(crates[crates.len() - 1] == last);
            }
        }
        assert forall|c: int|
            0 <= c < crates.len() && !(exists|i: int, j: int|
                0 <= i < crates[c].files@.len() && 0 <= j < crates[c].files@[i].ast.nodes@.len() && (
                #[trigger] crates[c].files@[i].ast.nodes@[j] matches SyntaxNode::Attribute { path }
                    && path@.len() > 0 && path@.last()@ == "test"@)) implies exists|k: int|
            0 <= k < all.len() && (#[trigger] all[k]).location.krate == Some(
                #[trigger] crates[c].name@,
            ) by {
            if c < pre.len() {
                assert(pre[c] == crates[c]);
                let k = choose|k: int|
                    0 <= k < a.len() && (#[trigger] a[k]).location.krate == Some(
                        #[trigger] pre[c].name@,
                    );
                assert(all[k] == a[k]);
            } else {
                assert(crates[c] == last);
                assert(all[a.len() as int] == b[0]);
            }
        }
    }
}

impl Inspection for TestGap {
    open spec fn accepts(&self, ctx: &Context) -> bool {
        all_stats_fit(ctx.crates@)
    }

    open spec fn findings_spec(&self, ctx: &Context) -> Seq<FindingView> {
        test_gap_spec(ctx.crates@)
    }

    open spec fn inspection_name(&self) -> Seq<char> {
        "test-gap"@
    }

    fn name(&self) -> (r: &'static str) {
        Self::NAME
    }

    fn run(&self, ctx: &Context) -> (r: Vec<Finding>) {
        let mut findings: Vec<Finding> = Vec::new();
        let crates = &ctx.crates;
        for c in 0..crates.len()
            invariant
                crates == &ctx.crates,
                all_stats_fit(crates@),
                views(findings@) == test_gap_spec(crates@.take(c as int)),
        {
            let krate = &crates[c];
            proof {
                assert(crates@.take(c + 1).drop_last() =~= crates@.take(c as int));
                assert(stats_fit(crates@[c as int]));
            }
            let (stats, _) = crate_stats(krate);
            if !stats.has_test {
                let f = Finding {
                    inspection: Self::NAME,
                    severity: Severity::Warn,
                    location: Location::in_crate(&krate.name),
                    message: String::from_str("crate has no tests"),
                    metric: None,
                };
                proof {
                    lemma_views_push(findings@, f);
                    assert(test_gap_crate_spec(*krate) =~= seq![f@]);
                }
                findings.push(f);
            }
        }
        proof {
            assert(crates@.take(crates@.len() as int) =~= crates@);
        }
        findings
    }
}

} // verus!
