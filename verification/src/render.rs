//! Report rendering.
//!
//! [`text`] answers the tool's core question — *which crate do I fix first?* —
//! by ranking crates on a severity-weighted risk score, then listing findings
//! grouped by severity. [`sarif`] lays a report out as a SARIF 2.1.0 log for
//! code-scanning services.
use vstd::prelude::*;
use vstd::relations::{sorted_by, total_ordering};
use crate::model::{opt_str, views, Finding, FindingView, Report, Severity};
use crate::strings::{
    decimal, dec, lemma_lex_irreflexive, lemma_lex_order_total, lemma_lex_transitive,
    lemma_lex_trichotomy, lex_le, lex_lt, pad_left, push_char, push_decimal, push_padded, str_eq,
    str_lt, strs,
};

verus! {

/// Severity weights for the per-crate risk score.
pub const W_ERROR: u64 = 100;

pub const W_WARN: u64 = 10;

pub const W_INFO: u64 = 1;

/// A line break.
pub open spec fn nl() -> Seq<char> {
    seq!['\n']
}

/// Appends `line` and a newline.
pub fn push(out: &mut String, line: &str)
    ensures
        final(out)@ == old(out)@ + line@ + nl(),
{
    out.append(line);
    push_char(out, '\n');
}

/// Number of findings of severity `sev`.
pub open spec fn count_sev(fs: Seq<FindingView>, sev: Severity) -> nat
    decreases fs.len(),
{
    if fs.len() == 0 {
        0
    } else {
        count_sev(fs.drop_last(), sev) + if fs.last().severity == sev {
            1nat
        } else {
            0nat
        }
    }
}

/// `(errors, warnings, infos)` among the findings.
pub fn severity_counts(report: &Report) -> (r: (usize, usize, usize))
    ensures
        r.0 == count_sev(views(report.findings@), Severity::Error),
        r.1 == count_sev(views(report.findings@), Severity::Warn),
        r.2 == count_sev(views(report.findings@), Severity::Info),
{
    let mut e: usize = 0;
    let mut w: usize = 0;
    let mut i: usize = 0;
    let ghost fs = views(report.findings@);
    for k in 0..report.findings.len()
        invariant
            fs == views(report.findings@),
            e + w + i == k,
            e == count_sev(fs.take(k as int), Severity::Error),
            w == count_sev(fs.take(k as int), Severity::Warn),
            i == count_sev(fs.take(k as int), Severity::Info),
    {
        proof {
            assert(fs.take(k + 1).drop_last() =~= fs.take(k as int));
            assert(fs.take(k + 1).last() == report.findings@[k as int]@);
        }
        match report.findings[k].severity {
            Severity::Error => e = e + 1,
            Severity::Warn => w = w + 1,
            Severity::Info => i = i + 1,
        }
    }
    proof {
        assert(fs.take(report.findings@.len() as int) =~= fs);
    }
    (e, w, i)
}

// ---------------------------------------------------------------------------
// ranking
// ---------------------------------------------------------------------------
/// The crate a finding is charged to; workspace-wide findings go to
/// `workspace`.
pub open spec fn key_of(f: FindingView) -> Seq<char> {
    match f.location.krate {
        Some(k) => k,
        None => "workspace"@,
    }
}

/// Findings of severity `sev` charged to `key`.
pub open spec fn count_key_sev(fs: Seq<FindingView>, key: Seq<char>, sev: Severity) -> nat
    decreases fs.len(),
{
    if fs.len() == 0 {
        0
    } else {
        count_key_sev(fs.drop_last(), key, sev) + if key_of(fs.last()) == key
            && fs.last().severity == sev {
            1nat
        } else {
            0nat
        }
    }
}

/// The risk score of `key`: 100 per error, 10 per warning, 1 per info.
pub open spec fn score_of(fs: Seq<FindingView>, key: Seq<char>) -> nat {
    100 * count_key_sev(fs, key, Severity::Error) + 10 * count_key_sev(fs, key, Severity::Warn)
        + count_key_sev(fs, key, Severity::Info)
}

/// The keys of the findings, each once, in order of first appearance.
pub open spec fn distinct_keys(fs: Seq<FindingView>) -> Seq<Seq<char>>
    decreases fs.len(),
{
    if fs.len() == 0 {
        seq![]
    } else {
        let d = distinct_keys(fs.drop_last());
        if d.contains(key_of(fs.last())) {
            d
        } else {
            d.push(key_of(fs.last()))
        }
    }
}

/// Ranking order: higher score first, ties by name.
pub open spec fn rank_order(fs: Seq<FindingView>) -> spec_fn(Seq<char>, Seq<char>) -> bool {
    |a: Seq<char>, b: Seq<char>|
        score_of(fs, a) > score_of(fs, b) || (score_of(fs, a) == score_of(fs, b) && lex_le(a, b))
}

/// The crates of a report in ranking order.
pub open spec fn ranked_keys(fs: Seq<FindingView>) -> Seq<Seq<char>> {
    distinct_keys(fs).sort_by(rank_order(fs))
}

pub proof fn lemma_rank_order_total(fs: Seq<FindingView>)
    ensures
        total_ordering(rank_order(fs)),
{
    let r = rank_order(fs);
    assert forall|x: Seq<char>| #[trigger] r(x, x) by {
        lemma_lex_irreflexive(x);
    }
    assert forall|x: Seq<char>, y: Seq<char>| #[trigger] r(x, y) && #[trigger] r(y, x) implies x
        == y by {
        lemma_lex_trichotomy(x, y);
    }
    assert forall|x: Seq<char>, y: Seq<char>, z: Seq<char>| #[trigger] r(x, y) && #[trigger] r(
        y,
        z,
    ) implies r(x, z) by {
        lemma_lex_trichotomy(x, y);
        lemma_lex_trichotomy(y, z);
        lemma_lex_trichotomy(x, z);
        if score_of(fs, x) == score_of(fs, z) && lex_lt(z, x) {
            if x == y {
            } else if lex_lt(x, y) {
                lemma_lex_transitive(z, x, y);
            }
        }
    }
    assert forall|x: Seq<char>, y: Seq<char>| #[trigger] r(x, y) || #[trigger] r(y, x) by {
        lemma_lex_trichotomy(x, y);
    }
}

/// One row of the ranking table.
pub open spec fn rank_row(fs: Seq<FindingView>, key: Seq<char>) -> Seq<char> {
    "    "@ + pad_left(dec(score_of(fs, key)), 5) + "  "@ + pad_left(
        dec(count_key_sev(fs, key, Severity::Error)),
        3,
    ) + " "@ + pad_left(dec(count_key_sev(fs, key, Severity::Warn)), 4) + " "@ + pad_left(
        dec(count_key_sev(fs, key, Severity::Info)),
        4,
    ) + "  "@ + key + nl()
}

/// The rows for `keys`.
pub open spec fn rank_rows(fs: Seq<FindingView>, keys: Seq<Seq<char>>) -> Seq<char>
    decreases keys.len(),
{
    if keys.len() == 0 {
        seq![]
    } else {
        rank_rows(fs, keys.drop_last()) + rank_row(fs, keys.last())
    }
}

/// The ranking section of the text report.
pub open spec fn ranking_text(fs: Seq<FindingView>) -> Seq<char> {
    nl() + "  crate risk (score = 100·err + 10·warn + 1·info):"@ + nl()
        + "    score  err warn info  crate"@ + nl() + rank_rows(fs, ranked_keys(fs))
}

/// One crate's tally while ranking.
pub struct RankEntry {
    pub name: String,
    pub score: u64,
    pub err: u32,
    pub warn: u32,
    pub info: u32,
}

/// `e` holds exactly the tally of its crate over `fs`.
pub open spec fn entry_ok(fs: Seq<FindingView>, e: RankEntry) -> bool {
    &&& e.err == count_key_sev(fs, e.name@, Severity::Error)
    &&& e.warn == count_key_sev(fs, e.name@, Severity::Warn)
    &&& e.info == count_key_sev(fs, e.name@, Severity::Info)
    &&& e.score == score_of(fs, e.name@)
}

/// The names of a list of entries.
pub open spec fn entry_names(v: Seq<RankEntry>) -> Seq<Seq<char>> {
    v.map_values(|e: RankEntry| e.name@)
}

proof fn lemma_count_key_sev_bound(fs: Seq<FindingView>, key: Seq<char>, sev: Severity)
    ensures
        count_key_sev(fs, key, sev) <= fs.len(),
    decreases fs.len(),
{
    if fs.len() > 0 {
        lemma_count_key_sev_bound(fs.drop_last(), key, sev);
    }
}

proof fn lemma_count_key_sev_absent(fs: Seq<FindingView>, key: Seq<char>, sev: Severity)
    requires
        !distinct_keys(fs).contains(key),
    ensures
        count_key_sev(fs, key, sev) == 0,
    decreases fs.len(),
{
    if fs.len() > 0 {
        let d = distinct_keys(fs.drop_last());
        if d.contains(key) {
            assert(distinct_keys(fs).contains(key)) by {
                let k = choose|k: int| 0 <= k < d.len() && d[k] == key;
                if !d.contains(key_of(fs.last())) {
                    assert(d.push(key_of(fs.last()))[k] == key);
                }
            }
        }
        if key_of(fs.last()) == key {
            if d.contains(key_of(fs.last())) {
            } else {
                assert(d.push(key_of(fs.last()))[d.len() as int] == key);
            }
        }
        lemma_count_key_sev_absent(fs.drop_last(), key, sev);
    }
}

proof fn lemma_distinct_keys_no_dup(fs: Seq<FindingView>)
    ensures
        distinct_keys(fs).no_duplicates(),
    decreases fs.len(),
{
    if fs.len() > 0 {
        lemma_distinct_keys_no_dup(fs.drop_last());
    }
}

/// The crates of `distinct_keys` are exactly those that have a finding.
proof fn lemma_distinct_keys_contains(fs: Seq<FindingView>, k: Seq<char>)
    ensures
        distinct_keys(fs).contains(k) <==> exists|i: int| 0 <= i < fs.len() && key_of(#[trigger] fs[i]) == k,
    decreases fs.len(),
{
    if fs.len() > 0 {
        let pre = fs.drop_last();
        let d = distinct_keys(pre);
        lemma_distinct_keys_contains(pre, k);
        if distinct_keys(fs).contains(k) {
            if d.contains(k) {
                let i = choose|i: int| 0 <= i < pre.len() && key_of(#[trigger] pre[i]) == k;
                assert(fs[i] == pre[i]);
            } else {
                let j = choose|j: int| 0 <= j < distinct_keys(fs).len() && distinct_keys(fs)[j] == k;
                assert(j == d.len());
                assert(key_of(fs[fs.len() - 1]) == k);
            }
        }
        if exists|i: int| 0 <= i < fs.len() && key_of(#[trigger] fs[i]) == k {
            let i = choose|i: int| 0 <= i < fs.len() && key_of(#[trigger] fs[i]) == k;
            if i < fs.len() - 1 {
                assert(pre[i] == fs[i]);
                assert(d.contains(k));
                let j = choose|j: int| 0 <= j < d.len() && d[j] == k;
                if !d.contains(key_of(fs.last())) {
                    assert(d.push(key_of(fs.last()))[j] == k);
                }
            } else if !d.contains(k) {
                assert(d.push(key_of(fs.last()))[d.len() as int] == k);
            }
        }
    }
}

/// The ranking answers "which crate first": every crate (or `workspace`, for
/// findings without a crate) that has a finding is listed exactly once, in
/// order of strictly decreasing risk score, crates of equal score by name.
pub proof fn lemma_ranking_by_risk(fs: Seq<FindingView>)
    ensures
        ranked_keys(fs).no_duplicates(),
        forall|k: Seq<char>|
            ranked_keys(fs).contains(k) <==> exists|i: int| 0 <= i < fs.len() && key_of(#[trigger] fs[i]) == k,
        forall|i: int, j: int|
            0 <= i < j < ranked_keys(fs).len() ==> score_of(fs, #[trigger] ranked_keys(fs)[i]) > score_of(
                fs,
                #[trigger] ranked_keys(fs)[j],
            ) || (score_of(fs, ranked_keys(fs)[i]) == score_of(fs, ranked_keys(fs)[j]) && lex_lt(
                ranked_keys(fs)[i],
                ranked_keys(fs)[j],
            )),
{
    broadcast use vstd::multiset::group_multiset_axioms, vstd::seq_lib::group_seq_properties;

    let d = distinct_keys(fs);
    let leq = rank_order(fs);
    let rk = ranked_keys(fs);
    lemma_rank_order_total(fs);
    d.lemma_sort_by_ensures(leq);
    lemma_distinct_keys_no_dup(fs);
    d.lemma_multiset_has_no_duplicates();
    assert forall|x: Seq<char>| rk.to_multiset().contains(x) implies rk.to_multiset().count(x) == 1 by {
        assert(d.to_multiset().count(x) == rk.to_multiset().count(x));
    }
    rk.lemma_multiset_has_no_duplicates_conv();
    assert forall|k: Seq<char>| rk.contains(k) <==> d.contains(k) by {
        assert(d.to_multiset().count(k) == rk.to_multiset().count(k));
    }
    assert forall|k: Seq<char>|
        rk.contains(k) <==> exists|i: int| 0 <= i < fs.len() && key_of(#[trigger] fs[i]) == k by {
        lemma_distinct_keys_contains(fs, k);
    }
    assert forall|i: int, j: int| 0 <= i < j < rk.len() implies score_of(fs, #[trigger] rk[i]) > score_of(
        fs,
        #[trigger] rk[j],
    ) || (score_of(fs, rk[i]) == score_of(fs, rk[j]) && lex_lt(rk[i], rk[j])) by {
        assert(leq(rk[i], rk[j]));
        assert(rk[i] != rk[j]);
        lemma_lex_trichotomy(rk[i], rk[j]);
    }
}

impl RankEntry {
    /// Counts one more finding of severity `sev`.
    fn tally(&mut self, sev: Severity)
        requires
            old(self).err < u32::MAX,
            old(self).warn < u32::MAX,
            old(self).info < u32::MAX,
            old(self).score + 100 <= u64::MAX,
        ensures
            final(self).name == old(self).name,
            final(self).err == old(self).err + if sev == Severity::Error {
                1int
            } else {
                0int
            },
            final(self).warn == old(self).warn + if sev == Severity::Warn {
                1int
            } else {
                0int
            },
            final(self).info == old(self).info + if sev == Severity::Info {
                1int
            } else {
                0int
            },
            final(self).score == old(self).score + if sev == Severity::Error {
                100int
            } else if sev == Severity::Warn {
                10int
            } else {
                1int
            },
    {
        match sev {
            Severity::Error => {
                self.score = self.score + W_ERROR;
                self.err = self.err + 1;
            },
            Severity::Warn => {
                self.score = self.score + W_WARN;
                self.warn = self.warn + 1;
            },
            Severity::Info => {
                self.score = self.score + W_INFO;
                self.info = self.info + 1;
            },
        }
    }
}

/// The entry index of `key`, if present.
fn find_entry(entries: &Vec<RankEntry>, key: &str) -> (r: Option<usize>)
    ensures
        match r {
            Some(i) => i < entries@.len() && entries@[i as int].name@ == key@,
            None => !entry_names(entries@).contains(key@),
        },
{
    for i in 0..entries.len()
        invariant
            forall|j: int| 0 <= j < i ==> entries@[j].name@ != key@,
    {
        if str_eq(entries[i].name.as_str(), key) {
            return Some(i);
        }
    }
    proof {
        if entry_names(entries@).contains(key@) {
            let k = choose|k: int| 0 <= k < entries@.len() && entry_names(entries@)[k] == key@;
            assert(entries@[k].name@ == key@);
        }
    }
    None
}

proof fn lemma_entry_ok_other(pre: Seq<FindingView>, f: FindingView, e: RankEntry)
    requires
        entry_ok(pre, e),
        key_of(f) != e.name@,
    ensures
        entry_ok(pre.push(f), e),
{
    assert(pre.push(f).drop_last() =~= pre);
}

proof fn lemma_entry_ok_same(pre: Seq<FindingView>, f: FindingView, e: RankEntry, e2: RankEntry)
    requires
        entry_ok(pre, e),
        key_of(f) == e.name@,
        e2.name@ == e.name@,
        e2.err == e.err + if f.severity == Severity::Error {
            1int
        } else {
            0int
        },
        e2.warn == e.warn + if f.severity == Severity::Warn {
            1int
        } else {
            0int
        },
        e2.info == e.info + if f.severity == Severity::Info {
            1int
        } else {
            0int
        },
        e2.score == e.score + if f.severity == Severity::Error {
            100int
        } else if f.severity == Severity::Warn {
            10int
        } else {
            1int
        },
    ensures
        entry_ok(pre.push(f), e2),
{
    assert(pre.push(f).drop_last() =~= pre);
}

proof fn lemma_distinct_keys_push(pre: Seq<FindingView>, f: FindingView)
    ensures
        distinct_keys(pre.push(f)) == if distinct_keys(pre).contains(key_of(f)) {
            distinct_keys(pre)
        } else {
            distinct_keys(pre).push(key_of(f))
        },
{
    assert(pre.push(f).drop_last() =~= pre);
}

/// Per-crate tallies in order of first appearance.
fn tally_crates(report: &Report) -> (r: Vec<RankEntry>)
    requires
        report.findings@.len() <= u32::MAX,
    ensures
        entry_names(r@) == distinct_keys(views(report.findings@)),
        forall|i: int| 0 <= i < r@.len() ==> entry_ok(views(report.findings@), #[trigger] r@[i]),
{
    let ghost fs = views(report.findings@);
    let mut entries: Vec<RankEntry> = Vec::new();
    for k in 0..report.findings.len()
        invariant
            fs == views(report.findings@),
            fs.len() <= u32::MAX,
            entry_names(entries@) == distinct_keys(fs.take(k as int)),
            forall|i: int| 0 <= i < entries@.len() ==> entry_ok(fs.take(k as int), #[trigger] entries@[i]),
    {
        let f = &report.findings[k];
        let ghost pre = fs.take(k as int);
        let ghost old_entries = entries@;
        proof {
            assert(fs.take(k + 1) =~= pre.push(f@));
            lemma_distinct_keys_push(pre, f@);
            lemma_distinct_keys_no_dup(pre);
        }
        let key: &str = match &f.location.krate {
            Some(name) => name.as_str(),
            None => "workspace",
        };
        assert(key@ == key_of(f@));
        match find_entry(&entries, key) {
            Some(i) => {
                let old_e = &entries[i];
                proof {
                    assert(entry_ok(pre, *old_e));
                    lemma_count_key_sev_bound(pre, key@, Severity::Error);
                    lemma_count_key_sev_bound(pre, key@, Severity::Warn);
                    lemma_count_key_sev_bound(pre, key@, Severity::Info);
                    assert(entry_names(entries@)[i as int] == key@);
                }
                let mut e = RankEntry {
                    name: old_e.name.clone(),
                    score: old_e.score,
                    err: old_e.err,
                    warn: old_e.warn,
                    info: old_e.info,
                };
                e.tally(f.severity);
                proof {
                    lemma_entry_ok_same(pre, f@, *old_e, e);
                }
                entries.set(i, e);
                proof {
                    assert forall|j: int| 0 <= j < entries@.len() implies entry_ok(
                        pre.push(f@),
                        #[trigger] entries@[j],
                    ) by {
                        if j != i {
                            assert(entry_names(old_entries)[j] != entry_names(old_entries)[i as int]);
                            lemma_entry_ok_other(pre, f@, old_entries[j]);
                        }
                    }
                    assert(entry_names(entries@) =~= entry_names(old_entries));
                    assert(distinct_keys(pre).contains(key@));
                }
            },
            None => {
                proof {
                    lemma_count_key_sev_absent(pre, key@, Severity::Error);
                    lemma_count_key_sev_absent(pre, key@, Severity::Warn);
                    lemma_count_key_sev_absent(pre, key@, Severity::Info);
                }
                let e0 = RankEntry {
                    name: String::from_str(key),
                    score: 0,
                    err: 0,
                    warn: 0,
                    info: 0,
                };
                let mut e = RankEntry {
                    name: String::from_str(key),
                    score: 0,
                    err: 0,
                    warn: 0,
                    info: 0,
                };
                e.tally(f.severity);
                proof {
                    lemma_entry_ok_same(pre, f@, e0, e);
                }
                entries.push(e);
                proof {
                    assert forall|j: int| 0 <= j < entries@.len() implies entry_ok(
                        pre.push(f@),
                        #[trigger] entries@[j],
                    ) by {
                        if j < old_entries.len() {
                            assert(entry_names(old_entries)[j] != key@);
                            lemma_entry_ok_other(pre, f@, old_entries[j]);
                        }
                    }
                    assert(entry_names(entries@) =~= entry_names(old_entries).push(key@));
                }
            },
        }
    }
    proof {
        assert(fs.take(report.findings@.len() as int) =~= fs);
    }
    entries
}

/// Whether `a` ranks strictly before `b`.
fn ranks_before(a: &RankEntry, b: &RankEntry) -> (r: bool)
    ensures
        r == (a.score > b.score || (a.score == b.score && lex_lt(a.name@, b.name@))),
{
    a.score > b.score || (a.score == b.score && str_lt(a.name.as_str(), b.name.as_str()))
}

/// Entries sorted into ranking order.
fn rank_entries(entries: Vec<RankEntry>, Ghost(fs): Ghost<Seq<FindingView>>) -> (r: Vec<RankEntry>)
    requires
        forall|i: int| 0 <= i < entries@.len() ==> entry_ok(fs, #[trigger] entries@[i]),
        entry_names(entries@) == distinct_keys(fs),
    ensures
        forall|i: int| 0 <= i < r@.len() ==> entry_ok(fs, #[trigger] r@[i]),
        entry_names(r@) == ranked_keys(fs),
{
    broadcast use vstd::seq_lib::group_to_multiset_ensures;
    let ghost src = entry_names(entries@);
    let ghost ord = rank_order(fs);
    proof {
        lemma_rank_order_total(fs);
    }
    let mut input = entries;
    let mut out: Vec<RankEntry> = Vec::new();
    let n = input.len();
    let mut i: usize = 0;
    while input.len() > 0
        invariant
            i + input@.len() == n,
            n == src.len(),
            total_ordering(ord),
            ord == rank_order(fs),
            entry_names(input@) == src.skip(i as int),
            forall|j: int| 0 <= j < input@.len() ==> entry_ok(fs, #[trigger] input@[j]),
            forall|j: int| 0 <= j < out@.len() ==> entry_ok(fs, #[trigger] out@[j]),
            sorted_by(entry_names(out@), ord),
            entry_names(out@).to_multiset() == src.take(i as int).to_multiset(),
        decreases input@.len(),
    {
        let ghost old_input = input@;
        let x = input.remove(0);
        let ghost old_out = entry_names(out@);
        let ghost old_entries = out@;
        proof {
            assert(x == old_input[0]);
            assert(entry_ok(fs, x));
            assert(entry_names(old_input)[0] == src.skip(i as int)[0]);
            assert(x.name@ == src[i as int]);
        }
        let mut pos: usize = 0;
        let mut stop = false;
        while pos < out.len() && !stop
            invariant
                pos <= out@.len(),
                old_out == entry_names(out@),
                forall|j: int| 0 <= j < out@.len() ==> entry_ok(fs, #[trigger] out@[j]),
                entry_ok(fs, x),
                ord == rank_order(fs),
                forall|k: int| 0 <= k < pos ==> ord(#[trigger] old_out[k], x.name@),
                stop ==> pos < out@.len() && (x.score > out@[pos as int].score || (x.score
                    == out@[pos as int].score && lex_lt(x.name@, out@[pos as int].name@))),
            decreases out@.len() - pos + (if stop {
                0int
            } else {
                1int
            }),
        {
            if ranks_before(&x, &out[pos]) {
                stop = true;
            } else {
                proof {
                    assert(entry_ok(fs, out@[pos as int]));
                    lemma_lex_trichotomy(x.name@, out@[pos as int].name@);
                    assert(ord(old_out[pos as int], x.name@));
                }
                pos = pos + 1;
            }
        }
        let ghost p = pos as int;
        let ghost xn = x.name@;
        proof {
            if stop {
                assert(entry_ok(fs, out@[p]));
                lemma_lex_trichotomy(xn, old_out[p]);
                assert(ord(xn, old_out[p]));
            }
        }
        out.insert(pos, x);
        proof {
            let nv = entry_names(out@);
            assert(nv =~= old_out.insert(p, xn));
            assert forall|a: int, b: int| 0 <= a < b < nv.len() implies #[trigger] ord(
                nv[a],
                nv[b],
            ) by {
                if b < p {
                    assert(ord(old_out[a], old_out[b]));
                } else if a < p && b == p {
                } else if a < p && b > p {
                    assert(ord(old_out[a], old_out[b - 1]));
                } else if a == p {
                    assert(nv[b] == old_out[b - 1]);
                    if b - 1 > p {
                        assert(ord(old_out[p], old_out[b - 1]));
                    }
                } else {
                    assert(ord(old_out[a - 1], old_out[b - 1]));
                }
            }
            assert(nv.remove(p) =~= old_out);
            assert(src.take(i + 1) =~= src.take(i as int).push(xn));
            assert(nv.to_multiset() =~= old_out.to_multiset().insert(xn)) by {
                broadcast use vstd::multiset::group_multiset_axioms;
                vstd::seq_lib::to_multiset_remove(nv, p);
                assert(nv[p] == xn);
                assert(nv.contains(xn));
                nv.to_multiset_ensures();
            }
            vstd::seq_lib::to_multiset_build(src.take(i as int), xn);
            assert(input@ =~= old_input.subrange(1, old_input.len() as int));
            assert(entry_names(input@) =~= entry_names(old_input).subrange(1, old_input.len() as int));
            assert(entry_names(input@) =~= src.skip(i + 1));
            assert(out@ =~= old_entries.insert(p, x));
            assert forall|j: int| 0 <= j < out@.len() implies entry_ok(fs, #[trigger] out@[j]) by {
                if j < p {
                    assert(out@[j] == old_entries[j]);
                } else if j > p {
                    assert(out@[j] == old_entries[j - 1]);
                }
            }
            assert forall|j: int| 0 <= j < input@.len() implies entry_ok(fs, #[trigger] input@[j]) by {
                assert(input@[j] == old_input[j + 1]);
            }
        }
        i = i + 1;
    }
    proof {
        assert(src.take(n as int) =~= src);
        src.lemma_sort_by_ensures(ord);
        vstd::seq_lib::lemma_sorted_unique(entry_names(out@), src.sort_by(ord), ord);
    }
    out
}

/// The table row of an entry's tally.
pub open spec fn entry_row(e: RankEntry) -> Seq<char> {
    "    "@ + pad_left(dec(e.score as nat), 5) + "  "@ + pad_left(dec(e.err as nat), 3) + " "@
        + pad_left(dec(e.warn as nat), 4) + " "@ + pad_left(dec(e.info as nat), 4) + "  "@
        + e.name@ + nl()
}

fn push_rank_row(out: &mut String, e: &RankEntry)
    ensures
        final(out)@ == old(out)@ + entry_row(*e),
{
    out.append("    ");
    push_padded(out, decimal(e.score as u128).as_str(), 5);
    out.append("  ");
    push_padded(out, decimal(e.err as u128).as_str(), 3);
    out.append(" ");
    push_padded(out, decimal(e.warn as u128).as_str(), 4);
    out.append(" ");
    push_padded(out, decimal(e.info as u128).as_str(), 4);
    out.append("  ");
    push(out, e.name.as_str());
    assert(out@ =~= old(out)@ + entry_row(*e));
}

/// Appends the ranking section: crates by severity-weighted risk, highest
/// first, ties by name; workspace-wide findings count under `workspace`.
pub fn render_ranking(out: &mut String, report: &Report)
    requires
        report.findings@.len() <= u32::MAX,
    ensures
        final(out)@ == old(out)@ + ranking_text(views(report.findings@)),
{
    let ghost fs = views(report.findings@);
    let entries = tally_crates(report);
    let ranked = rank_entries(entries, Ghost(fs));
    push_char(out, '\n');
    push(out, "  crate risk (score = 100·err + 10·warn + 1·info):");
    push(out, "    score  err warn info  crate");
    let ghost head = out@;
    proof {
        assert(head =~= old(out)@ + nl() + "  crate risk (score = 100·err + 10·warn + 1·info):"@ + nl()
            + "    score  err warn info  crate"@ + nl());
    }
    let ghost keys = ranked_keys(fs);
    for i in 0..ranked.len()
        invariant
            keys == ranked_keys(fs),
            entry_names(ranked@) == keys,
            forall|j: int| 0 <= j < ranked@.len() ==> entry_ok(fs, #[trigger] ranked@[j]),
            out@ == head + rank_rows(fs, keys.take(i as int)),
    {
        let e = &ranked[i];
        proof {
            assert(entry_ok(fs, *e));
            assert(keys.take(i + 1).drop_last() =~= keys.take(i as int));
            assert(keys.take(i + 1).last() == e.name@);
            assert(entry_row(*e) == rank_row(fs, e.name@));
        }
        push_rank_row(out, e);
        proof {
            assert(out@ =~= head + rank_rows(fs, keys.take(i + 1)));
        }
    }
    proof {
        assert(keys.take(ranked@.len() as int) =~= keys);
    }
}

/// The tag a severity is listed under.
pub open spec fn tag_of(sev: Severity) -> Seq<char> {
    match sev {
        Severity::Error => "error"@,
        Severity::Warn => "warn "@,
        Severity::Info => "info "@,
    }
}

/// The line listing one finding.
pub open spec fn finding_line(f: FindingView) -> Seq<char> {
    "    ["@ + tag_of(f.severity) + "] "@ + f.inspection + " ("@ + key_of(f) + "): "@ + f.message
        + nl()
}

/// The lines of the findings of severity `sev`, in input order.
pub open spec fn severity_lines(fs: Seq<FindingView>, sev: Severity) -> Seq<char>
    decreases fs.len(),
{
    if fs.len() == 0 {
        seq![]
    } else {
        severity_lines(fs.drop_last(), sev) + if fs.last().severity == sev {
            finding_line(fs.last())
        } else {
            seq![]
        }
    }
}

/// The findings section: errors, then warnings, then infos.
pub open spec fn findings_text(fs: Seq<FindingView>) -> Seq<char> {
    nl() + "  findings:"@ + nl() + severity_lines(fs, Severity::Error) + severity_lines(
        fs,
        Severity::Warn,
    ) + severity_lines(fs, Severity::Info)
}

fn push_finding_line(out: &mut String, f: &Finding)
    ensures
        final(out)@ == old(out)@ + finding_line(f@),
{
    let tag = match f.severity {
        Severity::Error => "error",
        Severity::Warn => "warn ",
        Severity::Info => "info ",
    };
    let scope: &str = match &f.location.krate {
        Some(name) => name.as_str(),
        None => "workspace",
    };
    out.append("    [");
    out.append(tag);
    out.append("] ");
    out.append(f.inspection);
    out.append(" (");
    out.append(scope);
    out.append("): ");
    out.append(f.message.as_str());
    push_char(out, '\n');
    assert(out@ =~= old(out)@ + finding_line(f@));
}

/// Appends the lines of the findings of severity `sev`.
fn render_severity(out: &mut String, report: &Report, sev: Severity)
    ensures
        final(out)@ == old(out)@ + severity_lines(views(report.findings@), sev),
{
    let ghost fs = views(report.findings@);
    for k in 0..report.findings.len()
        invariant
            fs == views(report.findings@),
            out@ == old(out)@ + severity_lines(fs.take(k as int), sev),
    {
        let f = &report.findings[k];
        proof {
            assert(fs.take(k + 1).drop_last() =~= fs.take(k as int));
            assert(fs.take(k + 1).last() == f@);
        }
        if f.severity == sev {
            push_finding_line(out, f);
        }
        proof {
            assert(out@ =~= old(out)@ + severity_lines(fs.take(k + 1), sev));
        }
    }
    proof {
        assert(fs.take(report.findings@.len() as int) =~= fs);
    }
}

/// Appends the findings section: Error, then Warn, then Info, each in input
/// order.
pub fn render_findings(out: &mut String, report: &Report)
    ensures
        final(out)@ == old(out)@ + findings_text(views(report.findings@)),
{
    push_char(out, '\n');
    push(out, "  findings:");
    render_severity(out, report, Severity::Error);
    render_severity(out, report, Severity::Warn);
    render_severity(out, report, Severity::Info);
    assert(out@ =~= old(out)@ + findings_text(views(report.findings@)));
}

/// The summary lines every text report starts with.
pub open spec fn header_text(report: Report) -> Seq<char> {
    let fs = views(report.findings@);
    "rust-project-inspector"@ + nl() + "  root:     "@ + report.workspace.root@ + nl()
        + "  crates:   "@ + dec(report.metrics.crate_count as nat) + nl() + "  findings: "@ + dec(
        report.metrics.finding_count as nat,
    ) + "  ("@ + dec(count_sev(fs, Severity::Error)) + " error, "@ + dec(
        count_sev(fs, Severity::Warn),
    ) + " warn, "@ + dec(count_sev(fs, Severity::Info)) + " info)"@ + nl()
}

/// The text report.
pub open spec fn text_spec(report: Report) -> Seq<char> {
    let fs = views(report.findings@);
    header_text(report) + if fs.len() == 0 {
        "  (no findings)"@ + nl()
    } else {
        ranking_text(fs) + findings_text(fs)
    }
}

/// The human-readable report: summary, crate ranking, findings by severity.
pub fn text(report: &Report) -> (r: String)
    requires
        report.findings@.len() <= u32::MAX,
    ensures
        r@ == text_spec(*report),
{
    let mut out = String::new();
    let (e, w, i) = severity_counts(report);
    push(&mut out, "rust-project-inspector");
    out.append("  root:     ");
    push(&mut out, report.workspace.root.as_str());
    out.append("  crates:   ");
    push_decimal(&mut out, report.metrics.crate_count as u128);
    push_char(&mut out, '\n');
    out.append("  findings: ");
    push_decimal(&mut out, report.metrics.finding_count as u128);
    out.append("  (");
    push_decimal(&mut out, e as u128);
    out.append(" error, ");
    push_decimal(&mut out, w as u128);
    out.append(" warn, ");
    push_decimal(&mut out, i as u128);
    push(&mut out, " info)");
    assert(out@ =~= header_text(*report));
    if report.findings.len() == 0 {
        push(&mut out, "  (no findings)");
        assert(out@ =~= text_spec(*report));
        return out;
    }
    render_ranking(&mut out, report);
    render_findings(&mut out, report);
    assert(out@ =~= text_spec(*report));
    out
}

} // verus!
