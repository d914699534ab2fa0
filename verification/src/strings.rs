//! Text building blocks: decimal rendering, padding, comparison and sorted
//! string sets, each with the mathematical meaning its callers rely on.
use vstd::prelude::*;
use vstd::relations::{sorted_by, total_ordering};

verus! {

/// `String::push` from std: appends one character to the end of the string.
#[verifier::external_body]
pub(crate) fn push_char(s: &mut String, c: char)
    ensures
        final(s)@ == old(s)@.push(c),
{
    s.push(c);
}

/// The decimal digit for `d` (meaningful for `d < 10`).
pub open spec fn digit(d: nat) -> char {
    if d == 0 {
        '0'
    } else if d == 1 {
        '1'
    } else if d == 2 {
        '2'
    } else if d == 3 {
        '3'
    } else if d == 4 {
        '4'
    } else if d == 5 {
        '5'
    } else if d == 6 {
        '6'
    } else if d == 7 {
        '7'
    } else if d == 8 {
        '8'
    } else {
        '9'
    }
}

/// Base-ten rendering of a natural number, most significant digit first,
/// without leading zeros (`0` renders as `"0"`).
pub open spec fn dec(n: nat) -> Seq<char>
    decreases n,
{
    if n < 10 {
        seq![digit(n)]
    } else {
        dec(n / 10).push(digit(n % 10))
    }
}

pub fn digit_char(d: u128) -> (c: char)
    requires
        d < 10,
    ensures
        c == digit(d as nat),
{
    match d {
        0 => '0',
        1 => '1',
        2 => '2',
        3 => '3',
        4 => '4',
        5 => '5',
        6 => '6',
        7 => '7',
        8 => '8',
        _ => '9',
    }
}

/// Appends the decimal rendering of `n` to `out`.
pub fn push_decimal(out: &mut String, n: u128)
    ensures
        final(out)@ == old(out)@ + dec(n as nat),
    decreases n,
{
    if n < 10 {
        push_char(out, digit_char(n));
    } else {
        push_decimal(out, n / 10);
        push_char(out, digit_char(n % 10));
        assert(old(out)@ + dec(n as nat) =~= old(out)@ + dec((n / 10) as nat) + seq![
            digit((n % 10) as nat),
        ]);
    }
}

/// The decimal rendering of `n` as a new string.
pub fn decimal(n: u128) -> (s: String)
    ensures
        s@ == dec(n as nat),
{
    let mut s = String::new();
    push_decimal(&mut s, n);
    assert(s@ =~= dec(n as nat));
    s
}

/// `n` spaces.
pub open spec fn spaces(n: nat) -> Seq<char> {
    Seq::new(n, |i: int| ' ')
}

/// `s` right-aligned in a field of `width` characters (never truncated).
pub open spec fn pad_left(s: Seq<char>, width: nat) -> Seq<char> {
    if s.len() >= width {
        s
    } else {
        spaces((width - s.len()) as nat) + s
    }
}

/// Appends `s` right-aligned in a field of `width` characters.
pub fn push_padded(out: &mut String, s: &str, width: usize)
    ensures
        final(out)@ == old(out)@ + pad_left(s@, width as nat),
{
    let len = s.unicode_len();
    let mut k: usize = len;
    while k < width
        invariant
            len == s@.len(),
            len <= k <= width || (len > width && k == len),
            out@ == old(out)@ + spaces((k - len) as nat),
        decreases width - k,
    {
        push_char(out, ' ');
        k = k + 1;
        assert(out@ =~= old(out)@ + spaces((k - len) as nat));
    }
    out.append(s);
    if len >= width {
        assert(out@ =~= old(out)@ + pad_left(s@, width as nat));
    } else {
        assert(out@ =~= old(out)@ + pad_left(s@, width as nat));
    }
}

/// Whether character `x` sorts before a different character `y`: by scalar
/// value, except that with `slash_first` the path separator `/` comes before
/// every other character.
pub open spec fn char_before(x: char, y: char, slash_first: bool) -> bool {
    if slash_first && x == '/' {
        true
    } else if slash_first && y == '/' {
        false
    } else {
        (x as int) < (y as int)
    }
}

/// Strict lexicographic order on character sequences by [`char_before`].
pub open spec fn rank_lt(a: Seq<char>, b: Seq<char>, slash_first: bool) -> bool
    decreases a.len(),
{
    if b.len() == 0 {
        false
    } else if a.len() == 0 {
        true
    } else if a[0] != b[0] {
        char_before(a[0], b[0], slash_first)
    } else {
        rank_lt(a.drop_first(), b.drop_first(), slash_first)
    }
}

/// Strict lexicographic order on character sequences, comparing characters by
/// their scalar values (the order of `str` in std, since UTF-8 preserves it).
pub open spec fn lex_lt(a: Seq<char>, b: Seq<char>) -> bool {
    rank_lt(a, b, false)
}

/// The order of paths written with single `/` separators: component by
/// component, each component compared as a string. (Ranking `/` below every
/// other character gives exactly this order.)
pub open spec fn path_lt(a: Seq<char>, b: Seq<char>) -> bool {
    rank_lt(a, b, true)
}

pub proof fn lemma_rank_irreflexive(a: Seq<char>, sf: bool)
    ensures
        !rank_lt(a, a, sf),
    decreases a.len(),
{
    if a.len() > 0 {
        lemma_rank_irreflexive(a.drop_first(), sf);
    }
}

pub proof fn lemma_rank_trichotomy(a: Seq<char>, b: Seq<char>, sf: bool)
    ensures
        a != b ==> (rank_lt(a, b, sf) || rank_lt(b, a, sf)),
        !(rank_lt(a, b, sf) && rank_lt(b, a, sf)),
    decreases a.len(),
{
    if a.len() > 0 && b.len() > 0 {
        if a[0] == b[0] {
            lemma_rank_trichotomy(a.drop_first(), b.drop_first(), sf);
            if a != b {
                if a.drop_first() == b.drop_first() {
                    assert(a =~= seq![a[0]] + a.drop_first());
                    assert(b =~= seq![b[0]] + b.drop_first());
                }
            }
        } else {
            assert((a[0] as int) != (b[0] as int));
        }
    } else if a.len() == 0 && b.len() == 0 {
        assert(a =~= b);
    }
}

pub proof fn lemma_rank_transitive(a: Seq<char>, b: Seq<char>, c: Seq<char>, sf: bool)
    requires
        rank_lt(a, b, sf),
        rank_lt(b, c, sf),
    ensures
        rank_lt(a, c, sf),
    decreases a.len(),
{
    if a.len() > 0 && b.len() > 0 && c.len() > 0 {
        if a[0] == b[0] && b[0] == c[0] {
            lemma_rank_transitive(a.drop_first(), b.drop_first(), c.drop_first(), sf);
        }
    }
}

pub proof fn lemma_lex_irreflexive(a: Seq<char>)
    ensures
        !lex_lt(a, a),
{
    lemma_rank_irreflexive(a, false);
}

pub proof fn lemma_lex_trichotomy(a: Seq<char>, b: Seq<char>)
    ensures
        a != b ==> (lex_lt(a, b) || lex_lt(b, a)),
        !(lex_lt(a, b) && lex_lt(b, a)),
{
    lemma_rank_trichotomy(a, b, false);
}

pub proof fn lemma_lex_transitive(a: Seq<char>, b: Seq<char>, c: Seq<char>)
    requires
        lex_lt(a, b),
        lex_lt(b, c),
    ensures
        lex_lt(a, c),
{
    lemma_rank_transitive(a, b, c, false);
}

/// Whether the two strings hold the same characters.
pub fn str_eq(a: &str, b: &str) -> (r: bool)
    ensures
        r == (a@ == b@),
{
    let n = a.unicode_len();
    let m = b.unicode_len();
    if n != m {
        return false;
    }
    let mut i: usize = 0;
    while i < n
        invariant
            n == a@.len(),
            m == b@.len(),
            n == m,
            i <= n,
            forall|j: int| 0 <= j < i ==> a@[j] == b@[j],
        decreases n - i,
    {
        if a.get_char(i) != b.get_char(i) {
            return false;
        }
        i = i + 1;
    }
    assert(a@ =~= b@);
    true
}

/// Whether `a` sorts strictly before `b` (see [`rank_lt`]).
pub fn str_rank_lt(a: &str, b: &str, slash_first: bool) -> (r: bool)
    ensures
        r == rank_lt(a@, b@, slash_first),
{
    let n = a.unicode_len();
    let m = b.unicode_len();
    let mut i: usize = 0;
    assert(a@.skip(0) =~= a@);
    assert(b@.skip(0) =~= b@);
    while i < n && i < m
        invariant
            n == a@.len(),
            m == b@.len(),
            i <= n,
            i <= m,
            rank_lt(a@, b@, slash_first) == rank_lt(a@.skip(i as int), b@.skip(i as int), slash_first),
        decreases n - i,
    {
        let x = a.get_char(i);
        let y = b.get_char(i);
        if x != y {
            proof {
                assert(a@.skip(i as int)[0] == x);
                assert(b@.skip(i as int)[0] == y);
            }
            if slash_first && x == '/' {
                return true;
            }
            if slash_first && y == '/' {
                return false;
            }
            return (x as u32) < (y as u32);
        }
        proof {
            assert(a@.skip(i as int).drop_first() =~= a@.skip(i + 1));
            assert(b@.skip(i as int).drop_first() =~= b@.skip(i + 1));
        }
        i = i + 1;
    }
    i < m
}

/// Whether `a` sorts strictly before `b` (see [`lex_lt`]).
pub fn str_lt(a: &str, b: &str) -> (r: bool)
    ensures
        r == lex_lt(a@, b@),
{
    str_rank_lt(a, b, false)
}

/// The character sequences of a list of strings.
pub open spec fn strs(v: Seq<String>) -> Seq<Seq<char>> {
    v.map_values(|s: String| s@)
}

/// Every element sorts strictly before every later one: sorted, no repeats.
pub open spec fn strictly_sorted(s: Seq<Seq<char>>) -> bool {
    forall|i: int, j: int| 0 <= i < j < s.len() ==> lex_lt(#[trigger] s[i], #[trigger] s[j])
}

/// Whether `v` holds a string with the same characters as `s`.
pub fn contains_str(v: &Vec<String>, s: &str) -> (r: bool)
    ensures
        r == strs(v@).contains(s@),
{
    let mut i: usize = 0;
    while i < v.len()
        invariant
            i <= v.len(),
            forall|j: int| 0 <= j < i ==> v@[j]@ != s@,
        decreases v.len() - i,
    {
        if str_eq(v[i].as_str(), s) {
            assert(strs(v@)[i as int] == s@);
            return true;
        }
        i = i + 1;
    }
    proof {
        if strs(v@).contains(s@) {
            let k = choose|k: int| 0 <= k < strs(v@).len() && strs(v@)[k] == s@;
            assert(v@[k]@ == s@);
        }
    }
    false
}

/// Inserts `s` into a strictly sorted list unless an equal string is already
/// there; the list stays strictly sorted and gains exactly `s`.
pub fn insert_sorted(v: &mut Vec<String>, s: String)
    requires
        strictly_sorted(strs(old(v)@)),
    ensures
        strictly_sorted(strs(final(v)@)),
        strs(final(v)@).to_set() == strs(old(v)@).to_set().insert(s@),
{
    let ghost old_v = strs(v@);
    let mut i: usize = 0;
    let mut stop = false;
    while i < v.len() && !stop
        invariant
            i <= v.len(),
            strs(v@) == old_v,
            strictly_sorted(old_v),
            forall|j: int| 0 <= j < i ==> lex_lt(#[trigger] old_v[j], s@),
            stop ==> i < v.len() && lex_lt(s@, old_v[i as int]),
        decreases v.len() - i + (if stop { 0int } else { 1int }),
    {
        if str_eq(v[i].as_str(), s.as_str()) {
            proof {
                assert(old_v[i as int] == s@);
                assert(old_v.to_set().insert(s@) =~= old_v.to_set());
            }
            return;
        }
        if str_lt(s.as_str(), v[i].as_str()) {
            stop = true;
        } else {
            proof {
                lemma_lex_trichotomy(s@, old_v[i as int]);
            }
            i = i + 1;
        }
    }
    let ghost pos = i as int;
    proof {
        if pos < old_v.len() {
            assert(lex_lt(s@, old_v[pos]));
        }
    }
    v.insert(i, s);
    proof {
        let nv = strs(v@);
        assert(nv =~= old_v.take(pos).push(s@) + old_v.skip(pos));
        assert forall|a: int, b: int| 0 <= a < b < nv.len() implies lex_lt(
            #[trigger] nv[a],
            #[trigger] nv[b],
        ) by {
            if a < pos && b == pos {
            } else if a < pos && b > pos {
                assert(nv[b] == old_v[b - 1]);
                if b - 1 > pos {
                    lemma_lex_transitive(old_v[a], old_v[pos], old_v[b - 1]);
                }
            } else if a == pos {
                assert(nv[b] == old_v[b - 1]);
                if b - 1 > pos {
                    lemma_lex_transitive(s@, old_v[pos], old_v[b - 1]);
                }
            } else if a > pos {
                assert(nv[a] == old_v[a - 1]);
                assert(nv[b] == old_v[b - 1]);
            }
        }
        assert forall|x: Seq<char>| nv.to_set().contains(x) <==> old_v.to_set().insert(
            s@,
        ).contains(x) by {
            if nv.to_set().contains(x) {
                let k = choose|k: int| 0 <= k < nv.len() && nv[k] == x;
                if k < pos {
                    assert(old_v[k] == x);
                } else if k > pos {
                    assert(old_v[k - 1] == x);
                }
            }
            if old_v.to_set().contains(x) {
                let k = choose|k: int| 0 <= k < old_v.len() && old_v[k] == x;
                if k < pos {
                    assert(nv[k] == x);
                } else {
                    assert(nv[k + 1] == x);
                }
            }
            if x == s@ {
                assert(nv[pos] == x);
            }
        }
        assert(nv.to_set() =~= old_v.to_set().insert(s@));
    }
}

/// `a` sorts no later than `b`.
pub open spec fn lex_le(a: Seq<char>, b: Seq<char>) -> bool {
    !lex_lt(b, a)
}

/// The non-strict order that [`rank_lt`] sorts by.
pub open spec fn rank_order(slash_first: bool) -> spec_fn(Seq<char>, Seq<char>) -> bool {
    |a: Seq<char>, b: Seq<char>| !rank_lt(b, a, slash_first)
}

/// The order strings are sorted by.
pub open spec fn lex_order() -> spec_fn(Seq<char>, Seq<char>) -> bool {
    rank_order(false)
}

/// The order paths are sorted by.
pub open spec fn path_order() -> spec_fn(Seq<char>, Seq<char>) -> bool {
    rank_order(true)
}

pub proof fn lemma_rank_order_total(sf: bool)
    ensures
        total_ordering(rank_order(sf)),
{
    let r = rank_order(sf);
    assert forall|x: Seq<char>| #[trigger] r(x, x) by {
        lemma_rank_irreflexive(x, sf);
    }
    assert forall|x: Seq<char>, y: Seq<char>| #[trigger] r(x, y) && #[trigger] r(y, x) implies x
        == y by {
        lemma_rank_trichotomy(x, y, sf);
    }
    assert forall|x: Seq<char>, y: Seq<char>, z: Seq<char>| #[trigger] r(x, y) && #[trigger] r(
        y,
        z,
    ) implies r(x, z) by {
        lemma_rank_trichotomy(x, y, sf);
        if rank_lt(z, x, sf) {
            if x == y {
            } else if rank_lt(x, y, sf) {
                lemma_rank_transitive(z, x, y, sf);
            }
        }
    }
    assert forall|x: Seq<char>, y: Seq<char>| #[trigger] r(x, y) || #[trigger] r(y, x) by {
        lemma_rank_trichotomy(x, y, sf);
    }
}

pub proof fn lemma_lex_order_total()
    ensures
        total_ordering(lex_order()),
{
    lemma_rank_order_total(false);
}

/// The strings of `v`, sorted (equal strings stay together).
pub fn sort_strings(v: &Vec<String>) -> (r: Vec<String>)
    ensures
        strs(r@) == strs(v@).sort_by(lex_order()),
{
    sort_by_rank(v, false)
}

/// The strings of `v`, sorted by [`rank_order`].
pub fn sort_by_rank(v: &Vec<String>, slash_first: bool) -> (r: Vec<String>)
    ensures
        strs(r@) == strs(v@).sort_by(rank_order(slash_first)),
{
    broadcast use vstd::seq_lib::group_to_multiset_ensures;
    let mut out: Vec<String> = Vec::new();
    let n = v.len();
    proof {
        lemma_rank_order_total(slash_first);
    }
    for i in 0..n
        invariant
            n == v@.len(),
            total_ordering(rank_order(slash_first)),
            sorted_by(strs(out@), rank_order(slash_first)),
            strs(out@).to_multiset() == strs(v@).take(i as int).to_multiset(),
    {
        let x = v[i].clone();
        let ghost old_out = strs(out@);
        let mut pos: usize = 0;
        let mut stop = false;
        while pos < out.len() && !stop
            invariant
                pos <= out.len(),
                strs(out@) == old_out,
                forall|k: int| 0 <= k < pos ==> !rank_lt(x@, #[trigger] old_out[k], slash_first),
                stop ==> pos < out.len() && rank_lt(x@, old_out[pos as int], slash_first),
            decreases out.len() - pos + (if stop {
                0int
            } else {
                1int
            }),
        {
            if str_rank_lt(x.as_str(), out[pos].as_str(), slash_first) {
                stop = true;
            } else {
                pos = pos + 1;
            }
        }
        let ghost p = pos as int;
        out.insert(pos, x);
        proof {
            let r = rank_order(slash_first);
            let nv = strs(out@);
            assert(nv =~= old_out.insert(p, x@));
            assert forall|a: int, b: int| 0 <= a < b < nv.len() implies #[trigger] r(
                nv[a],
                nv[b],
            ) by {
                if b < p {
                    assert(r(old_out[a], old_out[b]));
                } else if a < p && b == p {
                } else if a < p && b > p {
                    assert(r(old_out[a], old_out[b - 1]));
                } else if a == p {
                    assert(nv[b] == old_out[b - 1]);
                    assert(rank_lt(x@, old_out[p], slash_first));
                    lemma_rank_trichotomy(x@, old_out[p], slash_first);
                    assert(r(x@, old_out[p]));
                    if b - 1 > p {
                        assert(r(old_out[p], old_out[b - 1]));
                    }
                } else {
                    assert(r(old_out[a - 1], old_out[b - 1]));
                }
            }
            assert(nv.remove(p) =~= old_out);
            assert(strs(v@).take(i + 1) =~= strs(v@).take(i as int).push(x@));
            assert(nv.to_multiset() =~= old_out.to_multiset().insert(x@)) by {
                broadcast use vstd::multiset::group_multiset_axioms;
                vstd::seq_lib::to_multiset_remove(nv, p);
                assert(nv.to_multiset().remove(nv[p]) == old_out.to_multiset());
                assert(nv[p] == x@);
                assert(nv.contains(x@));
                nv.to_multiset_ensures();
                assert(nv.to_multiset().count(x@) > 0);
            }
            vstd::seq_lib::to_multiset_build(strs(v@).take(i as int), x@);
        }
    }
    proof {
        assert(strs(v@).take(n as int) =~= strs(v@));
        strs(v@).lemma_sort_by_ensures(rank_order(slash_first));
        vstd::seq_lib::lemma_sorted_unique(strs(out@), strs(v@).sort_by(rank_order(slash_first)), rank_order(slash_first));
    }
    out
}

/// `parts` joined with `sep` between consecutive parts.
pub open spec fn join(parts: Seq<Seq<char>>, sep: Seq<char>) -> Seq<char>
    decreases parts.len(),
{
    if parts.len() == 0 {
        seq![]
    } else if parts.len() == 1 {
        parts[0]
    } else {
        join(parts.drop_last(), sep) + sep + parts.last()
    }
}

/// Appends `parts` joined with `sep`.
pub fn push_joined(out: &mut String, parts: &Vec<String>, sep: &str)
    ensures
        final(out)@ == old(out)@ + join(strs(parts@), sep@),
{
    let n = parts.len();
    for i in 0..n
        invariant
            n == parts@.len(),
            out@ == old(out)@ + join(strs(parts@).take(i as int), sep@),
    {
        if i > 0 {
            out.append(sep);
        }
        out.append(parts[i].as_str());
        proof {
            let t = strs(parts@).take(i + 1);
            assert(t.drop_last() =~= strs(parts@).take(i as int));
            if i == 0 {
                assert(strs(parts@).take(0) =~= Seq::<Seq<char>>::empty());
            }
            assert(out@ =~= old(out)@ + join(t, sep@));
        }
    }
    assert(strs(parts@).take(n as int) =~= strs(parts@));
}

/// `num / den` in tenths, rounded to the nearest tenth with ties to even.
pub open spec fn tenths(num: nat, den: nat) -> nat {
    let q = (num * 10) / den;
    let r = (num * 10) % den;
    if r > den - r || (r == den - r && q % 2 == 1) {
        q + 1
    } else {
        q
    }
}

/// `num / den` written with one decimal place, e.g. `"12.5"`.
pub open spec fn one_decimal(num: nat, den: nat) -> Seq<char> {
    let t = tenths(num, den);
    dec(t / 10) + seq!['.', digit(t % 10)]
}

/// Appends `num / den` with one decimal place.
pub fn push_one_decimal(out: &mut String, num: u128, den: u128)
    requires
        den > 0,
        num * 10 <= u128::MAX,
    ensures
        final(out)@ == old(out)@ + one_decimal(num as nat, den as nat),
{
    let x = num * 10;
    let q = x / den;
    let r = x % den;
    assert(q <= x) by (nonlinear_arith)
        requires
            q == x / den,
            den > 0,
            x >= 0,
    ;
    let t = if r > den - r || (r == den - r && q % 2 == 1) {
        assert(q < u128::MAX) by (nonlinear_arith)
            requires
                q == x / den,
                r == x % den,
                den > 0,
                r > 0,
                x <= u128::MAX,
        ;
        q + 1
    } else {
        q
    };
    assert(t == tenths(num as nat, den as nat));
    push_decimal(out, t / 10);
    push_char(out, '.');
    push_char(out, digit_char(t % 10));
    assert(out@ =~= old(out)@ + one_decimal(num as nat, den as nat));
}

/// The elements of a set of strings as a strictly sorted sequence.
pub open spec fn sorted_elems(s: Set<Seq<char>>) -> Seq<Seq<char>> {
    choose|q: Seq<Seq<char>>| strictly_sorted(q) && q.to_set() == s
}

/// Two strictly sorted sequences with the same elements are equal.
pub proof fn lemma_strictly_sorted_unique(a: Seq<Seq<char>>, b: Seq<Seq<char>>)
    requires
        strictly_sorted(a),
        strictly_sorted(b),
        a.to_set() == b.to_set(),
    ensures
        a == b,
    decreases a.len(),
{
    if a.len() == 0 {
        if b.len() > 0 {
            assert(b.to_set().contains(b[0]));
        }
        assert(a =~= b);
    } else if b.len() == 0 {
        assert(a.to_set().contains(a[0]));
    } else {
        assert(a.to_set().contains(a[0]));
        assert(b.to_set().contains(b[0]));
        let k = choose|k: int| 0 <= k < b.len() && b[k] == a[0];
        let m = choose|m: int| 0 <= m < a.len() && a[m] == b[0];
        if k > 0 {
            assert(lex_lt(b[0], b[k]));
            if m > 0 {
                assert(lex_lt(a[0], a[m]));
                lemma_lex_trichotomy(a[0], b[0]);
            } else {
                lemma_lex_irreflexive(a[0]);
            }
        }
        assert(a[0] == b[0]);
        let a1 = a.drop_first();
        let b1 = b.drop_first();
        assert forall|i: int, j: int| 0 <= i < j < a1.len() implies lex_lt(
            #[trigger] a1[i],
            #[trigger] a1[j],
        ) by {
            assert(lex_lt(a[i + 1], a[j + 1]));
        }
        assert forall|i: int, j: int| 0 <= i < j < b1.len() implies lex_lt(
            #[trigger] b1[i],
            #[trigger] b1[j],
        ) by {
            assert(lex_lt(b[i + 1], b[j + 1]));
        }
        assert forall|x: Seq<char>| a1.to_set().contains(x) <==> b1.to_set().contains(x) by {
            if a1.to_set().contains(x) {
                let i = choose|i: int| 0 <= i < a1.len() && a1[i] == x;
                assert(lex_lt(a[0], a[i + 1]));
                lemma_lex_irreflexive(a[0]);
                assert(a.to_set().contains(x));
                let j = choose|j: int| 0 <= j < b.len() && b[j] == x;
                assert(j != 0);
                assert(b1[j - 1] == x);
            }
            if b1.to_set().contains(x) {
                let i = choose|i: int| 0 <= i < b1.len() && b1[i] == x;
                assert(lex_lt(b[0], b[i + 1]));
                lemma_lex_irreflexive(b[0]);
                assert(b.to_set().contains(x));
                let j = choose|j: int| 0 <= j < a.len() && a[j] == x;
                assert(j != 0);
                assert(a1[j - 1] == x);
            }
        }
        assert(a1.to_set() =~= b1.to_set());
        lemma_strictly_sorted_unique(a1, b1);
        assert(a.len() == b.len());
        assert forall|i: int| 0 <= i < a.len() implies a[i] == b[i] by {
            if i > 0 {
                assert(a[i] == a1[i - 1]);
                assert(b[i] == b1[i - 1]);
            }
        }
        assert(a =~= b);
    }
}

/// A strictly sorted sequence is the sorted sequence of its elements.
pub proof fn lemma_sorted_elems(q: Seq<Seq<char>>)
    requires
        strictly_sorted(q),
    ensures
        sorted_elems(q.to_set()) == q,
{
    let r = sorted_elems(q.to_set());
    assert(strictly_sorted(r) && r.to_set() == q.to_set());
    lemma_strictly_sorted_unique(r, q);
}

} // verus!
