//! Reading `rpi.toml`: the thresholds a workspace overrides.
//!
//! The file holds top-level `key = value` lines. Blank lines and `#`
//! comments are skipped, and keys other than the thresholds of [`Config`] are
//! ignored, so unset keys keep their defaults. Integer thresholds take plain
//! decimal digits; `unsafe_density_warn` (unsafe items per 1000 lines) takes a
//! decimal number with at most three fractional digits, kept exactly in
//! thousandths. Any other line is an error that names its line number.
use vstd::prelude::*;
use crate::model::{default_config, Config};

verus! {

/// What is wrong with a line of `rpi.toml`.
#[derive(Clone, Copy, Debug, PartialEq, Eq, Structural)]
pub enum ConfigErrorKind {
    /// Neither blank, a comment, nor `key = value`.
    NotKeyValue,
    /// A threshold whose value is not a number of the form it takes.
    BadValue,
}

/// A rejected line: its 1-based number and what is wrong with it.
#[derive(Clone, Copy, Debug, PartialEq, Eq, Structural)]
pub struct ConfigError {
    pub line: usize,
    pub kind: ConfigErrorKind,
}

/// Index of the first `c` in `s`, or `s.len()` when there is none.
pub open spec fn first_index(s: Seq<char>, c: char) -> nat
    decreases s.len(),
{
    if s.len() == 0 {
        0
    } else if s[0] == c {
        0
    } else {
        1 + first_index(s.drop_first(), c)
    }
}

/// Blanks that surround keys and values.
pub open spec fn is_blank(c: char) -> bool {
    c == ' ' || c == '\t' || c == '\r'
}

pub open spec fn trim_start(s: Seq<char>) -> Seq<char>
    decreases s.len(),
{
    if s.len() > 0 && is_blank(s[0]) {
        trim_start(s.drop_first())
    } else {
        s
    }
}

pub open spec fn trim_end(s: Seq<char>) -> Seq<char>
    decreases s.len(),
{
    if s.len() > 0 && is_blank(s.last()) {
        trim_end(s.drop_last())
    } else {
        s
    }
}

/// `s` without leading and trailing blanks.
pub open spec fn trim(s: Seq<char>) -> Seq<char> {
    trim_end(trim_start(s))
}

/// What a line says, without its comment and surrounding blanks.
pub open spec fn code_of(line: Seq<char>) -> Seq<char> {
    trim(line.take(first_index(line, '#') as int))
}

/// The value of a decimal digit.
pub open spec fn digit_value(c: char) -> Option<nat> {
    if c == '0' {
        Some(0)
    } else if c == '1' {
        Some(1)
    } else if c == '2' {
        Some(2)
    } else if c == '3' {
        Some(3)
    } else if c == '4' {
        Some(4)
    } else if c == '5' {
        Some(5)
    } else if c == '6' {
        Some(6)
    } else if c == '7' {
        Some(7)
    } else if c == '8' {
        Some(8)
    } else if c == '9' {
        Some(9)
    } else {
        None
    }
}

/// Whether `s` is a non-empty run of decimal digits.
pub open spec fn is_number(s: Seq<char>) -> bool {
    s.len() > 0 && forall|i: int| 0 <= i < s.len() ==> (#[trigger] digit_value(s[i])) is Some
}

/// The value of a run of decimal digits.
pub open spec fn number_value(s: Seq<char>) -> nat
    decreases s.len(),
{
    if s.len() == 0 {
        0
    } else {
        number_value(s.drop_last()) * 10 + digit_value(s.last())->0
    }
}

/// A whole-number threshold.
pub open spec fn count_value(s: Seq<char>) -> Option<usize> {
    if is_number(s) && number_value(s) <= usize::MAX {
        Some(number_value(s) as usize)
    } else {
        None
    }
}

/// The thousandths that a fraction of one to three digits stands for.
pub open spec fn fraction_milli(f: Seq<char>) -> nat {
    if f.len() == 1 {
        number_value(f) * 100
    } else if f.len() == 2 {
        number_value(f) * 10
    } else {
        number_value(f)
    }
}

/// A threshold in thousandths: `digits` or `digits.fraction`, with one to
/// three fractional digits.
pub open spec fn milli_value(s: Seq<char>) -> Option<u64> {
    let d = first_index(s, '.') as int;
    let whole = s.take(d);
    if d >= s.len() {
        if is_number(whole) && number_value(whole) * 1000 <= u64::MAX {
            Some((number_value(whole) * 1000) as u64)
        } else {
            None
        }
    } else {
        let frac = s.skip(d + 1);
        if is_number(whole) && is_number(frac) && frac.len() <= 3 && number_value(whole) * 1000
            + fraction_milli(frac) <= u64::MAX {
            Some((number_value(whole) * 1000 + fraction_milli(frac)) as u64)
        } else {
            None
        }
    }
}

/// `cfg` with `key` set to `value`, read on line `n`.
pub open spec fn set_key(cfg: Config, key: Seq<char>, value: Seq<char>, n: nat) -> Result<
    Config,
    (nat, ConfigErrorKind),
> {
    if key == "unsafe_density_warn"@ {
        match milli_value(value) {
            Some(v) => Ok(Config { unsafe_density_warn_milli: v, ..cfg }),
            None => Err((n, ConfigErrorKind::BadValue)),
        }
    } else if key == "module_size_loc"@ || key == "pub_surface_warn"@ || key
        == "complexity_warn"@ || key == "coupling_warn"@ || key == "churn_warn"@ {
        match count_value(value) {
            Some(v) => Ok(
                if key == "module_size_loc"@ {
                    Config { module_size_loc: v, ..cfg }
                } else if key == "pub_surface_warn"@ {
                    Config { pub_surface_warn: v, ..cfg }
                } else if key == "complexity_warn"@ {
                    Config { complexity_warn: v, ..cfg }
                } else if key == "coupling_warn"@ {
                    Config { coupling_warn: v, ..cfg }
                } else {
                    Config { churn_warn: v, ..cfg }
                },
            ),
            None => Err((n, ConfigErrorKind::BadValue)),
        }
    } else {
        Ok(cfg)
    }
}

/// The effect of line `n` on `cfg`.
pub open spec fn apply_line(line: Seq<char>, cfg: Config, n: nat) -> Result<
    Config,
    (nat, ConfigErrorKind),
> {
    let code = code_of(line);
    let eq = first_index(code, '=') as int;
    if code.len() == 0 {
        Ok(cfg)
    } else if eq >= code.len() || trim(code.take(eq)).len() == 0 {
        Err((n, ConfigErrorKind::NotKeyValue))
    } else {
        set_key(cfg, trim(code.take(eq)), trim(code.skip(eq + 1)), n)
    }
}

/// The lines of `t`, the first numbered `n`, applied in turn to `cfg`; the
/// first bad line stops the reading.
pub open spec fn apply_lines(t: Seq<char>, cfg: Config, n: nat) -> Result<
    Config,
    (nat, ConfigErrorKind),
>
    decreases t.len(),
{
    if t.len() == 0 {
        Ok(cfg)
    } else {
        let i = first_index(t, '\n') as int;
        match apply_line(t.take(i), cfg, n) {
            Ok(next) => if i < t.len() {
                apply_lines(t.skip(i + 1), next, n + 1)
            } else {
                Ok(next)
            },
            Err(e) => Err(e),
        }
    }
}

/// The thresholds that the text of `rpi.toml` sets, over the defaults.
pub open spec fn config_spec(text: Seq<char>) -> Result<Config, (nat, ConfigErrorKind)> {
    apply_lines(text, default_config(), 1)
}

/// The key that a `key = value` line names.
pub open spec fn line_key(line: Seq<char>) -> Option<Seq<char>> {
    let code = code_of(line);
    let eq = first_index(code, '=') as int;
    if code.len() > 0 && eq < code.len() {
        Some(trim(code.take(eq)))
    } else {
        None
    }
}

/// Whether some line of `t` names `key`.
pub open spec fn names_key(t: Seq<char>, key: Seq<char>) -> bool
    decreases t.len(),
{
    if t.len() == 0 {
        false
    } else {
        let i = first_index(t, '\n') as int;
        line_key(t.take(i)) == Some(key) || (i < t.len() && names_key(t.skip(i + 1), key))
    }
}

/// Every threshold whose key `t` does not name is the same in `after` as in
/// `before`.
pub open spec fn unnamed_kept(t: Seq<char>, before: Config, after: Config) -> bool {
    &&& !names_key(t, "module_size_loc"@) ==> after.module_size_loc == before.module_size_loc
    &&& !names_key(t, "pub_surface_warn"@) ==> after.pub_surface_warn == before.pub_surface_warn
    &&& !names_key(t, "unsafe_density_warn"@) ==> after.unsafe_density_warn_milli
        == before.unsafe_density_warn_milli
    &&& !names_key(t, "complexity_warn"@) ==> after.complexity_warn == before.complexity_warn
    &&& !names_key(t, "coupling_warn"@) ==> after.coupling_warn == before.coupling_warn
    &&& !names_key(t, "churn_warn"@) ==> after.churn_warn == before.churn_warn
}

proof fn lemma_apply_lines_keeps_unnamed(t: Seq<char>, cfg: Config, n: nat)
    ensures
        match apply_lines(t, cfg, n) {
            Ok(c) => unnamed_kept(t, cfg, c),
            Err(_) => true,
        },
    decreases t.len(),
{
    if t.len() > 0 {
        let i = first_index(t, '\n') as int;
        lemma_first_index_bound(t, '\n');
        if let Ok(next) = apply_line(t.take(i), cfg, n) {
            if i < t.len() {
                lemma_apply_lines_keeps_unnamed(t.skip(i + 1), next, n + 1);
            }
        }
    }
}

/// Law: `rpi.toml` overrides only the thresholds it names; every threshold
/// that no line names keeps its default.
pub proof fn lemma_unnamed_thresholds_keep_defaults(text: Seq<char>)
    ensures
        match config_spec(text) {
            Ok(c) => unnamed_kept(text, default_config(), c),
            Err(_) => true,
        },
{
    lemma_apply_lines_keeps_unnamed(text, default_config(), 1);
}

proof fn lemma_first_index_bound(s: Seq<char>, c: char)
    ensures
        first_index(s, c) <= s.len(),
        first_index(s, c) < s.len() ==> s[first_index(s, c) as int] == c,
        forall|j: int| 0 <= j < first_index(s, c) ==> s[j] != c,
    decreases s.len(),
{
    if s.len() > 0 && s[0] != c {
        lemma_first_index_bound(s.drop_first(), c);
        assert forall|j: int| 0 <= j < first_index(s, c) implies s[j] != c by {
            if j > 0 {
                assert(s[j] == s.drop_first()[j - 1]);
            }
        }
    }
}

/// The index of the first `c` in `text[lo..hi]`, or `hi`.
fn find_char(text: &str, lo: usize, hi: usize, c: char) -> (r: usize)
    requires
        lo <= hi <= text@.len(),
    ensures
        lo <= r <= hi,
        r - lo == first_index(text@.subrange(lo as int, hi as int), c),
{
    let mut j = lo;
    while j < hi
        invariant
            lo <= j <= hi <= text@.len(),
            first_index(text@.subrange(lo as int, hi as int), c) == (j - lo) + first_index(
                text@.subrange(j as int, hi as int),
                c,
            ),
        decreases hi - j,
    {
        if text.get_char(j) == c {
            return j;
        }
        assert(text@.subrange(j as int, hi as int).drop_first() =~= text@.subrange(
            j + 1,
            hi as int,
        ));
        j = j + 1;
    }
    j
}

/// The bounds of `trim(text[lo..hi])`.
fn trim_range(text: &str, lo: usize, hi: usize) -> (r: (usize, usize))
    requires
        lo <= hi <= text@.len(),
    ensures
        lo <= r.0 <= r.1 <= hi,
        text@.subrange(r.0 as int, r.1 as int) == trim(text@.subrange(lo as int, hi as int)),
{
    let mut a = lo;
    while a < hi && is_blank_char(text.get_char(a))
        invariant
            lo <= a <= hi <= text@.len(),
            trim_start(text@.subrange(lo as int, hi as int)) == trim_start(
                text@.subrange(a as int, hi as int),
            ),
        decreases hi - a,
    {
        assert(text@.subrange(a as int, hi as int).drop_first() =~= text@.subrange(
            a + 1,
            hi as int,
        ));
        a = a + 1;
    }
    assert(trim_start(text@.subrange(a as int, hi as int)) == text@.subrange(a as int, hi as int));
    let mut b = hi;
    while b > a && is_blank_char(text.get_char(b - 1))
        invariant
            lo <= a <= b <= hi <= text@.len(),
            trim(text@.subrange(lo as int, hi as int)) == trim_end(
                text@.subrange(a as int, b as int),
            ),
        decreases b - a,
    {
        assert(text@.subrange(a as int, b as int).drop_last() =~= text@.subrange(
            a as int,
            b - 1,
        ));
        b = b - 1;
    }
    (a, b)
}

fn is_blank_char(c: char) -> (r: bool)
    ensures
        r == is_blank(c),
{
    c == ' ' || c == '\t' || c == '\r'
}

fn digit_of(c: char) -> (r: Option<u64>)
    ensures
        r is Some <==> digit_value(c) is Some,
        r is Some ==> r->0 == digit_value(c)->0,
{
    match c {
        '0' => Some(0),
        '1' => Some(1),
        '2' => Some(2),
        '3' => Some(3),
        '4' => Some(4),
        '5' => Some(5),
        '6' => Some(6),
        '7' => Some(7),
        '8' => Some(8),
        '9' => Some(9),
        _ => None,
    }
}

/// A prefix of a run of digits is worth no more than the whole run.
proof fn lemma_number_prefix(s: Seq<char>, k: int)
    requires
        0 <= k <= s.len(),
    ensures
        number_value(s.take(k)) <= number_value(s),
    decreases s.len(),
{
    if k < s.len() {
        lemma_number_prefix(s.drop_last(), k);
        assert(s.drop_last().take(k) =~= s.take(k));
    } else {
        assert(s.take(k) =~= s);
    }
}

/// The value of the digits `text[a..b]`, if they are a number that fits.
fn parse_number(text: &str, a: usize, b: usize) -> (r: Option<u64>)
    requires
        a <= b <= text@.len(),
    ensures
        r == (if is_number(text@.subrange(a as int, b as int)) && number_value(
            text@.subrange(a as int, b as int),
        ) <= u64::MAX {
            Some(number_value(text@.subrange(a as int, b as int)) as u64)
        } else {
            None::<u64>
        }),
{
    let ghost s = text@.subrange(a as int, b as int);
    if a == b {
        return None;
    }
    let mut acc: u64 = 0;
    let mut k = a;
    while k < b
        invariant
            a <= k <= b <= text@.len(),
            s == text@.subrange(a as int, b as int),
            acc == number_value(s.take(k - a)),
            forall|i: int| 0 <= i < k - a ==> (#[trigger] digit_value(s[i])) is Some,
        decreases b - k,
    {
        let c = text.get_char(k);
        assert(c == s[k - a]);
        let d = match digit_of(c) {
            Some(d) => d,
            None => {
                return None;
            },
        };
        assert(s.take(k - a + 1).drop_last() =~= s.take(k - a));
        let next = match acc.checked_mul(10) {
            Some(m) => m.checked_add(d),
            None => None,
        };
        match next {
            Some(v) => {
                acc = v;
            },
            None => {
                proof {
                    if is_number(s) {
                        lemma_number_prefix(s, k - a + 1);
                    }
                }
                return None;
            },
        }
        k = k + 1;
    }
    assert(s.take(b - a) =~= s);
    Some(acc)
}

/// A whole-number threshold written in `text[a..b]`.
fn parse_count(text: &str, a: usize, b: usize) -> (r: Option<usize>)
    requires
        a <= b <= text@.len(),
    ensures
        r == count_value(text@.subrange(a as int, b as int)),
{
    match parse_number(text, a, b) {
        Some(v) => if v <= usize::MAX as u64 {
            Some(v as usize)
        } else {
            None
        },
        None => None,
    }
}

/// A threshold in thousandths written in `text[a..b]`.
fn parse_milli(text: &str, a: usize, b: usize) -> (r: Option<u64>)
    requires
        a <= b <= text@.len(),
    ensures
        r == milli_value(text@.subrange(a as int, b as int)),
{
    let ghost s = text@.subrange(a as int, b as int);
    let d = find_char(text, a, b, '.');
    proof {
        lemma_first_index_bound(s, '.');
    }
    assert(s.take(d - a) =~= text@.subrange(a as int, d as int));
    let whole = parse_number(text, a, d);
    if d >= b {
        match whole {
            Some(w) => w.checked_mul(1000),
            None => None,
        }
    } else {
        assert(s.skip(d - a + 1) =~= text@.subrange(d + 1, b as int));
        let frac = parse_number(text, d + 1, b);
        let flen = b - d - 1;
        if flen > 3 {
            return None;
        }
        match (whole, frac) {
            (Some(w), Some(f)) => {
                let scale: u64 = if flen == 1 {
                    100
                } else if flen == 2 {
                    10
                } else {
                    1
                };
                assert(f < 1000) by {
                    let fs = text@.subrange(d + 1, b as int);
                    lemma_number_below(fs);
                }
                match w.checked_mul(1000) {
                    Some(m) => m.checked_add(f * scale),
                    None => None,
                }
            },
            _ => None,
        }
    }
}

/// A run of `n` digits is worth less than `10^n` (for up to three digits).
proof fn lemma_number_below(s: Seq<char>)
    requires
        s.len() <= 3,
        forall|i: int| 0 <= i < s.len() ==> (#[trigger] digit_value(s[i])) is Some,
    ensures
        number_value(s) < (if s.len() == 0 {
            1int
        } else if s.len() == 1 {
            10int
        } else if s.len() == 2 {
            100int
        } else {
            1000int
        }),
    decreases s.len(),
{
    if s.len() > 0 {
        assert(digit_value(s[s.len() - 1]) is Some);
        assert forall|i: int| 0 <= i < s.drop_last().len() implies (#[trigger] digit_value(
            s.drop_last()[i],
        )) is Some by {
            assert(s.drop_last()[i] == s[i]);
        }
        lemma_number_below(s.drop_last());
    }
}

/// Whether `text[a..b]` is `lit`.
fn range_is(text: &str, a: usize, b: usize, lit: &str) -> (r: bool)
    requires
        a <= b <= text@.len(),
    ensures
        r == (text@.subrange(a as int, b as int) == lit@),
{
    let n = lit.unicode_len();
    if b - a != n {
        return false;
    }
    for i in 0..n
        invariant
            n == lit@.len(),
            b - a == n,
            a <= b <= text@.len(),
            forall|j: int| 0 <= j < i ==> text@[a + j] == lit@[j],
    {
        if text.get_char(a + i) != lit.get_char(i) {
            assert(text@.subrange(a as int, b as int)[i as int] != lit@[i as int]);
            return false;
        }
    }
    assert(text@.subrange(a as int, b as int) =~= lit@);
    true
}

/// `cfg` with the threshold `text[ka..kb]` set to the value `text[va..vb]`.
fn set_key_exec(
    text: &str,
    ka: usize,
    kb: usize,
    va: usize,
    vb: usize,
    cfg: Config,
    n: usize,
) -> (r: Result<Config, ConfigError>)
    requires
        ka <= kb <= text@.len(),
        va <= vb <= text@.len(),
    ensures
        match r {
            Ok(c) => set_key(
                cfg,
                text@.subrange(ka as int, kb as int),
                text@.subrange(va as int, vb as int),
                n as nat,
            ) == Ok::<Config, (nat, ConfigErrorKind)>(c),
            Err(e) => e.line == n && set_key(
                cfg,
                text@.subrange(ka as int, kb as int),
                text@.subrange(va as int, vb as int),
                n as nat,
            ) == Err::<Config, (nat, ConfigErrorKind)>((n as nat, e.kind)),
        },
{
    let bad = ConfigError { line: n, kind: ConfigErrorKind::BadValue };
    if range_is(text, ka, kb, "unsafe_density_warn") {
        return match parse_milli(text, va, vb) {
            Some(v) => Ok(Config { unsafe_density_warn_milli: v, ..cfg }),
            None => Err(bad),
        };
    }
    let module_size = range_is(text, ka, kb, "module_size_loc");
    let pub_surface = range_is(text, ka, kb, "pub_surface_warn");
    let complexity = range_is(text, ka, kb, "complexity_warn");
    let coupling = range_is(text, ka, kb, "coupling_warn");
    let churn = range_is(text, ka, kb, "churn_warn");
    if !(module_size || pub_surface || complexity || coupling || churn) {
        return Ok(cfg);
    }
    match parse_count(text, va, vb) {
        Some(v) => Ok(
            if module_size {
                Config { module_size_loc: v, ..cfg }
            } else if pub_surface {
                Config { pub_surface_warn: v, ..cfg }
            } else if complexity {
                Config { complexity_warn: v, ..cfg }
            } else if coupling {
                Config { coupling_warn: v, ..cfg }
            } else {
                Config { churn_warn: v, ..cfg }
            },
        ),
        None => Err(bad),
    }
}

/// The effect of line `n`, `text[lo..hi]`, on `cfg`.
fn apply_line_exec(text: &str, lo: usize, hi: usize, cfg: Config, n: usize) -> (r: Result<
    Config,
    ConfigError,
>)
    requires
        lo <= hi <= text@.len(),
    ensures
        match r {
            Ok(c) => apply_line(text@.subrange(lo as int, hi as int), cfg, n as nat) == Ok::<
                Config,
                (nat, ConfigErrorKind),
            >(c),
            Err(e) => e.line == n && apply_line(text@.subrange(lo as int, hi as int), cfg, n as nat)
                == Err::<Config, (nat, ConfigErrorKind)>((n as nat, e.kind)),
        },
{
    let ghost line = text@.subrange(lo as int, hi as int);
    let h = find_char(text, lo, hi, '#');
    proof {
        lemma_first_index_bound(line, '#');
    }
    assert(line.take(h - lo) =~= text@.subrange(lo as int, h as int));
    let (ca, cb) = trim_range(text, lo, h);
    let ghost code = text@.subrange(ca as int, cb as int);
    assert(code == code_of(line));
    if ca == cb {
        return Ok(cfg);
    }
    let eq = find_char(text, ca, cb, '=');
    proof {
        lemma_first_index_bound(code, '=');
    }
    if eq >= cb {
        return Err(ConfigError { line: n, kind: ConfigErrorKind::NotKeyValue });
    }
    assert(code.take(eq - ca) =~= text@.subrange(ca as int, eq as int));
    assert(code.skip(eq - ca + 1) =~= text@.subrange(eq + 1, cb as int));
    let (ka, kb) = trim_range(text, ca, eq);
    if ka == kb {
        return Err(ConfigError { line: n, kind: ConfigErrorKind::NotKeyValue });
    }
    let (va, vb) = trim_range(text, eq + 1, cb);
    set_key_exec(text, ka, kb, va, vb, cfg, n)
}

/// The thresholds that the text of `rpi.toml` sets over the defaults, or the
/// first line that cannot be read.
pub fn parse_config(text: &str) -> (r: Result<Config, ConfigError>)
    ensures
        match r {
            Ok(c) => config_spec(text@) == Ok::<Config, (nat, ConfigErrorKind)>(c),
            Err(e) => config_spec(text@) == Err::<Config, (nat, ConfigErrorKind)>(
                (e.line as nat, e.kind),
            ),
        },
{
    let n = text.unicode_len();
    let mut cfg = Config::default();
    let mut pos: usize = 0;
    let mut done: usize = 0;
    assert(text@.subrange(0, n as int) =~= text@);
    while pos < n
        invariant
            n == text@.len(),
            pos <= n,
            done <= pos,
            config_spec(text@) == apply_lines(
                text@.subrange(pos as int, n as int),
                cfg,
                (done + 1) as nat,
            ),
        decreases n - pos,
    {
        let ghost rest = text@.subrange(pos as int, n as int);
        let nl = find_char(text, pos, n, '\n');
        proof {
            lemma_first_index_bound(rest, '\n');
        }
        assert(rest.take(nl - pos) =~= text@.subrange(pos as int, nl as int));
        match apply_line_exec(text, pos, nl, cfg, done + 1) {
            Ok(c) => {
                cfg = c;
            },
            Err(e) => {
                return Err(e);
            },
        }
        if nl < n {
            assert(rest.skip(nl - pos + 1) =~= text@.subrange(nl + 1, n as int));
            pos = nl + 1;
            done = done + 1;
        } else {
            assert(text@.subrange(n as int, n as int).len() == 0);
            pos = n;
        }
    }
    assert(text@.subrange(pos as int, n as int).len() == 0);
    Ok(cfg)
}

} // verus!
