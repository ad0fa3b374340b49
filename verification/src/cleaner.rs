//! Data cleaning: raw strings are turned into validated domain values.
//!
//! Every parser is total: malformed input yields absence (`None`), never an
//! error.  Numeric values are parsed into exact [`Decimal`]s; values whose
//! mantissa does not fit the 18-digit capacity of an `i64` are treated as
//! unparsable.

use vstd::prelude::*;

use crate::models::BarModel;
use crate::models::Decimal;
use crate::models::FxModel;
use crate::models::RawCsvRow;
use crate::models::RawCsvRowModel;
use crate::models::RawFxCsvRow;
use crate::models::RawFxCsvRowModel;
use crate::models::RawEquityRow;
use crate::models::RawEquityRowModel;
use crate::models::RawHistoricalRow;
use crate::models::RawHistoricalRowModel;
use crate::models::Ticker;
use crate::models::TickerModel;
use crate::models::RawTickerRow;
use crate::models::RawTickerRowModel;
use crate::models::DailyBar;
use crate::models::FxRate;
use crate::dates::spec_parse_date;
use crate::text::all_digits;
use crate::text::digits_val;
use crate::text::is_digit;
use crate::text::is_digit_char;
use crate::text::lemma_digits_val_nonneg;
use crate::text::parse_digits;
use crate::text::to_chars;
use crate::text::trim_chars;
use crate::text::trim_seq;
use crate::text::trim_front;
use crate::text::trim_back;
use crate::text::is_space_char;
use crate::text::to_upper_char;
use crate::text::upper_chars;
use crate::text::upper_seq;

verus! {

/// Characters kept by the price parser: digits, decimal point, minus sign.
pub open spec fn is_price_char(c: char) -> bool {
    is_digit_char(c) || c == '.' || c == '-'
}

/// Position `i` splits `s` into integer digits, one dot, fraction digits.
pub open spec fn dot_split_ok(s: Seq<char>, i: int) -> bool {
    &&& 0 <= i < s.len()
    &&& s.len() >= 2
    &&& s[i] == '.'
    &&& all_digits(s.take(i))
    &&& all_digits(s.skip(i + 1))
}

/// Parse an unsigned decimal-digit string with at most one decimal point
/// into (numerator, number of fraction digits); the value is
/// numerator / 10^scale.  At least one digit must be present.
pub open spec fn spec_parse_unsigned_decimal(s: Seq<char>) -> Option<(int, nat)> {
    if all_digits(s) && s.len() >= 1 {
        Some((digits_val(s), 0 as nat))
    } else if exists|i: int| dot_split_ok(s, i) {
        let i = choose|i: int| dot_split_ok(s, i);
        Some(
            (
                digits_val(s.take(i) + s.skip(i + 1)),
                (s.len() - i - 1) as nat,
            ),
        )
    } else {
        None
    }
}

/// Parse a decimal-digit string with an optional leading sign.
pub open spec fn spec_parse_decimal(s: Seq<char>) -> Option<(int, nat)> {
    if s.len() >= 1 && (s[0] == '-' || s[0] == '+') {
        match spec_parse_unsigned_decimal(s.drop_first()) {
            Some((m, sc)) => Some(((if s[0] == '-' { -m } else { m as int }), sc)),
            None => None,
        }
    } else {
        spec_parse_unsigned_decimal(s)
    }
}

/// The mantissa and scale fit the exec representation.  The mantissa is
/// bounded symmetrically, so a mantissa of exactly `i64::MIN` counts as
/// out of range.
pub open spec fn dec_fits(m: int, sc: nat) -> bool {
    -(i64::MAX as int) <= m <= i64::MAX as int && sc <= u32::MAX as nat
}

/// Fit an unbounded parse result into a [`Decimal`], absence if out of range.
pub open spec fn fit_dec(o: Option<(int, nat)>) -> Option<Decimal> {
    match o {
        Some((m, sc)) => if dec_fits(m, sc) {
            Some(Decimal { mantissa: m as i64, scale: sc as u32 })
        } else {
            None
        },
        None => None,
    }
}

proof fn lemma_all_digits_concat(a: Seq<char>, b: Seq<char>)
    ensures
        all_digits(a + b) <==> (all_digits(a) && all_digits(b)),
{
    if all_digits(a + b) {
        assert forall|i: int| 0 <= i < a.len() implies is_digit_char(#[trigger] a[i]) by {
            assert((a + b)[i] == a[i]);
        }
        assert forall|i: int| 0 <= i < b.len() implies is_digit_char(#[trigger] b[i]) by {
            assert((a + b)[a.len() + i] == b[i]);
        }
    }
    if all_digits(a) && all_digits(b) {
        assert forall|i: int| 0 <= i < (a + b).len() implies is_digit_char(#[trigger] (a + b)[i]) by {
            if i < a.len() {
                assert((a + b)[i] == a[i]);
            } else {
                assert((a + b)[i] == b[i - a.len()]);
            }
        }
    }
}

/// The dot position in a well-formed split is unique.
proof fn lemma_dot_split_unique(s: Seq<char>, i: int, j: int)
    requires
        dot_split_ok(s, i),
        dot_split_ok(s, j),
    ensures
        i == j,
{
    if i < j {
        assert(s.skip(i + 1)[j - i - 1] == s[j]);
        assert(is_digit_char(s[j]));
        assert(!is_digit_char('.')) by {
            assert('.' as u32 == 46);
        }
    } else if j < i {
        assert(s.skip(j + 1)[i - j - 1] == s[i]);
        assert(is_digit_char(s[i]));
        assert(!is_digit_char('.')) by {
            assert('.' as u32 == 46);
        }
    }
}

/// Parse the body (sign already removed) of a decimal string.
fn parse_unsigned_decimal_chars(body: &Vec<char>) -> (r: Option<Decimal>)
    ensures
        r == fit_dec(spec_parse_unsigned_decimal(body@)),
{
    let n = body.len();
    let mut digits: Vec<char> = Vec::new();
    let mut dot: Option<usize> = None;
    let mut j: usize = 0;
    while j < n
        invariant
            n == body@.len(),
            j <= n,
            match dot {
                None => digits@ == body@.take(j as int) && (forall|q: int|
                    0 <= q < j ==> body@[q] != '.'),
                Some(p) => {
                    &&& p < j
                    &&& body@[p as int] == '.'
                    &&& digits@ == body@.take(p as int) + body@.subrange(p + 1, j as int)
                    &&& (forall|q: int| 0 <= q < j && q != p ==> body@[q] != '.')
                },
            },
        decreases n - j,
    {
        let c = body[j];
        if c == '.' {
            if dot.is_some() {
                proof {
                    let p = dot->0;
                    assert forall|i: int| !dot_split_ok(body@, i) by {
                        if dot_split_ok(body@, i) {
                            if i != p {
                                assert(body@[p as int] == '.');
                                if i < p {
                                    assert(body@.skip(i + 1)[p - i - 1] == body@[p as int]);
                                } else {
                                    assert(body@.take(i)[p as int] == body@[p as int]);
                                }
                                assert('.' as u32 == 46);
                            } else {
                                assert(body@[j as int] == '.');
                                assert(j > i);
                                assert(body@.skip(i + 1)[j - i - 1] == body@[j as int]);
                                assert('.' as u32 == 46);
                            }
                        }
                    }
                    assert(!all_digits(body@)) by {
                        assert(body@[p as int] == '.');
                        assert('.' as u32 == 46);
                    }
                }
                return None;
            }
            dot = Some(j);
            proof {
                assert(digits@ =~= body@.take(j as int) + body@.subrange(j + 1, j + 1));
            }
        } else {
            digits.push(c);
            proof {
                match dot {
                    None => {
                        assert(digits@ =~= body@.take(j + 1));
                    },
                    Some(p) => {
                        assert(digits@ =~= body@.take(p as int) + body@.subrange(
                            p + 1,
                            j + 1,
                        ));
                    },
                }
            }
        }
        j = j + 1;
    }
    proof {
        match dot {
            None => {
                assert(digits@ =~= body@);
            },
            Some(p) => {
                assert(digits@ =~= body@.take(p as int) + body@.skip(p + 1));
            },
        }
    }
    if digits.len() == 0 {
        proof {
            match dot {
                None => {
                    assert(body@.len() == 0);
                },
                Some(p) => {
                    assert(body@.len() == 1);
                    assert forall|i: int| !dot_split_ok(body@, i) by {}
                    assert(!all_digits(body@)) by {
                        assert(body@[p as int] == '.');
                        assert('.' as u32 == 46);
                    }
                },
            }
        }
        return None;
    }
    let parsed = parse_digits(&digits);
    match dot {
        None => {
            proof {
                if !all_digits(body@) {
                    assert forall|i: int| !dot_split_ok(body@, i) by {
                        if dot_split_ok(body@, i) {
                            assert(body@[i] == '.');
                        }
                    }
                }
            }
            match parsed {
                Some(v) => Some(Decimal { mantissa: v, scale: 0 }),
                None => None,
            }
        },
        Some(p) => {
            proof {
                let whole = body@.take(p as int) + body@.skip(p + 1);
                lemma_all_digits_concat(body@.take(p as int), body@.skip(p + 1));
                assert(!all_digits(body@)) by {
                    assert(body@[p as int] == '.');
                    assert('.' as u32 == 46);
                }
                if all_digits(digits@) {
                    assert(dot_split_ok(body@, p as int));
                    let i0 = choose|i: int| dot_split_ok(body@, i);
                    lemma_dot_split_unique(body@, i0, p as int);
                } else {
                    assert forall|i: int| !dot_split_ok(body@, i) by {
                        if dot_split_ok(body@, i) {
                            lemma_dot_split_unique_helper(body@, i, p as int);
                        }
                    }
                }
            }
            match parsed {
                Some(v) => {
                    let frac = body.len() - p - 1;
                    if frac > u32::MAX as usize {
                        return None;
                    }
                    Some(Decimal { mantissa: v, scale: frac as u32 })
                },
                None => None,
            }
        },
    }
}

/// If a split exists and position `p` holds the only dot, the split is at `p`
/// and the digits around it are all digits.
proof fn lemma_dot_split_unique_helper(s: Seq<char>, i: int, p: int)
    requires
        dot_split_ok(s, i),
        0 <= p < s.len(),
        s[p] == '.',
        forall|q: int| 0 <= q < s.len() && q != p ==> s[q] != '.',
    ensures
        i == p,
        all_digits(s.take(p) + s.skip(p + 1)),
{
    if i != p {
        if p < i {
            assert(s.take(i)[p] == s[p]);
            assert('.' as u32 == 46);
        } else {
            assert(s.skip(i + 1)[p - i - 1] == s[p]);
            assert('.' as u32 == 46);
        }
    }
    lemma_all_digits_concat(s.take(p), s.skip(p + 1));
}

/// Parse a character sequence as a signed exact decimal.
pub fn parse_decimal_chars(v: &Vec<char>) -> (r: Option<Decimal>)
    ensures
        r == fit_dec(spec_parse_decimal(v@)),
{
    if v.len() >= 1 && (v[0] == '-' || v[0] == '+') {
        let neg = v[0] == '-';
        let mut body: Vec<char> = Vec::new();
        let mut i: usize = 1;
        while i < v.len()
            invariant
                1 <= i <= v@.len(),
                body@ == v@.subrange(1, i as int),
            decreases v@.len() - i,
        {
            body.push(v[i]);
            i = i + 1;
            proof {
                assert(body@ =~= v@.subrange(1, i as int));
            }
        }
        proof {
            assert(body@ =~= v@.drop_first());
        }
        match parse_unsigned_decimal_chars(&body) {
            Some(d) => {
                proof {
                    match spec_parse_unsigned_decimal(body@) {
                        Some((m, sc)) => {
                            if m >= 0 {
                            }
                        },
                        None => {},
                    }
                }
                if neg {
                    Some(Decimal { mantissa: -d.mantissa, scale: d.scale })
                } else {
                    Some(d)
                }
            },
            None => None,
        }
    } else {
        parse_unsigned_decimal_chars(v)
    }
}

// ── Character filters ───────────────────────────────────────────────────────
/// Which characters a cleaning step keeps.
#[derive(Clone, Copy)]
pub enum FilterKind {
    /// Digits, decimal point and minus sign (price cleaning).
    Price,
    /// Everything but '%' and ',' (percentage cleaning).
    Pct,
    /// Everything but ',' (thousands separators).
    NoComma,
    /// Digits only.
    DigitsOnly,
    /// Everything but '/' and ' ' (FX pair separators).
    Pair,
}

/// Whether a filter keeps a character.
pub open spec fn keep_char(k: FilterKind, c: char) -> bool {
    match k {
        FilterKind::Price => is_price_char(c),
        FilterKind::Pct => c != '%' && c != ',',
        FilterKind::NoComma => c != ',',
        FilterKind::DigitsOnly => is_digit_char(c),
        FilterKind::Pair => c != '/' && c != ' ',
    }
}

/// The subsequence of characters kept by a filter.
pub open spec fn applied_filter(k: FilterKind, s: Seq<char>) -> Seq<char> {
    s.filter(|c: char| keep_char(k, c))
}

/// Keep only the characters admitted by the filter.
pub fn filter_chars(v: &Vec<char>, k: FilterKind) -> (r: Vec<char>)
    ensures
        r@ == applied_filter(k, v@),
{
    let mut r: Vec<char> = Vec::new();
    let mut i: usize = 0;
    proof {
        reveal(Seq::filter);
        assert(v@.take(0).filter(|c: char| keep_char(k, c)) =~= Seq::<char>::empty());
    }
    while i < v.len()
        invariant
            i <= v@.len(),
            r@ == applied_filter(k, v@.take(i as int)),
        decreases v@.len() - i,
    {
        let c = v[i];
        let keep = match k {
            FilterKind::Price => is_digit(c) || c == '.' || c == '-',
            FilterKind::Pct => c != '%' && c != ',',
            FilterKind::NoComma => c != ',',
            FilterKind::DigitsOnly => is_digit(c),
            FilterKind::Pair => c != '/' && c != ' ',
        };
        proof {
            reveal(Seq::filter);
            assert(v@.take(i + 1).drop_last() =~= v@.take(i as int));
            assert(v@.take(i + 1).last() == v@[i as int]);
        }
        if keep {
            r.push(c);
        }
        i = i + 1;
    }
    proof {
        assert(v@.take(v@.len() as int) =~= v@);
    }
    r
}

// ── Sentinel comparisons ────────────────────────────────────────────────────
/// Equality with a one-character sequence.
fn chars_eq1(v: &Vec<char>, a: char) -> (r: bool)
    ensures
        r == (v@ == seq![a]),
{
    if v.len() == 1 && v[0] == a {
        proof {
            assert(v@ =~= seq![a]);
        }
        true
    } else {
        proof {
            if v@ == seq![a] {
                assert(v@.len() == 1);
                assert(v@[0] == a);
            }
        }
        false
    }
}

/// Equality with a three-character sequence.
fn chars_eq3(v: &Vec<char>, a: char, b: char, c: char) -> (r: bool)
    ensures
        r == (v@ == seq![a, b, c]),
{
    if v.len() == 3 && v[0] == a && v[1] == b && v[2] == c {
        proof {
            assert(v@ =~= seq![a, b, c]);
        }
        true
    } else {
        proof {
            if v@ == seq![a, b, c] {
                assert(v@.len() == 3);
                assert(v@[0] == a && v@[1] == b && v@[2] == c);
            }
        }
        false
    }
}

/// The trimmed input is one of the placeholders that mean "no value":
/// empty, "N/A", "-", or an em-dash.
pub open spec fn is_absent_marker(t: Seq<char>) -> bool {
    t.len() == 0 || t == seq!['N', '/', 'A'] || t == seq!['-'] || t == seq!['\u{2014}']
}

fn absent_marker(t: &Vec<char>) -> (r: bool)
    ensures
        r == is_absent_marker(t@),
{
    t.len() == 0 || chars_eq3(t, 'N', '/', 'A') || chars_eq1(t, '-') || chars_eq1(t, '\u{2014}')
}

// ── Price ───────────────────────────────────────────────────────────────────
/// What price parsing yields: absence for the placeholder strings, otherwise
/// the exact decimal read from the input with every character other than
/// digits, '.' and '-' removed.
pub open spec fn spec_parse_price(s: Seq<char>) -> Option<Decimal> {
    let t = trim_seq(s);
    if is_absent_marker(t) {
        None
    } else {
        fit_dec(spec_parse_decimal(applied_filter(FilterKind::Price, t)))
    }
}

/// Parse a price string.  Strips all characters except digits, the decimal
/// point and the minus sign; empty, "N/A", "-" and an em-dash mean absence.
pub fn parse_price(s: &str) -> (r: Option<Decimal>)
    ensures
        r == spec_parse_price(s@),
{
    let cs = to_chars(s);
    let t = trim_chars(&cs);
    if absent_marker(&t) {
        return None;
    }
    let f = filter_chars(&t, FilterKind::Price);
    parse_decimal_chars(&f)
}

// ── Percentage ──────────────────────────────────────────────────────────────
/// What percentage parsing yields: '%' and thousands separators are
/// stripped, placeholders mean absence, and the sign is retained.
pub open spec fn spec_parse_pct(s: Seq<char>) -> Option<Decimal> {
    let u = applied_filter(FilterKind::Pct, trim_seq(s));
    if u.len() == 0 || u == seq!['N', '/', 'A'] || u == seq!['-'] {
        None
    } else {
        fit_dec(spec_parse_decimal(u))
    }
}

/// Parse a percentage: "+2.09%" is 2.09, "-0.50%" is -0.50, "N/A" is absent.
pub fn parse_pct(s: &str) -> (r: Option<Decimal>)
    ensures
        r == spec_parse_pct(s@),
{
    let cs = to_chars(s);
    let t = trim_chars(&cs);
    let u = filter_chars(&t, FilterKind::Pct);
    if u.len() == 0 || chars_eq3(&u, 'N', '/', 'A') || chars_eq1(&u, '-') {
        return None;
    }
    parse_decimal_chars(&u)
}

// ── Normalisation ───────────────────────────────────────────────────────────
/// Symbols are stored trimmed and ASCII-uppercased.
pub open spec fn spec_normalise_symbol(s: Seq<char>) -> Seq<char> {
    upper_seq(trim_seq(s))
}

/// Trim and ASCII-uppercase an instrument symbol.
pub fn normalise_symbol(s: &str) -> (r: String)
    ensures
        r@ == spec_normalise_symbol(s@),
{
    let cs = to_chars(s);
    let t = trim_chars(&cs);
    let u = upper_chars(&t);
    crate::text::string_from_chars(&u)
}

/// FX pairs are stored trimmed, ASCII-uppercased, with '/' and ' '
/// separators removed.
pub open spec fn spec_normalise_pair(s: Seq<char>) -> Seq<char> {
    applied_filter(FilterKind::Pair, upper_seq(trim_seq(s)))
}

/// Normalise an FX pair: "USD/NGN", "usd ngn" and "USDNGN" all become "USDNGN".
pub fn normalise_pair(s: &str) -> (r: String)
    ensures
        r@ == spec_normalise_pair(s@),
{
    let cs = to_chars(s);
    let t = trim_chars(&cs);
    let u = upper_chars(&t);
    let f = filter_chars(&u, FilterKind::Pair);
    crate::text::string_from_chars(&f)
}

// ── Volume ──────────────────────────────────────────────────────────────────
/// Powers of ten.
pub open spec fn pow10(k: nat) -> int
    decreases k,
{
    if k == 0 {
        1
    } else {
        10 * pow10((k - 1) as nat)
    }
}

pub proof fn lemma_pow10_pos(k: nat)
    ensures
        pow10(k) >= 1,
    decreases k,
{
    if k > 0 {
        lemma_pow10_pos((k - 1) as nat);
    }
}

/// Powers of ten grow with the exponent.
pub proof fn lemma_pow10_mono(a: nat, b: nat)
    requires
        a <= b,
    ensures
        pow10(a) <= pow10(b),
    decreases b,
{
    if a < b {
        lemma_pow10_mono(a, (b - 1) as nat);
        lemma_pow10_pos((b - 1) as nat);
    }
}

pub proof fn lemma_pow10_38()
    ensures
        pow10(38) == 100000000000000000000000000000000000000int,
        pow10(39) == 1000000000000000000000000000000000000000int,
{
    reveal_with_fuel(pow10, 40);
}

/// Division truncated toward zero, for a positive divisor.
pub open spec fn trunc_div(a: int, b: int) -> int {
    if a >= 0 {
        a / b
    } else {
        -((-a) / b)
    }
}

/// The value of a decimal times an integer multiplier, truncated toward
/// zero: mantissa * mult / 10^scale.
pub open spec fn scaled_value(d: Decimal, mult: int) -> int {
    trunc_div(d.mantissa * mult, pow10(d.scale as nat))
}

/// The sequence with every trailing occurrence of `ch` removed.
pub open spec fn strip_trailing(s: Seq<char>, ch: char) -> Seq<char>
    decreases s.len(),
{
    if s.len() > 0 && s.last() == ch {
        strip_trailing(s.drop_last(), ch)
    } else {
        s
    }
}

proof fn lemma_strip_trailing_take(s: Seq<char>, ch: char, i: int)
    requires
        0 <= i <= s.len(),
        forall|j: int| i <= j < s.len() ==> s[j] == ch,
        i > 0 ==> s[i - 1] != ch,
    ensures
        strip_trailing(s, ch) == s.take(i),
    decreases s.len() - i,
{
    if i == s.len() {
        if s.len() > 0 && s.last() == ch {
            assert(false);
        }
        assert(s.take(i) =~= s);
    } else {
        assert(s.last() == ch);
        lemma_strip_trailing_take(s.drop_last(), ch, i);
        assert(s.drop_last().take(i) =~= s.take(i));
    }
}

/// Remove every trailing occurrence of `ch`.
pub fn strip_trailing_chars(v: &Vec<char>, ch: char) -> (r: Vec<char>)
    ensures
        r@ == strip_trailing(v@, ch),
{
    let n = v.len();
    let mut end: usize = n;
    while end > 0 && v[end - 1] == ch
        invariant
            end <= n,
            n == v@.len(),
            forall|j: int| end <= j < n ==> v@[j] == ch,
        decreases end,
    {
        end = end - 1;
    }
    proof {
        lemma_strip_trailing_take(v@, ch, end as int);
    }
    let mut r: Vec<char> = Vec::new();
    let mut i: usize = 0;
    while i < end
        invariant
            i <= end <= n,
            n == v@.len(),
            r@ == v@.take(i as int),
        decreases end - i,
    {
        r.push(v[i]);
        i = i + 1;
        proof {
            assert(r@ =~= v@.take(i as int));
        }
    }
    r
}

/// 10^k as an unsigned 128-bit value, for exponents up to 38.
fn pow10_u128(k: u32) -> (r: u128)
    requires
        k <= 38,
    ensures
        r == pow10(k as nat),
        r >= 1,
{
    let mut r: u128 = 1;
    let mut i: u32 = 0;
    while i < k
        invariant
            i <= k <= 38,
            r == pow10(i as nat),
            r >= 1,
        decreases k - i,
    {
        proof {
            lemma_pow10_mono((i + 1) as nat, 38);
            lemma_pow10_38();
        }
        r = r * 10;
        i = i + 1;
    }
    r
}

/// The normalised volume string: trimmed, ASCII-uppercased, commas removed.
pub open spec fn vol_norm(s: Seq<char>) -> Seq<char> {
    applied_filter(FilterKind::NoComma, upper_seq(trim_seq(s)))
}

/// What volume-shorthand parsing yields, as an unbounded integer.
/// A trailing B, M or K multiplies the preceding decimal by 1e9, 1e6 or 1e3,
/// truncated toward zero; with no suffix the digits alone are read.
pub open spec fn spec_parse_volume_shorthand(s: Seq<char>) -> Option<int> {
    let u = vol_norm(s);
    if is_absent_marker(u) {
        None
    } else if u.last() == 'B' || u.last() == 'M' || u.last() == 'K' {
        let mult: int = if u.last() == 'B' {
            1000000000
        } else if u.last() == 'M' {
            1000000
        } else {
            1000
        };
        match fit_dec(spec_parse_decimal(trim_seq(strip_trailing(u, u.last())))) {
            Some(d) => Some(scaled_value(d, mult)),
            None => None,
        }
    } else {
        let c = applied_filter(FilterKind::DigitsOnly, u);
        if c.len() >= 1 && digits_val(c) <= i64::MAX as int {
            Some(digits_val(c))
        } else {
            None
        }
    }
}

/// Parse a volume with an optional B/M/K multiplier suffix: "1.2M" is
/// 1200000, "12,345" is 12345, "N/A" and "-" are absent.  A result beyond
/// the range of `i64` is absent.
pub fn parse_volume_shorthand(s: &str) -> (r: Option<i64>)
    ensures
        match spec_parse_volume_shorthand(s@) {
            Some(v) => if -(i64::MAX as int) <= v <= i64::MAX as int {
                r == Some(v as i64)
            } else {
                r is None
            },
            None => r is None,
        },
{
    let cs = to_chars(s);
    let t = trim_chars(&cs);
    let up = upper_chars(&t);
    let u = filter_chars(&up, FilterKind::NoComma);
    if absent_marker(&u) {
        return None;
    }
    let last = u[u.len() - 1];
    if last == 'B' || last == 'M' || last == 'K' {
        let mult: i64 = if last == 'B' {
            1000000000
        } else if last == 'M' {
            1000000
        } else {
            1000
        };
        let stripped = strip_trailing_chars(&u, last);
        let num = trim_chars(&stripped);
        match parse_decimal_chars(&num) {
            Some(d) => scale_decimal(d, mult),
            None => None,
        }
    } else {
        let c = filter_chars(&u, FilterKind::DigitsOnly);
        proof {
            let pred = |c: char| keep_char(FilterKind::DigitsOnly, c);
            assert forall|i: int| 0 <= i < c@.len() implies is_digit_char(#[trigger] c@[i]) by {
                u@.lemma_filter_pred(pred, i);
            }
            if all_digits(c@) && c@.len() >= 1 {
                lemma_digits_val_nonneg(c@);
            }
        }
        parse_digits(&c)
    }
}

/// Multiply a parsed decimal by a positive multiplier and truncate toward
/// zero; absence if the result does not fit `i64`.
fn scale_decimal(d: Decimal, mult: i64) -> (r: Option<i64>)
    requires
        1 <= mult <= 1000000000,
        -(i64::MAX as int) <= d.mantissa as int <= i64::MAX as int,
    ensures
        ({
            let v = scaled_value(d, mult as int);
            match r {
                Some(x) => -(i64::MAX as int) <= v <= i64::MAX as int && x == v,
                None => !(-(i64::MAX as int) <= v <= i64::MAX as int),
            }
        }),
{
    let neg = d.mantissa < 0;
    let mag: u128 = if neg {
        (-d.mantissa) as u128
    } else {
        d.mantissa as u128
    };
    proof {
        assert(mag <= i64::MAX as u128);
        assert((mag as int) * (mult as int) <= (i64::MAX as int) * 1000000000) by (nonlinear_arith)
            requires
                mag <= i64::MAX as u128,
                1 <= mult <= 1000000000,
        ;
        assert((mag as int) * (mult as int) >= 0) by (nonlinear_arith)
            requires
                mag >= 0,
                mult >= 1,
        ;
    }
    let prod: u128 = mag * (mult as u128);
    let q: u128 = if d.scale > 38 {
        proof {
            lemma_pow10_mono(39, d.scale as nat);
            lemma_pow10_38();
            vstd::arithmetic::div_mod::lemma_basic_div(prod as int, pow10(d.scale as nat));
        }
        0
    } else {
        let p = pow10_u128(d.scale);
        proof {
            vstd::arithmetic::div_mod::lemma_div_pos_is_pos(prod as int, p as int);
            vstd::arithmetic::div_mod::lemma_div_is_ordered_by_denominator(
                prod as int,
                1,
                p as int,
            );
            assert(prod / p == trunc_div(prod as int, pow10(d.scale as nat)));
        }
        prod / p
    };
    proof {
        let v = scaled_value(d, mult as int);
        if neg {
            assert(d.mantissa * mult == -((mag * mult) as int)) by (nonlinear_arith)
                requires
                    d.mantissa < 0,
                    mag == -(d.mantissa as int),
                    mult >= 1,
            ;
            assert(v == -(q as int));
        } else {
            assert(d.mantissa * mult == (mag * mult) as int);
            assert(v == q as int);
        }
    }
    if q > i64::MAX as u128 {
        None
    } else {
        if neg {
            Some(-(q as i64))
        } else {
            Some(q as i64)
        }
    }
}

/// What plain volume parsing yields: the shorthand reading where it
/// succeeds, otherwise the digits of the raw string.
pub open spec fn spec_parse_volume(s: Seq<char>) -> Option<int> {
    let sh = spec_parse_volume_shorthand(s);
    if sh is Some && -(i64::MAX as int) <= sh->0 <= i64::MAX as int {
        sh
    } else {
        let t = trim_seq(s);
        if t.len() == 0 || t == seq!['N', '/', 'A'] || t == seq!['-'] {
            None
        } else {
            let c = applied_filter(FilterKind::DigitsOnly, t);
            if c.len() >= 1 && digits_val(c) <= i64::MAX as int {
                Some(digits_val(c))
            } else {
                None
            }
        }
    }
}

/// Parse an integer volume: shorthand first ("1.2M"), then plain digits
/// with separators stripped ("1,234,567").
pub fn parse_volume(s: &str) -> (r: Option<i64>)
    ensures
        match spec_parse_volume(s@) {
            Some(v) => r is Some && r->0 == v,
            None => r is None,
        },
{
    if let Some(v) = parse_volume_shorthand(s) {
        return Some(v);
    }
    let cs = to_chars(s);
    let t = trim_chars(&cs);
    if t.len() == 0 || chars_eq3(&t, 'N', '/', 'A') || chars_eq1(&t, '-') {
        return None;
    }
    let c = filter_chars(&t, FilterKind::DigitsOnly);
    proof {
        let pred = |c: char| keep_char(FilterKind::DigitsOnly, c);
        assert forall|i: int| 0 <= i < c@.len() implies is_digit_char(#[trigger] c@[i]) by {
            t@.lemma_filter_pred(pred, i);
        }
        if all_digits(c@) && c@.len() >= 1 {
            lemma_digits_val_nonneg(c@);
        }
    }
    parse_digits(&c)
}

// ── Row converters ──────────────────────────────────────────────────────────
/// Price parse of an optional raw field.
pub open spec fn opt_parse_price(o: Option<Seq<char>>) -> Option<Decimal> {
    match o {
        Some(s) => spec_parse_price(s),
        None => None,
    }
}

/// Percentage parse of an optional raw field.
pub open spec fn opt_parse_pct(o: Option<Seq<char>>) -> Option<Decimal> {
    match o {
        Some(s) => spec_parse_pct(s),
        None => None,
    }
}

/// Volume-shorthand parse of an optional raw field, fitted to `i64`.
pub open spec fn opt_parse_volume_shorthand(o: Option<Seq<char>>) -> Option<i64> {
    match o {
        Some(s) => match spec_parse_volume_shorthand(s) {
            Some(v) => if -(i64::MAX as int) <= v <= i64::MAX as int {
                Some(v as i64)
            } else {
                None
            },
            None => None,
        },
        None => None,
    }
}

/// Plain volume parse of an optional raw field.
pub open spec fn opt_parse_volume(o: Option<Seq<char>>) -> Option<i64> {
    match o {
        Some(s) => match spec_parse_volume(s) {
            Some(v) => Some(v as i64),
            None => None,
        },
        None => None,
    }
}

fn parse_price_opt(o: &Option<String>) -> (r: Option<Decimal>)
    ensures
        r == opt_parse_price(crate::models::opt_str_view(*o)),
{
    match o {
        Some(s) => parse_price(s.as_str()),
        None => None,
    }
}

fn parse_pct_opt(o: &Option<String>) -> (r: Option<Decimal>)
    ensures
        r == opt_parse_pct(crate::models::opt_str_view(*o)),
{
    match o {
        Some(s) => parse_pct(s.as_str()),
        None => None,
    }
}

fn parse_volume_shorthand_opt(o: &Option<String>) -> (r: Option<i64>)
    ensures
        r == opt_parse_volume_shorthand(crate::models::opt_str_view(*o)),
{
    match o {
        Some(s) => parse_volume_shorthand(s.as_str()),
        None => None,
    }
}

fn parse_volume_opt(o: &Option<String>) -> (r: Option<i64>)
    ensures
        r == opt_parse_volume(crate::models::opt_str_view(*o)),
{
    match o {
        Some(s) => parse_volume(s.as_str()),
        None => None,
    }
}

/// What converting an equity CSV row yields: a bar exactly when the row has
/// a parsable date and a strictly positive parsable close.
pub open spec fn spec_csv_row_to_bar(
    symbol: Seq<char>,
    row: RawCsvRowModel,
    now: i64,
) -> Option<BarModel> {
    match row.date {
        Some(ds) => match spec_parse_date(ds) {
            Some(date) => match row.price {
                Some(ps) => match spec_parse_price(ps) {
                    Some(close) => if close.mantissa <= 0 {
                        None
                    } else {
                        Some(
                            BarModel {
                                symbol: spec_normalise_symbol(symbol),
                                date,
                                open: opt_parse_price(row.open),
                                high: opt_parse_price(row.high),
                                low: opt_parse_price(row.low),
                                close,
                                change_pct: opt_parse_pct(row.change_pct),
                                volume: opt_parse_volume_shorthand(row.volume),
                                scraped_at: now,
                            },
                        )
                    },
                    None => None,
                },
                None => None,
            },
            None => None,
        },
        None => None,
    }
}

/// Convert an equity CSV row (Date, Price, Open, High, Low, Volume,
/// Change%) into a [`DailyBar`].  Rows without a parsable date or without a
/// strictly positive parsable close are discarded.
pub fn csv_row_to_bar(symbol: &str, row: &RawCsvRow, now: i64) -> (r: Option<DailyBar>)
    ensures
        match r {
            Some(b) => spec_csv_row_to_bar(symbol@, row@, now) == Some(b@),
            None => spec_csv_row_to_bar(symbol@, row@, now) is None,
        },
{
    let date = match &row.date {
        Some(ds) => match crate::dates::parse_date(ds.as_str()) {
            Some(d) => d,
            None => {
                return None;
            },
        },
        None => {
            return None;
        },
    };
    let close = match &row.price {
        Some(ps) => match parse_price(ps.as_str()) {
            Some(c) => c,
            None => {
                return None;
            },
        },
        None => {
            return None;
        },
    };
    if !close.is_positive() {
        return None;
    }
    Some(
        DailyBar {
            symbol: normalise_symbol(symbol),
            date,
            open: parse_price_opt(&row.open),
            high: parse_price_opt(&row.high),
            low: parse_price_opt(&row.low),
            close,
            change_pct: parse_pct_opt(&row.change_pct),
            volume: parse_volume_shorthand_opt(&row.volume),
            scraped_at: now,
        },
    )
}

/// What converting an FX CSV row yields: a rate exactly when the row has a
/// parsable date and a strictly positive parsable close.
pub open spec fn spec_fx_csv_row_to_rate(
    pair: Seq<char>,
    row: RawFxCsvRowModel,
    source: Option<Seq<char>>,
    now: i64,
) -> Option<FxModel> {
    match row.date {
        Some(ds) => match spec_parse_date(ds) {
            Some(date) => match row.price {
                Some(ps) => match spec_parse_price(ps) {
                    Some(close) => if close.mantissa <= 0 {
                        None
                    } else {
                        Some(
                            FxModel {
                                pair: spec_normalise_pair(pair),
                                date,
                                open: opt_parse_price(row.open),
                                high: opt_parse_price(row.high),
                                low: opt_parse_price(row.low),
                                close,
                                change_pct: opt_parse_pct(row.change_pct),
                                source,
                                scraped_at: now,
                            },
                        )
                    },
                    None => None,
                },
                None => None,
            },
            None => None,
        },
        None => None,
    }
}

/// Convert an FX CSV row (Date, Price, Open, High, Low, Change%) into an
/// [`FxRate`].  Rows without a parsable date or without a strictly positive
/// parsable rate are discarded.
pub fn fx_csv_row_to_rate(
    pair: &str,
    row: &RawFxCsvRow,
    source: Option<&str>,
    now: i64,
) -> (r: Option<FxRate>)
    ensures
        ({
            let src = match source {
                Some(s) => Some(s@),
                None => None,
            };
            match r {
                Some(b) => spec_fx_csv_row_to_rate(pair@, row@, src, now) == Some(b@),
                None => spec_fx_csv_row_to_rate(pair@, row@, src, now) is None,
            }
        }),
{
    let date = match &row.date {
        Some(ds) => match crate::dates::parse_date(ds.as_str()) {
            Some(d) => d,
            None => {
                return None;
            },
        },
        None => {
            return None;
        },
    };
    let close = match &row.price {
        Some(ps) => match parse_price(ps.as_str()) {
            Some(c) => c,
            None => {
                return None;
            },
        },
        None => {
            return None;
        },
    };
    if !close.is_positive() {
        return None;
    }
    let src: Option<String> = match source {
        Some(s) => Some(String::from_str(s)),
        None => None,
    };
    Some(
        FxRate {
            pair: normalise_pair(pair),
            date,
            open: parse_price_opt(&row.open),
            high: parse_price_opt(&row.high),
            low: parse_price_opt(&row.low),
            close,
            change_pct: parse_pct_opt(&row.change_pct),
            source: src,
            scraped_at: now,
        },
    )
}

/// Clone an optional string.
fn clone_opt_string(o: &Option<String>) -> (r: Option<String>)
    ensures
        crate::models::opt_str_view(r) == crate::models::opt_str_view(*o),
{
    match o {
        Some(s) => Some(s.clone()),
        None => None,
    }
}

/// What converting a listing row into a ticker yields: a ticker exactly
/// when the row has a symbol that is non-empty after normalisation.  The
/// row's sector doubles as the industry; listing rows carry no exchange.
pub open spec fn spec_raw_row_to_ticker(row: RawEquityRowModel, now: i64) -> Option<TickerModel> {
    match row.symbol {
        Some(s) => {
            let sym = spec_normalise_symbol(s);
            if sym.len() == 0 {
                None
            } else {
                Some(
                    TickerModel {
                        symbol: sym,
                        name: trim_seq(
                            match row.name {
                                Some(n) => n,
                                None => Seq::empty(),
                            },
                        ),
                        sector: row.sector,
                        industry: row.sector,
                        exchange: None,
                        scraped_at: now,
                    },
                )
            }
        },
        None => None,
    }
}

/// Convert a scraped listing row into a [`Ticker`].  Rows whose symbol is
/// missing or empty after normalisation are discarded.
pub fn raw_row_to_ticker(row: &RawEquityRow, now: i64) -> (r: Option<Ticker>)
    ensures
        match r {
            Some(t) => spec_raw_row_to_ticker(row@, now) == Some(t@),
            None => spec_raw_row_to_ticker(row@, now) is None,
        },
{
    let symbol = match &row.symbol {
        Some(s) => normalise_symbol(s.as_str()),
        None => {
            return None;
        },
    };
    if symbol.as_str().unicode_len() == 0 {
        return None;
    }
    let name = match &row.name {
        Some(n) => {
            let cs = to_chars(n.as_str());
            let t = trim_chars(&cs);
            crate::text::string_from_chars(&t)
        },
        None => {
            proof {
                assert(trim_seq(Seq::<char>::empty()) == Seq::<char>::empty());
            }
            String::new()
        },
    };
    Some(
        Ticker {
            symbol,
            name,
            sector: clone_opt_string(&row.sector),
            industry: clone_opt_string(&row.sector),
            exchange: None,
            scraped_at: now,
        },
    )
}

/// What converting a scraped history row yields: a bar exactly when the
/// row has a parsable date and a strictly positive parsable close.  History
/// rows carry no change percentage.
pub open spec fn spec_raw_historical_to_bar(
    symbol: Seq<char>,
    row: RawHistoricalRowModel,
    now: i64,
) -> Option<BarModel> {
    match row.date {
        Some(ds) => match spec_parse_date(ds) {
            Some(date) => match row.close {
                Some(ps) => match spec_parse_price(ps) {
                    Some(close) => if close.mantissa <= 0 {
                        None
                    } else {
                        Some(
                            BarModel {
                                symbol: spec_normalise_symbol(symbol),
                                date,
                                open: opt_parse_price(row.open),
                                high: opt_parse_price(row.high),
                                low: opt_parse_price(row.low),
                                close,
                                change_pct: None,
                                volume: opt_parse_volume(row.volume),
                                scraped_at: now,
                            },
                        )
                    },
                    None => None,
                },
                None => None,
            },
            None => None,
        },
        None => None,
    }
}

/// Convert a scraped price-history row into a [`DailyBar`].  Rows without
/// a parsable date or without a strictly positive parsable close are
/// discarded.
pub fn raw_historical_to_bar(symbol: &str, row: &RawHistoricalRow, now: i64) -> (r: Option<
    DailyBar,
>)
    ensures
        match r {
            Some(b) => spec_raw_historical_to_bar(symbol@, row@, now) == Some(b@),
            None => spec_raw_historical_to_bar(symbol@, row@, now) is None,
        },
{
    let date = match &row.date {
        Some(ds) => match crate::dates::parse_date(ds.as_str()) {
            Some(d) => d,
            None => {
                return None;
            },
        },
        None => {
            return None;
        },
    };
    let close = match &row.close {
        Some(ps) => match parse_price(ps.as_str()) {
            Some(c) => c,
            None => {
                return None;
            },
        },
        None => {
            return None;
        },
    };
    if !close.is_positive() {
        return None;
    }
    Some(
        DailyBar {
            symbol: normalise_symbol(symbol),
            date,
            open: parse_price_opt(&row.open),
            high: parse_price_opt(&row.high),
            low: parse_price_opt(&row.low),
            close,
            change_pct: None,
            volume: parse_volume_opt(&row.volume),
            scraped_at: now,
        },
    )
}

// ── Batch cleaning ──────────────────────────────────────────────────────────
/// Views of a sequence of history rows.
pub open spec fn hist_row_models(rows: Seq<RawHistoricalRow>) -> Seq<RawHistoricalRowModel> {
    rows.map_values(|r: RawHistoricalRow| r@)
}

/// Views of a sequence of listing rows.
pub open spec fn equity_row_models(rows: Seq<RawEquityRow>) -> Seq<RawEquityRowModel> {
    rows.map_values(|r: RawEquityRow| r@)
}

/// Views of a sequence of bars.
pub open spec fn bar_models(bars: Seq<DailyBar>) -> Seq<BarModel> {
    bars.map_values(|b: DailyBar| b@)
}

/// Views of a sequence of tickers.
pub open spec fn ticker_models(ts: Seq<Ticker>) -> Seq<TickerModel> {
    ts.map_values(|t: Ticker| t@)
}

/// The bars kept from a sequence of history rows: each row that converts,
/// in order.
pub open spec fn spec_clean_historical(
    symbol: Seq<char>,
    rows: Seq<RawHistoricalRowModel>,
    now: i64,
) -> Seq<BarModel>
    decreases rows.len(),
{
    if rows.len() == 0 {
        Seq::empty()
    } else {
        spec_clean_historical(symbol, rows.drop_last(), now) + (
        match spec_raw_historical_to_bar(symbol, rows.last(), now) {
            Some(b) => seq![b],
            None => Seq::empty(),
        })
    }
}

/// The tickers kept from a sequence of listing rows: each row that
/// converts, in order.
pub open spec fn spec_clean_tickers(rows: Seq<RawEquityRowModel>, now: i64) -> Seq<TickerModel>
    decreases rows.len(),
{
    if rows.len() == 0 {
        Seq::empty()
    } else {
        spec_clean_tickers(rows.drop_last(), now) + (
        match spec_raw_row_to_ticker(rows.last(), now) {
            Some(t) => seq![t],
            None => Seq::empty(),
        })
    }
}

/// Clean a batch of scraped history rows into bars, all stamped with the
/// current time; rows that do not convert are dropped.
pub fn clean_historical_rows(symbol: &str, rows: Vec<RawHistoricalRow>) -> (r: Vec<DailyBar>)
    ensures
        exists|t: i64|
            bar_models(r@) == #[trigger] spec_clean_historical(symbol@, hist_row_models(rows@), t),
{
    let now = crate::clock::now_millis();
    let mut out: Vec<DailyBar> = Vec::new();
    let mut i: usize = 0;
    proof {
        assert(hist_row_models(rows@.take(0)) =~= Seq::<RawHistoricalRowModel>::empty());
        assert(bar_models(out@) =~= spec_clean_historical(
            symbol@,
            hist_row_models(rows@.take(0)),
            now,
        ));
    }
    while i < rows.len()
        invariant
            i <= rows@.len(),
            bar_models(out@) == spec_clean_historical(symbol@, hist_row_models(rows@.take(i as int)), now),
        decreases rows@.len() - i,
    {
        let ghost pre = hist_row_models(rows@.take(i as int));
        let ghost post = hist_row_models(rows@.take(i + 1));
        proof {
            assert(post.drop_last() =~= pre);
            assert(post.last() == rows@[i as int]@);
        }
        match raw_historical_to_bar(symbol, &rows[i], now) {
            Some(b) => {
                out.push(b);
                proof {
                    assert(bar_models(out@) =~= bar_models(out@.drop_last()).push(
                        out@.last()@,
                    ));
                    assert(bar_models(out@) =~= spec_clean_historical(symbol@, post, now));
                }
            },
            None => {
                proof {
                    assert(spec_clean_historical(symbol@, post, now) =~= spec_clean_historical(
                        symbol@,
                        pre,
                        now,
                    ));
                }
            },
        }
        i = i + 1;
    }
    proof {
        assert(rows@.take(rows@.len() as int) =~= rows@);
    }
    out
}

/// Clean a batch of scraped listing rows into tickers, all stamped with the
/// current time; rows that do not convert are dropped.
pub fn clean_ticker_rows(rows: Vec<RawEquityRow>) -> (r: Vec<Ticker>)
    ensures
        exists|t: i64| ticker_models(r@) == #[trigger] spec_clean_tickers(equity_row_models(rows@), t),
{
    let now = crate::clock::now_millis();
    let mut out: Vec<Ticker> = Vec::new();
    let mut i: usize = 0;
    proof {
        assert(equity_row_models(rows@.take(0)) =~= Seq::<RawEquityRowModel>::empty());
        assert(ticker_models(out@) =~= spec_clean_tickers(equity_row_models(rows@.take(0)), now));
    }
    while i < rows.len()
        invariant
            i <= rows@.len(),
            ticker_models(out@) == spec_clean_tickers(equity_row_models(rows@.take(i as int)), now),
        decreases rows@.len() - i,
    {
        let ghost pre = equity_row_models(rows@.take(i as int));
        let ghost post = equity_row_models(rows@.take(i + 1));
        proof {
            assert(post.drop_last() =~= pre);
            assert(post.last() == rows@[i as int]@);
        }
        match raw_row_to_ticker(&rows[i], now) {
            Some(t) => {
                out.push(t);
                proof {
                    assert(ticker_models(out@) =~= ticker_models(out@.drop_last()).push(
                        out@.last()@,
                    ));
                    assert(ticker_models(out@) =~= spec_clean_tickers(post, now));
                }
            },
            None => {
                proof {
                    assert(spec_clean_tickers(post, now) =~= spec_clean_tickers(pre, now));
                }
            },
        }
        i = i + 1;
    }
    proof {
        assert(rows@.take(rows@.len() as int) =~= rows@);
    }
    out
}

/// What converting a metadata CSV row into a ticker yields: a ticker
/// exactly when the row has a symbol that is non-empty after
/// normalisation.
pub open spec fn spec_ticker_row_to_ticker(row: RawTickerRowModel, now: i64) -> Option<
    TickerModel,
> {
    match row.symbol {
        Some(s) => {
            let sym = spec_normalise_symbol(s);
            if sym.len() == 0 {
                None
            } else {
                Some(
                    TickerModel {
                        symbol: sym,
                        name: trim_seq(
                            match row.name {
                                Some(n) => n,
                                None => Seq::empty(),
                            },
                        ),
                        sector: row.sector,
                        industry: row.industry,
                        exchange: row.exchange,
                        scraped_at: now,
                    },
                )
            }
        },
        None => None,
    }
}

/// Convert a ticker metadata CSV row (symbol, name, sector, industry,
/// exchange) into a [`Ticker`].  Rows whose symbol is missing or empty
/// after normalisation are discarded.
pub fn ticker_row_to_ticker(row: &RawTickerRow, now: i64) -> (r: Option<Ticker>)
    ensures
        match r {
            Some(t) => spec_ticker_row_to_ticker(row@, now) == Some(t@),
            None => spec_ticker_row_to_ticker(row@, now) is None,
        },
{
    let symbol = match &row.symbol {
        Some(s) => normalise_symbol(s.as_str()),
        None => {
            return None;
        },
    };
    if symbol.as_str().unicode_len() == 0 {
        return None;
    }
    let name = match &row.name {
        Some(n) => {
            let cs = to_chars(n.as_str());
            let t = trim_chars(&cs);
            crate::text::string_from_chars(&t)
        },
        None => {
            proof {
                assert(trim_seq(Seq::<char>::empty()) == Seq::<char>::empty());
            }
            String::new()
        },
    };
    Some(
        Ticker {
            symbol,
            name,
            sector: clone_opt_string(&row.sector),
            industry: clone_opt_string(&row.industry),
            exchange: clone_opt_string(&row.exchange),
            scraped_at: now,
        },
    )
}

// ── Laws of pair normalisation ──────────────────────────────────────────────
/// The only whitespace the input holds is the plain space: inputs with
/// other whitespace characters inside a pair (such as a tab directly after
/// a separator) are not normalised stably by a single pass.
pub open spec fn only_plain_spaces(s: Seq<char>) -> bool {
    forall|i: int| 0 <= i < s.len() ==> (is_space_char(#[trigger] s[i]) ==> s[i] == ' ')
}

proof fn lemma_upper_seq_concat(a: Seq<char>, b: Seq<char>)
    ensures
        upper_seq(a + b) == upper_seq(a) + upper_seq(b),
{
    assert(upper_seq(a + b) =~= upper_seq(a) + upper_seq(b));
}

proof fn lemma_filter_all_dropped(s: Seq<char>)
    requires
        forall|i: int| 0 <= i < s.len() ==> !keep_char(FilterKind::Pair, #[trigger] s[i]),
    ensures
        applied_filter(FilterKind::Pair, s) == Seq::<char>::empty(),
    decreases s.len(),
{
    reveal(Seq::filter);
    if s.len() > 0 {
        assert(forall|i: int| 0 <= i < s.len() - 1 ==> s.drop_last()[i] == s[i]);
        lemma_filter_all_dropped(s.drop_last());
    }
}

proof fn lemma_filter_all_kept(s: Seq<char>)
    requires
        forall|i: int| 0 <= i < s.len() ==> keep_char(FilterKind::Pair, #[trigger] s[i]),
    ensures
        applied_filter(FilterKind::Pair, s) == s,
    decreases s.len(),
{
    reveal(Seq::filter);
    if s.len() > 0 {
        assert(forall|i: int| 0 <= i < s.len() - 1 ==> s.drop_last()[i] == s[i]);
        lemma_filter_all_kept(s.drop_last());
        assert(applied_filter(FilterKind::Pair, s) =~= s);
    }
}

/// With no exotic whitespace, trimming changes nothing the pair filter
/// would keep: normalisation is filtering the uppercased input.
#[verifier::rlimit(100)]
proof fn lemma_norm_pair_no_trim(s: Seq<char>)
    requires
        only_plain_spaces(s),
    ensures
        spec_normalise_pair(s) == applied_filter(FilterKind::Pair, upper_seq(s)),
{
    broadcast use vstd::seq_lib::group_seq_properties;

    let pred = |c: char| keep_char(FilterKind::Pair, c);
    // the trimmed middle together with the dropped space runs rebuilds s
    let f = trim_front(s);
    lemma_trim_front_parts(s);
    let i = choose|i: int|
        0 <= i <= s.len() && f == s.skip(i) && (forall|j: int|
            0 <= j < i ==> is_space_char(#[trigger] s[j]));
    let t = trim_back(f);
    lemma_trim_back_parts(f);
    let k = choose|k: int|
        0 <= k <= f.len() && t == f.take(k) && (forall|j: int|
            k <= j < f.len() ==> is_space_char(#[trigger] f[j]));
    assert(s =~= s.take(i) + (t + f.skip(k)));
    lemma_upper_seq_concat(s.take(i), t + f.skip(k));
    lemma_upper_seq_concat(t, f.skip(k));
    Seq::filter_distributes_over_add(upper_seq(s.take(i)), upper_seq(t + f.skip(k)), pred);
    Seq::filter_distributes_over_add(upper_seq(t), upper_seq(f.skip(k)), pred);
    assert forall|j: int| 0 <= j < upper_seq(s.take(i)).len() implies !keep_char(
        FilterKind::Pair,
        #[trigger] upper_seq(s.take(i))[j],
    ) by {
        assert(s.take(i)[j] == s[j]);
        assert(is_space_char(s[j]));
        assert(s[j] == ' ');
        assert(upper_seq(s.take(i))[j] == to_upper_char(' '));
    }
    lemma_filter_all_dropped(upper_seq(s.take(i)));
    assert forall|j: int| 0 <= j < upper_seq(f.skip(k)).len() implies !keep_char(
        FilterKind::Pair,
        #[trigger] upper_seq(f.skip(k))[j],
    ) by {
        assert(f.skip(k)[j] == f[k + j]);
        assert(is_space_char(f[k + j]));
        assert(f == s.skip(i));
        assert(f[k + j] == s[i + k + j]);
        assert(s[i + k + j] == ' ');
        assert(upper_seq(f.skip(k))[j] == to_upper_char(' '));
    }
    lemma_filter_all_dropped(upper_seq(f.skip(k)));
    assert(spec_normalise_pair(s) =~= applied_filter(FilterKind::Pair, upper_seq(s)));
}

/// trim_front removes a (fully whitespace) prefix.
proof fn lemma_trim_front_parts(s: Seq<char>)
    ensures
        exists|i: int|
            0 <= i <= s.len() && #[trigger] trim_front(s) == s.skip(i) && (forall|j: int|
                0 <= j < i ==> is_space_char(#[trigger] s[j])),
    decreases s.len(),
{
    if s.len() > 0 && is_space_char(s[0]) {
        lemma_trim_front_parts(s.drop_first());
        let i0 = choose|i0: int|
            0 <= i0 <= s.drop_first().len() && #[trigger] trim_front(s.drop_first())
                == s.drop_first().skip(i0) && (forall|j: int|
                0 <= j < i0 ==> is_space_char(#[trigger] s.drop_first()[j]));
        assert(s.drop_first().skip(i0) =~= s.skip(i0 + 1));
        assert forall|j: int| 1 <= j < i0 + 1 implies is_space_char(#[trigger] s[j]) by {
            assert(s.drop_first()[j - 1] == s[j]);
        }
        assert(trim_front(s) == s.skip(i0 + 1));
    } else {
        assert(s.skip(0) =~= s);
        assert(trim_front(s) == s.skip(0));
    }
}

/// trim_back removes a (fully whitespace) suffix.
proof fn lemma_trim_back_parts(s: Seq<char>)
    ensures
        exists|k: int|
            0 <= k <= s.len() && #[trigger] trim_back(s) == s.take(k) && (forall|j: int|
                k <= j < s.len() ==> is_space_char(#[trigger] s[j])),
    decreases s.len(),
{
    if s.len() > 0 && is_space_char(s[s.len() - 1]) {
        lemma_trim_back_parts(s.drop_last());
        let k0 = choose|k0: int|
            0 <= k0 <= s.drop_last().len() && #[trigger] trim_back(s.drop_last())
                == s.drop_last().take(k0) && (forall|j: int|
                k0 <= j < s.drop_last().len() ==> is_space_char(#[trigger] s.drop_last()[j]));
        assert(s.drop_last().take(k0) =~= s.take(k0));
        assert forall|j: int| k0 <= j < s.len() - 1 implies is_space_char(#[trigger] s[j]) by {
            assert(s.drop_last()[j] == s[j]);
        }
        assert(trim_back(s) == s.take(k0));
    } else {
        assert(s.take(s.len() as int) =~= s);
        assert(trim_back(s) == s.take(s.len() as int));
    }
}

/// Pair normalisation is separator-insensitive: inserting a '/' or a ' '
/// anywhere in the input does not change the result.
pub proof fn lemma_normalise_pair_separator_insensitive(a: Seq<char>, b: Seq<char>, sep: char)
    requires
        sep == '/' || sep == ' ',
        only_plain_spaces(a),
        only_plain_spaces(b),
    ensures
        spec_normalise_pair(a + seq![sep] + b) == spec_normalise_pair(a + b),
{
    broadcast use vstd::seq_lib::group_seq_properties;

    let pred = |c: char| keep_char(FilterKind::Pair, c);
    assert(only_plain_spaces(a + seq![sep] + b)) by {
        assert(forall|i: int|
            0 <= i < a.len() ==> #[trigger] (a + seq![sep] + b)[i] == a[i]);
        assert((a + seq![sep] + b)[a.len() as int] == sep);
        assert(forall|i: int|
            a.len() + 1 <= i < (a + seq![sep] + b).len() ==> #[trigger] (a + seq![sep]
                + b)[i] == b[i - a.len() - 1]);
    }
    assert(only_plain_spaces(a + b)) by {
        assert(forall|i: int| 0 <= i < a.len() ==> #[trigger] (a + b)[i] == a[i]);
        assert(forall|i: int|
            a.len() <= i < (a + b).len() ==> #[trigger] (a + b)[i] == b[i - a.len()]);
    }
    lemma_norm_pair_no_trim(a + seq![sep] + b);
    lemma_norm_pair_no_trim(a + b);
    lemma_upper_seq_concat(a + seq![sep], b);
    lemma_upper_seq_concat(a, seq![sep]);
    lemma_upper_seq_concat(a, b);
    Seq::filter_distributes_over_add(upper_seq(a + seq![sep]), upper_seq(b), pred);
    Seq::filter_distributes_over_add(upper_seq(a), upper_seq(seq![sep]), pred);
    Seq::filter_distributes_over_add(upper_seq(a), upper_seq(b), pred);
    assert(upper_seq(seq![sep]) =~= seq![sep]);
    reveal(Seq::filter);
    assert(seq![sep].drop_last() =~= Seq::<char>::empty());
    assert(applied_filter(FilterKind::Pair, seq![sep]) =~= Seq::<char>::empty());
    assert(upper_seq(a + seq![sep] + b) =~= upper_seq(a + seq![sep]) + upper_seq(b));
    assert(spec_normalise_pair(a + seq![sep] + b) =~= spec_normalise_pair(a + b));
}

/// Pair normalisation is idempotent: normalising a normalised pair changes
/// nothing.
pub proof fn lemma_normalise_pair_idempotent(s: Seq<char>)
    requires
        only_plain_spaces(s),
    ensures
        spec_normalise_pair(spec_normalise_pair(s)) == spec_normalise_pair(s),
{
    broadcast use vstd::seq_lib::group_seq_properties;

    let pred = |c: char| keep_char(FilterKind::Pair, c);
    lemma_norm_pair_no_trim(s);
    let u = upper_seq(s);
    let n = spec_normalise_pair(s);
    assert(n == u.filter(pred));
    // every character of the result was kept by the filter and came from u
    assert forall|i: int| 0 <= i < n.len() implies keep_char(FilterKind::Pair, #[trigger] n[i])
        && n[i] == to_upper_char(n[i]) && !is_space_char(n[i]) by {
        u.lemma_filter_pred(pred, i);
        assert(u.filter(pred).contains(n[i]));
        u.lemma_filter_contains_rev(pred, n[i]);
        let j = choose|j: int| 0 <= j < u.len() && u[j] == n[i];
        assert(u[j] == to_upper_char(s[j]));
        assert(to_upper_char(to_upper_char(s[j])) == to_upper_char(s[j]));
        if is_space_char(n[i]) {
            assert(is_space_char(s[j]));
            assert(s[j] == ' ');
            assert(n[i] == ' ');
        }
    }
    assert(only_plain_spaces(n));
    lemma_norm_pair_no_trim(n);
    assert(upper_seq(n) =~= n);
    lemma_filter_all_kept(n);
}

} // verus!
