//! Date parsing: five supported textual formats, tried in a fixed order.
//!
//! Formats, in try order: month-name day, year ("Feb 20, 2024"); ISO
//! ("2024-02-20"); day/month/year; month/day/year; day month-name year
//! ("20 Feb 2024").  Ambiguity between day/month and month/day is resolved
//! purely by try order, not by value ranges.  Years are exactly four
//! digits; days and months may have one or two.

use vstd::prelude::*;

use crate::models::Date;
use crate::models::date_valid;
use crate::text::all_digits;
use crate::text::digit_val;
use crate::text::digits_val;
use crate::text::is_digit;
use crate::text::is_digit_char;
use crate::text::to_chars;
use crate::text::to_lower_char;
use crate::text::trim_chars;
use crate::text::trim_seq;
use crate::text::trim_front;
use crate::text::trim_back;
use crate::text::lower_char;

verus! {

/// A run of `len` digits starting at `i`.
pub open spec fn digits_at(s: Seq<char>, i: int, len: int) -> bool {
    i >= 0 && len >= 0 && i + len <= s.len() && all_digits(s.subrange(i, i + len))
}

/// Value of the `len` digits starting at `i`.
pub open spec fn num_at(s: Seq<char>, i: int, len: int) -> int {
    digits_val(s.subrange(i, i + len))
}

/// Length of the digit run starting at `i`, capped at two (fields are read
/// greedily, as one or two digits).
pub open spec fn run2(s: Seq<char>, i: int) -> int {
    if 0 <= i < s.len() && is_digit_char(s[i]) {
        if i + 1 < s.len() && is_digit_char(s[i + 1]) {
            2
        } else {
            1
        }
    } else {
        0
    }
}

/// Month number for a three-letter abbreviation, lowercased.
pub open spec fn month_from_letters(a: char, b: char, c: char) -> Option<u8> {
    if a == 'j' && b == 'a' && c == 'n' {
        Some(1u8)
    } else if a == 'f' && b == 'e' && c == 'b' {
        Some(2u8)
    } else if a == 'm' && b == 'a' && c == 'r' {
        Some(3u8)
    } else if a == 'a' && b == 'p' && c == 'r' {
        Some(4u8)
    } else if a == 'm' && b == 'a' && c == 'y' {
        Some(5u8)
    } else if a == 'j' && b == 'u' && c == 'n' {
        Some(6u8)
    } else if a == 'j' && b == 'u' && c == 'l' {
        Some(7u8)
    } else if a == 'a' && b == 'u' && c == 'g' {
        Some(8u8)
    } else if a == 's' && b == 'e' && c == 'p' {
        Some(9u8)
    } else if a == 'o' && b == 'c' && c == 't' {
        Some(10u8)
    } else if a == 'n' && b == 'o' && c == 'v' {
        Some(11u8)
    } else if a == 'd' && b == 'e' && c == 'c' {
        Some(12u8)
    } else {
        None
    }
}

/// Month abbreviation at position `i`, read case-insensitively.
pub open spec fn month_at(s: Seq<char>, i: int) -> Option<u8> {
    if 0 <= i && i + 3 <= s.len() {
        month_from_letters(to_lower_char(s[i]), to_lower_char(s[i + 1]), to_lower_char(s[i + 2]))
    } else {
        None
    }
}

/// The date, when year, month and day form a real calendar date.
pub open spec fn checked_date(y: int, m: int, d: int) -> Option<Date> {
    let dt = Date { year: y as i32, month: m as u8, day: d as u8 };
    if 0 <= y <= 9999 && 0 <= m <= 255 && 0 <= d <= 255 && date_valid(dt) {
        Some(dt)
    } else {
        None
    }
}

/// "Feb 20, 2024": month-name, space, day, comma, space, four-digit year.
pub open spec fn spec_parse_month_name_first(s: Seq<char>) -> Option<Date> {
    match month_at(s, 0) {
        Some(m) => {
            let dl = run2(s, 4);
            if s.len() >= 4 && s[3] == ' ' && dl >= 1 && s.len() == 10 + dl && s[4 + dl] == ','
                && s[5 + dl] == ' ' && digits_at(s, 6 + dl, 4) {
                checked_date(num_at(s, 6 + dl, 4), m as int, num_at(s, 4, dl))
            } else {
                None
            }
        },
        None => None,
    }
}

/// "2024-02-20": four-digit year, dash, month, dash, day.
pub open spec fn spec_parse_iso(s: Seq<char>) -> Option<Date> {
    if s.len() >= 6 && digits_at(s, 0, 4) && s[4] == '-' {
        let ml = run2(s, 5);
        if ml >= 1 && 5 + ml < s.len() && s[5 + ml] == '-' {
            let dl = s.len() - 6 - ml;
            if 1 <= dl <= 2 && digits_at(s, 6 + ml, dl) {
                checked_date(num_at(s, 0, 4), num_at(s, 5, ml), num_at(s, 6 + ml, dl))
            } else {
                None
            }
        } else {
            None
        }
    } else {
        None
    }
}

/// "20/02/2024": day, slash, month, slash, four-digit year.
pub open spec fn spec_parse_dmy(s: Seq<char>) -> Option<Date> {
    let dl = run2(s, 0);
    if dl >= 1 && dl < s.len() && s[dl] == '/' {
        let ml = run2(s, dl + 1);
        if ml >= 1 && dl + 1 + ml < s.len() && s[dl + 1 + ml] == '/' && s.len() == dl + ml + 6
            && digits_at(s, dl + ml + 2, 4) {
            checked_date(num_at(s, dl + ml + 2, 4), num_at(s, dl + 1, ml), num_at(s, 0, dl))
        } else {
            None
        }
    } else {
        None
    }
}

/// "02/20/2024": month, slash, day, slash, four-digit year.
pub open spec fn spec_parse_mdy(s: Seq<char>) -> Option<Date> {
    let ml = run2(s, 0);
    if ml >= 1 && ml < s.len() && s[ml] == '/' {
        let dl = run2(s, ml + 1);
        if dl >= 1 && ml + 1 + dl < s.len() && s[ml + 1 + dl] == '/' && s.len() == ml + dl + 6
            && digits_at(s, ml + dl + 2, 4) {
            checked_date(num_at(s, ml + dl + 2, 4), num_at(s, 0, ml), num_at(s, ml + 1, dl))
        } else {
            None
        }
    } else {
        None
    }
}

/// "20 Feb 2024": day, space, month-name, space, four-digit year.
pub open spec fn spec_parse_day_month_name(s: Seq<char>) -> Option<Date> {
    let dl = run2(s, 0);
    if dl >= 1 && dl < s.len() && s[dl] == ' ' {
        match month_at(s, dl + 1) {
            Some(m) => {
                if s.len() == dl + 9 && s[dl + 4] == ' ' && digits_at(s, dl + 5, 4) {
                    checked_date(num_at(s, dl + 5, 4), m as int, num_at(s, 0, dl))
                } else {
                    None
                }
            },
            None => None,
        }
    } else {
        None
    }
}

/// What date parsing yields: the input is trimmed, then the five formats
/// are tried in order; the first that matches wins.
pub open spec fn spec_parse_date(s: Seq<char>) -> Option<Date> {
    let t = trim_seq(s);
    if spec_parse_month_name_first(t) is Some {
        spec_parse_month_name_first(t)
    } else if spec_parse_iso(t) is Some {
        spec_parse_iso(t)
    } else if spec_parse_dmy(t) is Some {
        spec_parse_dmy(t)
    } else if spec_parse_mdy(t) is Some {
        spec_parse_mdy(t)
    } else {
        spec_parse_day_month_name(t)
    }
}

// ── Exec helpers ────────────────────────────────────────────────────────────
/// Read `len` digits at position `i` as a number.
fn num_at_exec(v: &Vec<char>, i: usize, len: usize) -> (r: Option<u32>)
    requires
        i + len <= v@.len(),
        1 <= len <= 4,
    ensures
        match r {
            Some(n) => digits_at(v@, i as int, len as int) && n == num_at(
                v@,
                i as int,
                len as int,
            ) && n < pow10_small(len as nat),
            None => !digits_at(v@, i as int, len as int),
        },
{
    let total = v.len();
    proof {
        lemma_pow10_small_vals();
        assert(total == v@.len());
    }
    let mut acc: u32 = 0;
    let mut j: usize = 0;
    while j < len
        invariant
            i + len <= v@.len(),
            v@.len() <= usize::MAX,
            len <= 4,
            j <= len,
            all_digits(v@.subrange(i as int, i + j)),
            acc == digits_val(v@.subrange(i as int, i + j)),
            acc < pow10_small(j as nat),
        decreases len - j,
    {
        proof {
            lemma_pow10_small_vals();
        }
        let c = v[i + j];
        if !is_digit(c) {
            proof {
                assert(v@.subrange(i as int, i + len)[j as int] == v@[i + j]);
            }
            return None;
        }
        let d = c as u32 - 48;
        proof {
            let pre = v@.subrange(i as int, i + j);
            let post = v@.subrange(i as int, i + j + 1);
            assert(post.drop_last() =~= pre);
            assert(post.last() == v@[i + j]);
        }
        acc = acc * 10 + d;
        j = j + 1;
    }
    Some(acc)
}

/// 10^k for k up to 4, used to bound small digit fields.
pub open spec fn pow10_small(k: nat) -> int
    decreases k,
{
    if k == 0 {
        1
    } else {
        10 * pow10_small((k - 1) as nat)
    }
}

pub proof fn lemma_pow10_small_vals()
    ensures
        pow10_small(0) == 1,
        pow10_small(1) == 10,
        pow10_small(2) == 100,
        pow10_small(3) == 1000,
        pow10_small(4) == 10000,
{
    assert(pow10_small(0) == 1);
    assert(pow10_small(1) == 10 * pow10_small(0));
    assert(pow10_small(2) == 10 * pow10_small(1));
    assert(pow10_small(3) == 10 * pow10_small(2));
    assert(pow10_small(4) == 10 * pow10_small(3));
}

/// Length of the digit run at `i`, capped at two.
fn run2_exec(v: &Vec<char>, i: usize) -> (r: usize)
    ensures
        r == run2(v@, i as int),
        r <= 2,
{
    if i < v.len() && is_digit(v[i]) {
        if i + 1 < v.len() && is_digit(v[i + 1]) {
            2
        } else {
            1
        }
    } else {
        0
    }
}

/// Month number for the three characters at `i`, case-insensitive.
fn month_at_exec(v: &Vec<char>, i: usize) -> (r: Option<u8>)
    ensures
        r == month_at(v@, i as int),
{
    if v.len() < 3 || i > v.len() - 3 {
        return None;
    }
    let a = lower_char(v[i]);
    let b = lower_char(v[i + 1]);
    let c = lower_char(v[i + 2]);
    if a == 'j' && b == 'a' && c == 'n' {
        Some(1)
    } else if a == 'f' && b == 'e' && c == 'b' {
        Some(2)
    } else if a == 'm' && b == 'a' && c == 'r' {
        Some(3)
    } else if a == 'a' && b == 'p' && c == 'r' {
        Some(4)
    } else if a == 'm' && b == 'a' && c == 'y' {
        Some(5)
    } else if a == 'j' && b == 'u' && c == 'n' {
        Some(6)
    } else if a == 'j' && b == 'u' && c == 'l' {
        Some(7)
    } else if a == 'a' && b == 'u' && c == 'g' {
        Some(8)
    } else if a == 's' && b == 'e' && c == 'p' {
        Some(9)
    } else if a == 'o' && b == 'c' && c == 't' {
        Some(10)
    } else if a == 'n' && b == 'o' && c == 'v' {
        Some(11)
    } else if a == 'd' && b == 'e' && c == 'c' {
        Some(12)
    } else {
        None
    }
}

fn checked_date_exec(y: u32, m: u8, d: u32) -> (r: Option<Date>)
    requires
        y < 10000,
        d < 10000,
    ensures
        r == checked_date(y as int, m as int, d as int),
{
    if d > 255 {
        proof {
            let dt = Date { year: y as i32, month: m as u8, day: d as u8 };
            assert(!(0 <= d as int <= 255));
        }
        return None;
    }
    Date::from_ymd(y as i32, m, d as u8)
}

fn parse_month_name_first(v: &Vec<char>) -> (r: Option<Date>)
    ensures
        r == spec_parse_month_name_first(v@),
{
    match month_at_exec(v, 0) {
        Some(m) => {
            if v.len() < 4 || v[3] != ' ' {
                return None;
            }
            let dl = run2_exec(v, 4);
            if dl < 1 || v.len() != 10 + dl {
                return None;
            }
            if v[4 + dl] != ',' || v[5 + dl] != ' ' {
                return None;
            }
            let day = match num_at_exec(v, 4, dl) {
                Some(n) => n,
                None => {
                    return None;
                },
            };
            let year = match num_at_exec(v, 6 + dl, 4) {
                Some(n) => n,
                None => {
                    return None;
                },
            };
            proof {
                lemma_pow10_small_vals();
            }
            checked_date_exec(year, m, day)
        },
        None => None,
    }
}

fn parse_iso(v: &Vec<char>) -> (r: Option<Date>)
    ensures
        r == spec_parse_iso(v@),
{
    if v.len() < 6 {
        return None;
    }
    let year = match num_at_exec(v, 0, 4) {
        Some(n) => n,
        None => {
            return None;
        },
    };
    if v[4] != '-' {
        return None;
    }
    let ml = run2_exec(v, 5);
    if ml < 1 || 5 + ml >= v.len() || v[5 + ml] != '-' {
        return None;
    }
    let dl = v.len() - 6 - ml;
    if dl < 1 || dl > 2 {
        return None;
    }
    let month = match num_at_exec(v, 5, ml) {
        Some(n) => n,
        None => {
            return None;
        },
    };
    let day = match num_at_exec(v, 6 + ml, dl) {
        Some(n) => n,
        None => {
            return None;
        },
    };
    proof {
        lemma_pow10_small_vals();
        assert(month < 100);
    }
    checked_date_exec(year, month as u8, day)
}

fn parse_dmy(v: &Vec<char>) -> (r: Option<Date>)
    ensures
        r == spec_parse_dmy(v@),
{
    let dl = run2_exec(v, 0);
    if dl < 1 || dl >= v.len() || v[dl] != '/' {
        return None;
    }
    let ml = run2_exec(v, dl + 1);
    if ml < 1 || dl + 1 + ml >= v.len() || v[dl + 1 + ml] != '/' {
        return None;
    }
    if v.len() != dl + ml + 6 {
        return None;
    }
    let year = match num_at_exec(v, dl + ml + 2, 4) {
        Some(n) => n,
        None => {
            return None;
        },
    };
    let month = match num_at_exec(v, dl + 1, ml) {
        Some(n) => n,
        None => {
            return None;
        },
    };
    let day = match num_at_exec(v, 0, dl) {
        Some(n) => n,
        None => {
            return None;
        },
    };
    proof {
        lemma_pow10_small_vals();
        assert(month < 100);
    }
    checked_date_exec(year, month as u8, day)
}

fn parse_mdy(v: &Vec<char>) -> (r: Option<Date>)
    ensures
        r == spec_parse_mdy(v@),
{
    let ml = run2_exec(v, 0);
    if ml < 1 || ml >= v.len() || v[ml] != '/' {
        return None;
    }
    let dl = run2_exec(v, ml + 1);
    if dl < 1 || ml + 1 + dl >= v.len() || v[ml + 1 + dl] != '/' {
        return None;
    }
    if v.len() != ml + dl + 6 {
        return None;
    }
    let year = match num_at_exec(v, ml + dl + 2, 4) {
        Some(n) => n,
        None => {
            return None;
        },
    };
    let month = match num_at_exec(v, 0, ml) {
        Some(n) => n,
        None => {
            return None;
        },
    };
    let day = match num_at_exec(v, ml + 1, dl) {
        Some(n) => n,
        None => {
            return None;
        },
    };
    proof {
        lemma_pow10_small_vals();
        assert(month < 100);
    }
    checked_date_exec(year, month as u8, day)
}

fn parse_day_month_name(v: &Vec<char>) -> (r: Option<Date>)
    ensures
        r == spec_parse_day_month_name(v@),
{
    let dl = run2_exec(v, 0);
    if dl < 1 || dl >= v.len() || v[dl] != ' ' {
        return None;
    }
    match month_at_exec(v, dl + 1) {
        Some(m) => {
            if v.len() != dl + 9 || v[dl + 4] != ' ' {
                return None;
            }
            let year = match num_at_exec(v, dl + 5, 4) {
                Some(n) => n,
                None => {
                    return None;
                },
            };
            let day = match num_at_exec(v, 0, dl) {
                Some(n) => n,
                None => {
                    return None;
                },
            };
            proof {
                lemma_pow10_small_vals();
            }
            checked_date_exec(year, m, day)
        },
        None => None,
    }
}

/// Parse a date in any of the five supported formats, first match wins.
pub fn parse_date(s: &str) -> (r: Option<Date>)
    ensures
        r == spec_parse_date(s@),
        r is Some ==> date_valid(r->0),
{
    let cs = to_chars(s);
    let t = trim_chars(&cs);
    if let Some(d) = parse_month_name_first(&t) {
        return Some(d);
    }
    if let Some(d) = parse_iso(&t) {
        return Some(d);
    }
    if let Some(d) = parse_dmy(&t) {
        return Some(d);
    }
    if let Some(d) = parse_mdy(&t) {
        return Some(d);
    }
    parse_day_month_name(&t)
}

// ── Agreement of the formats ────────────────────────────────────────────────
/// A number as two digits, zero-padded.
pub open spec fn render2(n: int) -> Seq<char> {
    seq![crate::text::digit_char(n / 10), crate::text::digit_char(n % 10)]
}

/// A number as four digits, zero-padded.
pub open spec fn render4(n: int) -> Seq<char> {
    seq![
        crate::text::digit_char(n / 1000),
        crate::text::digit_char((n / 100) % 10),
        crate::text::digit_char((n / 10) % 10),
        crate::text::digit_char(n % 10),
    ]
}

/// The capitalised three-letter abbreviation of a month.
pub open spec fn month_abbrev(m: int) -> Seq<char> {
    if m == 1 {
        seq!['J', 'a', 'n']
    } else if m == 2 {
        seq!['F', 'e', 'b']
    } else if m == 3 {
        seq!['M', 'a', 'r']
    } else if m == 4 {
        seq!['A', 'p', 'r']
    } else if m == 5 {
        seq!['M', 'a', 'y']
    } else if m == 6 {
        seq!['J', 'u', 'n']
    } else if m == 7 {
        seq!['J', 'u', 'l']
    } else if m == 8 {
        seq!['A', 'u', 'g']
    } else if m == 9 {
        seq!['S', 'e', 'p']
    } else if m == 10 {
        seq!['O', 'c', 't']
    } else if m == 11 {
        seq!['N', 'o', 'v']
    } else {
        seq!['D', 'e', 'c']
    }
}

/// A date written "2024-02-20".
pub open spec fn fmt_iso(d: Date) -> Seq<char> {
    render4(d.year as int) + seq!['-'] + render2(d.month as int) + seq!['-'] + render2(
        d.day as int,
    )
}

/// A date written "20/02/2024".
pub open spec fn fmt_dmy(d: Date) -> Seq<char> {
    render2(d.day as int) + seq!['/'] + render2(d.month as int) + seq!['/'] + render4(
        d.year as int,
    )
}

/// A date written "02/20/2024".
pub open spec fn fmt_mdy(d: Date) -> Seq<char> {
    render2(d.month as int) + seq!['/'] + render2(d.day as int) + seq!['/'] + render4(
        d.year as int,
    )
}

/// A date written "Feb 20, 2024".
pub open spec fn fmt_month_name(d: Date) -> Seq<char> {
    month_abbrev(d.month as int) + seq![' '] + render2(d.day as int) + seq![','] + seq![' ']
        + render4(d.year as int)
}

/// A date written "20 Feb 2024".
pub open spec fn fmt_day_month_name(d: Date) -> Seq<char> {
    render2(d.day as int) + seq![' '] + month_abbrev(d.month as int) + seq![' '] + render4(
        d.year as int,
    )
}

proof fn lemma_render2(x: int)
    requires
        0 <= x < 100,
    ensures
        render2(x).len() == 2,
        all_digits(render2(x)),
        digits_val(render2(x)) == x,
{
    let r = render2(x);
    assert(is_digit_char(r[0]) && is_digit_char(r[1]));
    assert(all_digits(r)) by {
        assert(forall|i: int| 0 <= i < 2 ==> #[trigger] r[i] == (if i == 0 { r[0] } else { r[1] }));
    }
    assert(r.drop_last() =~= seq![r[0]]);
    assert(seq![r[0]].drop_last() =~= Seq::<char>::empty());
    assert(digits_val(Seq::<char>::empty()) == 0);
    assert(digits_val(seq![r[0]]) == digit_val(r[0]));
    assert(digits_val(r) == digit_val(r[0]) * 10 + digit_val(r[1]));
}

proof fn lemma_render4(x: int)
    requires
        0 <= x < 10000,
    ensures
        render4(x).len() == 4,
        all_digits(render4(x)),
        digits_val(render4(x)) == x,
{
    let r = render4(x);
    assert(is_digit_char(r[0]) && is_digit_char(r[1]) && is_digit_char(r[2]) && is_digit_char(
        r[3],
    ));
    assert(all_digits(r)) by {
        assert(forall|i: int|
            0 <= i < 4 ==> #[trigger] r[i] == (if i == 0 {
                r[0]
            } else if i == 1 {
                r[1]
            } else if i == 2 {
                r[2]
            } else {
                r[3]
            }));
    }
    let r3 = r.drop_last();
    let r2 = r3.drop_last();
    let r1 = r2.drop_last();
    assert(r3 =~= seq![r[0], r[1], r[2]]);
    assert(r2 =~= seq![r[0], r[1]]);
    assert(r1 =~= seq![r[0]]);
    assert(r1.drop_last() =~= Seq::<char>::empty());
    assert(digits_val(Seq::<char>::empty()) == 0);
    assert(digits_val(r1) == digit_val(r[0]));
    assert(digits_val(r2) == digit_val(r[0]) * 10 + digit_val(r[1]));
    assert(digits_val(r3) == digits_val(r2) * 10 + digit_val(r[2]));
    assert(digits_val(r) == digits_val(r3) * 10 + digit_val(r[3]));
}

/// Trimming changes nothing when the ends are not whitespace.
proof fn lemma_trim_id(s: Seq<char>)
    requires
        s.len() > 0,
        !crate::text::is_space_char(s[0]),
        !crate::text::is_space_char(s[s.len() - 1]),
    ensures
        trim_seq(s) == s,
{
    assert(trim_seq(s) == trim_back(trim_front(s)));
}

proof fn lemma_month_abbrev(m: int)
    requires
        1 <= m <= 12,
    ensures
        month_abbrev(m).len() == 3,
        month_from_letters(
            to_lower_char(month_abbrev(m)[0]),
            to_lower_char(month_abbrev(m)[1]),
            to_lower_char(month_abbrev(m)[2]),
        ) == Some(m as u8),
        !is_digit_char(month_abbrev(m)[0]),
        !crate::text::is_space_char(month_abbrev(m)[0]),
{
}

/// The five date formats agree: a valid date rendered in each format parses
/// back to itself.  The month/day/year form agrees when the day is past
/// twelve; below that the day/month reading is tried first and wins, which
/// is the documented try-order ambiguity.
pub proof fn lemma_date_formats_agree(d: Date)
    requires
        date_valid(d),
    ensures
        spec_parse_date(fmt_month_name(d)) == Some(d),
        spec_parse_date(fmt_iso(d)) == Some(d),
        spec_parse_date(fmt_dmy(d)) == Some(d),
        spec_parse_date(fmt_day_month_name(d)) == Some(d),
        d.day > 12 ==> spec_parse_date(fmt_mdy(d)) == Some(d),
{
    let y = d.year as int;
    let m = d.month as int;
    let day = d.day as int;
    lemma_render2(m);
    lemma_render2(day);
    lemma_render4(y);
    lemma_month_abbrev(m);
    lemma_month_name_roundtrip(d);
    lemma_iso_roundtrip(d);
    lemma_dmy_roundtrip(d);
    lemma_day_month_name_roundtrip(d);
    if d.day > 12 {
        lemma_mdy_roundtrip(d);
    }
}

proof fn lemma_month_name_roundtrip(d: Date)
    requires
        date_valid(d),
    ensures
        spec_parse_date(fmt_month_name(d)) == Some(d),
{
    let s = fmt_month_name(d);
    let y = d.year as int;
    let m = d.month as int;
    let day = d.day as int;
    lemma_render2(day);
    lemma_render4(y);
    lemma_month_abbrev(m);
    assert(s.len() == 12);
    assert(s[0] == month_abbrev(m)[0] && s[1] == month_abbrev(m)[1] && s[2] == month_abbrev(
        m,
    )[2]);
    assert(s[3] == ' ');
    assert(s[4] == render2(day)[0] && s[5] == render2(day)[1]);
    assert(s[6] == ',' && s[7] == ' ');
    assert(s[8] == render4(y)[0] && s[9] == render4(y)[1] && s[10] == render4(y)[2] && s[11]
        == render4(y)[3]);
    assert(!crate::text::is_space_char(s[0]));
    assert(is_digit_char(s[11]) && !crate::text::is_space_char(s[11]));
    lemma_trim_id(s);
    assert(month_at(s, 0) == Some(d.month));
    assert(run2(s, 4) == 2);
    assert(s.subrange(4, 6) =~= render2(day));
    assert(num_at(s, 4, 2) == day);
    assert(s.subrange(8, 12) =~= render4(y));
    assert(digits_at(s, 8, 4));
    assert(num_at(s, 8, 4) == y);
    assert(checked_date(y, m, day) == Some(d));
    assert(spec_parse_month_name_first(s) == Some(d));
}

proof fn lemma_iso_roundtrip(d: Date)
    requires
        date_valid(d),
    ensures
        spec_parse_date(fmt_iso(d)) == Some(d),
{
    let s = fmt_iso(d);
    let y = d.year as int;
    let m = d.month as int;
    let day = d.day as int;
    lemma_render2(m);
    lemma_render2(day);
    lemma_render4(y);
    assert(s.len() == 10);
    assert(s[0] == render4(y)[0] && s[1] == render4(y)[1] && s[2] == render4(y)[2] && s[3]
        == render4(y)[3]);
    assert(s[4] == '-');
    assert(s[5] == render2(m)[0] && s[6] == render2(m)[1]);
    assert(s[7] == '-');
    assert(s[8] == render2(day)[0] && s[9] == render2(day)[1]);
    assert(is_digit_char(s[0]) && !crate::text::is_space_char(s[0]));
    assert(is_digit_char(s[9]) && !crate::text::is_space_char(s[9]));
    lemma_trim_id(s);
    // the month-name format rejects it: the first character is a digit
    assert(month_at(s, 0) is None);
    assert(spec_parse_month_name_first(s) is None);
    // the ISO reading succeeds
    assert(s.subrange(0, 4) =~= render4(y));
    assert(digits_at(s, 0, 4));
    assert(num_at(s, 0, 4) == y);
    assert(run2(s, 5) == 2);
    assert(s.subrange(5, 7) =~= render2(m));
    assert(num_at(s, 5, 2) == m);
    assert(s.subrange(8, 10) =~= render2(day));
    assert(digits_at(s, 8, 2));
    assert(num_at(s, 8, 2) == day);
    assert(checked_date(y, m, day) == Some(d));
    assert(spec_parse_iso(s) == Some(d));
}

proof fn lemma_dmy_roundtrip(d: Date)
    requires
        date_valid(d),
    ensures
        spec_parse_date(fmt_dmy(d)) == Some(d),
{
    let s = fmt_dmy(d);
    let y = d.year as int;
    let m = d.month as int;
    let day = d.day as int;
    lemma_render2(m);
    lemma_render2(day);
    lemma_render4(y);
    assert(s.len() == 10);
    assert(s[0] == render2(day)[0] && s[1] == render2(day)[1]);
    assert(s[2] == '/');
    assert(s[3] == render2(m)[0] && s[4] == render2(m)[1]);
    assert(s[5] == '/');
    assert(s[6] == render4(y)[0] && s[7] == render4(y)[1] && s[8] == render4(y)[2] && s[9]
        == render4(y)[3]);
    assert(is_digit_char(s[0]) && !crate::text::is_space_char(s[0]));
    assert(is_digit_char(s[9]) && !crate::text::is_space_char(s[9]));
    lemma_trim_id(s);
    assert(month_at(s, 0) is None);
    assert(spec_parse_month_name_first(s) is None);
    assert(!is_digit_char('/')) by {
        assert('/' as u32 == 47);
    }
    assert(!digits_at(s, 0, 4)) by {
        assert(s.subrange(0, 4)[2] == s[2]);
    }
    assert(spec_parse_iso(s) is None);
    assert(run2(s, 0) == 2);
    assert(run2(s, 3) == 2);
    assert(s.subrange(0, 2) =~= render2(day));
    assert(num_at(s, 0, 2) == day);
    assert(s.subrange(3, 5) =~= render2(m));
    assert(num_at(s, 3, 5 - 3) == m);
    assert(s.subrange(6, 10) =~= render4(y));
    assert(digits_at(s, 6, 4));
    assert(num_at(s, 6, 4) == y);
    assert(checked_date(y, m, day) == Some(d));
    assert(spec_parse_dmy(s) == Some(d));
}

proof fn lemma_mdy_roundtrip(d: Date)
    requires
        date_valid(d),
        d.day > 12,
    ensures
        spec_parse_date(fmt_mdy(d)) == Some(d),
{
    let s = fmt_mdy(d);
    let y = d.year as int;
    let m = d.month as int;
    let day = d.day as int;
    lemma_render2(m);
    lemma_render2(day);
    lemma_render4(y);
    assert(s.len() == 10);
    assert(s[0] == render2(m)[0] && s[1] == render2(m)[1]);
    assert(s[2] == '/');
    assert(s[3] == render2(day)[0] && s[4] == render2(day)[1]);
    assert(s[5] == '/');
    assert(s[6] == render4(y)[0] && s[7] == render4(y)[1] && s[8] == render4(y)[2] && s[9]
        == render4(y)[3]);
    assert(is_digit_char(s[0]) && !crate::text::is_space_char(s[0]));
    assert(is_digit_char(s[9]) && !crate::text::is_space_char(s[9]));
    lemma_trim_id(s);
    assert(month_at(s, 0) is None);
    assert(spec_parse_month_name_first(s) is None);
    assert(!is_digit_char('/')) by {
        assert('/' as u32 == 47);
    }
    assert(!digits_at(s, 0, 4)) by {
        assert(s.subrange(0, 4)[2] == s[2]);
    }
    assert(spec_parse_iso(s) is None);
    // the day/month reading fails: the day field would be a month past twelve
    assert(run2(s, 0) == 2);
    assert(run2(s, 3) == 2);
    assert(s.subrange(0, 2) =~= render2(m));
    assert(s.subrange(3, 5) =~= render2(day));
    assert(num_at(s, 0, 2) == m);
    assert(num_at(s, 3, 5 - 3) == day);
    assert(s.subrange(6, 10) =~= render4(y));
    assert(digits_at(s, 6, 4));
    assert(num_at(s, 6, 4) == y);
    assert(checked_date(y, day, m) is None) by {
        assert(!date_valid(Date { year: y as i32, month: day as u8, day: m as u8 }));
    }
    assert(spec_parse_dmy(s) is None);
    assert(checked_date(y, m, day) == Some(d));
    assert(spec_parse_mdy(s) == Some(d));
}

proof fn lemma_day_month_name_roundtrip(d: Date)
    requires
        date_valid(d),
    ensures
        spec_parse_date(fmt_day_month_name(d)) == Some(d),
{
    let s = fmt_day_month_name(d);
    let y = d.year as int;
    let m = d.month as int;
    let day = d.day as int;
    lemma_render2(day);
    lemma_render4(y);
    lemma_month_abbrev(m);
    assert(s.len() == 11);
    assert(s[0] == render2(day)[0] && s[1] == render2(day)[1]);
    assert(s[2] == ' ');
    assert(s[3] == month_abbrev(m)[0] && s[4] == month_abbrev(m)[1] && s[5] == month_abbrev(
        m,
    )[2]);
    assert(s[6] == ' ');
    assert(s[7] == render4(y)[0] && s[8] == render4(y)[1] && s[9] == render4(y)[2] && s[10]
        == render4(y)[3]);
    assert(is_digit_char(s[0]) && !crate::text::is_space_char(s[0]));
    assert(is_digit_char(s[10]) && !crate::text::is_space_char(s[10]));
    lemma_trim_id(s);
    // the month-name-first format rejects it: it opens with digits
    assert(month_at(s, 0) is None);
    assert(spec_parse_month_name_first(s) is None);
    // ISO rejects it: the letters are not digits
    assert(!digits_at(s, 0, 4)) by {
        assert(s.subrange(0, 4)[2] == s[2]);
    }
    assert(spec_parse_iso(s) is None);
    // the slash formats reject it: no slash follows the digits
    assert(run2(s, 0) == 2);
    assert(spec_parse_dmy(s) is None);
    assert(spec_parse_mdy(s) is None);
    // the day month-name year reading succeeds
    assert(month_at(s, 3) == Some(d.month));
    assert(s.subrange(0, 2) =~= render2(day));
    assert(num_at(s, 0, 2) == day);
    assert(s.subrange(7, 11) =~= render4(y));
    assert(digits_at(s, 7, 4));
    assert(num_at(s, 7, 4) == y);
    assert(checked_date(y, m, day) == Some(d));
    assert(spec_parse_day_month_name(s) == Some(d));
}

} // verus!
