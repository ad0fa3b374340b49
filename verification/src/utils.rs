//! Small shared helpers: a wall-clock timer and number formatting.

use vstd::prelude::*;

use crate::text::dec_digits;
use crate::text::u64_to_chars;
use crate::text::string_from_chars;

verus! {

/// A wall-clock timer for reporting elapsed time.
pub struct Timer {
    label: String,
    start: std::time::Instant,
}

impl Timer {
    /// The timer's label.
    pub closed spec fn spec_label(self) -> Seq<char> {
        self.label@
    }

    /// Start a timer with a label.
    pub fn start(label: &str) -> (t: Timer)
        ensures
            t.spec_label() == label@,
    {
        Timer { label: String::from_str(label), start: crate::clock::instant_now() }
    }

    /// Milliseconds since the timer was started.  The value depends on the
    /// clock, so nothing is promised of it.
    pub fn elapsed(&self) -> u64 {
        crate::clock::elapsed_millis(&self.start)
    }

    /// The label the timer was started with.
    pub fn label(&self) -> (r: &str)
        ensures
            r@ == self.spec_label(),
    {
        self.label.as_str()
    }
}

/// Digits with a comma inserted before every group of three, from the
/// right.
pub open spec fn group_digits(ds: Seq<char>) -> Seq<char>
    decreases ds.len(),
{
    if ds.len() <= 3 {
        ds
    } else {
        group_digits(ds.take(ds.len() - 3)) + seq![','] + ds.skip(ds.len() - 3)
    }
}

/// What number formatting yields: the decimal digits of the magnitude in
/// groups of three, a leading minus for negative values.
pub open spec fn spec_fmt_number(n: int) -> Seq<char> {
    if n < 0 {
        seq!['-'] + group_digits(dec_digits((-n) as nat))
    } else {
        group_digits(dec_digits(n as nat))
    }
}

/// Insert a comma before every group of three digits, from the right.
fn group_chars(ds: &Vec<char>) -> (r: Vec<char>)
    ensures
        r@ == group_digits(ds@),
    decreases ds@.len(),
{
    let n = ds.len();
    if n <= 3 {
        let mut r: Vec<char> = Vec::new();
        let mut i: usize = 0;
        while i < n
            invariant
                i <= n,
                n == ds@.len(),
                r@ == ds@.take(i as int),
            decreases n - i,
        {
            r.push(ds[i]);
            i = i + 1;
            proof {
                assert(r@ =~= ds@.take(i as int));
            }
        }
        proof {
            assert(ds@.take(n as int) =~= ds@);
        }
        return r;
    }
    let mut head: Vec<char> = Vec::new();
    let mut i: usize = 0;
    while i < n - 3
        invariant
            i <= n - 3,
            3 < n == ds@.len(),
            head@ == ds@.take(i as int),
        decreases n - 3 - i,
    {
        head.push(ds[i]);
        i = i + 1;
        proof {
            assert(head@ =~= ds@.take(i as int));
        }
    }
    let mut r = group_chars(&head);
    r.push(',');
    let mut j: usize = n - 3;
    while j < n
        invariant
            n - 3 <= j <= n,
            3 < n == ds@.len(),
            head@ == ds@.take(n - 3),
            r@ == group_digits(ds@.take(n - 3)) + seq![','] + ds@.subrange(n - 3, j as int),
        decreases n - j,
    {
        r.push(ds[j]);
        j = j + 1;
        proof {
            assert(r@ =~= group_digits(ds@.take(n - 3)) + seq![','] + ds@.subrange(
                n - 3,
                j as int,
            ));
        }
    }
    proof {
        assert(ds@.subrange(n - 3, n as int) =~= ds@.skip(n - 3));
    }
    r
}

/// Format an integer with thousands separators: 1234567 becomes
/// "1,234,567".  The one value whose magnitude does not fit, `i64::MIN`,
/// is excluded.
pub fn fmt_number(n: i64) -> (r: String)
    requires
        n != i64::MIN,
    ensures
        r@ == spec_fmt_number(n as int),
{
    if n < 0 {
        let mag = (-n) as u64;
        let ds = u64_to_chars(mag);
        let grouped = group_chars(&ds);
        let mut out: Vec<char> = Vec::new();
        out.push('-');
        let mut i: usize = 0;
        while i < grouped.len()
            invariant
                i <= grouped@.len(),
                out@ == seq!['-'] + grouped@.take(i as int),
            decreases grouped@.len() - i,
        {
            out.push(grouped[i]);
            i = i + 1;
            proof {
                assert(out@ =~= seq!['-'] + grouped@.take(i as int));
            }
        }
        proof {
            assert(grouped@.take(grouped@.len() as int) =~= grouped@);
        }
        string_from_chars(&out)
    } else {
        let ds = u64_to_chars(n as u64);
        let grouped = group_chars(&ds);
        string_from_chars(&grouped)
    }
}

} // verus!
