//! Calendar dates and their text form in changelog headings.

use vstd::prelude::*;
use vstd::string::StrSliceExecFns;

verus! {

/// A calendar date.
#[derive(Debug, Clone, Copy, PartialEq, Eq, Structural)]
pub struct Date {
    pub year: i32,
    pub month: u32,
    pub day: u32,
}

impl Date {
    /// Month and day lie in their calendar ranges.
    pub open spec fn wf(self) -> bool {
        1 <= self.month <= 12 && 1 <= self.day <= 31
    }
}

/// Relies on `chrono::Utc::now` and the `chrono::Datelike` accessors
/// `year`, `month` and `day`: the month lies in `1..=12` and the day in
/// `1..=31`, as their documentation states.  Nothing more is promised
/// of the clock.
#[verifier::external_body]
fn now_ymd() -> (r: (i32, u32, u32))
    ensures
        1 <= r.1 <= 12,
        1 <= r.2 <= 31,
{
    let now = chrono::Utc::now();
    (chrono::Datelike::year(&now), chrono::Datelike::month(&now), chrono::Datelike::day(&now))
}

/// Today's date by the system clock.
pub fn current_date() -> (r: Date)
    ensures
        r.wf(),
{
    let (year, month, day) = now_ymd();
    Date { year, month, day }
}

/// The character of one decimal digit.
pub open spec fn digit_char_of(n: int) -> char {
    ((48 + n) as u8) as char
}

/// The decimal digits of `n`, most significant first.
pub open spec fn dec_digits(n: int) -> Seq<char>
    decreases n,
{
    if n < 10 {
        seq![digit_char_of(n)]
    } else {
        dec_digits(n / 10).push(digit_char_of(n % 10))
    }
}

/// The decimal digits of `n`, left-padded with zeros to width `w`.
pub open spec fn zero_pad(n: int, w: int) -> Seq<char> {
    if dec_digits(n).len() >= w {
        dec_digits(n)
    } else {
        Seq::new((w - dec_digits(n).len()) as nat, |i: int| '0') + dec_digits(n)
    }
}

/// Render `n` in decimal.
fn dec_u64(n: u64) -> (r: String)
    ensures
        r@ == dec_digits(n as int),
    decreases n,
{
    if n < 10 {
        let mut s = String::new();
        s.push((48 + (n % 10) as u8) as char);
        proof {
            assert(s@ =~= seq![digit_char_of(n as int)]);
        }
        s
    } else {
        let mut s = dec_u64(n / 10);
        s.push((48 + (n % 10) as u8) as char);
        s
    }
}

/// Render `n` in decimal, left-padded with zeros to width `w`.
fn zero_padded_u64(n: u64, w: usize) -> (r: String)
    ensures
        r@ == zero_pad(n as int, w as int),
{
    let d = dec_u64(n);
    let len = d.as_str().unicode_len();
    if len >= w {
        return d;
    }
    let mut s = String::new();
    let mut k: usize = 0;
    while k < w - len
        invariant
            0 <= k <= w - len,
            len < w,
            s@ =~= Seq::new(k as nat, |i: int| '0'),
        decreases w - len - k,
    {
        s.push('0');
        proof {
            assert(s@ =~= Seq::new((k + 1) as nat, |i: int| '0'));
        }
        k += 1;
    }
    s.append(d.as_str());
    proof {
        assert(s@ =~= Seq::new((w - len) as nat, |i: int| '0') + d@);
    }
    s
}

/// The date text of a heading: the year to four digits, month and day
/// to two, joined with dashes; a year before the common era keeps its
/// sign.
pub open spec fn date_text(d: Date) -> Seq<char> {
    let y = if d.year < 0 {
        seq!['-'] + zero_pad(-(d.year as int), 4)
    } else {
        zero_pad(d.year as int, 4)
    };
    y + "-"@ + zero_pad(d.month as int, 2) + "-"@ + zero_pad(d.day as int, 2)
}

/// Render a date as a heading carries it.
pub fn format_date(d: &Date) -> (r: String)
    ensures
        r@ == date_text(*d),
{
    let mut s = String::new();
    if d.year < 0 {
        s.push('-');
        let y = (-(d.year as i64)) as u64;
        let t = zero_padded_u64(y, 4);
        s.append(t.as_str());
        proof {
            assert(s@ =~= seq!['-'] + zero_pad(-(d.year as int), 4));
        }
    } else {
        let t = zero_padded_u64(d.year as u64, 4);
        s.append(t.as_str());
    }
    s.append("-");
    let m = zero_padded_u64(d.month as u64, 2);
    s.append(m.as_str());
    s.append("-");
    let dd = zero_padded_u64(d.day as u64, 2);
    s.append(dd.as_str());
    s
}

} // verus!
