//! Calendar dates written as `YYYY-MM-DD`.

use vstd::prelude::*;

verus! {

/// A calendar date without a time of day.
#[derive(Clone, Copy, Debug, PartialEq, Eq, Structural)]
pub struct Date {
    pub year: u16,
    pub month: u8,
    pub day: u8,
}

pub open spec fn is_leap(y: int) -> bool {
    (y % 4 == 0 && y % 100 != 0) || y % 400 == 0
}

pub open spec fn days_in_month(y: int, m: int) -> int {
    if m == 2 {
        if is_leap(y) {
            29
        } else {
            28
        }
    } else if m == 4 || m == 6 || m == 9 || m == 11 {
        30
    } else {
        31
    }
}

impl Date {
    /// A real day of the Gregorian calendar, with a four-digit year.
    pub open spec fn wf(self) -> bool {
        &&& self.year <= 9999
        &&& 1 <= self.month <= 12
        &&& 1 <= self.day <= days_in_month(self.year as int, self.month as int)
    }

    /// Chronological order.
    pub open spec fn before(self, other: Date) -> bool {
        ||| self.year < other.year
        ||| (self.year == other.year && self.month < other.month)
        ||| (self.year == other.year && self.month == other.month && self.day < other.day)
    }

    /// Whether `self` comes strictly before `other` in time.
    pub fn is_before(&self, other: &Date) -> (r: bool)
        ensures
            r == self.before(*other),
    {
        self.year < other.year || (self.year == other.year && self.month < other.month) || (
        self.year == other.year && self.month == other.month && self.day < other.day)
    }
}

pub open spec fn is_digit(c: char) -> bool {
    '0' <= c && c <= '9'
}

pub open spec fn digit_value(c: char) -> int {
    c as int - '0' as int
}

/// The number written by the decimal digits `s[from..to]`.
pub open spec fn number_at(s: Seq<char>, from: int, to: int) -> int
    decreases to - from,
{
    if to <= from {
        0
    } else {
        number_at(s, from, to - 1) * 10 + digit_value(s[to - 1])
    }
}

pub open spec fn all_digits(s: Seq<char>, from: int, to: int) -> bool {
    forall|k: int| from <= k < to ==> is_digit(#[trigger] s[k])
}

/// The date that `s` writes as `YYYY-MM-DD`, if it is a real one.
pub open spec fn date_of(s: Seq<char>) -> Option<Date> {
    if s.len() == 10 && all_digits(s, 0, 4) && s[4] == '-' && all_digits(s, 5, 7) && s[7] == '-'
        && all_digits(s, 8, 10) {
        let y = number_at(s, 0, 4);
        let m = number_at(s, 5, 7);
        let d = number_at(s, 8, 10);
        if 1 <= m <= 12 && 1 <= d <= days_in_month(y, m) {
            Some(Date { year: y as u16, month: m as u8, day: d as u8 })
        } else {
            None
        }
    } else {
        None
    }
}

proof fn lemma_number_bound(s: Seq<char>, from: int, to: int)
    requires
        from <= to,
        all_digits(s, from, to),
    ensures
        0 <= number_at(s, from, to),
        to - from <= 4 ==> number_at(s, from, to) <= 9999,
        to - from <= 3 ==> number_at(s, from, to) <= 999,
        to - from <= 2 ==> number_at(s, from, to) <= 99,
        to - from <= 1 ==> number_at(s, from, to) <= 9,
    decreases to - from,
{
    if from < to {
        lemma_number_bound(s, from, to - 1);
        assert(is_digit(s[to - 1]));
    }
}

/// Reads the digits `cs[from..to]` as a decimal number.
fn read_number(cs: &Vec<char>, from: usize, to: usize) -> (r: u16)
    requires
        from <= to <= cs@.len(),
        to - from <= 4,
        all_digits(cs@, from as int, to as int),
    ensures
        r as int == number_at(cs@, from as int, to as int),
{
    let mut acc: u16 = 0;
    let mut k: usize = from;
    while k < to
        invariant
            from <= k <= to <= cs@.len(),
            to - from <= 4,
            all_digits(cs@, from as int, to as int),
            acc as int == number_at(cs@, from as int, k as int),
        decreases to - k,
    {
        proof {
            lemma_number_bound(cs@, from as int, k + 1);
        }
        acc = acc * 10 + (cs[k] as u32 - '0' as u32) as u16;
        k = k + 1;
    }
    acc
}

/// Whether `cs[from..to]` are all decimal digits.
fn digits_in(cs: &Vec<char>, from: usize, to: usize) -> (r: bool)
    requires
        from <= to <= cs@.len(),
    ensures
        r == all_digits(cs@, from as int, to as int),
{
    let mut k: usize = from;
    while k < to
        invariant
            from <= k <= to <= cs@.len(),
            all_digits(cs@, from as int, k as int),
        decreases to - k,
    {
        if !('0' <= cs[k] && cs[k] <= '9') {
            return false;
        }
        k = k + 1;
    }
    true
}

/// Parses a date written as `YYYY-MM-DD`; `None` when the text is not a
/// real calendar day in that form.
pub fn parse_date(s: &str) -> (r: Option<Date>)
    ensures
        r == date_of(s@),
        r matches Some(d) ==> d.wf(),
{
    let cs = crate::text::chars_of(s);
    if cs.len() != 10 {
        return None;
    }
    if !(digits_in(&cs, 0, 4) && cs[4] == '-' && digits_in(&cs, 5, 7) && cs[7] == '-'
        && digits_in(&cs, 8, 10)) {
        return None;
    }
    let y = read_number(&cs, 0, 4);
    let m = read_number(&cs, 5, 7);
    let d = read_number(&cs, 8, 10);
    proof {
        lemma_number_bound(cs@, 0, 4);
    }
    let leap = (y % 4 == 0 && y % 100 != 0) || y % 400 == 0;
    let dim: u16 = if m == 2 {
        if leap {
            29
        } else {
            28
        }
    } else if m == 4 || m == 6 || m == 9 || m == 11 {
        30
    } else {
        31
    };
    if 1 <= m && m <= 12 && 1 <= d && d <= dim {
        Some(Date { year: y, month: m as u8, day: d as u8 })
    } else {
        None
    }
}

} // verus!
