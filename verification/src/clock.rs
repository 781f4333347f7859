//! Timestamps: the civil date and time of day, in UTC, of a count of seconds
//! since the start of 1970, written as `YYYY-MM-DDTHH:MM:SSZ`.

use vstd::prelude::*;

verus! {

/// The seconds in a day.
pub const SECONDS_PER_DAY: u64 = 86400;

/// Whether the year has a twenty-ninth of February.
pub open spec fn leap_year(y: int) -> bool {
    (y % 4 == 0 && y % 100 != 0) || y % 400 == 0
}

/// The days of a year.
pub open spec fn days_in_year(y: int) -> int {
    if leap_year(y) {
        366
    } else {
        365
    }
}

/// The days of a month of a year; months count from one.
pub open spec fn days_in_month(y: int, m: int) -> int {
    if m == 2 {
        if leap_year(y) {
            29
        } else {
            28
        }
    } else if m == 4 || m == 6 || m == 9 || m == 11 {
        30
    } else {
        31
    }
}

/// The days from the start of 1970 to the start of a year.
pub open spec fn days_before_year(y: int) -> int
    decreases y - 1970,
{
    if y <= 1970 {
        0
    } else {
        days_before_year(y - 1) + days_in_year(y - 1)
    }
}

/// The days from the start of a year to the start of one of its months.
pub open spec fn days_before_month(y: int, m: int) -> int
    decreases m,
{
    if m <= 1 {
        0
    } else {
        days_before_month(y, m - 1) + days_in_month(y, m - 1)
    }
}

/// The character of a decimal digit.
pub open spec fn digit_char(d: int) -> char {
    if d == 0 {
        '0'
    } else if d == 1 {
        '1'
    } else if d == 2 {
        '2'
    } else if d == 3 {
        '3'
    } else if d == 4 {
        '4'
    } else if d == 5 {
        '5'
    } else if d == 6 {
        '6'
    } else if d == 7 {
        '7'
    } else if d == 8 {
        '8'
    } else {
        '9'
    }
}

/// The decimal digits of a number, without leading zeros.
pub open spec fn decimal(n: nat) -> Seq<char>
    decreases n,
{
    if n < 10 {
        seq![digit_char(n as int)]
    } else {
        decimal(n / 10).push(digit_char((n % 10) as int))
    }
}

/// The decimal digits of a number, with zeros in front up to a width.
pub open spec fn padded(n: nat, width: nat) -> Seq<char>
    decreases width,
{
    if decimal(n).len() >= width {
        decimal(n)
    } else {
        seq!['0'] + padded(n, (width - 1) as nat)
    }
}

/// A date and a time of day.
#[derive(Clone, Copy, Debug, PartialEq, Eq, Structural)]
pub struct CivilTime {
    pub year: u64,
    pub month: u8,
    pub day: u8,
    pub hour: u8,
    pub minute: u8,
    pub second: u8,
}

impl CivilTime {
    /// Whether the fields name a moment of the calendar, from 1970 on.
    pub open spec fn valid(self) -> bool {
        &&& self.year >= 1970
        &&& 1 <= self.month <= 12
        &&& 1 <= self.day <= days_in_month(self.year as int, self.month as int)
        &&& self.hour < 24
        &&& self.minute < 60
        &&& self.second < 60
    }

    /// The days from the start of 1970 to the date.
    pub open spec fn unix_days(self) -> int {
        days_before_year(self.year as int) + days_before_month(
            self.year as int,
            self.month as int,
        ) + self.day - 1
    }

    /// The seconds from the start of 1970 to the moment.
    pub open spec fn unix_seconds(self) -> int {
        self.unix_days() * 86400 + self.hour * 3600 + self.minute * 60 + self.second
    }

    /// The moment written as `YYYY-MM-DDTHH:MM:SSZ`: the year with at least
    /// four digits, every other field with at least two.
    pub open spec fn text(self) -> Seq<char> {
        padded(self.year as nat, 4) + seq!['-'] + padded(self.month as nat, 2) + seq!['-']
            + padded(self.day as nat, 2) + seq!['T'] + padded(self.hour as nat, 2) + seq![':']
            + padded(self.minute as nat, 2) + seq![':'] + padded(self.second as nat, 2)
            + seq!['Z']
    }
}

/// The moment at a count of seconds since the start of 1970.
pub open spec fn civil_at(secs: nat) -> CivilTime {
    choose|t: CivilTime| t.valid() && t.unix_seconds() == secs
}

/// The start of a later year lies at least the days of the earlier year
/// after the start of the earlier one.
pub proof fn lemma_years_ascend(a: int, b: int)
    requires
        1970 <= a < b,
    ensures
        days_before_year(a) + days_in_year(a) <= days_before_year(b),
    decreases b - a,
{
    if a + 1 < b {
        lemma_years_ascend(a, b - 1);
    }
}

/// The start of a later month lies at least the days of the earlier month
/// after the start of the earlier one, and every month ends within its year.
pub proof fn lemma_months_ascend(y: int, a: int, b: int)
    requires
        1 <= a < b <= 13,
    ensures
        days_before_month(y, a) + days_in_month(y, a) <= days_before_month(y, b),
        days_before_month(y, 13) == days_in_year(y),
        0 <= days_before_month(y, a),
    decreases b - a,
{
    reveal_with_fuel(days_before_month, 14);
    if a + 1 < b {
        lemma_months_ascend(y, a, b - 1);
    }
}

/// Two moments of the calendar that lie the same count of seconds after the
/// start of 1970 are the same moment.
pub proof fn lemma_civil_unique(a: CivilTime, b: CivilTime)
    requires
        a.valid(),
        b.valid(),
        a.unix_seconds() == b.unix_seconds(),
    ensures
        a == b,
{
    let ta = a.hour * 3600 + a.minute * 60 + a.second;
    let tb = b.hour * 3600 + b.minute * 60 + b.second;
    assert(0 <= ta < 86400 && 0 <= tb < 86400);
    assert(a.unix_days() == b.unix_days() && ta == tb);
    assert(a.hour == b.hour && a.minute == b.minute && a.second == b.second);
    lemma_months_ascend(a.year as int, a.month as int, 13);
    lemma_months_ascend(b.year as int, b.month as int, 13);
    if a.year < b.year {
        lemma_years_ascend(a.year as int, b.year as int);
    }
    if b.year < a.year {
        lemma_years_ascend(b.year as int, a.year as int);
    }
    assert(a.year == b.year);
    if a.month < b.month {
        lemma_months_ascend(a.year as int, a.month as int, b.month as int);
    }
    if b.month < a.month {
        lemma_months_ascend(a.year as int, b.month as int, a.month as int);
    }
    assert(a.month == b.month);
}

/// Whether the text is the timestamp of some moment of the calendar.
pub open spec fn is_timestamp(s: Seq<char>) -> bool {
    exists|t: CivilTime| t.valid() && s == t.text()
}

/// Whether the year has a twenty-ninth of February.
pub fn is_leap(y: i64) -> (r: bool)
    ensures
        r == leap_year(y as int),
{
    (y % 4 == 0 && y % 100 != 0) || y % 400 == 0
}

/// The days of a month of a year; months count from one.
pub fn month_length(y: i64, m: u8) -> (r: u8)
    ensures
        r == days_in_month(y as int, m as int),
{
    if m == 2 {
        if is_leap(y) {
            29
        } else {
            28
        }
    } else if m == 4 || m == 6 || m == 9 || m == 11 {
        30
    } else {
        31
    }
}

/// The date and time of day at a count of seconds since the start of 1970.
pub fn civil_from_unix(secs: u64) -> (t: CivilTime)
    ensures
        t.valid(),
        t.unix_seconds() == secs,
{
    let days: u64 = secs / SECONDS_PER_DAY;
    let rem: u64 = secs % SECONDS_PER_DAY;
    let hour: u64 = rem / 3600;
    let minute: u64 = (rem % 3600) / 60;
    let second: u64 = rem % 60;
    let mut y: i64 = 1970;
    let mut left: u64 = days;
    loop
        invariant
            1970 <= y,
            y - 1970 <= days - left,
            left <= days,
            days <= u64::MAX / 86400,
            days == days_before_year(y as int) + left,
        ensures
            left < days_in_year(y as int),
        decreases left,
    {
        let length: u64 = if is_leap(y) {
            366
        } else {
            365
        };
        if left < length {
            break ;
        }
        left -= length;
        y += 1;
    }
    let ghost in_year = left;
    let mut m: u8 = 1;
    proof {
        reveal_with_fuel(days_before_month, 14);
        assert(days_before_month(y as int, 13) == days_in_year(y as int));
    }
    loop
        invariant
            1 <= m <= 12,
            in_year == days_before_month(y as int, m as int) + left,
            in_year < days_in_year(y as int),
            days_before_month(y as int, 13) == days_in_year(y as int),
        ensures
            left < days_in_month(y as int, m as int),
        decreases 12 - m,
    {
        let length: u8 = month_length(y, m);
        if left < length as u64 {
            break ;
        }
        left -= length as u64;
        m += 1;
    }
    CivilTime {
        year: y as u64,
        month: m,
        day: (left + 1) as u8,
        hour: hour as u8,
        minute: minute as u8,
        second: second as u8,
    }
}

/// The text of one decimal digit.
pub fn digit_text(d: u8) -> (r: &'static str)
    requires
        d < 10,
    ensures
        r@ == seq![digit_char(d as int)],
{
    proof {
        reveal_strlit("0");
        reveal_strlit("1");
        reveal_strlit("2");
        reveal_strlit("3");
        reveal_strlit("4");
        reveal_strlit("5");
        reveal_strlit("6");
        reveal_strlit("7");
        reveal_strlit("8");
        reveal_strlit("9");
    }
    let r = if d == 0 {
        "0"
    } else if d == 1 {
        "1"
    } else if d == 2 {
        "2"
    } else if d == 3 {
        "3"
    } else if d == 4 {
        "4"
    } else if d == 5 {
        "5"
    } else if d == 6 {
        "6"
    } else if d == 7 {
        "7"
    } else if d == 8 {
        "8"
    } else {
        "9"
    };
    assert(r@ =~= seq![digit_char(d as int)]);
    r
}

/// Appends the decimal digits of a number.
pub fn push_decimal(out: &mut String, n: u64)
    ensures
        final(out)@ == old(out)@ + decimal(n as nat),
    decreases n,
{
    if n >= 10 {
        push_decimal(out, n / 10);
    }
    out.append(digit_text((n % 10) as u8));
    assert(out@ =~= old(out)@ + decimal(n as nat));
}

/// The number of decimal digits of a number.
pub fn decimal_width(n: u64) -> (w: usize)
    ensures
        w == decimal(n as nat).len(),
        1 <= w <= 20,
    decreases n,
{
    if n >= 10 {
        proof {
            if decimal((n / 10) as nat).len() >= 20 {
                lemma_twenty_digits(n / 10);
            }
        }
        decimal_width(n / 10) + 1
    } else {
        1
    }
}

/// A number written with twenty digits or more is at least ten to the
/// power of nineteen.
proof fn lemma_twenty_digits(n: u64)
    requires
        decimal(n as nat).len() >= 20,
    ensures
        n >= 10_000_000_000_000_000_000u64,
{
    reveal_with_fuel(decimal, 21);
}

/// Appends the decimal digits of a number, with zeros in front up to a
/// width.
pub fn push_padded(out: &mut String, n: u64, width: usize)
    ensures
        final(out)@ == old(out)@ + padded(n as nat, width as nat),
{
    let digits = decimal_width(n);
    let mut w: usize = width;
    let ghost start = out@;
    let ghost mut zeros: Seq<char> = Seq::empty();
    while w > digits
        invariant
            digits == decimal(n as nat).len(),
            w <= width,
            out@ == start + zeros,
            zeros + padded(n as nat, w as nat) == padded(n as nat, width as nat),
        decreases w,
    {
        proof {
            reveal_strlit("0");
            assert("0"@ =~= seq!['0']);
            assert(padded(n as nat, w as nat) == seq!['0'] + padded(n as nat, (w - 1) as nat));
            assert((zeros + seq!['0']) + padded(n as nat, (w - 1) as nat) =~= zeros + padded(
                n as nat,
                w as nat,
            ));
            zeros = zeros + seq!['0'];
        }
        out.append("0");
        assert(out@ =~= start + zeros);
        w -= 1;
    }
    assert(padded(n as nat, w as nat) == decimal(n as nat));
    push_decimal(out, n);
    assert(out@ =~= start + padded(n as nat, width as nat));
}

impl CivilTime {
    /// The moment written as `YYYY-MM-DDTHH:MM:SSZ`.
    pub fn to_text(&self) -> (r: String)
        ensures
            r@ == self.text(),
    {
        proof {
            reveal_strlit("-");
            reveal_strlit("T");
            reveal_strlit(":");
            reveal_strlit("Z");
            assert("-"@ =~= seq!['-']);
            assert("T"@ =~= seq!['T']);
            assert(":"@ =~= seq![':']);
            assert("Z"@ =~= seq!['Z']);
        }
        let mut out = String::new();
        push_padded(&mut out, self.year, 4);
        out.append("-");
        push_padded(&mut out, self.month as u64, 2);
        out.append("-");
        push_padded(&mut out, self.day as u64, 2);
        out.append("T");
        push_padded(&mut out, self.hour as u64, 2);
        out.append(":");
        push_padded(&mut out, self.minute as u64, 2);
        out.append(":");
        push_padded(&mut out, self.second as u64, 2);
        out.append("Z");
        assert(out@ =~= self.text());
        out
    }
}

/// Reads the clock through `chrono::Utc::now` and returns what
/// `DateTime::timestamp` makes of it: the whole seconds since the start of
/// 1970. The one claim is that the count is not negative: `now` builds the
/// moment from the time elapsed since the start of 1970, and stops the
/// program where the clock stands before that.
#[verifier::external_body]
fn unix_now() -> (secs: i64)
    ensures
        secs >= 0,
{
    chrono::Utc::now().timestamp()
}

/// The timestamp of a count of seconds since the start of 1970.
pub fn timestamp_at(secs: u64) -> (r: String)
    ensures
        r@ == civil_at(secs as nat).text(),
        is_timestamp(r@),
{
    let t = civil_from_unix(secs);
    proof {
        lemma_civil_unique(t, civil_at(secs as nat));
    }
    t.to_text()
}

/// The timestamp of the present moment, as the clock of the machine has it.
pub fn chrono_now() -> (r: String)
    ensures
        is_timestamp(r@),
{
    let secs = unix_now();
    timestamp_at(secs as u64)
}

} // verus!
