//! Instants and calendar days as plain integers.
//!
//! An instant is a count of whole seconds since the Unix epoch together with
//! a fixed UTC offset; a date is a count of whole days since the epoch.
//! Instants compare by their UTC second count alone; the offset only matters
//! when projecting an instant onto its local calendar day.

use vstd::arithmetic::div_mod::{
    lemma_fundamental_div_mod, lemma_hoist_over_denominator, lemma_mod_bound,
    lemma_mod_multiples_vanish,
};
use vstd::prelude::*;

verus! {

/// Seconds in one day.
pub const SECS_PER_DAY: i64 = 86400;

/// Largest magnitude, in seconds since the epoch, of an instant the library
/// computes with. Generous enough for any civil timestamp, small enough that
/// all timeline arithmetic stays far away from `i64` overflow.
pub const MAX_ABS_SECS: i64 = 8_000_000_000_000;

/// Largest magnitude, in days since the epoch, of a calendar day the library
/// computes with. Consistent with `MAX_ABS_SECS`.
pub const MAX_ABS_DAY: i64 = 90_000_000;

/// Largest estimated duration, in minutes, a task may carry into planning.
pub const MAX_DURATION_MIN: i64 = 1_000_000_000;

/// Shift, in days, used to make local second counts non-negative before
/// dividing by the day length.
const DAY_SHIFT: i64 = 100_000_000;

/// A point in time: whole seconds since the Unix epoch, plus the fixed UTC
/// offset (in seconds) in which its wall-clock reading is to be interpreted.
#[derive(Clone, Copy, PartialEq, Eq, Structural, Debug)]
pub struct Instant {
    pub utc_secs: i64,
    pub offset_secs: i32,
}

/// A calendar day: whole days since the Unix epoch (1970-01-01 is day 0).
#[derive(Clone, Copy, PartialEq, Eq, Structural, Debug)]
pub struct Date {
    pub day: i64,
}

/// A fixed UTC offset is strictly less than one day in magnitude.
pub open spec fn valid_offset(offset_secs: int) -> bool {
    -86400 < offset_secs < 86400
}

impl Instant {
    /// The instant is within the range the library computes with.
    pub open spec fn valid(self) -> bool {
        &&& -MAX_ABS_SECS <= self.utc_secs <= MAX_ABS_SECS
        &&& valid_offset(self.offset_secs as int)
    }

    /// The calendar day (days since the epoch) this instant falls on when
    /// read in its own offset: the floor of local seconds over the day length.
    pub open spec fn local_day_spec(self) -> int {
        (self.utc_secs + self.offset_secs) / (SECS_PER_DAY as int)
    }

    /// Compute the local calendar day of this instant.
    pub fn local_day(self) -> (d: i64)
        requires
            self.valid(),
        ensures
            d == self.local_day_spec(),
    {
        let local: i64 = self.utc_secs + self.offset_secs as i64;
        let shifted: i64 = local + DAY_SHIFT * SECS_PER_DAY;
        let q: i64 = (shifted as u64 / SECS_PER_DAY as u64) as i64;
        proof {
            lemma_hoist_over_denominator(
                local as int,
                DAY_SHIFT as int,
                SECS_PER_DAY as nat,
            );
        }
        q - DAY_SHIFT
    }
}

/// Largest magnitude of a calendar year the library converts to a day
/// count. Consistent with `MAX_ABS_DAY`.
pub const MAX_ABS_YEAR: i64 = 200_000;

/// `year` is a leap year of the proleptic Gregorian calendar.
pub open spec fn is_leap_year_spec(year: int) -> bool {
    year % 4 == 0 && (year % 100 != 0 || year % 400 == 0)
}

/// How many days the given month of the given year has.
pub open spec fn days_in_month_spec(year: int, month: int) -> int {
    if month == 2 {
        if is_leap_year_spec(year) {
            29
        } else {
            28
        }
    } else if month == 4 || month == 6 || month == 9 || month == 11 {
        30
    } else {
        31
    }
}

/// Days since the epoch of the civil date `year-month-day` in the proleptic
/// Gregorian calendar, counted over 400-year eras of 146097 days each, with
/// the year taken to begin in March so that a leap day falls at the end.
pub open spec fn days_from_civil_spec(year: int, month: int, day: int) -> int {
    let shifted_year = if month <= 2 {
        year - 1
    } else {
        year
    };
    let era = shifted_year / 400;
    let year_of_era = shifted_year - era * 400;
    let shifted_month = if month > 2 {
        month - 3
    } else {
        month + 9
    };
    let day_of_year = (153 * shifted_month + 2) / 5 + day - 1;
    let day_of_era = year_of_era * 365 + year_of_era / 4 - year_of_era / 100 + day_of_year;
    era * 146097 + day_of_era - 719468
}

/// Decide whether `year` is a leap year.
pub fn is_leap_year(year: i64) -> (leap: bool)
    requires
        -MAX_ABS_YEAR <= year <= MAX_ABS_YEAR,
    ensures
        leap == is_leap_year_spec(year as int),
{
    let shifted: u64 = (year + 2_000_000) as u64;
    proof {
        lemma_mod_multiples_vanish(500_000int, year as int, 4);
        lemma_mod_multiples_vanish(20_000int, year as int, 100);
        lemma_mod_multiples_vanish(5_000int, year as int, 400);
    }
    shifted % 4 == 0 && (shifted % 100 != 0 || shifted % 400 == 0)
}

/// How many days the given month has.
pub fn days_in_month(year: i64, month: u8) -> (days: u8)
    requires
        -MAX_ABS_YEAR <= year <= MAX_ABS_YEAR,
        1 <= month <= 12,
    ensures
        days == days_in_month_spec(year as int, month as int),
{
    if month == 2 {
        if is_leap_year(year) {
            29
        } else {
            28
        }
    } else if month == 4 || month == 6 || month == 9 || month == 11 {
        30
    } else {
        31
    }
}

impl Date {
    /// The day is within the range the library computes with.
    pub open spec fn valid(self) -> bool {
        -MAX_ABS_DAY <= self.day <= MAX_ABS_DAY
    }

    /// The calendar day `year-month-day`, or nothing when month and day do
    /// not name a date of that year.
    pub fn from_ymd(year: i64, month: u8, day: u8) -> (date: Option<Date>)
        requires
            -MAX_ABS_YEAR <= year <= MAX_ABS_YEAR,
        ensures
            (date is Some) == (1 <= month <= 12 && 1 <= day as int <= days_in_month_spec(
                year as int,
                month as int,
            )),
            date matches Some(d) ==> {
                &&& d.day == days_from_civil_spec(year as int, month as int, day as int)
                &&& d.valid()
            },
    {
        if month < 1 || month > 12 {
            return Option::None;
        }
        if day < 1 || day > days_in_month(year, month) {
            return Option::None;
        }
        let shifted_year: i64 = if month <= 2 {
            year - 1
        } else {
            year
        };
        let era: i64 = (((shifted_year + 400_000) as u64) / 400) as i64 - 1_000;
        proof {
            lemma_hoist_over_denominator(shifted_year as int, 1_000int, 400nat);
            lemma_fundamental_div_mod(shifted_year as int, 400);
            lemma_mod_bound(shifted_year as int, 400);
        }
        let year_of_era: i64 = shifted_year - era * 400;
        let shifted_month: i64 = if month > 2 {
            month as i64 - 3
        } else {
            month as i64 + 9
        };
        proof {
            lemma_fundamental_div_mod(153 * shifted_month + 2, 5);
            lemma_mod_bound(153 * shifted_month + 2, 5);
            lemma_fundamental_div_mod(year_of_era as int, 4);
            lemma_mod_bound(year_of_era as int, 4);
            lemma_fundamental_div_mod(year_of_era as int, 100);
            lemma_mod_bound(year_of_era as int, 100);
        }
        let day_of_year: i64 = (((153 * shifted_month + 2) as u64) / 5) as i64 + day as i64 - 1;
        let day_of_era: i64 = year_of_era * 365 + ((year_of_era as u64) / 4) as i64 - ((
        year_of_era as u64) / 100) as i64 + day_of_year;
        Option::Some(Date { day: era * 146097 + day_of_era - 719468 })
    }
}

/// `c` is an ASCII decimal digit.
pub open spec fn is_digit_char(c: char) -> bool {
    48 <= c as u32 <= 57
}

/// The numeric value of one ASCII decimal digit.
pub open spec fn digit_val(c: char) -> int {
    c as u32 - 48
}

/// The numeric value of a sequence of ASCII decimal digits, most significant
/// first.
pub open spec fn digits_val(s: Seq<char>) -> int
    decreases s.len(),
{
    if s.len() == 0 {
        0
    } else {
        digits_val(s.drop_last()) * 10 + digit_val(s.last())
    }
}

/// Every character of `s` is an ASCII decimal digit.
pub open spec fn all_digits(s: Seq<char>) -> bool {
    forall|i: int| 0 <= i < s.len() ==> is_digit_char(s[i])
}

/// A digit sequence's value never falls below the value of any of its
/// prefixes.
proof fn lemma_digits_val_prefix(s: Seq<char>, n: int)
    requires
        all_digits(s),
        0 <= n <= s.len(),
    ensures
        0 <= digits_val(s.take(n)) <= digits_val(s),
    decreases s.len(),
{
    if s.len() == 0 {
    } else {
        let front = s.drop_last();
        assert(all_digits(front));
        lemma_digits_val_prefix(front, if n <= front.len() { n } else { front.len() as int });
        if n <= front.len() {
            assert(front.take(n) =~= s.take(n));
        } else {
            assert(s.take(n) =~= s);
            assert(front.take(front.len() as int) =~= front);
        }
    }
}

/// The digits a numeral consists of: an optional leading plus sign is not
/// part of them.
pub open spec fn numeral_digits(s: Seq<char>) -> Seq<char> {
    if s.len() > 0 && s[0] == '+' {
        s.skip(1)
    } else {
        s
    }
}

/// The value an unsigned 32-bit decimal numeral denotes: at least one digit
/// after an optional `+`, all characters digits, value within `u32` range.
/// This is the grammar `u32::from_str` accepts.
pub open spec fn parse_u32_spec(s: Seq<char>) -> Option<int> {
    let digits = numeral_digits(s);
    if digits.len() > 0 && all_digits(digits) && digits_val(digits) <= u32::MAX {
        Option::Some(digits_val(digits))
    } else {
        Option::None
    }
}

/// Parse an unsigned 32-bit decimal numeral.
fn parse_u32_field(s: &str) -> (parsed: Option<u32>)
    ensures
        (parsed is None) <==> (parse_u32_spec(s@) is None),
        parsed matches Some(v) ==> parse_u32_spec(s@) == Option::Some(v as int),
{
    let n = s.unicode_len();
    let mut start: usize = 0;
    if n > 0 && s.get_char(0) == '+' {
        start = 1;
    }
    let ghost digits = numeral_digits(s@);
    proof {
        if start == 0 {
            assert(digits =~= s@.skip(0));
        }
    }
    if start >= n {
        return Option::None;
    }
    let mut acc: u64 = 0;
    let mut i: usize = start;
    proof {
        assert(digits.take(0) =~= Seq::<char>::empty());
    }
    while i < n
        invariant
            digits == numeral_digits(s@),
            digits =~= s@.skip(start as int),
            n == s@.len(),
            start <= i <= n,
            start <= 1,
            all_digits(digits.take(i - start)),
            acc == digits_val(digits.take(i - start)),
            acc <= u32::MAX,
        decreases n - i,
    {
        let c = s.get_char(i);
        let cv = c as u32;
        if cv < 48 || cv > 57 {
            proof {
                assert(digits[i - start] == s@[i as int]);
                assert(!all_digits(digits));
            }
            return Option::None;
        }
        let acc2: u64 = acc * 10 + (cv - 48) as u64;
        proof {
            assert(digits.take(i - start + 1).drop_last() =~= digits.take(i - start));
            assert(digits.take(i - start + 1).last() == digits[i - start]);
        }
        if acc2 > u32::MAX as u64 {
            proof {
                if all_digits(digits) && digits_val(digits) <= u32::MAX {
                    lemma_digits_val_prefix(digits, i - start + 1);
                }
            }
            return Option::None;
        }
        acc = acc2;
        i = i + 1;
    }
    proof {
        assert(digits.take(n - start) =~= digits);
    }
    Option::Some(acc as u32)
}

/// How many times `c` occurs in `s`.
pub open spec fn count_char(s: Seq<char>, c: char) -> int
    decreases s.len(),
{
    if s.len() == 0 {
        0
    } else {
        count_char(s.drop_last(), c) + if s.last() == c {
            1int
        } else {
            0int
        }
    }
}

/// A count of occurrences is never negative.
proof fn lemma_count_char_nonneg(s: Seq<char>, c: char)
    ensures
        count_char(s, c) >= 0,
    decreases s.len(),
{
    if s.len() > 0 {
        lemma_count_char_nonneg(s.drop_last(), c);
    }
}

/// An occurrence makes the count positive.
proof fn lemma_count_char_occurrence(s: Seq<char>, c: char, p: int)
    requires
        0 <= p < s.len(),
        s[p] == c,
    ensures
        count_char(s, c) >= 1,
    decreases s.len(),
{
    lemma_count_char_nonneg(s.drop_last(), c);
    if p < s.len() - 1 {
        lemma_count_char_occurrence(s.drop_last(), c, p);
    }
}

/// Two distinct occurrences make the count at least two; so in a sequence
/// with count one, the occurrence is unique.
proof fn lemma_count_char_two(s: Seq<char>, c: char, p: int, q: int)
    requires
        0 <= p < q < s.len(),
        s[p] == c,
        s[q] == c,
    ensures
        count_char(s, c) >= 2,
    decreases s.len(),
{
    if q == s.len() - 1 {
        lemma_count_char_occurrence(s.drop_last(), c, p);
    } else {
        lemma_count_char_two(s.drop_last(), c, p, q);
    }
}

/// The pair of whole numbers a `"HH:MM"` wall-clock string denotes: exactly
/// one colon, an hour below 24 on its left, a minute below 60 on its right.
pub open spec fn parse_hhmm_spec(s: Seq<char>) -> Option<(int, int)> {
    if count_char(s, ':') == 1 {
        let k = choose|k: int| 0 <= k < s.len() && s[k] == ':';
        let hour = parse_u32_spec(s.take(k));
        let minute = parse_u32_spec(s.skip(k + 1));
        if hour matches Some(h) && minute matches Some(m) && h <= 23 && m <= 59 {
            Option::Some((hour.unwrap(), minute.unwrap()))
        } else {
            Option::None
        }
    } else {
        Option::None
    }
}

/// The UTC second count of the instant at wall-clock `s` (`"HH:MM"`) on day
/// `date`, read in the fixed offset `offset_secs`; nothing for a string that
/// is not a valid wall-clock time.
pub open spec fn hhmm_instant_spec(date: Date, s: Seq<char>, offset_secs: int) -> Option<int> {
    match parse_hhmm_spec(s) {
        Option::Some(hm) => Option::Some(
            date.day * (SECS_PER_DAY as int) + hm.0 * 3600 + hm.1 * 60 - offset_secs,
        ),
        Option::None => Option::None,
    }
}

/// Parse a `"HH:MM"` wall-clock string into the instant it denotes on day
/// `date`, read in the fixed offset `offset_secs`.
pub fn parse_hhmm_to_today(date: Date, hhmm: &str, offset_secs: i32) -> (instant: Option<Instant>)
    requires
        date.valid(),
        valid_offset(offset_secs as int),
    ensures
        (instant is None) <==> (hhmm_instant_spec(date, hhmm@, offset_secs as int) is None),
        instant matches Some(inst) ==> {
            &&& hhmm_instant_spec(date, hhmm@, offset_secs as int) == Option::Some(
                inst.utc_secs as int,
            )
            &&& inst.offset_secs == offset_secs
            &&& inst.valid()
        },
{
    let n = hhmm.unicode_len();
    let mut count: usize = 0;
    let mut pos: usize = 0;
    let mut i: usize = 0;
    proof {
        assert(hhmm@.take(0) =~= Seq::<char>::empty());
    }
    while i < n
        invariant
            n == hhmm@.len(),
            0 <= i <= n,
            count <= i,
            count == count_char(hhmm@.take(i as int), ':'),
            count >= 1 ==> 0 <= pos < i && hhmm@[pos as int] == ':',
        decreases n - i,
    {
        proof {
            assert(hhmm@.take(i + 1).drop_last() =~= hhmm@.take(i as int));
            assert(hhmm@.take(i + 1).last() == hhmm@[i as int]);
        }
        if hhmm.get_char(i) == ':' {
            if count == 0 {
                pos = i;
            }
            count = count + 1;
        }
        i = i + 1;
    }
    proof {
        assert(hhmm@.take(n as int) =~= hhmm@);
    }
    if count != 1 {
        return Option::None;
    }
    proof {
        let k = choose|k: int| 0 <= k < hhmm@.len() && hhmm@[k] == ':';
        if k != pos as int {
            if k < pos as int {
                lemma_count_char_two(hhmm@, ':', k, pos as int);
            } else {
                lemma_count_char_two(hhmm@, ':', pos as int, k);
            }
        }
    }
    let hour_str = hhmm.substring_char(0, pos);
    let minute_str = hhmm.substring_char(pos + 1, n);
    proof {
        assert(hour_str@ =~= hhmm@.take(pos as int));
        assert(minute_str@ =~= hhmm@.skip(pos + 1));
    }
    let hour = match parse_u32_field(hour_str) {
        Option::Some(h) => h,
        Option::None => {
            return Option::None;
        },
    };
    let minute = match parse_u32_field(minute_str) {
        Option::Some(m) => m,
        Option::None => {
            return Option::None;
        },
    };
    if hour > 23 || minute > 59 {
        return Option::None;
    }
    let utc_secs: i64 = date.day * SECS_PER_DAY + (hour as i64) * 3600 + (minute as i64) * 60
        - offset_secs as i64;
    Option::Some(Instant { utc_secs, offset_secs })
}

} // verus!
