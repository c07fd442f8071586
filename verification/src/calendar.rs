//! Dates of the Gregorian calendar by their number of days since 1970.

use vstd::prelude::*;

verus! {

/// A date.
#[derive(Clone, Copy, Debug, PartialEq, Eq, Structural)]
pub struct Date {
    pub year: i64,
    pub month: u32,
    pub day: u32,
}

/// Every fourth year is a leap year, but of the hundredth ones only every
/// fourth.
pub open spec fn leap(y: int) -> bool {
    y % 4 == 0 && (y % 100 != 0 || y % 400 == 0)
}

pub open spec fn month_days(y: int, m: int) -> int {
    if m == 2 {
        if leap(y) {
            29
        } else {
            28
        }
    } else if m == 4 || m == 6 || m == 9 || m == 11 {
        30
    } else {
        31
    }
}

/// The leap years up to and with year `y`.
pub open spec fn leaps(y: int) -> int {
    y / 4 - y / 100 + y / 400
}

/// The days from the start of 1970 to the start of year `y`.
pub open spec fn year_start(y: int) -> int {
    365 * (y - 1970) + leaps(y - 1) - leaps(1969)
}

/// The days from the start of year `y` to the start of its month `m`.
pub open spec fn month_start(y: int, m: int) -> int
    decreases m,
{
    if m <= 1 {
        0
    } else {
        month_start(y, m - 1) + month_days(y, m - 1)
    }
}

impl Date {
    pub open spec fn valid(self) -> bool {
        1 <= self.month <= 12 && 1 <= self.day <= month_days(self.year as int, self.month as int)
    }

    /// The days from the first of January 1970 to this date.
    pub open spec fn number(self) -> int {
        year_start(self.year as int) + month_start(self.year as int, self.month as int) + self.day - 1
    }
}

/// Year after year, the starts lie as far apart as the year is long.
pub proof fn law_years_follow(y: int)
    ensures
        year_start(y + 1) == year_start(y) + (if leap(y) {
            366int
        } else {
            365int
        }),
{
}

proof fn lemma_month_starts(y: int)
    ensures
        month_start(y, 1) == 0,
        month_start(y, 2) == 31,
        month_start(y, 3) == 31 + month_days(y, 2),
        month_start(y, 4) == 62 + month_days(y, 2),
        month_start(y, 5) == 92 + month_days(y, 2),
        month_start(y, 6) == 123 + month_days(y, 2),
        month_start(y, 7) == 153 + month_days(y, 2),
        month_start(y, 8) == 184 + month_days(y, 2),
        month_start(y, 9) == 215 + month_days(y, 2),
        month_start(y, 10) == 245 + month_days(y, 2),
        month_start(y, 11) == 276 + month_days(y, 2),
        month_start(y, 12) == 306 + month_days(y, 2),
{
    reveal_with_fuel(month_start, 13);
}

proof fn lemma_day_of_year(d: Date)
    requires
        d.valid(),
    ensures
        0 <= month_start(d.year as int, d.month as int) + d.day - 1 < (if leap(d.year as int) {
            366int
        } else {
            365int
        }),
{
    lemma_month_starts(d.year as int);
}

proof fn lemma_years_apart(a: int, b: int)
    requires
        a < b,
    ensures
        year_start(a + 1) <= year_start(b),
    decreases b - a,
{
    if a + 1 < b {
        lemma_years_apart(a, b - 1);
        law_years_follow(b - 1);
    }
}

impl Date {
    /// Whether this date comes first by year, month and day.
    pub open spec fn precedes(self, other: Date) -> bool {
        ||| self.year < other.year
        ||| self.year == other.year && self.month < other.month
        ||| self.year == other.year && self.month == other.month && self.day < other.day
    }
}

/// A smaller number is that of an earlier date.
pub proof fn law_numbers_follow_the_dates(a: Date, b: Date)
    requires
        a.valid(),
        b.valid(),
        a.number() < b.number(),
    ensures
        a.precedes(b),
{
    lemma_day_of_year(a);
    lemma_day_of_year(b);
    law_years_follow(b.year as int);
    if b.year < a.year {
        lemma_years_apart(b.year as int, a.year as int);
    }
    lemma_month_starts(a.year as int);
}

/// The years up to 9999 have the numbers below that of the first day of 10000.
pub proof fn lemma_four_digit_years(d: Date)
    requires
        d.valid(),
        d.number() < 2_932_897,
    ensures
        d.year < 10_000,
{
    lemma_day_of_year(d);
    assert(year_start(10_000) == 2_932_897);
    if d.year > 10_000 {
        law_years_follow(10_000);
        lemma_years_apart(10_000, d.year as int);
    }
}

/// Two dates with the same number are the same date.
pub proof fn law_number_names_one_date(a: Date, b: Date)
    requires
        a.valid(),
        b.valid(),
        a.number() == b.number(),
    ensures
        a == b,
{
    lemma_day_of_year(a);
    lemma_day_of_year(b);
    law_years_follow(a.year as int);
    law_years_follow(b.year as int);
    if a.year < b.year {
        lemma_years_apart(a.year as int, b.year as int);
    }
    if b.year < a.year {
        lemma_years_apart(b.year as int, a.year as int);
    }
    lemma_month_starts(a.year as int);
}

/// The date of that number.
pub open spec fn date_of(n: int) -> Date {
    choose|d: Date| d.valid() && d.number() == n
}

/// The years that begin on the first of March: the leap day is the last day of
/// its year, so that spans of 400, 100 and 4 years and single years can be cut
/// off one after the other.
proof fn lemma_march_year(era: int, century: int, quad: int, single: int, doy: int)
    requires
        0 <= era,
        0 <= century <= 3,
        0 <= quad <= 24,
        0 <= single <= 3,
        0 <= doy <= 365,
        doy == 365 ==> single == 3 && (quad < 24 || century == 3),
    ensures
        ({
            let y = era * 400 + century * 100 + quad * 4 + single;
            &&& leaps(y) == era * 97 + century * 24 + quad
            &&& doy == 365 ==> leap(y + 1)
        }),
{
    let y = era * 400 + century * 100 + quad * 4 + single;
    assert(y / 400 == era);
    assert(y / 100 == era * 4 + century);
    assert(y / 4 == era * 100 + century * 25 + quad);
    if doy == 365 {
        assert(y + 1 == era * 400 + century * 100 + (quad + 1) * 4);
        assert((y + 1) % 4 == 0);
        if quad < 24 {
            assert((y + 1) % 100 == (quad + 1) * 4);
        } else {
            assert((y + 1) % 400 == 0);
        }
    }
}

proof fn lemma_leaps_step(y: int)
    ensures
        leaps(y) == leaps(y - 1) + (if leap(y) {
            1int
        } else {
            0int
        }),
{
}

/// The date on the given day of the year that begins on the first of March of
/// year `y`.
proof fn lemma_march_date(y: int, doy: int, mp: int, d: Date)
    requires
        0 <= y < 60_000_000_000_000_000,
        0 <= doy <= 365,
        doy == 365 ==> leap(y + 1),
        mp == (5 * doy + 2) / 153,
        d.day == doy - (153 * mp + 2) / 5 + 1,
        d.month == (if mp < 10 {
            mp + 3
        } else {
            mp - 9
        }),
        d.year == (if mp < 10 {
            y
        } else {
            y + 1
        }),
    ensures
        d.valid(),
        d.number() == 365 * y + leaps(y) + doy - 719_468,
{
    lemma_month_starts(y);
    lemma_month_starts(y + 1);
    lemma_leaps_step(y);
    assert(leaps(1969) == 477);
    assert(0 <= mp <= 11);
    let first = (153 * mp + 2) / 5;
    if mp == 0 {
        assert(first == 0);
    } else if mp == 1 {
        assert(first == 31);
    } else if mp == 2 {
        assert(first == 61);
    } else if mp == 3 {
        assert(first == 92);
    } else if mp == 4 {
        assert(first == 122);
    } else if mp == 5 {
        assert(first == 153);
    } else if mp == 6 {
        assert(first == 184);
    } else if mp == 7 {
        assert(first == 214);
    } else if mp == 8 {
        assert(first == 245);
    } else if mp == 9 {
        assert(first == 275);
    } else if mp == 10 {
        assert(first == 306);
    } else {
        assert(first == 337);
    }
}

/// The date of a number of days, cut off from the calendar span by span.
pub open spec fn cut_date(days: int) -> Date {
    let z = days + 719_468;
    let doe = z % 146_097;
    let century = if doe / 36_524 < 3 {
        doe / 36_524
    } else {
        3
    };
    let in_century = doe - century * 36_524;
    let in_quad = in_century % 1461;
    let single = if in_quad / 365 < 3 {
        in_quad / 365
    } else {
        3
    };
    let doy = in_quad - single * 365;
    let march_year = z / 146_097 * 400 + century * 100 + in_century / 1461 * 4 + single;
    let mp = (5 * doy + 2) / 153;
    Date {
        year: (if mp < 10 {
            march_year
        } else {
            march_year + 1
        }) as i64,
        month: (if mp < 10 {
            mp + 3
        } else {
            mp - 9
        }) as u32,
        day: (doy - (153 * mp + 2) / 5 + 1) as u32,
    }
}

proof fn lemma_cut_date(days: int)
    requires
        0 <= days <= u64::MAX,
    ensures
        cut_date(days).valid(),
        cut_date(days).number() == days,
{
    let z = days + 719_468;
    let era = z / 146_097;
    let doe = z % 146_097;
    let century = if doe / 36_524 < 3 {
        doe / 36_524
    } else {
        3
    };
    let in_century = doe - century * 36_524;
    let quad = in_century / 1461;
    let in_quad = in_century % 1461;
    let single = if in_quad / 365 < 3 {
        in_quad / 365
    } else {
        3
    };
    let doy = in_quad - single * 365;
    let march_year = era * 400 + century * 100 + quad * 4 + single;
    lemma_march_year(era, century, quad, single, doy);
    lemma_march_date(march_year, doy, (5 * doy + 2) / 153, cut_date(days));
}

/// Every number of days has its date.
pub proof fn lemma_date_exists(days: int)
    requires
        0 <= days <= u64::MAX,
    ensures
        date_of(days).valid(),
        date_of(days).number() == days,
        date_of(days).year >= 1970,
{
    lemma_cut_date(days);
    let d = cut_date(days);
    assert(d.valid() && d.number() == days);
    lemma_not_before_1970(date_of(days));
}

/// The date that lies `days` after the first of January 1970.
pub fn civil_from_days(days: u64) -> (r: Date)
    requires
        days + 719_468 <= u64::MAX,
    ensures
        r.valid(),
        r.number() == days,
        r == date_of(days as int),
        r.year >= 1970,
{
    let z: u64 = days + 719_468;
    let era: u64 = z / 146_097;
    let doe: u64 = z % 146_097;
    let century: u64 = if doe / 36_524 < 3 {
        doe / 36_524
    } else {
        3
    };
    let in_century: u64 = doe - century * 36_524;
    let quad: u64 = in_century / 1461;
    let in_quad: u64 = in_century % 1461;
    let single: u64 = if in_quad / 365 < 3 {
        in_quad / 365
    } else {
        3
    };
    let doy: u64 = in_quad - single * 365;
    let march_year: u64 = era * 400 + century * 100 + quad * 4 + single;
    let mp: u64 = (5 * doy + 2) / 153;
    let day: u32 = (doy - (153 * mp + 2) / 5 + 1) as u32;
    let month: u32 = if mp < 10 {
        mp as u32 + 3
    } else {
        mp as u32 - 9
    };
    let year: u64 = if month <= 2 {
        march_year + 1
    } else {
        march_year
    };
    let r = Date { year: year as i64, month, day };
    proof {
        lemma_cut_date(days as int);
        assert(r == cut_date(days as int));
        law_number_names_one_date(r, date_of(days as int));
        lemma_not_before_1970(r);
    }
    r
}

proof fn lemma_not_before_1970(d: Date)
    requires
        d.valid(),
        d.number() >= 0,
    ensures
        d.year >= 1970,
{
    if d.year < 1970 {
        lemma_day_of_year(d);
        law_years_follow(d.year as int);
        lemma_years_apart(d.year as int, 1970);
        assert(year_start(1970) == 0);
    }
}

} // verus!
