//! Calendar time in UTC.

use vstd::prelude::*;
use vstd::string::*;

use crate::duration::digits_value;
use crate::text_laws::lemma_digit_reads_back;
use crate::text::{decimal, digit, lemma_text_before_parts, text_before, to_decimal};

verus! {

// ---------------------------------------------------------------------------
// The calendar
// ---------------------------------------------------------------------------

/// Whether `y` is a leap year of the Gregorian calendar.
pub open spec fn is_leap(y: int) -> bool {
    y % 4 == 0 && (y % 100 != 0 || y % 400 == 0)
}

/// The number of days of month `m` of year `y`.
pub open spec fn days_in_month(y: int, m: int) -> int {
    if m == 2 {
        if is_leap(y) {
            29
        } else {
            28
        }
    } else if m == 4 || m == 6 || m == 9 || m == 11 {
        30
    } else {
        31
    }
}

/// The number of days of year `y` before month `m`.
pub open spec fn days_before_month(y: int, m: int) -> int
    decreases m,
{
    if m <= 1 {
        0
    } else {
        days_before_month(y, m - 1) + days_in_month(y, m - 1)
    }
}

/// The number of days from 1 January of year 1 to 1 January of year `y`.
pub open spec fn days_before_year(y: int) -> int {
    365 * (y - 1) + (y - 1) / 4 - (y - 1) / 100 + (y - 1) / 400
}

/// Whether year `y`, month `m`, day `d` is a date.
pub open spec fn is_date(y: int, m: int, d: int) -> bool {
    1 <= m <= 12 && 1 <= d <= days_in_month(y, m)
}

/// The number of days from 1 January 1970 to a date.
pub open spec fn day_number(y: int, m: int, d: int) -> int {
    days_before_year(y) + days_before_month(y, m) + d - 1 - days_before_year(1970)
}

/// A date.
pub struct Date {
    pub year: int,
    pub month: int,
    pub day: int,
}

/// The date that lies `days` days after 1 January 1970, by counting in periods
/// of 400 years that begin on 1 March.
pub open spec fn civil(days: int) -> Date {
    let z = days + 719468;
    let era = z / 146097;
    let doe = z - era * 146097;
    let yoe = (doe - doe / 1460 + doe / 36524 - doe / 146096) / 365;
    let doy = doe - (365 * yoe + yoe / 4 - yoe / 100);
    let mp = (5 * doy + 2) / 153;
    let month = if mp < 10 {
        mp + 3
    } else {
        mp - 9
    };
    Date {
        year: yoe + era * 400 + if month <= 2 {
            1int
        } else {
            0
        },
        month,
        day: doy - (153 * mp + 2) / 5 + 1,
    }
}

/// The day of a 400-year period falls into a year of it.
proof fn lemma_year_of_era(doe: int)
    requires
        0 <= doe <= 146096,
    ensures
        ({
            let yoe = (doe - doe / 1460 + doe / 36524 - doe / 146096) / 365;
            let doy = doe - (365 * yoe + yoe / 4 - yoe / 100);
            &&& 0 <= yoe <= 399
            &&& 0 <= doy <= 365
            &&& doy == 365 ==> is_leap(yoe + 1)
        }),
{
    let c = doe / 36524;
    let r = doe - c * 36524;
    let yoe = (doe - doe / 1460 + doe / 36524 - doe / 146096) / 365;
    assert(0 <= c <= 4);
    if c == 4 {
        assert(doe == 146096);
    } else if c == 0 {
    } else if c == 1 {
    } else if c == 2 {
    } else {
    }
}

/// Whole periods of 400 years change neither the leap years nor their count.
proof fn lemma_whole_periods(era: int, yoe: int)
    requires
        0 <= era,
        0 <= yoe <= 399,
    ensures
        (yoe + era * 400) / 4 == era * 100 + yoe / 4,
        (yoe + era * 400) / 100 == era * 4 + yoe / 100,
        (yoe + era * 400) / 400 == era,
        is_leap(yoe + era * 400 + 1) == is_leap(yoe + 1),
{
}

/// A year follows the one before it by its number of days.
proof fn lemma_year_length(y: int)
    requires
        0 <= y,
    ensures
        days_before_year(y + 1) == 365 * y + y / 4 - y / 100 + y / 400,
        days_before_year(y + 1) == days_before_year(y) + 365 + if is_leap(y) {
            1int
        } else {
            0
        },
{
}

/// The month and the day that lie `doy` days after 1 March of year `y` are a
/// date, 306 days after which the next count from March begins.
proof fn lemma_month_and_day(y: int, doy: int)
    requires
        0 <= y,
        0 <= doy <= 365,
        doy == 365 ==> is_leap(y + 1),
    ensures
        ({
            let mp = (5 * doy + 2) / 153;
            let month = if mp < 10 {
                mp + 3
            } else {
                mp - 9
            };
            let year = if month <= 2 {
                y + 1
            } else {
                y
            };
            let day = doy - (153 * mp + 2) / 5 + 1;
            &&& is_date(year, month, day)
            &&& days_before_year(year) + days_before_month(year, month) + day - 1
                == days_before_year(y + 1) + doy - 306
        }),
{
    let mp = (5 * doy + 2) / 153;
    let month = if mp < 10 {
        mp + 3
    } else {
        mp - 9
    };
    let year = if month <= 2 {
        y + 1
    } else {
        y
    };
    assert(0 <= mp <= 11);
    lemma_month_table(year, month);
    lemma_year_length(y);
}

/// The calendar is right: the date found for a day is a date, and its number is
/// that day.
pub proof fn law_civil_is_the_date(days: int)
    requires
        0 <= days,
    ensures
        is_date(civil(days).year, civil(days).month, civil(days).day),
        day_number(civil(days).year, civil(days).month, civil(days).day) == days,
{
    let z = days + 719468;
    let era = z / 146097;
    let doe = z - era * 146097;
    let yoe = (doe - doe / 1460 + doe / 36524 - doe / 146096) / 365;
    let doy = doe - (365 * yoe + yoe / 4 - yoe / 100);
    lemma_year_of_era(doe);
    lemma_whole_periods(era, yoe);
    lemma_month_and_day(yoe + era * 400, doy);
    lemma_year_length(yoe + era * 400);
}

/// The cumulative days of the months of a year.
proof fn lemma_month_table(y: int, m: int)
    requires
        1 <= m <= 12,
    ensures
        days_before_month(y, m) == (if m == 1 {
            0int
        } else if m == 2 {
            31
        } else {
            (153 * (m - 3) + 2) / 5 + if is_leap(y) {
                60int
            } else {
                59
            }
        }),
{
    reveal_with_fuel(days_before_month, 13);
}

/// Dates are in the order of their numbers, so no two dates share one.
pub proof fn law_day_numbers_are_distinct(y1: int, m1: int, d1: int, y2: int, m2: int, d2: int)
    requires
        is_date(y1, m1, d1),
        is_date(y2, m2, d2),
        y1 >= 1,
        y2 >= 1,
        day_number(y1, m1, d1) == day_number(y2, m2, d2),
    ensures
        y1 == y2,
        m1 == m2,
        d1 == d2,
{
    lemma_month_table(y1, m1);
    lemma_month_table(y2, m2);
    if y1 < y2 {
        lemma_year_starts(y1, y2);
    } else if y2 < y1 {
        lemma_year_starts(y2, y1);
    }
}

proof fn lemma_year_starts(y: int, later: int)
    requires
        1 <= y < later,
    ensures
        days_before_year(later) >= days_before_year(y) + 365 + if is_leap(y) {
            1int
        } else {
            0
        },
    decreases later - y,
{
    lemma_year_length(later - 1);
    if later > y + 1 {
        lemma_year_starts(y, later - 1);
    }
}

// ---------------------------------------------------------------------------
// Timestamps
// ---------------------------------------------------------------------------

/// `n` in decimal with zeros in front, up to `width` digits.
pub open spec fn zero_padded(n: int, width: nat) -> Seq<char> {
    let digits = decimal(n);
    if digits.len() >= width {
        digits
    } else {
        Seq::new((width - digits.len()) as nat, |i: int| '0') + digits
    }
}

/// `secs` seconds after the start of 1970, in the form of RFC 3339.
pub open spec fn rfc3339(secs: int) -> Seq<char> {
    let date = civil(secs / 86400);
    zero_padded(date.year, 4) + "-"@ + zero_padded(date.month, 2) + "-"@ + zero_padded(date.day, 2)
        + "T"@ + zero_padded((secs / 3600) % 24, 2) + ":"@ + zero_padded((secs / 60) % 60, 2) + ":"@
        + zero_padded(secs % 60, 2) + "Z"@
}

/// Year, month, day, hour, minute and second of the moment `secs` seconds after
/// the start of 1970.
pub fn secs_to_ymd_hms(secs: u64) -> (r: (u64, u64, u64, u64, u64, u64))
    ensures
        r.0 == civil(secs as int / 86400).year,
        r.1 == civil(secs as int / 86400).month,
        r.2 == civil(secs as int / 86400).day,
        r.3 == (secs / 3600) % 24,
        r.4 == (secs / 60) % 60,
        r.5 == secs % 60,
{
    let s: u64 = secs % 60;
    let m: u64 = (secs / 60) % 60;
    let h: u64 = (secs / 3600) % 24;
    let days: u64 = secs / 86400;
    let z: u64 = days + 719468;
    let era: u64 = z / 146097;
    let doe: u64 = z - era * 146097;
    proof {
        lemma_year_of_era(doe as int);
    }
    let yoe: u64 = (doe - doe / 1460 + doe / 36524 - doe / 146096) / 365;
    let y: u64 = yoe + era * 400;
    let doy: u64 = doe - (365 * yoe + yoe / 4 - yoe / 100);
    let mp: u64 = (5 * doy + 2) / 153;
    let d: u64 = doy - (153 * mp + 2) / 5 + 1;
    let mo: u64 = if mp < 10 {
        mp + 3
    } else {
        mp - 9
    };
    let y_adj: u64 = if mo <= 2 {
        y + 1
    } else {
        y
    };
    (y_adj, mo, d, h, m, s)
}

/// Adds `n` in decimal with zeros in front, up to `width` digits.
fn append_padded(out: &mut String, n: u64, width: usize)
    ensures
        final(out)@ == old(out)@ + zero_padded(n as int, width as nat),
{
    let digits = to_decimal(n);
    let have: usize = digits.as_str().unicode_len();
    let ghost start = out@;
    let mut i: usize = have;
    while i < width
        invariant
            have <= i,
            i <= width || i == have,
            out@ =~= start + Seq::new((i - have) as nat, |k: int| '0'),
        decreases width - i,
    {
        out.push('0');
        i += 1;
    }
    out.append(digits.as_str());
    proof {
        assert(out@ =~= start + zero_padded(n as int, width as nat));
    }
}

/// A moment in the form of RFC 3339, in UTC and to the second.
pub fn format_secs_rfc3339(secs: u64) -> (r: String)
    ensures
        r@ == rfc3339(secs as int),
{
    let (y, mo, d, h, mi, s) = secs_to_ymd_hms(secs);
    let mut out = String::new();
    append_padded(&mut out, y, 4);
    out.append("-");
    append_padded(&mut out, mo, 2);
    out.append("-");
    append_padded(&mut out, d, 2);
    out.append("T");
    append_padded(&mut out, h, 2);
    out.append(":");
    append_padded(&mut out, mi, 2);
    out.append(":");
    append_padded(&mut out, s, 2);
    out.append("Z");
    proof {
        assert(out@ =~= rfc3339(secs as int));
    }
    out
}

/// `std::time::SystemTime::now`: the milliseconds since the start of 1970, or 0
/// for a clock that is set before. Nothing is claimed of the result.
#[verifier::external_body]
pub(crate) fn unix_millis() -> (r: u64) {
    let now = std::time::SystemTime::now();
    now.duration_since(std::time::UNIX_EPOCH).unwrap_or_default().as_millis() as u64
}

/// Whether `t` is a moment in the form of RFC 3339.
pub open spec fn is_timestamp(t: Seq<char>) -> bool {
    exists|secs: u64| t == #[trigger] rfc3339(secs as int)
}

/// The present moment in the form of RFC 3339.
pub fn now_rfc3339() -> (r: String)
    ensures
        is_timestamp(r@),
{
    let millis: u64 = unix_millis();
    format_secs_rfc3339(millis / 1000)
}

// ---------------------------------------------------------------------------
// The order of timestamps
// ---------------------------------------------------------------------------

/// The start of the year 10000, in seconds after the start of 1970.
pub open spec fn five_digit_years() -> int {
    253402300800
}

/// The first number that takes more than `width` digits.
spec fn digit_limit(width: nat) -> int
    decreases width,
{
    if width == 0 {
        1
    } else {
        10 * digit_limit((width - 1) as nat)
    }
}

proof fn lemma_digit(d: int)
    requires
        0 <= d < 10,
    ensures
        digit(d) as u32 == 48 + d,
{
    if d < 5 {
        assert('0' as u32 == 48 && '1' as u32 == 49 && '2' as u32 == 50 && '3' as u32 == 51
            && '4' as u32 == 52);
    } else {
        assert('5' as u32 == 53 && '6' as u32 == 54 && '7' as u32 == 55 && '8' as u32 == 56
            && '9' as u32 == 57);
    }
}

/// A padded number that fits has as many digits as it is padded to, the last
/// of them behind the others.
proof fn lemma_padded(n: int, width: nat)
    requires
        0 <= n < digit_limit(width),
        width >= 1,
    ensures
        zero_padded(n, width).len() == width,
        width == 1 ==> zero_padded(n, width) == seq![digit(n)],
        width > 1 ==> zero_padded(n, width) == zero_padded(n / 10, (width - 1) as nat).push(
            digit(n % 10),
        ),
    decreases width,
{
    reveal_with_fuel(digit_limit, 2);
    if width == 1 {
        assert(zero_padded(n, width) =~= seq![digit(n)]);
    } else {
        let shorter = zero_padded(n / 10, (width - 1) as nat);
        lemma_padded(n / 10, (width - 1) as nat);
        if n < 10 {
            assert(decimal(n / 10) =~= seq!['0']);
        }
        assert(zero_padded(n, width) =~= shorter.push(digit(n % 10)));
    }
}

/// The characters of a padded number are digits.
proof fn lemma_padded_digits(n: int, width: nat, i: int)
    requires
        0 <= n < digit_limit(width),
        0 <= i < width,
    ensures
        zero_padded(n, width).len() == width,
        '0' <= zero_padded(n, width)[i] <= '9',
    decreases width,
{
    reveal_with_fuel(digit_limit, 2);
    lemma_padded(n, width);
    if width > 1 && i < width - 1 {
        lemma_padded_digits(n / 10, (width - 1) as nat, i);
    }
}

/// Padded numbers sort as numbers do.
proof fn lemma_padded_order(n: int, m: int, width: nat)
    requires
        0 <= n < m < digit_limit(width),
        width >= 1,
    ensures
        text_before(zero_padded(n, width), zero_padded(m, width)),
    decreases width,
{
    reveal_with_fuel(digit_limit, 2);
    lemma_padded(n, width);
    lemma_padded(m, width);
    lemma_digit(n % 10);
    lemma_digit(m % 10);
    let x = seq![digit(n % 10)];
    let y = seq![digit(m % 10)];
    if width > 1 {
        let a = zero_padded(n / 10, (width - 1) as nat);
        let b = zero_padded(m / 10, (width - 1) as nat);
        lemma_padded(n / 10, (width - 1) as nat);
        lemma_padded(m / 10, (width - 1) as nat);
        assert(zero_padded(n, width) =~= a + x);
        assert(zero_padded(m, width) =~= b + y);
        if n / 10 < m / 10 {
            lemma_padded_order(n / 10, m / 10, (width - 1) as nat);
        } else {
            assert(n / 10 == m / 10);
            assert(text_before(x, y));
        }
        lemma_text_before_parts(a, b, x, y);
    }
}

/// A moment before the year 10000 has a year of at most four digits.
proof fn lemma_four_digit_year(secs: int)
    requires
        0 <= secs < five_digit_years(),
    ensures
        1 <= civil(secs / 86400).year <= 9999,
{
    let c = civil(secs / 86400);
    let z = secs / 86400 + 719468;
    let era = z / 146097;
    let doe = z - era * 146097;
    law_civil_is_the_date(secs / 86400);
    lemma_year_of_era(doe);
    lemma_month_table(c.year, c.month);
    assert(secs / 86400 < 2932897);
    if c.year > 10000 {
        lemma_year_starts(10000, c.year);
    }
}

/// Of two dates the one with the smaller number is the earlier: by year, then by
/// month, then by day.
proof fn lemma_earlier_date(a: Date, b: Date)
    requires
        is_date(a.year, a.month, a.day),
        is_date(b.year, b.month, b.day),
        a.year >= 1,
        b.year >= 1,
        day_number(a.year, a.month, a.day) < day_number(b.year, b.month, b.day),
    ensures
        a.year < b.year || (a.year == b.year && (a.month < b.month || (a.month == b.month && a.day
            < b.day))),
{
    lemma_month_table(a.year, a.month);
    lemma_month_table(b.year, b.month);
    if b.year < a.year {
        lemma_year_starts(b.year, a.year);
    }
}

/// The years that are found count from 1 on.
proof fn lemma_civil_year(days: int)
    requires
        0 <= days,
    ensures
        civil(days).year >= 1,
{
    let z = days + 719468;
    lemma_year_of_era(z - z / 146097 * 146097);
}

/// Of two days the earlier has the earlier date: by year, then by month, then by
/// day.
pub proof fn law_dates_are_in_order(earlier: int, later: int)
    requires
        0 <= earlier < later,
    ensures
        ({
            let a = civil(earlier);
            let b = civil(later);
            a.year < b.year || (a.year == b.year && (a.month < b.month || (a.month == b.month
                && a.day < b.day)))
        }),
{
    law_civil_is_the_date(earlier);
    law_civil_is_the_date(later);
    lemma_civil_year(earlier);
    lemma_civil_year(later);
    lemma_earlier_date(civil(earlier), civil(later));
}

/// A timestamp behind its year, from `part` on: month, day, hour, minute and
/// second, each with what stands before it.
spec fn timestamp_rest(secs: int, part: int) -> Seq<char> {
    let date = civil(secs / 86400);
    let second = ":"@ + (zero_padded(secs % 60, 2) + "Z"@);
    let minute = ":"@ + (zero_padded((secs / 60) % 60, 2) + second);
    let hour = "T"@ + (zero_padded((secs / 3600) % 24, 2) + minute);
    let day = "-"@ + (zero_padded(date.day, 2) + hour);
    let month = "-"@ + (zero_padded(date.month, 2) + day);
    if part == 1 {
        month
    } else if part == 2 {
        day
    } else if part == 3 {
        hour
    } else if part == 4 {
        minute
    } else {
        second
    }
}

/// One part of two timestamps: where the parts differ they decide, and otherwise
/// what follows does.
proof fn lemma_part_order(
    mark: Seq<char>,
    n: int,
    m: int,
    width: nat,
    x: Seq<char>,
    y: Seq<char>,
)
    requires
        0 <= n < digit_limit(width),
        0 <= m < digit_limit(width),
        width >= 1,
        n < m || (n == m && text_before(x, y)),
    ensures
        text_before(mark + (zero_padded(n, width) + x), mark + (zero_padded(m, width) + y)),
{
    lemma_padded(n, width);
    lemma_padded(m, width);
    if n < m {
        lemma_padded_order(n, m, width);
    }
    lemma_text_before_parts(zero_padded(n, width), zero_padded(m, width), x, y);
    lemma_text_before_parts(mark, mark, zero_padded(n, width) + x, zero_padded(m, width) + y);
}

/// Before the year 10000 a timestamp is 20 characters long: four digits of the
/// year, two each of month, day, hour, minute and second, and what separates
/// them.
pub proof fn law_timestamp_form(secs: int)
    requires
        0 <= secs < five_digit_years(),
    ensures
        rfc3339(secs).len() == 20,
        rfc3339(secs)[4] == '-',
        rfc3339(secs)[7] == '-',
        rfc3339(secs)[10] == 'T',
        rfc3339(secs)[13] == ':',
        rfc3339(secs)[16] == ':',
        rfc3339(secs)[19] == 'Z',
        forall|i: int|
            0 <= i < 20 && i != 4 && i != 7 && i != 10 && i != 13 && i != 16 && i != 19 ==> '0'
                <= #[trigger] rfc3339(secs)[i] <= '9',
{
    let date = civil(secs / 86400);
    law_civil_is_the_date(secs / 86400);
    lemma_four_digit_year(secs);
    reveal_with_fuel(digit_limit, 5);
    reveal_strlit("-");
    reveal_strlit("T");
    reveal_strlit(":");
    reveal_strlit("Z");
    lemma_padded(date.year, 4);
    assert forall|k: int| 0 <= k < 4 implies '0' <= #[trigger] zero_padded(date.year, 4)[k]
        <= '9' by {
        lemma_padded_digits(date.year, 4, k);
    }
    assert forall|n: int, k: int|
        0 <= n < 100 && 0 <= k < 2 implies zero_padded(n, 2).len() == 2 && '0'
        <= #[trigger] zero_padded(n, 2)[k] <= '9' by {
        lemma_padded_digits(n, 2, k);
    }
    let text = rfc3339(secs);
    lemma_padded(date.month, 2);
    lemma_padded(date.day, 2);
    lemma_padded((secs / 3600) % 24, 2);
    lemma_padded((secs / 60) % 60, 2);
    lemma_padded(secs % 60, 2);
    assert forall|i: int|
        0 <= i < 20 && i != 4 && i != 7 && i != 10 && i != 13 && i != 16 && i != 19 implies '0'
        <= #[trigger] text[i] <= '9' by {
        if i < 4 {
            assert(text[i] == zero_padded(date.year, 4)[i]);
        } else if i < 7 {
            assert(text[i] == zero_padded(date.month, 2)[i - 5]);
        } else if i < 10 {
            assert(text[i] == zero_padded(date.day, 2)[i - 8]);
        } else if i < 13 {
            assert(text[i] == zero_padded((secs / 3600) % 24, 2)[i - 11]);
        } else if i < 16 {
            assert(text[i] == zero_padded((secs / 60) % 60, 2)[i - 14]);
        } else {
            assert(text[i] == zero_padded(secs % 60, 2)[i - 17]);
        }
    }
}

/// A timestamp is its year and the rest.
proof fn lemma_timestamp_parts(secs: int)
    ensures
        rfc3339(secs) == zero_padded(civil(secs / 86400).year, 4) + timestamp_rest(secs, 1),
{
    let date = civil(secs / 86400);
    let year = zero_padded(date.year, 4);
    let month = zero_padded(date.month, 2);
    let day = zero_padded(date.day, 2);
    let hour = zero_padded((secs / 3600) % 24, 2);
    let minute = zero_padded((secs / 60) % 60, 2);
    let second = zero_padded(secs % 60, 2);
    let to_month = year + "-"@ + month;
    let to_day = to_month + "-"@ + day;
    let to_hour = to_day + "T"@ + hour;
    let to_minute = to_hour + ":"@ + minute;
    lemma_regrouped(to_minute, ":"@, second, "Z"@);
    lemma_regrouped(to_hour, ":"@, minute, timestamp_rest(secs, 5));
    lemma_regrouped(to_day, "T"@, hour, timestamp_rest(secs, 4));
    lemma_regrouped(to_month, "-"@, day, timestamp_rest(secs, 3));
    lemma_regrouped(year, "-"@, month, timestamp_rest(secs, 2));
}

proof fn lemma_regrouped(a: Seq<char>, b: Seq<char>, c: Seq<char>, d: Seq<char>)
    ensures
        a + b + c + d == a + (b + (c + d)),
{
    assert(a + b + c + d =~= a + (b + (c + d)));
}

/// Of two moments of one day the earlier has the earlier hour, minute and second.
proof fn lemma_time_of_day(a: int, b: int)
    requires
        0 <= a < b,
        a / 86400 == b / 86400,
    ensures
        ({
            let (h, i) = ((a / 3600) % 24, (b / 3600) % 24);
            let (m, n) = ((a / 60) % 60, (b / 60) % 60);
            h < i || (h == i && (m < n || (m == n && a % 60 < b % 60)))
        }),
{
    let day = a / 86400;
    assert((a / 3600) % 24 == a / 3600 - 24 * day);
    assert((b / 3600) % 24 == b / 3600 - 24 * day);
    if (a / 3600) % 24 == (b / 3600) % 24 {
        let hour = a / 3600;
        assert(b / 3600 == hour);
        assert((a / 60) % 60 == a / 60 - 60 * hour);
        assert((b / 60) % 60 == b / 60 - 60 * hour);
    }
}

/// On one day timestamps sort from the hour on as the moments do.
proof fn lemma_hours_sort(a: int, b: int)
    requires
        0 <= a < b,
        a / 86400 == b / 86400,
    ensures
        text_before(timestamp_rest(a, 3), timestamp_rest(b, 3)),
{
    lemma_time_of_day(a, b);
    reveal_with_fuel(digit_limit, 3);
    let (h, i) = ((a / 3600) % 24, (b / 3600) % 24);
    let (m, n) = ((a / 60) % 60, (b / 60) % 60);
    if h == i && m == n {
        lemma_part_order(":"@, a % 60, b % 60, 2, "Z"@, "Z"@);
    }
    if h == i {
        lemma_part_order(":"@, m, n, 2, timestamp_rest(a, 5), timestamp_rest(b, 5));
    }
    lemma_part_order("T"@, h, i, 2, timestamp_rest(a, 4), timestamp_rest(b, 4));
}

/// Before the year 10000 timestamps sort as the moments do, so that comparing
/// texts compares moments.
pub proof fn law_timestamps_sort_as_moments(a: int, b: int)
    requires
        0 <= a < b < five_digit_years(),
    ensures
        text_before(rfc3339(a), rfc3339(b)),
{
    let x = civil(a / 86400);
    let y = civil(b / 86400);
    law_civil_is_the_date(a / 86400);
    law_civil_is_the_date(b / 86400);
    lemma_four_digit_year(a);
    lemma_four_digit_year(b);
    if a / 86400 < b / 86400 {
        law_dates_are_in_order(a / 86400, b / 86400);
    } else {
        lemma_hours_sort(a, b);
    }
    lemma_dates_sort(a, b, x, y);
    lemma_timestamp_parts(a);
    lemma_timestamp_parts(b);
}

/// Timestamps sort by year, month and day, and on one day as from the hour on.
proof fn lemma_dates_sort(a: int, b: int, x: Date, y: Date)
    requires
        x == civil(a / 86400),
        y == civil(b / 86400),
        0 <= x.year <= 9999,
        0 <= y.year <= 9999,
        0 <= x.month <= 99,
        0 <= y.month <= 99,
        0 <= x.day <= 99,
        0 <= y.day <= 99,
        x.year < y.year || (x.year == y.year && (x.month < y.month || (x.month == y.month && (x.day
            < y.day || (x.day == y.day && text_before(
            timestamp_rest(a, 3),
            timestamp_rest(b, 3),
        )))))),
    ensures
        text_before(
            zero_padded(x.year, 4) + timestamp_rest(a, 1),
            zero_padded(y.year, 4) + timestamp_rest(b, 1),
        ),
{
    reveal_with_fuel(digit_limit, 5);
    let nothing = Seq::<char>::empty();
    if x.year == y.year && x.month == y.month {
        lemma_part_order("-"@, x.day, y.day, 2, timestamp_rest(a, 3), timestamp_rest(b, 3));
    }
    if x.year == y.year {
        lemma_part_order("-"@, x.month, y.month, 2, timestamp_rest(a, 2), timestamp_rest(b, 2));
    }
    lemma_part_order(nothing, x.year, y.year, 4, timestamp_rest(a, 1), timestamp_rest(b, 1));
    let p = zero_padded(x.year, 4) + timestamp_rest(a, 1);
    let q = zero_padded(y.year, 4) + timestamp_rest(b, 1);
    assert(nothing + p =~= p);
    assert(nothing + q =~= q);
}

/// Before the year 10000 the digits of a timestamp are those of its year, month,
/// day, hour, minute and second.
pub proof fn law_timestamp_tells_the_moment(secs: int)
    requires
        0 <= secs < five_digit_years(),
    ensures
        ({
            let t = rfc3339(secs);
            let date = civil(secs / 86400);
            &&& digits_value(t.subrange(0, 4)) == Some(date.year)
            &&& digits_value(t.subrange(5, 7)) == Some(date.month)
            &&& digits_value(t.subrange(8, 10)) == Some(date.day)
            &&& digits_value(t.subrange(11, 13)) == Some((secs / 3600) % 24)
            &&& digits_value(t.subrange(14, 16)) == Some((secs / 60) % 60)
            &&& digits_value(t.subrange(17, 19)) == Some(secs % 60)
        }),
{
    let t = rfc3339(secs);
    let date = civil(secs / 86400);
    law_civil_is_the_date(secs / 86400);
    lemma_four_digit_year(secs);
    reveal_with_fuel(digit_limit, 5);
    reveal_strlit("-");
    reveal_strlit("T");
    reveal_strlit(":");
    reveal_strlit("Z");
    let hour = (secs / 3600) % 24;
    let minute = (secs / 60) % 60;
    let second = secs % 60;
    lemma_padded_value(date.year, 4);
    lemma_padded_value(date.month, 2);
    lemma_padded_value(date.day, 2);
    lemma_padded_value(hour, 2);
    lemma_padded_value(minute, 2);
    lemma_padded_value(second, 2);
    assert(t.subrange(0, 4) =~= zero_padded(date.year, 4));
    assert(t.subrange(5, 7) =~= zero_padded(date.month, 2));
    assert(t.subrange(8, 10) =~= zero_padded(date.day, 2));
    assert(t.subrange(11, 13) =~= zero_padded(hour, 2));
    assert(t.subrange(14, 16) =~= zero_padded(minute, 2));
    assert(t.subrange(17, 19) =~= zero_padded(second, 2));
}

proof fn lemma_padded_value(n: int, width: nat)
    requires
        0 <= n < digit_limit(width),
        width >= 1,
    ensures
        zero_padded(n, width).len() == width,
        digits_value(zero_padded(n, width)) == Some(n),
    decreases width,
{
    reveal_with_fuel(digit_limit, 2);
    lemma_padded(n, width);
    if width == 1 {
        reveal_with_fuel(digits_value, 2);
        lemma_digit_reads_back(n);
        assert(zero_padded(n, width).drop_last() =~= Seq::empty());
    } else {
        lemma_padded_value(n / 10, (width - 1) as nat);
        lemma_digit_reads_back(n % 10);
        assert(zero_padded(n, width).drop_last() =~= zero_padded(n / 10, (width - 1) as nat));
    }
}

/// Padding puts zeros in front, as many as are missing, and never cuts a number.
pub proof fn law_padding(n: int, width: nat)
    ensures
        zero_padded(n, width).len() >= width,
        zero_padded(n, width).len() >= decimal(n).len(),
        decimal(n).len() >= width ==> zero_padded(n, width) == decimal(n),
        zero_padded(n, width).skip(zero_padded(n, width).len() - decimal(n).len()) == decimal(n),
        forall|i: int|
            0 <= i < zero_padded(n, width).len() - decimal(n).len() ==> #[trigger] zero_padded(
                n,
                width,
            )[i] == '0',
        zero_padded(n, width).len() == width || zero_padded(n, width) == decimal(n),
{
    let t = zero_padded(n, width);
    assert(t.skip(t.len() - decimal(n).len()) =~= decimal(n));
}

/// A timestamp tells a moment, and what tells a moment is a timestamp.
pub proof fn law_timestamps_tell_moments(t: Seq<char>, secs: u64)
    ensures
        is_timestamp(rfc3339(secs as int)),
        is_timestamp(t) ==> exists|s: u64| #[trigger] rfc3339(s as int) == t,
{
}

} // verus!
