//! Months and dates: which month follows and precedes which, month and
//! weekday names, the start of the next month and the cookie expiry date.
use vstd::prelude::*;
use crate::arith::{div_i32, rem_i32, trunc_div, trunc_rem};
use crate::decimal::{decimal, push_decimal};
use crate::text::{chars_of, push_char, string_of, take_at_most};

verus! {

/// The English name of month `m` (1 is January), as `chrono::Month::name`
/// gives it.
pub open spec fn month_name_spec(m: int) -> Seq<char> {
    if m == 1 {
        "January"@
    } else if m == 2 {
        "February"@
    } else if m == 3 {
        "March"@
    } else if m == 4 {
        "April"@
    } else if m == 5 {
        "May"@
    } else if m == 6 {
        "June"@
    } else if m == 7 {
        "July"@
    } else if m == 8 {
        "August"@
    } else if m == 9 {
        "September"@
    } else if m == 10 {
        "October"@
    } else if m == 11 {
        "November"@
    } else {
        "December"@
    }
}

/// The first three letters of the month's name.
pub open spec fn month_abbrev(m: int) -> Seq<char> {
    take_at_most(month_name_spec(m), 3)
}

/// The English month names in calendar order, January first.
pub open spec fn english_month_names() -> Seq<Seq<char>> {
    seq![
        "January"@, "February"@, "March"@, "April"@, "May"@, "June"@, "July"@, "August"@,
        "September"@, "October"@, "November"@, "December"@,
    ]
}

/// Month `m` (1 to 12) carries the `m`-th English month name, counted from
/// January, and its abbreviation is that name's first three letters.
pub proof fn lemma_month_names(m: int)
    requires
        1 <= m <= 12,
    ensures
        month_name_spec(m) == english_month_names()[m - 1],
        month_abbrev(m) == english_month_names()[m - 1].take(3),
{
    reveal_strlit("January");
    reveal_strlit("February");
    reveal_strlit("March");
    reveal_strlit("April");
    reveal_strlit("May");
    reveal_strlit("June");
    reveal_strlit("July");
    reveal_strlit("August");
    reveal_strlit("September");
    reveal_strlit("October");
    reveal_strlit("November");
    reveal_strlit("December");
    assert(month_name_spec(m).len() >= 3);
}

/// The English name of month `month`.
pub fn month_name(month: u32) -> (r: &'static str)
    requires
        1 <= month <= 12,
    ensures
        r@ == month_name_spec(month as int),
{
    if month == 1 {
        "January"
    } else if month == 2 {
        "February"
    } else if month == 3 {
        "March"
    } else if month == 4 {
        "April"
    } else if month == 5 {
        "May"
    } else if month == 6 {
        "June"
    } else if month == 7 {
        "July"
    } else if month == 8 {
        "August"
    } else if month == 9 {
        "September"
    } else if month == 10 {
        "October"
    } else if month == 11 {
        "November"
    } else {
        "December"
    }
}

/// `month_to_shortmonth`: the first three letters of the month's name.
pub fn month_to_shortmonth(month: u32) -> (r: String)
    requires
        1 <= month <= 12,
    ensures
        r@ == month_abbrev(month as int),
{
    let v = chars_of(month_name(month));
    let n = if v.len() < 3 {
        v.len()
    } else {
        3
    };
    let r = string_of(&v, 0, n);
    assert(r@ =~= month_abbrev(month as int));
    r
}

/// The month after `(year, month)`.
pub open spec fn next_month_spec(year: int, month: int) -> (int, int) {
    if month == 12 {
        (year + 1, 1)
    } else {
        (year, month + 1)
    }
}

/// The month before `month` by the formula
/// `(month - 1) % 12 + (month - 12) / 11 * -12`, dividing toward zero.
pub open spec fn previous_month_spec(month: int) -> int {
    trunc_rem(month - 1, 12) + trunc_div(month - 12, 11) * -12
}

/// The year of the month before `month` of `year`: the year before in
/// January, the same year otherwise.
pub open spec fn previous_year_spec(month: int, year: int) -> int {
    if month == 1 {
        year - 1
    } else {
        year
    }
}

/// The first month after `(year, month)`.
pub fn next_month(year: i32, month: u32) -> (r: (i32, u32))
    requires
        1 <= month <= 12,
        month == 12 ==> year < i32::MAX,
    ensures
        (r.0 as int, r.1 as int) == next_month_spec(year as int, month as int),
        1 <= r.1 <= 12,
{
    if month == 12 {
        (year + 1, 1)
    } else {
        (year, month + 1)
    }
}

/// A civil date and time as a clock shows it: year, month (1 to 12), day,
/// hour, minute and second.
#[derive(Debug, Clone, Copy, PartialEq, Eq, Structural)]
pub struct DateTimeParts {
    pub year: i32,
    pub month: u32,
    pub day: u32,
    pub hour: u32,
    pub minute: u32,
    pub second: u32,
}

/// Whether `t` names a date and time that exists on the calendar.
pub open spec fn valid_parts(t: DateTimeParts) -> bool {
    &&& 1 <= t.month <= 12
    &&& 1 <= t.day <= days_in_month(t.year as int, t.month as int)
    &&& t.hour < 24
    &&& t.minute < 60
    &&& t.second < 60
}

/// Whether `a` comes strictly before `b` on the clock: by year, then
/// month, day, hour, minute and second.
pub open spec fn is_before(a: DateTimeParts, b: DateTimeParts) -> bool {
    ||| a.year < b.year
    ||| a.year == b.year && a.month < b.month
    ||| a.year == b.year && a.month == b.month && a.day < b.day
    ||| a.year == b.year && a.month == b.month && a.day == b.day && a.hour < b.hour
    ||| a.year == b.year && a.month == b.month && a.day == b.day && a.hour == b.hour && a.minute
        < b.minute
    ||| a.year == b.year && a.month == b.month && a.day == b.day && a.hour == b.hour && a.minute
        == b.minute && a.second < b.second
}

/// 00:05:00 on the first day of the month after `(year, month)`.
pub open spec fn expiry_of(year: int, month: int) -> DateTimeParts {
    let (ny, nm) = next_month_spec(year, month);
    DateTimeParts { year: ny as i32, month: nm as u32, day: 1, hour: 0, minute: 5, second: 0 }
}

/// When a vote cookie or a vote count made at `now` expires: 00:05:00 on
/// the first day of the next month, a time that exists and lies after now.
pub fn get_expire_date(now: DateTimeParts) -> (r: DateTimeParts)
    requires
        1 <= now.month <= 12,
        now.month == 12 ==> now.year < i32::MAX,
    ensures
        r == expiry_of(now.year as int, now.month as int),
        valid_parts(r),
        is_before(now, r),
{
    let (year, month) = next_month(now.year, now.month);
    DateTimeParts { year, month, day: 1, hour: 0, minute: 5, second: 0 }
}

/// `get_previous_month`: the month before `month`, for a month of 1 to 12.
pub fn get_previous_month(month: i32) -> (r: i32)
    requires
        month >= i32::MIN + 12,
        i32::MIN <= trunc_div(month - 12, 11) * -12 <= i32::MAX,
        i32::MIN <= previous_month_spec(month as int) <= i32::MAX,
    ensures
        r == previous_month_spec(month as int),
        1 <= month <= 12 ==> r == (if month == 1 {
            12
        } else {
            month - 1
        }),
{
    let a = rem_i32(month - 1, 12);
    let b = div_i32(month - 12, 11);
    assert(-11 <= a <= 11) by (nonlinear_arith)
        requires
            a == trunc_rem(month - 1, 12),
    {
    }
    assert(i32::MIN / 11 - 1 <= b <= i32::MAX / 11 + 1) by (nonlinear_arith)
        requires
            b == trunc_div(month - 12, 11),
            month >= i32::MIN + 12,
    {
    }
    let r = a + b * -12;
    proof {
        if 1 <= month <= 12 {
            assert(trunc_div(month - 12, 11) == if month == 1 {
                -1int
            } else {
                0
            }) by (nonlinear_arith)
                requires
                    1 <= month <= 12,
            {
            }
            assert(trunc_rem(month - 1, 12) == month - 1) by (nonlinear_arith)
                requires
                    1 <= month <= 12,
            {
            }
        }
    }
    r
}

/// `get_previous_year_if_necessary`: the year of the month before `month`.
pub fn get_previous_year_if_necessary(month: i32, year: i32) -> (r: i32)
    requires
        month == 1 ==> year > i32::MIN,
    ensures
        r == previous_year_spec(month as int, year as int),
{
    if month == 1 {
        year - 1
    } else {
        year
    }
}

/// Going back one month undoes going forward one: the month before the
/// month after `(year, month)` is `(year, month)`.
pub proof fn lemma_previous_undoes_next(year: int, month: int)
    requires
        1 <= month <= 12,
    ensures
        ({
            let (ny, nm) = next_month_spec(year, month);
            previous_month_spec(nm) == month && previous_year_spec(nm, ny) == year
        }),
{
    let (ny, nm) = next_month_spec(year, month);
    assert(previous_month_spec(nm) == month) by (nonlinear_arith)
        requires
            nm == (if month == 12 {
                1
            } else {
                month + 1
            }),
            1 <= month <= 12,
    {
    }
}

/// Going forward one month undoes going back one: the month after the
/// month before `(year, month)` is `(year, month)`.
pub proof fn lemma_next_undoes_previous(year: int, month: int)
    requires
        1 <= month <= 12,
    ensures
        next_month_spec(previous_year_spec(month, year), previous_month_spec(month)) == (
            year,
            month,
        ),
{
    assert(previous_month_spec(month) == if month == 1 {
        12
    } else {
        month - 1
    }) by (nonlinear_arith)
        requires
            1 <= month <= 12,
    {
    }
}

/// A leap year of the proleptic Gregorian calendar.
pub open spec fn is_leap_year(y: int) -> bool {
    y % 4 == 0 && (y % 100 != 0 || y % 400 == 0)
}

/// The number of days of month `m` of year `y`.
pub open spec fn days_in_month(y: int, m: int) -> int {
    if m == 2 {
        if is_leap_year(y) {
            29
        } else {
            28
        }
    } else if m == 4 || m == 6 || m == 9 || m == 11 {
        30
    } else {
        31
    }
}

/// The number of days from 1970-01-01 to the date `y`-`m`-`d` of the
/// proleptic Gregorian calendar (negative before it).
pub open spec fn days_from_civil(y: int, m: int, d: int) -> int {
    let yy = if m <= 2 {
        y - 1
    } else {
        y
    };
    let era = yy / 400;
    let yoe = yy - era * 400;
    let mp = if m > 2 {
        m - 3
    } else {
        m + 9
    };
    let doy = (153 * mp + 2) / 5 + d - 1;
    let doe = yoe * 365 + yoe / 4 - yoe / 100 + doy;
    era * 146097 + doe - 719468
}

/// The seconds from 1970-01-01 00:00 UTC to the given UTC date and time.
pub open spec fn utc_seconds(y: int, m: int, d: int, hour: int, minute: int, second: int) -> int {
    days_from_civil(y, m, d) * 86400 + hour * 3600 + minute * 60 + second
}

/// The dates and times chrono represents: years -262143 to 262142, real
/// days, and times of day to the second without leap seconds.
pub open spec fn datetime_exists(y: int, m: int, d: int, hour: int, minute: int, second: int) -> bool {
    &&& -262143 <= y <= 262142
    &&& 1 <= m <= 12
    &&& 1 <= d <= days_in_month(y, m)
    &&& 0 <= hour < 24
    &&& 0 <= minute < 60
    &&& 0 <= second < 60
}

/// Calls chrono's `NaiveDate::from_ymd_opt(..).and_hms_opt(..)` and takes
/// the UTC timestamp of the result. chrono's source shows that the date
/// exists exactly for a real day of the proleptic Gregorian calendar in a
/// year from -262143 to 262142 and a time with hour < 24, minute < 60 and
/// second < 60, and that the timestamp is the number of days since
/// 1970-01-01 times 86400 plus the seconds since midnight.
#[verifier::external_body]
fn utc_timestamp(year: i32, month: u32, day: u32, hour: u32, minute: u32, second: u32) -> (r:
    Option<i64>)
    ensures
        r is Some <==> datetime_exists(
            year as int,
            month as int,
            day as int,
            hour as int,
            minute as int,
            second as int,
        ),
        r matches Some(t) ==> t == utc_seconds(
            year as int,
            month as int,
            day as int,
            hour as int,
            minute as int,
            second as int,
        ),
{
    match chrono::NaiveDate::from_ymd_opt(year, month, day) {
        Some(date) => match date.and_hms_opt(hour, minute, second) {
            Some(datetime) => Some(datetime.and_utc().timestamp()),
            None => None,
        },
        None => None,
    }
}

/// The duration from `now` (seconds and nanoseconds since the epoch) until
/// `target` seconds, as whole seconds and nanoseconds; `None` when `target`
/// has passed, where converting to `std::time::Duration` fails.
pub fn duration_until(target: i64, now_secs: i64, now_nanos: u32) -> (r: Option<(u64, u32)>)
    requires
        now_nanos < 1_000_000_000,
    ensures
        ({
            let total = (target - now_secs) * 1_000_000_000 - now_nanos;
            if total < 0 {
                r is None
            } else {
                r matches Some((s, n)) && s * 1_000_000_000 + n == total && n < 1_000_000_000
            }
        }),
{
    let diff: i128 = (target as i128) - (now_secs as i128);
    if diff < 0 || (diff == 0 && now_nanos > 0) {
        return None;
    }
    if now_nanos == 0 {
        Some((diff as u64, 0))
    } else {
        Some(((diff - 1) as u64, 1_000_000_000 - now_nanos))
    }
}

/// How long from now until 00:05 UTC on the first of the next month.
pub open spec fn time_to_end_of_month(
    now_year: i32,
    now_month: u32,
    now_secs: i64,
    now_nanos: u32,
) -> Option<int> {
    let (ny, nm) = next_month_spec(now_year as int, now_month as int);
    if -262143 <= ny <= 262142 {
        let total = (utc_seconds(ny, nm, 1, 0, 5, 0) - now_secs) * 1_000_000_000 - now_nanos;
        if total < 0 {
            None
        } else {
            Some(total)
        }
    } else {
        None
    }
}

/// The first second of the month after `(year, month)`.
pub open spec fn next_month_start(year: int, month: int) -> int {
    let (ny, nm) = next_month_spec(year, month);
    utc_seconds(ny, nm, 1, 0, 0, 0)
}

/// The time from now until 00:05 UTC on the
/// first of the next month, as seconds and nanoseconds; `None` where that
/// date is beyond chrono's range or has passed. While now lies before the
/// next month, there is such a time.
pub fn calc_time_to_end_of_month(now_year: i32, now_month: u32, now_secs: i64, now_nanos: u32) -> (r:
    Option<(u64, u32)>)
    requires
        1 <= now_month <= 12,
        now_month == 12 ==> now_year < i32::MAX,
        now_nanos < 1_000_000_000,
    ensures
        match time_to_end_of_month(now_year, now_month, now_secs, now_nanos) {
            Some(total) => r matches Some((s, n)) && s * 1_000_000_000 + n == total && n
                < 1_000_000_000,
            None => r is None,
        },
        -262143 <= now_year <= 262141 && now_secs < next_month_start(
            now_year as int,
            now_month as int,
        ) ==> (r matches Some((s, n)) && s >= 300),
{
    let (ny, nm) = next_month(now_year, now_month);
    match utc_timestamp(ny, nm, 1, 0, 5, 0) {
        Some(t) => duration_until(t, now_secs, now_nanos),
        None => None,
    }
}

/// The abbreviated English name of weekday `w`, 0 being Monday (`%a`).
pub open spec fn weekday_abbrev(w: int) -> Seq<char> {
    if w == 0 {
        "Mon"@
    } else if w == 1 {
        "Tue"@
    } else if w == 2 {
        "Wed"@
    } else if w == 3 {
        "Thu"@
    } else if w == 4 {
        "Fri"@
    } else if w == 5 {
        "Sat"@
    } else {
        "Sun"@
    }
}

/// The weekday, 0 being Monday, of the day that `t` seconds since
/// 1970-01-01 (a Thursday) fall on.
pub open spec fn weekday_of(t: int) -> int {
    (t / 86400 + 3) % 7
}

/// The English weekday abbreviations from Monday to Sunday.
pub open spec fn english_weekdays() -> Seq<Seq<char>> {
    seq!["Mon"@, "Tue"@, "Wed"@, "Thu"@, "Fri"@, "Sat"@, "Sun"@]
}

/// The days since 1970-01-05, a Monday, carry the weekday names in turn,
/// before that day and after it: any moment of the `i`-th day of a week
/// that starts on a Monday (`4 + 7 * k` days after 1970-01-01) is named by
/// the `i`-th abbreviation, Monday first.
pub proof fn lemma_weekday_names(k: int, i: int, s: int)
    requires
        0 <= i < 7,
        0 <= s < 86400,
    ensures
        weekday_abbrev(weekday_of((4 + 7 * k + i) * 86400 + s)) == english_weekdays()[i],
{
    let t = (4 + 7 * k + i) * 86400 + s;
    vstd::arithmetic::div_mod::lemma_fundamental_div_mod_converse(t, 86400, 4 + 7 * k + i, s);
    vstd::arithmetic::div_mod::lemma_fundamental_div_mod_converse(
        4 + 7 * k + i + 3,
        7,
        k + 1,
        i,
    );
    assert(weekday_of(t) == i);
}

/// The weekday, 0 being Monday, of the day that `t` seconds since the
/// epoch fall on.
pub fn weekday_from_timestamp(t: i64) -> (r: u32)
    ensures
        r == weekday_of(t as int),
        r < 7,
{
    let days = t.checked_div_euclid(86400);
    assert(days is Some && days.unwrap() == t as int / 86400) by (nonlinear_arith)
        requires
            days == t.checked_div_euclid(86400),
    {
    }
    let d = days.unwrap();
    assert(-(i64::MAX / 86400) - 1 <= d <= i64::MAX / 86400) by (nonlinear_arith)
        requires
            d == t as int / 86400,
    {
    }
    let d3 = d + 3;
    let w = d3.checked_rem_euclid(7);
    assert(w is Some && w.unwrap() == d3 % 7) by (nonlinear_arith)
        requires
            w == d3.checked_rem_euclid(7),
    {
    }
    let w = w.unwrap();
    w as u32
}

/// `%a`: the abbreviated weekday name.
fn weekday_abbrev_exec(w: u32) -> (r: &'static str)
    ensures
        r@ == weekday_abbrev(w as int),
{
    if w == 0 {
        "Mon"
    } else if w == 1 {
        "Tue"
    } else if w == 2 {
        "Wed"
    } else if w == 3 {
        "Thu"
    } else if w == 4 {
        "Fri"
    } else if w == 5 {
        "Sat"
    } else {
        "Sun"
    }
}

/// `digits` padded with leading zeros to `width` characters.
pub open spec fn zero_pad(digits: Seq<char>, width: nat) -> Seq<char> {
    if digits.len() >= width {
        digits
    } else {
        Seq::new((width - digits.len()) as nat, |i: int| '0') + digits
    }
}

/// `%Y`: the year zero-padded to four digits, with a sign outside 0 to 9999.
pub open spec fn year_text(y: int) -> Seq<char> {
    if 0 <= y <= 9999 {
        zero_pad(decimal(y as nat), 4)
    } else if y > 0 {
        seq!['+'] + zero_pad(decimal(y as nat), 4)
    } else {
        seq!['-'] + zero_pad(decimal((-y) as nat), 4)
    }
}

/// The expiry date of a vote cookie, as `%a, %d %b %Y %T GMT` writes
/// 00:05:00 on the first of month `month` of `year`, a day of weekday `w`.
pub open spec fn expiry_text(w: int, year: int, month: int) -> Seq<char> {
    weekday_abbrev(w) + ", 01 "@ + month_abbrev(month) + " "@ + year_text(year)
        + " 00:05:00 GMT"@
}

/// Appends the decimal digits of `n`, zero-padded to `width`.
fn push_padded(s: &mut String, n: u64, width: usize)
    ensures
        final(s)@ == old(s)@ + zero_pad(decimal(n as nat), width as nat),
{
    let mut digits = String::new();
    push_decimal(&mut digits, n);
    let v = chars_of(digits.as_str());
    assert(v@ =~= decimal(n as nat));
    if v.len() < width {
        let pad = width - v.len();
        let mut i: usize = 0;
        let ghost start = s@;
        while i < pad
            invariant
                i <= pad,
                s@ == start + Seq::new(i as nat, |j: int| '0'),
            decreases pad - i,
        {
            push_char(s, '0');
            assert(s@ =~= start + Seq::new((i + 1) as nat, |j: int| '0'));
            i = i + 1;
        }
    }
    s.append(digits.as_str());
    assert(final(s)@ =~= old(s)@ + zero_pad(decimal(n as nat), width as nat));
}

/// Appends `%Y` of `year`.
fn push_year(s: &mut String, year: i32)
    ensures
        final(s)@ == old(s)@ + year_text(year as int),
{
    if 0 <= year && year <= 9999 {
        push_padded(s, year as u64, 4);
    } else if year > 0 {
        push_char(s, '+');
        push_padded(s, year as u64, 4);
    } else {
        push_char(s, '-');
        let m: u64 = if year == i32::MIN {
            2147483648u64
        } else {
            (-year) as u64
        };
        push_padded(s, m, 4);
    }
    assert(final(s)@ =~= old(s)@ + year_text(year as int));
}

/// `get_utc_expire`: the expiry of a vote cookie, 00:05:00 on the first of
/// the next month, written `%a, %d %b %Y %T GMT`; `None` for a year beyond
/// chrono's range.
pub fn get_utc_expire(now_year: i32, now_month: u32) -> (r: Option<String>)
    requires
        1 <= now_month <= 12,
        now_month == 12 ==> now_year < i32::MAX,
    ensures
        ({
            let (ny, nm) = next_month_spec(now_year as int, now_month as int);
            if -262143 <= ny <= 262142 {
                r matches Some(s) && s@ == expiry_text(
                    weekday_of(utc_seconds(ny, nm, 1, 0, 5, 0)),
                    ny,
                    nm,
                )
            } else {
                r is None
            }
        }),
{
    let (ny, nm) = next_month(now_year, now_month);
    let t = match utc_timestamp(ny, nm, 1, 0, 5, 0) {
        Some(t) => t,
        None => {
            return None;
        },
    };
    let w = weekday_from_timestamp(t);
    let mut s = String::from_str(weekday_abbrev_exec(w));
    s.append(", 01 ");
    let abbrev = month_to_shortmonth(nm);
    s.append(abbrev.as_str());
    s.append(" ");
    push_year(&mut s, ny);
    s.append(" 00:05:00 GMT");
    Some(s)
}

} // verus!
