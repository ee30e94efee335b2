use worstbird::calendar::{
    calc_time_to_end_of_month, duration_until, get_expire_date, DateTimeParts, get_previous_month,
    get_previous_year_if_necessary, get_utc_expire, month_name, month_to_shortmonth, next_month,
    weekday_from_timestamp,
};

#[test]
fn month_names_and_short_names() {
    assert_eq!(month_name(1), "January");
    assert_eq!(month_name(12), "December");
    assert_eq!(month_to_shortmonth(1), "Jan");
    assert_eq!(month_to_shortmonth(5), "May");
    assert_eq!(month_to_shortmonth(9), "Sep");
}

#[test]
fn next_month_rolls_over_the_year() {
    assert_eq!(next_month(2021, 3), (2021, 4));
    assert_eq!(next_month(2021, 12), (2022, 1));
}

#[test]
fn previous_month_and_year() {
    assert_eq!(get_previous_month(1), 12);
    assert_eq!(get_previous_month(2), 1);
    assert_eq!(get_previous_month(12), 11);
    assert_eq!(get_previous_year_if_necessary(1, 2022), 2021);
    assert_eq!(get_previous_year_if_necessary(7, 2022), 2022);
}

#[test]
fn previous_undoes_next() {
    for month in 1..=12u32 {
        let (y, m) = next_month(2021, month);
        assert_eq!(get_previous_month(m as i32), month as i32);
        assert_eq!(get_previous_year_if_necessary(m as i32, y), 2021);
    }
}

#[test]
fn previous_month_formula_off_range() {
    // the formula, outside 1 to 12
    assert_eq!(get_previous_month(0), 11);
    assert_eq!(get_previous_month(13), 0);
    assert_eq!(get_previous_month(24), -1);
}

#[test]
fn weekdays_from_timestamps() {
    assert_eq!(weekday_from_timestamp(0), 3);
    assert_eq!(weekday_from_timestamp(-1), 2);
    assert_eq!(weekday_from_timestamp(1638317100), 2);
}

#[test]
fn cookie_expiry_text() {
    assert_eq!(get_utc_expire(2021, 11).unwrap(), "Wed, 01 Dec 2021 00:05:00 GMT");
    assert_eq!(get_utc_expire(2021, 12).unwrap(), "Sat, 01 Jan 2022 00:05:00 GMT");
    assert_eq!(get_utc_expire(1969, 12).unwrap(), "Thu, 01 Jan 1970 00:05:00 GMT");
    assert_eq!(get_utc_expire(1969, 11).unwrap(), "Mon, 01 Dec 1969 00:05:00 GMT");
}

#[test]
fn cookie_expiry_year_padding() {
    assert_eq!(get_utc_expire(4, 12).unwrap(), "Sat, 01 Jan 0005 00:05:00 GMT");
    assert_eq!(get_utc_expire(9999, 12).unwrap(), "Sat, 01 Jan +10000 00:05:00 GMT");
    assert_eq!(get_utc_expire(400000, 1), None);
}

#[test]
fn time_until_next_month() {
    // 2021-11-30 23:00:00 UTC; the next month starts at 1638317100 (00:05)
    assert_eq!(calc_time_to_end_of_month(2021, 11, 1638313200, 0), Some((3900, 0)));
    assert_eq!(
        calc_time_to_end_of_month(2021, 11, 1638313200, 500_000_000),
        Some((3899, 500_000_000))
    );
    assert_eq!(calc_time_to_end_of_month(2021, 11, 1638317200, 0), None);
}

#[test]
fn duration_until_target() {
    assert_eq!(duration_until(10, 10, 0), Some((0, 0)));
    assert_eq!(duration_until(10, 10, 1), None);
    assert_eq!(duration_until(10, 11, 0), None);
    assert_eq!(duration_until(10, 8, 250), Some((1, 999_999_750)));
}

/// Days from 1970-01-01 to the given date of the proleptic Gregorian calendar.
fn days_from_civil(year: i64, month: i64, day: i64) -> i64 {
    let y = if month <= 2 { year - 1 } else { year };
    let era = if y >= 0 { y } else { y - 399 } / 400;
    let yoe = y - era * 400;
    let mp = (month + 9) % 12;
    let doy = (153 * mp + 2) / 5 + day - 1;
    let doe = yoe * 365 + yoe / 4 - yoe / 100 + doy;
    era * 146097 + doe - 719468
}

fn is_leap(year: i32) -> bool {
    (year % 4 == 0 && year % 100 != 0) || year % 400 == 0
}

#[test]
fn chrono_timestamps_follow_the_civil_day_count() {
    let mut year = -262143;
    while year <= 262142 {
        for month in 1..=12u32 {
            let days_in_month = match month {
                2 => if is_leap(year) { 29 } else { 28 },
                4 | 6 | 9 | 11 => 30,
                _ => 31,
            };
            for day in [1u32, 28, 29, 30, 31] {
                let date = chrono::NaiveDate::from_ymd_opt(year, month, day);
                assert_eq!(date.is_some(), day <= days_in_month, "{}-{}-{}", year, month, day);
                if let Some(d) = date {
                    let t = d.and_hms_opt(13, 7, 42).unwrap().and_utc().timestamp();
                    let expected = days_from_civil(year as i64, month as i64, day as i64) * 86400
                        + 13 * 3600 + 7 * 60 + 42;
                    assert_eq!(t, expected, "{}-{}-{}", year, month, day);
                }
            }
        }
        year += if (-2100..2500).contains(&year) { 1 } else { 997 };
    }
}

#[test]
fn wait_until_next_month_from_before_it() {
    for (year, month) in [(2021, 11u32), (2021, 12), (2024, 1), (2024, 2), (1969, 12), (-44, 3)] {
        let (ny, nm) = next_month(year, month);
        let start = days_from_civil(ny as i64, nm as i64, 1) * 86400;
        assert_eq!(calc_time_to_end_of_month(year, month, start - 1, 0), Some((301, 0)));
        assert_eq!(calc_time_to_end_of_month(year, month, start, 0), Some((300, 0)));
        assert_eq!(calc_time_to_end_of_month(year, month, start + 300, 0), Some((0, 0)));
        assert_eq!(calc_time_to_end_of_month(year, month, start + 301, 0), None);
    }
}

fn parts(year: i32, month: u32, day: u32, hour: u32, minute: u32, second: u32) -> DateTimeParts {
    DateTimeParts { year, month, day, hour, minute, second }
}

#[test]
fn expiry_is_five_past_midnight_on_the_first_of_next_month() {
    assert_eq!(get_expire_date(parts(2021, 12, 31, 23, 59, 59)), parts(2022, 1, 1, 0, 5, 0));
    assert_eq!(get_expire_date(parts(2021, 11, 1, 0, 0, 0)), parts(2021, 12, 1, 0, 5, 0));
    assert_eq!(get_expire_date(parts(2024, 2, 29, 12, 30, 0)), parts(2024, 3, 1, 0, 5, 0));
    assert_eq!(get_expire_date(parts(-1, 12, 15, 8, 0, 0)), parts(0, 1, 1, 0, 5, 0));
}
