use worstbird::models::{Bird, DistinctMonth, DistinctYear, MonthCookie, UserVoteCount, YearCookie};
use worstbird::voting::{
    already_downvoted_month, already_downvoted_year, check_month, check_year, cookie_string,
    distinct_months_query, downvote_month_page, downvote_year_page, get_distinct_months,
    get_distinct_years, get_index, get_ip_vote_count, next_vote_record, IpVoteCounts, PeerAddr, ip_limit_message, ip_limit_reached,
    month_downvote_allowed, month_page, month_page_template, month_path, settle_downvote,
    year_downvote_allowed, year_page, year_page_template, year_path, CustomError, MAX_IP_VOTE,
};

fn bird(id: i32) -> Bird {
    Bird {
        id,
        name: format!("bird{}", id),
        description: String::new(),
        assetid: String::new(),
        url: String::new(),
        width: 320,
        height: 180,
    }
}

fn date_error(r: Result<(), CustomError>) -> Option<&'static str> {
    match r {
        Err(CustomError::DateError(m)) => Some(m),
        _ => None,
    }
}

#[test]
fn years_and_months_that_exist() {
    assert!(check_year(0).is_ok());
    assert!(check_year(3333).is_ok());
    assert_eq!(
        date_error(check_year(-1)),
        Some("This year does not excist in the worstbird timeline")
    );
    assert!(check_year(3334).is_err());
    assert!(check_month(1).is_ok());
    assert!(check_month(12).is_ok());
    assert_eq!(date_error(check_month(0)), Some("This month does not exist in this universe"));
    assert!(check_month(13).is_err());
}

#[test]
fn year_vote_opens_in_january() {
    assert!(year_downvote_allowed(2022, 1, 2021).is_ok());
    assert_eq!(date_error(year_downvote_allowed(2022, 2, 2021)), Some("Not allowed to vote this month"));
    assert!(year_downvote_allowed(2022, 1, 2022).is_err());
    assert_eq!(
        date_error(year_downvote_allowed(2022, 1, 4000)),
        Some("This year does not excist in the worstbird timeline")
    );
    assert_eq!(year_page_template(2022, 1, 2021), "vote");
    assert_eq!(year_page_template(2022, 2, 2021), "display");
}

#[test]
fn month_vote_opens_during_the_month() {
    assert!(month_downvote_allowed(2021, 6, 2021, 6).is_ok());
    assert_eq!(
        date_error(month_downvote_allowed(2021, 7, 2021, 6)),
        Some("Voting for this month is not allowed")
    );
    assert_eq!(
        date_error(month_downvote_allowed(2021, 6, 2021, 13)),
        Some("This month does not exist in this universe")
    );
    assert_eq!(month_page_template(2021, 6, 2021, 6), "vote");
    assert_eq!(month_page_template(2021, 6, 2020, 6), "display");
}

#[test]
fn error_bodies() {
    assert_eq!(CustomError::DatabaseErr("NotFound".to_string()).response_body(), "Diesel error: NotFound");
    assert_eq!(CustomError::DateError("x").response_body(), "Another error");
    let e: CustomError = "some date".into();
    assert!(matches!(e, CustomError::DateError("some date")));
}

#[test]
fn ip_votes_count_up_to_the_limit() {
    let (c, e) = next_vote_record(None, 100, 1000);
    assert_eq!((c, e), (1, UserVoteCount { count: 1, expiration: 1000 }));
    let (c, e) = next_vote_record(Some(e), 200, 5000);
    assert_eq!((c, e), (2, UserVoteCount { count: 2, expiration: 1000 }));
    let mut entry = e;
    let mut last = c;
    while last < MAX_IP_VOTE {
        let (c, e) = next_vote_record(Some(entry), 300, 5000);
        last = c;
        entry = e;
    }
    assert_eq!(last, 20);
    assert!(ip_limit_reached(last));
    let (c, e) = next_vote_record(Some(entry), 300, 5000);
    assert_eq!(c, 21);
    let (c, _) = next_vote_record(Some(e), 300, 5000);
    assert_eq!(c, 21);
    assert!(!ip_limit_reached(19));
}

#[test]
fn ip_votes_restart_after_expiry() {
    let old = UserVoteCount { count: 21, expiration: 1000 };
    assert_eq!(
        next_vote_record(Some(old), 1001, 9000),
        (2, UserVoteCount { count: 2, expiration: 9000 })
    );
    assert_eq!(next_vote_record(Some(old), 1000, 9000).0, 21);
}

#[test]
fn cookies_write_and_read_bird_ids() {
    assert_eq!(
        cookie_string("month", 42, "Wed, 01 Dec 2021 00:05:00 GMT"),
        "month=42; Expires=Wed, 01 Dec 2021 00:05:00 GMT"
    );
    assert_eq!(MonthCookie::from_cookie_value(Some("42")), Some(MonthCookie(42)));
    assert_eq!(YearCookie::from_cookie_value(Some("+7")), Some(YearCookie(7)));
    assert_eq!(YearCookie::from_cookie_value(Some("-7")), None);
    assert_eq!(MonthCookie::from_cookie_value(Some("x1")), None);
    assert_eq!(MonthCookie::from_cookie_value(None), None);
    let written = cookie_string("year", 4_000_000_000, "x");
    let value = written.split(';').next().unwrap().split('=').nth(1).unwrap();
    assert_eq!(YearCookie::from_cookie_value(Some(value)), Some(YearCookie(4_000_000_000)));
}

#[test]
fn paths_and_index() {
    assert_eq!(year_path(2021), "/2021");
    assert_eq!(month_path(2021, 6), "/2021/6");
    assert_eq!(get_index(2022, 1), "/2021");
    assert_eq!(get_index(2022, 3), "/2022/3");
}

#[test]
fn downvote_pages() {
    let page = already_downvoted_year(bird(3), 7, "Common Loon", 2021);
    assert_eq!(page.referer, "/2021");
    assert_eq!(
        page.error_message.as_deref(),
        Some("You cannot downvote again as you already voted for Common Loon in 2021")
    );
    assert_eq!(page.year, Some(2021));
    assert!(page.month.is_none());
    let page = already_downvoted_month(bird(3), 7, "Common Loon", 2021, 6);
    assert_eq!(page.referer, "/2021/6");
    assert_eq!(
        page.error_message.as_deref(),
        Some("You cannot vote again as you already voted for Common Loon in June 2021")
    );
    assert_eq!(page.month.as_deref(), Some("June"));
    let page = downvote_month_page(bird(3), 7, 2021, 6);
    assert!(page.error_message.is_none());
    assert_eq!(page.month.as_deref(), Some("June"));
}

#[test]
fn settling_a_downvote() {
    let (page, counted) = settle_downvote(downvote_year_page(bird(1), 5, 2021), 20, None);
    assert!(!counted);
    assert_eq!(page.votes, 5);
    assert_eq!(
        page.error_message.as_deref(),
        Some("You cannot downvote again as your ip exceeded the month's maximum of 20")
    );
    assert_eq!(ip_limit_message(), "You cannot downvote again as your ip exceeded the month's maximum of 20");
    let (page, counted) = settle_downvote(downvote_year_page(bird(1), 5, 2021), 3, Some(6));
    assert!(counted);
    assert_eq!(page.votes, 6);
    assert!(page.error_message.is_none());
}

#[test]
fn year_and_month_pages() {
    let birds = vec![(bird(1), 2), (bird(2), 5)];
    let page = year_page(2021, vec![2020, 2021], 2022, vec![6, 7, 8], birds);
    assert_eq!(page.years, vec![2020, 2021, 2022]);
    assert_eq!(page.months, vec!["Jun", "Jul", "Aug"]);
    assert_eq!(page.months_num, vec![6u8, 7, 8]);
    assert_eq!(page.max_vote, 5);
    assert!(page.sel_month.is_none());
    let page = month_page(2021, 6, vec![], 2021, vec![6], vec![(bird(1), -2)]);
    assert_eq!(page.sel_month.as_deref(), Some("Jun"));
    assert_eq!(page.sel_month_path.as_deref(), Some("/6"));
    assert_eq!(page.max_vote, (-2i32) as u32);
    assert_eq!(page.years, vec![2021]);
}

#[test]
fn distinct_rows() {
    assert_eq!(
        distinct_months_query(2021),
        "select distinct month from worstbird_month where year = 2021"
    );
    assert_eq!(get_distinct_months(&vec![DistinctMonth { month: 3 }, DistinctMonth { month: 11 }]), vec![3, 11]);
    assert_eq!(get_distinct_years(&vec![DistinctYear { year: 2020 }]), vec![2020]);
}

fn peer(ip: (u8, u128), port: u16) -> PeerAddr {
    PeerAddr { ip, port }
}

#[test]
fn ip_vote_counts_are_kept_per_address() {
    let mut state = IpVoteCounts::new();
    let a = (4u8, 0x7F00_0001u128);
    let b = (6u8, 0x7F00_0001u128);
    assert_eq!(state.record(a), None);
    assert_eq!(get_ip_vote_count(&mut state, peer(a, 8000), 100, 1000), 1);
    assert_eq!(get_ip_vote_count(&mut state, peer(a, 9001), 200, 5000), 2);
    assert_eq!(state.record(a), Some(UserVoteCount { count: 2, expiration: 1000 }));
    // the same bits under the other version are another address
    assert_eq!(state.record(b), None);
    assert_eq!(get_ip_vote_count(&mut state, peer(b, 8000), 300, 7000), 1);
    assert_eq!(state.record(b), Some(UserVoteCount { count: 1, expiration: 7000 }));
    assert_eq!(state.record(a), Some(UserVoteCount { count: 2, expiration: 1000 }));
    // after the expiry the address starts afresh
    assert_eq!(get_ip_vote_count(&mut state, peer(a, 1), 1001, 9000), 2);
    assert_eq!(state.record(a), Some(UserVoteCount { count: 2, expiration: 9000 }));
}

#[test]
fn ip_vote_counts_refuse_after_the_limit() {
    let mut state = IpVoteCounts::new();
    let a = (4u8, 0x0A00_0002u128);
    let mut last = 0;
    for port in 0..MAX_IP_VOTE as u16 {
        last = get_ip_vote_count(&mut state, peer(a, port), 10, 100);
        assert_eq!(ip_limit_reached(last), port + 1 == MAX_IP_VOTE as u16);
    }
    assert_eq!(last, MAX_IP_VOTE);
    assert_eq!(get_ip_vote_count(&mut state, peer(a, 0), 10, 100), MAX_IP_VOTE + 1);
    assert_eq!(get_ip_vote_count(&mut state, peer(a, 0), 10, 100), MAX_IP_VOTE + 1);
}
