//! The rules of the website: which year and month may be shown and voted
//! on, how many votes an address may cast, what the vote cookies hold, and
//! what the pages and their messages say.
use vstd::prelude::*;
use crate::calendar::{month_abbrev, month_name, month_name_spec, month_to_shortmonth};
use crate::decimal::{decimal, parse_usize, parse_usize_exec, push_decimal, push_signed, signed_decimal};
use crate::models::{
    Bird, DistinctMonth, DistinctYear, MonthCookie, TeraDownVote, TeraTemplate, UserVoteCount,
    YearCookie,
};
use crate::ranking::{max_vote, max_votes};
use dashmap::DashMap;

verus! {

/// An error a page answers with (status 500).
pub enum CustomError {
    /// A database error, held as its debug text.
    DatabaseErr(String),
    /// A request for a date that the site does not serve.
    DateError(&'static str),
}

impl From<&'static str> for CustomError {
    fn from(e: &'static str) -> (r: CustomError) {
        CustomError::DateError(e)
    }
}

impl vstd::std_specs::convert::FromSpecImpl<&'static str> for CustomError {
    open spec fn obeys_from_spec() -> bool {
        true
    }

    open spec fn from_spec(e: &'static str) -> CustomError {
        CustomError::DateError(e)
    }
}

/// The body of an error response.
pub open spec fn error_body(e: CustomError) -> Seq<char> {
    match e {
        CustomError::DatabaseErr(d) => "Diesel error: "@ + d@,
        CustomError::DateError(_) => "Another error"@,
    }
}

/// The status of an error response: internal server error.
pub const ERROR_STATUS: u16 = 500;

impl CustomError {
    /// The body that an error response carries.
    pub fn response_body(&self) -> (r: String)
        ensures
            r@ == error_body(*self),
    {
        match self {
            CustomError::DatabaseErr(d) => {
                let mut s = String::from_str("Diesel error: ");
                s.append(d.as_str());
                s
            },
            CustomError::DateError(_) => String::from_str("Another error"),
        }
    }
}

/// The message for a year outside the site's timeline.
pub const BAD_YEAR: &'static str = "This year does not excist in the worstbird timeline";

/// The message for a month that does not exist.
pub const BAD_MONTH: &'static str = "This month does not exist in this universe";

/// The message for a vote on a year that is not open.
pub const YEAR_CLOSED: &'static str = "Not allowed to vote this month";

/// The message for a vote on a month that is not open.
pub const MONTH_CLOSED: &'static str = "Voting for this month is not allowed";

/// `r` is the date error with message `msg`.
pub open spec fn is_date_error(r: Result<(), CustomError>, msg: &'static str) -> bool {
    match r {
        Err(CustomError::DateError(m)) => m@ == msg@,
        _ => false,
    }
}

/// `check_year`: the site knows the years 0 to 3333.
pub fn check_year(year: i32) -> (r: Result<(), CustomError>)
    ensures
        (0 <= year <= 3333) ==> r is Ok,
        !(0 <= year <= 3333) ==> is_date_error(r, BAD_YEAR),
{
    if year < 0 || year > 3333 {
        Err(BAD_YEAR.into())
    } else {
        Ok(())
    }
}

/// `check_month`: months are 1 to 12.
pub fn check_month(month: u32) -> (r: Result<(), CustomError>)
    ensures
        (1 <= month <= 12) ==> r is Ok,
        !(1 <= month <= 12) ==> is_date_error(r, BAD_MONTH),
{
    if month < 1 || month > 12 {
        return Err(BAD_MONTH.into());
    } else {
        Ok(())
    }
}

/// The vote of a year is open in January of the next year.
pub open spec fn year_vote_open(now_year: int, now_month: int, sel_year: int) -> bool {
    now_year - 1 == sel_year && now_month == 1
}

/// The vote of a month is open during that month.
pub open spec fn month_vote_open(now_year: int, now_month: int, sel_year: int, sel_month: int) -> bool {
    now_year == sel_year && now_month == sel_month
}

/// Whether a downvote for `sel_year` may be cast now: the year must exist
/// and its vote be open.
pub fn year_downvote_allowed(now_year: i32, now_month: u32, sel_year: i32) -> (r: Result<(), CustomError>)
    requires
        now_year > i32::MIN,
    ensures
        !(0 <= sel_year <= 3333) ==> is_date_error(r, BAD_YEAR),
        (0 <= sel_year <= 3333) && year_vote_open(now_year as int, now_month as int, sel_year as int)
            ==> r is Ok,
        (0 <= sel_year <= 3333) && !year_vote_open(now_year as int, now_month as int, sel_year as int)
            ==> is_date_error(r, YEAR_CLOSED),
{
    check_year(sel_year)?;
    if now_year - 1 == sel_year && now_month == 1 {
        Ok(())
    } else {
        Err(YEAR_CLOSED.into())
    }
}

/// Whether a downvote for `sel_month` of `sel_year` may be cast now: the
/// year and month must exist and the month's vote be open.
pub fn month_downvote_allowed(now_year: i32, now_month: u32, sel_year: i32, sel_month: u32) -> (r:
    Result<(), CustomError>)
    ensures
        !(0 <= sel_year <= 3333) ==> is_date_error(r, BAD_YEAR),
        (0 <= sel_year <= 3333) && !(1 <= sel_month <= 12) ==> is_date_error(r, BAD_MONTH),
        (0 <= sel_year <= 3333) && (1 <= sel_month <= 12) && month_vote_open(
            now_year as int,
            now_month as int,
            sel_year as int,
            sel_month as int,
        ) ==> r is Ok,
        (0 <= sel_year <= 3333) && (1 <= sel_month <= 12) && !month_vote_open(
            now_year as int,
            now_month as int,
            sel_year as int,
            sel_month as int,
        ) ==> is_date_error(r, MONTH_CLOSED),
{
    check_year(sel_year)?;
    check_month(sel_month)?;
    if now_year == sel_year && now_month == sel_month {
        Ok(())
    } else {
        Err(MONTH_CLOSED.into())
    }
}

/// The template of a year page: the vote form while the year's vote is
/// open, the results otherwise.
pub fn year_page_template(now_year: i32, now_month: u32, sel_year: i32) -> (r: &'static str)
    requires
        now_year > i32::MIN,
    ensures
        r@ == year_template(now_year as int, now_month as int, sel_year as int),
{
    if sel_year == now_year - 1 && now_month == 1 {
        "vote"
    } else {
        "display"
    }
}

/// The template of a month page: the vote form while the month's vote is
/// open, the results otherwise.
pub fn month_page_template(now_year: i32, now_month: u32, sel_year: i32, sel_month: u32) -> (r:
    &'static str)
    ensures
        r@ == month_template(now_year as int, now_month as int, sel_year as int, sel_month as int),
{
    if now_month == sel_month && now_year == sel_year {
        "vote"
    } else {
        "display"
    }
}

/// The template of a year page.
pub open spec fn year_template(now_year: int, now_month: int, sel_year: int) -> Seq<char> {
    if year_vote_open(now_year, now_month, sel_year) {
        "vote"@
    } else {
        "display"@
    }
}

/// The template of a month page.
pub open spec fn month_template(now_year: int, now_month: int, sel_year: int, sel_month: int) -> Seq<
    char,
> {
    if month_vote_open(now_year, now_month, sel_year, sel_month) {
        "vote"@
    } else {
        "display"@
    }
}

/// A page offers the vote form exactly when a downvote on it is accepted
/// (for a year and month that the site knows).
pub proof fn lemma_vote_form_iff_vote_open(now_year: int, now_month: int, sel_year: int, sel_month: int)
    ensures
        (year_template(now_year, now_month, sel_year) == "vote"@) <==> year_vote_open(
            now_year,
            now_month,
            sel_year,
        ),
        (month_template(now_year, now_month, sel_year, sel_month) == "vote"@) <==> month_vote_open(
            now_year,
            now_month,
            sel_year,
            sel_month,
        ),
{
    reveal_strlit("vote");
    reveal_strlit("display");
    assert("vote"@.len() != "display"@.len());
}

/// Which votes are open: in January the past year's vote and no other
/// year's, in other months no year's; a month's vote only during that very
/// month. The pages follow: the vote form exactly there, the results
/// everywhere else.
pub proof fn lemma_open_votes(now_year: int, now_month: int, sel_year: int, sel_month: int)
    ensures
        year_vote_open(now_year, now_month, sel_year) <==> (now_month == 1 && sel_year + 1
            == now_year),
        month_vote_open(now_year, now_month, sel_year, sel_month) <==> (sel_year == now_year
            && sel_month == now_month),
        year_template(now_year, now_month, sel_year) == (if now_month == 1 && sel_year + 1
            == now_year {
            "vote"@
        } else {
            "display"@
        }),
        month_template(now_year, now_month, sel_year, sel_month) == (if sel_year == now_year
            && sel_month == now_month {
            "vote"@
        } else {
            "display"@
        }),
{
}

/// How many downvotes an address may cast per month.
pub const MAX_IP_VOTE: u32 = 20;

/// `get_ip_vote_count` on one address: its record after this request and
/// the count that decides the request. A new address starts at 1; an
/// expired record restarts at 1 with `fresh_expiration`; a count above the
/// maximum stays as it is, otherwise it goes up by one.
pub open spec fn vote_step(entry: Option<UserVoteCount>, now: i64, fresh_expiration: i64) -> (
    u32,
    UserVoteCount,
) {
    match entry {
        None => (1, UserVoteCount { count: 1, expiration: fresh_expiration }),
        Some(e) => {
            let e1 = if e.expiration < now {
                UserVoteCount { count: 1, expiration: fresh_expiration }
            } else {
                e
            };
            if e1.count > MAX_IP_VOTE {
                (e1.count, e1)
            } else {
                let e2 = UserVoteCount { count: (e1.count + 1) as u32, expiration: e1.expiration };
                (e2.count, e2)
            }
        },
    }
}

/// One request on the record of the requesting address (`None` when it
/// has none), at the current time and with the expiry a new record gets
/// (nanoseconds since the epoch): the count that decides the request and
/// the record to keep.
pub fn next_vote_record(entry: Option<UserVoteCount>, now: i64, fresh_expiration: i64) -> (r: (
    u32,
    UserVoteCount,
))
    ensures
        r == vote_step(entry, now, fresh_expiration),
        r.0 == r.1.count,
{
    match entry {
        None => (1, UserVoteCount { count: 1, expiration: fresh_expiration }),
        Some(e) => {
            let mut e = e;
            if e.expiration < now {
                e.count = 1;
                e.expiration = fresh_expiration;
            }
            if e.count > MAX_IP_VOTE {
                return (e.count, e);
            } else {
                e.count = e.count + 1;
            }
            (e.count, e)
        },
    }
}

/// An IP address as its version (4 or 6) and its bits.
pub type IpKey = (u8, u128);

/// The address a request came from: its IP address and port.
#[derive(Debug, Clone, Copy)]
pub struct PeerAddr {
    pub ip: IpKey,
    pub port: u16,
}

/// `dashmap::DashMap`, a concurrent hash map; its contents are named by
/// `dashmap_records`.
#[verifier::external_type_specification]
#[verifier::external_body]
#[verifier::reject_recursive_types(K)]
#[verifier::reject_recursive_types(V)]
#[verifier::reject_recursive_types(S)]
pub struct ExDashMap<K, V, S>(DashMap<K, V, S>);

/// The records a `DashMap` of vote records holds, by IP address.
pub uninterp spec fn dashmap_records(m: DashMap<IpKey, UserVoteCount>) -> Map<IpKey, UserVoteCount>;

/// No record at all.
pub open spec fn no_records() -> Map<IpKey, UserVoteCount> {
    Map::empty()
}

/// Calls `DashMap::new`, which makes a map with no entry.
#[verifier::external_body]
fn records_new() -> (r: DashMap<IpKey, UserVoteCount>)
    ensures
        dashmap_records(r) == no_records(),
{
    DashMap::new()
}

/// Calls `DashMap::get`, which finds the entry of `key`, and copies its
/// record out of the guard it returns.
#[verifier::external_body]
fn records_get(m: &DashMap<IpKey, UserVoteCount>, key: IpKey) -> (r: Option<UserVoteCount>)
    ensures
        r == (if dashmap_records(*m).dom().contains(key) {
            Some(dashmap_records(*m)[key])
        } else {
            None
        }),
{
    match m.get(&key) {
        Some(entry) => Some(*entry),
        None => None,
    }
}

/// Calls `DashMap::insert`, which sets the record of `key` and leaves the
/// other entries as they are. Through `&mut` no other handle can reach the
/// map during the call.
#[verifier::external_body]
fn records_insert(m: &mut DashMap<IpKey, UserVoteCount>, key: IpKey, value: UserVoteCount)
    ensures
        dashmap_records(*final(m)) == dashmap_records(*old(m)).insert(key, value),
{
    m.insert(key, value);
}

/// The vote records of all addresses that have asked for a downvote.
pub struct IpVoteCounts {
    records: DashMap<IpKey, UserVoteCount>,
}

impl View for IpVoteCounts {
    type V = Map<IpKey, UserVoteCount>;

    closed spec fn view(&self) -> Map<IpKey, UserVoteCount> {
        dashmap_records(self.records)
    }
}

/// The record of `ip` in `m`, `None` when it has none.
pub open spec fn record_of(m: Map<IpKey, UserVoteCount>, ip: IpKey) -> Option<UserVoteCount> {
    if m.dom().contains(ip) {
        Some(m[ip])
    } else {
        None
    }
}

/// Every record holds a count of 1 to one above the maximum.
pub open spec fn counts_bounded(m: Map<IpKey, UserVoteCount>) -> bool {
    forall|ip: IpKey| #[trigger] m.dom().contains(ip) ==> 1 <= m[ip].count <= MAX_IP_VOTE + 1
}

impl IpVoteCounts {
    /// No address has a record yet.
    pub fn new() -> (r: IpVoteCounts)
        ensures
            r@ == no_records(),
    {
        IpVoteCounts { records: records_new() }
    }

    /// The record of `ip`, `None` when it has none.
    pub fn record(&self, ip: IpKey) -> (r: Option<UserVoteCount>)
        ensures
            r == record_of(self@, ip),
    {
        records_get(&self.records, ip)
    }
}

/// Counts a downvote request from `remote_addr` at `now`: the record of its
/// IP address takes one step (`next_vote_record`, a new record expiring at
/// `fresh_expiration`), the records of other addresses stay as they are,
/// and the port plays no part. Returns the count that decides the request.
pub fn get_ip_vote_count(
    state: &mut IpVoteCounts,
    remote_addr: PeerAddr,
    now: i64,
    fresh_expiration: i64,
) -> (r: u32)
    ensures
        r == vote_step(record_of(old(state)@, remote_addr.ip), now, fresh_expiration).0,
        final(state)@ == old(state)@.insert(
            remote_addr.ip,
            vote_step(record_of(old(state)@, remote_addr.ip), now, fresh_expiration).1,
        ),
        forall|ip: IpKey|
            ip != remote_addr.ip ==> #[trigger] record_of(final(state)@, ip) == record_of(
                old(state)@,
                ip,
            ),
        counts_bounded(old(state)@) ==> counts_bounded(final(state)@) && 1 <= r <= MAX_IP_VOTE + 1,
{
    let ip = remote_addr.ip;
    let entry = records_get(&state.records, ip);
    let (count, next) = next_vote_record(entry, now, fresh_expiration);
    records_insert(&mut state.records, ip, next);
    proof {
        if counts_bounded(old(state)@) {
            lemma_vote_count_bounded(entry, now, fresh_expiration);
        }
    }
    count
}

/// What one request does to an address's record, case by case: a first
/// request, or one after the record expired, starts a record that expires
/// at `fresh_expiration` and counts this request, whatever the old count;
/// within the period a count up to the maximum goes up by one and keeps
/// its expiry; a count above the maximum stays as it is.
pub proof fn lemma_vote_step_cases(e: UserVoteCount, now: i64, fresh_expiration: i64)
    ensures
        vote_step(None, now, fresh_expiration).0 == 1,
        vote_step(None, now, fresh_expiration).1.count == 1,
        vote_step(None, now, fresh_expiration).1.expiration == fresh_expiration,
        e.expiration < now ==> vote_step(Some(e), now, fresh_expiration).0 == 2
            && vote_step(Some(e), now, fresh_expiration).1.count == 2 && vote_step(
            Some(e),
            now,
            fresh_expiration,
        ).1.expiration == fresh_expiration,
        now <= e.expiration && e.count <= MAX_IP_VOTE ==> vote_step(Some(e), now, fresh_expiration).0
            == e.count + 1 && vote_step(Some(e), now, fresh_expiration).1.count == e.count + 1
            && vote_step(Some(e), now, fresh_expiration).1.expiration == e.expiration,
        now <= e.expiration && e.count > MAX_IP_VOTE ==> vote_step(Some(e), now, fresh_expiration).0
            == e.count && vote_step(Some(e), now, fresh_expiration).1 == e,
{
}

/// A request is refused when the address's count has reached the maximum.
pub open spec fn vote_refused(count: u32) -> bool {
    count >= MAX_IP_VOTE
}

/// `get_ip_vote_count(..) >= MAX_IP_VOTE`.
pub fn ip_limit_reached(count: u32) -> (r: bool)
    ensures
        r == vote_refused(count),
{
    count >= MAX_IP_VOTE
}

/// A refused address stays refused until its record expires: after a
/// refused request, the next request before the expiry is refused too.
pub proof fn lemma_refused_stays_refused(
    entry: Option<UserVoteCount>,
    now1: i64,
    fresh1: i64,
    now2: i64,
    fresh2: i64,
)
    requires
        vote_refused(vote_step(entry, now1, fresh1).0),
        !(vote_step(entry, now1, fresh1).1.expiration < now2),
    ensures
        vote_refused(vote_step(Some(vote_step(entry, now1, fresh1).1), now2, fresh2).0),
{
}

/// Counts stay at most one above the maximum: a record that starts within
/// that bound stays within it.
pub proof fn lemma_vote_count_bounded(entry: Option<UserVoteCount>, now: i64, fresh: i64)
    requires
        entry matches Some(e) ==> e.count <= MAX_IP_VOTE + 1,
    ensures
        vote_step(entry, now, fresh).1.count <= MAX_IP_VOTE + 1,
        vote_step(entry, now, fresh).0 >= 1,
{
}

/// Until its record expires, an address that starts afresh has its first
/// `MAX_IP_VOTE - 1` requests accepted and the next one refused.
pub proof fn lemma_votes_accepted_per_period(now: i64, fresh: i64, k: nat)
    requires
        now <= fresh,
        1 <= k <= MAX_IP_VOTE,
    ensures
        votes_after(now, fresh, k).0 == k,
        (vote_refused(votes_after(now, fresh, k).0) <==> k == MAX_IP_VOTE),
        votes_after(now, fresh, k).1.expiration == fresh,
    decreases k,
{
    if k > 1 {
        lemma_votes_accepted_per_period(now, fresh, (k - 1) as nat);
    }
}

/// The count and record after `k` requests at time `now` from an address
/// with no record.
pub open spec fn votes_after(now: i64, fresh: i64, k: nat) -> (u32, UserVoteCount)
    decreases k,
{
    if k <= 1 {
        vote_step(None, now, fresh)
    } else {
        vote_step(Some(votes_after(now, fresh, (k - 1) as nat).1), now, fresh)
    }
}

/// The cookie that remembers a vote: `{key}={bird_id}; Expires={expire}`.
pub open spec fn cookie_text(key: Seq<char>, bird_id: nat, expire: Seq<char>) -> Seq<char> {
    key + "="@ + decimal(bird_id) + "; Expires="@ + expire
}

/// The cookie string that `set_cookie` parses and sets (secure, on path
/// `/downvote`).
pub fn cookie_string(key: &str, bird_id: u32, expire: &str) -> (r: String)
    ensures
        r@ == cookie_text(key@, bird_id as nat, expire@),
{
    let mut s = String::from_str(key);
    s.append("=");
    push_decimal(&mut s, bird_id as u64);
    s.append("; Expires=");
    s.append(expire);
    s
}

/// The path a vote cookie is sent to.
pub const COOKIE_PATH: &'static str = "/downvote";

impl MonthCookie {
    /// The `month` cookie of a request, from its value: the bird id when
    /// the value reads as a `usize`.
    pub fn from_cookie_value(value: Option<&str>) -> (r: Option<MonthCookie>)
        ensures
            match value {
                Some(v) => match parse_usize(v@) {
                    Some(n) => r == Some(MonthCookie(n)),
                    None => r is None,
                },
                None => r is None,
            },
    {
        match value {
            Some(v) => match parse_usize_exec(v) {
                Some(n) => Some(MonthCookie(n)),
                None => None,
            },
            None => None,
        }
    }
}

impl YearCookie {
    /// The `year` cookie of a request, from its value: the bird id when the
    /// value reads as a `usize`.
    pub fn from_cookie_value(value: Option<&str>) -> (r: Option<YearCookie>)
        ensures
            match value {
                Some(v) => match parse_usize(v@) {
                    Some(n) => r == Some(YearCookie(n)),
                    None => r is None,
                },
                None => r is None,
            },
    {
        match value {
            Some(v) => match parse_usize_exec(v) {
                Some(n) => Some(YearCookie(n)),
                None => None,
            },
            None => None,
        }
    }
}

/// A cookie reads back the bird id it was written with: the value of
/// `{key}={bird_id}; ..` parses to `bird_id`.
pub proof fn lemma_cookie_roundtrip(key: Seq<char>, bird_id: u32, expire: Seq<char>)
    ensures
        cookie_text(key, bird_id as nat, expire).subrange(
            key.len() + 1 as int,
            key.len() + 1 + decimal(bird_id as nat).len() as int,
        ) == decimal(bird_id as nat),
        parse_usize(decimal(bird_id as nat)) == Some(bird_id as usize),
{
    reveal_strlit("=");
    crate::decimal::lemma_parse_decimal_roundtrip(bird_id as usize);
    let c = cookie_text(key, bird_id as nat, expire);
    assert(c.subrange(key.len() + 1 as int, key.len() + 1 + decimal(bird_id as nat).len() as int)
        =~= decimal(bird_id as nat));
}

/// The message for an address over its monthly limit.
pub open spec fn ip_limit_message_text() -> Seq<char> {
    "You cannot downvote again as your ip exceeded the month's maximum of "@ + decimal(
        MAX_IP_VOTE as nat,
    )
}

/// The message for an address over its monthly limit.
pub fn ip_limit_message() -> (r: String)
    ensures
        r@ == ip_limit_message_text(),
{
    let mut s = String::from_str(
        "You cannot downvote again as your ip exceeded the month's maximum of ",
    );
    push_decimal(&mut s, MAX_IP_VOTE as u64);
    s
}

/// The message for a second vote on a year.
pub fn already_voted_year_message(previous: &str, sel_year: i32) -> (r: String)
    ensures
        r@ == "You cannot downvote again as you already voted for "@ + previous@ + " in "@
            + signed_decimal(sel_year as int),
{
    let mut s = String::from_str("You cannot downvote again as you already voted for ");
    s.append(previous);
    s.append(" in ");
    push_signed(&mut s, sel_year as i64);
    s
}

/// The message for a second vote on a month.
pub fn already_voted_month_message(previous: &str, month_name: &str, sel_year: i32) -> (r: String)
    ensures
        r@ == "You cannot vote again as you already voted for "@ + previous@ + " in "@
            + month_name@ + " "@ + signed_decimal(sel_year as int),
{
    let mut s = String::from_str("You cannot vote again as you already voted for ");
    s.append(previous);
    s.append(" in ");
    s.append(month_name);
    s.append(" ");
    push_signed(&mut s, sel_year as i64);
    s
}

/// `/{year}`: the page of a year.
pub fn year_path(year: i32) -> (r: String)
    ensures
        r@ == "/"@ + signed_decimal(year as int),
{
    let mut s = String::from_str("/");
    push_signed(&mut s, year as i64);
    s
}

/// `/{year}/{month}`: the page of a month.
pub fn month_path(year: i32, month: u32) -> (r: String)
    ensures
        r@ == "/"@ + signed_decimal(year as int) + "/"@ + decimal(month as nat),
{
    let mut s = String::from_str("/");
    push_signed(&mut s, year as i64);
    s.append("/");
    push_decimal(&mut s, month as u64);
    s
}

/// `get_index`: the front page leads to the vote that is open, the past
/// year's in January and the current month's otherwise.
pub fn get_index(now_year: i32, now_month: u32) -> (r: String)
    requires
        now_year > i32::MIN,
    ensures
        now_month == 1 ==> r@ == "/"@ + signed_decimal(now_year - 1),
        now_month != 1 ==> r@ == "/"@ + signed_decimal(now_year as int) + "/"@ + decimal(
            now_month as nat,
        ),
{
    if now_month == 1 {
        year_path(now_year - 1)
    } else {
        month_path(now_year, now_month)
    }
}

/// The page after a second vote on a year.
pub fn already_downvoted_year(bird: Bird, votes: i32, previous: &str, sel_year: i32) -> (r:
    TeraDownVote)
    ensures
        r.bird == bird,
        r.votes == votes,
        r.referer@ == "/"@ + signed_decimal(sel_year as int),
        r.error_message matches Some(m) && m@ == "You cannot downvote again as you already voted for "@
            + previous@ + " in "@ + signed_decimal(sel_year as int),
        r.month is None,
        r.year == Some(sel_year),
{
    TeraDownVote {
        bird,
        votes,
        referer: year_path(sel_year),
        error_message: Some(already_voted_year_message(previous, sel_year)),
        month: None,
        year: Some(sel_year),
    }
}

/// The page after a second vote on a month.
pub fn already_downvoted_month(
    bird: Bird,
    votes: i32,
    previous: &str,
    sel_year: i32,
    sel_month: u32,
) -> (r: TeraDownVote)
    requires
        1 <= sel_month <= 12,
    ensures
        r.bird == bird,
        r.votes == votes,
        r.referer@ == "/"@ + signed_decimal(sel_year as int) + "/"@ + decimal(sel_month as nat),
        r.error_message matches Some(m) && m@ == "You cannot vote again as you already voted for "@
            + previous@ + " in "@ + month_name_spec(sel_month as int) + " "@ + signed_decimal(
            sel_year as int,
        ),
        r.month matches Some(m) && m@ == month_name_spec(sel_month as int),
        r.year == Some(sel_year),
{
    let name = month_name(sel_month);
    TeraDownVote {
        bird,
        votes,
        referer: month_path(sel_year, sel_month),
        error_message: Some(already_voted_month_message(previous, name, sel_year)),
        month: Some(String::from_str(name)),
        year: Some(sel_year),
    }
}

/// The page of a downvote on a year, before its outcome is known.
pub fn downvote_year_page(bird: Bird, votes: i32, sel_year: i32) -> (r: TeraDownVote)
    ensures
        r.bird == bird,
        r.votes == votes,
        r.referer@ == "/"@ + signed_decimal(sel_year as int),
        r.error_message is None,
        r.month is None,
        r.year == Some(sel_year),
{
    TeraDownVote {
        bird,
        votes,
        referer: year_path(sel_year),
        error_message: None,
        month: None,
        year: Some(sel_year),
    }
}

/// The page of a downvote on a month, before its outcome is known.
pub fn downvote_month_page(bird: Bird, votes: i32, sel_year: i32, sel_month: u32) -> (r:
    TeraDownVote)
    requires
        1 <= sel_month <= 12,
    ensures
        r.bird == bird,
        r.votes == votes,
        r.referer@ == "/"@ + signed_decimal(sel_year as int) + "/"@ + decimal(sel_month as nat),
        r.error_message is None,
        r.month matches Some(m) && m@ == month_name_spec(sel_month as int),
        r.year == Some(sel_year),
{
    TeraDownVote {
        bird,
        votes,
        referer: month_path(sel_year, sel_month),
        error_message: None,
        month: Some(String::from_str(month_name(sel_month))),
        year: Some(sel_year),
    }
}

/// The outcome of a downvote that the address's count decides: refused
/// with the limit message, or counted with `new_votes`.
pub fn settle_downvote(page: TeraDownVote, ip_count: u32, new_votes: Option<i32>) -> (r: (
    TeraDownVote,
    bool,
))
    requires
        !vote_refused(ip_count) ==> new_votes is Some,
    ensures
        r.0.bird == page.bird,
        r.0.referer == page.referer,
        r.0.month == page.month,
        r.0.year == page.year,
        vote_refused(ip_count) ==> !r.1 && r.0.votes == page.votes && (r.0.error_message matches Some(
            m,
        ) && m@ == ip_limit_message_text()),
        !vote_refused(ip_count) ==> r.1 && r.0.votes == new_votes->0 && r.0.error_message
            == page.error_message,
{
    let mut page = page;
    if ip_limit_reached(ip_count) {
        page.error_message = Some(ip_limit_message());
        (page, false)
    } else {
        match new_votes {
            Some(v) => {
                page.votes = v;
                (page, true)
            },
            None => (page, true),
        }
    }
}

/// `months` as bytes, cut as `as u8` cuts them.
pub open spec fn month_bytes(months: Seq<u32>) -> Seq<u8> {
    months.map_values(|m: u32| m as u8)
}

/// The short names and numbers of `months`.
fn month_lists(months: &Vec<u32>) -> (r: (Vec<String>, Vec<u8>))
    requires
        forall|i: int| 0 <= i < months@.len() ==> 1 <= #[trigger] months@[i] <= 12,
    ensures
        r.0@.len() == months@.len(),
        forall|i: int| 0 <= i < months@.len() ==> (#[trigger] r.0@[i])@ == month_abbrev(
            months@[i] as int,
        ),
        r.1@ == month_bytes(months@),
{
    let n = months.len();
    let mut labels: Vec<String> = Vec::new();
    let mut nums: Vec<u8> = Vec::new();
    let mut i: usize = 0;
    while i < n
        invariant
            i <= n == months@.len(),
            forall|j: int| 0 <= j < months@.len() ==> 1 <= #[trigger] months@[j] <= 12,
            labels@.len() == i,
            forall|j: int| 0 <= j < i ==> (#[trigger] labels@[j])@ == month_abbrev(
                months@[j] as int,
            ),
            nums@ == month_bytes(months@.take(i as int)),
        decreases n - i,
    {
        let m = months[i];
        labels.push(month_to_shortmonth(m));
        nums.push(m as u8);
        assert(month_bytes(months@.take(i + 1)) =~= month_bytes(months@.take(i as int)).push(
            m as u8,
        ));
        i = i + 1;
    }
    assert(months@.take(n as int) =~= months@);
    (labels, nums)
}

/// The data of the page of `sel_year`: the years with votes and the
/// current one, the months of the selected year, its birds and their top
/// vote (as `u32`, cut as `as` cuts it).
pub fn year_page(
    sel_year: i32,
    distinct_years: Vec<i32>,
    now_year: i32,
    distinct_months: Vec<u32>,
    birds: Vec<(Bird, i32)>,
) -> (r: TeraTemplate)
    requires
        forall|i: int| 0 <= i < distinct_months@.len() ==> 1 <= #[trigger] distinct_months@[i]
            <= 12,
    ensures
        r.sel_year == sel_year,
        r.sel_month is None,
        r.sel_month_path is None,
        r.years@ == distinct_years@.push(now_year),
        r.months@.len() == distinct_months@.len(),
        forall|i: int| 0 <= i < distinct_months@.len() ==> (#[trigger] r.months@[i])@
            == month_abbrev(distinct_months@[i] as int),
        r.months_num@ == month_bytes(distinct_months@),
        r.birds@ == birds@,
        r.max_vote == max_votes(birds@) as u32,
{
    let mut years = distinct_years;
    years.push(now_year);
    let (months, months_num) = month_lists(&distinct_months);
    let max = max_vote(&birds);
    TeraTemplate {
        sel_year,
        sel_month: None,
        sel_month_path: None,
        years,
        months,
        months_num,
        max_vote: max as u32,
        birds,
    }
}

/// The data of the page of `sel_month` of `sel_year`: as for a year, with
/// the month's short name and its path `/{month}`.
pub fn month_page(
    sel_year: i32,
    sel_month: u32,
    distinct_years: Vec<i32>,
    now_year: i32,
    distinct_months: Vec<u32>,
    birds: Vec<(Bird, i32)>,
) -> (r: TeraTemplate)
    requires
        1 <= sel_month <= 12,
        forall|i: int| 0 <= i < distinct_months@.len() ==> 1 <= #[trigger] distinct_months@[i]
            <= 12,
    ensures
        r.sel_year == sel_year,
        r.sel_month matches Some(m) && m@ == month_abbrev(sel_month as int),
        r.sel_month_path matches Some(p) && p@ == "/"@ + decimal(sel_month as nat),
        r.years@ == distinct_years@.push(now_year),
        r.months@.len() == distinct_months@.len(),
        forall|i: int| 0 <= i < distinct_months@.len() ==> (#[trigger] r.months@[i])@
            == month_abbrev(distinct_months@[i] as int),
        r.months_num@ == month_bytes(distinct_months@),
        r.birds@ == birds@,
        r.max_vote == max_votes(birds@) as u32,
{
    let mut page = year_page(sel_year, distinct_years, now_year, distinct_months, birds);
    page.sel_month = Some(month_to_shortmonth(sel_month));
    let mut path = String::from_str("/");
    push_decimal(&mut path, sel_month as u64);
    page.sel_month_path = Some(path);
    page
}

/// The query for the months of `year` that have birds.
pub fn distinct_months_query(year: i32) -> (r: String)
    ensures
        r@ == "select distinct month from worstbird_month where year = "@ + signed_decimal(
            year as int,
        ),
{
    let mut s = String::from_str("select distinct month from worstbird_month where year = ");
    push_signed(&mut s, year as i64);
    s
}

/// The query for the years that have birds.
pub const DISTINCT_YEARS_QUERY: &'static str = "select distinct year from worstbird_year";

/// `get_distinct_months`, on the loaded rows: their months as `u32`.
pub fn get_distinct_months(rows: &Vec<DistinctMonth>) -> (r: Vec<u32>)
    ensures
        r@ == rows@.map_values(|e: DistinctMonth| e.month as u32),
{
    let n = rows.len();
    let mut r: Vec<u32> = Vec::new();
    let mut i: usize = 0;
    while i < n
        invariant
            i <= n == rows@.len(),
            r@ == rows@.take(i as int).map_values(|e: DistinctMonth| e.month as u32),
        decreases n - i,
    {
        r.push(rows[i].month as u32);
        assert(rows@.take(i + 1).map_values(|e: DistinctMonth| e.month as u32) =~= rows@.take(
            i as int,
        ).map_values(|e: DistinctMonth| e.month as u32).push(rows@[i as int].month as u32));
        i = i + 1;
    }
    assert(rows@.take(n as int) =~= rows@);
    r
}

/// `get_distinct_years`, on the loaded rows: their years.
pub fn get_distinct_years(rows: &Vec<DistinctYear>) -> (r: Vec<i32>)
    ensures
        r@ == rows@.map_values(|e: DistinctYear| e.year),
{
    let n = rows.len();
    let mut r: Vec<i32> = Vec::new();
    let mut i: usize = 0;
    while i < n
        invariant
            i <= n == rows@.len(),
            r@ == rows@.take(i as int).map_values(|e: DistinctYear| e.year),
        decreases n - i,
    {
        r.push(rows[i].year);
        assert(rows@.take(i + 1).map_values(|e: DistinctYear| e.year) =~= rows@.take(
            i as int,
        ).map_values(|e: DistinctYear| e.year).push(rows@[i as int].year));
        i = i + 1;
    }
    assert(rows@.take(n as int) =~= rows@);
    r
}

} // verus!
