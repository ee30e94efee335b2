//! The monthly tweet that announces the worstbird of the past month.
use vstd::prelude::*;
use crate::calendar::{
    get_previous_month, get_previous_year_if_necessary, month_name, month_name_spec,
    previous_month_spec, previous_year_spec,
};
use crate::decimal::{decimal, push_decimal};
use crate::models::{Bird, TweetMSG};
use crate::scrape::utf8_len;

verus! {

/// Why a message is not tweeted.
#[derive(Debug, Clone, Copy, PartialEq, Eq, Structural)]
pub enum TweetError {
    TooLong,
}

impl TweetError {
    /// The text the error is reported with.
    pub fn message(&self) -> (r: &'static str)
        ensures
            r@ == "Message to long"@,
    {
        "Message to long"
    }
}

/// The length in bytes that `String::len` reports for `s`.
pub open spec fn byte_len(s: Seq<char>) -> usize {
    utf8_len(s) as usize
}

/// A message may be tweeted when its stated size is 1 to 280 and its text
/// is 1 to 279 bytes long.
pub open spec fn tweet_allowed(size: i32, text: Seq<char>) -> bool {
    &&& size <= 280
    &&& size > 0
    &&& byte_len(text) < 280
    &&& byte_len(text) > 0
}

/// What `tweet` tests before it sends a message.
pub fn check_tweet(msg: &TweetMSG) -> (r: Result<(), TweetError>)
    ensures
        tweet_allowed(msg.size, msg.text@) ==> r is Ok,
        !tweet_allowed(msg.size, msg.text@) ==> r == Err::<(), TweetError>(TweetError::TooLong),
{
    let len = msg.text.as_str().len();
    if msg.size <= 280 && msg.size > 0 && len < 280 && len > 0 {
        Ok(())
    } else {
        Err(TweetError::TooLong)
    }
}

/// The tweet that announces `bird` as the worstbird of `month` of `year`.
pub open spec fn tweet_text(bird: Bird, month: int, year: nat) -> Seq<char> {
    "Worstbird of "@ + month_name_spec(month) + " "@ + decimal(year) + ": "@ + bird.name@ + "\n"@
        + "@daspodcastufo #daspodcastufo"@ + "\n"@ + "https://worstbird.eu/"@ + decimal(year)
        + "/"@ + decimal(month as nat) + "\n"@ + bird.url@
}

/// `generate_msg`: the tweet that announces `bird` as the worstbird of
/// `month` of `year`, with a link to that month's page.
pub fn generate_msg(bird: &Bird, month: u32, year: u32) -> (r: String)
    requires
        1 <= month <= 12,
    ensures
        r@ == tweet_text(*bird, month as int, year as nat),
{
    let mut s = String::from_str("Worstbird of ");
    s.append(month_name(month));
    s.append(" ");
    push_decimal(&mut s, year as u64);
    s.append(": ");
    s.append(bird.name.as_str());
    s.append("\n");
    s.append("@daspodcastufo #daspodcastufo");
    s.append("\n");
    s.append("https://worstbird.eu/");
    push_decimal(&mut s, year as u64);
    s.append("/");
    push_decimal(&mut s, month as u64);
    s.append("\n");
    s.append(bird.url.as_str());
    s
}

/// The month and year before the current ones, whose worstbirds are
/// announced.
pub fn previous_period(now_month: i32, now_year: i32) -> (r: (i32, i32))
    requires
        1 <= now_month <= 12,
        now_month == 1 ==> now_year > i32::MIN,
    ensures
        r.0 == previous_month_spec(now_month as int),
        r.1 == previous_year_spec(now_month as int, now_year as int),
        1 <= r.0 <= 12,
{
    (get_previous_month(now_month), get_previous_year_if_necessary(now_month, now_year))
}

/// The tweets of `send_post`: one per worstbird of `month` of `year`, in
/// order, each with its length in bytes (as `i32`, cut as `as` cuts it).
pub fn tweets_for(birds: &Vec<Bird>, month: u32, year: u32) -> (r: Vec<TweetMSG>)
    requires
        1 <= month <= 12,
    ensures
        r@.len() == birds@.len(),
        forall|i: int|
            0 <= i < birds@.len() ==> (#[trigger] r@[i]).text@ == tweet_text(
                birds@[i],
                month as int,
                year as nat,
            ) && r@[i].size == byte_len(r@[i].text@) as i32,
{
    let n = birds.len();
    let mut r: Vec<TweetMSG> = Vec::new();
    let mut i: usize = 0;
    while i < n
        invariant
            i <= n == birds@.len(),
            1 <= month <= 12,
            r@.len() == i,
            forall|j: int|
                0 <= j < i ==> (#[trigger] r@[j]).text@ == tweet_text(
                    birds@[j],
                    month as int,
                    year as nat,
                ) && r@[j].size == byte_len(r@[j].text@) as i32,
        decreases n - i,
    {
        let text = generate_msg(&birds[i], month, year);
        let size = text.as_str().len() as i32;
        r.push(TweetMSG { size, text });
        i = i + 1;
    }
    r
}

} // verus!
