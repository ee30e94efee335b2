use worstbird::calendar::get_previous_month;
use worstbird::models::{Bird, TweetMSG};
use worstbird::tweets::{check_tweet, generate_msg, previous_period, tweets_for, TweetError};

fn loon() -> Bird {
    Bird {
        id: 1,
        name: "Common Loon".to_string(),
        description: String::new(),
        assetid: String::new(),
        url: "https://ebird.org/species/comloo".to_string(),
        width: 320,
        height: 180,
    }
}

#[test]
fn test1() {
    for i in 1..12 {
        println!("{}|{}", i, get_previous_month(i));
        assert_eq!(get_previous_month(i), if i == 1 { 12 } else { i - 1 });
    }
    assert!(true);
}

#[test]
fn message_of_a_worstbird() {
    assert_eq!(
        generate_msg(&loon(), 6, 2021),
        "Worstbird of June 2021: Common Loon\n@daspodcastufo #daspodcastufo\nhttps://worstbird.eu/2021/6\nhttps://ebird.org/species/comloo"
    );
}

#[test]
fn tweets_are_checked() {
    let ok = TweetMSG { size: 10, text: "0123456789".to_string() };
    assert!(check_tweet(&ok).is_ok());
    let empty = TweetMSG { size: 0, text: String::new() };
    assert_eq!(check_tweet(&empty), Err(TweetError::TooLong));
    let long = TweetMSG { size: 280, text: "a".repeat(280) };
    assert_eq!(check_tweet(&long), Err(TweetError::TooLong));
    let just = TweetMSG { size: 279, text: "a".repeat(279) };
    assert!(check_tweet(&just).is_ok());
    let multi = TweetMSG { size: 200, text: "é".repeat(140) };
    assert!(check_tweet(&multi).is_err());
    assert_eq!(TweetError::TooLong.message(), "Message to long");
}

#[test]
fn tweets_for_worstbirds() {
    let tweets = tweets_for(&vec![loon(), loon()], 12, 2021);
    assert_eq!(tweets.len(), 2);
    assert_eq!(tweets[0].size as usize, tweets[0].text.len());
    assert!(tweets[1].text.starts_with("Worstbird of December 2021: Common Loon"));
    assert!(tweets_for(&vec![], 1, 2021).is_empty());
}

#[test]
fn previous_period_of_january() {
    assert_eq!(previous_period(1, 2022), (12, 2021));
    assert_eq!(previous_period(7, 2022), (6, 2022));
}
