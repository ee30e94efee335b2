use worstbird::models::{Bird, WBMonth, WBYear};
use worstbird::ranking::{
    get_worstbird_month, get_worstbird_year, max_vote, month_worstbirds_exec, new_year_entries,
};

fn bird(id: i32) -> Bird {
    Bird {
        id,
        name: format!("bird{}", id),
        description: "lol".to_string(),
        assetid: "40709911".to_string(),
        url: "asdf".to_string(),
        width: 320,
        height: 180,
    }
}

fn row(bird_id: i32, month: i32, votes: i32) -> WBMonth {
    WBMonth { bird_id, month, year: 2021, votes }
}

#[test]
fn worstbirds_of_a_year_with_a_tie() {
    let birds = vec![(bird(1), 0), (bird(2), 1), (bird(3), 1), (bird(4), 0), (bird(5), 0)];
    let worst = get_worstbird_year(birds);
    let ids: Vec<(i32, i32)> = worst.iter().map(|e| (e.0.id, e.1)).collect();
    assert_eq!(ids, vec![(2, 1), (3, 1)]);
}

#[test]
fn worstbirds_of_no_birds() {
    assert!(get_worstbird_year(Vec::new()).is_empty());
    assert!(get_worstbird_month(&Vec::new()).is_empty());
    assert_eq!(max_vote(&Vec::new()), 0);
}

#[test]
fn worstbirds_with_negative_votes() {
    let birds = vec![(bird(1), -3), (bird(2), -1), (bird(3), -2)];
    assert_eq!(max_vote(&birds), -1);
    let worst = get_worstbird_month(&birds);
    assert_eq!(worst.len(), 1);
    assert_eq!(worst[0].id, 2);
    assert_eq!(worst[0].name, "bird2");
}

#[test]
fn worstbird_of_a_month_keeps_the_birds() {
    let birds = vec![(bird(7), 4), (bird(8), 9)];
    let worst = get_worstbird_month(&birds);
    assert_eq!(worst.len(), 1);
    assert_eq!(worst[0].id, 8);
    assert_eq!(worst[0].url, "asdf");
    assert_eq!(worst[0].width, 320);
}

#[test]
fn month_worstbirds_keep_ties() {
    let rows = vec![row(1, 3, 5), row(2, 3, 7), row(3, 4, 9), row(4, 3, 7), row(5, 3, 2)];
    assert_eq!(month_worstbirds_exec(&rows, 3), vec![row(2, 3, 7), row(4, 3, 7)]);
    assert_eq!(month_worstbirds_exec(&rows, 4), vec![row(3, 4, 9)]);
    assert!(month_worstbirds_exec(&rows, 5).is_empty());
}

#[test]
fn year_vote_gets_the_worstbirds_of_each_month() {
    let rows = vec![
        row(30, 12, 0),
        row(10, 1, 3),
        row(11, 1, 8),
        row(20, 2, 1),
        row(31, 12, 0),
    ];
    let entries = new_year_entries(&rows, 2021);
    assert_eq!(
        entries,
        vec![
            WBYear { bird_id: 11, year: 2021, votes: 0 },
            WBYear { bird_id: 20, year: 2021, votes: 0 },
            WBYear { bird_id: 30, year: 2021, votes: 0 },
            WBYear { bird_id: 31, year: 2021, votes: 0 },
        ]
    );
}

#[test]
fn year_vote_of_no_rows() {
    assert!(new_year_entries(&Vec::new(), 2021).is_empty());
}
