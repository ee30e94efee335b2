use worstbird::fetcher::{fetch_plan, MonthFill, BIRDS_PER_MONTH};
use worstbird::models::{Bird, WBMonth};

#[test]
fn monthly_job_plan() {
    assert_eq!(fetch_plan(0, 3), (true, false));
    assert_eq!(fetch_plan(1, 1), (false, true));
    assert_eq!(fetch_plan(2, 6), (false, false));
}

#[test]
fn a_month_takes_five_birds() {
    let mut fill = MonthFill::new();
    let mut rows = Vec::new();
    let mut id = 100;
    while fill.needs_more() {
        rows.push(fill.bird_stored(id, 11, 2021));
        id += 1;
    }
    assert_eq!(rows.len(), BIRDS_PER_MONTH as usize);
    assert_eq!(rows[0], WBMonth { bird_id: 100, month: 11, year: 2021, votes: 0 });
    assert_eq!(fill.added, 5);
}

#[test]
fn bird_copies_are_equal() {
    let b = Bird {
        id: 1,
        name: "n".to_string(),
        description: "d".to_string(),
        assetid: "a".to_string(),
        url: "u".to_string(),
        width: 2,
        height: 3,
    };
    let c = b.copy();
    assert_eq!((c.id, c.name.as_str(), c.url.as_str(), c.height), (1, "n", "u", 3));
}
