//! Which birds are the worst: the birds with the most votes of a month or
//! a year, and the monthly winners that go into the vote of the year.
use vstd::prelude::*;
use crate::models::{Bird, WBMonth, WBYear};

verus! {

/// The largest of the votes in `s`, which must not be empty.
pub open spec fn seq_max(s: Seq<(Bird, i32)>) -> int
    decreases s.len(),
{
    if s.len() <= 1 {
        s[0].1 as int
    } else {
        let m = seq_max(s.drop_last());
        if s.last().1 > m {
            s.last().1 as int
        } else {
            m
        }
    }
}

/// The largest of the votes in `s`, or 0 when `s` is empty
/// (`iter().map(|e| e.1).max().unwrap_or(0)`).
pub open spec fn max_votes(s: Seq<(Bird, i32)>) -> int {
    if s.len() == 0 {
        0
    } else {
        seq_max(s)
    }
}

/// The entries of `s` with exactly `votes` votes, in their order.
pub open spec fn with_votes(s: Seq<(Bird, i32)>, votes: int) -> Seq<(Bird, i32)>
    decreases s.len(),
{
    if s.len() == 0 {
        s
    } else if s.last().1 == votes {
        with_votes(s.drop_last(), votes).push(s.last())
    } else {
        with_votes(s.drop_last(), votes)
    }
}

/// The birds of `s` with exactly `votes` votes, in their order.
pub open spec fn birds_with_votes(s: Seq<(Bird, i32)>, votes: int) -> Seq<Bird> {
    with_votes(s, votes).map_values(|e: (Bird, i32)| e.0)
}

/// The largest number of votes of `birds`, or 0 when there is none.
pub fn max_vote(birds: &Vec<(Bird, i32)>) -> (r: i32)
    ensures
        r == max_votes(birds@),
{
    let n = birds.len();
    if n == 0 {
        return 0;
    }
    let mut m = birds[0].1;
    let mut i: usize = 1;
    assert(birds@.take(1).drop_last() =~= Seq::<(Bird, i32)>::empty());
    while i < n
        invariant
            1 <= i <= n == birds@.len(),
            m == seq_max(birds@.take(i as int)),
        decreases n - i,
    {
        assert(birds@.take(i + 1).drop_last() =~= birds@.take(i as int));
        if birds[i].1 > m {
            m = birds[i].1;
        }
        i = i + 1;
    }
    assert(birds@.take(n as int) =~= birds@);
    m
}

/// `seq_max` is the largest vote and some entry has it.
pub proof fn lemma_seq_max(s: Seq<(Bird, i32)>)
    requires
        s.len() > 0,
    ensures
        forall|i: int| 0 <= i < s.len() ==> s[i].1 <= seq_max(s),
        exists|i: int| 0 <= i < s.len() && s[i].1 == seq_max(s),
    decreases s.len(),
{
    if s.len() > 1 {
        let t = s.drop_last();
        lemma_seq_max(t);
        assert forall|i: int| 0 <= i < s.len() implies s[i].1 <= seq_max(s) by {
            if i < s.len() - 1 {
                assert(s[i] == t[i]);
            }
        }
        if s.last().1 > seq_max(t) {
            assert(s[s.len() - 1].1 == seq_max(s));
        } else {
            let k = choose|k: int| 0 <= k < t.len() && t[k].1 == seq_max(t);
            assert(s[k] == t[k]);
        }
    } else {
        assert(s[0].1 == seq_max(s));
    }
}

/// What `with_votes` keeps: exactly the entries with that many votes.
pub proof fn lemma_with_votes(s: Seq<(Bird, i32)>, votes: int)
    ensures
        forall|i: int| 0 <= i < with_votes(s, votes).len() ==> #[trigger] with_votes(s, votes)[i].1
            == votes,
        forall|i: int|
            0 <= i < s.len() && s[i].1 == votes ==> with_votes(s, votes).contains(#[trigger] s[i]),
        forall|i: int|
            0 <= i < with_votes(s, votes).len() ==> s.contains(#[trigger] with_votes(s, votes)[i]),
    decreases s.len(),
{
    if s.len() > 0 {
        let t = s.drop_last();
        lemma_with_votes(t, votes);
        let w = with_votes(t, votes);
        assert forall|i: int| 0 <= i < s.len() && s[i].1 == votes implies with_votes(
            s,
            votes,
        ).contains(#[trigger] s[i]) by {
            if i < s.len() - 1 {
                assert(s[i] == t[i]);
                let k = choose|k: int| 0 <= k < w.len() && w[k] == t[i];
                assert(with_votes(s, votes)[k] == w[k]);
            } else {
                assert(with_votes(s, votes)[w.len() as int] == s[i]);
            }
        }
        assert forall|i: int| 0 <= i < with_votes(s, votes).len() implies s.contains(
            #[trigger] with_votes(s, votes)[i],
        ) by {
            if i < w.len() {
                assert(with_votes(s, votes)[i] == w[i]);
                let k = choose|k: int| 0 <= k < t.len() && t[k] == w[i];
                assert(s[k] == t[k]);
            } else {
                assert(s[s.len() - 1] == s.last());
            }
        }
    }
}

/// The entries of `birds` with `votes` votes, in order.
fn entries_with_votes(birds: &Vec<(Bird, i32)>, votes: i32) -> (r: Vec<(Bird, i32)>)
    ensures
        r@ == with_votes(birds@, votes as int),
{
    let n = birds.len();
    let mut r: Vec<(Bird, i32)> = Vec::new();
    let mut i: usize = 0;
    while i < n
        invariant
            i <= n == birds@.len(),
            r@ == with_votes(birds@.take(i as int), votes as int),
        decreases n - i,
    {
        assert(birds@.take(i + 1).drop_last() =~= birds@.take(i as int));
        if birds[i].1 == votes {
            r.push((birds[i].0.copy(), birds[i].1));
        }
        i = i + 1;
    }
    assert(birds@.take(n as int) =~= birds@);
    r
}

/// `get_worstbird_year`, on the birds of a year and their votes: the worst
/// birds of the year, those with the most votes (several on a tie), in
/// their order.
pub fn get_worstbird_year(birds_year: Vec<(Bird, i32)>) -> (r: Vec<(Bird, i32)>)
    ensures
        r@ == with_votes(birds_year@, max_votes(birds_year@)),
{
    let max = max_vote(&birds_year);
    entries_with_votes(&birds_year, max)
}

/// `get_worstbird_month`, on the birds of a month and their votes: the
/// worst birds of the month, those with the most votes (several on a tie),
/// in their order.
pub fn get_worstbird_month(results: &Vec<(Bird, i32)>) -> (r: Vec<Bird>)
    ensures
        r@ == birds_with_votes(results@, max_votes(results@)),
{
    let max = max_vote(results);
    let kept = entries_with_votes(results, max);
    let n = kept.len();
    let mut r: Vec<Bird> = Vec::new();
    let mut i: usize = 0;
    while i < n
        invariant
            i <= n == kept@.len(),
            r@ == kept@.take(i as int).map_values(|e: (Bird, i32)| e.0),
        decreases n - i,
    {
        r.push(kept[i].0.copy());
        assert(kept@.take(i + 1).map_values(|e: (Bird, i32)| e.0) =~= kept@.take(
            i as int,
        ).map_values(|e: (Bird, i32)| e.0).push(kept@[i as int].0));
        i = i + 1;
    }
    assert(kept@.take(n as int) =~= kept@);
    r
}

/// The worst birds are the worst: each has as many votes as any bird, every
/// bird with that many votes is among them, each comes from the input, and
/// there is at least one when there is any bird.
pub proof fn lemma_worstbirds_are_worst(birds: Seq<(Bird, i32)>)
    ensures
        ({
            let w = with_votes(birds, max_votes(birds));
            &&& forall|i: int, j: int|
                0 <= i < w.len() && 0 <= j < birds.len() ==> (#[trigger] birds[j]).1 <= (#[trigger] w[i]).1
            &&& forall|j: int|
                0 <= j < birds.len() && birds[j].1 == max_votes(birds) ==> w.contains(
                    #[trigger] birds[j],
                )
            &&& forall|i: int| 0 <= i < w.len() ==> birds.contains(#[trigger] w[i])
            &&& birds.len() > 0 ==> w.len() > 0
        }),
{
    lemma_with_votes(birds, max_votes(birds));
    if birds.len() > 0 {
        lemma_seq_max(birds);
        let k = choose|k: int| 0 <= k < birds.len() && birds[k].1 == seq_max(birds);
        assert(with_votes(birds, max_votes(birds)).contains(birds[k]));
    }
}

/// The rows of `month`, in their order.
pub open spec fn rows_of_month(rows: Seq<WBMonth>, month: int) -> Seq<WBMonth>
    decreases rows.len(),
{
    if rows.len() == 0 {
        rows
    } else if rows.last().month == month {
        rows_of_month(rows.drop_last(), month).push(rows.last())
    } else {
        rows_of_month(rows.drop_last(), month)
    }
}

/// The largest number of votes of `rows`, which must not be empty.
pub open spec fn row_max(rows: Seq<WBMonth>) -> int
    decreases rows.len(),
{
    if rows.len() <= 1 {
        rows[0].votes as int
    } else {
        let m = row_max(rows.drop_last());
        if rows.last().votes > m {
            rows.last().votes as int
        } else {
            m
        }
    }
}

/// The rows of `rows` with exactly `votes` votes, in their order.
pub open spec fn rows_with_votes(rows: Seq<WBMonth>, votes: int) -> Seq<WBMonth>
    decreases rows.len(),
{
    if rows.len() == 0 {
        rows
    } else if rows.last().votes == votes {
        rows_with_votes(rows.drop_last(), votes).push(rows.last())
    } else {
        rows_with_votes(rows.drop_last(), votes)
    }
}

/// The worstbirds of `month`: its rows with the most votes of the month
/// (several on a tie), in their order; none when the month has no rows.
pub open spec fn month_worstbirds(rows: Seq<WBMonth>, month: int) -> Seq<WBMonth> {
    let of_month = rows_of_month(rows, month);
    if of_month.len() == 0 {
        of_month
    } else {
        rows_with_votes(of_month, row_max(of_month))
    }
}

/// The entry of the year vote for a monthly worstbird, with no votes yet.
pub open spec fn year_entry(row: WBMonth, year: i32) -> WBYear {
    WBYear { bird_id: row.bird_id, year, votes: 0 }
}

/// The entries of the year vote for the worstbirds of the months 1 to
/// `upto`, month by month.
pub open spec fn year_entries(rows: Seq<WBMonth>, year: i32, upto: int) -> Seq<WBYear>
    decreases upto,
{
    if upto <= 0 {
        Seq::empty()
    } else {
        year_entries(rows, year, upto - 1) + month_worstbirds(rows, upto).map_values(
            |r: WBMonth| year_entry(r, year),
        )
    }
}

/// The rows of `month`.
fn rows_of_month_exec(rows: &Vec<WBMonth>, month: i32) -> (r: Vec<WBMonth>)
    ensures
        r@ == rows_of_month(rows@, month as int),
{
    let n = rows.len();
    let mut r: Vec<WBMonth> = Vec::new();
    let mut i: usize = 0;
    while i < n
        invariant
            i <= n == rows@.len(),
            r@ == rows_of_month(rows@.take(i as int), month as int),
        decreases n - i,
    {
        assert(rows@.take(i + 1).drop_last() =~= rows@.take(i as int));
        if rows[i].month == month {
            r.push(rows[i]);
        }
        i = i + 1;
    }
    assert(rows@.take(n as int) =~= rows@);
    r
}

/// The worstbirds of `month`: its rows with the most votes of the month.
pub fn month_worstbirds_exec(rows: &Vec<WBMonth>, month: i32) -> (r: Vec<WBMonth>)
    ensures
        r@ == month_worstbirds(rows@, month as int),
{
    let of_month = rows_of_month_exec(rows, month);
    let n = of_month.len();
    if n == 0 {
        return of_month;
    }
    let mut m = of_month[0].votes;
    let mut i: usize = 1;
    assert(of_month@.take(1).drop_last() =~= Seq::<WBMonth>::empty());
    while i < n
        invariant
            1 <= i <= n == of_month@.len(),
            m == row_max(of_month@.take(i as int)),
        decreases n - i,
    {
        assert(of_month@.take(i + 1).drop_last() =~= of_month@.take(i as int));
        if of_month[i].votes > m {
            m = of_month[i].votes;
        }
        i = i + 1;
    }
    assert(of_month@.take(n as int) =~= of_month@);
    let mut r: Vec<WBMonth> = Vec::new();
    i = 0;
    while i < n
        invariant
            i <= n == of_month@.len(),
            r@ == rows_with_votes(of_month@.take(i as int), m as int),
        decreases n - i,
    {
        assert(of_month@.take(i + 1).drop_last() =~= of_month@.take(i as int));
        if of_month[i].votes == m {
            r.push(of_month[i]);
        }
        i = i + 1;
    }
    assert(of_month@.take(n as int) =~= of_month@);
    r
}

/// `new_year_create`, on the month rows of the past year: the worstbirds of
/// each month, January to December, enter the vote of `year` with no votes.
pub fn new_year_entries(rows: &Vec<WBMonth>, year: i32) -> (r: Vec<WBYear>)
    ensures
        r@ == year_entries(rows@, year, 12),
{
    let mut r: Vec<WBYear> = Vec::new();
    let mut month: i32 = 1;
    while month <= 12
        invariant
            1 <= month <= 13,
            r@ == year_entries(rows@, year, month - 1),
        decreases 13 - month,
    {
        let worst = month_worstbirds_exec(rows, month);
        let n = worst.len();
        let ghost before = r@;
        let mut i: usize = 0;
        while i < n
            invariant
                i <= n == worst@.len(),
                r@ == before + worst@.take(i as int).map_values(|w: WBMonth| year_entry(w, year)),
            decreases n - i,
        {
            r.push(WBYear { bird_id: worst[i].bird_id, year, votes: 0 });
            assert(worst@.take(i + 1).map_values(|w: WBMonth| year_entry(w, year)) =~= worst@.take(
                i as int,
            ).map_values(|w: WBMonth| year_entry(w, year)).push(year_entry(worst@[i as int], year)));
            i = i + 1;
        }
        assert(worst@.take(n as int) =~= worst@);
        month = month + 1;
    }
    r
}

/// `row_max` is the largest vote of the rows and some row has it.
pub proof fn lemma_row_max(rows: Seq<WBMonth>)
    requires
        rows.len() > 0,
    ensures
        forall|i: int| 0 <= i < rows.len() ==> rows[i].votes <= row_max(rows),
        exists|i: int| 0 <= i < rows.len() && rows[i].votes == row_max(rows),
    decreases rows.len(),
{
    if rows.len() > 1 {
        let t = rows.drop_last();
        lemma_row_max(t);
        assert forall|i: int| 0 <= i < rows.len() implies rows[i].votes <= row_max(rows) by {
            if i < rows.len() - 1 {
                assert(rows[i] == t[i]);
            }
        }
        if rows.last().votes > row_max(t) {
            assert(rows[rows.len() - 1].votes == row_max(rows));
        } else {
            let k = choose|k: int| 0 <= k < t.len() && t[k].votes == row_max(t);
            assert(rows[k] == t[k]);
        }
    } else {
        assert(rows[0].votes == row_max(rows));
    }
}

/// What a filter on a field keeps: exactly the elements with that value,
/// each from the input.
pub proof fn lemma_rows_filters(rows: Seq<WBMonth>, month: int, votes: int)
    ensures
        forall|i: int| 0 <= i < rows_of_month(rows, month).len() ==> (#[trigger] rows_of_month(
            rows,
            month,
        )[i]).month == month && rows.contains(rows_of_month(rows, month)[i]),
        forall|i: int|
            0 <= i < rows.len() && rows[i].month == month ==> rows_of_month(rows, month).contains(
                #[trigger] rows[i],
            ),
        forall|i: int| 0 <= i < rows_with_votes(rows, votes).len() ==> (
        #[trigger] rows_with_votes(rows, votes)[i]).votes == votes && rows.contains(
            rows_with_votes(rows, votes)[i],
        ),
        forall|i: int|
            0 <= i < rows.len() && rows[i].votes == votes ==> rows_with_votes(rows, votes).contains(
                #[trigger] rows[i],
            ),
    decreases rows.len(),
{
    if rows.len() > 0 {
        let t = rows.drop_last();
        lemma_rows_filters(t, month, votes);
        let a = rows_of_month(t, month);
        let b = rows_with_votes(t, votes);
        assert forall|i: int| 0 <= i < rows.len() - 1 implies rows[i] == t[i] by {}
        assert forall|i: int| 0 <= i < rows_of_month(rows, month).len() implies (
        #[trigger] rows_of_month(rows, month)[i]).month == month && rows.contains(
            rows_of_month(rows, month)[i],
        ) by {
            if i < a.len() {
                assert(rows_of_month(rows, month)[i] == a[i]);
                let k = choose|k: int| 0 <= k < t.len() && t[k] == a[i];
                assert(rows[k] == t[k]);
            } else {
                assert(rows[rows.len() - 1] == rows.last());
            }
        }
        assert forall|i: int|
            0 <= i < rows.len() && rows[i].month == month implies rows_of_month(
            rows,
            month,
        ).contains(#[trigger] rows[i]) by {
            if i < rows.len() - 1 {
                let k = choose|k: int| 0 <= k < a.len() && a[k] == t[i];
                assert(rows_of_month(rows, month)[k] == a[k]);
            } else {
                assert(rows_of_month(rows, month)[a.len() as int] == rows[i]);
            }
        }
        assert forall|i: int| 0 <= i < rows_with_votes(rows, votes).len() implies (
        #[trigger] rows_with_votes(rows, votes)[i]).votes == votes && rows.contains(
            rows_with_votes(rows, votes)[i],
        ) by {
            if i < b.len() {
                assert(rows_with_votes(rows, votes)[i] == b[i]);
                let k = choose|k: int| 0 <= k < t.len() && t[k] == b[i];
                assert(rows[k] == t[k]);
            } else {
                assert(rows[rows.len() - 1] == rows.last());
            }
        }
        assert forall|i: int|
            0 <= i < rows.len() && rows[i].votes == votes implies rows_with_votes(
            rows,
            votes,
        ).contains(#[trigger] rows[i]) by {
            if i < rows.len() - 1 {
                let k = choose|k: int| 0 <= k < b.len() && b[k] == t[i];
                assert(rows_with_votes(rows, votes)[k] == b[k]);
            } else {
                assert(rows_with_votes(rows, votes)[b.len() as int] == rows[i]);
            }
        }
    }
}

/// The worstbirds of a month are rows of that month with the most votes of
/// the month; every row of the month with that many votes is among them;
/// and there is one exactly when the month has rows.
pub proof fn lemma_month_worstbirds(rows: Seq<WBMonth>, month: int)
    ensures
        forall|i: int, j: int|
            0 <= i < month_worstbirds(rows, month).len() && 0 <= j < rows.len() && rows[j].month
                == month ==> (#[trigger] rows[j]).votes <= (#[trigger] month_worstbirds(
                rows,
                month,
            )[i]).votes,
        forall|i: int| 0 <= i < month_worstbirds(rows, month).len() ==> (
        #[trigger] month_worstbirds(rows, month)[i]).month == month && rows.contains(
            month_worstbirds(rows, month)[i],
        ),
        forall|j: int, i: int|
            0 <= j < rows.len() && 0 <= i < month_worstbirds(rows, month).len() && (
            #[trigger] rows[j]).month == month && rows[j].votes == (#[trigger] month_worstbirds(
                rows,
                month,
            )[i]).votes ==> month_worstbirds(rows, month).contains(rows[j]),
        (month_worstbirds(rows, month).len() > 0) <==> exists|j: int|
            0 <= j < rows.len() && (#[trigger] rows[j]).month == month,
{
    let of_month = rows_of_month(rows, month);
    lemma_rows_filters(rows, month, 0);
    if of_month.len() > 0 {
        let m = row_max(of_month);
        lemma_row_max(of_month);
        lemma_rows_filters(of_month, month, m);
        let w = month_worstbirds(rows, month);
        assert forall|i: int, j: int|
            0 <= i < w.len() && 0 <= j < rows.len() && rows[j].month == month implies (
            #[trigger] rows[j]).votes <= (#[trigger] w[i]).votes by {
            assert(of_month.contains(rows[j]));
        }
        assert forall|i: int| 0 <= i < w.len() implies (#[trigger] w[i]).month == month
            && rows.contains(w[i]) by {
            let k = choose|k: int| 0 <= k < of_month.len() && of_month[k] == w[i];
            assert(of_month[k].month == month);
        }
        assert forall|j: int, i: int|
            0 <= j < rows.len() && 0 <= i < w.len() && (#[trigger] rows[j]).month == month
                && rows[j].votes == (#[trigger] w[i]).votes implies w.contains(rows[j]) by {
            assert(of_month.contains(rows[j]));
            let k = choose|k: int| 0 <= k < of_month.len() && of_month[k] == rows[j];
            assert(of_month[k].votes == m);
        }
        let k = choose|k: int| 0 <= k < of_month.len() && of_month[k].votes == m;
        assert(w.contains(of_month[k]));
        let j = choose|j: int| 0 <= j < rows.len() && rows[j] == of_month[k];
        assert(rows[j].month == month);
    } else {
        if exists|j: int| 0 <= j < rows.len() && (#[trigger] rows[j]).month == month {
            let j = choose|j: int| 0 <= j < rows.len() && (#[trigger] rows[j]).month == month;
            assert(of_month.contains(rows[j]));
        }
    }
}

/// `e` is the entry of a worstbird of one of the months 1 to `upto`.
pub open spec fn is_worstbird_entry(rows: Seq<WBMonth>, year: i32, upto: int, e: WBYear) -> bool {
    exists|m: int, i: int|
        1 <= m <= upto && 0 <= i < month_worstbirds(rows, m).len() && e == year_entry(
            #[trigger] month_worstbirds(rows, m)[i],
            year,
        )
}

/// Every entry of the year vote is the entry of a worstbird of one of the
/// months 1 to `upto`.
pub proof fn lemma_year_entries_are_worstbirds(rows: Seq<WBMonth>, year: i32, upto: int)
    ensures
        forall|k: int|
            0 <= k < year_entries(rows, year, upto).len() ==> is_worstbird_entry(
                rows,
                year,
                upto,
                #[trigger] year_entries(rows, year, upto)[k],
            ),
    decreases upto,
{
    if upto > 0 {
        lemma_year_entries_are_worstbirds(rows, year, upto - 1);
        let before = year_entries(rows, year, upto - 1);
        let w = month_worstbirds(rows, upto);
        let all = year_entries(rows, year, upto);
        assert forall|k: int| 0 <= k < all.len() implies is_worstbird_entry(
            rows,
            year,
            upto,
            #[trigger] all[k],
        ) by {
            if k < before.len() {
                assert(all[k] == before[k]);
                assert(is_worstbird_entry(rows, year, upto - 1, before[k]));
                let (m, i) = choose|m: int, i: int|
                    1 <= m <= upto - 1 && 0 <= i < month_worstbirds(rows, m).len() && before[k]
                        == year_entry(#[trigger] month_worstbirds(rows, m)[i], year);
                assert(all[k] == year_entry(month_worstbirds(rows, m)[i], year));
            } else {
                let i = k - before.len();
                assert(all[k] == year_entry(w[i], year));
            }
        }
    } else {
        assert(year_entries(rows, year, upto) =~= Seq::<WBYear>::empty());
    }
}

} // verus!
