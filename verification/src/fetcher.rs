//! The monthly job that puts new birds up for the vote: what it does each
//! month, and how it fills a new month with birds.
use vstd::prelude::*;
use crate::models::WBMonth;

verus! {

/// How many birds each month's vote has.
pub const BIRDS_PER_MONTH: u32 = 5;

/// What the monthly job does: fill the current month when it has no birds
/// yet, and in January put the worstbirds of the past year's months up for
/// the vote of that year.
pub fn fetch_plan(month_rows: usize, now_month: u32) -> (r: (bool, bool))
    ensures
        r.0 == (month_rows == 0),
        r.1 == (now_month == 1),
{
    (month_rows == 0, now_month == 1)
}

/// The birds added so far to a new month (`new_month_create`).
pub struct MonthFill {
    pub added: u32,
}

impl MonthFill {
    /// No more birds than the month takes.
    pub open spec fn wf(&self) -> bool {
        self.added <= BIRDS_PER_MONTH
    }

    /// A new month, with no bird yet.
    pub fn new() -> (r: MonthFill)
        ensures
            r.added == 0,
            r.wf(),
    {
        MonthFill { added: 0 }
    }

    /// Whether the month still needs birds.
    pub fn needs_more(&self) -> (r: bool)
        ensures
            r == (self.added < BIRDS_PER_MONTH),
    {
        self.added < BIRDS_PER_MONTH
    }

    /// A bird was stored with id `bird_id`: it counts, and this is the row
    /// that puts it up for the vote of the current month, with no votes.
    /// A bird that could not be fetched or stored changes nothing.
    pub fn bird_stored(&mut self, bird_id: i32, now_month: u32, now_year: i32) -> (r: WBMonth)
        requires
            old(self).added < BIRDS_PER_MONTH,
            1 <= now_month <= 12,
        ensures
            final(self).added == old(self).added + 1,
            final(self).wf(),
            r == (WBMonth { bird_id, month: now_month as i32, year: now_year, votes: 0 }),
    {
        self.added = self.added + 1;
        WBMonth { bird_id, month: now_month as i32, year: now_year, votes: 0 }
    }
}

} // verus!
