//! The records of the worstbird database and of the pages built from them.
use vstd::prelude::*;

verus! {

/// A bird as stored in the `bird` table.
#[derive(Debug)]
pub struct Bird {
    pub id: i32,
    pub name: String,
    pub description: String,
    pub assetid: String,
    pub url: String,
    pub width: i32,
    pub height: i32,
}

impl Bird {
    /// A field-by-field copy (`Clone`).
    pub fn copy(&self) -> (r: Bird)
        ensures
            r == *self,
    {
        Bird {
            id: self.id,
            name: self.name.clone(),
            description: self.description.clone(),
            assetid: self.assetid.clone(),
            url: self.url.clone(),
            width: self.width,
            height: self.height,
        }
    }
}

/// A bird up for the vote of one month (`worstbird_month`).
#[derive(Debug, Clone, Copy, PartialEq, Eq, Structural)]
pub struct WBMonth {
    pub bird_id: i32,
    pub month: i32,
    pub year: i32,
    pub votes: i32,
}

/// A bird up for the vote of one year (`worstbird_year`).
#[derive(Debug, Clone, Copy, PartialEq, Eq, Structural)]
pub struct WBYear {
    pub bird_id: i32,
    pub year: i32,
    pub votes: i32,
}

/// A new bird, before the database gives it an id.
#[derive(Debug)]
pub struct BirdEntry {
    pub url: String,
    pub name: String,
    pub description: String,
    pub assetid: String,
    pub width: i32,
    pub height: i32,
}

/// A row of `select distinct year from worstbird_year`.
#[derive(Debug, Clone, Copy, PartialEq, Eq, Structural)]
pub struct DistinctYear {
    pub year: i32,
}

/// A row of `select distinct month from worstbird_month where year = ..`.
#[derive(Debug, Clone, Copy, PartialEq, Eq, Structural)]
pub struct DistinctMonth {
    pub month: i32,
}

/// A stylesheet kept in memory and served as CSS.
pub struct Cache {
    pub bytes: Vec<u8>,
}

/// The data of the year overview page.
pub struct TemplateInfo {
    pub sel_year: u32,
    pub years: Vec<i32>,
    pub months: Vec<String>,
    pub months_num: Vec<u8>,
    pub birds: Vec<(Bird, i32)>,
    pub max_vote: u32,
}

/// The data of a year or month page.
pub struct TeraTemplate {
    pub sel_year: i32,
    pub sel_month: Option<String>,
    pub sel_month_path: Option<String>,
    pub years: Vec<i32>,
    pub months: Vec<String>,
    pub months_num: Vec<u8>,
    pub birds: Vec<(Bird, i32)>,
    pub max_vote: u32,
}

/// The data of the page shown after a downvote.
pub struct TeraDownVote {
    pub bird: Bird,
    pub votes: i32,
    pub referer: String,
    pub month: Option<String>,
    pub year: Option<i32>,
    pub error_message: Option<String>,
}

/// The bird id stored in the `month` cookie of a voter.
#[derive(Debug, Clone, Copy, PartialEq, Eq, Structural)]
pub struct MonthCookie(pub usize);

/// The bird id stored in the `year` cookie of a voter.
#[derive(Debug, Clone, Copy, PartialEq, Eq, Structural)]
pub struct YearCookie(pub usize);

/// How many votes an address has cast, and until when they count
/// (nanoseconds since the epoch).
#[derive(Debug, Clone, Copy, PartialEq, Eq, Structural)]
pub struct UserVoteCount {
    pub count: u32,
    pub expiration: i64,
}

/// A message to tweet and its length in bytes.
pub struct TweetMSG {
    pub size: i32,
    pub text: String,
}

} // verus!
