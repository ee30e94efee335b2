//! The worstbird of the month: every month five random birds from ebird.org
//! are put up for a downvote, the birds with the most votes are the
//! worstbirds of the month, and in January the worstbirds of the past
//! months compete for the worstbird of the year.

pub mod arith;
pub mod calendar;
pub mod decimal;
pub mod fetcher;
pub mod models;
pub mod ranking;
pub mod scrape;
pub mod text;
pub mod tweets;
pub mod voting;
