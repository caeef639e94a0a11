use vstd::prelude::*;

pub mod config;
pub mod downloads;
pub mod i18n;
pub mod interaction;
pub mod prowlarr;
pub mod qbittorrent;
pub mod seqs;
pub mod sweep;
pub mod text;
pub mod ui;
pub mod watchlist;

verus! {

/// Seconds in one day.
pub const SECONDS_PER_DAY: i64 = 86_400;

} // verus!
