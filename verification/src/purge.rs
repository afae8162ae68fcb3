//! Purging files kept longer than their retention.

use vstd::prelude::*;

verus! {

/// A file that may be purged.
#[derive(Debug, Clone)]
pub struct PurgeCandidate {
    pub path: String,
    pub filename: String,
    pub size_bytes: u64,
    pub age_days: u32,
}

/// What a purge did: files deleted, bytes freed, and the failures (file, error).
#[derive(Debug, Clone)]
pub struct PurgeResult {
    pub deleted: usize,
    pub freed_bytes: u64,
    pub errors: Vec<(String, String)>,
}

/// The age in whole days of a file last changed `secs` seconds ago, as a `u32`
/// (the count of days wraps past `u32::MAX`).
pub fn age_days_of(secs: u64) -> (r: u32)
    ensures
        r == (secs / 86400) % 0x1_0000_0000,
{
    let d: u64 = secs / 86400;
    let r = (d % 0x1_0000_0000) as u32;
    r
}

/// Whether a file of the given age is purged: older than the retention when
/// one is given, every file when none is.
pub fn is_purge_candidate(age_days: u32, retention_days: Option<u32>) -> (r: bool)
    ensures
        r == match retention_days {
            Some(d) => age_days > d,
            None => true,
        },
{
    match retention_days {
        Some(days) => age_days > days,
        None => true,
    }
}

} // verus!
