//! What is cached of a novel's information page.
use vstd::prelude::*;

verus! {

/// A novel's information as cached between runs; dates are kept as the text
/// the page gave.
#[derive(Debug)]
pub struct CachedNovelInfo {
    pub title: String,
    pub author: String,
    pub story: Option<String>,
    pub novel_type: Option<u8>,
    pub end: bool,
    pub general_firstup: Option<String>,
    pub general_lastup: Option<String>,
    pub novelupdated_at: Option<String>,
    pub length: Option<i64>,
    pub tags: Option<String>,
    pub cached_at: i64,
}

} // verus!
