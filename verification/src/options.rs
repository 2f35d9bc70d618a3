//! The resolved bounds of a crawl request.

use vstd::prelude::*;

verus! {

/// Bounds and flags a crawl runs under. `robots_txt` is accepted and kept
/// as a policy hook; nothing in the engine reads it yet.
#[derive(Clone, Copy)]
pub struct SpiderOptions {
    pub max_depth: Option<usize>,
    pub max_pages: Option<usize>,
    pub robots_txt: bool,
    pub archive_pages: bool,
}

impl SpiderOptions {
    pub fn new(
        max_depth: Option<usize>,
        max_pages: Option<usize>,
        robots_txt: bool,
        archive_pages: bool,
    ) -> (r: Self)
        ensures
            r.max_depth == max_depth,
            r.max_pages == max_pages,
            r.robots_txt == robots_txt,
            r.archive_pages == archive_pages,
    {
        Self { max_depth, max_pages, robots_txt, archive_pages }
    }
}

} // verus!
