//! A verified core for a single-domain web crawler.
//!
//! The library holds the crawl frontier (visited and pending URLs with
//! depth and page bounds), URL normalization, link extraction, the crawl
//! fingerprint, and the process-wide result store. Network and file I/O
//! live outside the library.

pub mod archive;
pub mod assoc;
pub mod database;
pub mod fingerprint;
pub mod frontier;
pub mod normalize;
pub mod options;
pub mod scrap;
pub mod spider_state;
pub mod visited_state;
