//! A web crawl engine: deduplicating admission of discovered addresses,
//! link extraction and resolution, the traversal filter, and the pagination
//! logic of a site-search producer.

pub mod address;
pub mod filter;
pub mod frontier;
pub mod page;
pub mod search;
