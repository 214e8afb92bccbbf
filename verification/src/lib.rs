//! Verified core of a repository-discovery crawler.
//!
//! The crawler repeatedly queries a remote, paginated code-search service
//! with rotating keyword combinations, deduplicates the returned repository
//! identifiers against a persisted set, and steers future queries toward
//! keyword combinations that yielded more new discoveries. This crate holds
//! the crawler's logic — the identifier store, the keyword weight tracker
//! and its weighted sampler, the pagination cursor, the retry policy and the
//! per-page crawl transition — each with a verified contract. The network,
//! the file system and the terminal stay with the surrounding binary.

pub mod accounts;
pub mod crawl;
pub mod cursor;
pub mod ident;
pub mod query;
pub mod retry;
pub mod weights;
