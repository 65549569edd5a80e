//! The verified core of a web crawler: the pipeline that turns a stream of
//! candidate URIs into fetched, parsed, and deduplicated records.
//!
//! The pieces, bottom up: a tolerant UTF-8 [`reader`] over byte buffers; the
//! byte-level URI and title extractor machines ([`url_fsm`], [`title_fsm`]);
//! URL normalization and user-agent derivation ([`web`]); the keyed blob
//! store model ([`store`]); exact membership with batch check-and-insert
//! ([`hash_set`]) and the two-tier uniqueness filter over it ([`unique`]);
//! robots bucketing and classification ([`robots`]); record and response
//! shapes with the fetch-side capture machine ([`record`], [`fetch`]);
//! signal-key derivation ([`signals`]); and the extractor stage that ties
//! store and machine together ([`url_extractor`]).
//!
//! Outside crates do what only they can do - URL parsing, robots matching,
//! hashing, base64, the bloom filter - behind small trusted declarations;
//! everything the crate decides is stated in contracts and proved.

pub mod error;
pub mod fetch;
pub mod hash_set;
pub mod reader;
pub mod record;
pub mod robots;
pub mod scorers;
pub mod signals;
pub mod store;
pub mod title_fsm;
pub mod unique;
pub mod url_extractor;
pub mod url_fsm;
pub mod web;
