//! Resolution of a loosely-structured anime release filename or search
//! string into a redirect toward matching artwork.
//!
//! The decision engine is verified: the query contract over the external
//! filename parse, the search-strategy ladder, candidate scoring and
//! selection, per-media-type artwork extraction, the session lifecycle of
//! the metadata provider, and the cache-aside layer that memoizes resolved
//! redirects. Calls into outside crates stand behind small trusted wrappers
//! whose contracts state what each call returns; everything around them is
//! proved.

pub mod artwork;
pub mod cache;
pub mod candidate;
pub mod query;
pub mod request;
pub mod scrape;
pub mod score;
pub mod session;
pub mod text;
