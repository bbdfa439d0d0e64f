//! Metadata of the works of a fan-fiction archive: from a page of search results to work
//! records, from relationship tags to ships, and from the frequencies of ships to the
//! matrix of the characters that they pair.
pub mod color;
pub mod cooccurrence;
pub mod date;
pub mod dom;
pub mod json;
pub mod request;
pub mod scrape;
pub mod search;
pub mod ship;
pub mod text;
