//! Synchronizes a movie watchlist from a session-authenticated tracker
//! service into a token-authenticated media service.
//!
//! The library holds the reconciliation pipeline: parsing the tracker's
//! CSV export, parsing the media service's XML watchlist, matching tracker
//! records against search responses, and planning the write (add) calls.
//! The surrounding HTTP plumbing lives outside the library and hands it
//! plain values.

pub mod letterboxd;
pub mod models;
pub mod plex;
pub mod text;
