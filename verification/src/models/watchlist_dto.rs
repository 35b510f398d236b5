//! The canonical watchlist record: one entry of either service's watchlist.

use vstd::prelude::*;

verus! {

/// Provenance of a record: which service reported it.
#[derive(Debug, Clone, Copy, PartialEq, Eq, Structural)]
pub enum WatchlistSource {
    Letterboxd,
    Plex,
    Unknown,
}

/// A watchlist entry. `year == 0` is the sentinel for "unknown/unparsed".
/// `plex_movie_id` is `Some` exactly when the record has been resolved
/// against the media service's catalog.
#[derive(Debug, Clone, PartialEq)]
pub struct WatchlistDto {
    pub title: String,
    pub year: usize,
    pub source: WatchlistSource,
    pub plex_movie_id: Option<String>,
}

/// Mathematical model of a [`WatchlistDto`].
pub struct WatchlistDtoView {
    pub title: Seq<char>,
    pub year: int,
    pub source: WatchlistSource,
    pub plex_movie_id: Option<Seq<char>>,
}

impl View for WatchlistDto {
    type V = WatchlistDtoView;

    open spec fn view(&self) -> WatchlistDtoView {
        WatchlistDtoView {
            title: self.title@,
            year: self.year as int,
            source: self.source,
            plex_movie_id: match self.plex_movie_id {
                Option::Some(id) => Option::Some(id@),
                Option::None => Option::None,
            },
        }
    }
}

/// The views of a sequence of records.
pub open spec fn record_views(v: Seq<WatchlistDto>) -> Seq<WatchlistDtoView> {
    v.map_values(|d: WatchlistDto| d@)
}

impl WatchlistDto {
    /// An empty record for the given source: the zero-value sentinel that
    /// the XML parser fills in attribute by attribute.
    pub fn init(source: WatchlistSource) -> (r: WatchlistDto)
        ensures
            r@.title == Seq::<char>::empty(),
            r@.year == 0,
            r@.source == source,
            r@.plex_movie_id is None,
    {
        WatchlistDto {
            title: String::new(),
            year: 0,
            source,
            plex_movie_id: Option::None,
        }
    }
}

} // verus!
