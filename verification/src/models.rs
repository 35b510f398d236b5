pub mod plex_search_dto;
pub mod watchlist_dto;
