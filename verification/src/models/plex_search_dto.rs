//! The shape of the media service's fuzzy-search response, as the
//! reconciliation logic reads it.
//!
//! The service ranks each candidate with a floating-point score; the
//! pipeline never consults it (matching is exact, first in list order),
//! so the score is not carried here. The unverified shell owns the
//! serde-deserializable mirror of these types and converts.

use vstd::prelude::*;

verus! {

/// One candidate's metadata: the catalog key and the fields the matcher
/// compares.
#[derive(Debug, Clone, PartialEq)]
pub struct Metadata {
    pub rating_key: String,
    pub title: String,
    pub type_field: String,
    pub year: usize,
}

/// Mathematical model of a [`Metadata`].
pub struct MetadataView {
    pub rating_key: Seq<char>,
    pub title: Seq<char>,
    pub type_field: Seq<char>,
    pub year: int,
}

impl View for Metadata {
    type V = MetadataView;

    open spec fn view(&self) -> MetadataView {
        MetadataView {
            rating_key: self.rating_key@,
            title: self.title@,
            type_field: self.type_field@,
            year: self.year as int,
        }
    }
}

/// One ranked candidate of a result group.
#[derive(Debug, Clone, PartialEq)]
pub struct SearchResultData {
    pub metadata: Metadata,
}

/// Mathematical model of a [`SearchResultData`].
pub struct SearchResultDataView {
    pub metadata: MetadataView,
}

impl View for SearchResultData {
    type V = SearchResultDataView;

    open spec fn view(&self) -> SearchResultDataView {
        SearchResultDataView { metadata: self.metadata@ }
    }
}

/// The views of a sequence of candidates.
pub open spec fn candidate_views(v: Seq<SearchResultData>) -> Seq<SearchResultDataView> {
    v.map_values(|d: SearchResultData| d@)
}

/// One result group: all candidates of one search provider. The pipeline
/// only consults the group whose `id` is `"external"`.
#[derive(Debug, Clone, PartialEq)]
pub struct SearchResult {
    pub id: String,
    pub title: String,
    pub size: i64,
    pub search_result: Vec<SearchResultData>,
}

/// Mathematical model of a [`SearchResult`].
pub struct SearchResultView {
    pub id: Seq<char>,
    pub title: Seq<char>,
    pub size: int,
    pub search_result: Seq<SearchResultDataView>,
}

impl View for SearchResult {
    type V = SearchResultView;

    open spec fn view(&self) -> SearchResultView {
        SearchResultView {
            id: self.id@,
            title: self.title@,
            size: self.size as int,
            search_result: candidate_views(self.search_result@),
        }
    }
}

/// The views of a sequence of result groups.
pub open spec fn group_views(v: Seq<SearchResult>) -> Seq<SearchResultView> {
    v.map_values(|g: SearchResult| g@)
}

/// The envelope's payload: one result group per provider.
#[derive(Debug, Clone, PartialEq)]
pub struct MediaContainer {
    pub size: i64,
    pub search_results: Vec<SearchResult>,
}

/// Mathematical model of a [`MediaContainer`].
pub struct MediaContainerView {
    pub size: int,
    pub search_results: Seq<SearchResultView>,
}

impl View for MediaContainer {
    type V = MediaContainerView;

    open spec fn view(&self) -> MediaContainerView {
        MediaContainerView {
            size: self.size as int,
            search_results: group_views(self.search_results@),
        }
    }
}

/// The search response envelope.
#[derive(Debug, Clone, PartialEq)]
pub struct PlexSearchDto {
    pub media_container: MediaContainer,
}

/// Mathematical model of a [`PlexSearchDto`].
pub struct PlexSearchDtoView {
    pub media_container: MediaContainerView,
}

impl View for PlexSearchDto {
    type V = PlexSearchDtoView;

    open spec fn view(&self) -> PlexSearchDtoView {
        PlexSearchDtoView { media_container: self.media_container@ }
    }
}

/// The views of a sequence of search responses.
pub open spec fn response_views(v: Seq<PlexSearchDto>) -> Seq<PlexSearchDtoView> {
    v.map_values(|r: PlexSearchDto| r@)
}

} // verus!
