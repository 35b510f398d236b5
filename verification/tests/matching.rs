use watchlist_sync::models::plex_search_dto::{
    MediaContainer, Metadata, PlexSearchDto, SearchResult, SearchResultData,
};
use watchlist_sync::models::watchlist_dto::{WatchlistDto, WatchlistSource};
use watchlist_sync::plex::{find_external_group, plan_adds, resolve, resolve_all};

fn candidate(rating_key: &str, title: &str, year: usize) -> SearchResultData {
    SearchResultData {
        metadata: Metadata {
            rating_key: String::from(rating_key),
            title: String::from(title),
            type_field: String::from("movie"),
            year,
        },
    }
}

fn response(groups: Vec<SearchResult>) -> PlexSearchDto {
    PlexSearchDto {
        media_container: MediaContainer {
            size: groups.len() as i64,
            search_results: groups,
        },
    }
}

fn group(id: &str, candidates: Vec<SearchResultData>) -> SearchResult {
    SearchResult {
        id: String::from(id),
        title: String::from(id),
        size: candidates.len() as i64,
        search_result: candidates,
    }
}

fn tracker_record(title: &str, year: usize) -> WatchlistDto {
    WatchlistDto {
        title: String::from(title),
        year,
        source: WatchlistSource::Letterboxd,
        plex_movie_id: None,
    }
}

#[test]
fn init_builds_the_empty_sentinel_record() {
    let rec = WatchlistDto::init(WatchlistSource::Plex);
    assert_eq!(rec.title, "");
    assert_eq!(rec.year, 0);
    assert_eq!(rec.source, WatchlistSource::Plex);
    assert_eq!(rec.plex_movie_id, None);
}

#[test]
fn exact_match_is_selected_over_near_miss() {
    let resp = response(vec![group(
        "external",
        vec![candidate("1", "Dune", 2020), candidate("2", "Dune", 2021)],
    )]);
    let rec = tracker_record("Dune", 2021);
    let resolved = resolve(&rec, &resp).expect("exact match must resolve");
    assert_eq!(resolved.plex_movie_id, Some(String::from("2")));
    assert_eq!(resolved.title, "Dune");
    assert_eq!(resolved.year, 2021);
    assert_eq!(resolved.source, WatchlistSource::Plex);
}

#[test]
fn first_of_equal_exact_matches_wins() {
    let resp = response(vec![group(
        "external",
        vec![candidate("10", "Dune", 2021), candidate("20", "Dune", 2021)],
    )]);
    let resolved = resolve(&tracker_record("Dune", 2021), &resp).unwrap();
    assert_eq!(resolved.plex_movie_id, Some(String::from("10")));
}

#[test]
fn empty_external_group_yields_no_match() {
    let resp = response(vec![group("external", vec![])]);
    assert!(resolve(&tracker_record("Dune", 2021), &resp).is_none());
}

#[test]
fn absent_external_group_yields_no_match() {
    let resp = response(vec![group("plex", vec![candidate("1", "Dune", 2021)])]);
    assert!(find_external_group(&resp).is_none());
    assert!(resolve(&tracker_record("Dune", 2021), &resp).is_none());
}

#[test]
fn first_external_group_is_consulted() {
    let resp = response(vec![
        group("plex", vec![candidate("1", "Dune", 2021)]),
        group("external", vec![candidate("2", "Dune", 2021)]),
        group("external", vec![candidate("3", "Dune", 2021)]),
    ]);
    let g = find_external_group(&resp).expect("group must be found");
    assert_eq!(g.search_result[0].metadata.rating_key, "2");
}

#[test]
fn one_unmatched_record_does_not_drop_the_others() {
    let recs = vec![tracker_record("Dune", 2021), tracker_record("Nope", 2022)];
    let resps = vec![
        response(vec![]),
        response(vec![group("external", vec![candidate("9", "Nope", 2022)])]),
    ];
    let resolved = resolve_all(&recs, &resps);
    assert_eq!(resolved.len(), 1);
    assert_eq!(resolved[0].title, "Nope");
    assert_eq!(resolved[0].plex_movie_id, Some(String::from("9")));
}

#[test]
fn plan_adds_keeps_resolved_keys_in_order() {
    let recs = vec![
        WatchlistDto {
            title: String::from("A"),
            year: 2000,
            source: WatchlistSource::Plex,
            plex_movie_id: Some(String::from("5")),
        },
        tracker_record("B", 2001),
        WatchlistDto {
            title: String::from("C"),
            year: 2002,
            source: WatchlistSource::Plex,
            plex_movie_id: Some(String::from("7")),
        },
    ];
    assert_eq!(plan_adds(&recs), vec![String::from("5"), String::from("7")]);
}

#[test]
fn reconciliation_replans_the_same_adds_on_a_second_run() {
    let recs = vec![tracker_record("Dune", 2021)];
    let resps = vec![response(vec![group(
        "external",
        vec![candidate("100", "Dune", 2021)],
    )])];
    let first_run = plan_adds(&resolve_all(&recs, &resps));
    let second_run = plan_adds(&resolve_all(&recs, &resps));
    assert_eq!(first_run, vec![String::from("100")]);
    assert_eq!(second_run, first_run);
}

#[test]
fn end_to_end_one_match_one_skip() {
    let recs = vec![tracker_record("Dune", 2021), tracker_record("Nope", 2022)];
    let resps = vec![
        response(vec![group(
            "external",
            vec![candidate("100", "Dune", 2021), candidate("101", "Dune", 1984)],
        )]),
        response(vec![group(
            "external",
            vec![candidate("200", "Nope!", 2022), candidate("201", "Nope", 2023)],
        )]),
    ];
    let resolved = resolve_all(&recs, &resps);
    assert_eq!(resolved.len(), 1);
    assert_eq!(resolved[0].title, "Dune");
    assert_eq!(resolved[0].year, 2021);
    assert_eq!(resolved[0].source, WatchlistSource::Plex);
    let adds = plan_adds(&resolved);
    assert_eq!(adds, vec![String::from("100")]);
}
