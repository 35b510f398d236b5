use watchlist_sync::models::watchlist_dto::WatchlistSource;
use watchlist_sync::plex::parse_watchlist_xml;

#[test]
fn one_video_element_yields_one_record() {
    let recs = parse_watchlist_xml("<Video title=\"X\" year=\"2001\" ratingKey=\"42\"/>");
    assert_eq!(recs.len(), 1);
    assert_eq!(recs[0].title, "X");
    assert_eq!(recs[0].year, 2001);
    assert_eq!(recs[0].source, WatchlistSource::Plex);
    assert_eq!(recs[0].plex_movie_id, Some(String::from("42")));
}

#[test]
fn video_tag_match_is_case_insensitive() {
    let recs = parse_watchlist_xml("<VIDEO title=\"X\" year=\"2001\" ratingKey=\"42\"/>");
    assert_eq!(recs.len(), 1);
    assert_eq!(recs[0].title, "X");
}

#[test]
fn listing_with_container_yields_each_video() {
    let text = "<MediaContainer size=\"2\">\
        <Video title=\"Dune\" year=\"2021\" ratingKey=\"100\"/>\
        <Video title=\"Nope\" year=\"2022\" ratingKey=\"200\"/>\
        </MediaContainer>";
    let recs = parse_watchlist_xml(text);
    assert_eq!(recs.len(), 2);
    assert_eq!(recs[0].title, "Dune");
    assert_eq!(recs[0].plex_movie_id, Some(String::from("100")));
    assert_eq!(recs[1].title, "Nope");
    assert_eq!(recs[1].plex_movie_id, Some(String::from("200")));
}

#[test]
fn empty_elements_yield_no_records() {
    assert_eq!(parse_watchlist_xml("<Video/>").len(), 0);
    assert_eq!(parse_watchlist_xml("<Other attr=\"1\"/>").len(), 0);
    assert_eq!(parse_watchlist_xml("").len(), 0);
}

#[test]
fn malformed_input_yields_no_records_and_no_panic() {
    assert_eq!(parse_watchlist_xml("<<<not xml>>>").len(), 0);
    assert_eq!(parse_watchlist_xml("<Video title=").len(), 0);
    assert_eq!(parse_watchlist_xml("plain text").len(), 0);
}

#[test]
fn unparsable_year_attribute_becomes_zero() {
    let recs = parse_watchlist_xml("<Video title=\"X\" year=\"unknown\" ratingKey=\"7\"/>");
    assert_eq!(recs.len(), 1);
    assert_eq!(recs[0].year, 0);
    assert_eq!(recs[0].plex_movie_id, Some(String::from("7")));
}
