use watchlist_sync::models::watchlist_dto::WatchlistSource;
use watchlist_sync::letterboxd::{parse_csv_line, parse_watchlist_csv};
use watchlist_sync::text::parse_year;

#[test]
fn quoted_row_keeps_comma_in_title() {
    let rec = parse_csv_line("1,\"Title, With Comma\",2020,uri").expect("row must parse");
    assert_eq!(rec.title, "Title, With Comma");
    assert_eq!(rec.year, 2020);
    assert_eq!(rec.source, WatchlistSource::Letterboxd);
    assert_eq!(rec.plex_movie_id, None);
}

#[test]
fn unquoted_row_splits_naively() {
    let rec = parse_csv_line("2,Title,2019,uri").expect("row must parse");
    assert_eq!(rec.title, "Title");
    assert_eq!(rec.year, 2019);
    assert_eq!(rec.source, WatchlistSource::Letterboxd);
    assert_eq!(rec.plex_movie_id, None);
}

#[test]
fn unparsable_year_becomes_zero() {
    let rec = parse_csv_line("3,Title,N/A,uri").expect("row must parse");
    assert_eq!(rec.year, 0);
}

#[test]
fn parse_year_accepts_digits_and_rejects_the_rest() {
    assert_eq!(parse_year("2020"), 2020);
    assert_eq!(parse_year("0"), 0);
    assert_eq!(parse_year("N/A"), 0);
    assert_eq!(parse_year(""), 0);
    assert_eq!(parse_year("19x9"), 0);
    assert_eq!(parse_year(" 1999"), 0);
    assert_eq!(parse_year("99999999999999999999999999"), 0);
}

#[test]
fn export_skips_header_line() {
    let text = "id,Name,Year,Letterboxd URI\n1,Dune,2021,uri1\n2,Nope,2022,uri2\n";
    let recs = parse_watchlist_csv(text);
    assert_eq!(recs.len(), 2);
    assert_eq!(recs[0].title, "Dune");
    assert_eq!(recs[0].year, 2021);
    assert_eq!(recs[1].title, "Nope");
    assert_eq!(recs[1].year, 2022);
}

#[test]
fn export_handles_quoted_and_crlf_rows() {
    let text = "id,Name,Year,URI\r\n1,\"Love, Actually\",2003,uri\r\n";
    let recs = parse_watchlist_csv(text);
    assert_eq!(recs.len(), 1);
    assert_eq!(recs[0].title, "Love, Actually");
    assert_eq!(recs[0].year, 2003);
}

#[test]
fn short_rows_are_skipped() {
    let text = "header\n1,OnlyThree,2020\n\n2,Full,2021,uri\n";
    let recs = parse_watchlist_csv(text);
    assert_eq!(recs.len(), 1);
    assert_eq!(recs[0].title, "Full");
}

#[test]
fn empty_title_rows_are_skipped() {
    let recs = parse_watchlist_csv("header\n1,,2020,uri\n2,Real,2021,uri\n");
    assert_eq!(recs.len(), 1);
    assert_eq!(recs[0].title, "Real");
    assert!(parse_csv_line("1,,2020,uri").is_none());
}

#[test]
fn empty_export_yields_no_records() {
    assert_eq!(parse_watchlist_csv("").len(), 0);
    assert_eq!(parse_watchlist_csv("header only").len(), 0);
}
