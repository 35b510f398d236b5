//! The tracker adapter's parsing half: turning the CSV watchlist export
//! into canonical records.
//!
//! A data row has the fields `id,title,year,uri`. A quoted,
//! comma-containing title is located as the text between the first `,"`
//! and the following `",`; the remaining fields are read positionally
//! (the year is the second-to-last comma-separated token). Rows with
//! fewer than four comma-separated tokens, and quoted rows whose title
//! range is ill-formed, are skipped rather than failing the whole fetch.
//! A year field that does not parse as an unsigned integer becomes the
//! sentinel `0`, not an error.
//!
//! The authentication handshake and the HTTP fetch live in the
//! unverified shell; it hands the export text to [`parse_watchlist_csv`].

use crate::models::watchlist_dto::{record_views, WatchlistDto, WatchlistDtoView, WatchlistSource};
use crate::text::{
    contains_char, find2, first2, lemma_first2_bounds, lemma_split_on_len, parse_year,
    parse_year_spec, split_on, split_on_char, str_contains_char, views_of,
};
use vstd::prelude::*;

verus! {

/// The tracker's login handshake response body: the CSRF token that the
/// second login call repeats, and the reported outcome.
#[derive(Debug, Clone, PartialEq)]
pub struct LetterboxdLoginDtoResponse {
    pub csrf: String,
    pub result: String,
}

/// Where a quoted title starts: two places past the first `,"`, and
/// position two when no `,"` occurs.
pub open spec fn csv_title_start(line: Seq<char>) -> int {
    match first2(line, ',', '"') {
        Option::Some(i) => i + 2,
        Option::None => 2,
    }
}

/// Where a quoted title ends: at the first `",`, and at the end of the
/// line when no `",` occurs.
pub open spec fn csv_title_end(line: Seq<char>) -> int {
    match first2(line, '"', ',') {
        Option::Some(i) => i,
        Option::None => line.len() as int,
    }
}

/// One data row of the export. A row without a quote character splits
/// naively on commas: field one is the title, field two the year. A row
/// with a quote character takes its title from the quoted range and its
/// year from the second-to-last comma-separated token. A row with fewer
/// than four comma-separated tokens, a quoted row whose title range is
/// ill-formed, and a row with an empty title are parse defects and
/// yield nothing: no record with an empty title enters the pipeline.
pub open spec fn parse_csv_line_spec(line: Seq<char>) -> Option<WatchlistDtoView> {
    let fields = split_on(line, ',');
    if contains_char(line, '"') {
        let start = csv_title_start(line);
        let end = csv_title_end(line);
        if fields.len() >= 4 && start < end && end <= line.len() {
            Option::Some(
                WatchlistDtoView {
                    title: line.subrange(start, end),
                    year: parse_year_spec(fields[fields.len() - 2]),
                    source: WatchlistSource::Letterboxd,
                    plex_movie_id: Option::None,
                },
            )
        } else {
            Option::None
        }
    } else {
        if fields.len() >= 4 && fields[1].len() > 0 {
            Option::Some(
                WatchlistDtoView {
                    title: fields[1],
                    year: parse_year_spec(fields[2]),
                    source: WatchlistSource::Letterboxd,
                    plex_movie_id: Option::None,
                },
            )
        } else {
            Option::None
        }
    }
}

/// A row with a trailing carriage return loses it before parsing.
pub open spec fn strip_cr(line: Seq<char>) -> Seq<char> {
    if line.len() > 0 && line.last() == '\r' {
        line.drop_last()
    } else {
        line
    }
}

/// The records of a sequence of data rows, rows that do not parse
/// skipped.
pub open spec fn parse_rows_spec(rows: Seq<Seq<char>>) -> Seq<WatchlistDtoView>
    decreases rows.len(),
{
    if rows.len() == 0 {
        Seq::empty()
    } else {
        match parse_csv_line_spec(strip_cr(rows.first())) {
            Option::Some(r) => seq![r] + parse_rows_spec(rows.drop_first()),
            Option::None => parse_rows_spec(rows.drop_first()),
        }
    }
}

/// The whole export: lines split on `'\n'`, the header line dropped,
/// every remaining row parsed in order.
pub open spec fn parse_watchlist_csv_spec(text: Seq<char>) -> Seq<WatchlistDtoView> {
    parse_rows_spec(split_on(text, '\n').drop_first())
}

/// No record with an empty title enters the pipeline: every record the
/// CSV parser yields has a nonempty title (empty-title rows are parse
/// defects and are skipped).
pub proof fn lemma_csv_titles_nonempty(text: Seq<char>)
    ensures
        forall|k: int|
            0 <= k < parse_watchlist_csv_spec(text).len()
                ==> parse_watchlist_csv_spec(text)[k].title.len() > 0,
{
    lemma_rows_titles_nonempty(split_on(text, '\n').drop_first());
}

/// A row that parses at all parses to a record with a nonempty title.
proof fn lemma_csv_line_title_nonempty(line: Seq<char>)
    ensures
        match parse_csv_line_spec(line) {
            Option::Some(r) => r.title.len() > 0,
            Option::None => true,
        },
{
    if contains_char(line, '"') {
        lemma_first2_bounds(line, ',', '"');
        lemma_first2_bounds(line, '"', ',');
    }
}

/// Every record parsed from a sequence of rows has a nonempty title.
proof fn lemma_rows_titles_nonempty(rows: Seq<Seq<char>>)
    ensures
        forall|k: int|
            0 <= k < parse_rows_spec(rows).len() ==> parse_rows_spec(rows)[k].title.len() > 0,
    decreases rows.len(),
{
    if rows.len() > 0 {
        lemma_rows_titles_nonempty(rows.drop_first());
        lemma_csv_line_title_nonempty(strip_cr(rows.first()));
        match parse_csv_line_spec(strip_cr(rows.first())) {
            Option::Some(r) => {
                assert(forall|k: int|
                    1 <= k < parse_rows_spec(rows).len() ==> parse_rows_spec(rows)[k]
                        == parse_rows_spec(rows.drop_first())[k - 1]);
            },
            Option::None => {},
        }
    }
}

/// Removes a trailing carriage return, if any.
fn strip_cr_exec(line: &str) -> (r: &str)
    ensures
        r@ == strip_cr(line@),
{
    let n = line.unicode_len();
    if n > 0 && line.get_char(n - 1) == '\r' {
        let r = line.substring_char(0, n - 1);
        proof {
            assert(line@.subrange(0, n - 1) =~= line@.drop_last());
        }
        r
    } else {
        line
    }
}

/// Parses one data row of the CSV export.
pub fn parse_csv_line(line: &str) -> (r: Option<WatchlistDto>)
    ensures
        match r {
            Option::Some(rec) => parse_csv_line_spec(line@) == Option::Some(rec@),
            Option::None => parse_csv_line_spec(line@) is None,
        },
{
    let n = line.unicode_len();
    let fields = split_on_char(line, ',');
    let flen = fields.len();
    proof {
        lemma_split_on_len(line@, ',');
        assert(flen == split_on(line@, ',').len());
    }
    if str_contains_char(line, '"') {
        let start: usize = match find2(line, ',', '"') {
            Option::Some(i) => {
                proof {
                    lemma_first2_bounds(line@, ',', '"');
                }
                i + 2
            },
            Option::None => 2,
        };
        let end: usize = match find2(line, '"', ',') {
            Option::Some(i) => {
                proof {
                    lemma_first2_bounds(line@, '"', ',');
                }
                i
            },
            Option::None => n,
        };
        assert(start as int == csv_title_start(line@));
        assert(end as int == csv_title_end(line@));
        if flen >= 4 && start < end && end <= n {
            let title = line.substring_char(start, end).to_owned();
            let year = parse_year(fields[flen - 2].as_str());
            proof {
                assert(fields@[flen - 2]@ == views_of(fields@)[flen - 2]);
            }
            Option::Some(
                WatchlistDto {
                    title,
                    year,
                    source: WatchlistSource::Letterboxd,
                    plex_movie_id: Option::None,
                },
            )
        } else {
            Option::None
        }
    } else {
        if flen >= 4 && !fields[1].as_str().is_empty() {
            let title = fields[1].clone();
            let year = parse_year(fields[2].as_str());
            proof {
                assert(fields@[1]@ == views_of(fields@)[1]);
                assert(fields@[2]@ == views_of(fields@)[2]);
            }
            Option::Some(
                WatchlistDto {
                    title,
                    year,
                    source: WatchlistSource::Letterboxd,
                    plex_movie_id: Option::None,
                },
            )
        } else {
            Option::None
        }
    }
}

/// Parses the CSV watchlist export: the header line is skipped, every
/// following row becomes a tracker record, rows that do not parse are
/// skipped.
pub fn parse_watchlist_csv(text: &str) -> (r: Vec<WatchlistDto>)
    ensures
        record_views(r@) == parse_watchlist_csv_spec(text@),
{
    let lines = split_on_char(text, '\n');
    proof {
        lemma_split_on_len(text@, '\n');
        assert(views_of(lines@).drop_first() =~~= split_on(text@, '\n').drop_first());
    }
    let mut out: Vec<WatchlistDto> = Vec::new();
    let mut i: usize = 1;
    proof {
        assert(views_of(lines@).skip(1) =~~= views_of(lines@).drop_first());
        assert(record_views(out@) + parse_rows_spec(views_of(lines@).skip(1)) =~= parse_watchlist_csv_spec(text@));
    }
    while i < lines.len()
        invariant
            1 <= i <= lines.len(),
            views_of(lines@) == split_on(text@, '\n'),
            record_views(out@) + parse_rows_spec(views_of(lines@).skip(i as int))
                == parse_watchlist_csv_spec(text@),
        decreases lines.len() - i,
    {
        let ghost rows_i = views_of(lines@).skip(i as int);
        proof {
            assert(rows_i.first() == views_of(lines@)[i as int]);
            assert(rows_i.drop_first() =~~= views_of(lines@).skip(i + 1));
        }
        let stripped = strip_cr_exec(lines[i].as_str());
        let parsed = parse_csv_line(stripped);
        let ghost old_out = out@;
        match parsed {
            Option::Some(rec) => {
                let ghost recv = rec@;
                out.push(rec);
                proof {
                    assert(record_views(out@) =~= record_views(old_out) + seq![recv]);
                    assert(record_views(out@) + parse_rows_spec(views_of(lines@).skip(i + 1))
                        =~= parse_watchlist_csv_spec(text@));
                }
            },
            Option::None => {},
        }
        i = i + 1;
    }
    proof {
        assert(views_of(lines@).skip(i as int).len() == 0);
        assert(record_views(out@) =~= parse_watchlist_csv_spec(text@));
    }
    out
}

} // verus!
