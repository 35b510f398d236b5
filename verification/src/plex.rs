//! The media-service adapter's logic: parsing the XML watchlist
//! listing, resolving tracker records against search responses, and
//! planning the write (add) calls.
//!
//! The HTTP calls themselves — fetching the listing, querying the
//! search endpoint, issuing the add — live in the unverified shell,
//! which hands this module the response bodies and takes back the
//! records and catalog keys to act on.

use crate::models::plex_search_dto::{
    candidate_views, group_views, response_views, PlexSearchDto, PlexSearchDtoView, SearchResult,
    SearchResultDataView, SearchResultView,
};
use crate::models::watchlist_dto::{record_views, WatchlistDto, WatchlistDtoView, WatchlistSource};
use crate::text::{
    eq_ignore_ascii_case, eq_ignore_ascii_case_spec, parse_year, parse_year_spec, str_eq, views_of,
};
use vstd::prelude::*;

verus! {

// ---------------------------------------------------------------------
// The XML watchlist listing
// ---------------------------------------------------------------------

/// One event of the XML token stream, reduced to what the watchlist
/// parser reads: an element start with its local name, an attribute
/// with its local name and raw value, an element end, or anything else.
#[derive(Debug, Clone, PartialEq)]
pub enum XmlEvent {
    Start { name: String },
    Attr { name: String, value: String },
    End,
    Skip,
}

/// Mathematical model of an [`XmlEvent`].
pub enum XmlEventView {
    Start { name: Seq<char> },
    Attr { name: Seq<char>, value: Seq<char> },
    End,
    Skip,
}

impl View for XmlEvent {
    type V = XmlEventView;

    open spec fn view(&self) -> XmlEventView {
        match self {
            XmlEvent::Start { name } => XmlEventView::Start { name: name@ },
            XmlEvent::Attr { name, value } => XmlEventView::Attr { name: name@, value: value@ },
            XmlEvent::End => XmlEventView::End,
            XmlEvent::Skip => XmlEventView::Skip,
        }
    }
}

/// The views of a sequence of events.
pub open spec fn event_views(v: Seq<XmlEvent>) -> Seq<XmlEventView> {
    v.map_values(|e: XmlEvent| e@)
}

/// The XML token stream of a text: a function of the text alone.
pub uninterp spec fn xml_events(text: Seq<char>) -> Seq<XmlEventView>;

/// Relies on xmlparser::Tokenizer: the stream of tokens it yields is a
/// function of the input text alone (tokenization stops after the first
/// malformed token, which is how malformed input yields a short
/// stream rather than a failure). Element starts and attributes keep
/// their local name and raw value; every other token kind maps to
/// `Skip`.
#[verifier::external_body]
fn tokenize(text: &str) -> (r: Vec<XmlEvent>)
    ensures
        event_views(r@) == xml_events(text@),
{
    let mut out = Vec::new();
    for tok in xmlparser::Tokenizer::from(text) {
        out.push(match tok {
            Ok(xmlparser::Token::ElementStart { local, .. }) =>
                XmlEvent::Start { name: local.as_str().to_owned() },
            Ok(xmlparser::Token::Attribute { local, value, .. }) =>
                XmlEvent::Attr { name: local.as_str().to_owned(), value: value.as_str().to_owned() },
            Ok(xmlparser::Token::ElementEnd { .. }) => XmlEvent::End,
            Ok(_) => XmlEvent::Skip,
            Err(_) => XmlEvent::Skip,
        });
    }
    out
}

/// The zero-value sentinel that the XML parser fills in attribute by
/// attribute.
pub open spec fn empty_plex_record() -> WatchlistDtoView {
    WatchlistDtoView {
        title: Seq::<char>::empty(),
        year: 0,
        source: WatchlistSource::Plex,
        plex_movie_id: Option::None,
    }
}

/// Nothing has been filled in: the record still equals the sentinel.
pub open spec fn is_blank_record(r: WatchlistDtoView) -> bool {
    r.title.len() == 0 && r.year == 0 && r.plex_movie_id is None
}

/// How the watchlist parser consumes the token stream. An element start
/// whose name is not `video` (ASCII case-insensitive) resets the record
/// under construction; `year`, `title` and `ratingKey` attributes fill
/// its fields (a year that does not parse becomes the sentinel `0`
/// rather than a failure); an element end appends the record unless it
/// still equals the sentinel, and starts a fresh one.
pub open spec fn xml_fold(
    events: Seq<XmlEventView>,
    cur: WatchlistDtoView,
    acc: Seq<WatchlistDtoView>,
) -> Seq<WatchlistDtoView>
    decreases events.len(),
{
    if events.len() == 0 {
        acc
    } else {
        let rest = events.drop_first();
        match events.first() {
            XmlEventView::Start { name } => {
                if eq_ignore_ascii_case_spec(name, "video"@) {
                    xml_fold(rest, cur, acc)
                } else {
                    xml_fold(rest, empty_plex_record(), acc)
                }
            },
            XmlEventView::Attr { name, value } => {
                if name == "year"@ {
                    xml_fold(rest, WatchlistDtoView { year: parse_year_spec(value), ..cur }, acc)
                } else if name == "title"@ {
                    xml_fold(rest, WatchlistDtoView { title: value, ..cur }, acc)
                } else if name == "ratingKey"@ {
                    xml_fold(
                        rest,
                        WatchlistDtoView { plex_movie_id: Option::Some(value), ..cur },
                        acc,
                    )
                } else {
                    xml_fold(rest, cur, acc)
                }
            },
            XmlEventView::End => {
                if is_blank_record(cur) {
                    xml_fold(rest, cur, acc)
                } else {
                    xml_fold(rest, empty_plex_record(), acc + seq![cur])
                }
            },
            XmlEventView::Skip => xml_fold(rest, cur, acc),
        }
    }
}

/// The records of the XML watchlist listing.
pub open spec fn parse_watchlist_xml_spec(text: Seq<char>) -> Seq<WatchlistDtoView> {
    xml_fold(xml_events(text), empty_plex_record(), Seq::empty())
}

/// Folds a token stream into records, as [`xml_fold`] says.
fn fold_events(events: &Vec<XmlEvent>) -> (r: Vec<WatchlistDto>)
    ensures
        record_views(r@) == xml_fold(event_views(events@), empty_plex_record(), Seq::empty()),
{
    let mut out: Vec<WatchlistDto> = Vec::new();
    let mut cur = WatchlistDto::init(WatchlistSource::Plex);
    let mut i: usize = 0;
    proof {
        assert(event_views(events@).skip(0) =~= event_views(events@));
        assert(record_views(out@) =~= Seq::<WatchlistDtoView>::empty());
        assert(cur@ == empty_plex_record());
    }
    while i < events.len()
        invariant
            0 <= i <= events.len(),
            xml_fold(event_views(events@).skip(i as int), cur@, record_views(out@)) == xml_fold(
                event_views(events@),
                empty_plex_record(),
                Seq::empty(),
            ),
        decreases events.len() - i,
    {
        proof {
            let evs = event_views(events@);
            assert(evs.skip(i as int).first() == evs[i as int]);
            assert(evs.skip(i as int).drop_first() =~= evs.skip(i + 1));
        }
        match &events[i] {
            XmlEvent::Start { name } => {
                if !eq_ignore_ascii_case(name.as_str(), "video") {
                    cur = WatchlistDto::init(WatchlistSource::Plex);
                }
            },
            XmlEvent::Attr { name, value } => {
                if str_eq(name.as_str(), "year") {
                    cur.year = parse_year(value.as_str());
                } else if str_eq(name.as_str(), "title") {
                    cur.title = value.clone();
                } else if str_eq(name.as_str(), "ratingKey") {
                    cur.plex_movie_id = Option::Some(value.clone());
                }
            },
            XmlEvent::End => {
                let blank = cur.title.as_str().is_empty() && cur.year == 0
                    && cur.plex_movie_id.is_none();
                if !blank {
                    let ghost curv = cur@;
                    let ghost old_out = out@;
                    out.push(cur);
                    cur = WatchlistDto::init(WatchlistSource::Plex);
                    proof {
                        assert(record_views(out@) =~= record_views(old_out) + seq![curv]);
                    }
                }
            },
            XmlEvent::Skip => {},
        }
        i = i + 1;
    }
    proof {
        assert(event_views(events@).skip(i as int).len() == 0);
    }
    out
}

/// A record is only appended when its fields differ from the zero-value
/// sentinel: the XML parser never yields a blank record, whatever the
/// input (spurious empty elements are guarded against).
pub proof fn lemma_xml_records_not_blank(text: Seq<char>)
    ensures
        forall|k: int|
            0 <= k < parse_watchlist_xml_spec(text).len() ==> !is_blank_record(
                parse_watchlist_xml_spec(text)[k],
            ),
{
    lemma_xml_fold_not_blank(xml_events(text), empty_plex_record(), Seq::empty());
}

/// The fold only ever appends a record that is not blank.
proof fn lemma_xml_fold_not_blank(
    events: Seq<XmlEventView>,
    cur: WatchlistDtoView,
    acc: Seq<WatchlistDtoView>,
)
    requires
        forall|k: int| 0 <= k < acc.len() ==> !is_blank_record(acc[k]),
    ensures
        forall|k: int|
            0 <= k < xml_fold(events, cur, acc).len() ==> !is_blank_record(
                xml_fold(events, cur, acc)[k],
            ),
    decreases events.len(), 1int,
{
    if events.len() > 0 {
        let rest = events.drop_first();
        match events.first() {
            XmlEventView::Start { name } => {
                if eq_ignore_ascii_case_spec(name, "video"@) {
                    lemma_xml_fold_unfolds_to(events, cur, acc, cur, acc);
                } else {
                    lemma_xml_fold_unfolds_to(events, cur, acc, empty_plex_record(), acc);
                }
            },
            XmlEventView::Attr { name, value } => {
                if name == "year"@ {
                    lemma_xml_fold_unfolds_to(
                        events,
                        cur,
                        acc,
                        WatchlistDtoView { year: parse_year_spec(value), ..cur },
                        acc,
                    );
                } else if name == "title"@ {
                    lemma_xml_fold_unfolds_to(
                        events,
                        cur,
                        acc,
                        WatchlistDtoView { title: value, ..cur },
                        acc,
                    );
                } else if name == "ratingKey"@ {
                    lemma_xml_fold_unfolds_to(
                        events,
                        cur,
                        acc,
                        WatchlistDtoView { plex_movie_id: Option::Some(value), ..cur },
                        acc,
                    );
                } else {
                    lemma_xml_fold_unfolds_to(events, cur, acc, cur, acc);
                }
            },
            XmlEventView::End => {
                if is_blank_record(cur) {
                    lemma_xml_fold_unfolds_to(events, cur, acc, cur, acc);
                } else {
                    assert(forall|k: int|
                        0 <= k < (acc + seq![cur]).len() ==> !is_blank_record((acc + seq![cur])[k]));
                    lemma_xml_fold_unfolds_to(events, cur, acc, empty_plex_record(), acc + seq![cur]);
                }
            },
            XmlEventView::Skip => {
                lemma_xml_fold_unfolds_to(events, cur, acc, cur, acc);
            },
        }
    }
}

/// One step of the fold: when consuming the first event leads to the
/// state `(cur2, acc2)`, the non-blank property carries over.
proof fn lemma_xml_fold_unfolds_to(
    events: Seq<XmlEventView>,
    cur: WatchlistDtoView,
    acc: Seq<WatchlistDtoView>,
    cur2: WatchlistDtoView,
    acc2: Seq<WatchlistDtoView>,
)
    requires
        events.len() > 0,
        xml_fold(events, cur, acc) == xml_fold(events.drop_first(), cur2, acc2),
        forall|k: int| 0 <= k < acc2.len() ==> !is_blank_record(acc2[k]),
    ensures
        forall|k: int|
            0 <= k < xml_fold(events, cur, acc).len() ==> !is_blank_record(
                xml_fold(events, cur, acc)[k],
            ),
    decreases events.len(), 0int,
{
    lemma_xml_fold_not_blank(events.drop_first(), cur2, acc2);
    assert forall|k: int| 0 <= k < xml_fold(events, cur, acc).len() implies !is_blank_record(
        xml_fold(events, cur, acc)[k],
    ) by {
        assert(xml_fold(events, cur, acc)[k] == xml_fold(events.drop_first(), cur2, acc2)[k]);
    }
}

/// Parses the XML watchlist listing: each `video` element (ASCII
/// case-insensitive) whose `title`, `year` or `ratingKey` attributes
/// were seen becomes a record; empty and malformed elements yield
/// nothing.
pub fn parse_watchlist_xml(text: &str) -> (r: Vec<WatchlistDto>)
    ensures
        record_views(r@) == parse_watchlist_xml_spec(text@),
{
    let events = tokenize(text);
    fold_events(&events)
}

// ---------------------------------------------------------------------
// Search resolution
// ---------------------------------------------------------------------

/// The first result group whose id is `external`, if any.
pub open spec fn first_external_group(groups: Seq<SearchResultView>) -> Option<SearchResultView>
    decreases groups.len(),
{
    if groups.len() == 0 {
        Option::None
    } else if groups.first().id == "external"@ {
        Option::Some(groups.first())
    } else {
        first_external_group(groups.drop_first())
    }
}

/// The first candidate whose title and year both equal the record's
/// exactly, if any: no normalization, no fuzzy threshold, list order
/// decides ties.
pub open spec fn first_exact_match(
    cands: Seq<SearchResultDataView>,
    title: Seq<char>,
    year: int,
) -> Option<SearchResultDataView>
    decreases cands.len(),
{
    if cands.len() == 0 {
        Option::None
    } else if cands.first().metadata.title == title && cands.first().metadata.year == year {
        Option::Some(cands.first())
    } else {
        first_exact_match(cands.drop_first(), title, year)
    }
}

/// What resolving one tracker record against one search response
/// yields: the first exact match of the `external` group, rebuilt as a
/// media-service record carrying the candidate's catalog key; nothing
/// when that group is absent or holds no exact match.
pub open spec fn resolve_spec(rec: WatchlistDtoView, resp: PlexSearchDtoView) -> Option<
    WatchlistDtoView,
> {
    match first_external_group(resp.media_container.search_results) {
        Option::None => Option::None,
        Option::Some(g) => match first_exact_match(g.search_result, rec.title, rec.year) {
            Option::None => Option::None,
            Option::Some(c) => Option::Some(
                WatchlistDtoView {
                    title: rec.title,
                    year: rec.year,
                    source: WatchlistSource::Plex,
                    plex_movie_id: Option::Some(c.metadata.rating_key),
                },
            ),
        },
    }
}

/// Finds the `external` result group of a search response. `None` is
/// the typed "group absent" outcome: a recoverable no-candidates
/// result, not a failure.
pub fn find_external_group(resp: &PlexSearchDto) -> (r: Option<&SearchResult>)
    ensures
        match r {
            Option::Some(g) => first_external_group(resp@.media_container.search_results)
                == Option::Some(g@),
            Option::None => first_external_group(resp@.media_container.search_results) is None,
        },
{
    let groups = &resp.media_container.search_results;
    let mut i: usize = 0;
    proof {
        assert(group_views(groups@).skip(0) =~= group_views(groups@));
    }
    while i < groups.len()
        invariant
            0 <= i <= groups.len(),
            group_views(groups@) == resp@.media_container.search_results,
            first_external_group(group_views(groups@).skip(i as int)) == first_external_group(
                group_views(groups@),
            ),
        decreases groups.len() - i,
    {
        proof {
            let gv = group_views(groups@);
            assert(gv.skip(i as int).first() == gv[i as int]);
            assert(gv.skip(i as int).drop_first() =~= gv.skip(i + 1));
        }
        if str_eq(groups[i].id.as_str(), "external") {
            return Option::Some(&groups[i]);
        }
        i = i + 1;
    }
    proof {
        assert(group_views(groups@).skip(i as int).len() == 0);
    }
    Option::None
}

/// Resolves one tracker record against one search response, as
/// [`resolve_spec`] says: `Some` exactly when the `external` group is
/// present and holds an exact `(title, year)` match.
pub fn resolve(rec: &WatchlistDto, resp: &PlexSearchDto) -> (r: Option<WatchlistDto>)
    ensures
        match r {
            Option::Some(d) => resolve_spec(rec@, resp@) == Option::Some(d@),
            Option::None => resolve_spec(rec@, resp@) is None,
        },
{
    let group = match find_external_group(resp) {
        Option::Some(g) => g,
        Option::None => {
            return Option::None;
        },
    };
    let cands = &group.search_result;
    let mut i: usize = 0;
    proof {
        assert(candidate_views(cands@).skip(0) =~= candidate_views(cands@));
    }
    while i < cands.len()
        invariant
            0 <= i <= cands.len(),
            first_external_group(resp@.media_container.search_results) == Option::Some(group@),
            candidate_views(cands@) == group@.search_result,
            first_exact_match(candidate_views(cands@).skip(i as int), rec@.title, rec@.year)
                == first_exact_match(candidate_views(cands@), rec@.title, rec@.year),
        decreases cands.len() - i,
    {
        proof {
            let cv = candidate_views(cands@);
            assert(cv.skip(i as int).first() == cv[i as int]);
            assert(cv.skip(i as int).drop_first() =~= cv.skip(i + 1));
        }
        if str_eq(cands[i].metadata.title.as_str(), rec.title.as_str()) && cands[i].metadata.year
            == rec.year {
            return Option::Some(
                WatchlistDto {
                    title: rec.title.clone(),
                    year: rec.year,
                    source: WatchlistSource::Plex,
                    plex_movie_id: Option::Some(cands[i].metadata.rating_key.clone()),
                },
            );
        }
        i = i + 1;
    }
    proof {
        assert(candidate_views(cands@).skip(i as int).len() == 0);
    }
    Option::None
}

/// What the matching phase yields over paired records and responses:
/// each record resolved against its own response, in order, unresolved
/// records dropped.
pub open spec fn resolve_all_spec(
    recs: Seq<WatchlistDtoView>,
    resps: Seq<PlexSearchDtoView>,
) -> Seq<WatchlistDtoView>
    decreases recs.len(),
{
    if recs.len() == 0 || resps.len() == 0 {
        Seq::empty()
    } else {
        let rest = resolve_all_spec(recs.drop_first(), resps.drop_first());
        match resolve_spec(recs.first(), resps.first()) {
            Option::Some(r) => seq![r] + rest,
            Option::None => rest,
        }
    }
}

/// The matching phase: resolves each tracker record against its own
/// search response; a record with no exact match is dropped, and drops
/// no other record with it.
pub fn resolve_all(recs: &Vec<WatchlistDto>, resps: &Vec<PlexSearchDto>) -> (r: Vec<WatchlistDto>)
    requires
        recs@.len() == resps@.len(),
    ensures
        record_views(r@) == resolve_all_spec(record_views(recs@), response_views(resps@)),
{
    let mut out: Vec<WatchlistDto> = Vec::new();
    let mut i: usize = 0;
    proof {
        assert(record_views(recs@).skip(0) =~= record_views(recs@));
        assert(response_views(resps@).skip(0) =~= response_views(resps@));
    }
    while i < recs.len()
        invariant
            0 <= i <= recs.len(),
            recs@.len() == resps@.len(),
            record_views(out@) + resolve_all_spec(
                record_views(recs@).skip(i as int),
                response_views(resps@).skip(i as int),
            ) == resolve_all_spec(record_views(recs@), response_views(resps@)),
        decreases recs.len() - i,
    {
        proof {
            let rv = record_views(recs@);
            let pv = response_views(resps@);
            assert(rv.skip(i as int).first() == rv[i as int]);
            assert(rv.skip(i as int).drop_first() =~= rv.skip(i + 1));
            assert(pv.skip(i as int).first() == pv[i as int]);
            assert(pv.skip(i as int).drop_first() =~= pv.skip(i + 1));
        }
        let resolved = resolve(&recs[i], &resps[i]);
        let ghost old_out = out@;
        match resolved {
            Option::Some(rec) => {
                let ghost recv = rec@;
                out.push(rec);
                proof {
                    assert(record_views(out@) =~= record_views(old_out) + seq![recv]);
                    assert(record_views(out@) + resolve_all_spec(
                        record_views(recs@).skip(i + 1),
                        response_views(resps@).skip(i + 1),
                    ) =~= resolve_all_spec(record_views(recs@), response_views(resps@)));
                }
            },
            Option::None => {},
        }
        i = i + 1;
    }
    proof {
        assert(record_views(recs@).skip(i as int).len() == 0);
        assert(record_views(out@) =~= resolve_all_spec(
            record_views(recs@),
            response_views(resps@),
        ));
    }
    out
}

// ---------------------------------------------------------------------
// The write phase
// ---------------------------------------------------------------------

/// The catalog keys the write phase will add, in order: one per record
/// that carries one, records without one skipped.
pub open spec fn plan_adds_spec(recs: Seq<WatchlistDtoView>) -> Seq<Seq<char>>
    decreases recs.len(),
{
    if recs.len() == 0 {
        Seq::empty()
    } else {
        let rest = plan_adds_spec(recs.drop_first());
        match recs.first().plex_movie_id {
            Option::Some(id) => seq![id] + rest,
            Option::None => rest,
        }
    }
}

/// Plans the write phase: the catalog key of every resolved record, in
/// order. The shell issues one add call per key; each call's outcome is
/// independent, and a failed one never drops a later key.
pub fn plan_adds(recs: &Vec<WatchlistDto>) -> (r: Vec<String>)
    ensures
        views_of(r@) == plan_adds_spec(record_views(recs@)),
{
    let mut out: Vec<String> = Vec::new();
    let mut i: usize = 0;
    proof {
        assert(record_views(recs@).skip(0) =~= record_views(recs@));
    }
    while i < recs.len()
        invariant
            0 <= i <= recs.len(),
            views_of(out@) + plan_adds_spec(record_views(recs@).skip(i as int)) == plan_adds_spec(
                record_views(recs@),
            ),
        decreases recs.len() - i,
    {
        proof {
            let rv = record_views(recs@);
            assert(rv.skip(i as int).first() == rv[i as int]);
            assert(rv.skip(i as int).drop_first() =~= rv.skip(i + 1));
        }
        let ghost old_out = out@;
        match &recs[i].plex_movie_id {
            Option::Some(id) => {
                let ghost idv = id@;
                out.push(id.clone());
                proof {
                    assert(views_of(out@) =~= views_of(old_out) + seq![idv]);
                    assert(views_of(out@) + plan_adds_spec(record_views(recs@).skip(i + 1))
                        =~= plan_adds_spec(record_views(recs@)));
                }
            },
            Option::None => {},
        }
        i = i + 1;
    }
    proof {
        assert(record_views(recs@).skip(i as int).len() == 0);
        assert(views_of(out@) =~= plan_adds_spec(record_views(recs@)));
    }
    out
}

// ---------------------------------------------------------------------
// Laws of the pipeline
// ---------------------------------------------------------------------

/// Reconciliation holds no state between runs: two runs over equal
/// tracker records and equal search responses resolve equal records and
/// plan equal adds. An already-synchronized watchlist is therefore
/// re-added unchanged the second time, so the add operation must be
/// safe to repeat.
pub proof fn lemma_reconcile_repeatable(
    recs1: Seq<WatchlistDtoView>,
    resps1: Seq<PlexSearchDtoView>,
    recs2: Seq<WatchlistDtoView>,
    resps2: Seq<PlexSearchDtoView>,
)
    requires
        recs1 == recs2,
        resps1 == resps2,
    ensures
        resolve_all_spec(recs1, resps1) == resolve_all_spec(recs2, resps2),
        plan_adds_spec(resolve_all_spec(recs1, resps1)) == plan_adds_spec(
            resolve_all_spec(recs2, resps2),
        ),
{
}

/// Every record the matching phase yields has been resolved: it carries
/// the media-service provenance tag and a catalog key (the key is set
/// if and only if the record was matched).
pub proof fn lemma_resolved_records_form(
    recs: Seq<WatchlistDtoView>,
    resps: Seq<PlexSearchDtoView>,
)
    ensures
        forall|k: int|
            0 <= k < resolve_all_spec(recs, resps).len() ==> {
                &&& resolve_all_spec(recs, resps)[k].plex_movie_id is Some
                &&& resolve_all_spec(recs, resps)[k].source == WatchlistSource::Plex
            },
    decreases recs.len(),
{
    if recs.len() == 0 || resps.len() == 0 {
    } else {
        lemma_resolved_records_form(recs.drop_first(), resps.drop_first());
    }
}

/// The write phase covers every resolved record: the planned adds are
/// exactly the resolved records' catalog keys, in order, with nothing
/// deduplicated.
pub proof fn lemma_plan_covers_resolved(
    recs: Seq<WatchlistDtoView>,
    resps: Seq<PlexSearchDtoView>,
)
    ensures
        plan_adds_spec(resolve_all_spec(recs, resps)).len() == resolve_all_spec(recs, resps).len(),
        forall|k: int|
            0 <= k < resolve_all_spec(recs, resps).len() ==> Option::Some(
                plan_adds_spec(resolve_all_spec(recs, resps))[k],
            ) == resolve_all_spec(recs, resps)[k].plex_movie_id,
{
    lemma_resolved_records_form(recs, resps);
    lemma_plan_adds_all_resolved(resolve_all_spec(recs, resps));
}

/// Over records that all carry a catalog key, the planned adds are
/// those keys, position by position.
proof fn lemma_plan_adds_all_resolved(recs: Seq<WatchlistDtoView>)
    requires
        forall|k: int| 0 <= k < recs.len() ==> recs[k].plex_movie_id is Some,
    ensures
        plan_adds_spec(recs).len() == recs.len(),
        forall|k: int|
            0 <= k < recs.len() ==> Option::Some(plan_adds_spec(recs)[k])
                == recs[k].plex_movie_id,
    decreases recs.len(),
{
    if recs.len() == 0 {
    } else {
        assert(recs[0].plex_movie_id is Some);
        lemma_plan_adds_all_resolved(recs.drop_first());
        assert forall|k: int| 0 <= k < recs.len() implies Option::Some(plan_adds_spec(recs)[k])
            == recs[k].plex_movie_id by {
            if k > 0 {
                assert(recs.drop_first()[k - 1] == recs[k]);
                assert(plan_adds_spec(recs)[k] == plan_adds_spec(recs.drop_first())[k - 1]);
            }
        }
    }
}

} // verus!
