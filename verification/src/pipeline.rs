//! A query from the resolved name to its artifacts.
//!
//! Once a name is looked up, a query either fails (no track has the name, or
//! the pick among several candidates is invalid) or has a reference track.
//! From the reference track follow the similar songs, cut to the number that
//! was asked for, the star around the reference, the summary and the graph
//! description. Each step is a function of its inputs alone.

use crate::config::{Config, Thresholds};
use crate::export::{display_clean_subgraph, dot_text, export_subgraph_to_dot, summary_text};
use crate::resolver::{offered, Resolution};
use crate::similarity::{find_similar, similar_tracks};
use crate::subgraph::{build_song_subgraph, star_of, Subgraph, SubgraphView};
use crate::track::{Track, TrackView};
use vstd::prelude::*;
use vstd::string::StringExecFns;

verus! {

/// Why a query has no reference track.
#[derive(Debug)]
pub enum QueryError {
    /// No track of the catalog has the name that was asked for.
    NotFound(String),
    /// Several tracks have the name, and the pick among them was missing,
    /// no number, or out of range.
    InvalidSelection,
}

/// What is said to the caller about a failed query.
pub open spec fn error_text(error: QueryError) -> Seq<char> {
    match error {
        QueryError::NotFound(name) => "No song found with the name '"@ + name@ + "'."@,
        QueryError::InvalidSelection => "Invalid selection."@,
    }
}

impl QueryError {
    /// The message for the caller.
    pub fn message(&self) -> (text: String)
        ensures
            text@ == error_text(*self),
    {
        match self {
            QueryError::NotFound(name) => {
                let mut text = String::new();
                text.append("No song found with the name '");
                text.append(name.as_str());
                text.append("'.");
                assert(text@ =~= error_text(*self));
                text
            },
            QueryError::InvalidSelection => {
                let mut text = String::new();
                text.append("Invalid selection.");
                assert(text@ =~= error_text(*self));
                text
            },
        }
    }
}

/// Settles the outcome of a lookup: a single match is the reference track,
/// no match fails with the name, and among several matches the selection,
/// counted from 1 along the offered candidates, decides; a selection that is
/// missing or out of range fails.
pub fn settle<'a>(outcome: Resolution<'a>, selection: Option<usize>) -> (reference: Result<
    &'a Track,
    QueryError,
>)
    ensures
        match outcome {
            Resolution::NotFound(asked) => reference matches Err(QueryError::NotFound(name))
                && name == asked,
            Resolution::Resolved(track) => reference == Ok::<&Track, QueryError>(track),
            Resolution::Ambiguous(offer) => match selection {
                Some(number) => if 1 <= number <= offer@.len() {
                    reference == Ok::<&Track, QueryError>(offer@[number - 1])
                } else {
                    reference == Err::<&Track, QueryError>(QueryError::InvalidSelection)
                },
                None => reference == Err::<&Track, QueryError>(QueryError::InvalidSelection),
            },
        },
{
    match outcome {
        Resolution::NotFound(asked) => Err(QueryError::NotFound(asked)),
        Resolution::Resolved(track) => Ok(track),
        Resolution::Ambiguous(offer) => match selection {
            Some(number) => {
                if number > 0 && number <= offer.len() {
                    Ok(offer[number - 1])
                } else {
                    Err(QueryError::InvalidSelection)
                }
            },
            None => Err(QueryError::InvalidSelection),
        },
    }
}

/// The first `top_k` of the similar tracks, or all of them if there are
/// fewer.
pub open spec fn top_similar(
    catalog: Seq<TrackView>,
    reference: TrackView,
    th: Thresholds,
    top_k: usize,
) -> Seq<TrackView> {
    let all = similar_tracks(catalog, reference, th);
    all.take(offered(all.len(), top_k))
}

/// The first `count` of `songs`, or all of them if there are fewer.
pub fn take_first<'a>(songs: Vec<&'a Track>, count: usize) -> (first: Vec<&'a Track>)
    ensures
        first@ == songs@.take(offered(songs@.len(), count)),
{
    let mut first = songs;
    first.truncate(count);
    assert(first@ =~= songs@.take(offered(songs@.len(), count)));
    first
}

/// What a query hands to the caller.
#[derive(Debug)]
pub struct Report {
    /// The summary for the reader.
    pub summary: String,
    /// The star around the reference track.
    pub graph: Subgraph,
    /// The graph description of the star.
    pub dot: String,
}

/// The star of a query: the reference track and its first `top_k` similar
/// tracks.
pub open spec fn query_star(catalog: Seq<TrackView>, reference: TrackView, config: Config) -> SubgraphView {
    star_of(reference, top_similar(catalog, reference, config.thresholds, config.top_k_similar))
}

/// Answers a query for the reference track: finds the similar songs, keeps
/// the first `top_k_similar` of them, and writes the summary, the star and
/// its graph description.
pub fn report_similar(catalog: &[Track], reference: &Track, config: &Config) -> (report: Report)
    ensures
        report.summary@ == summary_text(
            reference@,
            top_similar(
                catalog.deep_view(),
                reference@,
                config.thresholds,
                config.top_k_similar,
            ),
            config.top_k_similar,
        ),
        report.graph@ == query_star(catalog.deep_view(), reference@, *config),
        report.dot@ == dot_text(query_star(catalog.deep_view(), reference@, *config)),
{
    let similar = find_similar(catalog, reference, &config.thresholds);
    let ghost all = similar.deep_view();
    let top = take_first(similar, config.top_k_similar);
    assert(top.deep_view() =~= all.take(offered(all.len(), config.top_k_similar)));
    let songs = top.as_slice();
    assert(songs.deep_view() =~= top.deep_view());
    let summary = display_clean_subgraph(reference, songs, config.top_k_similar);
    let graph = build_song_subgraph(reference, songs);
    let dot = export_subgraph_to_dot(&graph);
    Report { summary, graph, dot }
}

/// The same query has the same answer: whatever two runs of the filter, the
/// builder and the exporter hand out for one catalog, one reference track
/// and one configuration, they hand out the same similar songs, the same
/// star and the same texts.
pub proof fn lemma_same_query_same_answer(
    catalog: Seq<TrackView>,
    reference: TrackView,
    config: Config,
    first_similar: Seq<TrackView>,
    second_similar: Seq<TrackView>,
    first_star: SubgraphView,
    second_star: SubgraphView,
    first_dot: Seq<char>,
    second_dot: Seq<char>,
)
    requires
        first_similar == similar_tracks(catalog, reference, config.thresholds),
        second_similar == similar_tracks(catalog, reference, config.thresholds),
        first_star == star_of(
            reference,
            first_similar.take(offered(first_similar.len(), config.top_k_similar)),
        ),
        second_star == star_of(
            reference,
            second_similar.take(offered(second_similar.len(), config.top_k_similar)),
        ),
        first_dot == dot_text(first_star),
        second_dot == dot_text(second_star),
    ensures
        first_similar == second_similar,
        first_star == second_star,
        first_dot == second_dot,
        first_dot == dot_text(query_star(catalog, reference, config)),
{
}

} // verus!
