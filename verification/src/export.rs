//! The graph exporter and the summary.
//!
//! A subgraph is written as a graph description: an opening line, one
//! statement for the centre, one statement for each edge, and a closing
//! line. Names stand between double quotes exactly as they are; a name that
//! holds a double quote is not escaped. The summary says the same in prose,
//! one line for the reference track and one for each similar song.

use crate::render::{label_text, push_decimal, push_label, push_quoted, quoted, decimal_text};
use crate::subgraph::{features_of, snapshot, Edge, EdgeView, Subgraph, SubgraphView};
use crate::track::{Track, TrackView};
use vstd::prelude::*;
use vstd::string::StringExecFns;

verus! {

/// The statement that declares the centre with its label.
pub open spec fn node_statement(center: Seq<char>, details: Seq<char>) -> Seq<char> {
    "    "@ + quoted(center) + " [label="@ + quoted(details) + "];\n"@
}

/// The statement of the edge from the centre to a neighbour, labelled with
/// the neighbour's features.
pub open spec fn edge_statement(center: Seq<char>, edge: EdgeView) -> Seq<char> {
    "    "@ + quoted(center) + " -> "@ + quoted(edge.neighbor) + " [label="@ + quoted(
        label_text(edge.features),
    ) + "];\n"@
}

/// The statements of `edges`, one after the other.
pub open spec fn edge_statements(center: Seq<char>, edges: Seq<EdgeView>) -> Seq<char>
    decreases edges.len(),
{
    if edges.len() == 0 {
        Seq::empty()
    } else {
        edge_statements(center, edges.drop_last()) + edge_statement(center, edges.last())
    }
}

/// The graph description of `graph`.
pub open spec fn dot_text(graph: SubgraphView) -> Seq<char> {
    "graph {\n"@ + node_statement(graph.center, graph.details) + edge_statements(
        graph.center,
        graph.edges,
    ) + "}\n"@
}

/// The name of a track, its artists and its label, as the summary shows
/// them.
pub open spec fn described(track: TrackView) -> Seq<char> {
    quoted(track.track_name) + " by "@ + track.artists + " ["@ + label_text(features_of(track))
        + "]"@
}

/// The first line of the summary: the reference track.
pub open spec fn summary_heading(reference: TrackView, top_k: usize) -> Seq<char> {
    "Top "@ + decimal_text(top_k as nat) + " similar songs to "@ + described(reference) + ":\n"@
}

/// The line of the summary for one similar song.
pub open spec fn summary_line(song: TrackView) -> Seq<char> {
    "  -> "@ + described(song) + "\n"@
}

/// The lines of the summary for `songs`, one after the other.
pub open spec fn summary_lines(songs: Seq<TrackView>) -> Seq<char>
    decreases songs.len(),
{
    if songs.len() == 0 {
        Seq::empty()
    } else {
        summary_lines(songs.drop_last()) + summary_line(songs.last())
    }
}

/// The summary of a query: the heading and one line for each similar song.
pub open spec fn summary_text(reference: TrackView, songs: Seq<TrackView>, top_k: usize) -> Seq<
    char,
> {
    summary_heading(reference, top_k) + summary_lines(songs)
}

/// The line that offers one candidate under its number.
pub open spec fn candidate_line(number: nat, candidate: TrackView) -> Seq<char> {
    decimal_text(number) + ": "@ + quoted(candidate.track_name) + " by "@ + candidate.artists
        + " (Album: "@ + candidate.album_name + ", Popularity: "@ + decimal_text(
        candidate.popularity as nat,
    ) + ")\n"@
}

/// The lines that offer `candidates`, numbered from 1.
pub open spec fn candidate_lines(candidates: Seq<TrackView>) -> Seq<char>
    decreases candidates.len(),
{
    if candidates.len() == 0 {
        Seq::empty()
    } else {
        candidate_lines(candidates.drop_last()) + candidate_line(
            candidates.len(),
            candidates.last(),
        )
    }
}

/// The question put to the caller when a name has several matches: a
/// heading, the offered candidates, and the request for a number.
pub open spec fn prompt_text(candidates: Seq<TrackView>, top_k: usize) -> Seq<char> {
    "Multiple matches found. Please select one of the top "@ + decimal_text(top_k as nat)
        + " most popular songs:\n"@ + candidate_lines(candidates)
        + "Enter the number of the correct song: "@
}

/// `piece` stands somewhere in `text`, character for character.
pub open spec fn occurs_in(piece: Seq<char>, text: Seq<char>) -> bool {
    exists|at: int|
        0 <= at && at + piece.len() <= text.len() && #[trigger] text.subrange(
            at,
            at + piece.len(),
        ) == piece
}

/// A text stands in every text that has it between two others.
proof fn lemma_occurs_between(before: Seq<char>, piece: Seq<char>, after: Seq<char>)
    ensures
        occurs_in(piece, before + piece + after),
{
    let text = before + piece + after;
    let at: int = before.len() as int;
    assert(text.subrange(at, at + piece.len()) =~= piece);
}

/// What stands in a part of a text stands in the text.
proof fn lemma_occurs_in_part(piece: Seq<char>, part: Seq<char>, text: Seq<char>)
    requires
        occurs_in(piece, part),
        occurs_in(part, text),
    ensures
        occurs_in(piece, text),
{
    let inner: int = choose|at: int|
        0 <= at && at + piece.len() <= part.len() && #[trigger] part.subrange(at, at + piece.len())
            == piece;
    let outer: int = choose|at: int|
        0 <= at && at + part.len() <= text.len() && #[trigger] text.subrange(at, at + part.len())
            == part;
    let at: int = outer + inner;
    assert(text.subrange(at, at + piece.len()) =~= text.subrange(
        outer,
        outer + part.len(),
    ).subrange(inner, inner + piece.len()));
}

/// The statement of every edge stands in the statements of all edges.
proof fn lemma_edge_statement_occurs(center: Seq<char>, edges: Seq<EdgeView>, k: int)
    requires
        0 <= k < edges.len(),
    ensures
        occurs_in(edge_statement(center, edges[k]), edge_statements(center, edges)),
    decreases edges.len(),
{
    let front = edge_statements(center, edges.drop_last());
    let last = edge_statement(center, edges.last());
    let all = edge_statements(center, edges);
    let empty = Seq::<char>::empty();
    if k == edges.len() - 1 {
        lemma_occurs_between(front, last, empty);
        assert(front + last + empty =~= all);
    } else {
        lemma_edge_statement_occurs(center, edges.drop_last(), k);
        lemma_occurs_between(empty, front, last);
        assert(empty + front + last =~= all);
        lemma_occurs_in_part(edge_statement(center, edges[k]), front, all);
    }
}

/// The statement of the centre begins, after its indentation, with the
/// quoted name of the centre.
proof fn lemma_key_in_node(center: Seq<char>, details: Seq<char>)
    ensures
        occurs_in(quoted(center) + " [label="@, node_statement(center, details)),
{
    let key = quoted(center) + " [label="@;
    let rest = quoted(details) + "];\n"@;
    lemma_occurs_between("    "@, key, rest);
    assert("    "@ + key + rest =~= node_statement(center, details));
}

/// The statement of an edge begins, after its indentation, with the quoted
/// name of the centre, an arrow, and the quoted name of the neighbour.
proof fn lemma_arrow_in_statement(center: Seq<char>, edge: EdgeView)
    ensures
        occurs_in(
            quoted(center) + " -> "@ + quoted(edge.neighbor),
            edge_statement(center, edge),
        ),
{
    let arrow = quoted(center) + " -> "@ + quoted(edge.neighbor);
    let label = quoted(label_text(edge.features));
    let rest = " [label="@ + label + "];\n"@;
    lemma_occurs_between("    "@, arrow, rest);
    assert("    "@ + arrow + rest =~= "    "@ + quoted(center) + " -> "@ + quoted(edge.neighbor)
        + " [label="@ + label + "];\n"@);
}

/// The parts of a graph description stand in it.
proof fn lemma_parts_of_dot_text(graph: SubgraphView)
    ensures
        occurs_in("graph {\n"@, dot_text(graph)),
        occurs_in(node_statement(graph.center, graph.details), dot_text(graph)),
        occurs_in(edge_statements(graph.center, graph.edges), dot_text(graph)),
{
    let open = "graph {\n"@;
    let close = "}\n"@;
    let node = node_statement(graph.center, graph.details);
    let all_edges = edge_statements(graph.center, graph.edges);
    let empty = Seq::<char>::empty();
    let text = open + node + all_edges + close;
    lemma_occurs_between(empty, open, node + all_edges + close);
    assert(empty + open + (node + all_edges + close) =~= text);
    lemma_occurs_between(open, node, all_edges + close);
    assert(open + node + (all_edges + close) =~= text);
    lemma_occurs_between(open + node, all_edges, close);
}

/// The names of a graph stand in its description as they are: the
/// description holds the opening line, the quoted name of the centre in
/// front of its label, and for the edge at `k` the quoted name of the
/// centre, an arrow and the quoted name of the neighbour.
pub proof fn lemma_names_are_kept(graph: SubgraphView, k: int)
    ensures
        occurs_in("graph {\n"@, dot_text(graph)),
        occurs_in(quoted(graph.center) + " [label="@, dot_text(graph)),
        0 <= k < graph.edges.len() ==> occurs_in(
            quoted(graph.center) + " -> "@ + quoted(graph.edges[k].neighbor),
            dot_text(graph),
        ),
{
    let text = dot_text(graph);
    lemma_parts_of_dot_text(graph);
    lemma_key_in_node(graph.center, graph.details);
    lemma_occurs_in_part(
        quoted(graph.center) + " [label="@,
        node_statement(graph.center, graph.details),
        text,
    );
    if 0 <= k < graph.edges.len() {
        let edge = graph.edges[k];
        let statement = edge_statement(graph.center, edge);
        let all_edges = edge_statements(graph.center, graph.edges);
        lemma_arrow_in_statement(graph.center, edge);
        lemma_edge_statement_occurs(graph.center, graph.edges, k);
        lemma_occurs_in_part(statement, all_edges, text);
        lemma_occurs_in_part(
            quoted(graph.center) + " -> "@ + quoted(edge.neighbor),
            statement,
            text,
        );
    }
}

/// Appends the statement of `edge` to `out`.
fn push_edge_statement(out: &mut String, center: &str, edge: &Edge)
    ensures
        final(out)@ == old(out)@ + edge_statement(center@, edge@),
{
    out.append("    ");
    push_quoted(out, center);
    out.append(" -> ");
    push_quoted(out, edge.neighbor.as_str());
    out.append(" [label=");
    push_char_quote(out);
    push_label(out, &edge.features);
    push_char_quote(out);
    out.append("];\n");
    assert(out@ =~= old(out)@ + edge_statement(center@, edge@));
}

/// Appends one double quote to `out`.
fn push_char_quote(out: &mut String)
    ensures
        final(out)@ == old(out)@ + seq!['"'],
{
    crate::text::push_char(out, '"');
    assert(out@ =~= old(out)@ + seq!['"']);
}

/// Writes `graph` as a graph description: the opening line, the statement
/// of the centre, the statements of the edges in their order, and the
/// closing line.
pub fn export_subgraph_to_dot(graph: &Subgraph) -> (text: String)
    ensures
        text@ == dot_text(graph@),
{
    let mut out = String::new();
    out.append("graph {\n");
    out.append("    ");
    push_quoted(&mut out, graph.center.as_str());
    out.append(" [label=");
    push_quoted(&mut out, graph.details.as_str());
    out.append("];\n");
    let ghost head = "graph {\n"@ + node_statement(graph.center@, graph.details@);
    assert(out@ =~= head);
    let ghost edges = graph@.edges;
    let mut i: usize = 0;
    while i < graph.edges.len()
        invariant
            i <= graph.edges@.len(),
            edges == graph.edges.deep_view(),
            out@ == head + edge_statements(graph.center@, edges.take(i as int)),
        decreases graph.edges@.len() - i,
    {
        let edge = &graph.edges[i];
        assert(edges[i as int] == edge@);
        push_edge_statement(&mut out, graph.center.as_str(), edge);
        proof {
            let longer = edges.take(i + 1);
            assert(longer.drop_last() =~= edges.take(i as int));
            assert(longer.last() == edge@);
            assert(out@ =~= head + edge_statements(graph.center@, longer));
        }
        i += 1;
    }
    assert(edges.take(i as int) =~= edges);
    out.append("}\n");
    assert(out@ =~= dot_text(graph@));
    out
}

/// Appends the name, the artists and the label of `track` to `out`.
fn push_described(out: &mut String, track: &Track)
    ensures
        final(out)@ == old(out)@ + described(track@),
{
    push_quoted(out, track.track_name.as_str());
    out.append(" by ");
    out.append(track.artists.as_str());
    out.append(" [");
    push_label(out, &snapshot(track));
    out.append("]");
    assert(out@ =~= old(out)@ + described(track@));
}

/// Writes the summary of a query: a heading that names the reference track
/// and how many songs were asked for, and one line for each similar song.
pub fn display_clean_subgraph(input_track: &Track, similar_songs: &[&Track], top_k: usize) -> (text:
    String)
    ensures
        text@ == summary_text(input_track@, similar_songs.deep_view(), top_k),
{
    let mut out = String::new();
    out.append("Top ");
    push_decimal(&mut out, top_k as u64);
    out.append(" similar songs to ");
    push_described(&mut out, input_track);
    out.append(":\n");
    let ghost head = summary_heading(input_track@, top_k);
    assert(out@ =~= head);
    let ghost songs = similar_songs.deep_view();
    let mut i: usize = 0;
    while i < similar_songs.len()
        invariant
            i <= similar_songs@.len(),
            songs == similar_songs.deep_view(),
            out@ == head + summary_lines(songs.take(i as int)),
        decreases similar_songs@.len() - i,
    {
        let song = similar_songs[i];
        assert(songs[i as int] == song@);
        out.append("  -> ");
        push_described(&mut out, song);
        out.append("\n");
        proof {
            let longer = songs.take(i + 1);
            assert(longer.drop_last() =~= songs.take(i as int));
            assert(longer.last() == song@);
            assert(out@ =~= head + summary_lines(longer));
        }
        i += 1;
    }
    assert(songs.take(i as int) =~= songs);
    out
}

/// Writes the question put to the caller when a name has several matches.
/// `candidates` are the offered candidates in their order, `top_k` is the
/// number of candidates that was asked for.
pub fn candidates_prompt(candidates: &[&Track], top_k: usize) -> (text: String)
    ensures
        text@ == prompt_text(candidates.deep_view(), top_k),
{
    let mut out = String::new();
    out.append("Multiple matches found. Please select one of the top ");
    push_decimal(&mut out, top_k as u64);
    out.append(" most popular songs:\n");
    let ghost head = out@;
    let ghost offer = candidates.deep_view();
    let mut i: usize = 0;
    while i < candidates.len()
        invariant
            i <= candidates@.len(),
            offer == candidates.deep_view(),
            out@ == head + candidate_lines(offer.take(i as int)),
        decreases candidates@.len() - i,
    {
        let candidate = candidates[i];
        assert(offer[i as int] == candidate@);
        let ghost before = out@;
        push_decimal(&mut out, i as u64 + 1);
        out.append(": ");
        push_quoted(&mut out, candidate.track_name.as_str());
        out.append(" by ");
        out.append(candidate.artists.as_str());
        out.append(" (Album: ");
        out.append(candidate.album_name.as_str());
        out.append(", Popularity: ");
        push_decimal(&mut out, candidate.popularity as u64);
        out.append(")\n");
        proof {
            let longer = offer.take(i + 1);
            assert(longer.drop_last() =~= offer.take(i as int));
            assert(longer.last() == candidate@);
            assert(out@ =~= before + candidate_line((i + 1) as nat, candidate@));
            assert(out@ =~= head + candidate_lines(longer));
        }
        i += 1;
    }
    assert(offer.take(i as int) =~= offer);
    out.append("Enter the number of the correct song: ");
    assert(out@ =~= prompt_text(offer, top_k));
    out
}

} // verus!
