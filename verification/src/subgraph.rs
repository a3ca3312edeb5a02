//! The subgraph builder.
//!
//! The subgraph of a query is a star: the reference track in the centre and
//! one edge to each of its neighbours. The centre carries its label, each
//! edge carries the name and the features of its neighbour.

use crate::render::{label_text, render_label, Features};
use crate::text::str_eq;
use crate::track::{Track, TrackView};
use vstd::prelude::*;

verus! {

/// An edge from the centre to one neighbour.
#[derive(Debug, Clone)]
pub struct Edge {
    /// The track name of the neighbour.
    pub neighbor: String,
    pub features: Features,
}

/// A star: a centre with its label, and the edges that leave it.
#[derive(Debug, Clone)]
pub struct Subgraph {
    /// The track name of the reference track; the key of the centre.
    pub center: String,
    /// The label of the centre.
    pub details: String,
    pub edges: Vec<Edge>,
}

/// The model of an [`Edge`].
pub struct EdgeView {
    pub neighbor: Seq<char>,
    pub features: Features,
}

/// The model of a [`Subgraph`].
pub struct SubgraphView {
    pub center: Seq<char>,
    pub details: Seq<char>,
    pub edges: Seq<EdgeView>,
}

impl View for Edge {
    type V = EdgeView;

    open spec fn view(&self) -> EdgeView {
        EdgeView { neighbor: self.neighbor@, features: self.features }
    }
}

impl DeepView for Edge {
    type V = EdgeView;

    open spec fn deep_view(&self) -> EdgeView {
        self@
    }
}

impl View for Subgraph {
    type V = SubgraphView;

    open spec fn view(&self) -> SubgraphView {
        SubgraphView {
            center: self.center@,
            details: self.details@,
            edges: self.edges.deep_view(),
        }
    }
}

/// The features and the popularity of a track.
pub open spec fn features_of(track: TrackView) -> Features {
    Features {
        danceability: track.danceability,
        energy: track.energy,
        tempo: track.tempo,
        valence: track.valence,
        popularity: track.popularity,
    }
}

/// The edge that leads to `track`.
pub open spec fn edge_to(track: TrackView) -> EdgeView {
    EdgeView { neighbor: track.track_name, features: features_of(track) }
}

/// The star around `reference` with one edge to each of `neighbors`, in
/// their order.
pub open spec fn star_of(reference: TrackView, neighbors: Seq<TrackView>) -> SubgraphView {
    SubgraphView {
        center: reference.track_name,
        details: label_text(features_of(reference)),
        edges: neighbors.map_values(|t: TrackView| edge_to(t)),
    }
}

/// The features and the popularity of `track`.
pub fn snapshot(track: &Track) -> (f: Features)
    ensures
        f == features_of(track@),
{
    Features {
        danceability: track.danceability,
        energy: track.energy,
        tempo: track.tempo,
        valence: track.valence,
        popularity: track.popularity,
    }
}

/// Builds the star around `input_track` with one edge to each of
/// `similar_songs`, in their order. A neighbour that has the name of the
/// centre gets its edge like every other.
pub fn build_song_subgraph(input_track: &Track, similar_songs: &[&Track]) -> (graph: Subgraph)
    ensures
        graph@ == star_of(input_track@, similar_songs.deep_view()),
{
    let ghost neighbors = similar_songs.deep_view();
    let mut edges: Vec<Edge> = Vec::new();
    let mut i: usize = 0;
    while i < similar_songs.len()
        invariant
            i <= similar_songs@.len(),
            neighbors == similar_songs.deep_view(),
            edges@.len() == i,
            forall|k: int| 0 <= k < i ==> (#[trigger] edges@[k])@ == edge_to(neighbors[k]),
        decreases similar_songs@.len() - i,
    {
        let song = similar_songs[i];
        assert(neighbors[i as int] == song@);
        edges.push(Edge { neighbor: song.track_name.clone(), features: snapshot(song) });
        i += 1;
    }
    let graph = Subgraph {
        center: input_track.track_name.clone(),
        details: render_label(&snapshot(input_track)),
        edges,
    };
    assert(graph@.edges =~= star_of(input_track@, neighbors).edges);
    graph
}

impl Subgraph {
    /// Whether `name` is the key of the centre.
    pub fn contains_key(&self, name: &str) -> (r: bool)
        ensures
            r == (self.center@ == name@),
    {
        str_eq(self.center.as_str(), name)
    }

    /// The label and the edges of the node with the key `name`, if the graph
    /// has that node.
    pub fn get(&self, name: &str) -> (node: Option<(&String, &Vec<Edge>)>)
        ensures
            node is Some <==> self.center@ == name@,
            node matches Some(found) ==> *found.0 == self.details && *found.1 == self.edges,
    {
        if str_eq(self.center.as_str(), name) {
            Some((&self.details, &self.edges))
        } else {
            None
        }
    }
}

} // verus!
