//! The catalog entry and its mathematical model.

use crate::fixed::{millionths_from_binary32, millionths_of_binary32};
use crate::text::str_eq;
use vstd::prelude::*;

verus! {

/// One catalog entry: a song with its descriptive fields and audio features.
///
/// The four audio features are fixed-point numbers counted in millionths, so
/// a danceability of 0.80 is stored as `800_000` and a tempo of 120 beats per
/// minute as `120_000_000`.
#[derive(Debug, Clone)]
pub struct Track {
    pub track_id: String,
    pub artists: String,
    pub album_name: String,
    pub track_name: String,
    pub popularity: u32,
    pub danceability: i64,
    pub energy: i64,
    pub tempo: i64,
    pub valence: i64,
}

/// The model of a [`Track`]: its texts as sequences of characters, its
/// numbers as they are.
pub struct TrackView {
    pub track_id: Seq<char>,
    pub artists: Seq<char>,
    pub album_name: Seq<char>,
    pub track_name: Seq<char>,
    pub popularity: u32,
    pub danceability: i64,
    pub energy: i64,
    pub tempo: i64,
    pub valence: i64,
}

impl View for Track {
    type V = TrackView;

    open spec fn view(&self) -> TrackView {
        TrackView {
            track_id: self.track_id@,
            artists: self.artists@,
            album_name: self.album_name@,
            track_name: self.track_name@,
            popularity: self.popularity,
            danceability: self.danceability,
            energy: self.energy,
            tempo: self.tempo,
            valence: self.valence,
        }
    }
}

impl DeepView for Track {
    type V = TrackView;

    open spec fn deep_view(&self) -> TrackView {
        self@
    }
}

/// The popularity scores of a sequence of tracks, in the same order.
pub open spec fn popularities(tracks: Seq<TrackView>) -> Seq<u32> {
    tracks.map_values(|t: TrackView| t.popularity)
}

/// The entries of `tracks` at the given positions, in the order of the
/// positions.
pub open spec fn pick_all(tracks: Seq<TrackView>, at: Seq<int>) -> Seq<TrackView> {
    at.map_values(|i: int| tracks[i])
}

/// One of the four audio features of a track.
#[derive(Debug, Clone, Copy, PartialEq, Eq, Structural)]
pub enum Feature {
    Danceability,
    Energy,
    Tempo,
    Valence,
}

/// A row of a catalog whose feature cannot be counted in millionths: it is
/// infinite, no number, or too large.
#[derive(Debug)]
pub struct FeatureOutOfRange {
    /// The identifier of the track in that row.
    pub track_id: String,
    /// The first feature of the row that cannot be counted.
    pub feature: Feature,
}

/// The first of the four features, in the order danceability, energy, tempo,
/// valence, whose single-precision value has no millionths.
pub open spec fn first_out_of_range(
    danceability: u32,
    energy: u32,
    tempo: u32,
    valence: u32,
) -> Option<Feature> {
    if millionths_of_binary32(danceability) is None {
        Some(Feature::Danceability)
    } else if millionths_of_binary32(energy) is None {
        Some(Feature::Energy)
    } else if millionths_of_binary32(tempo) is None {
        Some(Feature::Tempo)
    } else if millionths_of_binary32(valence) is None {
        Some(Feature::Valence)
    } else {
        None
    }
}

impl Track {
    /// Makes a track from a row of a catalog that holds the audio features as
    /// single-precision values, each given by its 32 bits. The row is
    /// refused if one of the features cannot be counted in millionths.
    pub fn from_binary32(
        track_id: String,
        artists: String,
        album_name: String,
        track_name: String,
        popularity: u32,
        danceability: u32,
        energy: u32,
        tempo: u32,
        valence: u32,
    ) -> (made: Result<Track, FeatureOutOfRange>)
        ensures
            match made {
                Ok(track) => {
                    &&& first_out_of_range(danceability, energy, tempo, valence) is None
                    &&& track.track_id == track_id
                    &&& track.artists == artists
                    &&& track.album_name == album_name
                    &&& track.track_name == track_name
                    &&& track.popularity == popularity
                    &&& Some(track.danceability) == millionths_of_binary32(danceability)
                    &&& Some(track.energy) == millionths_of_binary32(energy)
                    &&& Some(track.tempo) == millionths_of_binary32(tempo)
                    &&& Some(track.valence) == millionths_of_binary32(valence)
                },
                Err(error) => {
                    &&& first_out_of_range(danceability, energy, tempo, valence) == Some(
                        error.feature,
                    )
                    &&& error.track_id == track_id
                },
            },
    {
        let danceability = match millionths_from_binary32(danceability) {
            Some(millionths) => millionths,
            None => {
                return Err(FeatureOutOfRange { track_id, feature: Feature::Danceability });
            },
        };
        let energy = match millionths_from_binary32(energy) {
            Some(millionths) => millionths,
            None => {
                return Err(FeatureOutOfRange { track_id, feature: Feature::Energy });
            },
        };
        let tempo = match millionths_from_binary32(tempo) {
            Some(millionths) => millionths,
            None => {
                return Err(FeatureOutOfRange { track_id, feature: Feature::Tempo });
            },
        };
        let valence = match millionths_from_binary32(valence) {
            Some(millionths) => millionths,
            None => {
                return Err(FeatureOutOfRange { track_id, feature: Feature::Valence });
            },
        };
        Ok(
            Track {
                track_id,
                artists,
                album_name,
                track_name,
                popularity,
                danceability,
                energy,
                tempo,
                valence,
            },
        )
    }
}

/// A token that says nothing about explicit content.
#[derive(Debug)]
pub struct InvalidExplicitFlag {
    /// The token as it was found.
    pub token: String,
}

/// What a token of the catalog says about explicit content: `true`, `yes`
/// and `1` say that a track is explicit, `false`, `no` and `0` that it is
/// not. No other token says anything.
pub open spec fn explicit_flag_of(token: Seq<char>) -> Option<bool> {
    if token == "true"@ || token == "yes"@ || token == "1"@ {
        Some(true)
    } else if token == "false"@ || token == "no"@ || token == "0"@ {
        Some(false)
    } else {
        None
    }
}

/// Reads the explicit-content flag of a track from its token. A token
/// outside the six known ones is an error, which hands the token back.
pub fn parse_explicit_flag(token: &str) -> (flag: Result<bool, InvalidExplicitFlag>)
    ensures
        match flag {
            Ok(explicit) => explicit_flag_of(token@) == Some(explicit),
            Err(error) => explicit_flag_of(token@) is None && error.token@ == token@,
        },
{
    if str_eq(token, "true") || str_eq(token, "yes") || str_eq(token, "1") {
        Ok(true)
    } else if str_eq(token, "false") || str_eq(token, "no") || str_eq(token, "0") {
        Ok(false)
    } else {
        Err(InvalidExplicitFlag { token: token.to_owned() })
    }
}

} // verus!
