//! The parameters of a query.

use vstd::prelude::*;

verus! {

/// The tolerances of the similarity rule. The four feature tolerances are in
/// millionths, like the features themselves; the popularity bound is strict.
#[derive(Debug, Clone, Copy)]
pub struct Thresholds {
    pub danceability_tol: i64,
    pub energy_tol: i64,
    pub tempo_tol: i64,
    pub valence_tol: i64,
    pub popularity_min: u32,
}

/// Everything a query can be tuned with.
#[derive(Debug, Clone, Copy)]
pub struct Config {
    pub thresholds: Thresholds,
    /// How many similar songs a query reports at most.
    pub top_k_similar: usize,
    /// How many candidates are offered when a name is ambiguous.
    pub top_k_disambiguation: usize,
}

/// The tolerances with the given values.
pub open spec fn thresholds_of(
    danceability_tol: i64,
    energy_tol: i64,
    tempo_tol: i64,
    valence_tol: i64,
    popularity_min: u32,
) -> Thresholds {
    Thresholds { danceability_tol, energy_tol, tempo_tol, valence_tol, popularity_min }
}

/// The tolerances used when none are given: 0.05 for danceability and energy,
/// 50 beats per minute for tempo, 0.1 for valence, and a popularity above 70.
pub open spec fn default_thresholds() -> Thresholds {
    Thresholds {
        danceability_tol: 50_000,
        energy_tol: 50_000,
        tempo_tol: 50_000_000,
        valence_tol: 100_000,
        popularity_min: 70,
    }
}

/// The configuration used when none is given: the default tolerances, five
/// similar songs and three candidates.
pub open spec fn default_config() -> Config {
    Config { thresholds: default_thresholds(), top_k_similar: 5, top_k_disambiguation: 3 }
}

impl Thresholds {
    /// The tolerances with the given values.
    pub fn new(
        danceability_tol: i64,
        energy_tol: i64,
        tempo_tol: i64,
        valence_tol: i64,
        popularity_min: u32,
    ) -> (r: Thresholds)
        ensures
            r == thresholds_of(
                danceability_tol,
                energy_tol,
                tempo_tol,
                valence_tol,
                popularity_min,
            ),
    {
        Thresholds { danceability_tol, energy_tol, tempo_tol, valence_tol, popularity_min }
    }
}

impl Default for Thresholds {
    fn default() -> (r: Thresholds)
        ensures
            r == default_thresholds(),
    {
        Thresholds {
            danceability_tol: 50_000,
            energy_tol: 50_000,
            tempo_tol: 50_000_000,
            valence_tol: 100_000,
            popularity_min: 70,
        }
    }
}

impl Default for Config {
    fn default() -> (r: Config)
        ensures
            r == default_config(),
    {
        Config { thresholds: Thresholds::default(), top_k_similar: 5, top_k_disambiguation: 3 }
    }
}

} // verus!
