//! The similarity filter.
//!
//! A track of the catalog is similar to a reference track when each of its
//! four audio features lies within a tolerance of the reference's, its
//! popularity is above a bound, and it is not the reference itself. Of the
//! similar tracks that share a name only the first of the catalog is kept,
//! and the kept tracks are ranked by popularity.

use crate::config::{thresholds_of, Thresholds};
use crate::ranking::{
    is_ranked, lemma_ranked_unique, lemma_ranking_descends, lemma_ranking_distinct,
    lemma_ranking_exists, positions, rank_order, rank_positions, ranks_before,
};
use crate::track::{pick_all, popularities, Track, TrackView};
use vstd::hash_set::StringHashSet;
use vstd::prelude::*;

verus! {

/// `a` and `b` differ by at most `tol`. A negative tolerance admits nothing.
pub open spec fn within(a: int, b: int, tol: int) -> bool {
    -tol <= a - b <= tol
}

/// The similarity rule: all four features within their tolerances, the
/// popularity above the bound, and another identifier than the reference's.
pub open spec fn qualifies(candidate: TrackView, reference: TrackView, th: Thresholds) -> bool {
    &&& within(candidate.danceability as int, reference.danceability as int, th.danceability_tol as int)
    &&& within(candidate.energy as int, reference.energy as int, th.energy_tol as int)
    &&& within(candidate.tempo as int, reference.tempo as int, th.tempo_tol as int)
    &&& within(candidate.valence as int, reference.valence as int, th.valence_tol as int)
    &&& candidate.popularity > th.popularity_min
    &&& candidate.track_id != reference.track_id
}

/// The track at position `i` qualifies, and no qualifying track in front of
/// it has the same name.
pub open spec fn is_first_of_name(
    catalog: Seq<TrackView>,
    reference: TrackView,
    th: Thresholds,
    i: int,
) -> bool {
    &&& 0 <= i < catalog.len()
    &&& qualifies(catalog[i], reference, th)
    &&& forall|j: int|
        0 <= j < i && qualifies(#[trigger] catalog[j], reference, th) ==> catalog[j].track_name
            != catalog[i].track_name
}

/// The positions below `n` that are the first of their name, in ascending
/// order.
pub open spec fn retained_below(
    catalog: Seq<TrackView>,
    reference: TrackView,
    th: Thresholds,
    n: int,
) -> Seq<int>
    decreases n,
{
    if n <= 0 {
        Seq::empty()
    } else {
        let before = retained_below(catalog, reference, th, n - 1);
        if is_first_of_name(catalog, reference, th, n - 1) {
            before.push(n - 1)
        } else {
            before
        }
    }
}

/// The positions of the catalog that survive filtering and deduplication, in
/// catalog order.
pub open spec fn retained(catalog: Seq<TrackView>, reference: TrackView, th: Thresholds) -> Seq<
    int,
> {
    retained_below(catalog, reference, th, catalog.len() as int)
}

/// The catalog positions of the similar tracks, from the most popular to the
/// least popular; tracks of the same popularity stay in catalog order.
pub open spec fn similar_positions(
    catalog: Seq<TrackView>,
    reference: TrackView,
    th: Thresholds,
) -> Seq<int> {
    let kept = retained(catalog, reference, th);
    pick_positions(kept, rank_order(popularities(pick_all(catalog, kept))))
}

/// The entries of `kept` in the order that `order` gives.
pub open spec fn pick_positions(kept: Seq<int>, order: Seq<int>) -> Seq<int> {
    order.map_values(|k: int| kept[k])
}

/// The similar tracks of `reference` in `catalog`, ranked.
pub open spec fn similar_tracks(
    catalog: Seq<TrackView>,
    reference: TrackView,
    th: Thresholds,
) -> Seq<TrackView> {
    pick_all(catalog, similar_positions(catalog, reference, th))
}

/// What `retained_below` holds: exactly the positions below `n` that are the
/// first of their name, each once, in ascending order.
pub proof fn lemma_retained_below(
    catalog: Seq<TrackView>,
    reference: TrackView,
    th: Thresholds,
    n: int,
)
    requires
        0 <= n <= catalog.len(),
    ensures
        retained_below(catalog, reference, th, n).len() <= n,
        forall|k: int|
            0 <= k < retained_below(catalog, reference, th, n).len() ==> {
                let i = #[trigger] retained_below(catalog, reference, th, n)[k];
                i < n && is_first_of_name(catalog, reference, th, i)
            },
        forall|k1: int, k2: int|
            0 <= k1 < k2 < retained_below(catalog, reference, th, n).len()
                ==> #[trigger] retained_below(catalog, reference, th, n)[k1]
                < #[trigger] retained_below(catalog, reference, th, n)[k2],
        forall|i: int|
            0 <= i < n && is_first_of_name(catalog, reference, th, i) ==> #[trigger] retained_below(
                catalog,
                reference,
                th,
                n,
            ).contains(i),
    decreases n,
{
    if n > 0 {
        lemma_retained_below(catalog, reference, th, n - 1);
        let before = retained_below(catalog, reference, th, n - 1);
        let now = retained_below(catalog, reference, th, n);
        assert forall|i: int|
            0 <= i < n && is_first_of_name(catalog, reference, th, i) implies #[trigger] now.contains(
            i,
        ) by {
            if i < n - 1 {
                assert(before.contains(i));
                let k: int = choose|k: int| 0 <= k < before.len() && before[k] == i;
                assert(now[k] == i);
            } else {
                assert(now[now.len() - 1] == i);
            }
        }
    }
}

/// What the similar tracks are, said without reference to how they are
/// found:
/// - every one of them qualifies, so none has the reference's identifier and
///   none exceeds a tolerance;
/// - their popularity never increases along the sequence, and of two with
///   the same popularity the one that stands first in the catalog comes
///   first;
/// - no two of them have the same name;
/// - every qualifying track of the catalog has its name among them.
pub proof fn lemma_similar_tracks(catalog: Seq<TrackView>, reference: TrackView, th: Thresholds)
    ensures
        similar_tracks(catalog, reference, th).len() == similar_positions(
            catalog,
            reference,
            th,
        ).len(),
        similar_tracks(catalog, reference, th).len() <= catalog.len(),
        forall|k: int|
            0 <= k < similar_positions(catalog, reference, th).len() ==> is_first_of_name(
                catalog,
                reference,
                th,
                #[trigger] similar_positions(catalog, reference, th)[k],
            ),
        forall|k: int|
            0 <= k < similar_tracks(catalog, reference, th).len() ==> qualifies(
                #[trigger] similar_tracks(catalog, reference, th)[k],
                reference,
                th,
            ),
        forall|k1: int, k2: int|
            0 <= k1 <= k2 < similar_tracks(catalog, reference, th).len() ==> (
            #[trigger] similar_tracks(catalog, reference, th)[k1]).popularity >= (
            #[trigger] similar_tracks(catalog, reference, th)[k2]).popularity,
        forall|k1: int, k2: int|
            0 <= k1 < similar_tracks(catalog, reference, th).len() && 0 <= k2 < similar_tracks(
                catalog,
                reference,
                th,
            ).len() && k1 != k2 ==> (#[trigger] similar_tracks(
                catalog,
                reference,
                th,
            )[k1]).track_name != (#[trigger] similar_tracks(catalog, reference, th)[k2]).track_name,
        forall|k1: int, k2: int|
            0 <= k1 < k2 < similar_positions(catalog, reference, th).len() && catalog[similar_positions(
                catalog,
                reference,
                th,
            )[k1]].popularity == catalog[similar_positions(catalog, reference, th)[k2]].popularity
                ==> #[trigger] similar_positions(catalog, reference, th)[k1]
                < #[trigger] similar_positions(catalog, reference, th)[k2],
        forall|i: int|
            0 <= i < catalog.len() && qualifies(#[trigger] catalog[i], reference, th)
                ==> exists|k: int|
                0 <= k < similar_tracks(catalog, reference, th).len() && (#[trigger] similar_tracks(
                    catalog,
                    reference,
                    th,
                )[k]).track_name == catalog[i].track_name,
{
    let kept = retained(catalog, reference, th);
    let pops = popularities(pick_all(catalog, kept));
    let order = rank_order(pops);
    let at = similar_positions(catalog, reference, th);
    let out = similar_tracks(catalog, reference, th);
    lemma_retained_below(catalog, reference, th, catalog.len() as int);
    lemma_ranking_exists(pops);
    lemma_ranking_descends(pops, order);
    lemma_ranking_distinct(pops, order);
    assert forall|k: int| 0 <= k < at.len() implies is_first_of_name(
        catalog,
        reference,
        th,
        #[trigger] at[k],
    ) by {
        assert(0 <= order[k] < kept.len());
        assert(at[k] == kept[order[k]]);
    }
    assert forall|k: int| 0 <= k < out.len() implies qualifies(#[trigger] out[k], reference, th) by {
        assert(is_first_of_name(catalog, reference, th, at[k]));
    }
    assert forall|k1: int, k2: int| 0 <= k1 <= k2 < out.len() implies (#[trigger] out[k1]).popularity
        >= (#[trigger] out[k2]).popularity by {
        assert(0 <= order[k1] < kept.len() && 0 <= order[k2] < kept.len());
        assert(pops[order[k1]] >= pops[order[k2]]);
    }
    assert forall|k1: int, k2: int|
        0 <= k1 < out.len() && 0 <= k2 < out.len() && k1 != k2 implies (#[trigger] out[k1]).track_name
        != (#[trigger] out[k2]).track_name by {
        assert(0 <= order[k1] < kept.len() && 0 <= order[k2] < kept.len());
        assert(order[k1] != order[k2]);
        assert(is_first_of_name(catalog, reference, th, at[k1]));
        assert(is_first_of_name(catalog, reference, th, at[k2]));
        if order[k1] < order[k2] {
            assert(kept[order[k1]] < kept[order[k2]]);
        } else {
            assert(kept[order[k2]] < kept[order[k1]]);
        }
    }
    assert forall|k1: int, k2: int|
        0 <= k1 < k2 < at.len() && catalog[at[k1]].popularity
            == catalog[at[k2]].popularity implies #[trigger] at[k1] < #[trigger] at[k2] by {
        assert(0 <= order[k1] < kept.len() && 0 <= order[k2] < kept.len());
        assert(ranks_before(pops, order[k1], order[k2]));
        assert(pops[order[k1]] == catalog[kept[order[k1]]].popularity);
        assert(pops[order[k2]] == catalog[kept[order[k2]]].popularity);
        assert(kept[order[k1]] < kept[order[k2]]);
    }
    assert forall|i: int|
        0 <= i < catalog.len() && qualifies(#[trigger] catalog[i], reference, th) implies exists|
        k: int,
    | 0 <= k < out.len() && (#[trigger] out[k]).track_name == catalog[i].track_name by {
        let first: int = lemma_first_of_name(catalog, reference, th, i);
        assert(kept.contains(first));
        let slot: int = choose|slot: int| 0 <= slot < kept.len() && kept[slot] == first;
        assert(order.contains(slot));
        let k: int = choose|k: int| 0 <= k < order.len() && order[k] == slot;
        assert(at[k] == first);
        assert(out[k].track_name == catalog[i].track_name);
    }
}

/// The similar tracks are pinned down by what is said of them: a sequence of
/// positions that holds exactly the positions that are the first of their
/// name, each entry ranking before those that follow it by the popularity of
/// its track, is the sequence of the positions of the similar tracks.
pub proof fn lemma_similar_positions_unique(
    catalog: Seq<TrackView>,
    reference: TrackView,
    th: Thresholds,
    at: Seq<int>,
)
    requires
        forall|i: int| at.contains(i) <==> is_first_of_name(catalog, reference, th, i),
        is_ranked(popularities(catalog), at),
    ensures
        at == similar_positions(catalog, reference, th),
{
    let kept = retained(catalog, reference, th);
    let pops = popularities(pick_all(catalog, kept));
    let order = rank_order(pops);
    let found = similar_positions(catalog, reference, th);
    lemma_similar_tracks(catalog, reference, th);
    lemma_retained_below(catalog, reference, th, catalog.len() as int);
    lemma_ranking_exists(pops);
    assert forall|i: int| found.contains(i) <==> is_first_of_name(catalog, reference, th, i) by {
        if found.contains(i) {
            let k: int = choose|k: int| 0 <= k < found.len() && found[k] == i;
            assert(is_first_of_name(catalog, reference, th, found[k]));
        }
        if is_first_of_name(catalog, reference, th, i) {
            assert(kept.contains(i));
            let slot: int = choose|slot: int| 0 <= slot < kept.len() && kept[slot] == i;
            assert(order.contains(slot));
            let k: int = choose|k: int| 0 <= k < order.len() && order[k] == slot;
            assert(found[k] == i);
        }
    }
    assert(is_ranked(popularities(catalog), found)) by {
        assert forall|k1: int, k2: int| 0 <= k1 < k2 < found.len() implies ranks_before(
            popularities(catalog),
            #[trigger] found[k1],
            #[trigger] found[k2],
        ) by {
            assert(is_first_of_name(catalog, reference, th, found[k1]));
            assert(is_first_of_name(catalog, reference, th, found[k2]));
            assert(0 <= order[k1] < kept.len() && 0 <= order[k2] < kept.len());
            assert(ranks_before(pops, order[k1], order[k2]));
            assert(pops[order[k1]] == catalog[kept[order[k1]]].popularity);
            assert(pops[order[k2]] == catalog[kept[order[k2]]].popularity);
            if order[k1] < order[k2] {
                assert(kept[order[k1]] < kept[order[k2]]);
            }
        }
    }
    lemma_ranked_unique(popularities(catalog), at, found);
}

/// Exceeding one tolerance excludes: a track of the catalog that has one
/// feature outside its tolerance is not among the similar tracks, however
/// close its other features are, and no similar track has its values.
pub proof fn lemma_one_exceeded_tolerance_excludes(
    catalog: Seq<TrackView>,
    reference: TrackView,
    th: Thresholds,
    i: int,
)
    requires
        0 <= i < catalog.len(),
        !within(catalog[i].danceability as int, reference.danceability as int, th.danceability_tol as int)
            || !within(catalog[i].energy as int, reference.energy as int, th.energy_tol as int)
            || !within(catalog[i].tempo as int, reference.tempo as int, th.tempo_tol as int)
            || !within(catalog[i].valence as int, reference.valence as int, th.valence_tol as int),
    ensures
        !similar_positions(catalog, reference, th).contains(i),
        !similar_tracks(catalog, reference, th).contains(catalog[i]),
{
    lemma_similar_tracks(catalog, reference, th);
    let at = similar_positions(catalog, reference, th);
    let out = similar_tracks(catalog, reference, th);
    if at.contains(i) {
        let k: int = choose|k: int| 0 <= k < at.len() && at[k] == i;
        assert(is_first_of_name(catalog, reference, th, at[k]));
    }
    if out.contains(catalog[i]) {
        let k: int = choose|k: int| 0 <= k < out.len() && out[k] == catalog[i];
        assert(qualifies(out[k], reference, th));
    }
}

/// A qualifying track has a first qualifying track of its name at or in
/// front of it.
proof fn lemma_first_of_name(
    catalog: Seq<TrackView>,
    reference: TrackView,
    th: Thresholds,
    i: int,
) -> (first: int)
    requires
        0 <= i < catalog.len(),
        qualifies(catalog[i], reference, th),
    ensures
        0 <= first <= i,
        is_first_of_name(catalog, reference, th, first),
        catalog[first].track_name == catalog[i].track_name,
    decreases i,
{
    if is_first_of_name(catalog, reference, th, i) {
        i
    } else {
        let j: int = choose|j: int|
            0 <= j < i && qualifies(#[trigger] catalog[j], reference, th) && catalog[j].track_name
                == catalog[i].track_name;
        lemma_first_of_name(catalog, reference, th, j)
    }
}

/// Whether `a` and `b` differ by at most `tol`.
pub fn is_within(a: i64, b: i64, tol: i64) -> (r: bool)
    ensures
        r == within(a as int, b as int, tol as int),
{
    let diff: i128 = a as i128 - b as i128;
    -(tol as i128) <= diff && diff <= tol as i128
}

/// Whether `candidate` is similar to `reference` under `th`.
pub fn is_similar(candidate: &Track, reference: &Track, th: &Thresholds) -> (r: bool)
    ensures
        r == qualifies(candidate@, reference@, *th),
{
    is_within(candidate.danceability, reference.danceability, th.danceability_tol) && is_within(
        candidate.energy,
        reference.energy,
        th.energy_tol,
    ) && is_within(candidate.tempo, reference.tempo, th.tempo_tol) && is_within(
        candidate.valence,
        reference.valence,
        th.valence_tol,
    ) && candidate.popularity > th.popularity_min && candidate.track_id != reference.track_id
}

/// Finds the tracks of the catalog that are similar to `input_track`.
///
/// A track qualifies when its danceability, energy, tempo and valence each
/// differ from the reference's by no more than the given threshold (in
/// millionths), its popularity is above `popularity_threshold`, and its
/// identifier is not the reference's. Of the qualifying tracks with the same
/// name only the first in the catalog is kept. The result is ordered by
/// falling popularity; tracks of equal popularity stay in catalog order.
pub fn find_similar_songs<'a>(
    tracks: &'a [Track],
    input_track: &Track,
    danceability_threshold: i64,
    energy_threshold: i64,
    tempo_threshold: i64,
    valence_threshold: i64,
    popularity_threshold: u32,
) -> (similar: Vec<&'a Track>)
    ensures
        ({
            let th = thresholds_of(
                danceability_threshold,
                energy_threshold,
                tempo_threshold,
                valence_threshold,
                popularity_threshold,
            );
            let at = similar_positions(tracks.deep_view(), input_track@, th);
            &&& similar.deep_view() == similar_tracks(tracks.deep_view(), input_track@, th)
            &&& similar@.len() == at.len()
            &&& forall|k: int|
                0 <= k < similar@.len() ==> *(#[trigger] similar@[k]) == tracks@[at[k]]
            &&& forall|k: int|
                0 <= k < similar@.len() ==> qualifies((#[trigger] similar@[k])@, input_track@, th)
        }),
        forall|k: int|
            0 <= k < similar@.len() ==> (#[trigger] similar@[k]).track_id@ != input_track.track_id@,
        forall|k1: int, k2: int|
            0 <= k1 <= k2 < similar@.len() ==> (#[trigger] similar@[k1]).popularity >= (
            #[trigger] similar@[k2]).popularity,
        forall|k1: int, k2: int|
            0 <= k1 < similar@.len() && 0 <= k2 < similar@.len() && k1 != k2 ==> (
            #[trigger] similar@[k1]).track_name@ != (#[trigger] similar@[k2]).track_name@,
{
    let th = Thresholds::new(
        danceability_threshold,
        energy_threshold,
        tempo_threshold,
        valence_threshold,
        popularity_threshold,
    );
    find_similar(tracks, input_track, &th)
}

/// [`find_similar_songs`] with the thresholds in one value.
pub fn find_similar<'a>(tracks: &'a [Track], reference: &Track, th: &Thresholds) -> (similar: Vec<
    &'a Track,
>)
    ensures
        ({
            let at = similar_positions(tracks.deep_view(), reference@, *th);
            &&& similar.deep_view() == similar_tracks(tracks.deep_view(), reference@, *th)
            &&& similar@.len() == at.len()
            &&& forall|k: int|
                0 <= k < similar@.len() ==> *(#[trigger] similar@[k]) == tracks@[at[k]]
            &&& forall|k: int|
                0 <= k < similar@.len() ==> qualifies((#[trigger] similar@[k])@, reference@, *th)
        }),
        forall|k: int|
            0 <= k < similar@.len() ==> (#[trigger] similar@[k]).track_id@ != reference.track_id@,
        forall|k1: int, k2: int|
            0 <= k1 <= k2 < similar@.len() ==> (#[trigger] similar@[k1]).popularity >= (
            #[trigger] similar@[k2]).popularity,
        forall|k1: int, k2: int|
            0 <= k1 < similar@.len() && 0 <= k2 < similar@.len() && k1 != k2 ==> (
            #[trigger] similar@[k1]).track_name@ != (#[trigger] similar@[k2]).track_name@,
{
    let ghost catalog = tracks.deep_view();
    let ghost target = reference@;
    let mut kept: Vec<usize> = Vec::new();
    let mut pops: Vec<u32> = Vec::new();
    let mut seen = StringHashSet::new();
    let mut i: usize = 0;
    while i < tracks.len()
        invariant
            i <= tracks@.len(),
            catalog == tracks.deep_view(),
            target == reference@,
            positions(kept@) == retained_below(catalog, target, *th, i as int),
            pops@ == popularities(pick_all(catalog, positions(kept@))),
            forall|k: int| 0 <= k < kept@.len() ==> (#[trigger] kept@[k]) < i,
            forall|name: Seq<char>|
                seen@.contains(name) <==> exists|j: int|
                    0 <= j < i && qualifies(#[trigger] catalog[j], target, *th)
                        && catalog[j].track_name == name,
        decreases tracks@.len() - i,
    {
        let track = &tracks[i];
        assert(catalog[i as int] == track@);
        if is_similar(track, reference, th) {
            let ghost seen_before = seen@;
            let fresh = seen.insert(track.track_name.clone());
            proof {
                let name = track.track_name@;
                assert(fresh == !seen_before.contains(name));
                assert(fresh == is_first_of_name(catalog, target, *th, i as int));
                assert forall|other: Seq<char>|
                    seen@.contains(other) <==> exists|j: int|
                        0 <= j < i + 1 && qualifies(#[trigger] catalog[j], target, *th)
                            && catalog[j].track_name == other by {
                    if other == name {
                        assert(qualifies(catalog[i as int], target, *th));
                    } else {
                        assert(seen@.contains(other) == seen_before.contains(other));
                    }
                }
            }
            if fresh {
                proof {
                    let grown = positions(kept@).push(i as int);
                    assert(positions(kept@.push(i)) =~= grown);
                    assert(popularities(pick_all(catalog, grown)) =~= pops@.push(track.popularity));
                }
                kept.push(i);
                pops.push(track.popularity);
            }
        } else {
            assert(!is_first_of_name(catalog, target, *th, i as int));
        }
        i += 1;
    }
    let order = rank_positions(&pops);
    let ghost at = similar_positions(catalog, target, *th);
    proof {
        assert(positions(kept@) == retained(catalog, target, *th));
        assert(at =~= pick_positions(positions(kept@), positions(order@)));
        lemma_similar_tracks(catalog, target, *th);
        assert forall|m: int| 0 <= m < order@.len() implies (#[trigger] order@[m]) < kept@.len()
            && at[m] == kept@[order@[m] as int] by {
            assert(positions(order@)[m] == order@[m]);
            assert(positions(kept@)[order@[m] as int] == kept@[order@[m] as int]);
        }
    }
    let mut similar: Vec<&'a Track> = Vec::new();
    let mut k: usize = 0;
    while k < order.len()
        invariant
            k <= order@.len(),
            order@.len() == kept@.len(),
            order@.len() == at.len(),
            catalog == tracks.deep_view(),
            similar@.len() == k,
            forall|m: int| 0 <= m < kept@.len() ==> (#[trigger] kept@[m]) < tracks@.len(),
            forall|m: int| 0 <= m < order@.len() ==> (#[trigger] order@[m]) < kept@.len(),
            forall|m: int| 0 <= m < order@.len() ==> at[m] == kept@[(#[trigger] order@[m]) as int],
            forall|m: int| 0 <= m < k ==> *(#[trigger] similar@[m]) == tracks@[at[m]],
        decreases order@.len() - k,
    {
        similar.push(&tracks[kept[order[k]]]);
        k += 1;
    }
    proof {
        let out = similar_tracks(catalog, target, *th);
        assert(similar.deep_view() =~= out) by {
            assert forall|m: int| 0 <= m < similar@.len() implies similar.deep_view()[m]
                == out[m] by {
                assert(*similar@[m] == tracks@[at[m]]);
            }
        }
        assert forall|m: int| 0 <= m < similar@.len() implies (#[trigger] similar@[m])@
            == out[m] by {
            assert(*similar@[m] == tracks@[at[m]]);
        }
    }
    similar
}

} // verus!
