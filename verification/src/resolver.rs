//! The name resolver.
//!
//! A song is asked for by name. The name is compared with the names of the
//! catalog without regard to the case of ASCII letters. One match resolves at
//! once; several matches are ranked by popularity, and the caller picks one
//! of the first few by its number.

use crate::ranking::{is_ranking, lemma_ranking_exists, positions, rank_order, rank_positions};
use crate::text::{eq_ignore_ascii_case, equal_ignoring_ascii_case};
use crate::track::{pick_all, popularities, Track, TrackView};
use vstd::prelude::*;

verus! {

/// How many candidates are offered when nothing else is asked for.
pub const DEFAULT_CANDIDATES: usize = 3;

/// The positions below `n` whose track name matches `name`, in ascending
/// order.
pub open spec fn matching_below(catalog: Seq<TrackView>, name: Seq<char>, n: int) -> Seq<int>
    decreases n,
{
    if n <= 0 {
        Seq::empty()
    } else {
        let before = matching_below(catalog, name, n - 1);
        if equal_ignoring_ascii_case(catalog[n - 1].track_name, name) {
            before.push(n - 1)
        } else {
            before
        }
    }
}

/// The positions of the catalog whose track name matches `name`, in catalog
/// order.
pub open spec fn matching_positions(catalog: Seq<TrackView>, name: Seq<char>) -> Seq<int> {
    matching_below(catalog, name, catalog.len() as int)
}

/// The candidates from the most popular to the least popular; candidates of
/// the same popularity stay in the order they came in.
pub open spec fn ranked_candidates(candidates: Seq<TrackView>) -> Seq<TrackView> {
    pick_all(candidates, rank_order(popularities(candidates)))
}

/// How many candidates are offered: all of them, but no more than `top_k`.
pub open spec fn offered(count: nat, top_k: usize) -> int {
    if top_k <= count {
        top_k as int
    } else {
        count as int
    }
}

/// The first `top_k` of the ranked candidates.
pub open spec fn top_candidates(candidates: Seq<TrackView>, top_k: usize) -> Seq<TrackView> {
    ranked_candidates(candidates).take(offered(candidates.len(), top_k))
}

/// A selection is valid when it is a number from 1 to the number of offered
/// candidates.
pub open spec fn valid_selection(count: nat, top_k: usize, selection: Option<usize>) -> bool {
    match selection {
        Some(number) => 1 <= number <= offered(count, top_k),
        None => false,
    }
}

/// The candidate that a selection names, if the selection is valid.
pub open spec fn selected(
    candidates: Seq<TrackView>,
    top_k: usize,
    selection: Option<usize>,
) -> Option<TrackView> {
    if valid_selection(candidates.len(), top_k, selection) {
        Some(ranked_candidates(candidates)[selection->0 - 1])
    } else {
        None
    }
}

/// What `matching_below` holds: exactly the positions below `n` whose name
/// matches, in ascending order.
pub proof fn lemma_matching_below(catalog: Seq<TrackView>, name: Seq<char>, n: int)
    requires
        0 <= n <= catalog.len(),
    ensures
        matching_below(catalog, name, n).len() <= n,
        forall|k: int|
            0 <= k < matching_below(catalog, name, n).len() ==> {
                let i = #[trigger] matching_below(catalog, name, n)[k];
                0 <= i < n && equal_ignoring_ascii_case(catalog[i].track_name, name)
            },
        forall|k1: int, k2: int|
            0 <= k1 < k2 < matching_below(catalog, name, n).len() ==> #[trigger] matching_below(
                catalog,
                name,
                n,
            )[k1] < #[trigger] matching_below(catalog, name, n)[k2],
        forall|i: int|
            0 <= i < n && equal_ignoring_ascii_case(catalog[i].track_name, name)
                ==> #[trigger] matching_below(catalog, name, n).contains(i),
    decreases n,
{
    if n > 0 {
        lemma_matching_below(catalog, name, n - 1);
        let before = matching_below(catalog, name, n - 1);
        let now = matching_below(catalog, name, n);
        assert forall|i: int|
            0 <= i < n && equal_ignoring_ascii_case(
                catalog[i].track_name,
                name,
            ) implies #[trigger] now.contains(i) by {
            if i < n - 1 {
                assert(before.contains(i));
                let k: int = choose|k: int| 0 <= k < before.len() && before[k] == i;
                assert(now[k] == i);
            } else {
                assert(now[now.len() - 1] == i);
            }
        }
    }
}

/// Picking from the offer is picking among all candidates: a selection is
/// valid exactly if it is a number from 1 to the length of the offer, and
/// then the selected candidate is the one that stands under this number in
/// the offer.
pub proof fn lemma_selected_from_offer(
    candidates: Seq<TrackView>,
    top_k: usize,
    selection: Option<usize>,
)
    ensures
        top_candidates(candidates, top_k).len() == offered(candidates.len(), top_k),
        valid_selection(candidates.len(), top_k, selection) <==> (selection matches Some(number)
            && 1 <= number <= top_candidates(candidates, top_k).len()),
        valid_selection(candidates.len(), top_k, selection) ==> selected(
            candidates,
            top_k,
            selection,
        ) == Some(top_candidates(candidates, top_k)[selection->0 - 1]),
{
    lemma_ranking_exists(popularities(candidates));
}

/// The outcome of looking a name up in the catalog.
#[derive(Debug)]
pub enum Resolution<'a> {
    /// No track has the name; the name that was asked for is handed back.
    NotFound(String),
    /// Exactly one track has the name.
    Resolved(&'a Track),
    /// Several tracks have the name: the first few of them by popularity.
    Ambiguous(Vec<&'a Track>),
}

/// All tracks of the catalog whose name matches `name`, in catalog order.
pub fn find_matches<'a>(catalog: &'a [Track], name: &str) -> (found: Vec<&'a Track>)
    ensures
        found.deep_view() == pick_all(
            catalog.deep_view(),
            matching_positions(catalog.deep_view(), name@),
        ),
        found@.len() == matching_positions(catalog.deep_view(), name@).len(),
        forall|k: int|
            0 <= k < found@.len() ==> *(#[trigger] found@[k]) == catalog@[matching_positions(
                catalog.deep_view(),
                name@,
            )[k]],
{
    let ghost model = catalog.deep_view();
    let mut found: Vec<&'a Track> = Vec::new();
    let mut i: usize = 0;
    while i < catalog.len()
        invariant
            i <= catalog@.len(),
            model == catalog.deep_view(),
            found@.len() == matching_below(model, name@, i as int).len(),
            forall|k: int|
                0 <= k < found@.len() ==> 0 <= (#[trigger] matching_below(model, name@, i as int)[k])
                    < i,
            forall|k: int|
                0 <= k < found@.len() ==> *(#[trigger] found@[k]) == catalog@[matching_below(
                    model,
                    name@,
                    i as int,
                )[k]],
        decreases catalog@.len() - i,
    {
        let track = &catalog[i];
        assert(model[i as int] == track@);
        proof {
            lemma_matching_below(model, name@, i as int);
        }
        if eq_ignore_ascii_case(track.track_name.as_str(), name) {
            found.push(track);
        }
        i += 1;
    }
    proof {
        let at = matching_positions(model, name@);
        assert(found.deep_view() =~= pick_all(model, at)) by {
            assert forall|k: int| 0 <= k < found@.len() implies found.deep_view()[k] == pick_all(
                model,
                at,
            )[k] by {
                assert(*found@[k] == catalog@[at[k]]);
            }
        }
    }
    found
}

/// The first `top_k` of the candidates by popularity.
pub fn rank_candidates<'a>(candidates: &[&'a Track], top_k: usize) -> (top: Vec<&'a Track>)
    ensures
        top.deep_view() == top_candidates(candidates.deep_view(), top_k),
        top@.len() == offered(candidates@.len(), top_k),
        forall|k: int|
            0 <= k < top@.len() ==> #[trigger] top@[k] == candidates@[rank_order(
                popularities(candidates.deep_view()),
            )[k]],
{
    let ghost model = candidates.deep_view();
    let mut pops: Vec<u32> = Vec::new();
    let mut i: usize = 0;
    while i < candidates.len()
        invariant
            i <= candidates@.len(),
            model == candidates.deep_view(),
            pops@ == popularities(model).take(i as int),
        decreases candidates@.len() - i,
    {
        assert(popularities(model).take(i + 1) =~= pops@.push(candidates@[i as int].popularity));
        pops.push(candidates[i].popularity);
        i += 1;
    }
    assert(pops@ =~= popularities(model));
    let order = rank_positions(&pops);
    let count: usize = if top_k <= order.len() {
        top_k
    } else {
        order.len()
    };
    let ghost ranked = rank_order(popularities(model));
    let mut top: Vec<&'a Track> = Vec::new();
    let mut k: usize = 0;
    while k < count
        invariant
            k <= count <= order@.len(),
            order@.len() == candidates@.len(),
            ranked == positions(order@),
            is_ranking(popularities(candidates.deep_view()), ranked),
            top@.len() == k,
            forall|m: int| 0 <= m < k ==> #[trigger] top@[m] == candidates@[ranked[m]],
        decreases count - k,
    {
        assert(ranked[k as int] == order@[k as int]);
        top.push(candidates[order[k]]);
        k += 1;
    }
    proof {
        let expected = top_candidates(model, top_k);
        assert(top.deep_view() =~= expected) by {
            assert forall|m: int| 0 <= m < top@.len() implies top.deep_view()[m]
                == expected[m] by {
                assert(top@[m] == candidates@[ranked[m]]);
            }
        }
    }
    top
}

/// Picks one of the first `top_k` candidates by popularity. `selection` is
/// the number of the candidate, counted from 1. A selection that is missing
/// or out of range is invalid, and nothing is picked.
pub fn select_among<'a>(
    candidates: &[&'a Track],
    top_k: usize,
    selection: Option<usize>,
) -> (picked: Option<&'a Track>)
    ensures
        picked.deep_view() == selected(candidates.deep_view(), top_k, selection),
        picked is Some <==> valid_selection(candidates@.len(), top_k, selection),
        picked matches Some(track) ==> track == candidates@[rank_order(
            popularities(candidates.deep_view()),
        )[selection->0 - 1]],
{
    let top = rank_candidates(candidates, top_k);
    match selection {
        Some(number) => {
            if number > 0 && number <= top.len() {
                proof {
                    lemma_ranking_exists(popularities(candidates.deep_view()));
                }
                Some(top[number - 1])
            } else {
                None
            }
        },
        None => None,
    }
}

/// Picks one of the three most popular candidates; see [`select_among`].
pub fn select_track<'a>(tracks: &'a [&'a Track], user_input: Option<usize>) -> (picked: Option<
    &'a Track,
>)
    ensures
        picked.deep_view() == selected(tracks.deep_view(), DEFAULT_CANDIDATES, user_input),
        picked is Some <==> valid_selection(tracks@.len(), DEFAULT_CANDIDATES, user_input),
        picked matches Some(track) ==> track == tracks@[rank_order(
            popularities(tracks.deep_view()),
        )[user_input->0 - 1]],
{
    select_among(tracks, DEFAULT_CANDIDATES, user_input)
}

/// Looks `name` up in the catalog.
///
/// With no match the outcome is `NotFound`, with one match it is that track,
/// and with more it is the first `top_k` matches by popularity, from which
/// [`select_among`] with the same `top_k` then takes the caller's pick.
pub fn resolve<'a>(catalog: &'a [Track], name: &str, top_k: usize) -> (outcome: Resolution<'a>)
    ensures
        ({
            let model = catalog.deep_view();
            let at = matching_positions(model, name@);
            match outcome {
                Resolution::NotFound(asked) => at.len() == 0 && asked@ == name@,
                Resolution::Resolved(track) => at.len() == 1 && *track == catalog@[at[0]],
                Resolution::Ambiguous(offer) => {
                    &&& at.len() > 1
                    &&& offer.deep_view() == top_candidates(pick_all(model, at), top_k)
                    &&& offer@.len() == offered(at.len(), top_k)
                    &&& forall|k: int|
                        0 <= k < offer@.len() ==> *(#[trigger] offer@[k]) == catalog@[at[rank_order(
                            popularities(pick_all(model, at)),
                        )[k]]]
                },
            }
        }),
{
    let found = find_matches(catalog, name);
    if found.len() == 0 {
        Resolution::NotFound(name.to_owned())
    } else if found.len() == 1 {
        Resolution::Resolved(found[0])
    } else {
        let candidates = found.as_slice();
        let offer = rank_candidates(candidates, top_k);
        proof {
            let model = catalog.deep_view();
            let at = matching_positions(model, name@);
            let pops = popularities(pick_all(model, at));
            lemma_ranking_exists(pops);
            assert(candidates.deep_view() =~= found.deep_view());
            assert forall|k: int| 0 <= k < offer@.len() implies *(#[trigger] offer@[k])
                == catalog@[at[rank_order(pops)[k]]] by {
                assert(0 <= rank_order(pops)[k] < found@.len());
            }
        }
        Resolution::Ambiguous(offer)
    }
}

} // verus!
