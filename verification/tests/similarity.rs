use similar_songs::config::Thresholds;
use similar_songs::fixed::millionths_from_binary32;
use similar_songs::pipeline::take_first;
use similar_songs::similarity::{find_similar, find_similar_songs, is_similar, is_within};
use similar_songs::track::Track;

fn track(
    id: &str,
    name: &str,
    popularity: u32,
    danceability: i64,
    energy: i64,
    tempo: i64,
    valence: i64,
) -> Track {
    Track {
        track_id: id.to_string(),
        artists: format!("Artist {}", id),
        album_name: format!("Album {}", id),
        track_name: name.to_string(),
        popularity,
        danceability,
        energy,
        tempo,
        valence,
    }
}

fn m(value: f32) -> i64 {
    millionths_from_binary32(value.to_bits()).unwrap()
}

fn song_a() -> Track {
    Track {
        track_id: "1".to_string(),
        artists: "Artist A".to_string(),
        album_name: "Album A".to_string(),
        track_name: "Song A".to_string(),
        popularity: 85,
        danceability: m(0.8),
        energy: m(0.9),
        tempo: m(120.0),
        valence: m(0.7),
    }
}

fn song_b() -> Track {
    Track {
        track_id: "2".to_string(),
        artists: "Artist B".to_string(),
        album_name: "Album B".to_string(),
        track_name: "Song B".to_string(),
        popularity: 75,
        danceability: m(0.79),
        energy: m(0.91),
        tempo: m(121.0),
        valence: m(0.72),
    }
}

fn song_c() -> Track {
    Track {
        track_id: "3".to_string(),
        artists: "Artist C".to_string(),
        album_name: "Album C".to_string(),
        track_name: "Song C".to_string(),
        popularity: 65,
        danceability: m(0.5),
        energy: m(0.5),
        tempo: m(90.0),
        valence: m(0.3),
    }
}

fn wide() -> Thresholds {
    Thresholds {
        danceability_tol: 1_000_000,
        energy_tol: 1_000_000,
        tempo_tol: 1_000_000_000,
        valence_tol: 1_000_000,
        popularity_min: 0,
    }
}

#[test]
fn test_find_similar_songs() {
    let input_track = song_a();
    let similar_track = song_b();
    let dissimilar_track = song_c();

    let tracks = vec![input_track.clone(), similar_track.clone(), dissimilar_track.clone()];
    let similar_songs =
        find_similar_songs(&tracks, &input_track, m(0.05), m(0.05), m(5.0), m(0.05), 70);
    assert_eq!(similar_songs.len(), 1, "Expected 1 similar song.");
    assert_eq!(
        similar_songs[0].track_name, "Song B",
        "Expected Song B to be the similar song."
    );
}

#[test]
fn end_to_end_scenario_in_millionths() {
    let tracks = vec![song_a(), song_b(), song_c()];
    assert_eq!(tracks[0].danceability, 800_000);
    assert_eq!(tracks[1].tempo, 121_000_000);
    assert_eq!(tracks[2].valence, 300_000);
    let similar =
        find_similar_songs(&tracks, &tracks[0], 50_000, 50_000, 5_000_000, 50_000, 70);
    let ids: Vec<&str> = similar.iter().map(|t| t.track_id.as_str()).collect();
    assert_eq!(ids, vec!["2"]);
}

#[test]
fn reference_is_never_its_own_neighbor() {
    let reference = song_a();
    let twin = Track { track_id: "9".to_string(), ..song_a() };
    let tracks = vec![reference.clone(), twin, reference.clone()];
    let similar = find_similar(&tracks, &reference, &wide());
    assert_eq!(similar.len(), 1);
    assert_eq!(similar[0].track_id, "9");
    for song in &similar {
        assert_ne!(song.track_id, reference.track_id);
    }
}

#[test]
fn result_is_sorted_by_falling_popularity() {
    let reference = song_a();
    let tracks = vec![
        track("10", "Low", 10, 800_000, 900_000, 120_000_000, 700_000),
        track("11", "High", 90, 800_000, 900_000, 120_000_000, 700_000),
        track("12", "Mid", 50, 800_000, 900_000, 120_000_000, 700_000),
        track("13", "Top", 99, 800_000, 900_000, 120_000_000, 700_000),
    ];
    let similar = find_similar(&tracks, &reference, &wide());
    let names: Vec<&str> = similar.iter().map(|t| t.track_name.as_str()).collect();
    assert_eq!(names, vec!["Top", "High", "Mid", "Low"]);
    for pair in similar.windows(2) {
        assert!(pair[0].popularity >= pair[1].popularity);
    }
}

#[test]
fn equal_popularity_keeps_catalog_order() {
    let reference = song_a();
    let tracks = vec![
        track("10", "First", 80, 800_000, 900_000, 120_000_000, 700_000),
        track("11", "Second", 90, 800_000, 900_000, 120_000_000, 700_000),
        track("12", "Third", 80, 800_000, 900_000, 120_000_000, 700_000),
        track("13", "Fourth", 80, 800_000, 900_000, 120_000_000, 700_000),
    ];
    let similar = find_similar(&tracks, &reference, &wide());
    let ids: Vec<&str> = similar.iter().map(|t| t.track_id.as_str()).collect();
    assert_eq!(ids, vec!["11", "10", "12", "13"]);
}

#[test]
fn only_the_first_track_of_a_name_is_kept() {
    let reference = song_a();
    let tracks = vec![
        track("10", "Same", 71, 800_000, 900_000, 120_000_000, 700_000),
        track("11", "Same", 99, 800_000, 900_000, 120_000_000, 700_000),
        track("12", "same", 80, 800_000, 900_000, 120_000_000, 700_000),
        track("13", "Other", 75, 800_000, 900_000, 120_000_000, 700_000),
    ];
    let similar = find_similar(&tracks, &reference, &Thresholds::default());
    let ids: Vec<&str> = similar.iter().map(|t| t.track_id.as_str()).collect();
    assert_eq!(ids, vec!["12", "13", "10"]);
    for i in 0..similar.len() {
        for j in 0..similar.len() {
            if i != j {
                assert_ne!(similar[i].track_name, similar[j].track_name);
            }
        }
    }
}

#[test]
fn a_track_that_fails_does_not_hide_a_later_one_of_its_name() {
    let reference = song_a();
    let tracks = vec![
        track("10", "Same", 60, 800_000, 900_000, 120_000_000, 700_000),
        track("11", "Same", 90, 800_000, 900_000, 120_000_000, 700_000),
    ];
    let similar = find_similar(&tracks, &reference, &Thresholds::default());
    assert_eq!(similar.len(), 1);
    assert_eq!(similar[0].track_id, "11");
}

#[test]
fn one_exceeded_tolerance_excludes() {
    let reference = song_a();
    let candidate = track("2", "Far", 99, 800_000, 900_000, 200_000_000, 700_000);
    let tracks = vec![reference.clone(), candidate.clone()];
    let similar = find_similar_songs(&tracks, &reference, 50_000, 50_000, 50_000_000, 50_000, 0);
    assert!(similar.is_empty());

    let th = Thresholds {
        danceability_tol: 50_000,
        energy_tol: 50_000,
        tempo_tol: 50_000_000,
        valence_tol: 50_000,
        popularity_min: 0,
    };
    assert!(!is_similar(&candidate, &reference, &th));
    let off_dance = track("3", "D", 99, 850_001, 900_000, 120_000_000, 700_000);
    let off_energy = track("4", "E", 99, 800_000, 849_999, 120_000_000, 700_000);
    let off_valence = track("5", "V", 99, 800_000, 900_000, 120_000_000, 750_001);
    let on_the_edge = track("6", "Edge", 1, 850_000, 850_000, 170_000_000, 650_000);
    assert!(!is_similar(&off_dance, &reference, &th));
    assert!(!is_similar(&off_energy, &reference, &th));
    assert!(!is_similar(&off_valence, &reference, &th));
    assert!(is_similar(&on_the_edge, &reference, &th));
}

#[test]
fn popularity_bound_is_strict() {
    let reference = song_a();
    let at_bound = track("2", "At", 70, 800_000, 900_000, 120_000_000, 700_000);
    let above = track("3", "Above", 71, 800_000, 900_000, 120_000_000, 700_000);
    let th = Thresholds::default();
    assert!(!is_similar(&at_bound, &reference, &th));
    assert!(is_similar(&above, &reference, &th));
}

#[test]
fn within_is_symmetric_and_handles_extremes() {
    assert!(is_within(5, 8, 3));
    assert!(is_within(8, 5, 3));
    assert!(!is_within(5, 9, 3));
    assert!(!is_within(9, 5, 3));
    assert!(is_within(7, 7, 0));
    assert!(!is_within(7, 7, -1));
    assert!(!is_within(i64::MIN, i64::MAX, i64::MAX));
    assert!(!is_within(i64::MAX, i64::MIN, i64::MAX));
    assert!(is_within(i64::MIN, -1, i64::MAX));
}

#[test]
fn empty_catalog_gives_empty_result() {
    let reference = song_a();
    let tracks: Vec<Track> = Vec::new();
    assert!(find_similar(&tracks, &reference, &wide()).is_empty());
    let only_reference = vec![reference.clone()];
    assert!(find_similar(&only_reference, &reference, &wide()).is_empty());
}

#[test]
fn default_thresholds_have_the_documented_values() {
    let th = Thresholds::default();
    assert_eq!(th.danceability_tol, 50_000);
    assert_eq!(th.energy_tol, 50_000);
    assert_eq!(th.tempo_tol, 50_000_000);
    assert_eq!(th.valence_tol, 100_000);
    assert_eq!(th.popularity_min, 70);
    let config = similar_songs::config::Config::default();
    assert_eq!(config.top_k_similar, 5);
    assert_eq!(config.top_k_disambiguation, 3);
    assert_eq!(config.thresholds.popularity_min, 70);
}

#[test]
fn take_first_cuts_to_the_count() {
    let tracks = vec![
        track("10", "A", 10, 0, 0, 0, 0),
        track("11", "B", 20, 0, 0, 0, 0),
        track("12", "C", 30, 0, 0, 0, 0),
    ];
    let all: Vec<&Track> = tracks.iter().collect();
    let two = take_first(all.clone(), 2);
    assert_eq!(two.len(), 2);
    assert_eq!(two[0].track_id, "10");
    assert_eq!(two[1].track_id, "11");
    assert_eq!(take_first(all.clone(), 5).len(), 3);
    assert_eq!(take_first(all, 0).len(), 0);
}

#[test]
fn filtering_twice_gives_the_same_result() {
    let reference = song_a();
    let tracks = vec![song_a(), song_b(), song_c()];
    let first = find_similar(&tracks, &reference, &Thresholds::default());
    let second = find_similar(&tracks, &reference, &Thresholds::default());
    let first_ids: Vec<&str> = first.iter().map(|t| t.track_id.as_str()).collect();
    let second_ids: Vec<&str> = second.iter().map(|t| t.track_id.as_str()).collect();
    assert_eq!(first_ids, second_ids);
}
