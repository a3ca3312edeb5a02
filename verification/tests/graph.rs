use similar_songs::config::Config;
use similar_songs::export::{candidates_prompt, display_clean_subgraph, export_subgraph_to_dot};
use similar_songs::pipeline::report_similar;
use similar_songs::fixed::{millionths_from_binary32, MILLIONTHS};
use similar_songs::render::{
    digit_to_char, push_decimal, push_fixed2, push_label, push_quoted, render_label, Features,
};
use similar_songs::subgraph::{build_song_subgraph, snapshot, Edge, Subgraph};
use similar_songs::track::{parse_explicit_flag, Track};

fn m(value: f32) -> i64 {
    millionths_from_binary32(value.to_bits()).unwrap()
}

fn song_a() -> Track {
    Track {
        track_id: "1".to_string(),
        artists: "Artist A".to_string(),
        album_name: "Album A".to_string(),
        track_name: "Song A".to_string(),
        popularity: 85,
        danceability: m(0.8),
        energy: m(0.9),
        tempo: m(120.0),
        valence: m(0.7),
    }
}

fn song_b() -> Track {
    Track {
        track_id: "2".to_string(),
        artists: "Artist B".to_string(),
        album_name: "Album B".to_string(),
        track_name: "Song B".to_string(),
        popularity: 75,
        danceability: m(0.79),
        energy: m(0.91),
        tempo: m(121.0),
        valence: m(0.72),
    }
}

fn fixed2(millionths: i64) -> String {
    let mut out = String::new();
    push_fixed2(&mut out, millionths);
    out
}

fn decimal(n: u64) -> String {
    let mut out = String::new();
    push_decimal(&mut out, n);
    out
}

#[test]
fn test_build_song_subgraph() {
    let input_track = song_a();
    let similar_track = song_b();

    let graph = build_song_subgraph(&input_track, &[&similar_track]);
    assert!(graph.contains_key("Song A"), "Graph should contain the input track.");
    let node = graph.get("Song A").unwrap();
    assert_eq!(node.1.len(), 1, "Expected 1 similar song in the graph.");
    assert_eq!(node.1[0].neighbor, "Song B", "Expected Song B in the graph.");
}

#[test]
fn test_export_subgraph_to_dot() {
    let input_track = song_a();
    let similar_track = song_b();

    let graph = build_song_subgraph(&input_track, &[&similar_track]);
    let content = export_subgraph_to_dot(&graph);
    assert!(content.contains("graph {"), "DOT file should contain 'graph {{'");
    assert!(content.contains("\"Song A\""), "DOT file should contain 'Song A'");
    assert!(content.contains("\"Song B\""), "DOT file should contain 'Song B'");
}

#[test]
fn subgraph_holds_the_label_and_the_snapshots() {
    let a = song_a();
    let b = song_b();
    let graph = build_song_subgraph(&a, &[&b, &a]);
    assert_eq!(graph.center, "Song A");
    assert_eq!(
        graph.details,
        "Danceability: 0.80, Energy: 0.90, Tempo: 120.00, Valence: 0.70, Popularity: 85"
    );
    assert_eq!(graph.edges.len(), 2);
    assert_eq!(graph.edges[0].neighbor, "Song B");
    assert_eq!(graph.edges[0].features.danceability, 790_000);
    assert_eq!(graph.edges[0].features.energy, 910_000);
    assert_eq!(graph.edges[0].features.tempo, 121_000_000);
    assert_eq!(graph.edges[0].features.valence, 720_000);
    assert_eq!(graph.edges[0].features.popularity, 75);
    assert_eq!(graph.edges[1].neighbor, "Song A");
    assert!(!graph.contains_key("Song B"));
    assert!(!graph.contains_key("song a"));
    assert!(graph.get("Song B").is_none());
    assert_eq!(graph.get("Song A").unwrap().0, &graph.details);

    let alone = build_song_subgraph(&a, &[]);
    assert_eq!(alone.center, "Song A");
    assert!(alone.edges.is_empty());
    let f = snapshot(&b);
    assert_eq!(f.popularity, 75);
    assert_eq!(f.tempo, 121_000_000);
}

#[test]
fn export_is_exact() {
    let a = song_a();
    let b = song_b();
    let graph = build_song_subgraph(&a, &[&b]);
    let expected = "graph {\n    \"Song A\" [label=\"Danceability: 0.80, Energy: 0.90, Tempo: 120.00, Valence: 0.70, Popularity: 85\"];\n    \"Song A\" -> \"Song B\" [label=\"Danceability: 0.79, Energy: 0.91, Tempo: 121.00, Valence: 0.72, Popularity: 75\"];\n}\n";
    assert_eq!(export_subgraph_to_dot(&graph), expected);
    assert!(expected.contains("\"Song A\" [label="));
    assert!(expected.contains("\"Song A\" -> \"Song B\""));

    let alone = build_song_subgraph(&a, &[]);
    assert_eq!(
        export_subgraph_to_dot(&alone),
        "graph {\n    \"Song A\" [label=\"Danceability: 0.80, Energy: 0.90, Tempo: 120.00, Valence: 0.70, Popularity: 85\"];\n}\n"
    );
}

#[test]
fn export_keeps_names_as_they_are() {
    let graph = Subgraph {
        center: "Größe \"x\" -> y".to_string(),
        details: "anything".to_string(),
        edges: vec![
            Edge {
                neighbor: "tab\there".to_string(),
                features: Features { danceability: 0, energy: 0, tempo: 0, valence: 0, popularity: 0 },
            },
            Edge {
                neighbor: "".to_string(),
                features: Features {
                    danceability: -1,
                    energy: 5_000,
                    tempo: 15_000,
                    valence: -15_000,
                    popularity: u32::MAX,
                },
            },
        ],
    };
    let text = export_subgraph_to_dot(&graph);
    let expected = "graph {\n    \"Größe \"x\" -> y\" [label=\"anything\"];\n    \"Größe \"x\" -> y\" -> \"tab\there\" [label=\"Danceability: 0.00, Energy: 0.00, Tempo: 0.00, Valence: 0.00, Popularity: 0\"];\n    \"Größe \"x\" -> y\" -> \"\" [label=\"Danceability: -0.00, Energy: 0.00, Tempo: 0.02, Valence: -0.02, Popularity: 4294967295\"];\n}\n";
    assert_eq!(text, expected);
}

#[test]
fn summary_is_exact() {
    let a = song_a();
    let b = song_b();
    let text = display_clean_subgraph(&a, &[&b, &a], 5);
    let expected = "Top 5 similar songs to \"Song A\" by Artist A [Danceability: 0.80, Energy: 0.90, Tempo: 120.00, Valence: 0.70, Popularity: 85]:\n  -> \"Song B\" by Artist B [Danceability: 0.79, Energy: 0.91, Tempo: 121.00, Valence: 0.72, Popularity: 75]\n  -> \"Song A\" by Artist A [Danceability: 0.80, Energy: 0.90, Tempo: 120.00, Valence: 0.70, Popularity: 85]\n";
    assert_eq!(text, expected);
    assert_eq!(
        display_clean_subgraph(&a, &[], 12),
        "Top 12 similar songs to \"Song A\" by Artist A [Danceability: 0.80, Energy: 0.90, Tempo: 120.00, Valence: 0.70, Popularity: 85]:\n"
    );
}

#[test]
fn fixed_point_values_are_written_with_two_decimals() {
    assert_eq!(fixed2(0), "0.00");
    assert_eq!(fixed2(800_000), "0.80");
    assert_eq!(fixed2(790_000), "0.79");
    assert_eq!(fixed2(120_000_000), "120.00");
    assert_eq!(fixed2(87_917_000), "87.92");
    assert_eq!(fixed2(1_000_000), "1.00");
    assert_eq!(fixed2(999_999), "1.00");
    assert_eq!(fixed2(994_999), "0.99");
    assert_eq!(fixed2(4_999), "0.00");
    assert_eq!(fixed2(5_001), "0.01");
    assert_eq!(fixed2(9_999_999), "10.00");
    assert_eq!(fixed2(MILLIONTHS), "1.00");
    assert_eq!(fixed2(-MILLIONTHS), "-1.00");
    assert_eq!(fixed2(-676_000), "-0.68");
    assert_eq!(fixed2(-1), "-0.00");
}

#[test]
fn halfway_values_go_to_the_even_hundredth() {
    assert_eq!(fixed2(5_000), "0.00");
    assert_eq!(fixed2(15_000), "0.02");
    assert_eq!(fixed2(25_000), "0.02");
    assert_eq!(fixed2(35_000), "0.04");
    assert_eq!(fixed2(125_000), "0.12");
    assert_eq!(fixed2(375_000), "0.38");
    assert_eq!(fixed2(995_000), "1.00");
    assert_eq!(fixed2(-125_000), "-0.12");
    assert_eq!(fixed2(-375_000), "-0.38");
    for (millionths, exact) in [(125_000i64, 0.125f64), (375_000, 0.375), (625_000, 0.625), (875_000, 0.875), (2_500_000, 2.5)] {
        assert_eq!(fixed2(millionths), format!("{:.2}", exact));
    }
}

#[test]
fn extreme_values_are_written_in_full() {
    assert_eq!(fixed2(i64::MAX), "9223372036854.78");
    assert_eq!(fixed2(i64::MIN), "-9223372036854.78");
    assert_eq!(decimal(0), "0");
    assert_eq!(decimal(9), "9");
    assert_eq!(decimal(10), "10");
    assert_eq!(decimal(85), "85");
    assert_eq!(decimal(1_000_000), "1000000");
    assert_eq!(decimal(u64::MAX), "18446744073709551615");
    assert_eq!(digit_to_char(0), '0');
    assert_eq!(digit_to_char(9), '9');
}

#[test]
fn labels_and_quotes_are_appended() {
    let f = Features {
        danceability: 676_000,
        energy: 461_000,
        tempo: 87_917_000,
        valence: 715_000,
        popularity: 73,
    };
    assert_eq!(
        render_label(&f),
        "Danceability: 0.68, Energy: 0.46, Tempo: 87.92, Valence: 0.72, Popularity: 73"
    );
    let mut out = "x".to_string();
    push_label(&mut out, &f);
    assert_eq!(out, format!("x{}", render_label(&f)));
    let mut out = "key ".to_string();
    push_quoted(&mut out, "Song A");
    assert_eq!(out, "key \"Song A\"");
}

#[test]
fn report_follows_the_configuration() {
    let catalog = vec![
        song_a(),
        song_b(),
        Track { track_id: "3".to_string(), track_name: "Song C".to_string(), popularity: 99, ..song_b() },
        Track { track_id: "4".to_string(), track_name: "Song D".to_string(), popularity: 71, ..song_b() },
        Track { track_id: "5".to_string(), track_name: "Song E".to_string(), popularity: 70, ..song_b() },
    ];
    let reference = song_a();
    let mut config = Config::default();
    let report = report_similar(&catalog, &reference, &config);
    let names: Vec<&str> = report.graph.edges.iter().map(|e| e.neighbor.as_str()).collect();
    assert_eq!(names, vec!["Song C", "Song B", "Song D"]);
    assert_eq!(report.dot, export_subgraph_to_dot(&report.graph));
    assert!(report.summary.starts_with("Top 5 similar songs to \"Song A\" by Artist A ["));
    assert_eq!(report.summary.lines().count(), 4);

    config.top_k_similar = 2;
    let report = report_similar(&catalog, &reference, &config);
    let names: Vec<&str> = report.graph.edges.iter().map(|e| e.neighbor.as_str()).collect();
    assert_eq!(names, vec!["Song C", "Song B"]);
    assert!(report.summary.starts_with("Top 2 similar songs to "));

    config.thresholds.popularity_min = 98;
    let report = report_similar(&catalog, &reference, &config);
    assert_eq!(report.graph.edges.len(), 1);
    assert_eq!(
        report.dot,
        "graph {\n    \"Song A\" [label=\"Danceability: 0.80, Energy: 0.90, Tempo: 120.00, Valence: 0.70, Popularity: 85\"];\n    \"Song A\" -> \"Song C\" [label=\"Danceability: 0.79, Energy: 0.91, Tempo: 121.00, Valence: 0.72, Popularity: 99\"];\n}\n"
    );
}

#[test]
fn same_query_gives_the_same_artifacts() {
    let catalog = vec![song_a(), song_b()];
    let reference = song_a();
    let config = Config::default();
    let first = report_similar(&catalog, &reference, &config);
    let second = report_similar(&catalog, &reference, &config);
    assert_eq!(first.dot.as_bytes(), second.dot.as_bytes());
    assert_eq!(first.summary.as_bytes(), second.summary.as_bytes());
    let graph = build_song_subgraph(&reference, &[&catalog[1]]);
    assert_eq!(export_subgraph_to_dot(&graph), export_subgraph_to_dot(&graph));
    assert_eq!(export_subgraph_to_dot(&graph), first.dot);
}

#[test]
fn prompt_is_exact() {
    let a = song_a();
    let b = song_b();
    assert_eq!(
        candidates_prompt(&[&b, &a], 3),
        "Multiple matches found. Please select one of the top 3 most popular songs:\n1: \"Song B\" by Artist B (Album: Album B, Popularity: 75)\n2: \"Song A\" by Artist A (Album: Album A, Popularity: 85)\nEnter the number of the correct song: "
    );
    assert_eq!(
        candidates_prompt(&[], 10),
        "Multiple matches found. Please select one of the top 10 most popular songs:\nEnter the number of the correct song: "
    );
}

#[test]
fn explicit_flag_tokens() {
    for token in ["true", "yes", "1"] {
        assert_eq!(parse_explicit_flag(token).unwrap(), true);
    }
    for token in ["false", "no", "0"] {
        assert_eq!(parse_explicit_flag(token).unwrap(), false);
    }
    for token in ["", "maybe", "True", "FALSE", "2", " yes", "no ", "01", "t"] {
        match parse_explicit_flag(token) {
            Err(error) => assert_eq!(error.token, token),
            Ok(flag) => panic!("{:?} was read as {}", token, flag),
        }
    }
}
