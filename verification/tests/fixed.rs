use similar_songs::fixed::{millionths_from_binary32, round_quotient, MILLIONTHS};
use similar_songs::track::{Feature, Track};

fn m(value: f32) -> Option<i64> {
    millionths_from_binary32(value.to_bits())
}

#[test]
fn decimal_values_become_their_millionths() {
    assert_eq!(m(0.0), Some(0));
    assert_eq!(m(-0.0), Some(0));
    assert_eq!(m(1.0), Some(MILLIONTHS));
    assert_eq!(m(0.8), Some(800_000));
    assert_eq!(m(0.79), Some(790_000));
    assert_eq!(m(0.05), Some(50_000));
    assert_eq!(m(0.1), Some(100_000));
    assert_eq!(m(120.0), Some(120_000_000));
    assert_eq!(m(87.917), Some(87_917_000));
    assert_eq!(m(0.676), Some(676_000));
    assert_eq!(m(5.94e-5), Some(59));
    assert_eq!(m(-0.8), Some(-800_000));
    assert_eq!(m(-17.5), Some(-17_500_000));
    assert_eq!(m(243.375), Some(243_375_000));
    assert_eq!(m(243.372), Some(243_371_994));
}

#[test]
fn halfway_values_go_to_the_even_millionth() {
    assert_eq!(m(0.0078125), Some(7_812));
    assert_eq!(m(0.0234375), Some(23_438));
    assert_eq!(m(-0.0078125), Some(-7_812));
    assert_eq!(m(-0.0234375), Some(-23_438));
    assert_eq!(m(0.000001), Some(1));
    assert_eq!(m(0.0000006), Some(1));
    assert_eq!(m(0.0000004), Some(0));
}

#[test]
fn values_without_millionths() {
    assert_eq!(m(f32::INFINITY), None);
    assert_eq!(m(f32::NEG_INFINITY), None);
    assert_eq!(m(f32::NAN), None);
    assert_eq!(millionths_from_binary32(0x7fc0_0001), None);
    assert_eq!(millionths_from_binary32(0xffff_ffff), None);
    assert_eq!(m(f32::MAX), None);
    assert_eq!(m(f32::MIN), None);
    assert_eq!(m(1.0e13), None);
    assert_eq!(m(-1.0e13), None);
    assert_eq!(m(9.3e12), None);
}

#[test]
fn values_at_the_ends_of_the_range() {
    assert_eq!(m(f32::MIN_POSITIVE), Some(0));
    assert_eq!(millionths_from_binary32(1), Some(0));
    assert_eq!(millionths_from_binary32(0x8000_0001), Some(0));
    assert_eq!(m(8796093022208.0), Some(8_796_093_022_208_000_000));
    assert_eq!(m(-8796093022208.0), Some(-8_796_093_022_208_000_000));
    assert_eq!(m(9.2e12), Some((9.2e12f32 as f64 * 1.0e6) as i64));
    assert_eq!(m(16777216.0), Some(16_777_216_000_000));
    assert_eq!(m(1048576.5), Some(1_048_576_500_000));
}

#[test]
fn agrees_with_exact_arithmetic_on_many_values() {
    let mut bits: u32 = 0;
    let mut seen: u64 = 0;
    loop {
        for sign in [0u32, 0x8000_0000] {
            let value = f32::from_bits(bits | sign);
            let exact = f64::from(value) * 1.0e6;
            let expected = if exact.is_finite() && exact.abs() < 9.2e18 {
                Some(exact.round_ties_even() as i64)
            } else if exact.is_finite() && exact.abs() <= 9.3e18 {
                continue;
            } else {
                None
            };
            assert_eq!(millionths_from_binary32(bits | sign), expected, "bits {:#x}", bits | sign);
            seen += 1;
        }
        match bits.checked_add(104_729) {
            Some(next) if next < 0x8000_0000 => bits = next,
            _ => break,
        }
    }
    assert!(seen > 40_000);
}

#[test]
fn quotients_are_rounded_to_the_nearest_whole() {
    assert_eq!(round_quotient(0, 7), 0);
    assert_eq!(round_quotient(3, 7), 0);
    assert_eq!(round_quotient(4, 7), 1);
    assert_eq!(round_quotient(5, 10), 0);
    assert_eq!(round_quotient(15, 10), 2);
    assert_eq!(round_quotient(25, 10), 2);
    assert_eq!(round_quotient(26, 10), 3);
    assert_eq!(round_quotient(7, 1), 7);
    assert_eq!(round_quotient(u64::MAX, 1), u64::MAX);
    assert_eq!(round_quotient(u64::MAX, 2), 1 << 63);
    assert_eq!(round_quotient(u64::MAX, u64::MAX), 1);
    assert_eq!(round_quotient(u64::MAX - 1, u64::MAX), 1);
    assert_eq!(round_quotient(1 << 63, u64::MAX), 1);
    assert_eq!(round_quotient((1 << 63) - 1, u64::MAX), 0);
}

#[test]
fn track_from_single_precision_values() {
    let track = Track::from_binary32(
        "1".to_string(),
        "Artist A".to_string(),
        "Album A".to_string(),
        "Song A".to_string(),
        85,
        0.8f32.to_bits(),
        0.9f32.to_bits(),
        120.0f32.to_bits(),
        0.7f32.to_bits(),
    )
    .unwrap();
    assert_eq!(track.track_id, "1");
    assert_eq!(track.artists, "Artist A");
    assert_eq!(track.album_name, "Album A");
    assert_eq!(track.track_name, "Song A");
    assert_eq!(track.popularity, 85);
    assert_eq!(track.danceability, 800_000);
    assert_eq!(track.energy, 900_000);
    assert_eq!(track.tempo, 120_000_000);
    assert_eq!(track.valence, 700_000);
}

#[test]
fn track_with_a_feature_out_of_range_is_refused() {
    let make = |d: f32, e: f32, t: f32, v: f32| {
        Track::from_binary32(
            "7".to_string(),
            String::new(),
            String::new(),
            String::new(),
            0,
            d.to_bits(),
            e.to_bits(),
            t.to_bits(),
            v.to_bits(),
        )
    };
    let error = make(f32::NAN, f32::NAN, 0.0, 0.0).unwrap_err();
    assert_eq!(error.feature, Feature::Danceability);
    assert_eq!(error.track_id, "7");
    assert_eq!(make(0.0, f32::INFINITY, 0.0, f32::NAN).unwrap_err().feature, Feature::Energy);
    assert_eq!(make(0.0, 0.0, 1.0e30, 0.0).unwrap_err().feature, Feature::Tempo);
    assert_eq!(make(0.0, 0.0, 0.0, f32::NEG_INFINITY).unwrap_err().feature, Feature::Valence);
    assert!(make(-1.0, 0.0, 0.0, 0.0).is_ok());
}
