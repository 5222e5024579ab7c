use grindr_mcp::double::lies_within;
use grindr_mcp::geohash::{encode, is_valid};

/// The geohash of a point, computed with double-precision numbers.
fn bisect(lat: f64, lon: f64, len: usize) -> String {
    let alphabet: Vec<char> = "0123456789bcdefghjkmnpqrstuvwxyz".chars().collect();
    let mut lats = (-90.0f64, 90.0f64);
    let mut lons = (-180.0f64, 180.0f64);
    let mut out = String::new();
    let mut even = true;
    for _ in 0..len {
        let mut value = 0usize;
        for _ in 0..5 {
            let (range, point) = if even { (&mut lons, lon) } else { (&mut lats, lat) };
            let mid = (range.0 + range.1) / 2.0;
            value *= 2;
            if point > mid {
                value += 1;
                range.0 = mid;
            } else {
                range.1 = mid;
            }
            even = !even;
        }
        out.push(alphabet[value]);
    }
    out
}

fn hash(lat: f64, lon: f64, len: usize) -> String {
    encode(lat.to_bits(), lon.to_bits(), len)
}

#[test]
fn encodes_known_locations() {
    // Madrid, from the API docs' example region.
    assert!(hash(40.4168, -3.7038, 12).starts_with("ezjm"));
    assert_eq!(hash(40.4168, -3.7038, 12).len(), 12);
}

#[test]
fn validates_length_and_charset() {
    assert!(is_valid("ezjmgyern222"));
    assert!(!is_valid("short"));
    assert!(!is_valid("aaaaaaaaaaaa")); // 'a' is not in the geohash alphabet
    assert!(!is_valid("ezjmgyern2222")); // 13 chars
}

#[test]
fn encodes_the_textbook_example() {
    assert_eq!(hash(57.64911, 10.40744, 11), "u4pruydqqvj");
    assert_eq!(hash(42.605, -5.603, 5), "ezs42");
}

#[test]
fn the_origin_is_in_the_lower_halves() {
    assert_eq!(hash(0.0, 0.0, 12), "7zzzzzzzzzzz");
    assert_eq!(hash(-0.0, -0.0, 12), "7zzzzzzzzzzz");
}

#[test]
fn the_corners_of_the_map() {
    assert_eq!(hash(90.0, 180.0, 12), "zzzzzzzzzzzz");
    assert_eq!(hash(-90.0, -180.0, 12), "000000000000");
}

#[test]
fn what_lies_beyond_the_map_is_at_its_edge() {
    assert_eq!(hash(f64::INFINITY, 1e300, 12), "zzzzzzzzzzzz");
    assert_eq!(hash(f64::NEG_INFINITY, -1e300, 12), "000000000000");
    assert_eq!(hash(f64::NAN, f64::NAN, 12), "000000000000");
}

#[test]
fn a_geohash_without_characters() {
    assert_eq!(hash(40.4168, -3.7038, 0), "");
}

#[test]
fn agrees_with_floating_point() {
    let mut state = 0x9e37_79b9_7f4a_7c15u64;
    let mut next = || {
        state ^= state << 13;
        state ^= state >> 7;
        state ^= state << 17;
        state
    };
    for round in 0..400 {
        let lat = (next() >> 11) as f64 / (1u64 << 53) as f64 * 180.0 - 90.0;
        let lon = (next() >> 11) as f64 / (1u64 << 53) as f64 * 360.0 - 180.0;
        let len = 12 + round % 20;
        assert_eq!(hash(lat, lon, len), bisect(lat, lon, len), "{lat} {lon} {len}");
    }
    for _ in 0..400 {
        let lat = f64::from_bits(next());
        let lon = f64::from_bits(next());
        assert_eq!(hash(lat, lon, 30), bisect(lat, lon, 30), "{lat} {lon}");
    }
}

#[test]
fn agrees_with_floating_point_beyond_the_digits_of_a_double() {
    let points = [
        (0.0, 0.0),
        (-0.0, 1e-310),
        (5e-324, -5e-324),
        (1.5e-323, 4.5e-323),
        (2.2250738585072014e-308, -2.2250738585072009e-308),
        (45.0, 90.0),
        (33.333333333333336, 123.45678901234567),
        (89.99999999999999, 179.99999999999997),
        (-1e-5, 1e-200),
    ];
    for (lat, lon) in points {
        for len in [19, 20, 21, 40, 450] {
            assert_eq!(hash(lat, lon, len), bisect(lat, lon, len), "{lat} {lon} {len}");
        }
    }
}

#[test]
fn every_encoding_is_valid() {
    for (lat, lon) in [(0.0, 0.0), (51.5, -0.12), (-33.9, 151.2), (90.0, -180.0)] {
        assert!(is_valid(&hash(lat, lon, 12)));
    }
}

#[test]
fn every_length_is_met_from_the_alphabet() {
    for len in [0, 1, 13, 200] {
        let hash = hash(12.5, -77.25, len);
        assert_eq!(hash.len(), len);
        assert!(hash.chars().all(|c| "0123456789bcdefghjkmnpqrstuvwxyz".contains(c)));
    }
}

#[test]
fn longer_geohashes_begin_with_shorter_ones() {
    let long = hash(-33.8688, 151.2093, 19);
    for len in 0..19 {
        assert_eq!(hash(-33.8688, 151.2093, len), long[..len]);
    }
}

#[test]
fn a_geohash_names_the_cell_around_the_point() {
    let (lat, lon) = (48.8583f64, 2.2945f64);
    let alphabet = "0123456789bcdefghjkmnpqrstuvwxyz";
    let (mut lats, mut lons) = ((-90.0f64, 90.0f64), (-180.0f64, 180.0f64));
    let mut even = true;
    for c in hash(lat, lon, 12).chars() {
        let value = alphabet.find(c).unwrap();
        for bit in [16, 8, 4, 2, 1] {
            let range = if even { &mut lons } else { &mut lats };
            let mid = (range.0 + range.1) / 2.0;
            if value & bit != 0 {
                range.0 = mid;
            } else {
                range.1 = mid;
            }
            even = !even;
        }
    }
    assert!(lats.0 <= lat && lat <= lats.1 && lats.1 - lats.0 < 1e-6);
    assert!(lons.0 <= lon && lon <= lons.1 && lons.1 - lons.0 < 1e-6);
}

#[test]
fn north_and_east_are_larger() {
    let steps = [-180.0, -90.5, -45.0, -1e-9, -0.0, 0.0, 1e-9, 44.9, 45.0, 89.0, 90.0, 179.0];
    for len in [1, 12, 25] {
        for pair in steps.windows(2) {
            for fixed in steps {
                assert!(hash(pair[0], fixed, len) <= hash(pair[1], fixed, len));
                assert!(hash(fixed, pair[0], len) <= hash(fixed, pair[1], len));
                assert!(hash(pair[0], pair[0], len) <= hash(pair[1], pair[1], len));
            }
        }
    }
    assert!(hash(10.0, 20.0, 12) < hash(10.0, 20.1, 12));
}

#[test]
fn points_in_one_cell_share_a_geohash() {
    let first = hash(40.416800, -3.703800, 8);
    let second = hash(40.416801, -3.703801, 8);
    assert_eq!(first, second);
}

#[test]
fn validity_is_about_characters_of_the_alphabet() {
    assert!(is_valid("0123456789bc"));
    assert!(!is_valid("0123456789bC"));
    assert!(!is_valid("éééééé"));
    assert!(!is_valid(""));
}

#[test]
fn limits_are_part_of_the_range() {
    assert!(lies_within(90.0f64.to_bits(), 90));
    assert!(lies_within((-90.0f64).to_bits(), 90));
    assert!(!lies_within(90.00000000000001f64.to_bits(), 90));
    assert!(!lies_within((-180.00000000000003f64).to_bits(), 180));
    assert!(lies_within((-180.0f64).to_bits(), 180));
    assert!(lies_within((-0.0f64).to_bits(), 90));
    assert!(!lies_within(f64::NAN.to_bits(), 180));
    assert!(!lies_within(f64::INFINITY.to_bits(), 180));
}
