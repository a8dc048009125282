use geocluster::columns::{eq_ignore_case, find_coordinate_column, matches_any_candidate};
use geocluster::distance::{scaled_sq_dist, within_radius};
use geocluster::point::Point;

const KM: u64 = 1_000_000;

fn bytes(names: &[&str]) -> Vec<Vec<u8>> {
    names.iter().map(|n| n.as_bytes().to_vec()).collect()
}

#[test]
fn squared_distance_is_exact() {
    let a = Point::new(0, 0);
    let b = Point::new(3, 4);
    assert_eq!(scaled_sq_dist(&a, &b), 25);
    assert_eq!(scaled_sq_dist(&b, &a), 25);
    assert_eq!(scaled_sq_dist(&a, &a), 0);
}

#[test]
fn within_radius_boundary_is_exact() {
    // 9000 microdegrees is 0.999 km at 111 km per degree; 9010 is over 1 km.
    let origin = Point::new(0, 0);
    assert!(within_radius(&origin, &Point::new(0, 9000), KM));
    assert!(!within_radius(&origin, &Point::new(0, 9010), KM));
    // Every point is within any radius of itself, even a zero radius.
    assert!(within_radius(&origin, &origin, 0));
}

#[test]
fn latitude_column_is_found_case_insensitively() {
    let headers = bytes(&["name", "Latitude", "LON", "note"]);
    let lat_names = bytes(&["lat", "latitude", "Latitude", "LAT"]);
    let lon_names = bytes(&["lon", "lng", "long", "longitude", "Longitude", "LON", "LNG"]);
    assert_eq!(find_coordinate_column(&headers, &lat_names), Some(1));
    assert_eq!(find_coordinate_column(&headers, &lon_names), Some(2));
}

#[test]
fn first_matching_header_wins() {
    let headers = bytes(&["lat", "latitude"]);
    let lat_names = bytes(&["lat", "latitude", "Latitude", "LAT"]);
    assert_eq!(find_coordinate_column(&headers, &lat_names), Some(0));
}

#[test]
fn missing_column_yields_none() {
    let headers = bytes(&["name", "city"]);
    let lat_names = bytes(&["lat", "latitude", "Latitude", "LAT"]);
    assert_eq!(find_coordinate_column(&headers, &lat_names), None);
}

#[test]
fn case_insensitive_comparison_is_ascii_only() {
    assert!(eq_ignore_case(&b"LaTiTuDe".to_vec(), &b"latitude".to_vec()));
    assert!(!eq_ignore_case(&b"lat".to_vec(), &b"lon".to_vec()));
    assert!(!eq_ignore_case(&b"lat".to_vec(), &b"lat ".to_vec()));
    assert!(matches_any_candidate(&b"LNG".to_vec(), &bytes(&["lon", "lng"])));
    assert!(!matches_any_candidate(&b"altitude".to_vec(), &bytes(&["lat", "latitude"])));
}
