use nc2mongo::{normalize_longitude, resolve_geolocation, DEGREE};

#[test]
fn longitude_wraps_eastward_excess() {
    assert_eq!(normalize_longitude(270 * DEGREE), -90 * DEGREE);
}

#[test]
fn longitude_wraps_westward_excess() {
    assert_eq!(normalize_longitude(-200 * DEGREE), 160 * DEGREE);
}

#[test]
fn longitude_in_range_is_unchanged() {
    assert_eq!(normalize_longitude(10 * DEGREE), 10 * DEGREE);
}

#[test]
fn longitude_far_out_of_range_wraps_repeatedly() {
    assert_eq!(normalize_longitude(3 * 360 * DEGREE + 10 * DEGREE), 10 * DEGREE);
}

#[test]
fn latitude_fill_forces_fallback_point() {
    // 99999.0 degrees of latitude is a fill value, whatever the longitude.
    let p = resolve_geolocation(Some(99999 * DEGREE), Some(10 * DEGREE));
    assert_eq!(p.lat_microdeg, -90 * DEGREE);
    assert_eq!(p.lon_microdeg, 0);
}

#[test]
fn fractional_fill_values_force_fallback() {
    // -99.999 for latitude, -999.999 for longitude.
    let p = resolve_geolocation(Some(-99_999_000), Some(20 * DEGREE));
    assert_eq!((p.lon_microdeg, p.lat_microdeg), (0, -90 * DEGREE));
    let p = resolve_geolocation(Some(45 * DEGREE), Some(-999_999_000));
    assert_eq!((p.lon_microdeg, p.lat_microdeg), (0, -90 * DEGREE));
}

#[test]
fn missing_coordinate_forces_fallback() {
    // The reader hands `None` for an absent or not-a-number reading.
    let p = resolve_geolocation(None, Some(10 * DEGREE));
    assert_eq!((p.lon_microdeg, p.lat_microdeg), (0, -90 * DEGREE));
    let p = resolve_geolocation(Some(10 * DEGREE), None);
    assert_eq!((p.lon_microdeg, p.lat_microdeg), (0, -90 * DEGREE));
}

#[test]
fn good_pair_keeps_latitude_and_normalizes_longitude() {
    let p = resolve_geolocation(Some(45 * DEGREE), Some(270 * DEGREE));
    assert_eq!(p.lat_microdeg, 45 * DEGREE);
    assert_eq!(p.lon_microdeg, -90 * DEGREE);
}

#[test]
fn microdegrees_represent_the_fills_exactly() {
    // The micro-degree model of the fill values matches their decimal
    // readings exactly.
    assert_eq!((-99.999f64 * 1e6).round() as i64, -99_999_000);
    assert_eq!((-999.999f64 * 1e6).round() as i64, -999_999_000);
    assert_eq!((99999.0f64 * 1e6).round() as i64, 99_999_000_000);
}
