use vstd::prelude::*;

verus! {

/// A geolocation point in integral micro-degrees (one millionth of a
/// degree). Micro-degrees represent every fill value and every normalization
/// step exactly, so the geolocation rules can be stated and verified without
/// floating-point arithmetic; the surrounding layer scales when it reads or
/// writes degrees.
pub struct GeoPoint {
    pub lon_microdeg: i64,
    pub lat_microdeg: i64,
}

/// One degree in micro-degrees.
pub const DEGREE: i64 = 1_000_000;

/// The known latitude fill values, in micro-degrees: 99999, -99.999, -999.
pub open spec fn is_lat_fill(x: int) -> bool {
    x == 99_999_000_000 || x == -99_999_000 || x == -999_000_000
}

/// The known longitude fill values, in micro-degrees: 99999, -999.999, -999.
pub open spec fn is_lon_fill(x: int) -> bool {
    x == 99_999_000_000 || x == -999_999_000 || x == -999_000_000
}

/// A longitude shifted by whole turns until it lies in [-180, 180] degrees.
pub open spec fn norm_lon(x: int) -> int
    decreases
            (if x >= 0 {
                x
            } else {
                -x
            }),
{
    if x > 180_000_000 {
        norm_lon(x - 360_000_000)
    } else if x < -180_000_000 {
        norm_lon(x + 360_000_000)
    } else {
        x
    }
}

/// Whether the pair is replaced by the fallback point: a missing or
/// unreadable coordinate (including a not-a-number reading) or one that
/// matches a known fill value.
pub open spec fn needs_fallback(lat: Option<i64>, lon: Option<i64>) -> bool {
    ||| lat is None
    ||| lon is None
    ||| is_lat_fill(lat->0 as int)
    ||| is_lon_fill(lon->0 as int)
}

/// Normalizes a longitude in micro-degrees into [-180, 180] degrees by
/// repeatedly adding or subtracting a whole turn.
pub fn normalize_longitude(x: i64) -> (r: i64)
    ensures
        r == norm_lon(x as int),
        -180_000_000 <= r <= 180_000_000,
{
    let mut y = x;
    while y > 180_000_000
        invariant
            norm_lon(x as int) == norm_lon(y as int),
        decreases y + 360_000_000,
    {
        y = y - 360_000_000;
    }
    while y < -180_000_000
        invariant
            y <= 180_000_000,
            norm_lon(x as int) == norm_lon(y as int),
        decreases 360_000_000 - y,
    {
        y = y + 360_000_000;
    }
    y
}

/// The point a latitude/longitude pair resolves to.
pub open spec fn geolocation_spec(lat: Option<i64>, lon: Option<i64>) -> GeoPoint {
    if needs_fallback(lat, lon) {
        GeoPoint { lon_microdeg: 0 as i64, lat_microdeg: (-90_000_000) as i64 }
    } else {
        GeoPoint { lon_microdeg: norm_lon(lon->0 as int) as i64, lat_microdeg: lat->0 }
    }
}

/// Resolves a latitude/longitude pair read from a profile: a missing,
/// not-a-number or fill-valued coordinate sends the pair to the fallback
/// point (latitude -90, longitude 0); otherwise the latitude is kept and the
/// longitude normalized into [-180, 180] degrees.
pub fn resolve_geolocation(lat: Option<i64>, lon: Option<i64>) -> (p: GeoPoint)
    ensures
        p == geolocation_spec(lat, lon),
        needs_fallback(lat, lon) ==> p.lat_microdeg == -90_000_000 && p.lon_microdeg == 0,
        !needs_fallback(lat, lon) ==> p.lat_microdeg == lat->0 && p.lon_microdeg == norm_lon(
            lon->0 as int,
        ),
        -180_000_000 <= p.lon_microdeg <= 180_000_000,
{
    match (lat, lon) {
        (Some(la), Some(lo)) => {
            if is_lat_fill_value(la) || is_lon_fill_value(lo) {
                GeoPoint { lon_microdeg: 0, lat_microdeg: -90_000_000 }
            } else {
                GeoPoint { lon_microdeg: normalize_longitude(lo), lat_microdeg: la }
            }
        },
        _ => GeoPoint { lon_microdeg: 0, lat_microdeg: -90_000_000 },
    }
}

fn is_lat_fill_value(x: i64) -> (r: bool)
    ensures
        r == is_lat_fill(x as int),
{
    x == 99_999_000_000 || x == -99_999_000 || x == -999_000_000
}

fn is_lon_fill_value(x: i64) -> (r: bool)
    ensures
        r == is_lon_fill(x as int),
{
    x == 99_999_000_000 || x == -999_999_000 || x == -999_000_000
}

} // verus!
