use pg_s2::config::{Config, DEFAULT_COVER_LEVEL, DEFAULT_LEVEL};
use pg_s2::error::CellError;
use pg_s2::unit::{default_distance_unit, distance_unit, parse_unit, DistanceUnit};

#[test]
fn test_units_in_any_case_and_with_space_around() {
    assert_eq!(parse_unit("m"), Ok(DistanceUnit::Meters));
    assert_eq!(parse_unit("km"), Ok(DistanceUnit::Kilometers));
    assert_eq!(parse_unit("rad"), Ok(DistanceUnit::Radians));
    assert_eq!(parse_unit("M"), Ok(DistanceUnit::Meters));
    assert_eq!(parse_unit("Km"), Ok(DistanceUnit::Kilometers));
    assert_eq!(parse_unit("kM"), Ok(DistanceUnit::Kilometers));
    assert_eq!(parse_unit("RAD"), Ok(DistanceUnit::Radians));
    assert_eq!(parse_unit("  rad\t\n"), Ok(DistanceUnit::Radians));
    assert_eq!(parse_unit("\u{3000}m\u{a0}"), Ok(DistanceUnit::Meters));
}

#[test]
fn test_other_units_are_rejected() {
    assert_eq!(parse_unit(""), Err(CellError::InvalidUnit));
    assert_eq!(parse_unit("   "), Err(CellError::InvalidUnit));
    assert_eq!(parse_unit("k m"), Err(CellError::InvalidUnit));
    assert_eq!(parse_unit("mm"), Err(CellError::InvalidUnit));
    assert_eq!(parse_unit("meters"), Err(CellError::InvalidUnit));
    assert_eq!(parse_unit("deg"), Err(CellError::InvalidUnit));
    assert_eq!(parse_unit("\u{212a}m"), Err(CellError::InvalidUnit));
    assert_eq!(parse_unit("\u{200b}m"), Err(CellError::InvalidUnit));
    assert_eq!(CellError::InvalidUnit.message(), "invalid unit");
}

#[test]
fn test_white_space_is_what_the_unicode_property_lists() {
    let white = [
        0x09u32, 0x0a, 0x0b, 0x0c, 0x0d, 0x20, 0x85, 0xa0, 0x1680, 0x2000, 0x2001, 0x2002, 0x2003,
        0x2004, 0x2005, 0x2006, 0x2007, 0x2008, 0x2009, 0x200a, 0x2028, 0x2029, 0x202f, 0x205f,
        0x3000,
    ];
    for code in 0u32..0x11_0000 {
        let c = match char::from_u32(code) {
            Some(c) => c,
            None => continue,
        };
        let text = format!("{c}m{c}");
        let expected = if white.contains(&code) {
            Ok(DistanceUnit::Meters)
        } else {
            Err(CellError::InvalidUnit)
        };
        assert_eq!(parse_unit(&text), expected, "U+{code:04X}");
    }
}

#[test]
fn test_points_are_looked_at_before_the_unit() {
    assert_eq!(distance_unit(false, "m"), Err(CellError::InvalidLatLng));
    assert_eq!(distance_unit(false, "furlong"), Err(CellError::InvalidLatLng));
    assert_eq!(distance_unit(true, "furlong"), Err(CellError::InvalidUnit));
    assert_eq!(distance_unit(true, " KM "), Ok(DistanceUnit::Kilometers));
}

#[test]
fn test_unit_divisors() {
    assert_eq!(DistanceUnit::Meters.divisor(), Some(1));
    assert_eq!(DistanceUnit::Kilometers.divisor(), Some(1000));
    assert_eq!(DistanceUnit::Radians.divisor(), None);
}

#[test]
fn test_settings_defaults_and_changes() {
    let config = Config::new();
    assert_eq!(config.default_level(), 14);
    assert_eq!(config.default_cover_level(), 12);
    assert_eq!(DEFAULT_LEVEL, 14);
    assert_eq!(DEFAULT_COVER_LEVEL, 12);
    let changed = config.with_default_level(0).unwrap();
    assert_eq!(changed.default_level(), 0);
    assert_eq!(changed.default_cover_level(), 12);
    let changed = changed.with_default_cover_level(30).unwrap();
    assert_eq!(changed.default_level(), 0);
    assert_eq!(changed.default_cover_level(), 30);
    assert_eq!(config.default_level(), 14);
}

#[test]
fn test_settings_out_of_range_are_rejected() {
    let config = Config::new();
    assert!(matches!(config.with_default_level(31), Err(CellError::InvalidLevel)));
    assert!(matches!(config.with_default_level(-1), Err(CellError::InvalidLevel)));
    assert!(matches!(config.with_default_cover_level(31), Err(CellError::InvalidLevel)));
    assert!(matches!(config.with_default_cover_level(-1), Err(CellError::InvalidLevel)));
}

fn distance(a: (f64, f64), b: (f64, f64), unit: &str, radius_m: f64) -> Result<f64, CellError> {
    let ll_a = s2::latlng::LatLng::from_degrees(a.0, a.1);
    let ll_b = s2::latlng::LatLng::from_degrees(b.0, b.1);
    let unit = distance_unit(ll_a.is_valid() && ll_b.is_valid(), unit)?;
    let angle = ll_a.distance(&ll_b).rad();
    Ok(match unit.divisor() {
        None => angle,
        Some(divisor) => angle * radius_m / f64::from(divisor),
    })
}

fn distance_default(a: (f64, f64), b: (f64, f64), radius_m: f64) -> Result<f64, CellError> {
    let ll_a = s2::latlng::LatLng::from_degrees(a.0, a.1);
    let ll_b = s2::latlng::LatLng::from_degrees(b.0, b.1);
    let unit = default_distance_unit(ll_a.is_valid() && ll_b.is_valid())?;
    let angle = ll_a.distance(&ll_b).rad();
    Ok(match unit.divisor() {
        None => angle,
        Some(divisor) => angle * radius_m / f64::from(divisor),
    })
}

#[test]
fn test_default_unit_is_metres() {
    assert_eq!(default_distance_unit(true), Ok(DistanceUnit::Meters));
    assert_eq!(default_distance_unit(true), distance_unit(true, "m"));
    assert_eq!(default_distance_unit(false), Err(CellError::InvalidLatLng));
}

#[test]
fn test_s2_great_circle_distance_units() {
    let a = (0.0, 0.0);
    let b = (0.0, 90.0);
    let earth_radius = 6_371_008.8;
    let quarter = std::f64::consts::FRAC_PI_2;

    let got_m = distance(a, b, "m", earth_radius).unwrap();
    let got_km = distance(a, b, "km", earth_radius).unwrap();
    let got_rad = distance(a, b, "rad", earth_radius).unwrap();

    let got_default = distance_default(a, b, earth_radius).unwrap();

    assert!((got_rad - quarter).abs() < 1e-12);
    assert!((got_default - quarter * earth_radius).abs() < 1e-6);
    assert_eq!(got_default, got_m);
    assert!((got_m - quarter * earth_radius).abs() < 1e-6);
    assert!((got_km - quarter * earth_radius / 1000.0).abs() < 1e-9);
    assert_eq!(distance(b, a, "m", earth_radius), Ok(got_m));
    let north = (90.0, 0.0);
    let got = distance(a, north, "rad", earth_radius).unwrap();
    assert!((got - quarter).abs() < 1e-12);
}

#[test]
fn test_s2_great_circle_distance_guc() {
    let a = (0.0, 0.0);
    let b = (0.0, 90.0);
    let quarter = std::f64::consts::FRAC_PI_2;
    let got = distance(a, b, "m", 1_000_000.0).unwrap();
    assert!((got - quarter * 1_000_000.0).abs() < 1e-6);
    let earth = distance(a, b, "m", 6_371_008.8).unwrap();
    assert!((earth / got - 6.3710088).abs() < 1e-12);
}

#[test]
fn test_distance_errors() {
    let a = (0.0, 0.0);
    assert_eq!(distance(a, (91.0, 0.0), "m", 1.0), Err(CellError::InvalidLatLng));
    assert_eq!(distance((0.0, -181.0), a, "m", 1.0), Err(CellError::InvalidLatLng));
    assert_eq!(distance(a, (91.0, 0.0), "miles", 1.0), Err(CellError::InvalidLatLng));
    assert_eq!(distance(a, a, "miles", 1.0), Err(CellError::InvalidUnit));
    assert_eq!(distance(a, a, " Rad ", 1.0), Ok(0.0));
}
