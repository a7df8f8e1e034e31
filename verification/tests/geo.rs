use pg_s2::cellid::S2CellId;
use pg_s2::config::Config;
use pg_s2::error::CellError;
use pg_s2::geo::{
    cell_boundary_text, cell_to_point, cell_to_vertices, format_polygon_points, leaf_to_cell,
    point_to_cell, point_to_cell_default,
};
use pg_s2::hierarchy::parent_at_level;
use pg_s2::token::{format_token, parse_token};
use s2::cell::Cell;
use s2::cellid::CellID;
use s2::latlng::LatLng;

#[test]
fn test_s2_lat_lng_to_cell_level() {
    let lat = 49.703498679;
    let lng = 11.770681595;
    let level = 12i32;
    let ll = LatLng::from_degrees(lat, lng);
    let expected = CellID::from(ll).parent(level as u64).to_token();

    let got = point_to_cell(&LatLng::from_degrees(lat, lng), level).unwrap();
    assert_eq!(format_token(got).unwrap(), expected);
    assert_eq!(format_token(got).unwrap(), "47a1cbd");
}

#[test]
fn test_point_at_level_12_is_the_ancestor_of_level_14() {
    let point = LatLng::from_degrees(49.703498679, 11.770681595);
    let fine = point_to_cell(&point, 14).unwrap();
    let coarse = point_to_cell(&point, 12).unwrap();
    assert_eq!(parent_at_level(fine, 12), Ok(coarse));
    let back = cell_to_point(point_to_cell(&point, 30).unwrap()).unwrap();
    assert!((back.lat.deg() - 49.703498679).abs() < 1e-6);
    assert!((back.lng.deg() - 11.770681595).abs() < 1e-6);
}

#[test]
fn test_s2_lat_lng_to_cell_level_invalid() {
    let origin = LatLng::from_degrees(0.0, 0.0);
    assert_eq!(point_to_cell(&origin, 31), Err(CellError::InvalidLevel));
    assert_eq!(point_to_cell(&origin, -1), Err(CellError::InvalidLevel));
    assert!(point_to_cell(&origin, 0).is_ok());
    assert!(point_to_cell(&origin, 30).is_ok());
}

#[test]
fn test_point_out_of_range_is_rejected() {
    let north = LatLng::from_degrees(91.0, 0.0);
    let east = LatLng::from_degrees(0.0, 181.0);
    assert_eq!(point_to_cell(&north, 12), Err(CellError::InvalidLatLng));
    assert_eq!(point_to_cell(&east, 12), Err(CellError::InvalidLatLng));
    assert_eq!(point_to_cell(&north, 31), Err(CellError::InvalidLevel));
    assert!(point_to_cell(&LatLng::from_degrees(90.0, 180.0), 12).is_ok());
    assert!(point_to_cell(&LatLng::from_degrees(-90.0, -180.0), 12).is_ok());
    assert_eq!(CellError::InvalidLatLng.message(), "invalid latlng");
}

#[test]
fn test_leaf_to_cell_decides_by_level_first() {
    let leaf = 0x47a1cbd595522b39u64;
    assert_eq!(leaf_to_cell(Some(leaf), 30).map(|c| c.to_u64()), Ok(leaf));
    assert_eq!(
        leaf_to_cell(Some(leaf), 12).map(|c| c.to_u64()),
        Ok(0x47a1cbd000000000)
    );
    assert_eq!(
        leaf_to_cell(Some(leaf), 0).map(|c| c.to_u64()),
        Ok(0x5000000000000000)
    );
    assert_eq!(leaf_to_cell(None, 12), Err(CellError::InvalidLatLng));
    assert_eq!(leaf_to_cell(None, 31), Err(CellError::InvalidLevel));
    assert_eq!(leaf_to_cell(Some(leaf), -1), Err(CellError::InvalidLevel));
}

#[test]
fn test_s2_lat_lng_to_cell_default_level() {
    let lat = 49.703498679;
    let lng = 11.770681595;
    let point = LatLng::from_degrees(lat, lng);
    let expected = point_to_cell(&point, 14).unwrap();

    let got = point_to_cell_default(&Config::new(), &point).unwrap();
    assert_eq!(format_token(got).unwrap(), format_token(expected).unwrap());
}

#[test]
fn test_s2_lat_lng_to_cell_default_level_guc() {
    let lat = 49.703498679;
    let lng = 11.770681595;
    let point = LatLng::from_degrees(lat, lng);
    let config = Config::new().with_default_level(10).unwrap();

    let expected = point_to_cell(&point, 10).unwrap();
    let got = point_to_cell_default(&config, &point).unwrap();
    assert_eq!(format_token(got).unwrap(), format_token(expected).unwrap());
}

#[test]
fn test_s2_cell_to_lat_lng() {
    let cell = parse_token("47a1cbd595522b39").unwrap();
    let ll = cell_to_point(cell).unwrap();
    assert!((ll.lat.deg() - 49.703498679).abs() < 1e-6);
    assert!((ll.lng.deg() - 11.770681595).abs() < 1e-6);
}

#[test]
fn test_s2_cell_to_lat_lng_invalid() {
    let res = cell_to_point(S2CellId::from_bigint(0));
    assert!(matches!(res, Err(CellError::InvalidIdentifier)));
}

#[test]
fn test_s2_cell_to_vertices() {
    let token = "47a1cbd595522b39";
    let cell_raw = CellID::from_token(token);
    let expected: Vec<(f64, f64)> = Cell::from(cell_raw)
        .vertices()
        .iter()
        .map(|v| {
            let ll = LatLng::from(*v);
            (ll.lng.deg(), ll.lat.deg())
        })
        .collect();
    let cell = parse_token(token).unwrap();
    let got = cell_to_vertices(cell).unwrap();
    assert_eq!(got.len(), expected.len());
    assert_eq!(got.len(), 4);
    for (a, b) in got.iter().zip(expected.iter()) {
        assert!((a.lng.deg() - b.0).abs() < 1e-6);
        assert!((a.lat.deg() - b.1).abs() < 1e-6);
        assert_eq!(a.lng.deg(), b.0);
        assert_eq!(a.lat.deg(), b.1);
    }
}

#[test]
fn test_vertices_of_invalid_are_rejected() {
    let res = cell_to_vertices(S2CellId::from_bigint(0));
    assert!(matches!(res, Err(CellError::InvalidIdentifier)));
    let res = cell_boundary_text(S2CellId::from_bigint(0));
    assert!(matches!(res, Err(CellError::InvalidIdentifier)));
}

#[test]
fn test_s2_cell_boundary_text() {
    let token = "47a1cbd595522b39";
    let cell_raw = CellID::from_token(token);
    let points: Vec<(String, String)> = Cell::from(cell_raw)
        .vertices()
        .iter()
        .map(|v| {
            let ll = LatLng::from(*v);
            (format!("{:.15}", ll.lng.deg()), format!("{:.15}", ll.lat.deg()))
        })
        .collect();
    let expected = format_polygon_points(&points);
    let cell = parse_token(token).unwrap();
    let got = cell_boundary_text(cell).unwrap();
    assert_eq!(got, expected);
    assert!(got.starts_with("((11.7706"));
    assert!(got.ends_with("))"));
    assert_eq!(got.matches("),(").count(), 3);
}

#[test]
fn test_boundary_text_of_a_face_has_fifteen_digits() {
    let face = parse_token("1").unwrap();
    let got = cell_boundary_text(face).unwrap();
    assert_eq!(
        got,
        "((-45.000000000000000,-35.264389682754654),(45.000000000000000,-35.264389682754654),\
         (45.000000000000000,35.264389682754654),(-45.000000000000000,35.264389682754654))"
    );
}

#[test]
fn test_format_polygon_points_exact() {
    let none: Vec<(String, String)> = Vec::new();
    assert_eq!(format_polygon_points(&none), "()");
    let one = vec![("1.5".to_string(), "-2".to_string())];
    assert_eq!(format_polygon_points(&one), "((1.5,-2))");
    let three = vec![
        ("a".to_string(), "b".to_string()),
        ("".to_string(), "".to_string()),
        ("c".to_string(), "d".to_string()),
    ];
    assert_eq!(format_polygon_points(&three), "((a,b),(,),(c,d))");
}

#[test]
fn test_leaf_at_a_point_is_a_well_formed_leaf() {
    let odd = [
        (0.0, 0.0),
        (90.0, 180.0),
        (-90.0, -180.0),
        (35.264389682754654, 45.0),
        (-35.264389682754654, -135.0),
        (45.0, 90.0),
        (1e-300, -1e-300),
        (91.0, 0.0),
        (0.0, 1e9),
        (f64::NAN, 0.0),
        (0.0, f64::NAN),
        (f64::INFINITY, f64::NEG_INFINITY),
    ];
    for (lat, lng) in odd {
        let leaf = CellID::from(LatLng::from_degrees(lat, lng));
        assert!(leaf.is_valid(), "{lat} {lng}");
        assert_eq!(leaf.level(), 30);
    }
    let mut lat = -90.0;
    while lat <= 90.0 {
        let mut lng = -180.0;
        while lng <= 180.0 {
            let point = LatLng::from_degrees(lat, lng);
            let leaf = CellID::from(point);
            assert!(leaf.is_valid());
            assert_eq!(leaf.level(), 30);
            let cell = point_to_cell(&LatLng::from_degrees(lat, lng), 30).unwrap();
            assert_eq!(cell.to_u64(), leaf.0);
            lng += 7.5;
        }
        lat += 7.5;
    }
}
