use pg_s2::cellid::{level_of, to_external, S2CellId};
use pg_s2::config::Config;
use pg_s2::cover::{
    bound_covering, cover_cap, cover_rect, covering_ranges, leaf_range, CoverRequest,
    DEFAULT_MAX_CELLS,
};
use pg_s2::error::CellError;
use pg_s2::token::format_token;
use s2::cap::Cap;
use s2::cell::Cell;
use s2::cellid::CellID;
use s2::latlng::LatLng;
use s2::point::Point;
use s2::rect::Rect;
use s2::region::{Region, RegionCoverer};
use s2::s1::{Angle, Rad};

const EARTH_RADIUS_M: f64 = 6_371_008.8;

fn sample_rect() -> Rect {
    Rect::from_degrees(49.68, 11.70, 49.76, 11.82)
}

fn sample_cap(radius_m: f64) -> Cap {
    let center = Point::from(LatLng::from_degrees(49.70, 11.77));
    Cap::from_center_angle(&center, &Angle::from(Rad(radius_m / EARTH_RADIUS_M)))
}

fn outside_covering<R: Region + 'static>(region: &R, level: u8, max_cells: usize) -> Vec<u64> {
    let coverer = RegionCoverer {
        min_level: level,
        max_level: level,
        level_mod: 1,
        max_cells,
    };
    coverer.covering(region).0.iter().map(|c| c.0).collect()
}

fn raw(cells: &[S2CellId]) -> Vec<u64> {
    cells.iter().map(|c| c.to_u64()).collect()
}

#[test]
fn test_s2_cover_rect_level() {
    let rect = sample_rect();
    let request = CoverRequest::new(12, 8).unwrap();
    let found = outside_covering(&rect, 12, 8);
    let mut expected: Vec<u64> = found.iter().copied().take(8).collect();
    expected.sort();
    let mut got = raw(&cover_rect(&rect, &request));
    got.sort();
    assert_eq!(got, expected);
}

#[test]
fn test_cover_rect_keeps_to_level_rectangle_and_budget() {
    let rect = sample_rect();
    let request = CoverRequest::new(12, 8).unwrap();
    let cells = cover_rect(&rect, &request);
    assert!(!cells.is_empty());
    assert!(cells.len() <= 8);
    for cell in &cells {
        assert_eq!(level_of(*cell), Ok(12));
        assert!(rect.intersects_cell(&Cell::from(CellID(cell.to_u64()))));
    }
}

#[test]
fn test_cover_rect_with_room_in_the_budget_is_the_whole_covering() {
    let rect = sample_rect();
    let found = outside_covering(&rect, 12, 1000);
    assert!(found.len() > 8 && found.len() < 1000);
    let request = CoverRequest::new(12, 1000).unwrap();
    assert_eq!(raw(&cover_rect(&rect, &request)), found);
    let tight = CoverRequest::new(10, 8).unwrap();
    let coarse = outside_covering(&rect, 10, 8);
    assert!(coarse.len() <= 8);
    assert_eq!(raw(&cover_rect(&rect, &tight)), coarse);
}

#[test]
fn test_s2_cover_rect_default_level() {
    let rect = sample_rect();
    let expected = cover_rect(&rect, &CoverRequest::new(12, 8).unwrap());
    let got = cover_rect(&rect, &CoverRequest::from_config(&Config::new()));
    assert_eq!(got, expected);
}

#[test]
fn test_s2_cover_rect_default_level_guc() {
    let rect = sample_rect();
    let config = Config::new().with_default_cover_level(10).unwrap();
    let expected = cover_rect(&rect, &CoverRequest::new(10, 8).unwrap());
    let got = cover_rect(&rect, &CoverRequest::from_config(&config));
    assert_eq!(got, expected);
    assert_eq!(CoverRequest::from_config(&config).level(), 10);
    assert_eq!(CoverRequest::from_config(&config).max_cells(), 8);
    assert_eq!(DEFAULT_MAX_CELLS, 8);
}

#[test]
fn test_s2_cover_cap_level() {
    let cap = sample_cap(2000.0);
    let request = CoverRequest::for_cap(12, 8, false, true).unwrap();
    let found = outside_covering(&cap, 12, 8);
    let mut expected: Vec<String> = found
        .iter()
        .take(8)
        .map(|c| CellID(*c).to_token())
        .collect();
    expected.sort();
    let mut got: Vec<String> = cover_cap(&cap, &request)
        .iter()
        .map(|c| format_token(*c).unwrap())
        .collect();
    got.sort();
    assert_eq!(got, expected);
    assert!(!got.is_empty());
}

#[test]
fn test_s2_cover_cap_default_level() {
    let cap = sample_cap(2000.0);
    let expected = cover_cap(&cap, &CoverRequest::new(12, 8).unwrap());
    let got = cover_cap(&cap, &CoverRequest::from_config(&Config::new()));
    assert_eq!(got, expected);
}

#[test]
fn test_covering_asked_twice_is_the_same_set() {
    let rect = sample_rect();
    let cap = sample_cap(5000.0);
    let request = CoverRequest::new(12, 8).unwrap();
    let mut a = raw(&cover_rect(&rect, &request));
    let mut b = raw(&cover_rect(&rect, &request));
    a.sort();
    b.sort();
    assert_eq!(a, b);
    let mut c = raw(&cover_cap(&cap, &request));
    let mut d = raw(&cover_cap(&cap, &request));
    c.sort();
    d.sort();
    assert_eq!(c, d);
}

#[test]
fn test_cover_request_errors() {
    assert!(matches!(CoverRequest::new(-1, 8), Err(CellError::InvalidLevel)));
    assert!(matches!(CoverRequest::new(31, 8), Err(CellError::InvalidLevel)));
    assert!(matches!(CoverRequest::new(31, 0), Err(CellError::InvalidLevel)));
    assert!(matches!(CoverRequest::new(12, 0), Err(CellError::InvalidMaxCells)));
    assert!(matches!(CoverRequest::new(12, -3), Err(CellError::InvalidMaxCells)));
    let ok = CoverRequest::new(0, 1).unwrap();
    assert_eq!(ok.level(), 0);
    assert_eq!(ok.max_cells(), 1);
    let ok = CoverRequest::new(30, i32::MAX).unwrap();
    assert_eq!(ok.level(), 30);
    assert_eq!(ok.max_cells(), i32::MAX as usize);
    assert_eq!(CellError::InvalidMaxCells.message(), "invalid max_cells");
}

#[test]
fn test_cap_request_errors_come_in_order() {
    assert!(matches!(
        CoverRequest::for_cap(31, 0, true, false),
        Err(CellError::InvalidLevel)
    ));
    assert!(matches!(
        CoverRequest::for_cap(12, 0, true, false),
        Err(CellError::InvalidMaxCells)
    ));
    assert!(matches!(
        CoverRequest::for_cap(12, 8, true, false),
        Err(CellError::InvalidRadius)
    ));
    assert!(matches!(
        CoverRequest::for_cap(12, 8, false, false),
        Err(CellError::InvalidLatLng)
    ));
    let ok = CoverRequest::for_cap(12, 8, false, true).unwrap();
    assert_eq!((ok.level(), ok.max_cells()), (12, 8));
    assert_eq!(CellError::InvalidRadius.message(), "invalid radius");
}

#[test]
fn test_bound_covering_drops_what_is_not_asked_for() {
    let request = CoverRequest::new(12, 3).unwrap();
    let leaf = CellID::from_token("47a1cbd595522b39");
    let a = leaf.parent(12);
    let b = a.next();
    let c = b.next();
    let d = c.next();
    let cells = vec![0, a.0, leaf.0, b.0, u64::MAX, leaf.parent(11).0, c.0, d.0];
    let got = raw(&bound_covering(&cells, &request));
    assert_eq!(got, vec![a.0, b.0, c.0]);
    let wide = CoverRequest::new(12, 10).unwrap();
    let got = raw(&bound_covering(&cells, &wide));
    assert_eq!(got, vec![a.0, b.0, c.0, d.0]);
    let none: Vec<u64> = Vec::new();
    assert!(bound_covering(&none, &wide).is_empty());
}

#[test]
fn test_leaf_range_exact() {
    let face0 = S2CellId::from_u64(0x1000_0000_0000_0000);
    assert_eq!(
        leaf_range(face0),
        Ok((to_external(1), to_external(0x1fff_ffff_ffff_ffff) + 1))
    );
    assert_eq!(leaf_range(face0), Ok((i64::MIN + 1, -0x6000_0000_0000_0000)));
    let leaf = S2CellId::from_u64(0x47a1cbd595522b39);
    let at = to_external(0x47a1cbd595522b39);
    assert_eq!(leaf_range(leaf), Ok((at, at + 1)));
    let face5 = S2CellId::from_u64(0xb000_0000_0000_0000);
    assert_eq!(
        leaf_range(face5),
        Ok((0x2000_0000_0000_0001, 0x4000_0000_0000_0000))
    );
    assert_eq!(
        leaf_range(S2CellId::from_bigint(0)),
        Err(CellError::InvalidIdentifier)
    );
}

#[test]
fn test_s2_cover_cap_ranges_sql() {
    let cap = sample_cap(2000.0);
    let request = CoverRequest::for_cap(12, 8, false, true).unwrap();
    let mut expected: Vec<String> = outside_covering(&cap, 12, 8)
        .iter()
        .take(8)
        .map(|c| {
            let c = CellID(*c);
            let min = to_external(c.range_min().0);
            let max = to_external(c.range_max().0);
            let max_exclusive = max.saturating_add(1);
            format!("[{min},{max_exclusive})")
        })
        .collect();
    expected.sort();
    let cells = cover_cap(&cap, &request);
    let mut got: Vec<String> = covering_ranges(&cells)
        .unwrap()
        .iter()
        .map(|r| format!("[{},{})", r.0, r.1))
        .collect();
    got.sort();
    assert_eq!(got, expected);
}

#[test]
fn test_s2_cover_rect_ranges_sql() {
    let rect = sample_rect();
    let request = CoverRequest::new(12, 8).unwrap();
    let mut expected: Vec<String> = outside_covering(&rect, 12, 8)
        .iter()
        .take(8)
        .map(|c| {
            let c = CellID(*c);
            let min = to_external(c.range_min().0);
            let max = to_external(c.range_max().0);
            let max_exclusive = max.saturating_add(1);
            format!("[{min},{max_exclusive})")
        })
        .collect();
    expected.sort();
    let cells = cover_rect(&rect, &request);
    let mut got: Vec<String> = covering_ranges(&cells)
        .unwrap()
        .iter()
        .map(|r| format!("[{},{})", r.0, r.1))
        .collect();
    got.sort();
    assert_eq!(got, expected);
}

#[test]
fn test_covering_ranges_reject_an_invalid_cell() {
    let cells = vec![
        S2CellId::from_u64(0x47a1cbd595522b39),
        S2CellId::from_u64(0),
    ];
    assert_eq!(covering_ranges(&cells), Err(CellError::InvalidIdentifier));
    let none: Vec<S2CellId> = Vec::new();
    assert_eq!(covering_ranges(&none), Ok(Vec::new()));
}
