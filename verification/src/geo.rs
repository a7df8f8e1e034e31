use vstd::prelude::*;
use vstd::string::StringExecFns;
use s2::latlng::LatLng;
use crate::cellid::{
    has_level, is_valid, lemma_level_is, level_spec, raw_result, validate, S2CellId,
};
use crate::config::Config;
use crate::error::CellError;
use crate::token::text_result;
use crate::hierarchy::{lemma_parent_is_cell, lemma_parent_steps, parent_spec, raw_parent};

verus! {

/// A point of the sphere as `s2` holds it: a latitude and a longitude. The library
/// carries such points and never reads them.
#[verifier::external_type_specification]
#[verifier::external_body]
pub struct ExLatLng(LatLng);

/// The number of digits after the point in a coordinate of a boundary text.
pub const COORDINATE_DIGITS: usize = 15;

/// Whether `s2` finds the latitude and the longitude of `point` in range.
pub uninterp spec fn point_in_range(point: LatLng) -> bool;

/// The leaf cell that `s2` finds at `point`.
pub uninterp spec fn point_leaf_cell(point: LatLng) -> u64;

/// The centre of the cell `raw` as `s2` finds it.
pub uninterp spec fn cell_center(raw: u64) -> LatLng;

/// The `k`-th corner of the cell `raw` as `s2` finds it, counted counter-clockwise
/// from the lower left of the face.
pub uninterp spec fn cell_corner(raw: u64, k: int) -> LatLng;

/// The longitude of `point` in degrees, written with `digits` digits after the point.
pub uninterp spec fn longitude_text(point: LatLng, digits: int) -> Seq<char>;

/// The latitude of `point` in degrees, written with `digits` digits after the point.
pub uninterp spec fn latitude_text(point: LatLng, digits: int) -> Seq<char>;

/// What `leaf_to_cell` answers: `leaf` is the leaf cell found at a point, or
/// `None` for a point out of range.
pub open spec fn leaf_to_cell_spec(leaf: Option<u64>, level: int) -> Result<u64, CellError> {
    if level < 0 || level > 30 {
        Err(CellError::InvalidLevel)
    } else {
        match leaf {
            None => Err(CellError::InvalidLatLng),
            Some(raw) => Ok(parent_spec(raw, level as u64)),
        }
    }
}

/// One coordinate pair of a boundary text: `(x,y)`.
pub open spec fn pair_text(pair: (Seq<char>, Seq<char>)) -> Seq<char> {
    seq!['('] + pair.0 + seq![','] + pair.1 + seq![')']
}

/// The coordinate pairs of a boundary text, with a comma between two of them.
pub open spec fn pairs_text(pairs: Seq<(Seq<char>, Seq<char>)>) -> Seq<char>
    decreases pairs.len(),
{
    if pairs.len() == 0 {
        Seq::empty()
    } else if pairs.len() == 1 {
        pair_text(pairs[0])
    } else {
        pairs_text(pairs.drop_last()) + seq![','] + pair_text(pairs.last())
    }
}

/// A boundary text: the coordinate pairs in one more pair of brackets.
pub open spec fn polygon_text(pairs: Seq<(Seq<char>, Seq<char>)>) -> Seq<char> {
    seq!['('] + pairs_text(pairs) + seq![')']
}

/// The coordinate pairs as the characters they hold.
pub open spec fn pair_views(pairs: Seq<(String, String)>) -> Seq<(Seq<char>, Seq<char>)> {
    Seq::new(pairs.len(), |i: int| (pairs[i].0@, pairs[i].1@))
}

/// The leaf cell at `point`, or `None` for a point out of range.
pub open spec fn point_leaf_spec(point: LatLng) -> Option<u64> {
    if point_in_range(point) {
        Some(point_leaf_cell(point))
    } else {
        None
    }
}

/// What `point_to_cell` answers: a level outside `0..=30` is refused first, then a
/// point out of range; else the ancestor at the level of the leaf cell at the point.
pub open spec fn point_to_cell_spec(point: LatLng, level: int) -> Result<u64, CellError> {
    leaf_to_cell_spec(point_leaf_spec(point), level)
}

/// What `cell_to_point` answers.
pub open spec fn cell_to_point_spec(raw: u64) -> Result<LatLng, CellError> {
    if is_valid(raw) {
        Ok(cell_center(raw))
    } else {
        Err(CellError::InvalidIdentifier)
    }
}

/// The four corners of the cell `raw`, in their order.
pub open spec fn cell_corners(raw: u64) -> Seq<LatLng> {
    Seq::new(4, |k: int| cell_corner(raw, k))
}

/// A point as a coordinate pair of a boundary text: the longitude first, then the
/// latitude, each in degrees with `digits` digits after the point.
pub open spec fn point_pair(point: LatLng, digits: int) -> (Seq<char>, Seq<char>) {
    (longitude_text(point, digits), latitude_text(point, digits))
}

/// The boundary text of the cell `raw`: its four corners in their order, each as
/// a coordinate pair with fifteen digits after the point.
pub open spec fn boundary_text(raw: u64) -> Seq<char> {
    polygon_text(Seq::new(4, |k: int| point_pair(cell_corner(raw, k), COORDINATE_DIGITS as int)))
}

/// What `cell_boundary_text` answers.
pub open spec fn cell_boundary_text_spec(raw: u64) -> Result<Seq<char>, CellError> {
    if is_valid(raw) {
        Ok(boundary_text(raw))
    } else {
        Err(CellError::InvalidIdentifier)
    }
}

/// A result with the corners, if there are any, as a sequence.
pub open spec fn corners_result(res: Result<Vec<LatLng>, CellError>) -> Result<
    Seq<LatLng>,
    CellError,
> {
    match res {
        Ok(corners) => Ok(corners@),
        Err(e) => Err(e),
    }
}

/// The cells of one point at two levels nest: the cell at the coarser level is the
/// ancestor of the cell at the finer one.
pub proof fn lemma_point_cells_nest(point: LatLng, coarse: int, fine: int)
    requires
        0 <= coarse <= fine <= 30,
        point_in_range(point),
    ensures
        point_to_cell_spec(point, fine) is Ok,
        point_to_cell_spec(point, coarse) == Ok::<u64, CellError>(
            parent_spec(point_to_cell_spec(point, fine)->Ok_0, coarse as u64),
        ),
{
    lemma_parent_steps(point_leaf_cell(point), fine as u64, coarse as u64);
}

/// Trusted: `s2::latlng::LatLng::is_valid`; the answer is given its name.
#[verifier::external_body]
fn point_is_valid(point: &LatLng) -> (ok: bool)
    ensures
        ok == point_in_range(*point),
{
    point.is_valid()
}

/// Trusted: `s2::cellid::CellID::from` for a point. For every pair of numbers it
/// picks a face from zero to five and two coordinates on it, and builds from
/// them a leaf cell of that face: a word with its lowest bit set.
#[verifier::external_body]
fn point_leaf_id(point: &LatLng) -> (leaf: u64)
    ensures
        leaf == point_leaf_cell(*point),
        is_valid(leaf),
        has_level(leaf, 30),
{
    s2::cellid::CellID::from(point).0
}

/// Trusted: `s2::latlng::LatLng::from` for a cell, the centre of the cell. It
/// reads the face of the cell, which must be below six.
#[verifier::external_body]
fn cell_center_point(raw: u64) -> (center: LatLng)
    requires
        is_valid(raw),
    ensures
        center == cell_center(raw),
{
    LatLng::from(s2::cellid::CellID(raw))
}

/// Trusted: `s2::cell::Cell::vertex`, the `k`-th corner of the cell counted
/// counter-clockwise from the lower left, as a latitude and longitude. Building
/// the `Cell` asks for a face below six and reads the level; there are four corners.
#[verifier::external_body]
fn cell_vertex_point(raw: u64, k: usize) -> (corner: LatLng)
    requires
        is_valid(raw),
        k < 4,
    ensures
        corner == cell_corner(raw, k as int),
{
    LatLng::from(s2::cell::Cell::from(s2::cellid::CellID(raw)).vertex(k))
}

/// Trusted: `s2::s1::Angle::deg` of the longitude, written by `format` with
/// `digits` digits after the point; the text is given its name. No more than
/// fifteen digits are asked for.
#[verifier::external_body]
fn longitude_digits(point: &LatLng, digits: usize) -> (text: String)
    requires
        digits <= 15,
    ensures
        text@ == longitude_text(*point, digits as int),
{
    format!("{:.*}", digits, point.lng.deg())
}

/// Trusted: `s2::s1::Angle::deg` of the latitude, written by `format` with
/// `digits` digits after the point; the text is given its name. No more than
/// fifteen digits are asked for.
#[verifier::external_body]
fn latitude_digits(point: &LatLng, digits: usize) -> (text: String)
    requires
        digits <= 15,
    ensures
        text@ == latitude_text(*point, digits as int),
{
    format!("{:.*}", digits, point.lat.deg())
}

/// The cell of `level` above the leaf cell found at a point; `None` stands for a
/// point whose latitude or longitude is out of range.
pub fn leaf_to_cell(leaf: Option<u64>, level: i32) -> (res: Result<S2CellId, CellError>)
    ensures
        raw_result(res) == leaf_to_cell_spec(leaf, level as int),
        res matches Ok(cell) ==> has_level(cell@, level as u64),
{
    if level < 0 || level > 30 {
        return Err(CellError::InvalidLevel);
    }
    match leaf {
        None => Err(CellError::InvalidLatLng),
        Some(raw) => Ok(S2CellId::from_u64(raw_parent(raw, level as u64))),
    }
}

/// The cell of `level` that holds `point`. A level outside `0..=30` is refused
/// first; then a point out of range.
pub fn point_to_cell(point: &LatLng, level: i32) -> (res: Result<S2CellId, CellError>)
    ensures
        raw_result(res) == point_to_cell_spec(*point, level as int),
        0 <= level <= 30 ==> (res is Ok <==> point_in_range(*point)),
        res matches Ok(cell) ==> is_valid(cell@) && level_spec(cell@) == level,
{
    let leaf = if point_is_valid(point) {
        let leaf = point_leaf_id(point);
        proof {
            lemma_level_is(leaf, 30);
            if 0 <= level <= 30 {
                lemma_parent_is_cell(leaf, level as u64);
            }
        }
        Some(leaf)
    } else {
        None
    };
    leaf_to_cell(leaf, level)
}

/// The cell that holds `point`, at the level that the settings give for points.
pub fn point_to_cell_default(config: &Config, point: &LatLng) -> (res: Result<S2CellId, CellError>)
    ensures
        raw_result(res) == point_to_cell_spec(*point, config.default_level_spec() as int),
        res is Ok <==> point_in_range(*point),
        res matches Ok(cell) ==> is_valid(cell@) && level_spec(cell@)
            == config.default_level_spec(),
{
    point_to_cell(point, config.default_level())
}

/// The centre of a well-formed cell, or `InvalidIdentifier`.
pub fn cell_to_point(id: S2CellId) -> (res: Result<LatLng, CellError>)
    ensures
        res == cell_to_point_spec(id@),
{
    let raw = id.to_u64();
    if !validate(raw) {
        return Err(CellError::InvalidIdentifier);
    }
    Ok(cell_center_point(raw))
}

/// The four corners of a well-formed cell, counter-clockwise from the lower left
/// of its face, or `InvalidIdentifier`.
pub fn cell_to_vertices(id: S2CellId) -> (res: Result<Vec<LatLng>, CellError>)
    ensures
        is_valid(id@) ==> corners_result(res) == Ok::<Seq<LatLng>, CellError>(cell_corners(id@)),
        !is_valid(id@) ==> corners_result(res) == Err::<Seq<LatLng>, CellError>(
            CellError::InvalidIdentifier,
        ),
{
    let raw = id.to_u64();
    if !validate(raw) {
        return Err(CellError::InvalidIdentifier);
    }
    let mut corners: Vec<LatLng> = Vec::new();
    let mut k: usize = 0;
    while k < 4
        invariant
            is_valid(raw),
            k <= 4,
            corners.len() == k,
            forall|j: int| 0 <= j < k ==> #[trigger] corners@[j] == cell_corner(raw, j),
        decreases 4 - k,
    {
        corners.push(cell_vertex_point(raw, k));
        k += 1;
    }
    assert(corners@ =~= cell_corners(raw));
    Ok(corners)
}

/// The boundary text of a list of coordinate pairs: each pair as `(x,y)`, a comma
/// between two pairs, and one more pair of brackets around the whole.
pub fn format_polygon_points(points: &Vec<(String, String)>) -> (text: String)
    ensures
        text@ == polygon_text(pair_views(points@)),
{
    let ghost pairs = pair_views(points@);
    let mut out = String::new();
    proof {
        reveal_strlit("(");
        reveal_strlit(",");
        reveal_strlit(")");
        assert("("@ =~= seq!['(']);
        assert(","@ =~= seq![',']);
        assert(")"@ =~= seq![')']);
    }
    out.append("(");
    let mut i: usize = 0;
    while i < points.len()
        invariant
            i <= points.len(),
            pairs == pair_views(points@),
            "("@ == seq!['('],
            ","@ == seq![','],
            ")"@ == seq![')'],
            out@ == seq!['('] + pairs_text(pairs.take(i as int)),
        decreases points.len() - i,
    {
        let ghost before = out@;
        if i > 0 {
            out.append(",");
        }
        out.append("(");
        out.append(points[i].0.as_str());
        out.append(",");
        out.append(points[i].1.as_str());
        out.append(")");
        proof {
            let seen = pairs.take(i as int + 1);
            assert(seen.drop_last() =~= pairs.take(i as int));
            assert(seen.last() == pairs[i as int]);
            assert(pairs[i as int] == (points@[i as int].0@, points@[i as int].1@));
            if i == 0 {
                assert(pairs.take(0).len() == 0);
                assert(seen.len() == 1);
                assert(seen[0] == pairs[0]);
                assert(out@ =~= seq!['('] + pairs_text(seen));
            } else {
                assert(seen.len() > 1);
                assert(out@ =~= seq!['('] + pairs_text(seen));
            }
        }
        i += 1;
    }
    assert(pairs.take(points.len() as int) =~= pairs);
    out.append(")");
    out
}

/// The boundary of a well-formed cell as text: its four corners in their order,
/// each as `(longitude,latitude)` in degrees with fifteen digits after the point.
pub fn cell_boundary_text(id: S2CellId) -> (res: Result<String, CellError>)
    ensures
        text_result(res) == cell_boundary_text_spec(id@),
{
    let corners = match cell_to_vertices(id) {
        Ok(corners) => corners,
        Err(e) => {
            return Err(e);
        },
    };
    let mut points: Vec<(String, String)> = Vec::new();
    let mut k: usize = 0;
    while k < corners.len()
        invariant
            k <= corners.len(),
            points.len() == k,
            forall|j: int|
                0 <= j < k ==> (#[trigger] points@[j]).0@ == longitude_text(
                    corners@[j],
                    COORDINATE_DIGITS as int,
                ) && points@[j].1@ == latitude_text(corners@[j], COORDINATE_DIGITS as int),
        decreases corners.len() - k,
    {
        let lng = longitude_digits(&corners[k], COORDINATE_DIGITS);
        let lat = latitude_digits(&corners[k], COORDINATE_DIGITS);
        points.push((lng, lat));
        k += 1;
    }
    let text = format_polygon_points(&points);
    proof {
        let pairs = Seq::new(
            4,
            |k: int| point_pair(cell_corner(id@, k), COORDINATE_DIGITS as int),
        );
        assert(pair_views(points@) =~= pairs);
    }
    Ok(text)
}

} // verus!
