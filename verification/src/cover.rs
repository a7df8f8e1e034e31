use vstd::prelude::*;
use s2::cap::Cap;
use s2::rect::Rect;
use crate::cellid::{
    has_level, is_valid, lemma_level_is, raw_cells, raw_level, to_external_spec, validate,
    S2CellId,
};
use crate::config::Config;
use crate::error::CellError;
use crate::hierarchy::{lemma_range_ends, range_max, range_max_spec, range_min, range_min_spec};

verus! {

/// A rectangle of latitudes and longitudes as `s2` holds it. The library hands it
/// to the coverer and never reads it.
#[verifier::external_type_specification]
#[verifier::external_body]
pub struct ExRect(Rect);

/// A spherical cap as `s2` holds it. The library hands it to the coverer and
/// never reads it.
#[verifier::external_type_specification]
#[verifier::external_body]
pub struct ExCap(Cap);

/// The budget of cells of a covering where the caller names none.
pub const DEFAULT_MAX_CELLS: i32 = 8;

/// A checked request for a covering: a level in `0..=30` and a budget of at least
/// one cell.
#[derive(Clone, Copy, Debug)]
pub struct CoverRequest {
    level: u8,
    max_cells: usize,
}

/// What `CoverRequest::new` answers: the level is looked at first.
pub open spec fn cover_request_spec(level: int, max_cells: int) -> Result<(int, int), CellError> {
    if level < 0 || level > 30 {
        Err(CellError::InvalidLevel)
    } else if max_cells <= 0 {
        Err(CellError::InvalidMaxCells)
    } else {
        Ok((level, max_cells))
    }
}

/// What `CoverRequest::for_cap` answers: level, budget, radius and centre are
/// looked at in this order.
pub open spec fn cap_request_spec(
    level: int,
    max_cells: int,
    radius_is_negative: bool,
    center_is_valid: bool,
) -> Result<(int, int), CellError> {
    if level < 0 || level > 30 {
        Err(CellError::InvalidLevel)
    } else if max_cells <= 0 {
        Err(CellError::InvalidMaxCells)
    } else if radius_is_negative {
        Err(CellError::InvalidRadius)
    } else if !center_is_valid {
        Err(CellError::InvalidLatLng)
    } else {
        Ok((level, max_cells))
    }
}

/// A result with the request, if there is one, as its level and its budget.
pub open spec fn request_result(res: Result<CoverRequest, CellError>) -> Result<
    (int, int),
    CellError,
> {
    match res {
        Ok(request) => Ok((request.level_spec() as int, request.max_cells_spec() as int)),
        Err(e) => Err(e),
    }
}

impl CoverRequest {
    #[verifier::type_invariant]
    spec fn checked(&self) -> bool {
        self.level <= 30 && self.max_cells >= 1
    }

    /// The level of the cells asked for.
    pub closed spec fn level_spec(&self) -> u64 {
        self.level as u64
    }

    /// The largest number of cells asked for.
    pub closed spec fn max_cells_spec(&self) -> nat {
        self.max_cells as nat
    }

    /// The request for cells of `level`, at most `max_cells` of them.
    pub fn new(level: i32, max_cells: i32) -> (res: Result<CoverRequest, CellError>)
        ensures
            request_result(res) == cover_request_spec(level as int, max_cells as int),
    {
        if level < 0 || level > 30 {
            return Err(CellError::InvalidLevel);
        }
        if max_cells <= 0 {
            return Err(CellError::InvalidMaxCells);
        }
        Ok(CoverRequest { level: level as u8, max_cells: max_cells as usize })
    }

    /// The request for a covering of a cap. The caller says whether the radius of
    /// the cap is negative and whether its centre is in range.
    pub fn for_cap(
        level: i32,
        max_cells: i32,
        radius_is_negative: bool,
        center_is_valid: bool,
    ) -> (res: Result<CoverRequest, CellError>)
        ensures
            request_result(res) == cap_request_spec(
                level as int,
                max_cells as int,
                radius_is_negative,
                center_is_valid,
            ),
    {
        let request = match CoverRequest::new(level, max_cells) {
            Ok(request) => request,
            Err(e) => {
                return Err(e);
            },
        };
        if radius_is_negative {
            return Err(CellError::InvalidRadius);
        }
        if !center_is_valid {
            return Err(CellError::InvalidLatLng);
        }
        Ok(request)
    }

    /// The request where the caller names neither level nor budget: the level
    /// that the settings give for coverings, and eight cells.
    pub fn from_config(config: &Config) -> (request: CoverRequest)
        ensures
            request.level_spec() == config.default_cover_level_spec(),
            request.max_cells_spec() == DEFAULT_MAX_CELLS,
    {
        CoverRequest {
            level: config.default_cover_level() as u8,
            max_cells: DEFAULT_MAX_CELLS as usize,
        }
    }

    pub fn level(&self) -> (level: i32)
        ensures
            level == self.level_spec(),
            0 <= level <= 30,
    {
        proof {
            use_type_invariant(self);
        }
        self.level as i32
    }

    pub fn max_cells(&self) -> (max_cells: usize)
        ensures
            max_cells == self.max_cells_spec(),
            max_cells >= 1,
    {
        proof {
            use_type_invariant(self);
        }
        self.max_cells
    }
}

/// Whether `raw` is a well-formed cell of `level`.
pub open spec fn is_cell_of_level(raw: u64, level: u64) -> bool {
    is_valid(raw) && has_level(raw, level)
}

/// The test that keeps the well-formed cells of `level`.
pub open spec fn of_level(level: u64) -> spec_fn(u64) -> bool {
    |raw: u64| is_cell_of_level(raw, level)
}

/// What a covering is cut down to: its well-formed cells of `level`, in their
/// order, and of those the first `max_cells` where there are more.
pub open spec fn bounded_covering(cells: Seq<u64>, level: u64, max_cells: nat) -> Seq<u64> {
    let kept = cells.filter(of_level(level));
    if kept.len() <= max_cells {
        kept
    } else {
        kept.take(max_cells as int)
    }
}

/// What a cut covering holds: no more cells than the budget, each of them a
/// well-formed cell of the level and one of the cells that were given.
pub proof fn lemma_bounded_covering(cells: Seq<u64>, level: u64, max_cells: nat)
    ensures
        bounded_covering(cells, level, max_cells).len() <= max_cells,
        bounded_covering(cells, level, max_cells).len() <= cells.len(),
        forall|i: int|
            0 <= i < bounded_covering(cells, level, max_cells).len() ==> {
                let cell = #[trigger] bounded_covering(cells, level, max_cells)[i];
                is_valid(cell) && has_level(cell, level) && cells.contains(cell)
            },
        cells.filter(of_level(level)).len() <= max_cells ==> bounded_covering(
            cells,
            level,
            max_cells,
        ) == cells.filter(of_level(level)),
{
    let kept = cells.filter(of_level(level));
    cells.lemma_filter_len(of_level(level));
    assert forall|i: int| 0 <= i < bounded_covering(cells, level, max_cells).len() implies {
        let cell = #[trigger] bounded_covering(cells, level, max_cells)[i];
        is_valid(cell) && has_level(cell, level) && cells.contains(cell)
    } by {
        let cell = bounded_covering(cells, level, max_cells)[i];
        assert(cell == kept[i]);
        cells.lemma_filter_pred(of_level(level), i);
        assert(kept.contains(cell));
        cells.lemma_filter_contains_rev(of_level(level), cell);
    }
}

/// The cells that the coverer of `s2` gives for a rectangle under its four
/// settings: the coarsest and the finest level, the step between levels, and the
/// budget.
pub uninterp spec fn rect_cover_cells(
    rect: Rect,
    min_level: u8,
    max_level: u8,
    level_mod: u8,
    max_cells: usize,
) -> Seq<u64>;

/// The cells that the coverer of `s2` gives for a cap under its four settings.
pub uninterp spec fn cap_cover_cells(
    cap: Cap,
    min_level: u8,
    max_level: u8,
    level_mod: u8,
    max_cells: usize,
) -> Seq<u64>;

/// What `cover_rect` answers: what the coverer gives for the rectangle at the one
/// level of the request, in steps of one level and with its budget, cut down to
/// the request.
pub open spec fn cover_rect_spec(rect: Rect, level: u64, max_cells: nat) -> Seq<u64> {
    bounded_covering(
        rect_cover_cells(rect, level as u8, level as u8, 1, max_cells as usize),
        level,
        max_cells,
    )
}

/// What `cover_cap` answers: what the coverer gives for the cap at the one level
/// of the request, in steps of one level and with its budget, cut down to the
/// request.
pub open spec fn cover_cap_spec(cap: Cap, level: u64, max_cells: nat) -> Seq<u64> {
    bounded_covering(
        cap_cover_cells(cap, level as u8, level as u8, 1, max_cells as usize),
        level,
        max_cells,
    )
}

/// Trusted: `s2::region::RegionCoverer::covering` of a rectangle, with the four
/// settings of the coverer as given; the cells are given their name. The
/// settings are held to one level, a step of one level and a positive budget.
#[verifier::external_body]
fn rect_covering(
    rect: &Rect,
    min_level: u8,
    max_level: u8,
    level_mod: u8,
    max_cells: usize,
) -> (cells: Vec<u64>)
    requires
        min_level == max_level,
        max_level <= 30,
        level_mod == 1,
        max_cells >= 1,
    ensures
        cells@ == rect_cover_cells(*rect, min_level, max_level, level_mod, max_cells),
{
    let coverer = s2::region::RegionCoverer { min_level, max_level, level_mod, max_cells };
    coverer.covering(rect).0.iter().map(|c| c.0).collect()
}

/// Trusted: `s2::region::RegionCoverer::covering` of a cap, with the four settings
/// of the coverer as given; the cells are given their name. The settings are
/// held to one level, a step of one level and a positive budget.
#[verifier::external_body]
fn cap_covering(
    cap: &Cap,
    min_level: u8,
    max_level: u8,
    level_mod: u8,
    max_cells: usize,
) -> (cells: Vec<u64>)
    requires
        min_level == max_level,
        max_level <= 30,
        level_mod == 1,
        max_cells >= 1,
    ensures
        cells@ == cap_cover_cells(*cap, min_level, max_level, level_mod, max_cells),
{
    let coverer = s2::region::RegionCoverer { min_level, max_level, level_mod, max_cells };
    coverer.covering(cap).0.iter().map(|c| c.0).collect()
}

/// Cuts a covering down to what was asked for: the well-formed cells of the
/// level of `request`, in the order given, and no more of them than its budget.
/// Where the covering holds more such cells than the budget, the first ones stay:
/// the result keeps to the budget and then no longer covers the whole region.
pub fn bound_covering(cells: &Vec<u64>, request: &CoverRequest) -> (bounded: Vec<S2CellId>)
    ensures
        raw_cells(bounded@) == bounded_covering(
            cells@,
            request.level_spec(),
            request.max_cells_spec(),
        ),
        bounded.len() <= request.max_cells_spec(),
{
    let level = request.level() as u64;
    let max_cells = request.max_cells();
    let ghost keep = of_level(level);
    let mut bounded: Vec<S2CellId> = Vec::new();
    let mut i: usize = 0;
    proof {
        reveal(Seq::filter);
        assert(cells@.take(0).filter(keep) =~= Seq::<u64>::empty());
    }
    while i < cells.len()
        invariant
            i <= cells.len(),
            level == request.level_spec(),
            max_cells == request.max_cells_spec(),
            keep == of_level(level),
            bounded.len() <= max_cells,
            raw_cells(bounded@) == bounded_covering(cells@.take(i as int), level, max_cells as nat),
        decreases cells.len() - i,
    {
        let raw = cells[i];
        let ghost seen = cells@.take(i as int);
        let ghost kept = seen.filter(keep);
        let ghost before = bounded@;
        let fits = validate(raw) && raw_level(raw) == level;
        proof {
            let next = cells@.take(i as int + 1);
            assert(next.drop_last() =~= seen);
            assert(next.last() == raw);
            reveal(Seq::filter);
            if is_valid(raw) && has_level(raw, level) {
                lemma_level_is(raw, level);
            }
            assert(fits == keep(raw));
            assert(next.filter(keep) == if keep(raw) {
                kept.push(raw)
            } else {
                kept
            });
        }
        if fits && bounded.len() < max_cells {
            bounded.push(S2CellId::from_u64(raw));
            proof {
                assert(raw_cells(bounded@) =~= raw_cells(before).push(raw));
            }
        } else {
            proof {
                if fits {
                    assert(kept.push(raw).take(max_cells as int) =~= kept.take(max_cells as int));
                }
            }
        }
        i += 1;
    }
    assert(cells@.take(cells.len() as int) =~= cells@);
    bounded
}

/// The cells of the asked level that `s2` finds to meet `rect`, cut down to the
/// budget of `request`. The same rectangle and request give the same cells.
pub fn cover_rect(rect: &Rect, request: &CoverRequest) -> (cells: Vec<S2CellId>)
    ensures
        raw_cells(cells@) == cover_rect_spec(
            *rect,
            request.level_spec(),
            request.max_cells_spec(),
        ),
        cells.len() <= request.max_cells_spec(),
        forall|i: int|
            0 <= i < cells.len() ==> is_cell_of_level((#[trigger] cells@[i])@, request.level_spec()),
{
    let level = request.level() as u8;
    let found = rect_covering(rect, level, level, 1, request.max_cells());
    let cells = bound_covering(&found, request);
    proof {
        lemma_bounded_covering(found@, request.level_spec(), request.max_cells_spec());
        assert forall|i: int| 0 <= i < cells.len() implies is_cell_of_level(
            (#[trigger] cells@[i])@,
            request.level_spec(),
        ) by {
            assert(raw_cells(cells@)[i] == cells@[i]@);
        }
    }
    cells
}

/// The cells of the asked level that `s2` finds to meet `cap`, cut down to the
/// budget of `request`. The same cap and request give the same cells.
pub fn cover_cap(cap: &Cap, request: &CoverRequest) -> (cells: Vec<S2CellId>)
    ensures
        raw_cells(cells@) == cover_cap_spec(*cap, request.level_spec(), request.max_cells_spec()),
        cells.len() <= request.max_cells_spec(),
        forall|i: int|
            0 <= i < cells.len() ==> is_cell_of_level((#[trigger] cells@[i])@, request.level_spec()),
{
    let level = request.level() as u8;
    let found = cap_covering(cap, level, level, 1, request.max_cells());
    let cells = bound_covering(&found, request);
    proof {
        lemma_bounded_covering(found@, request.level_spec(), request.max_cells_spec());
        assert forall|i: int| 0 <= i < cells.len() implies is_cell_of_level(
            (#[trigger] cells@[i])@,
            request.level_spec(),
        ) by {
            assert(raw_cells(cells@)[i] == cells@[i]@);
        }
    }
    cells
}

/// The half-open range of external values that holds exactly the leaf cells of
/// the cell `raw`: from its smallest leaf to one past its largest.
pub open spec fn leaf_range_spec(raw: u64) -> (int, int) {
    (to_external_spec(range_min_spec(raw) as u64), to_external_spec(range_max_spec(raw) as u64) + 1)
}

/// The leaf range of a well-formed cell fits the external values with room to
/// spare: its end is never cut short.
pub proof fn lemma_leaf_range_fits(raw: u64)
    requires
        is_valid(raw),
    ensures
        i64::MIN < leaf_range_spec(raw).0 < leaf_range_spec(raw).1 < i64::MAX,
{
    lemma_range_ends(raw);
}

/// The range of external values that holds the leaf cells of `id`, closed below
/// and open above; the upper end stops at the largest value rather than wrap.
pub fn leaf_range(id: S2CellId) -> (res: Result<(i64, i64), CellError>)
    ensures
        is_valid(id@) ==> (res matches Ok(range) && (range.0 as int, range.1 as int)
            == leaf_range_spec(id@)),
        !is_valid(id@) ==> res == Err::<(i64, i64), CellError>(CellError::InvalidIdentifier),
{
    let low = match range_min(id) {
        Ok(low) => low,
        Err(e) => {
            return Err(e);
        },
    };
    let high = match range_max(id) {
        Ok(high) => high,
        Err(e) => {
            return Err(e);
        },
    };
    proof {
        lemma_leaf_range_fits(id@);
    }
    let last = high.to_bigint();
    let end = if last < i64::MAX {
        last + 1
    } else {
        i64::MAX
    };
    Ok((low.to_bigint(), end))
}

/// The leaf ranges of the cells of a covering, in their order; `InvalidIdentifier`
/// if one of the cells is not well formed.
pub fn covering_ranges(cells: &Vec<S2CellId>) -> (res: Result<Vec<(i64, i64)>, CellError>)
    ensures
        (forall|i: int| 0 <= i < cells.len() ==> is_valid((#[trigger] cells@[i])@)) ==> (res matches Ok(
            ranges,
        ) && ranges.len() == cells.len() && forall|i: int|
            0 <= i < cells.len() ==> ((#[trigger] ranges@[i]).0 as int, ranges@[i].1 as int)
                == leaf_range_spec(cells@[i]@)),
        (exists|i: int| 0 <= i < cells.len() && !is_valid((#[trigger] cells@[i])@)) ==> res == Err::<
            Vec<(i64, i64)>,
            CellError,
        >(CellError::InvalidIdentifier),
{
    let mut ranges: Vec<(i64, i64)> = Vec::new();
    let mut i: usize = 0;
    while i < cells.len()
        invariant
            i <= cells.len(),
            ranges.len() == i,
            forall|j: int| 0 <= j < i ==> is_valid((#[trigger] cells@[j])@),
            forall|j: int|
                0 <= j < i ==> ((#[trigger] ranges@[j]).0 as int, ranges@[j].1 as int)
                    == leaf_range_spec(cells@[j]@),
        decreases cells.len() - i,
    {
        match leaf_range(cells[i]) {
            Ok(range) => {
                ranges.push(range);
            },
            Err(e) => {
                assert(!is_valid(cells@[i as int]@));
                return Err(e);
            },
        }
        i += 1;
    }
    Ok(ranges)
}

} // verus!
