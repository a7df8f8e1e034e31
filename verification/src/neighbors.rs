use vstd::prelude::*;
use crate::cellid::{
    cells_from_raw, has_level, is_valid, lemma_level_is, level_spec, raw_cells, raw_level,
    raw_list, validate, S2CellId,
};
use crate::error::CellError;
use crate::hierarchy::{lemma_range_ends, range_max_spec, range_min_spec};

verus! {

/// The four cells that `s2` finds across the four edges of the cell `raw`, in the
/// order down, right, up, left on the face.
pub uninterp spec fn edge_neighbor_cells(raw: u64) -> Seq<u64>;

/// The cells of `level` that `s2` finds around the cell `raw`, those across a
/// corner included.
pub uninterp spec fn neighbor_cells(raw: u64, level: u64) -> Seq<u64>;

/// What `all_neighbors` answers for a raw identifier and a level.
pub open spec fn all_neighbors_spec(raw: u64, level: int) -> Result<Seq<u64>, CellError> {
    if level < 0 || level > 30 {
        Err(CellError::InvalidLevel)
    } else if !is_valid(raw) {
        Err(CellError::InvalidIdentifier)
    } else if level < level_spec(raw) {
        Err(CellError::InvalidLevel)
    } else {
        Ok(neighbor_cells(raw, level as u64))
    }
}

/// Whether `cell` is a well-formed cell of `level` outside the cell `raw`: neither
/// `raw` itself nor one of its descendants.
pub open spec fn is_cell_beside(raw: u64, level: u64, cell: u64) -> bool {
    &&& is_valid(cell)
    &&& has_level(cell, level)
    &&& !(range_min_spec(raw) <= cell <= range_max_spec(raw))
}

/// Trusted: `s2::cellid::CellID::edge_neighbors`, which returns an array of four
/// identifiers. It reads the level of the cell and its face, so the cell must be
/// well formed. Each of the four is the ancestor, at the level of the cell, of
/// a leaf cell one cell's width away: a well-formed cell of that level beside
/// the cell.
#[verifier::external_body]
fn edge_neighbor_ids(raw: u64) -> (cells: Vec<u64>)
    requires
        is_valid(raw),
    ensures
        cells@ == edge_neighbor_cells(raw),
        cells@.len() == 4,
        forall|i: int|
            0 <= i < 4 ==> is_cell_beside(raw, level_spec(raw), #[trigger] cells@[i]),
{
    s2::cellid::CellID(raw).edge_neighbors().iter().map(|c| c.0).collect()
}

/// Trusted: `s2::cellid::CellID::all_neighbors`, which asks for a level no coarser
/// than the cell's own and reads the level of the cell. Each cell of the list is
/// the ancestor at `level` of a leaf cell just outside the cell: a well-formed
/// cell of that level beside the cell. The list holds all cells that touch the
/// cell, so at the cell's own level the four across its edges are among them.
#[verifier::external_body]
fn neighbor_ids(raw: u64, level: u64) -> (cells: Vec<u64>)
    requires
        is_valid(raw),
        level_spec(raw) <= level <= 30,
    ensures
        cells@ == neighbor_cells(raw, level),
        forall|i: int| 0 <= i < cells@.len() ==> is_cell_beside(raw, level, #[trigger] cells@[i]),
        level == level_spec(raw) ==> forall|k: int|
            0 <= k < 4 ==> cells@.contains(#[trigger] edge_neighbor_cells(raw)[k]),
{
    s2::cellid::CellID(raw).all_neighbors(level).iter().map(|c| c.0).collect()
}

/// The four cells that share an edge with `id`, at its level.
pub fn edge_neighbors(id: S2CellId) -> (res: Result<Vec<S2CellId>, CellError>)
    ensures
        is_valid(id@) ==> raw_list(res) == Ok::<Seq<u64>, CellError>(edge_neighbor_cells(id@)),
        !is_valid(id@) ==> res == Err::<Vec<S2CellId>, CellError>(CellError::InvalidIdentifier),
        res matches Ok(cells) ==> cells.len() == 4 && forall|i: int|
            0 <= i < 4 ==> {
                let cell = (#[trigger] cells@[i])@;
                is_valid(cell) && level_spec(cell) == level_spec(id@) && cell != id@
            },
{
    let raw = id.to_u64();
    if !validate(raw) {
        return Err(CellError::InvalidIdentifier);
    }
    let found = edge_neighbor_ids(raw);
    let cells = cells_from_raw(&found);
    proof {
        lemma_range_ends(raw);
        assert forall|i: int| 0 <= i < 4 implies {
            let cell = (#[trigger] cells@[i])@;
            is_valid(cell) && level_spec(cell) == level_spec(raw) && cell != raw
        } by {
            assert(raw_cells(cells@)[i] == cells@[i]@);
            assert(is_cell_beside(raw, level_spec(raw), found@[i]));
            lemma_level_is(found@[i], level_spec(raw));
        }
    }
    Ok(cells)
}

/// The cells of `level` that touch `id` along an edge or at a corner. The level
/// must be no coarser than the cell's own; each level further down doubles the
/// cells along every side, and so the length of the list.
pub fn all_neighbors(id: S2CellId, level: i32) -> (res: Result<Vec<S2CellId>, CellError>)
    ensures
        raw_list(res) == all_neighbors_spec(id@, level as int),
        res matches Ok(cells) ==> forall|i: int|
            0 <= i < cells.len() ==> {
                let cell = (#[trigger] cells@[i])@;
                is_valid(cell) && level_spec(cell) == level && cell != id@
            },
        res matches Ok(cells) ==> (level == level_spec(id@) ==> forall|k: int|
            0 <= k < 4 ==> raw_cells(cells@).contains(#[trigger] edge_neighbor_cells(id@)[k])),
{
    if level < 0 || level > 30 {
        return Err(CellError::InvalidLevel);
    }
    let raw = id.to_u64();
    if !validate(raw) {
        return Err(CellError::InvalidIdentifier);
    }
    let own = raw_level(raw);
    let level = level as u64;
    if level < own {
        return Err(CellError::InvalidLevel);
    }
    let found = neighbor_ids(raw, level);
    let cells = cells_from_raw(&found);
    proof {
        lemma_range_ends(raw);
        assert forall|i: int| 0 <= i < cells.len() implies {
            let cell = (#[trigger] cells@[i])@;
            is_valid(cell) && level_spec(cell) == level && cell != raw
        } by {
            assert(raw_cells(cells@)[i] == cells@[i]@);
            assert(is_cell_beside(raw, level, found@[i]));
            lemma_level_is(found@[i], level);
        }
    }
    Ok(cells)
}

/// The cells of the level of `id` that touch it along an edge or at a corner: the
/// four across its edges and those across its corners.
pub fn default_all_neighbors(id: S2CellId) -> (res: Result<Vec<S2CellId>, CellError>)
    ensures
        is_valid(id@) ==> raw_list(res) == Ok::<Seq<u64>, CellError>(
            neighbor_cells(id@, level_spec(id@)),
        ),
        !is_valid(id@) ==> res == Err::<Vec<S2CellId>, CellError>(CellError::InvalidIdentifier),
        res matches Ok(cells) ==> forall|i: int|
            0 <= i < cells.len() ==> {
                let cell = (#[trigger] cells@[i])@;
                is_valid(cell) && level_spec(cell) == level_spec(id@) && cell != id@
            },
        res matches Ok(cells) ==> forall|k: int|
            0 <= k < 4 ==> raw_cells(cells@).contains(#[trigger] edge_neighbor_cells(id@)[k]),
{
    let raw = id.to_u64();
    if !validate(raw) {
        return Err(CellError::InvalidIdentifier);
    }
    let own = raw_level(raw);
    all_neighbors(id, own as i32)
}

} // verus!
