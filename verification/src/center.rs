use vstd::prelude::*;
use crate::cellid::{
    has_level, is_valid, lemma_level_is, level_spec, raw_level, raw_result, validate, S2CellId,
};
use crate::error::CellError;
use crate::hierarchy::{
    lemma_ancestor_is_unique, lemma_parent_is_cell, lemma_parent_steps, parent_spec,
    range_max_spec, range_min_spec, raw_parent,
};

verus! {

/// The leaf cell in which `s2` finds the centre of the cell `raw`.
pub uninterp spec fn center_leaf_cell(raw: u64) -> u64;

/// What `center_child_at_level` answers for a raw identifier and a level.
pub open spec fn center_child_spec(raw: u64, level: int) -> Result<u64, CellError> {
    if level < 0 || level > 30 {
        Err(CellError::InvalidLevel)
    } else if !is_valid(raw) {
        Err(CellError::InvalidIdentifier)
    } else if level <= level_spec(raw) {
        Err(CellError::InvalidLevel)
    } else {
        Ok(parent_spec(center_leaf_cell(raw), level as u64))
    }
}

/// What `default_center_child` answers: the centre cell one level down.
pub open spec fn default_center_child_spec(raw: u64) -> Result<u64, CellError> {
    if !is_valid(raw) {
        Err(CellError::InvalidIdentifier)
    } else if level_spec(raw) == 30 {
        Err(CellError::InvalidLevel)
    } else {
        Ok(parent_spec(center_leaf_cell(raw), (level_spec(raw) + 1) as u64))
    }
}

/// Trusted: `s2::cell::Cell::center` of the cell, and the leaf cell that
/// `s2::cellid::CellID::from` gives for that point. Building the `Cell` asks for a
/// face below six and reads the level. The centre is the point at which the cell
/// is cut into its four children, and the leaf cell found for a point holds the
/// point: so the leaf is a well-formed leaf cell within the cell.
#[verifier::external_body]
fn center_leaf_id(raw: u64) -> (leaf: u64)
    requires
        is_valid(raw),
    ensures
        leaf == center_leaf_cell(raw),
        is_valid(leaf),
        has_level(leaf, 30),
        range_min_spec(raw) <= leaf <= range_max_spec(raw),
{
    let center = s2::cell::Cell::from(s2::cellid::CellID(raw)).center();
    s2::cellid::CellID::from(center).0
}

/// The cell of `level` that holds the centre of `id`: the ancestor at that level
/// of the leaf cell found at the centre, which is a descendant of `id`. The level
/// must be finer than the cell's own.
pub fn center_child_at_level(id: S2CellId, level: i32) -> (res: Result<S2CellId, CellError>)
    ensures
        raw_result(res) == center_child_spec(id@, level as int),
        res matches Ok(child) ==> {
            &&& is_valid(child@)
            &&& level_spec(child@) == level
            &&& parent_spec(child@, level_spec(id@)) == id@
        },
{
    if level < 0 || level > 30 {
        return Err(CellError::InvalidLevel);
    }
    let raw = id.to_u64();
    if !validate(raw) {
        return Err(CellError::InvalidIdentifier);
    }
    let own = raw_level(raw);
    let level = level as u64;
    if level <= own {
        return Err(CellError::InvalidLevel);
    }
    let leaf = center_leaf_id(raw);
    proof {
        lemma_level_is(leaf, 30);
        lemma_ancestor_is_unique(raw, leaf);
        lemma_parent_is_cell(leaf, level);
        lemma_parent_steps(leaf, level, own);
    }
    Ok(S2CellId::from_u64(raw_parent(leaf, level)))
}

/// The cell one level below `id` that holds its centre; a leaf cell has none.
pub fn default_center_child(id: S2CellId) -> (res: Result<S2CellId, CellError>)
    ensures
        raw_result(res) == default_center_child_spec(id@),
        res matches Ok(child) ==> {
            &&& is_valid(child@)
            &&& level_spec(child@) == level_spec(id@) + 1
            &&& parent_spec(child@, level_spec(id@)) == id@
        },
{
    let raw = id.to_u64();
    if !validate(raw) {
        return Err(CellError::InvalidIdentifier);
    }
    let own = raw_level(raw);
    if own == 30 {
        return Err(CellError::InvalidLevel);
    }
    center_child_at_level(id, own as i32 + 1)
}

} // verus!
