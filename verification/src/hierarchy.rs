use vstd::prelude::*;
use crate::cellid::{
    face_spec, has_level, is_valid, lemma_level_is, level_spec, lowest_bit, lowest_set_bit,
    marker_of, raw_level, raw_result, validate, S2CellId,
};
use crate::error::CellError;

verus! {

/// The ancestor of `raw` at `level`: the bits above that level's marker, then the marker.
pub open spec fn parent_spec(raw: u64, level: u64) -> u64 {
    (raw & !(marker_of(level) | (marker_of(level) - 1) as u64)) | marker_of(level)
}

/// The smallest identifier among the leaf cells below `raw`.
pub open spec fn range_min_spec(raw: u64) -> int {
    raw - (lowest_set_bit(raw) - 1)
}

/// The largest identifier among the leaf cells below `raw`.
pub open spec fn range_max_spec(raw: u64) -> int {
    raw + (lowest_set_bit(raw) - 1)
}

/// The first descendant of `raw` at `level` along the curve.
pub open spec fn child_begin_spec(raw: u64, level: u64) -> int {
    raw - lowest_set_bit(raw) + marker_of(level)
}

/// The distance between two neighbouring cells of `level` along the curve.
pub open spec fn child_step_spec(level: u64) -> int {
    2 * marker_of(level)
}

/// How many descendants a cell of level `own` has at `level`: four to the power of
/// the difference.
pub open spec fn child_count_spec(own: u64, level: u64) -> u64 {
    1u64 << ((2 * (level - own)) as u64)
}

/// The descendants of `raw` at `level`, in curve order.
pub open spec fn children_spec(raw: u64, level: u64) -> Seq<u64> {
    Seq::new(
        child_count_spec(level_spec(raw), level) as nat,
        |i: int| (child_begin_spec(raw, level) + i * child_step_spec(level)) as u64,
    )
}

/// The place of `cell` among the descendants of its ancestor at `level`.
pub open spec fn child_index_spec(cell: u64, level: u64) -> u64 {
    (((cell - child_begin_spec(parent_spec(cell, level), level_spec(cell))) as u64) >> ((61 - 2
        * level_spec(cell)) as u64))
}

/// What `parent_at_level` answers for a raw identifier and a level.
pub open spec fn parent_at_level_spec(raw: u64, level: int) -> Result<u64, CellError> {
    if level < 0 || level > 30 {
        Err(CellError::InvalidLevel)
    } else if !is_valid(raw) {
        Err(CellError::InvalidIdentifier)
    } else if level > level_spec(raw) {
        Err(CellError::InvalidLevel)
    } else {
        Ok(parent_spec(raw, level as u64))
    }
}

/// What `default_parent` answers: the ancestor one level up.
pub open spec fn default_parent_spec(raw: u64) -> Result<u64, CellError> {
    if !is_valid(raw) {
        Err(CellError::InvalidIdentifier)
    } else if level_spec(raw) == 0 {
        Err(CellError::InvalidLevel)
    } else {
        Ok(parent_spec(raw, (level_spec(raw) - 1) as u64))
    }
}

/// What `range_min` answers.
pub open spec fn range_min_result(raw: u64) -> Result<u64, CellError> {
    if is_valid(raw) {
        Ok(range_min_spec(raw) as u64)
    } else {
        Err(CellError::InvalidIdentifier)
    }
}

/// What `range_max` answers.
pub open spec fn range_max_result(raw: u64) -> Result<u64, CellError> {
    if is_valid(raw) {
        Ok(range_max_spec(raw) as u64)
    } else {
        Err(CellError::InvalidIdentifier)
    }
}

/// What `children_at_level` answers for a raw identifier and a level.
pub open spec fn children_at_level_spec(raw: u64, level: int) -> Result<Seq<u64>, CellError> {
    if level < 0 || level > 30 {
        Err(CellError::InvalidLevel)
    } else if !is_valid(raw) {
        Err(CellError::InvalidIdentifier)
    } else if level <= level_spec(raw) {
        Err(CellError::InvalidLevel)
    } else {
        Ok(children_spec(raw, level as u64))
    }
}

/// What `default_children` answers: the four cells one level down.
pub open spec fn default_children_spec(raw: u64) -> Result<Seq<u64>, CellError> {
    if !is_valid(raw) {
        Err(CellError::InvalidIdentifier)
    } else if level_spec(raw) == 30 {
        Err(CellError::InvalidLevel)
    } else {
        Ok(children_spec(raw, (level_spec(raw) + 1) as u64))
    }
}

proof fn lemma_parent_bits(raw: u64, own: u64, level: u64)
    by (bit_vector)
    requires
        has_level(raw, own),
        level <= own,
    ensures
        has_level(parent_spec(raw, level), level),
        face_spec(parent_spec(raw, level)) == face_spec(raw),
        level == own ==> parent_spec(raw, level) == raw,
{
}

proof fn lemma_range_bits(raw: u64, own: u64)
    by (bit_vector)
    requires
        has_level(raw, own),
        face_spec(raw) < 6,
    ensures
        1 <= range_min_spec(raw) <= raw,
        raw <= range_max_spec(raw) < 0xC000_0000_0000_0000,
        has_level(range_min_spec(raw) as u64, 30),
        has_level(range_max_spec(raw) as u64, 30),
        face_spec(range_min_spec(raw) as u64) == face_spec(raw),
        face_spec(range_max_spec(raw) as u64) == face_spec(raw),
        parent_spec(range_min_spec(raw) as u64, own) == raw,
        parent_spec(range_max_spec(raw) as u64, own) == raw,
{
}

proof fn lemma_descendant_bits(ancestor: u64, level: u64, cell: u64, own: u64)
    by (bit_vector)
    requires
        has_level(ancestor, level),
        has_level(cell, own),
        level <= own,
    ensures
        parent_spec(cell, level) == ancestor <==> range_min_spec(ancestor) <= cell
            <= range_max_spec(ancestor),
{
}

/// Going up in two steps is going up in one, for any word: the ancestor at a
/// level of the ancestor at a finer level is the ancestor at the level.
pub proof fn lemma_parent_steps(raw: u64, mid: u64, level: u64)
    by (bit_vector)
    requires
        level <= mid <= 30,
    ensures
        parent_spec(parent_spec(raw, mid), level) == parent_spec(raw, level),
{
}

/// The ancestor of a well-formed cell at a level no finer than its own is a
/// well-formed cell of that level on the same face; at its own level it is the
/// cell itself.
pub proof fn lemma_parent_is_cell(raw: u64, level: u64)
    requires
        is_valid(raw),
        level <= level_spec(raw),
    ensures
        is_valid(parent_spec(raw, level)),
        level_spec(parent_spec(raw, level)) == level,
        face_spec(parent_spec(raw, level)) == face_spec(raw),
        level == level_spec(raw) ==> parent_spec(raw, level) == raw,
{
    lemma_parent_bits(raw, level_spec(raw), level);
    lemma_level_is(parent_spec(raw, level), level);
}

/// The ancestor of an ancestor is the ancestor.
pub proof fn lemma_parent_of_parent(raw: u64, mid: u64, level: u64)
    requires
        is_valid(raw),
        level <= mid <= level_spec(raw),
    ensures
        parent_spec(parent_spec(raw, mid), level) == parent_spec(raw, level),
{
    lemma_parent_steps(raw, mid, level);
}

/// The two ends of a cell's leaf range are leaf cells of that cell, and the cell
/// lies between them; the range ends below the first face that does not exist.
pub proof fn lemma_range_ends(raw: u64)
    requires
        is_valid(raw),
    ensures
        0 < range_min_spec(raw) <= raw <= range_max_spec(raw) < 0xC000_0000_0000_0000,
        is_valid(range_min_spec(raw) as u64),
        is_valid(range_max_spec(raw) as u64),
        level_spec(range_min_spec(raw) as u64) == 30,
        level_spec(range_max_spec(raw) as u64) == 30,
        parent_spec(range_min_spec(raw) as u64, level_spec(raw)) == raw,
        parent_spec(range_max_spec(raw) as u64, level_spec(raw)) == raw,
{
    lemma_range_bits(raw, level_spec(raw));
    lemma_level_is(range_min_spec(raw) as u64, 30);
    lemma_level_is(range_max_spec(raw) as u64, 30);
}

/// A cell descends from `ancestor` exactly when it lies in the leaf range of
/// `ancestor`: so the ancestor at a level is the one cell of that level whose
/// range holds the cell.
pub proof fn lemma_ancestor_is_unique(ancestor: u64, cell: u64)
    requires
        is_valid(ancestor),
        is_valid(cell),
        level_spec(ancestor) <= level_spec(cell),
    ensures
        parent_spec(cell, level_spec(ancestor)) == ancestor <==> range_min_spec(ancestor) <= cell
            <= range_max_spec(ancestor),
{
    lemma_descendant_bits(ancestor, level_spec(ancestor), cell, level_spec(cell));
}

/// The leaf range of a cell lies inside the leaf range of each of its ancestors.
pub proof fn lemma_range_nested(raw: u64, level: u64)
    requires
        is_valid(raw),
        level <= level_spec(raw),
    ensures
        range_min_spec(parent_spec(raw, level)) <= range_min_spec(raw),
        range_min_spec(raw) <= range_max_spec(raw),
        range_max_spec(raw) <= range_max_spec(parent_spec(raw, level)),
{
    let own = level_spec(raw);
    let ancestor = parent_spec(raw, level);
    let lo = range_min_spec(raw) as u64;
    let hi = range_max_spec(raw) as u64;
    lemma_range_ends(raw);
    lemma_parent_is_cell(raw, level);
    lemma_parent_steps(lo, own, level);
    lemma_parent_steps(hi, own, level);
    lemma_descendant_bits(ancestor, level, lo, 30);
    lemma_descendant_bits(ancestor, level, hi, 30);
}

proof fn lemma_child_bits(raw: u64, own: u64, level: u64, i: u64)
    by (bit_vector)
    requires
        has_level(raw, own),
        face_spec(raw) < 6,
        own < level <= 30,
        i < child_count_spec(own, level),
    ensures
        0 < child_begin_spec(raw, level) + i * child_step_spec(level) < 0xC000_0000_0000_0000,
        has_level((child_begin_spec(raw, level) + i * child_step_spec(level)) as u64, level),
        parent_spec((child_begin_spec(raw, level) + i * child_step_spec(level)) as u64, own)
            == raw,
{
}

proof fn lemma_child_index_bits(cell: u64, own: u64, level: u64, i: u64)
    by (bit_vector)
    requires
        has_level(cell, own),
        level < own,
        i == ((cell - child_begin_spec(parent_spec(cell, level), own)) as u64) >> ((61 - 2
            * own) as u64),
    ensures
        i < child_count_spec(level, own),
        child_begin_spec(parent_spec(cell, level), own) + i * child_step_spec(own) == cell,
{
}

proof fn lemma_child_count_bits(own: u64, level: u64)
    by (bit_vector)
    requires
        own < level <= 30,
    ensures
        4 <= child_count_spec(own, level) <= 0x1000_0000_0000_0000,
        level == own + 1 ==> child_count_spec(own, level) == 4,
        1 <= marker_of(level) <= 0x0400_0000_0000_0000,
{
}

/// Every descendant that `children_spec` lists is a well-formed cell of the asked
/// level whose ancestor at the level of `raw` is `raw`, and the list goes up along
/// the curve.
pub proof fn lemma_children_are_descendants(raw: u64, level: u64)
    requires
        is_valid(raw),
        level_spec(raw) < level <= 30,
    ensures
        children_spec(raw, level).len() == child_count_spec(level_spec(raw), level),
        level == level_spec(raw) + 1 ==> children_spec(raw, level).len() == 4,
        forall|i: int|
            0 <= i < children_spec(raw, level).len() ==> {
                let child = #[trigger] children_spec(raw, level)[i];
                &&& child == child_begin_spec(raw, level) + i * child_step_spec(level)
                &&& is_valid(child)
                &&& level_spec(child) == level
                &&& parent_spec(child, level_spec(raw)) == raw
            },
        forall|i: int, j: int|
            0 <= i < j < children_spec(raw, level).len() ==> #[trigger] children_spec(raw, level)[i]
                < #[trigger] children_spec(raw, level)[j],
{
    let own = level_spec(raw);
    let list = children_spec(raw, level);
    let begin = child_begin_spec(raw, level);
    let step = child_step_spec(level);
    lemma_child_count_bits(own, level);
    assert forall|i: int| 0 <= i < list.len() implies {
        let child = #[trigger] list[i];
        &&& child == begin + i * step
        &&& is_valid(child)
        &&& level_spec(child) == level
        &&& parent_spec(child, own) == raw
    } by {
        lemma_child_bits(raw, own, level, i as u64);
        let child = (begin + i * step) as u64;
        lemma_parent_bits(child, level, own);
        lemma_level_is(child, level);
    }
    assert forall|i: int, j: int| 0 <= i < j < list.len() implies #[trigger] list[i]
        < #[trigger] list[j] by {
        assert(i * step < j * step) by (nonlinear_arith)
            requires
                i < j,
                step > 0,
        ;
    }
}

/// A cell stands exactly once among the descendants, at its own level, of each of
/// its proper ancestors: at the place `child_index_spec` and nowhere else.
pub proof fn lemma_child_listed_once(cell: u64, level: u64)
    requires
        is_valid(cell),
        level < level_spec(cell),
    ensures
        0 <= child_index_spec(cell, level) < children_spec(
            parent_spec(cell, level),
            level_spec(cell),
        ).len(),
        children_spec(parent_spec(cell, level), level_spec(cell))[child_index_spec(
            cell,
            level,
        ) as int] == cell,
        forall|j: int|
            0 <= j < children_spec(parent_spec(cell, level), level_spec(cell)).len()
                && #[trigger] children_spec(parent_spec(cell, level), level_spec(cell))[j] == cell
                ==> j == child_index_spec(cell, level),
{
    let own = level_spec(cell);
    let ancestor = parent_spec(cell, level);
    let at = child_index_spec(cell, level);
    let list = children_spec(ancestor, own);
    lemma_parent_is_cell(cell, level);
    lemma_child_index_bits(cell, own, level, at);
    lemma_children_are_descendants(ancestor, own);
    assert(list[at as int] == cell);
    assert forall|j: int| 0 <= j < list.len() && #[trigger] list[j] == cell implies j == at by {
        if j < at {
            assert(list[j] < list[at as int]);
        } else if j > at {
            assert(list[at as int] < list[j]);
        }
    }
}

/// The ancestor one level up of a cell below the faces is the one cell of that
/// level whose leaf range holds the cell, and the cell stands exactly once among
/// the four children of that ancestor.
pub proof fn lemma_parent_lists_cell_once(raw: u64)
    requires
        is_valid(raw),
        level_spec(raw) > 0,
    ensures
        ({
            let own = level_spec(raw);
            let up = (own - 1) as u64;
            let parent = parent_spec(raw, up);
            let at = child_index_spec(raw, up) as int;
            &&& default_parent_spec(raw) == Ok::<u64, CellError>(parent)
            &&& parent_at_level_spec(raw, own - 1) == Ok::<u64, CellError>(parent)
            &&& forall|other: u64|
                #[trigger] is_valid(other) && level_spec(other) == up && range_min_spec(other)
                    <= raw <= range_max_spec(other) ==> other == parent
            &&& range_min_spec(parent) <= raw <= range_max_spec(parent)
            &&& children_at_level_spec(parent, own as int) == Ok::<Seq<u64>, CellError>(
                children_spec(parent, own),
            )
            &&& default_children_spec(parent) == Ok::<Seq<u64>, CellError>(
                children_spec(parent, own),
            )
            &&& children_spec(parent, own).len() == 4
            &&& 0 <= at < 4
            &&& children_spec(parent, own)[at] == raw
            &&& forall|j: int|
                0 <= j < 4 && #[trigger] children_spec(parent, own)[j] == raw ==> j == at
        }),
{
    let own = level_spec(raw);
    let up = (own - 1) as u64;
    let parent = parent_spec(raw, up);
    lemma_parent_is_cell(raw, up);
    lemma_child_listed_once(raw, up);
    lemma_children_are_descendants(parent, own);
    lemma_ancestor_is_unique(parent, raw);
    assert forall|other: u64|
        #[trigger] is_valid(other) && level_spec(other) == up && range_min_spec(other) <= raw
            <= range_max_spec(other) implies other == parent by {
        lemma_ancestor_is_unique(other, raw);
    }
}

/// The marker bit of `level`.
fn marker(level: u64) -> (m: u64)
    requires
        level <= 30,
    ensures
        m == marker_of(level),
        1 <= m <= 0x1000_0000_0000_0000,
{
    let shift = 60 - 2 * level;
    let m = 1u64 << shift;
    assert(1 <= m <= 0x1000_0000_0000_0000) by (bit_vector)
        requires
            shift <= 60,
            m == 1u64 << shift,
    ;
    m
}

/// The ancestor at `level` of any word: the bits above that level's marker, then
/// the marker.
pub(crate) fn raw_parent(raw: u64, level: u64) -> (parent: u64)
    requires
        level <= 30,
    ensures
        parent == parent_spec(raw, level),
        has_level(parent, level),
{
    let m = marker(level);
    let parent = (raw & !(m - 1)) | m;
    assert(parent == parent_spec(raw, level) && has_level(parent, level)) by (bit_vector)
        requires
            level <= 30,
            m == marker_of(level),
            parent == (raw & !((m - 1) as u64)) | m,
    ;
    parent
}

/// The ancestor of `id` at `level`. The level must lie in `0..=30` and be no finer
/// than the cell's own.
pub fn parent_at_level(id: S2CellId, level: i32) -> (res: Result<S2CellId, CellError>)
    ensures
        raw_result(res) == parent_at_level_spec(id@, level as int),
        res matches Ok(parent) ==> is_valid(parent@) && level_spec(parent@) == level,
{
    if level < 0 || level > 30 {
        return Err(CellError::InvalidLevel);
    }
    let raw = id.to_u64();
    if !validate(raw) {
        return Err(CellError::InvalidIdentifier);
    }
    let own = raw_level(raw);
    let level = level as u64;
    if level > own {
        return Err(CellError::InvalidLevel);
    }
    proof {
        lemma_parent_is_cell(raw, level);
    }
    Ok(S2CellId::from_u64(raw_parent(raw, level)))
}

/// The ancestor of `id` one level up; a face cell has none.
pub fn default_parent(id: S2CellId) -> (res: Result<S2CellId, CellError>)
    ensures
        raw_result(res) == default_parent_spec(id@),
        res matches Ok(parent) ==> is_valid(parent@) && level_spec(parent@) == level_spec(id@) - 1,
{
    let raw = id.to_u64();
    if !validate(raw) {
        return Err(CellError::InvalidIdentifier);
    }
    let own = raw_level(raw);
    if own == 0 {
        return Err(CellError::InvalidLevel);
    }
    parent_at_level(id, own as i32 - 1)
}

/// The smallest leaf identifier below `id`.
pub fn range_min(id: S2CellId) -> (res: Result<S2CellId, CellError>)
    ensures
        raw_result(res) == range_min_result(id@),
{
    let raw = id.to_u64();
    if !validate(raw) {
        return Err(CellError::InvalidIdentifier);
    }
    let lsb = lowest_bit(raw);
    proof {
        lemma_range_ends(raw);
    }
    Ok(S2CellId::from_u64(raw - (lsb - 1)))
}

/// The largest leaf identifier below `id`.
pub fn range_max(id: S2CellId) -> (res: Result<S2CellId, CellError>)
    ensures
        raw_result(res) == range_max_result(id@),
{
    let raw = id.to_u64();
    if !validate(raw) {
        return Err(CellError::InvalidIdentifier);
    }
    let lsb = lowest_bit(raw);
    proof {
        lemma_range_ends(raw);
    }
    Ok(S2CellId::from_u64(raw + (lsb - 1)))
}

/// A cursor over the descendants of a cell at one level, in curve order. It holds
/// three words whatever the number of descendants, hands them out one by one, and
/// can be copied to walk the same cells again.
#[derive(Clone, Copy, Debug)]
pub struct Children {
    next: u64,
    step: u64,
    remaining: u64,
}

impl View for Children {
    type V = Seq<u64>;

    /// The raw identifiers still to come, in the order in which they come.
    closed spec fn view(&self) -> Seq<u64> {
        Seq::new(self.remaining as nat, |i: int| (self.next + i * self.step) as u64)
    }
}

impl Children {
    #[verifier::type_invariant]
    spec fn fits(&self) -> bool {
        self.remaining > 0 ==> self.next + (self.remaining - 1) * self.step <= u64::MAX
    }

    /// How many cells are still to come.
    pub fn remaining(&self) -> (n: u64)
        ensures
            n == self@.len(),
    {
        self.remaining
    }

    /// The cell `index` places ahead, if there are that many; the cursor stays.
    pub fn get(&self, index: u64) -> (out: Option<S2CellId>)
        ensures
            index < self@.len() ==> (out matches Some(id) && id@ == self@[index as int]),
            index >= self@.len() ==> out is None,
    {
        if index >= self.remaining {
            return None;
        }
        proof {
            use_type_invariant(self);
            assert(index * self.step <= (self.remaining - 1) * self.step) by (nonlinear_arith)
                requires
                    index <= self.remaining - 1,
                    self.step >= 0,
            ;
        }
        Some(S2CellId::from_u64(self.next + index * self.step))
    }

    /// Hands out the next cell and moves on; `None` once all have been handed out.
    pub fn next(&mut self) -> (out: Option<S2CellId>)
        ensures
            old(self)@.len() == 0 ==> out is None && final(self)@ == old(self)@,
            old(self)@.len() > 0 ==> (out matches Some(id) && id@ == old(self)@[0]),
            old(self)@.len() > 0 ==> final(self)@ == old(self)@.drop_first(),
    {
        if self.remaining == 0 {
            return None;
        }
        proof {
            use_type_invariant(&*self);
        }
        let ghost before = *self;
        let current = self.next;
        let left = self.remaining - 1;
        let mut following = current;
        if left > 0 {
            assert(self.step <= left * self.step && left * self.step == (left - 1) * self.step
                + self.step) by (nonlinear_arith)
                requires
                    left >= 1,
                    self.step >= 0,
            ;
            following = current + self.step;
        }
        *self = Children { next: following, step: self.step, remaining: left };
        proof {
            assert forall|i: int| 0 <= i < left implies #[trigger] self@[i]
                == before@.drop_first()[i] by {
                assert((i + 1) * before.step == i * before.step + before.step)
                    by (nonlinear_arith);
            }
            assert(self@ =~= before@.drop_first());
        }
        Some(S2CellId::from_u64(current))
    }
}

/// What a result holds, with the cursor, if there is one, as the cells it lists.
pub open spec fn listed(res: Result<Children, CellError>) -> Result<Seq<u64>, CellError> {
    match res {
        Ok(cursor) => Ok(cursor@),
        Err(e) => Err(e),
    }
}

/// The descendants of `id` at `level`, which must be finer than the cell's own,
/// as a cursor in curve order.
pub fn children_at_level(id: S2CellId, level: i32) -> (res: Result<Children, CellError>)
    ensures
        listed(res) == children_at_level_spec(id@, level as int),
{
    if level < 0 || level > 30 {
        return Err(CellError::InvalidLevel);
    }
    let raw = id.to_u64();
    if !validate(raw) {
        return Err(CellError::InvalidIdentifier);
    }
    let own = raw_level(raw);
    let level = level as u64;
    if level <= own {
        return Err(CellError::InvalidLevel);
    }
    let lsb = lowest_bit(raw);
    let m = marker(level);
    let count = 1u64 << (2 * (level - own));
    proof {
        lemma_range_ends(raw);
        lemma_child_count_bits(own, level);
        lemma_child_bits(raw, own, level, 0);
        lemma_child_bits(raw, own, level, (count - 1) as u64);
    }
    let cursor = Children { next: raw - lsb + m, step: 2 * m, remaining: count };
    assert(cursor@ =~= children_spec(raw, level));
    Ok(cursor)
}

/// The four cells one level below `id`; a leaf cell has none.
pub fn default_children(id: S2CellId) -> (res: Result<Children, CellError>)
    ensures
        listed(res) == default_children_spec(id@),
{
    let raw = id.to_u64();
    if !validate(raw) {
        return Err(CellError::InvalidIdentifier);
    }
    let own = raw_level(raw);
    if own == 30 {
        return Err(CellError::InvalidLevel);
    }
    children_at_level(id, own as i32 + 1)
}

} // verus!
