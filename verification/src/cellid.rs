use vstd::prelude::*;
use vstd::std_specs::bits::axiom_u64_trailing_zeros;
use crate::error::CellError;

verus! {

/// The number of cube faces.
pub const NUM_FACES: u64 = 6;

/// The sign bit of a 64-bit word: the distance between the raw and the external form.
pub const ORDER_MASK: u64 = 0x8000_0000_0000_0000;

/// The bit positions at which a level marker may stand: the even ones up to bit 60.
pub const MARKER_POSITIONS: u64 = 0x1555_5555_5555_5555;

/// The marker bit of a cell at `level`: bit `60 - 2 * level`.
pub open spec fn marker_of(level: u64) -> u64 {
    1u64 << ((60 - 2 * level) as u64)
}

/// `raw` has its marker where a cell of `level` has it: that bit is set and every
/// bit below it is clear.
pub open spec fn has_level(raw: u64, level: u64) -> bool {
    level <= 30 && raw & (marker_of(level) | (marker_of(level) - 1) as u64) == marker_of(level)
}

/// The face selector: the three highest bits.
pub open spec fn face_spec(raw: u64) -> u64 {
    raw >> 61
}

/// A raw identifier is well formed when its face is one of the six and its lowest
/// set bit is the marker of some level.
pub open spec fn is_valid(raw: u64) -> bool {
    face_spec(raw) < 6 && exists|level: u64| has_level(raw, level)
}

/// The level of a well-formed identifier.
pub open spec fn level_spec(raw: u64) -> u64 {
    choose|level: u64| has_level(raw, level)
}

/// The lowest set bit of `raw` as a word of its own; zero for zero.
pub open spec fn lowest_set_bit(raw: u64) -> u64 {
    raw & ((!raw) + 1) as u64
}

/// The external form of a raw identifier: the raw value moved down by 2^63, so that
/// the unsigned order of raw values is the signed order of external ones.
pub open spec fn to_external_spec(raw: u64) -> int {
    raw - 0x8000_0000_0000_0000
}

/// The raw identifier behind an external value.
pub open spec fn from_external_spec(ext: i64) -> int {
    ext + 0x8000_0000_0000_0000
}

/// A cell has at most one level.
pub proof fn lemma_level_unique(raw: u64, a: u64, b: u64)
    by (bit_vector)
    requires
        has_level(raw, a),
        has_level(raw, b),
    ensures
        a == b,
{
}

/// The level of `raw` is `level` as soon as `raw` has its marker there.
pub proof fn lemma_level_is(raw: u64, level: u64)
    requires
        has_level(raw, level),
    ensures
        level_spec(raw) == level,
{
    lemma_level_unique(raw, level_spec(raw), level);
}

/// Zero is no cell: it has no marker.
pub proof fn lemma_zero_is_no_cell()
    ensures
        !is_valid(0),
{
    assert forall|level: u64| !has_level(0, level) by {
        if has_level(0, level) {
            lemma_marker_is_lowest_set_bit(0, level);
        }
    }
}

/// The marker of a cell is its lowest set bit, and stands at a marker position.
pub proof fn lemma_marker_is_lowest_set_bit(raw: u64, level: u64)
    by (bit_vector)
    requires
        has_level(raw, level),
    ensures
        lowest_set_bit(raw) == marker_of(level),
        lowest_set_bit(raw) & MARKER_POSITIONS != 0,
        raw != 0,
{
}

proof fn lemma_marker_position_has_level(raw: u64, level: u64)
    requires
        lowest_set_bit(raw) & MARKER_POSITIONS != 0,
        level <= 30,
        lowest_set_bit(raw) <= marker_of(level),
    ensures
        exists|k: u64| has_level(raw, k),
    decreases 30 - level,
{
    if lowest_set_bit(raw) == marker_of(level) {
        assert(has_level(raw, level)) by (bit_vector)
            requires
                level <= 30,
                lowest_set_bit(raw) == marker_of(level),
        ;
    } else {
        let next = (level + 1) as u64;
        assert(level < 30 && lowest_set_bit(raw) <= marker_of(next)) by (bit_vector)
            requires
                level <= 30,
                next == level + 1,
                lowest_set_bit(raw) & MARKER_POSITIONS != 0,
                lowest_set_bit(raw) <= marker_of(level),
                lowest_set_bit(raw) != marker_of(level),
        ;
        lemma_marker_position_has_level(raw, next);
    }
}

/// A raw identifier is well formed exactly when its face is one of the six and its
/// lowest set bit stands at a marker position.
pub proof fn lemma_valid_by_lowest_bit(raw: u64)
    ensures
        is_valid(raw) <==> face_spec(raw) < 6 && lowest_set_bit(raw) & MARKER_POSITIONS != 0,
{
    if lowest_set_bit(raw) & MARKER_POSITIONS != 0 {
        assert(lowest_set_bit(raw) <= marker_of(0)) by (bit_vector)
            requires
                lowest_set_bit(raw) & MARKER_POSITIONS != 0,
        ;
        lemma_marker_position_has_level(raw, 0);
    } else {
        assert forall|level: u64| !has_level(raw, level) by {
            if has_level(raw, level) {
                lemma_marker_is_lowest_set_bit(raw, level);
            }
        }
    }
}

/// The lowest set bit of `raw`, by the two's complement of the word.
pub(crate) fn lowest_bit(raw: u64) -> (lsb: u64)
    ensures
        lsb == lowest_set_bit(raw),
{
    let negated = (!raw).wrapping_add(1);
    let lsb = raw & negated;
    assert(lsb == lowest_set_bit(raw)) by (bit_vector)
        requires
            lsb == raw & negated,
            negated == if (!raw) + 1 > 0xffff_ffff_ffff_ffff {
                ((!raw) + 1 - 0x1_0000_0000_0000_0000) as u64
            } else {
                ((!raw) + 1) as u64
            },
    ;
    lsb
}

/// Whether `raw` is a well-formed identifier.
pub fn validate(raw: u64) -> (ok: bool)
    ensures
        ok == is_valid(raw),
{
    let face = raw >> 61;
    if face >= NUM_FACES {
        return false;
    }
    let lsb = lowest_bit(raw);
    proof {
        lemma_valid_by_lowest_bit(raw);
    }
    lsb & MARKER_POSITIONS != 0
}

/// The level of a well-formed raw identifier, read off its trailing zero bits.
pub(crate) fn raw_level(raw: u64) -> (level: u64)
    requires
        is_valid(raw),
    ensures
        level == level_spec(raw),
        has_level(raw, level),
{
    let zeros = raw.trailing_zeros();
    proof {
        let k = level_spec(raw);
        let at = (60 - 2 * k) as u64;
        axiom_u64_trailing_zeros(raw);
        lemma_marker_is_lowest_set_bit(raw, k);
        assert((raw >> at) & 1u64 == 1u64) by (bit_vector)
            requires
                has_level(raw, k),
                at == 60 - 2 * k,
        ;
        let z = zeros as u64;
        assert(z >= at) by (bit_vector)
            requires
                has_level(raw, k),
                at == 60 - 2 * k,
                z < 64,
                (raw >> z) & 1u64 == 1u64,
        ;
        assert(z == at);
    }
    30 - (zeros / 2) as u64
}

/// The face of a raw identifier.
pub(crate) fn raw_face(raw: u64) -> (face: u64)
    ensures
        face == face_spec(raw),
{
    raw >> 61
}

/// The external form of a raw identifier: the same bits with the sign bit flipped.
pub fn to_external(raw: u64) -> (ext: i64)
    ensures
        ext == to_external_spec(raw),
{
    let flipped = raw ^ ORDER_MASK;
    assert((flipped as i64) == raw - 0x8000_0000_0000_0000) by (bit_vector)
        requires
            flipped == raw ^ 0x8000_0000_0000_0000u64,
    ;
    flipped as i64
}

/// The raw identifier behind an external value.
pub fn from_external(ext: i64) -> (raw: u64)
    ensures
        raw == from_external_spec(ext),
{
    let bits = ext as u64;
    assert((bits ^ 0x8000_0000_0000_0000u64) == ext + 0x8000_0000_0000_0000) by (bit_vector)
        requires
            bits == ext as u64,
    ;
    bits ^ ORDER_MASK
}

/// Going to the external form and back gives the raw value again, for every word.
pub proof fn lemma_external_round_trip(raw: u64)
    ensures
        i64::MIN <= to_external_spec(raw) <= i64::MAX,
        from_external_spec(to_external_spec(raw) as i64) == raw,
{
}

/// Going to the raw form and back gives the external value again.
pub proof fn lemma_raw_round_trip(ext: i64)
    ensures
        0 <= from_external_spec(ext) <= u64::MAX,
        to_external_spec(from_external_spec(ext) as u64) == ext,
{
}

/// The external form keeps the order: raw values compare as unsigned words exactly
/// as their external forms compare as signed ones.
pub proof fn lemma_external_order(a: u64, b: u64)
    ensures
        a < b <==> to_external_spec(a) < to_external_spec(b),
        a == b <==> to_external_spec(a) == to_external_spec(b),
{
}

/// A cell identifier in its external form: a signed word that sorts as the raw
/// identifier does.
#[derive(Clone, Copy, Debug, PartialEq, Eq, Structural, PartialOrd, Ord, Hash)]
pub struct S2CellId {
    pub value: i64,
}

impl View for S2CellId {
    type V = u64;

    /// The raw identifier.
    open spec fn view(&self) -> u64 {
        from_external_spec(self.value) as u64
    }
}

impl S2CellId {
    pub fn from_u64(raw: u64) -> (id: S2CellId)
        ensures
            id@ == raw,
            id.value == to_external_spec(raw),
    {
        S2CellId { value: to_external(raw) }
    }

    pub fn to_u64(self) -> (raw: u64)
        ensures
            raw == self@,
    {
        from_external(self.value)
    }

    /// The identifier with the given external value; any word is accepted.
    pub fn from_bigint(value: i64) -> (id: S2CellId)
        ensures
            id.value == value,
    {
        S2CellId { value }
    }

    /// The external value.
    pub fn to_bigint(self) -> (value: i64)
        ensures
            value == self.value,
            value == to_external_spec(self@),
    {
        self.value
    }

    /// Whether this identifier comes before `other` along the curve: the signed
    /// order of the external values is the unsigned order of the raw ones.
    pub fn precedes(self, other: S2CellId) -> (before: bool)
        ensures
            before == (self@ < other@),
            before == (self.value < other.value),
    {
        self.value < other.value
    }
}

/// Whether `id` is a well-formed cell.
pub fn is_valid_cell(id: S2CellId) -> (ok: bool)
    ensures
        ok == is_valid(id@),
{
    validate(id.to_u64())
}

/// The level of `id`, or `InvalidIdentifier`.
pub fn level_of(id: S2CellId) -> (res: Result<i32, CellError>)
    ensures
        is_valid(id@) ==> res == Ok::<i32, CellError>(level_spec(id@) as i32),
        !is_valid(id@) ==> res == Err::<i32, CellError>(CellError::InvalidIdentifier),
        res is Ok ==> 0 <= res->Ok_0 <= 30,
{
    let raw = id.to_u64();
    if !validate(raw) {
        return Err(CellError::InvalidIdentifier);
    }
    Ok(raw_level(raw) as i32)
}

/// The face of `id`, or `InvalidIdentifier`.
pub fn face_of(id: S2CellId) -> (res: Result<i32, CellError>)
    ensures
        is_valid(id@) ==> res == Ok::<i32, CellError>(face_spec(id@) as i32),
        !is_valid(id@) ==> res == Err::<i32, CellError>(CellError::InvalidIdentifier),
        res is Ok ==> 0 <= res->Ok_0 < 6,
{
    let raw = id.to_u64();
    if !validate(raw) {
        return Err(CellError::InvalidIdentifier);
    }
    Ok(raw_face(raw) as i32)
}

/// A result with the identifier, if there is one, as its raw value.
pub open spec fn raw_result(res: Result<S2CellId, CellError>) -> Result<u64, CellError> {
    match res {
        Ok(id) => Ok(id@),
        Err(e) => Err(e),
    }
}

/// The raw identifiers behind a list of cells.
pub open spec fn raw_cells(cells: Seq<S2CellId>) -> Seq<u64> {
    Seq::new(cells.len(), |i: int| cells[i]@)
}

/// A result with the cells, if there are any, as their raw values.
pub open spec fn raw_list(res: Result<Vec<S2CellId>, CellError>) -> Result<Seq<u64>, CellError> {
    match res {
        Ok(cells) => Ok(raw_cells(cells@)),
        Err(e) => Err(e),
    }
}

/// The cells with the given raw identifiers, in the same order.
pub fn cells_from_raw(raw: &Vec<u64>) -> (cells: Vec<S2CellId>)
    ensures
        raw_cells(cells@) == raw@,
{
    let mut cells: Vec<S2CellId> = Vec::new();
    let mut i: usize = 0;
    while i < raw.len()
        invariant
            i <= raw.len(),
            cells.len() == i,
            forall|j: int| 0 <= j < i ==> (#[trigger] cells@[j])@ == raw@[j],
        decreases raw.len() - i,
    {
        cells.push(S2CellId::from_u64(raw[i]));
        i += 1;
    }
    assert(raw_cells(cells@) =~= raw@);
    cells
}

} // verus!
