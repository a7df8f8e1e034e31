use vstd::prelude::*;
use crate::cellid::{is_valid, lemma_zero_is_no_cell, raw_result, validate, S2CellId};
use crate::error::CellError;

verus! {

/// Whether `c` is a digit of base 16, in either case.
pub open spec fn is_hex_digit(c: char) -> bool {
    ('0' <= c && c <= '9') || ('a' <= c && c <= 'f') || ('A' <= c && c <= 'F')
}

/// Whether `c` is a digit of base 16 as a token writes it: `0` to `9`, `a` to `f`.
pub open spec fn is_token_digit(c: char) -> bool {
    ('0' <= c && c <= '9') || ('a' <= c && c <= 'f')
}

/// The value of a base-16 digit.
pub open spec fn hex_digit_value(c: char) -> int {
    if '0' <= c && c <= '9' {
        c as int - '0' as int
    } else if 'a' <= c && c <= 'f' {
        c as int - 'a' as int + 10
    } else {
        c as int - 'A' as int + 10
    }
}

/// The lower-case digit of base 16 with value `d`.
pub open spec fn hex_char(d: u64) -> char {
    if d < 10 {
        ('0' as int + d) as char
    } else {
        ('a' as int + d - 10) as char
    }
}

/// Whether every character of `s` is a digit of base 16.
pub open spec fn is_hex_digits(s: Seq<char>) -> bool {
    forall|i: int| 0 <= i < s.len() ==> is_hex_digit(#[trigger] s[i])
}

/// The number that the digits of `s` write in base 16, first digit highest.
pub open spec fn hex_value(s: Seq<char>) -> nat
    decreases s.len(),
{
    if s.len() == 0 {
        0
    } else {
        (16 * hex_value(s.drop_last()) + hex_digit_value(s.last())) as nat
    }
}

/// What reading `s` as an unsigned 64-bit number in base 16 gives: an optional `+`,
/// then at least one digit and nothing else, and a value that fits.
pub open spec fn parse_hex_u64(s: Seq<char>) -> Option<u64> {
    let digits = if s.len() > 0 && s[0] == '+' {
        s.drop_first()
    } else {
        s
    };
    if digits.len() > 0 && is_hex_digits(digits) && hex_value(digits) <= u64::MAX {
        Some(hex_value(digits) as u64)
    } else {
        None
    }
}

/// The raw identifier that a token stands for: the number read in base 16, moved up
/// so that a token shorter than 16 characters gives the highest digits; zero for a
/// text that is no such number.
pub open spec fn token_value(s: Seq<char>) -> u64 {
    match parse_hex_u64(s) {
        None => 0,
        Some(v) => if s.len() < 16 {
            v << ((4 * (16 - s.len())) as u64)
        } else {
            v
        },
    }
}

/// The `i`-th of the sixteen base-16 digits of `raw`, the highest first.
pub open spec fn nibble(raw: u64, i: int) -> u64 {
    (raw >> ((60 - 4 * i) as u64)) & 0xf
}

/// `raw` written with sixteen lower-case digits of base 16.
pub open spec fn hex16(raw: u64) -> Seq<char> {
    Seq::new(16, |i: int| hex_char(nibble(raw, i)))
}

/// `s` without the `0` characters at its end.
pub open spec fn trim_zeros(s: Seq<char>) -> Seq<char>
    decreases s.len(),
{
    if s.len() > 0 && s.last() == '0' {
        trim_zeros(s.drop_last())
    } else {
        s
    }
}

/// The token of a raw identifier: its sixteen digits without the zeros at the end,
/// and `X` for zero.
pub open spec fn token_of(raw: u64) -> Seq<char> {
    if raw == 0 {
        seq!['X']
    } else {
        trim_zeros(hex16(raw))
    }
}

/// A token as `token_of` writes it: one to sixteen lower-case digits, the last of
/// them not `0`.
pub open spec fn is_canonical_token(s: Seq<char>) -> bool {
    &&& 1 <= s.len() <= 16
    &&& forall|i: int| 0 <= i < s.len() ==> is_token_digit(#[trigger] s[i])
    &&& s.last() != '0'
}

/// What `format_token` answers for a raw identifier.
pub open spec fn format_token_spec(raw: u64) -> Result<Seq<char>, CellError> {
    if is_valid(raw) {
        Ok(token_of(raw))
    } else {
        Err(CellError::InvalidIdentifier)
    }
}

/// A result with the text, if there is one, as the characters it holds.
pub open spec fn text_result(res: Result<String, CellError>) -> Result<Seq<char>, CellError> {
    match res {
        Ok(text) => Ok(text@),
        Err(e) => Err(e),
    }
}

/// What `parse_token` answers for a text.
pub open spec fn parse_token_spec(s: Seq<char>) -> Result<u64, CellError> {
    if is_valid(token_value(s)) {
        Ok(token_value(s))
    } else {
        Err(CellError::InvalidToken)
    }
}

proof fn lemma_hex_char(d: u64)
    requires
        d < 16,
    ensures
        is_token_digit(hex_char(d)),
        is_hex_digit(hex_char(d)),
        hex_digit_value(hex_char(d)) == d,
        hex_char(d) == '0' <==> d == 0,
        hex_char(d) != '+',
{
}

proof fn lemma_token_digit(c: char)
    requires
        is_token_digit(c),
    ensures
        is_hex_digit(c),
        0 <= hex_digit_value(c) < 16,
        hex_char(hex_digit_value(c) as u64) == c,
        c != '+',
{
}

proof fn lemma_prefix_value_bits(raw: u64, shift: u64)
    by (bit_vector)
    requires
        shift <= 60,
    ensures
        shift == 60 ==> (raw >> shift) & 0xf == raw >> shift,
        shift <= 56 ==> 16 * (raw >> ((shift + 4) as u64)) + ((raw >> shift) & 0xf) == raw
            >> shift,
        (raw >> shift) & 0xf < 16,
        raw >> 0u64 == raw,
        (raw >> 0u64) << 0u64 == raw,
{
}

/// The first `k` digits of `hex16(raw)` write the highest `4 * k` bits of `raw`.
proof fn lemma_prefix_value(raw: u64, k: int)
    requires
        1 <= k <= 16,
    ensures
        is_hex_digits(hex16(raw).take(k)),
        hex_value(hex16(raw).take(k)) == raw >> ((64 - 4 * k) as u64),
    decreases k,
{
    let digits = hex16(raw);
    let prefix = digits.take(k);
    let shift = (64 - 4 * k) as u64;
    lemma_prefix_value_bits(raw, shift);
    lemma_hex_char(nibble(raw, k - 1));
    assert(prefix.last() == hex_char(nibble(raw, k - 1)));
    assert(nibble(raw, k - 1) == (raw >> shift) & 0xf);
    if k == 1 {
        assert(prefix.drop_last() =~= Seq::<char>::empty());
        assert(hex_value(prefix.drop_last()) == 0);
    } else {
        lemma_prefix_value(raw, k - 1);
        assert(prefix.drop_last() =~= digits.take(k - 1));
    }
    assert forall|i: int| 0 <= i < prefix.len() implies is_hex_digit(#[trigger] prefix[i]) by {
        lemma_prefix_value_bits(raw, (60 - 4 * i) as u64);
        lemma_hex_char(nibble(raw, i));
    }
}

/// What `trim_zeros` leaves is a prefix; all it drops is `0`; what it leaves does
/// not end in `0`.
proof fn lemma_trim_zeros(s: Seq<char>)
    ensures
        trim_zeros(s).len() <= s.len(),
        trim_zeros(s) == s.take(trim_zeros(s).len() as int),
        forall|i: int| trim_zeros(s).len() <= i < s.len() ==> #[trigger] s[i] == '0',
        trim_zeros(s).len() > 0 ==> trim_zeros(s).last() != '0',
    decreases s.len(),
{
    if s.len() > 0 && s.last() == '0' {
        lemma_trim_zeros(s.drop_last());
        let kept = trim_zeros(s).len() as int;
        assert(s.drop_last().take(kept) =~= s.take(kept));
        assert forall|i: int| kept <= i < s.len() implies #[trigger] s[i] == '0' by {
            if i < s.len() - 1 {
                assert(s.drop_last()[i] == '0');
            }
        }
    } else {
        assert(s.take(s.len() as int) =~= s);
    }
}

/// Zeros put behind a text that does not end in `0` are all that `trim_zeros` drops.
proof fn lemma_trim_zeros_of_padded(s: Seq<char>, t: Seq<char>)
    requires
        t.len() <= s.len(),
        s.take(t.len() as int) == t,
        forall|i: int| t.len() <= i < s.len() ==> #[trigger] s[i] == '0',
        t.len() > 0 ==> t.last() != '0',
    ensures
        trim_zeros(s) == t,
    decreases s.len(),
{
    if s.len() == t.len() {
        assert(s.take(s.len() as int) =~= s);
    } else {
        assert(s.last() == '0');
        assert(s.drop_last().take(t.len() as int) =~= s.take(t.len() as int));
        lemma_trim_zeros_of_padded(s.drop_last(), t);
    }
}

/// The lowest `4 * count` bits of `raw` are clear.
spec fn low_digits_clear(raw: u64, count: int) -> bool {
    if count >= 16 {
        raw == 0
    } else {
        (raw >> ((4 * count) as u64)) << ((4 * count) as u64) == raw
    }
}

proof fn lemma_low_digits_clear_bits(raw: u64, count: u64)
    by (bit_vector)
    requires
        1 <= count <= 16,
        (raw >> ((4 * (count - 1)) as u64)) << ((4 * (count - 1)) as u64) == raw,
        (raw >> ((4 * (count - 1)) as u64)) & 0xf == 0,
    ensures
        count <= 15 ==> (raw >> ((4 * count) as u64)) << ((4 * count) as u64) == raw,
        count == 16 ==> raw == 0,
{
}

proof fn lemma_low_digits_clear(raw: u64, count: int)
    requires
        0 <= count <= 16,
        forall|i: int| 16 - count <= i < 16 ==> #[trigger] nibble(raw, i) == 0,
    ensures
        low_digits_clear(raw, count),
    decreases count,
{
    if count == 0 {
        lemma_prefix_value_bits(raw, 0);
    } else {
        lemma_low_digits_clear(raw, count - 1);
        assert(nibble(raw, 16 - count) == 0);
        lemma_low_digits_clear_bits(raw, count as u64);
    }
}

/// Reading the token of any raw identifier gives that identifier again, whatever
/// its highest bit; zero, which has the token `X`, included.
pub proof fn lemma_token_round_trip(raw: u64)
    ensures
        token_value(token_of(raw)) == raw,
{
    if raw == 0 {
        let text = seq!['X'];
        assert(text[0] == 'X');
        assert(!is_hex_digit(text[0]));
        assert(parse_hex_u64(text) is None);
    } else {
        let digits = hex16(raw);
        let text = trim_zeros(digits);
        let n = text.len() as int;
        lemma_trim_zeros(digits);
        assert forall|i: int| n <= i < 16 implies #[trigger] nibble(raw, i) == 0 by {
            lemma_prefix_value_bits(raw, (60 - 4 * i) as u64);
            lemma_hex_char(nibble(raw, i));
            assert(digits[i] == '0');
        }
        lemma_low_digits_clear(raw, 16 - n);
        assert(n >= 1);
        lemma_prefix_value(raw, n);
        lemma_prefix_value_bits(raw, 60);
        lemma_hex_char(nibble(raw, 0));
        assert(text[0] == digits[0]);
        assert(parse_hex_u64(text) == Some(raw >> ((64 - 4 * n) as u64)));
    }
}

/// What `format_token` writes for a cell, `parse_token` reads as that cell.
pub proof fn lemma_format_then_parse(raw: u64)
    requires
        format_token_spec(raw) is Ok,
    ensures
        parse_token_spec(format_token_spec(raw)->Ok_0) == Ok::<u64, CellError>(raw),
{
    lemma_token_round_trip(raw);
}

/// The token of a non-zero identifier is canonical.
pub proof fn lemma_token_is_canonical(raw: u64)
    requires
        raw != 0,
    ensures
        is_canonical_token(token_of(raw)),
{
    let digits = hex16(raw);
    let text = trim_zeros(digits);
    lemma_trim_zeros(digits);
    if text.len() == 0 {
        assert forall|i: int| 0 <= i < 16 implies #[trigger] nibble(raw, i) == 0 by {
            lemma_prefix_value_bits(raw, (60 - 4 * i) as u64);
            lemma_hex_char(nibble(raw, i));
            assert(digits[i] == '0');
        }
        lemma_low_digits_clear(raw, 16);
    }
    assert forall|i: int| 0 <= i < text.len() implies is_token_digit(#[trigger] text[i]) by {
        lemma_prefix_value_bits(raw, (60 - 4 * i) as u64);
        lemma_hex_char(nibble(raw, i));
        assert(text[i] == digits[i]);
    }
}

proof fn lemma_digit_value_bits(high: u64, digit: u64, count: u64, at: u64)
    by (bit_vector)
    requires
        1 <= count <= 16,
        high >> ((4 * (count - 1)) as u64) == 0,
        digit < 16,
        at < count,
    ensures
        16 * high + digit <= 0xffff_ffff_ffff_ffff,
        count < 16 ==> ((16 * high + digit) as u64) >> ((4 * count) as u64) == 0,
        at == 0 ==> (((16 * high + digit) as u64) >> ((4 * at) as u64)) & 0xf == digit,
        at > 0 ==> (((16 * high + digit) as u64) >> ((4 * at) as u64)) & 0xf == (high >> ((4 * (at
            - 1)) as u64)) & 0xf,
{
}

/// The digits of a text of at most sixteen digits are the digits of its value.
proof fn lemma_value_digits(s: Seq<char>)
    requires
        s.len() <= 16,
        forall|i: int| 0 <= i < s.len() ==> is_token_digit(#[trigger] s[i]),
    ensures
        is_hex_digits(s),
        hex_value(s) <= u64::MAX,
        s.len() < 16 ==> (hex_value(s) as u64) >> ((4 * s.len()) as u64) == 0,
        forall|i: int|
            0 <= i < s.len() ==> ((hex_value(s) as u64) >> ((4 * (s.len() - 1 - i)) as u64)) & 0xf
                == hex_digit_value(#[trigger] s[i]),
    decreases s.len(),
{
    let n = s.len() as int;
    assert forall|i: int| 0 <= i < n implies is_hex_digit(#[trigger] s[i]) by {
        lemma_token_digit(s[i]);
    }
    if n == 0 {
        lemma_prefix_value_bits(0, 0);
    } else {
        let front = s.drop_last();
        let high = hex_value(front) as u64;
        let digit = hex_digit_value(s.last()) as u64;
        lemma_token_digit(s.last());
        assert forall|i: int| 0 <= i < front.len() implies is_token_digit(#[trigger] front[i]) by {
            assert(front[i] == s[i]);
        }
        lemma_value_digits(front);
        lemma_digit_value_bits(high, digit, n as u64, 0);
        let value = hex_value(s) as u64;
        assert forall|i: int| 0 <= i < n implies (value >> ((4 * (n - 1 - i)) as u64)) & 0xf
            == hex_digit_value(#[trigger] s[i]) by {
            lemma_digit_value_bits(high, digit, n as u64, (n - 1 - i) as u64);
            if i < n - 1 {
                assert(front[i] == s[i]);
            }
        }
    }
}

proof fn lemma_shifted_digit_bits(value: u64, count: u64, i: u64)
    by (bit_vector)
    requires
        1 <= count <= 16,
        count < 16 ==> value >> ((4 * count) as u64) == 0,
        i < 16,
    ensures
        i < count ==> ((value << ((4 * (16 - count)) as u64)) >> ((60 - 4 * i) as u64)) & 0xf == (
        value >> ((4 * (count - 1 - i)) as u64)) & 0xf,
        i >= count ==> ((value << ((4 * (16 - count)) as u64)) >> ((60 - 4 * i) as u64)) & 0xf
            == 0,
        value << 0u64 == value,
        value & 0xf != 0 ==> value << ((4 * (16 - count)) as u64) != 0,
{
}

/// Writing the identifier that a canonical token stands for gives the token again.
pub proof fn lemma_canonical_token_round_trip(text: Seq<char>)
    requires
        is_canonical_token(text),
    ensures
        token_value(text) != 0,
        token_of(token_value(text)) == text,
{
    let n = text.len() as int;
    lemma_value_digits(text);
    lemma_token_digit(text[0]);
    lemma_token_digit(text.last());
    let value = hex_value(text) as u64;
    assert(parse_hex_u64(text) == Some(value));
    let raw = token_value(text);
    lemma_shifted_digit_bits(value, n as u64, 0);
    assert(raw == value << ((4 * (16 - n)) as u64));
    lemma_prefix_value_bits(value, 0);
    assert((value >> ((4 * (n - 1 - (n - 1))) as u64)) & 0xf == hex_digit_value(text[n - 1]));
    assert(value & 0xf != 0);
    assert(raw != 0);
    let digits = hex16(raw);
    assert forall|i: int| 0 <= i < 16 implies #[trigger] digits[i] == (if i < n {
        text[i]
    } else {
        '0'
    }) by {
        lemma_shifted_digit_bits(value, n as u64, i as u64);
        if i < n {
            lemma_token_digit(text[i]);
        }
    }
    assert(digits.take(n) =~= text);
    lemma_trim_zeros_of_padded(digits, text);
}

/// A canonical token that `parse_token` reads as a cell is what `format_token`
/// writes for that cell.
pub proof fn lemma_parse_then_format(text: Seq<char>)
    requires
        is_canonical_token(text),
        parse_token_spec(text) is Ok,
    ensures
        format_token_spec(parse_token_spec(text)->Ok_0) == Ok::<Seq<char>, CellError>(text),
{
    lemma_canonical_token_round_trip(text);
}

/// Only a canonical token comes back: where `format_token` writes a text for the
/// cell that `parse_token` read from it, the text is canonical.
pub proof fn lemma_only_canonical_comes_back(text: Seq<char>)
    requires
        parse_token_spec(text) is Ok,
        format_token_spec(parse_token_spec(text)->Ok_0) == Ok::<Seq<char>, CellError>(text),
    ensures
        is_canonical_token(text),
{
    let raw = token_value(text);
    assert(raw != 0) by {
        if raw == 0 {
            lemma_zero_is_no_cell();
        }
    }
    lemma_token_is_canonical(raw);
}

/// The identifier that `text` stands for.
///
/// Trusted: `s2::cellid::CellID::from_token`. It reads the text with
/// `u64::from_str_radix` in base 16, moves the number up by four bits for each
/// character short of sixteen, and gives zero where the text is no such number.
#[verifier::external_body]
fn decode_token(text: &str) -> (raw: u64)
    ensures
        raw == token_value(text@),
{
    s2::cellid::CellID::from_token(text).0
}

/// The token of `raw`.
///
/// Trusted: `s2::cellid::CellID::to_token`. It writes the identifier with sixteen
/// lower-case digits of base 16 and drops the zeros at the end; zero becomes `X`.
#[verifier::external_body]
fn encode_token(raw: u64) -> (text: String)
    ensures
        text@ == token_of(raw),
{
    s2::cellid::CellID(raw).to_token()
}

/// The token of any identifier, well formed or not: what the host prints for a
/// value of the type.
pub fn token_text(id: S2CellId) -> (text: String)
    ensures
        text@ == token_of(id@),
{
    encode_token(id.to_u64())
}

/// The cell that a token stands for, or `InvalidToken` where the text stands for
/// no well-formed cell.
pub fn parse_token(text: &str) -> (res: Result<S2CellId, CellError>)
    ensures
        raw_result(res) == parse_token_spec(text@),
{
    let raw = decode_token(text);
    if !validate(raw) {
        return Err(CellError::InvalidToken);
    }
    Ok(S2CellId::from_u64(raw))
}

/// The token of a well-formed cell, or `InvalidIdentifier`.
pub fn format_token(id: S2CellId) -> (res: Result<String, CellError>)
    ensures
        text_result(res) == format_token_spec(id@),
{
    let raw = id.to_u64();
    if !validate(raw) {
        return Err(CellError::InvalidIdentifier);
    }
    Ok(encode_token(raw))
}

} // verus!
