//! The hexadecimal colour codec: three bytes, written as six (or, in shorthand, three)
//! hexadecimal digits.
use vstd::prelude::*;
use vstd::string::*;

verus! {

/// The value of a hexadecimal digit, case-insensitively; `None` for any other character.
pub open spec fn digit_value(c: char) -> Option<u8> {
    if '0' <= c && c <= '9' {
        Some((c as u32 - '0' as u32) as u8)
    } else if 'a' <= c && c <= 'f' {
        Some((c as u32 - 'a' as u32 + 10) as u8)
    } else if 'A' <= c && c <= 'F' {
        Some((c as u32 - 'A' as u32 + 10) as u8)
    } else {
        None
    }
}

/// A digit that decoding accepts: 0-9, a-f or A-F.
pub open spec fn is_hex_digit(c: char) -> bool {
    digit_value(c) is Some
}

/// A byte, read as a real number in [0, 1]: `Byte(0)` is 0.0 and `Byte(255)` is 1.0.
#[derive(Clone, Copy, Debug, PartialEq, Eq, Structural)]
pub struct Byte(pub u8);

/// Two hexadecimal digits, most significant first: `HexByte('1', '0')` stands for 16.
#[derive(Clone, Copy, Debug, PartialEq, Eq, Structural)]
pub struct HexByte(pub char, pub char);

/// The byte that the digit pair `hi lo` spells, if both are hexadecimal digits.
pub open spec fn pair_value(hi: char, lo: char) -> Option<u8> {
    match (digit_value(hi), digit_value(lo)) {
        (Some(h), Some(l)) => Some((16 * h + l) as u8),
        _ => None,
    }
}

/// Reads one hexadecimal digit, upper or lower case.
pub fn hex_digit(c: char) -> (r: Option<u8>)
    ensures
        r == digit_value(c),
{
    if '0' <= c && c <= '9' {
        Some((c as u32 - '0' as u32) as u8)
    } else if 'a' <= c && c <= 'f' {
        Some((c as u32 - 'a' as u32 + 10) as u8)
    } else if 'A' <= c && c <= 'F' {
        Some((c as u32 - 'A' as u32 + 10) as u8)
    } else {
        None
    }
}

impl HexByte {
    /// The byte these two digits spell, or `None` if either is not a hexadecimal digit.
    pub fn to_byte(self) -> (r: Option<Byte>)
        ensures
            r == (match pair_value(self.0, self.1) {
                Some(v) => Some(Byte(v)),
                None => None,
            }),
    {
        let hi = hex_digit(self.0)?;
        let lo = hex_digit(self.1)?;
        Some(Byte(16 * hi + lo))
    }
}

/// Why a string is not a hexadecimal colour.
#[derive(Clone, Copy, Debug, PartialEq, Eq, Structural)]
pub enum DecodeError {
    /// The string is neither 3 nor 6 characters long.
    InvalidLength,
    /// A character of the string is not a hexadecimal digit.
    InvalidDigit,
}

/// The three bytes of a colour's components, in order.
#[derive(Clone, Copy, Debug, PartialEq, Eq, Structural)]
pub struct ByteTriple(pub u8, pub u8, pub u8);

/// The three bytes that the digit pairs `(a b) (c d) (e f)` spell.
pub open spec fn pairs_value(a: char, b: char, c: char, d: char, e: char, f: char) -> Result<
    ByteTriple,
    DecodeError,
> {
    match (pair_value(a, b), pair_value(c, d), pair_value(e, f)) {
        (Some(x), Some(y), Some(z)) => Ok(ByteTriple(x, y, z)),
        _ => Err(DecodeError::InvalidDigit),
    }
}

/// The shorthand form `abc` written out in full: `aabbcc`.
pub open spec fn expand_shorthand(s: Seq<char>) -> Seq<char> {
    seq![s[0], s[0], s[1], s[1], s[2], s[2]]
}

/// What a hexadecimal colour string decodes to: six digits give one pair per byte,
/// three digits stand for their doubled form, any other length is refused.
pub open spec fn decoding(s: Seq<char>) -> Result<ByteTriple, DecodeError> {
    if s.len() == 6 {
        pairs_value(s[0], s[1], s[2], s[3], s[4], s[5])
    } else if s.len() == 3 {
        pairs_value(s[0], s[0], s[1], s[1], s[2], s[2])
    } else {
        Err(DecodeError::InvalidLength)
    }
}

/// Sequences three decoded digit pairs into one triple.
fn sequence_pairs(p0: HexByte, p1: HexByte, p2: HexByte) -> (r: Result<ByteTriple, DecodeError>)
    ensures
        r == pairs_value(p0.0, p0.1, p1.0, p1.1, p2.0, p2.1),
{
    match (p0.to_byte(), p1.to_byte(), p2.to_byte()) {
        (Some(Byte(x)), Some(Byte(y)), Some(Byte(z))) => Ok(ByteTriple(x, y, z)),
        _ => Err(DecodeError::InvalidDigit),
    }
}

/// Decodes a 3- or 6-digit hexadecimal colour (either case, no prefix) into its bytes.
pub fn decode_hex(hex: &str) -> (r: Result<ByteTriple, DecodeError>)
    ensures
        r == decoding(hex@),
{
    let n = hex.unicode_len();
    if n == 6 {
        sequence_pairs(
            HexByte(hex.get_char(0), hex.get_char(1)),
            HexByte(hex.get_char(2), hex.get_char(3)),
            HexByte(hex.get_char(4), hex.get_char(5)),
        )
    } else if n == 3 {
        let c0 = hex.get_char(0);
        let c1 = hex.get_char(1);
        let c2 = hex.get_char(2);
        sequence_pairs(HexByte(c0, c0), HexByte(c1, c1), HexByte(c2, c2))
    } else {
        Err(DecodeError::InvalidLength)
    }
}

/// The lowercase hexadecimal digits, in order of value.
pub open spec fn lower_digits() -> Seq<char> {
    seq!['0', '1', '2', '3', '4', '5', '6', '7', '8', '9', 'a', 'b', 'c', 'd', 'e', 'f']
}

/// A byte written as two lowercase hexadecimal digits, zero-padded.
pub open spec fn byte_digits(b: u8) -> Seq<char> {
    seq![lower_digits()[b as int / 16], lower_digits()[b as int % 16]]
}

/// The six lowercase hexadecimal digits of a byte triple.
pub open spec fn encoding(t: ByteTriple) -> Seq<char> {
    byte_digits(t.0) + byte_digits(t.1) + byte_digits(t.2)
}

/// Appends the lowercase digit of value `d` to `out`.
fn push_digit(out: &mut String, d: u8)
    requires
        d < 16,
    ensures
        final(out)@ == old(out)@.push(lower_digits()[d as int]),
{
    let digits = "0123456789abcdef";
    proof {
        reveal_strlit("0123456789abcdef");
        assert(digits@ =~= lower_digits());
    }
    let one = digits.substring_char(d as usize, d as usize + 1);
    assert(one@ =~= seq![lower_digits()[d as int]]);
    out.append(one);
}

/// Appends the two lowercase digits of `b` to `out`.
fn push_byte(out: &mut String, b: u8)
    ensures
        final(out)@ == old(out)@ + byte_digits(b),
{
    let ghost before = out@;
    push_digit(out, b / 16);
    push_digit(out, b % 16);
    assert(out@ =~= before + byte_digits(b));
}

/// Encodes a byte triple as six lowercase hexadecimal digits.
pub fn encode_hex(t: ByteTriple) -> (r: String)
    ensures
        r@ == encoding(t),
{
    let mut out = String::new();
    push_byte(&mut out, t.0);
    push_byte(&mut out, t.1);
    push_byte(&mut out, t.2);
    assert(out@ =~= encoding(t));
    out
}

/// `v` held to the byte range: below 0 gives 0, above 255 gives 255.
pub open spec fn clamp_to_byte(v: int) -> u8 {
    if v < 0 {
        0
    } else if v > 255 {
        255
    } else {
        v as u8
    }
}

impl Byte {
    /// The byte nearest to an already scaled and rounded component: values outside
    /// 0..=255 are clamped, never rejected.
    pub fn from_rounded(v: i32) -> (r: Byte)
        ensures
            r.0 == clamp_to_byte(v as int),
    {
        if v < 0 {
            Byte(0)
        } else if v > 255 {
            Byte(255)
        } else {
            Byte(v as u8)
        }
    }
}

/// A digit that encoding may emit: 0-9 or a-f.
pub open spec fn is_lower_hex_digit(c: char) -> bool {
    ('0' <= c && c <= '9') || ('a' <= c && c <= 'f')
}

proof fn lemma_digit_of_lower_digit(d: int)
    requires
        0 <= d < 16,
    ensures
        digit_value(lower_digits()[d]) == Some(d as u8),
{
    assert(lower_digits()[d] as u32 == if d < 10 { 48 + d } else { 87 + d });
}

proof fn lemma_lower_digit_of_digit(c: char)
    requires
        is_lower_hex_digit(c),
    ensures
        digit_value(c) matches Some(d) && d < 16 && lower_digits()[d as int] == c,
{
    let d = digit_value(c)->Some_0 as int;
    assert(lower_digits()[d] as u32 == if d < 10 { 48 + d } else { 87 + d });
}

proof fn lemma_byte_digits_value(b: u8)
    ensures
        pair_value(byte_digits(b)[0], byte_digits(b)[1]) == Some(b),
{
    lemma_digit_of_lower_digit(b as int / 16);
    lemma_digit_of_lower_digit(b as int % 16);
}

proof fn lemma_pair_digits(hi: char, lo: char)
    requires
        is_lower_hex_digit(hi),
        is_lower_hex_digit(lo),
    ensures
        pair_value(hi, lo) matches Some(b) && byte_digits(b) == seq![hi, lo],
{
    lemma_lower_digit_of_digit(hi);
    lemma_lower_digit_of_digit(lo);
    let h = digit_value(hi)->Some_0 as int;
    let l = digit_value(lo)->Some_0 as int;
    let b = 16 * h + l;
    assert(b / 16 == h && b % 16 == l) by (nonlinear_arith)
        requires
            0 <= h < 16,
            0 <= l < 16,
            b == 16 * h + l,
    ;
    assert(byte_digits(b as u8) =~= seq![hi, lo]);
}

/// Encoding bytes and decoding the result gives back the same bytes.
pub proof fn lemma_encode_then_decode(t: ByteTriple)
    ensures
        decoding(encoding(t)) == Ok::<ByteTriple, DecodeError>(t),
{
    lemma_byte_digits_value(t.0);
    lemma_byte_digits_value(t.1);
    lemma_byte_digits_value(t.2);
    let e = encoding(t);
    assert(e.len() == 6);
    assert(e[0] == byte_digits(t.0)[0] && e[1] == byte_digits(t.0)[1]);
    assert(e[2] == byte_digits(t.1)[0] && e[3] == byte_digits(t.1)[1]);
    assert(e[4] == byte_digits(t.2)[0] && e[5] == byte_digits(t.2)[1]);
}

/// Every six-digit lowercase hexadecimal string decodes, and encoding the decoded
/// bytes gives back the same string.
pub proof fn lemma_decode_then_encode(s: Seq<char>)
    requires
        s.len() == 6,
        forall|i: int| 0 <= i < 6 ==> is_lower_hex_digit(#[trigger] s[i]),
    ensures
        decoding(s) matches Ok(t) && encoding(t) == s,
{
    lemma_pair_digits(s[0], s[1]);
    lemma_pair_digits(s[2], s[3]);
    lemma_pair_digits(s[4], s[5]);
    let t = decoding(s)->Ok_0;
    assert(encoding(t) =~= s);
}

/// A three-digit shorthand decodes exactly as its doubled six-digit form.
pub proof fn lemma_shorthand_expands(s: Seq<char>)
    requires
        s.len() == 3,
    ensures
        decoding(s) == decoding(expand_shorthand(s)),
{
}

/// Decoding fails for a wrong length, and otherwise fails exactly when some character
/// is not a hexadecimal digit; it never fails any other way.
pub proof fn lemma_decoding_outcome(s: Seq<char>)
    ensures
        (decoding(s) == Err::<ByteTriple, DecodeError>(DecodeError::InvalidLength)) <==> (s.len()
            != 3 && s.len() != 6),
        (decoding(s) == Err::<ByteTriple, DecodeError>(DecodeError::InvalidDigit)) <==> ((s.len()
            == 3 || s.len() == 6) && exists|i: int| 0 <= i < s.len() && !is_hex_digit(#[trigger] s[i])),
        decoding(s) is Ok <==> ((s.len() == 3 || s.len() == 6) && forall|i: int|
            0 <= i < s.len() ==> is_hex_digit(#[trigger] s[i])),
{
    if s.len() == 3 || s.len() == 6 {
        if forall|i: int| 0 <= i < s.len() ==> is_hex_digit(#[trigger] s[i]) {
            assert(is_hex_digit(s[0]) && is_hex_digit(s[1]) && is_hex_digit(s[2]));
            if s.len() == 6 {
                assert(is_hex_digit(s[3]) && is_hex_digit(s[4]) && is_hex_digit(s[5]));
            }
        } else {
            let i = choose|i: int| 0 <= i < s.len() && !is_hex_digit(#[trigger] s[i]);
            assert(!is_hex_digit(s[i]));
        }
    }
}

} // verus!
