//! Hex encoding and decoding of byte strings.
//!
//! Bytecode and calldata travel through the system as hex strings; every
//! byte is two hex digits. Decoding rejects odd-length strings and strings
//! holding a non-hex character. Encoding always produces lowercase digits,
//! so decode-then-encode round-trips up to case normalization.

use vstd::prelude::*;

verus! {

/// Why a hex string failed to decode.
#[derive(Debug, Clone, Copy, PartialEq, Eq, Structural)]
pub enum HexError {
    /// The string's length is odd, so it cannot split into byte pairs.
    OddLength,
    /// Some character is not a hex digit.
    InvalidChar,
}

pub open spec fn is_hex_digit(c: char) -> bool {
    ('0' <= c && c <= '9') || ('a' <= c && c <= 'f') || ('A' <= c && c <= 'F')
}

/// Numeric value of one hex digit.
pub open spec fn hex_digit_value(c: char) -> int
    recommends
        is_hex_digit(c),
{
    if '0' <= c && c <= '9' {
        c as int - 48
    } else if 'a' <= c && c <= 'f' {
        c as int - 87
    } else {
        c as int - 55
    }
}

/// A string decodes iff its length is even and every character is a hex digit.
pub open spec fn is_valid_hex(s: Seq<char>) -> bool {
    s.len() % 2 == 0 && (forall|i: int| 0 <= i < s.len() ==> is_hex_digit(#[trigger] s[i]))
}

/// The byte encoded by the i-th digit pair.
pub open spec fn decoded_byte(s: Seq<char>, i: int) -> u8
    recommends
        0 <= i < s.len() / 2,
{
    (16 * hex_digit_value(s[2 * i]) + hex_digit_value(s[2 * i + 1])) as u8
}

/// The byte sequence a valid hex string stands for.
pub open spec fn decode_hex_seq(s: Seq<char>) -> Seq<u8> {
    Seq::new((s.len() / 2) as nat, |i: int| decoded_byte(s, i))
}

/// The lowercase hex digit for a value below 16.
pub open spec fn hex_char_of(v: int) -> char
    recommends
        0 <= v < 16,
{
    if v == 0 { '0' }
    else if v == 1 { '1' }
    else if v == 2 { '2' }
    else if v == 3 { '3' }
    else if v == 4 { '4' }
    else if v == 5 { '5' }
    else if v == 6 { '6' }
    else if v == 7 { '7' }
    else if v == 8 { '8' }
    else if v == 9 { '9' }
    else if v == 10 { 'a' }
    else if v == 11 { 'b' }
    else if v == 12 { 'c' }
    else if v == 13 { 'd' }
    else if v == 14 { 'e' }
    else { 'f' }
}

/// The hex rendering of a byte sequence: two lowercase digits per byte.
pub open spec fn encode_hex_seq(b: Seq<u8>) -> Seq<char> {
    Seq::new(
        b.len() * 2,
        |j: int| if j % 2 == 0 { hex_char_of(b[j / 2] as int / 16) } else { hex_char_of(b[j / 2] as int % 16) },
    )
}

/// Uppercase hex digits folded to lowercase; all other characters unchanged.
pub open spec fn lower_hex_char(c: char) -> char {
    if c == 'A' { 'a' }
    else if c == 'B' { 'b' }
    else if c == 'C' { 'c' }
    else if c == 'D' { 'd' }
    else if c == 'E' { 'e' }
    else if c == 'F' { 'f' }
    else { c }
}

proof fn lemma_hex_char_of_digit_value(c: char)
    requires
        is_hex_digit(c),
    ensures
        hex_char_of(hex_digit_value(c)) == lower_hex_char(c),
        0 <= hex_digit_value(c) < 16,
{
}

/// Law: decoding a valid hex string and encoding the bytes again returns the
/// original string with its hex digits folded to lowercase.
pub proof fn lemma_hex_decode_encode_roundtrip(s: Seq<char>)
    requires
        is_valid_hex(s),
    ensures
        encode_hex_seq(decode_hex_seq(s)) =~= s.map(|i: int, c: char| lower_hex_char(c)),
{
    let e = encode_hex_seq(decode_hex_seq(s));
    assert forall|j: int| 0 <= j < e.len() implies e[j] == lower_hex_char(s[j]) by {
        let i = j / 2;
        let b = decoded_byte(s, i);
        lemma_hex_char_of_digit_value(s[2 * i]);
        lemma_hex_char_of_digit_value(s[2 * i + 1]);
        assert(b as int == 16 * hex_digit_value(s[2 * i]) + hex_digit_value(s[2 * i + 1]));
        if j % 2 == 0 {
            assert(2 * i == j);
            assert(b as int / 16 == hex_digit_value(s[j]));
        } else {
            assert(2 * i + 1 == j);
            assert(b as int % 16 == hex_digit_value(s[j]));
        }
    }
}

proof fn lemma_digit_value_of_hex_char(v: int)
    requires
        0 <= v < 16,
    ensures
        is_hex_digit(hex_char_of(v)),
        hex_digit_value(hex_char_of(v)) == v,
{
}

/// Law: encoding any byte sequence yields a valid hex string that decodes
/// back to the same bytes.
pub proof fn lemma_hex_encode_decode_roundtrip(b: Seq<u8>)
    ensures
        is_valid_hex(encode_hex_seq(b)),
        decode_hex_seq(encode_hex_seq(b)) =~= b,
{
    let s = encode_hex_seq(b);
    assert forall|j: int| 0 <= j < s.len() implies is_hex_digit(#[trigger] s[j]) by {
        if j % 2 == 0 {
            lemma_digit_value_of_hex_char(b[j / 2] as int / 16);
        } else {
            lemma_digit_value_of_hex_char(b[j / 2] as int % 16);
        }
    }
    assert forall|i: int| 0 <= i < b.len() implies decode_hex_seq(s)[i] == b[i] by {
        lemma_digit_value_of_hex_char(b[i] as int / 16);
        lemma_digit_value_of_hex_char(b[i] as int % 16);
        assert(s[2 * i] == hex_char_of(b[i] as int / 16));
        assert(s[2 * i + 1] == hex_char_of(b[i] as int % 16));
        assert(16 * (b[i] as int / 16) + b[i] as int % 16 == b[i] as int);
    }
}

/// Value of one hex digit character, or `None` for any other character.
fn hex_val(c: char) -> (r: Option<u8>)
    ensures
        r is Some <==> is_hex_digit(c),
        r is Some ==> r->0 as int == hex_digit_value(c) && r->0 < 16,
{
    if c >= '0' && c <= '9' {
        Some((c as u32 - '0' as u32) as u8)
    } else if c >= 'a' && c <= 'f' {
        Some((c as u32 - 'a' as u32 + 10) as u8)
    } else if c >= 'A' && c <= 'F' {
        Some((c as u32 - 'A' as u32 + 10) as u8)
    } else {
        None
    }
}

/// Decode a hex string into bytes.
///
/// Succeeds exactly on even-length strings of hex digits; the result is the
/// byte sequence the string stands for.
pub fn decode(s: &str) -> (r: Result<Vec<u8>, HexError>)
    ensures
        r is Ok <==> is_valid_hex(s@),
        r is Ok ==> r->Ok_0@ == decode_hex_seq(s@),
        r is Err && s@.len() % 2 != 0 ==> r->Err_0 == HexError::OddLength,
        r is Err && s@.len() % 2 == 0 ==> r->Err_0 == HexError::InvalidChar,
{
    let n = s.unicode_len();
    if n % 2 != 0 {
        return Err(HexError::OddLength);
    }
    let mut out: Vec<u8> = Vec::new();
    let mut i: usize = 0;
    while i < n
        invariant
            n == s@.len(),
            n % 2 == 0,
            i % 2 == 0,
            i <= n,
            out@.len() == i / 2,
            forall|k: int| 0 <= k < i / 2 ==> out@[k] == decoded_byte(s@, k),
            forall|j: int| 0 <= j < i ==> is_hex_digit(#[trigger] s@[j]),
        decreases n - i,
    {
        let hi = s.get_char(i);
        let lo = s.get_char(i + 1);
        let hv = match hex_val(hi) {
            Some(v) => v,
            None => {
                return Err(HexError::InvalidChar);
            },
        };
        let lv = match hex_val(lo) {
            Some(v) => v,
            None => {
                return Err(HexError::InvalidChar);
            },
        };
        out.push(16 * hv + lv);
        i = i + 2;
    }
    assert(out@ =~= decode_hex_seq(s@));
    Ok(out)
}

/// Encode bytes as a lowercase hex string, two digits per byte.
pub fn encode(bytes: &[u8]) -> (r: String)
    ensures
        r@ == encode_hex_seq(bytes@),
{
    let digits = "0123456789abcdef";
    proof {
        reveal_strlit("0123456789abcdef");
    }
    let mut out = String::new();
    let mut i: usize = 0;
    while i < bytes.len()
        invariant
            i <= bytes@.len(),
            digits@.len() == 16,
            forall|v: int| 0 <= v < 16 ==> digits@[v] == hex_char_of(v),
            digits.is_ascii(),
            out@ =~= encode_hex_seq(bytes@.subrange(0, i as int)),
        decreases bytes@.len() - i,
    {
        let hi = (bytes[i] / 16) as usize;
        let lo = (bytes[i] % 16) as usize;
        out.append(digits.substring_ascii(hi, hi + 1));
        out.append(digits.substring_ascii(lo, lo + 1));
        proof {
            assert(out@ =~= encode_hex_seq(bytes@.subrange(0, i + 1)));
        }
        i = i + 1;
    }
    proof {
        assert(bytes@.subrange(0, bytes@.len() as int) =~= bytes@);
        assert(out@ =~= encode_hex_seq(bytes@));
    }
    out
}

/// A hex string with an optional `0x` or `0X` prefix removed.
pub open spec fn strip_hex_prefix(s: Seq<char>) -> Seq<char> {
    if s.len() >= 2 && s[0] == '0' && (s[1] == 'x' || s[1] == 'X') {
        s.subrange(2, s.len() as int)
    } else {
        s
    }
}

/// Decode a hex string that may carry a `0x` or `0X` prefix.
pub fn decode_hex(s: &str) -> (r: Result<Vec<u8>, HexError>)
    ensures
        r is Ok <==> is_valid_hex(strip_hex_prefix(s@)),
        r is Ok ==> r->Ok_0@ == decode_hex_seq(strip_hex_prefix(s@)),
        r is Err && strip_hex_prefix(s@).len() % 2 != 0 ==> r->Err_0 == HexError::OddLength,
        r is Err && strip_hex_prefix(s@).len() % 2 == 0 ==> r->Err_0 == HexError::InvalidChar,
{
    let n = s.unicode_len();
    if n >= 2 && s.get_char(0) == '0' && (s.get_char(1) == 'x' || s.get_char(1) == 'X') {
        let rest = s.substring_char(2, n);
        decode(rest)
    } else {
        decode(s)
    }
}

} // verus!
