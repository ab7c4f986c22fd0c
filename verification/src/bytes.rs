//! Fixed-width byte conversions for addresses and 256-bit words.
//!
//! Backends exchange balances and addresses as big-endian byte arrays; the
//! word helpers here move between a `u128` and the low half of a 32-byte
//! big-endian word, and `hex_to_address` reads a 20-byte address from hex.

use vstd::prelude::*;
use vstd::arithmetic::div_mod::{
    lemma_basic_div, lemma_div_basics, lemma_div_denominator, lemma_div_pos_is_pos,
    lemma_mod_breakdown, lemma_small_mod,
};
use crate::hex::{is_valid_hex, decode_hex_seq, HexError, strip_hex_prefix};

verus! {

/// Why a hex string failed to parse as an address.
#[derive(Debug, Clone, Copy, PartialEq, Eq, Structural)]
pub enum AddressError {
    /// The string is not valid hex.
    Hex(HexError),
    /// The decoded byte count is not 20.
    WrongLength,
}

/// 256^n.
pub open spec fn pow256(n: nat) -> int
    decreases n,
{
    if n == 0 {
        1
    } else {
        256 * pow256((n - 1) as nat)
    }
}

proof fn lemma_pow256_positive(n: nat)
    ensures
        pow256(n) >= 1,
    decreases n,
{
    if n > 0 {
        lemma_pow256_positive((n - 1) as nat);
    }
}

proof fn lemma_pow256_mono(m: nat, n: nat)
    requires
        m <= n,
    ensures
        pow256(m) <= pow256(n),
    decreases n,
{
    if m < n {
        lemma_pow256_mono(m, (n - 1) as nat);
        lemma_pow256_positive((n - 1) as nat);
    }
}

/// The big-endian value of a byte sequence.
pub open spec fn be_value(s: Seq<u8>) -> int
    decreases s.len(),
{
    if s.len() == 0 {
        0
    } else {
        256 * be_value(s.drop_last()) + s.last()
    }
}

/// The byte at big-endian position `k` (most significant first) of a
/// 16-byte rendering of `value`.
pub open spec fn u128_be_byte(value: u128, k: int) -> u8
    recommends
        0 <= k < 16,
{
    ((value as int / pow256((15 - k) as nat)) % 256) as u8
}

/// Render a 128-bit value as the low half of a 32-byte big-endian word;
/// the high 16 bytes are zero.
pub fn u256_to_bytes_be(value: u128) -> (r: [u8; 32])
    ensures
        forall|k: int| 0 <= k < 16 ==> #[trigger] r@[k] == 0u8,
        forall|k: int| 0 <= k < 16 ==> #[trigger] r@[16 + k] == u128_be_byte(value, k),
{
    let mut bytes = [0u8; 32];
    let mut divisor: u128 = 0x1000000000000000000000000000000;
    proof {
        reveal_with_fuel(pow256, 17);
        assert(pow256(15) == 0x1000000000000000000000000000000);
    }
    let mut k: usize = 0;
    while k < 16
        invariant
            k <= 16,
            k < 16 ==> divisor as int == pow256((15 - k) as nat),
            bytes@.len() == 32,
            forall|j: int| 0 <= j < 16 ==> #[trigger] bytes@[j] == 0u8,
            forall|j: int| 0 <= j < k ==> #[trigger] bytes@[16 + j] == u128_be_byte(value, j),
            forall|j: int| k <= j < 16 ==> #[trigger] bytes@[16 + j] == 0u8,
        decreases 16 - k,
    {
        proof {
            lemma_pow256_positive((15 - k) as nat);
        }
        bytes[16 + k] = ((value / divisor) % 256) as u8;
        if k < 15 {
            divisor = divisor / 256;
            proof {
                assert(pow256((15 - k) as nat) / 256 == pow256((15 - (k + 1)) as nat));
            }
        }
        k = k + 1;
    }
    bytes
}

/// Read a 128-bit value from the low half of a 32-byte big-endian word.
/// The high 16 bytes are ignored.
pub fn bytes_to_u256_be(bytes: &[u8; 32]) -> (r: u128)
    ensures
        r as int == be_value(bytes@.subrange(16, 32)),
{
    let mut acc: u128 = 0;
    let mut i: usize = 0;
    proof {
        reveal_with_fuel(pow256, 17);
        assert(pow256(16) == 0x100000000000000000000000000000000);
    }
    while i < 16
        invariant
            i <= 16,
            acc as int == be_value(bytes@.subrange(16, 16 + i)),
            (acc as int) < pow256(i as nat),
            pow256(16) == 0x100000000000000000000000000000000,
        decreases 16 - i,
    {
        let b = bytes[16 + i];
        proof {
            lemma_pow256_mono((i + 1) as nat, 16);
            let prefix = bytes@.subrange(16, 16 + i + 1);
            assert(prefix.drop_last() =~= bytes@.subrange(16, 16 + i));
            assert(prefix.last() == bytes@[16 + i]);
        }
        acc = acc * 256 + (b as u128);
        i = i + 1;
    }
    proof {
        assert(bytes@.subrange(16, 16 + 16 as int) =~= bytes@.subrange(16, 32));
    }
    acc
}

/// Read a 20-byte address from a hex string with an optional `0x` prefix.
pub fn hex_to_address(hex: &str) -> (r: Result<[u8; 20], AddressError>)
    ensures
        r is Ok <==> is_valid_hex(strip_hex_prefix(hex@)) && decode_hex_seq(
            strip_hex_prefix(hex@),
        ).len() == 20,
        r is Ok ==> r->Ok_0@ == decode_hex_seq(strip_hex_prefix(hex@)),
        r is Err ==> (match r->Err_0 {
            AddressError::Hex(_) => !is_valid_hex(strip_hex_prefix(hex@)),
            AddressError::WrongLength => is_valid_hex(strip_hex_prefix(hex@))
                && decode_hex_seq(strip_hex_prefix(hex@)).len() != 20,
        }),
{
    let bytes = match crate::hex::decode_hex(hex) {
        Ok(b) => b,
        Err(e) => {
            return Err(AddressError::Hex(e));
        },
    };
    if bytes.len() != 20 {
        return Err(AddressError::WrongLength);
    }
    let mut addr = [0u8; 20];
    let mut i: usize = 0;
    while i < 20
        invariant
            i <= 20,
            bytes@.len() == 20,
            addr@.len() == 20,
            forall|j: int| 0 <= j < i ==> #[trigger] addr@[j] == bytes@[j],
        decreases 20 - i,
    {
        addr[i] = bytes[i];
        i = i + 1;
    }
    proof {
        assert(addr@ =~= bytes@);
    }
    Ok(addr)
}


proof fn lemma_u256_prefix(value: u128, bytes: Seq<u8>, k: int)
    requires
        bytes.len() == 32,
        0 <= k <= 16,
        forall|j: int| 0 <= j < 16 ==> bytes[16 + j] == u128_be_byte(value, j),
    ensures
        be_value(bytes.subrange(16, 16 + k)) == (value as int / pow256((16 - k) as nat)) % pow256(
            k as nat,
        ),
    decreases k,
{
    let v = value as int;
    if k == 0 {
        assert(bytes.subrange(16, 16).len() == 0);
        lemma_pow256_positive(16);
        reveal_with_fuel(pow256, 17);
        assert(v < pow256(16));
        lemma_basic_div(v, pow256(16));
        assert((0int) % 1 == 0);
    } else {
        lemma_u256_prefix(value, bytes, k - 1);
        let prefix = bytes.subrange(16, 16 + k);
        assert(prefix.drop_last() =~= bytes.subrange(16, 16 + (k - 1)));
        assert(prefix.last() == bytes[16 + (k - 1)]);
        let c = pow256((16 - k) as nat);
        let w = v / c;
        lemma_pow256_positive((16 - k) as nat);
        lemma_pow256_positive((k - 1) as nat);
        lemma_div_pos_is_pos(v, c);
        // One more division by 256 reaches the next coarser place value.
        lemma_div_denominator(v, c, 256);
        assert(c * 256 == 256 * c);
        assert(pow256((17 - k) as nat) == 256 * pow256((16 - k) as nat));
        assert(v / pow256((17 - k) as nat) == w / 256);
        // The last byte is the low digit of w.
        assert(bytes[16 + (k - 1)] == u128_be_byte(value, k - 1));
        assert((15 - (k - 1)) as nat == (16 - k) as nat);
        assert(0 <= w % 256 < 256);
        assert(u128_be_byte(value, k - 1) as int == w % 256);
        assert(prefix.last() as int == w % 256);
        // Recompose: w mod 256^k splits into its low digit and the rest.
        lemma_mod_breakdown(w, 256, pow256((k - 1) as nat));
        assert(pow256(k as nat) == 256 * pow256((k - 1) as nat));
        assert(be_value(prefix) == 256 * be_value(prefix.drop_last()) + prefix.last());
        assert(be_value(prefix.drop_last()) == (w / 256) % pow256((k - 1) as nat));
        assert(w % (256 * pow256((k - 1) as nat)) == 256 * ((w / 256) % pow256((k - 1) as nat))
            + w % 256);
    }
}

/// Law: the word conversions round-trip. Reading back the 32-byte big-endian
/// rendering of a value returns the value.
pub proof fn lemma_u256_bytes_roundtrip(value: u128, bytes: Seq<u8>)
    requires
        bytes.len() == 32,
        forall|j: int| 0 <= j < 16 ==> bytes[16 + j] == u128_be_byte(value, j),
    ensures
        be_value(bytes.subrange(16, 32)) == value as int,
{
    let v = value as int;
    lemma_u256_prefix(value, bytes, 16);
    assert(bytes.subrange(16, 16 + 16 as int) =~= bytes.subrange(16, 32));
    assert(pow256(0) == 1);
    lemma_div_basics(v);
    reveal_with_fuel(pow256, 17);
    assert(v < pow256(16));
    lemma_small_mod(value as nat, pow256(16) as nat);
}

} // verus!
