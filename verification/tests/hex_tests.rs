use evm_bench::hex::{decode, decode_hex, encode, HexError};
use evm_bench::bytes::{bytes_to_u256_be, hex_to_address, u256_to_bytes_be, AddressError};

#[test]
fn decode_simple_bytecode() {
    assert_eq!(decode("6000").unwrap(), vec![0x60u8, 0x00u8]);
}

#[test]
fn decode_empty_string_is_empty() {
    assert_eq!(decode("").unwrap(), Vec::<u8>::new());
}

#[test]
fn decode_rejects_odd_length() {
    assert_eq!(decode("abc").unwrap_err(), HexError::OddLength);
}

#[test]
fn decode_rejects_invalid_char() {
    assert_eq!(decode("zz").unwrap_err(), HexError::InvalidChar);
    assert_eq!(decode("0g").unwrap_err(), HexError::InvalidChar);
}

#[test]
fn encode_simple_bytes() {
    assert_eq!(encode(&[0x60, 0x00]), "6000");
    assert_eq!(encode(&[]), "");
    assert_eq!(encode(&[0xde, 0xad, 0xbe, 0xef]), "deadbeef");
}

#[test]
fn decode_then_encode_round_trips_case_normalized() {
    let inputs = ["6000", "DEADBEEF", "AbCdEf01", "30627b7c", ""];
    for s in inputs {
        let bytes = decode(s).unwrap();
        assert_eq!(encode(&bytes), s.to_lowercase());
    }
}

#[test]
fn encode_then_decode_round_trips() {
    let bytes = vec![0u8, 1, 15, 16, 127, 128, 255];
    assert_eq!(decode(&encode(&bytes)).unwrap(), bytes);
}

#[test]
fn decode_hex_strips_prefix() {
    assert_eq!(decode_hex("0x6000").unwrap(), vec![0x60u8, 0x00u8]);
    assert_eq!(decode_hex("0X6000").unwrap(), vec![0x60u8, 0x00u8]);
    assert_eq!(decode_hex("6000").unwrap(), vec![0x60u8, 0x00u8]);
    assert_eq!(decode_hex("0x").unwrap(), Vec::<u8>::new());
}

#[test]
fn u256_round_trips_through_bytes() {
    for v in [0u128, 1, 255, 256, 1_000_000_000_000_000_000, u128::MAX] {
        let bytes = u256_to_bytes_be(v);
        assert_eq!(bytes_to_u256_be(&bytes), v);
    }
}

#[test]
fn u256_to_bytes_is_big_endian_in_low_half() {
    let bytes = u256_to_bytes_be(0x0102);
    assert_eq!(&bytes[..16], &[0u8; 16]);
    assert_eq!(bytes[30], 0x01);
    assert_eq!(bytes[31], 0x02);
    assert_eq!(&bytes[16..30], &[0u8; 14]);
}

#[test]
fn hex_to_address_reads_twenty_bytes() {
    let addr = hex_to_address("0x1000000000000000000000000000000000000000").unwrap();
    assert_eq!(addr[0], 0x10);
    assert_eq!(&addr[1..], &[0u8; 19]);
    let caller = hex_to_address("0x0000000000000000000000000000000000000001").unwrap();
    assert_eq!(caller[19], 0x01);
}

#[test]
fn hex_to_address_rejects_wrong_length() {
    assert_eq!(hex_to_address("0x1234").unwrap_err(), AddressError::WrongLength);
}

#[test]
fn hex_to_address_rejects_bad_hex() {
    assert_eq!(
        hex_to_address("0xzz00000000000000000000000000000000000000").unwrap_err(),
        AddressError::Hex(HexError::InvalidChar)
    );
}
