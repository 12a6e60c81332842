use keysearch::address::{private_key_to_p2pkh, DeriveError};
use keysearch::base58::base58_decode;
use keysearch::hexcode::{hex_decode, hex_encode, HexError};

const KEY_ONE_HEX: &[u8] = b"0000000000000000000000000000000000000000000000000000000000000001";
const KEY_ONE_ADDRESS: &str = "1BgGZ9tcN4rm9KBzDn7KprQz87SZ26SAMH";
const ORDER_HEX: &[u8] = b"fffffffffffffffffffffffffffffffebaaedce6af48a03bbfd25e8cd0364141";
const ORDER_MINUS_ONE_HEX: &[u8] =
    b"fffffffffffffffffffffffffffffffebaaedce6af48a03bbfd25e8cd0364140";

#[test]
fn derives_the_published_address_of_key_one() {
    // Published test vector: the private key 1 yields this compressed-key
    // mainnet legacy address.
    let address = private_key_to_p2pkh(KEY_ONE_HEX).expect("valid key");
    assert_eq!(address, KEY_ONE_ADDRESS);
}

#[test]
fn end_to_end_decode_then_derive() {
    // "2" decodes to the scalar 1; the derivation stage must then produce
    // the published address of key 1.
    let hex_key = base58_decode(b"2").expect("decodes");
    let address = private_key_to_p2pkh(&hex_key).expect("valid key");
    assert_eq!(address, KEY_ONE_ADDRESS);
}

#[test]
fn rejects_the_zero_scalar() {
    let zero = [b'0'; 64];
    assert_eq!(private_key_to_p2pkh(&zero), Err(DeriveError::InvalidScalar));
}

#[test]
fn rejects_scalars_at_and_above_the_group_order() {
    assert_eq!(private_key_to_p2pkh(ORDER_HEX), Err(DeriveError::InvalidScalar));
    let all_f = [b'f'; 64];
    assert_eq!(private_key_to_p2pkh(&all_f), Err(DeriveError::InvalidScalar));
}

#[test]
fn accepts_the_largest_valid_scalar() {
    assert!(private_key_to_p2pkh(ORDER_MINUS_ONE_HEX).is_ok());
}

#[test]
fn rejects_keys_of_the_wrong_length() {
    let short = [b'a'; 62];
    assert_eq!(private_key_to_p2pkh(&short), Err(DeriveError::WrongLength));
    let long = [b'a'; 66];
    assert_eq!(private_key_to_p2pkh(&long), Err(DeriveError::WrongLength));
}

#[test]
fn rejects_non_hexadecimal_keys() {
    let odd = [b'a'; 63];
    assert_eq!(private_key_to_p2pkh(&odd), Err(DeriveError::InvalidHex));
    let mut bad = [b'a'; 64];
    bad[10] = b'g';
    assert_eq!(private_key_to_p2pkh(&bad), Err(DeriveError::InvalidHex));
}

#[test]
fn hex_encoding_matches_the_reference_implementation() {
    let bytes: Vec<u8> = (0u8..=255u8).collect();
    let ours = String::from_utf8(hex_encode(&bytes)).expect("ascii");
    assert_eq!(ours, hex::encode(&bytes));
}

#[test]
fn hex_decoding_matches_the_reference_implementation() {
    let text = b"00ff10a5B7Cd9E42";
    let ours = hex_decode(text).expect("valid hex");
    let reference = hex::decode(text).expect("valid hex");
    assert_eq!(ours, reference);
}

#[test]
fn hex_decoding_error_cases() {
    assert_eq!(hex_decode(b"abc"), Err(HexError::OddLength));
    assert_eq!(hex_decode(b"zz"), Err(HexError::InvalidDigit));
    assert!(hex::decode(b"abc").is_err());
    assert!(hex::decode(b"zz").is_err());
}

#[test]
fn hex_round_trip() {
    let bytes: Vec<u8> = (0u8..=255u8).rev().collect();
    let encoded = hex_encode(&bytes);
    assert_eq!(hex_decode(&encoded).expect("valid hex"), bytes);
}
