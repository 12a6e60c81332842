//! Key derivation and address encoding: a 32-byte scalar, handed over as a
//! 64-character hexadecimal string, becomes a compressed secp256k1 key pair
//! and the legacy pay-to-public-key-hash address of the production network.
//!
//! The elliptic-curve work and the Base58Check address encoding are done by
//! the `bitcoin` crate behind one trusted wrapper; everything around the
//! call — hexadecimal parsing, length and range bookkeeping, error mapping —
//! is verified.

use vstd::prelude::*;

use crate::hexcode::hex_bytes;
use crate::hexcode::hex_decode;
use crate::hexcode::is_hex;
use crate::hexcode::HexError;
use crate::nums::be_val;
use crate::nums::pow256;

verus! {

/// Why a hexadecimal private key yielded no address.
#[derive(Clone, Copy, Debug, PartialEq, Eq, Structural)]
pub enum DeriveError {
    /// The input is not a hexadecimal string of even length.
    InvalidHex,
    /// The decoded key is not exactly 32 bytes.
    WrongLength,
    /// The scalar is zero or not below the curve group order.
    InvalidScalar,
}

/// The order of the secp256k1 group:
/// `0xFFFFFFFFFFFFFFFFFFFFFFFFFFFFFFFEBAAEDCE6AF48A03BBFD25E8CD0364141`,
/// written as its two 128-bit halves.
pub open spec fn secp256k1_order() -> int {
    0xFFFFFFFFFFFFFFFFFFFFFFFFFFFFFFFEu128 * pow256(16) + 0xBAAEDCE6AF48A03BBFD25E8CD0364141u128
}

/// The group order is positive and fits in 32 bytes.
pub proof fn lemma_order_lt_pow256_32()
    ensures
        0 < secp256k1_order() < pow256(32),
{
    reveal_with_fuel(pow256, 33);
}

/// Whether the 32-byte string `k` is a valid secp256k1 secret key: nonzero
/// and below the group order.
pub open spec fn scalar_ok(k: Seq<u8>) -> bool {
    1 <= be_val(k) && be_val(k) < secp256k1_order()
}

/// The legacy compressed-key pay-to-public-key-hash address of the 32-byte
/// scalar `key` on the production network: the Base58Check encoding of the
/// versioned RIPEMD160-of-SHA256 hash of the compressed public key.
pub uninterp spec fn p2pkh_of(key: Seq<u8>) -> Seq<char>;

/// Relies on `secp256k1::SecretKey::from_slice`, which accepts a 32-byte
/// slice exactly when it is a valid scalar (nonzero and below the group
/// order, per `secp256k1_ec_seckey_verify`); and on
/// `secp256k1::SecretKey::public_key`, `bitcoin::Address::p2pkh` and the
/// address's `Display`, which together map the scalar to its compressed-key
/// mainnet legacy address, a function of the scalar alone.
#[verifier::external_body]
fn derive_p2pkh(key: &[u8]) -> (r: Option<String>)
    requires
        key@.len() == 32,
    ensures
        r is Some <==> scalar_ok(key@),
        r is Some ==> r.unwrap()@ == p2pkh_of(key@),
{
    match bitcoin::secp256k1::SecretKey::from_slice(key) {
        Ok(secret_key) => {
            let secp = bitcoin::secp256k1::Secp256k1::new();
            let public_key = bitcoin::PublicKey {
                compressed: true,
                inner: secret_key.public_key(&secp),
            };
            Some(bitcoin::Address::p2pkh(&public_key, bitcoin::Network::Bitcoin).to_string())
        },
        Err(_) => None,
    }
}

/// Derives the compressed-key legacy address of the private key spelled by
/// the hexadecimal string `hex_private_key`.
///
/// The input must spell exactly 32 bytes; the scalar must be nonzero and
/// below the curve group order.  Each failure mode is reported by its own
/// error, checked in that order.
pub fn private_key_to_p2pkh(hex_private_key: &[u8]) -> (r: Result<String, DeriveError>)
    ensures
        match r {
            Ok(a) => hex_private_key@.len() == 64 && (forall|j: int|
                0 <= j < 64 ==> is_hex(hex_private_key@[j])) && scalar_ok(
                hex_bytes(hex_private_key@),
            ) && a@ == p2pkh_of(hex_bytes(hex_private_key@)),
            Err(DeriveError::InvalidHex) => hex_private_key@.len() % 2 == 1 || exists|j: int|
                0 <= j < hex_private_key@.len() && !(#[trigger] is_hex(hex_private_key@[j])),
            Err(DeriveError::WrongLength) => hex_private_key@.len() % 2 == 0 && (forall|j: int|
                0 <= j < hex_private_key@.len() ==> is_hex(hex_private_key@[j]))
                && hex_private_key@.len() != 64,
            Err(DeriveError::InvalidScalar) => hex_private_key@.len() == 64 && (forall|j: int|
                0 <= j < 64 ==> is_hex(hex_private_key@[j])) && !scalar_ok(
                hex_bytes(hex_private_key@),
            ),
        },
{
    let bytes = match hex_decode(hex_private_key) {
        Ok(b) => b,
        Err(_) => {
            return Err(DeriveError::InvalidHex);
        },
    };
    if bytes.len() != 32 {
        return Err(DeriveError::WrongLength);
    }
    match derive_p2pkh(bytes.as_slice()) {
        Some(a) => Ok(a),
        None => Err(DeriveError::InvalidScalar),
    }
}

} // verus!
