//! Lowercase hexadecimal encoding and decoding of byte strings.
//!
//! The decoded scalar travels between the decoder and the key-derivation
//! stage as a 64-character hexadecimal string; this module defines that
//! representation and proves the two directions inverse to each other.

use vstd::prelude::*;

verus! {

/// Why a string failed to parse as hexadecimal.
#[derive(Clone, Copy, Debug, PartialEq, Eq, Structural)]
pub enum HexError {
    /// The length of the input is odd.
    OddLength,
    /// A character of the input is not a hexadecimal digit.
    InvalidDigit,
}

/// The lowercase hexadecimal digit for `n`; meaningful when `n < 16`.
pub open spec fn hex_digit(n: u8) -> u8 {
    if n < 10 {
        (48 + n) as u8  // '0' ..= '9'
    } else {
        (87 + n) as u8  // 'a' ..= 'f'
    }
}

/// The lowercase hexadecimal spelling of `b`, two digits per byte, most
/// significant digit first.
pub open spec fn hex_of(b: Seq<u8>) -> Seq<u8> {
    Seq::new(
        2 * b.len(),
        |i: int|
            if i % 2 == 0 {
                hex_digit(b[i / 2] / 16)
            } else {
                hex_digit(b[i / 2] % 16)
            },
    )
}

/// The value of the hexadecimal digit `c`, either case, or -1 when `c` is
/// not a hexadecimal digit.
pub open spec fn hex_val(c: u8) -> int {
    if 48 <= c <= 57 {  // '0' ..= '9'
        c - 48
    } else if 65 <= c <= 70 {  // 'A' ..= 'F'
        c - 55
    } else if 97 <= c <= 102 {  // 'a' ..= 'f'
        c - 87
    } else {
        -1
    }
}

/// Whether `c` is a hexadecimal digit of either case.
pub open spec fn is_hex(c: u8) -> bool {
    hex_val(c) >= 0
}

/// The byte string that the hexadecimal string `s` spells; meaningful when
/// `s` has even length and holds only hexadecimal digits.
pub open spec fn hex_bytes(s: Seq<u8>) -> Seq<u8> {
    Seq::new(s.len() / 2, |i: int| (16 * hex_val(s[2 * i]) + hex_val(s[2 * i + 1])) as u8)
}

/// Encodes `b` as lowercase hexadecimal, two digits per byte.
pub fn hex_encode(b: &[u8]) -> (r: Vec<u8>)
    ensures
        r@ == hex_of(b@),
{
    let mut r: Vec<u8> = Vec::new();
    let mut i: usize = 0;
    while i < b.len()
        invariant
            i <= b@.len(),
            r@.len() == 2 * i,
            forall|j: int| 0 <= j < 2 * i ==> r@[j] == hex_of(b@)[j],
        decreases b@.len() - i,
    {
        let x = b[i];
        let hi = x / 16;
        let lo = x % 16;
        r.push(if hi < 10 {
            48 + hi
        } else {
            87 + hi
        });
        r.push(if lo < 10 {
            48 + lo
        } else {
            87 + lo
        });
        i += 1;
    }
    proof {
        assert(r@ =~= hex_of(b@));
    }
    r
}

/// The value of the hexadecimal digit `c`, or `None` when `c` is not one.
pub fn hex_digit_val(c: u8) -> (r: Option<u8>)
    ensures
        r is Some <==> is_hex(c),
        r is Some ==> r.unwrap() == hex_val(c) && r.unwrap() < 16,
{
    if 48 <= c && c <= 57 {
        Some(c - 48)
    } else if 65 <= c && c <= 70 {
        Some(c - 55)
    } else if 97 <= c && c <= 102 {
        Some(c - 87)
    } else {
        None
    }
}

/// Decodes the hexadecimal string `s`, two digits per byte, accepting
/// digits of either case.  An odd-length input is rejected before any
/// digit is looked at.
pub fn hex_decode(s: &[u8]) -> (r: Result<Vec<u8>, HexError>)
    ensures
        match r {
            Ok(v) => s@.len() % 2 == 0 && (forall|j: int| 0 <= j < s@.len() ==> is_hex(s@[j]))
                && v@ == hex_bytes(s@),
            Err(HexError::OddLength) => s@.len() % 2 == 1,
            Err(HexError::InvalidDigit) => s@.len() % 2 == 0 && exists|j: int|
                0 <= j < s@.len() && !(#[trigger] is_hex(s@[j])),
        },
{
    if s.len() % 2 != 0 {
        return Err(HexError::OddLength);
    }
    let mut v: Vec<u8> = Vec::new();
    let mut i: usize = 0;
    while i < s.len() / 2
        invariant
            s@.len() % 2 == 0,
            2 * i <= s@.len(),
            v@.len() == i,
            forall|j: int| 0 <= j < 2 * i ==> is_hex(s@[j]),
            forall|j: int| 0 <= j < i ==> v@[j] == hex_bytes(s@)[j],
        decreases s@.len() - 2 * i,
    {
        let hi = match hex_digit_val(s[2 * i]) {
            Some(d) => d,
            None => {
                return Err(HexError::InvalidDigit);
            },
        };
        let lo = match hex_digit_val(s[2 * i + 1]) {
            Some(d) => d,
            None => {
                return Err(HexError::InvalidDigit);
            },
        };
        v.push(16 * hi + lo);
        i += 1;
    }
    proof {
        assert(v@ =~= hex_bytes(s@));
    }
    Ok(v)
}

/// Decoding inverts encoding: the hexadecimal spelling of any byte string
/// is even in length, consists of hexadecimal digits only, and decodes back
/// to the byte string it came from.
pub proof fn lemma_hex_round_trip(b: Seq<u8>)
    ensures
        hex_of(b).len() % 2 == 0,
        forall|j: int| 0 <= j < hex_of(b).len() ==> is_hex(#[trigger] hex_of(b)[j]),
        hex_bytes(hex_of(b)) == b,
{
    let h = hex_of(b);
    assert forall|j: int| 0 <= j < h.len() implies is_hex(#[trigger] h[j]) by {
        let x = b[j / 2];
        assert(x / 16 < 16 && x % 16 < 16);
    }
    assert forall|i: int| 0 <= i < b.len() implies hex_bytes(h)[i] == b[i] by {
        let x = b[i];
        assert(h[2 * i] == hex_digit(x / 16));
        assert(h[2 * i + 1] == hex_digit(x % 16));
        assert(hex_val(hex_digit(x / 16)) == x / 16);
        assert(hex_val(hex_digit(x % 16)) == x % 16);
        assert(16 * (x / 16) + x % 16 == x) by (nonlinear_arith);
    }
    assert(hex_bytes(h) =~= b);
}

} // verus!
