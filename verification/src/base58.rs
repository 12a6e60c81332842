//! Base58 big-integer decoder.
//!
//! A candidate string is read as one base-58 number over the alphabet
//! `123456789ABCDEFGHJKLMNPQRSTUVWXYZabcdefghijkmnopqrstuvwxyz` and
//! converted into a fixed 32-byte big-endian scalar.  The decoder
//! deliberately omits the checksum and version-byte conventions of
//! Base58Check and applies no leading-zero padding exception: the whole
//! string is one big number, and a value that does not fit in 32 bytes is
//! an overflow.

use vstd::prelude::*;

use crate::hexcode::hex_encode;
use crate::hexcode::hex_of;
use crate::nums::be_bytes;
use crate::nums::be_val;
use crate::nums::lemma_be_val_bound;
use crate::nums::lemma_be_val_head;
use crate::nums::lemma_be_val_unique;
use crate::nums::lemma_pow256_pos;
use crate::nums::pow256;

verus! {

/// Why a string failed to decode.
#[derive(Clone, Copy, Debug, PartialEq, Eq, Structural)]
pub enum Base58Error {
    /// A character of the input is not in the Base58 alphabet.
    InvalidCharacter,
    /// The decoded magnitude does not fit in 32 bytes.
    Overflow,
}

/// The index of `c` in the Base58 alphabet, or -1 when `c` is not in it.
///
/// The alphabet is the 58 ASCII characters
/// `123456789ABCDEFGHJKLMNPQRSTUVWXYZabcdefghijkmnopqrstuvwxyz`,
/// in that order: digits and letters with `0`, `I`, `O` and `l` left out.
pub open spec fn b58_index(c: u8) -> int {
    if 49 <= c <= 57 {  // '1' ..= '9'
        c - 49
    } else if 65 <= c <= 72 {  // 'A' ..= 'H'
        c - 56
    } else if 74 <= c <= 78 {  // 'J' ..= 'N'
        c - 57
    } else if 80 <= c <= 90 {  // 'P' ..= 'Z'
        c - 58
    } else if 97 <= c <= 107 {  // 'a' ..= 'k'
        c - 64
    } else if 109 <= c <= 122 {  // 'm' ..= 'z'
        c - 65
    } else {
        -1
    }
}

/// Whether `c` is a character of the Base58 alphabet.
pub open spec fn is_b58(c: u8) -> bool {
    b58_index(c) >= 0
}

/// The base-58 value of `s`, read left to right; meaningful when every
/// character of `s` is in the alphabet.
pub open spec fn b58_val(s: Seq<u8>) -> int
    decreases s.len(),
{
    if s.len() == 0 {
        0
    } else {
        58 * b58_val(s.drop_last()) + b58_index(s.last())
    }
}

/// 58 raised to the power `k`.
pub open spec fn pow58(k: nat) -> nat
    decreases k,
{
    if k == 0 {
        1
    } else {
        58 * pow58((k - 1) as nat)
    }
}

/// Powers of 58 are positive.
pub proof fn lemma_pow58_pos(k: nat)
    ensures
        pow58(k) >= 1,
    decreases k,
{
    if k > 0 {
        lemma_pow58_pos((k - 1) as nat);
    }
}

/// Concatenation shifts the left part up by the width of the right part.
pub proof fn lemma_b58_val_split(a: Seq<u8>, b: Seq<u8>)
    ensures
        b58_val(a + b) == b58_val(a) * pow58(b.len()) + b58_val(b),
    decreases b.len(),
{
    if b.len() == 0 {
        assert(a + b =~= a);
        assert(b58_val(a) * pow58(0) == b58_val(a) * 1);
    } else {
        let b0 = b.drop_last();
        let x = b.last();
        assert((a + b).drop_last() =~= a + b0);
        assert((a + b).last() == x);
        lemma_b58_val_split(a, b0);
        let va = b58_val(a);
        let p = pow58(b0.len());
        assert(b58_val(a + b) == 58 * (va * p + b58_val(b0)) + b58_index(x));
        assert(58 * (va * p + b58_val(b0)) + b58_index(x) == va * (58 * p) + (58 * b58_val(b0)
            + b58_index(x))) by (nonlinear_arith);
        assert(pow58(b.len()) == 58 * p);
    }
}

/// A string of `n` alphabet characters denotes a value below `58^n`.
pub proof fn lemma_b58_val_upper(s: Seq<u8>)
    requires
        forall|j: int| 0 <= j < s.len() ==> is_b58(s[j]),
    ensures
        b58_val(s) < pow58(s.len()),
    decreases s.len(),
{
    if s.len() > 0 {
        lemma_b58_val_upper(s.drop_last());
        let v = b58_val(s.drop_last());
        let p = pow58((s.len() - 1) as nat);
        assert(b58_index(s.last()) < 58);
        assert(v < p ==> 58 * v + 58 <= 58 * p) by (nonlinear_arith);
    }
}

/// The first `i` characters of `s` are all in the alphabet.
pub open spec fn valid_prefix(s: Seq<u8>, i: int) -> bool {
    0 <= i <= s.len() && forall|j: int| 0 <= j < i ==> is_b58(s[j])
}

/// Position `i` holds the first character of `s` outside the alphabet.
pub open spec fn first_invalid_at(s: Seq<u8>, i: int) -> bool {
    valid_prefix(s, i) && i < s.len() && !is_b58(s[i])
}

/// The decoder reports `InvalidCharacter` for `s`: some character is
/// outside the alphabet, and the value accumulated up to the first such
/// character still fits in 32 bytes.
pub open spec fn rejects_invalid_character(s: Seq<u8>) -> bool {
    exists|i: int| #[trigger] first_invalid_at(s, i) && b58_val(s.subrange(0, i)) < pow256(32)
}

/// The decoder reports `Overflow` for `s`: the value of some run of
/// alphabet characters from the start outgrows 32 bytes.
pub open spec fn rejects_overflow(s: Seq<u8>) -> bool {
    exists|i: int| #[trigger] valid_prefix(s, i) && b58_val(s.subrange(0, i)) >= pow256(32)
}

/// The base-58 value of a string of alphabet characters is non-negative.
pub proof fn lemma_b58_val_nonneg(s: Seq<u8>)
    requires
        forall|j: int| 0 <= j < s.len() ==> is_b58(s[j]),
    ensures
        b58_val(s) >= 0,
    decreases s.len(),
{
    if s.len() > 0 {
        lemma_b58_val_nonneg(s.drop_last());
        let v = b58_val(s.drop_last());
        assert(58 * v >= 0) by (nonlinear_arith)
            requires
                v >= 0,
        ;
    }
}

/// Extending a run of alphabet characters never shrinks the value.
pub proof fn lemma_b58_val_prefix_mono(s: Seq<u8>, i: int, j: int)
    requires
        0 <= i <= j <= s.len(),
        valid_prefix(s, j),
    ensures
        b58_val(s.subrange(0, i)) <= b58_val(s.subrange(0, j)),
    decreases j - i,
{
    if i < j {
        lemma_b58_val_prefix_mono(s, i, j - 1);
        let p = s.subrange(0, j);
        assert(p.drop_last() =~= s.subrange(0, j - 1));
        let v = b58_val(s.subrange(0, j - 1));
        lemma_b58_val_nonneg(s.subrange(0, j - 1));
        assert(v <= 58 * v) by (nonlinear_arith)
            requires
                v >= 0,
        ;
    }
}

/// The alphabet index of `c`, or `None` when `c` is outside the alphabet.
pub fn b58_digit(c: u8) -> (r: Option<u8>)
    ensures
        r is Some <==> is_b58(c),
        r is Some ==> r.unwrap() == b58_index(c) && r.unwrap() < 58,
{
    if 49 <= c && c <= 57 {
        Some(c - 49)
    } else if 65 <= c && c <= 72 {
        Some(c - 56)
    } else if 74 <= c && c <= 78 {
        Some(c - 57)
    } else if 80 <= c && c <= 90 {
        Some(c - 58)
    } else if 97 <= c && c <= 107 {
        Some(c - 64)
    } else if 109 <= c && c <= 122 {
        Some(c - 65)
    } else {
        None
    }
}

/// Decodes `s` as one base-58 big-endian number into a 32-byte scalar.
///
/// The result is exactly the 32-byte big-endian representation of the
/// base-58 value of `s`.  A character outside the alphabet is reported as
/// `InvalidCharacter` unless the value accumulated strictly before it
/// already outgrew 32 bytes, in which case `Overflow` is reported first,
/// as the characters are consumed left to right.
pub fn base58_decode_scalar(s: &[u8]) -> (r: Result<Vec<u8>, Base58Error>)
    ensures
        match r {
            Ok(v) => valid_prefix(s@, s@.len() as int) && b58_val(s@) < pow256(32) && v@.len()
                == 32 && be_val(v@) == b58_val(s@),
            Err(Base58Error::InvalidCharacter) => rejects_invalid_character(s@),
            Err(Base58Error::Overflow) => rejects_overflow(s@),
        },
{
    let mut acc: Vec<u8> = Vec::new();
    let mut z: usize = 0;
    while z < 32
        invariant
            z <= 32,
            acc@.len() == z,
            forall|j: int| 0 <= j < z ==> acc@[j] == 0,
        decreases 32 - z,
    {
        acc.push(0u8);
        z += 1;
    }
    proof {
        lemma_be_val_zero(acc@);
    }
    let n = s.len();
    let mut i: usize = 0;
    while i < n
        invariant
            n == s@.len(),
            i <= n,
            acc@.len() == 32,
            valid_prefix(s@, i as int),
            be_val(acc@) == b58_val(s@.subrange(0, i as int)),
        decreases n - i,
    {
        let c = s[i];
        let digit = match b58_digit(c) {
            Some(d) => d,
            None => {
                proof {
                    assert(first_invalid_at(s@, i as int));
                    lemma_be_val_bound(acc@);
                }
                return Err(Base58Error::InvalidCharacter);
            },
        };
        let ghost prev = acc@;
        let mut carry: u64 = digit as u64;
        let mut k: usize = 32;
        proof {
            assert(acc@.subrange(32, 32) =~= Seq::<u8>::empty());
            assert(pow256(0) == 1);
            assert(carry * pow256(0) == carry * 1);
            assert(58 * be_val(Seq::<u8>::empty()) == 0);
        }
        while k > 0
            invariant
                k <= 32,
                acc@.len() == 32,
                prev.len() == 32,
                carry < 15000,
                forall|j: int| 0 <= j < k ==> acc@[j] == prev[j],
                be_val(acc@.subrange(k as int, 32)) + carry * pow256((32 - k) as nat) == 58
                    * be_val(prev.subrange(k as int, 32)) + digit,
            decreases k,
        {
            let b = acc[k - 1];
            let c2: u64 = carry + 58 * (b as u64);
            let nb: u8 = (c2 % 256) as u8;
            let ghost before = acc@;
            acc[k - 1] = nb;
            carry = c2 / 256;
            proof {
                lemma_mul_step(prev, before, acc@, k as int, b, digit as int, c2 as int, nb);
                assert(carry < 15000) by (nonlinear_arith)
                    requires
                        carry == c2 / 256,
                        0 <= c2 < 29790,
                ;
            }
            k -= 1;
        }
        proof {
            assert(acc@.subrange(0, 32) =~= acc@);
            assert(prev.subrange(0, 32) =~= prev);
            lemma_snoc_prefix(s@, i as int);
            // be_val(acc@) + carry * pow256(32) == b58_val of the prefix through i
        }
        if carry > 0 {
            proof {
                let w = i as int + 1;
                assert(is_b58(s@[i as int]));
                assert(valid_prefix(s@, w));
                assert(s@.subrange(0, w)[w - 1] == s@[i as int]);
                lemma_pow256_mul_ge(carry as nat, 32);
                assert(b58_val(s@.subrange(0, w)) >= pow256(32));
            }
            return Err(Base58Error::Overflow);
        }
        proof {
            assert(carry * pow256(32) == 0) by (nonlinear_arith)
                requires
                    carry == 0,
            ;
        }
        i += 1;
    }
    proof {
        assert(s@.subrange(0, n as int) =~= s@);
        lemma_be_val_bound(acc@);
    }
    Ok(acc)
}

/// Decodes `s` as one base-58 big-endian number and spells the 32-byte
/// scalar as 64 lowercase hexadecimal digits, the form the key-derivation
/// stage takes.  The failure conditions are those of
/// [`base58_decode_scalar`].
pub fn base58_decode(s: &[u8]) -> (r: Result<Vec<u8>, Base58Error>)
    ensures
        match r {
            Ok(h) => valid_prefix(s@, s@.len() as int) && b58_val(s@) < pow256(32) && b58_val(s@)
                == be_val(be_bytes(b58_val(s@) as nat, 32)) && h@ == hex_of(
                be_bytes(b58_val(s@) as nat, 32),
            ),
            Err(Base58Error::InvalidCharacter) => rejects_invalid_character(s@),
            Err(Base58Error::Overflow) => rejects_overflow(s@),
        },
{
    match base58_decode_scalar(s) {
        Ok(v) => {
            proof {
                lemma_be_val_unique(v@);
            }
            Ok(hex_encode(v.as_slice()))
        },
        Err(e) => Err(e),
    }
}

/// A byte string of zeroes denotes zero.
proof fn lemma_be_val_zero(b: Seq<u8>)
    requires
        forall|j: int| 0 <= j < b.len() ==> b[j] == 0,
    ensures
        be_val(b) == 0,
    decreases b.len(),
{
    if b.len() > 0 {
        lemma_be_val_zero(b.subrange(1, b.len() as int));
        assert(b[0] * pow256((b.len() - 1) as nat) == 0) by (nonlinear_arith)
            requires
                b[0] == 0,
        ;
    }
}

/// With a positive carry left over, the accumulated value is at least `256^32`.
proof fn lemma_pow256_mul_ge(c: nat, k: nat)
    requires
        c >= 1,
    ensures
        c * pow256(k) >= pow256(k),
{
    lemma_pow256_pos(k);
    assert(c * pow256(k) >= 1 * pow256(k)) by (nonlinear_arith)
        requires
            c >= 1,
            pow256(k) >= 1,
    ;
}

/// One carry-propagation step of the multiply-by-58-and-add pass keeps the
/// suffix relation: after writing the new byte at position `k - 1`, the
/// value of the suffix from `k - 1` plus the outgoing carry accounts for 58
/// times the old suffix plus the incoming digit.
proof fn lemma_mul_step(
    prev: Seq<u8>,
    before: Seq<u8>,
    after: Seq<u8>,
    k: int,
    b: u8,
    digit: int,
    c2: int,
    nb: u8,
)
    requires
        1 <= k <= 32,
        prev.len() == 32,
        before.len() == 32,
        after == before.update(k - 1, nb),
        forall|j: int| 0 <= j < k ==> before[j] == prev[j],
        b == before[k - 1],
        nb == c2 % 256,
        c2 >= 0,
        be_val(before.subrange(k, 32)) + (c2 - 58 * b) * pow256((32 - k) as nat) == 58 * be_val(
            prev.subrange(k, 32),
        ) + digit,
    ensures
        forall|j: int| 0 <= j < k - 1 ==> after[j] == prev[j],
        be_val(after.subrange(k - 1, 32)) + c2 / 256 * pow256((32 - (k - 1)) as nat) == 58
            * be_val(prev.subrange(k - 1, 32)) + digit,
{
    let p = pow256((32 - k) as nat);
    let carry_in = c2 - 58 * b;
    let cout = c2 / 256;
    // The suffix from k is unchanged by the update at k - 1.
    assert(after.subrange(k, 32) =~= before.subrange(k, 32));
    let suff = before.subrange(k, 32);
    // Head decomposition of the two suffixes from k - 1.
    let asub = after.subrange(k - 1, 32);
    assert(asub.len() > 0 && asub[0] == nb);
    assert(asub.subrange(1, asub.len() as int) =~= after.subrange(k, 32));
    lemma_be_val_head(asub);
    let psub = prev.subrange(k - 1, 32);
    assert(psub.len() > 0 && psub[0] == prev[k - 1]);
    assert(psub.subrange(1, psub.len() as int) =~= prev.subrange(k, 32));
    lemma_be_val_head(psub);
    assert(prev[k - 1] == b);
    // c2 == 256 * cout + nb.
    assert(c2 == 256 * cout + nb) by (nonlinear_arith)
        requires
            c2 >= 0,
            cout == c2 / 256,
            nb == c2 % 256,
    ;
    assert(pow256((33 - k) as nat) == 256 * p);
    // Put the pieces together with plain distributivity.
    assert(nb * p + cout * (256 * p) == (nb + 256 * cout) * p) by (nonlinear_arith);
    assert((carry_in + 58 * b) * p == carry_in * p + 58 * (b * p)) by (nonlinear_arith);
    assert(58 * (b * p) + 58 * be_val(suff) - 58 * digit + 58 * digit == 58 * (b * p + be_val(
        suff,
    ))) by (nonlinear_arith);
    assert(be_val(asub) + cout * pow256((33 - k) as nat) == nb * p + be_val(suff) + cout * (256
        * p));
    assert(nb * p + be_val(suff) + cout * (256 * p) == (c2 - 58 * b) * p + 58 * (b * p) + be_val(
        suff,
    )) by (nonlinear_arith)
        requires
            c2 == 256 * cout + nb,
    ;
    assert((c2 - 58 * b) * p + be_val(suff) == 58 * be_val(prev.subrange(k, 32)) + digit);
    assert(58 * (b * p) + 58 * be_val(prev.subrange(k, 32)) + digit == 58 * (b * p + be_val(
        prev.subrange(k, 32),
    )) + digit) by (nonlinear_arith);
    assert(be_val(psub) == b * p + be_val(prev.subrange(k, 32)));
}

/// Appending one alphabet character multiplies the prefix value by 58 and
/// adds the character's index.
proof fn lemma_snoc_prefix(s: Seq<u8>, i: int)
    requires
        0 <= i < s.len(),
    ensures
        b58_val(s.subrange(0, i + 1)) == 58 * b58_val(s.subrange(0, i)) + b58_index(s[i]),
{
    let p = s.subrange(0, i + 1);
    assert(p.drop_last() =~= s.subrange(0, i));
    assert(p.last() == s[i]);
}

} // verus!

