//! Mathematical model of fixed-width big-endian integers: the value of a
//! byte string read most-significant byte first, and powers of 256.

use vstd::prelude::*;

use vstd::arithmetic::div_mod::lemma_fundamental_div_mod_converse;

verus! {

/// 256 raised to the power `k`.
pub open spec fn pow256(k: nat) -> nat
    decreases k,
{
    if k == 0 {
        1
    } else {
        256 * pow256((k - 1) as nat)
    }
}

/// The unsigned integer that the byte string `b` denotes when read as a
/// big-endian number.
pub open spec fn be_val(b: Seq<u8>) -> nat
    decreases b.len(),
{
    if b.len() == 0 {
        0nat
    } else {
        (b[0] * pow256((b.len() - 1) as nat) + be_val(b.subrange(1, b.len() as int))) as nat
    }
}

/// Powers of 256 are positive.
pub proof fn lemma_pow256_pos(k: nat)
    ensures
        pow256(k) >= 1,
    decreases k,
{
    if k > 0 {
        lemma_pow256_pos((k - 1) as nat);
    }
}

/// A byte string of length `n` denotes a value below `256^n`.
pub proof fn lemma_be_val_bound(b: Seq<u8>)
    ensures
        be_val(b) < pow256(b.len()),
    decreases b.len(),
{
    if b.len() == 0 {
    } else {
        let tail = b.subrange(1, b.len() as int);
        lemma_be_val_bound(tail);
        let p = pow256((b.len() - 1) as nat);
        assert(b[0] <= 255);
        assert(b[0] * p <= 255 * p) by (nonlinear_arith)
            requires
                b[0] <= 255,
                p >= 0,
        ;
        assert(pow256(b.len()) == 256 * p);
    }
}

/// Appending a byte multiplies the denoted value by 256 and adds the byte.
#[verifier::rlimit(50)]
pub proof fn lemma_be_val_snoc(b: Seq<u8>, x: u8)
    ensures
        be_val(b.push(x)) == 256 * be_val(b) + x,
    decreases b.len(),
{
    if b.len() == 0 {
        assert(b.push(x) =~= seq![x]);
        assert(pow256(0) == 1);
        assert(seq![x].subrange(1, 1) =~= Seq::<u8>::empty());
        assert(be_val(seq![x]) == x * pow256(0) + be_val(seq![x].subrange(1, 1)));
        assert(x * 1 == x) by (nonlinear_arith);
        assert(be_val(b) == 0);
    } else {
        let tail = b.subrange(1, b.len() as int);
        assert(b.push(x).subrange(1, b.len() as int + 1) =~= tail.push(x));
        lemma_be_val_snoc(tail, x);
        let p = pow256((b.len() - 1) as nat);
        assert(be_val(b.push(x)) == b[0] * pow256(b.len()) + be_val(tail.push(x)));
        assert(pow256(b.len()) == 256 * p);
        assert(be_val(tail.push(x)) == 256 * be_val(tail) + x);
        assert(b[0] * (256 * p) == 256 * (b[0] * p)) by (nonlinear_arith);
        assert(256 * (b[0] * p) + (256 * be_val(tail) + x) == 256 * ((b[0] * p) + be_val(tail))
            + x) by (nonlinear_arith);
        assert(be_val(b) == b[0] * p + be_val(tail));
        assert(be_val(b.push(x)) == 256 * (b[0] * p + be_val(tail)) + x);
    }
}

/// The `len`-byte big-endian representation of `n`; meaningful when `n`
/// fits, that is when `n < pow256(len)`.
pub open spec fn be_bytes(n: nat, len: nat) -> Seq<u8> {
    Seq::new(len as nat, |i: int| ((n / pow256((len - 1 - i) as nat)) % 256) as u8)
}

/// Concatenation shifts the left part up by the width of the right part.
pub proof fn lemma_be_val_split(a: Seq<u8>, b: Seq<u8>)
    ensures
        be_val(a + b) == be_val(a) * pow256(b.len()) + be_val(b),
    decreases b.len(),
{
    if b.len() == 0 {
        assert(a + b =~= a);
        assert(be_val(a) * pow256(0) == be_val(a) * 1);
    } else {
        let b0 = b.drop_last();
        let x = b.last();
        assert(a + b =~= (a + b0).push(x));
        lemma_be_val_snoc(a + b0, x);
        lemma_be_val_split(a, b0);
        assert(b0.push(x) =~= b);
        lemma_be_val_snoc(b0, x);
        let va = be_val(a);
        let p = pow256(b0.len());
        assert(256 * (va * p + be_val(b0)) + x == va * (256 * p) + (256 * be_val(b0) + x))
            by (nonlinear_arith);
        assert(pow256(b.len()) == 256 * p);
    }
}

/// A byte string is determined by its length and its big-endian value.
pub proof fn lemma_be_val_unique(v: Seq<u8>)
    ensures
        v =~= be_bytes(be_val(v), v.len()),
{
    let n = be_val(v);
    let len = v.len() as int;
    assert forall|i: int| 0 <= i < len implies be_bytes(n, v.len())[i] == v[i] by {
        let q = pow256((len - 1 - i) as nat);
        let a = v.subrange(0, i + 1);
        let b = v.subrange(i + 1, len);
        assert(v =~= a + b);
        lemma_be_val_split(a, b);
        lemma_be_val_bound(b);
        lemma_pow256_pos(b.len());
        assert(pow256(b.len()) == q);
        lemma_fundamental_div_mod_converse(
            n as int,
            q as int,
            be_val(a) as int,
            be_val(b) as int,
        );
        let head = v.subrange(0, i);
        assert(a =~= head.push(v[i]));
        lemma_be_val_snoc(head, v[i]);
        lemma_fundamental_div_mod_converse(
            be_val(a) as int,
            256,
            be_val(head) as int,
            v[i] as int,
        );
    }
}

/// Splitting off the most significant byte of a non-empty suffix.
pub proof fn lemma_be_val_head(b: Seq<u8>)
    requires
        b.len() > 0,
    ensures
        be_val(b) == b[0] * pow256((b.len() - 1) as nat) + be_val(b.subrange(1, b.len() as int)),
{
}

} // verus!
