//! The search pipeline: candidate construction from the generator stream,
//! the decode-derive-test step on one candidate, and the record sink that
//! keeps accepted matches.
//!
//! The driver that fans lanes out over threads, reads the clock for the
//! seed base and appends to the durable file lives outside the library;
//! everything it decides with is specified here.

use vstd::prelude::*;

use crate::address::p2pkh_of;
use crate::address::private_key_to_p2pkh;
use crate::base58::is_b58;
use crate::base58::lemma_b58_val_nonneg;
use crate::base58::lemma_b58_val_split;
use crate::base58::lemma_b58_val_upper;
use crate::base58::pow58;
use crate::address::scalar_ok;
use crate::address::secp256k1_order;
use crate::address::DeriveError;
use crate::base58::b58_val;
use crate::base58::base58_decode_scalar;
use crate::base58::first_invalid_at;
use crate::base58::lemma_b58_val_prefix_mono;
use crate::base58::valid_prefix;
use crate::base58::Base58Error;
use crate::hexcode::hex_encode;
use crate::hexcode::lemma_hex_round_trip;
use crate::nums::be_bytes;
use crate::nums::lemma_be_val_unique;
use crate::nums::pow256;
use crate::rng::nth_out;
use crate::rng::nth_state;
use crate::rng::step_state;
use crate::rng::XorShift128;

verus! {

/// The fixed 24-character Base58 prefix of every candidate: 23 times `1`
/// followed by `2`.
pub open spec fn spec_std_prefix() -> Seq<u8> {
    Seq::new(24, |i: int| if i < 23 { 49u8 } else { 50u8 })
}

/// The working alphabet that the 11 unconstrained candidate characters are
/// drawn from: the Base58 alphabet without its second character `2`.
pub open spec fn spec_std_scale() -> Seq<u8> {
    seq![49u8, 51u8, 52u8, 53u8, 54u8, 55u8, 56u8, 57u8, 65u8, 66u8, 67u8, 68u8, 69u8, 70u8, 71u8,
        72u8, 74u8, 75u8, 76u8, 77u8, 78u8, 80u8, 81u8, 82u8, 83u8, 84u8, 85u8, 86u8, 87u8, 88u8,
        89u8, 90u8, 97u8, 98u8, 99u8, 100u8, 101u8, 102u8, 103u8, 104u8, 105u8, 106u8, 107u8,
        109u8, 110u8, 111u8, 112u8, 113u8, 114u8, 115u8, 116u8, 117u8, 118u8, 119u8, 120u8, 121u8,
        122u8]
}

/// The characters allowed right after the prefix: `2` to `9` and `A` to `C`.
pub open spec fn spec_std_first_scale() -> Seq<u8> {
    seq![50u8, 51u8, 52u8, 53u8, 54u8, 55u8, 56u8, 57u8, 65u8, 66u8, 67u8]
}

/// The address prefix that counts as a match: `1PWo`.
pub open spec fn spec_std_target() -> Seq<u8> {
    seq![49u8, 80u8, 87u8, 111u8]
}

/// The immutable configuration of a search: the candidate prefix, the two
/// character scales the generator draws from, and the target address
/// prefix.  Tests may substitute shorter prefixes and targets.
pub struct SearchConfig {
    /// The fixed Base58 prefix of every candidate.
    pub prefix: Vec<u8>,
    /// The characters allowed for the first generated position.
    pub first_scale: Vec<u8>,
    /// The working alphabet of the remaining generated positions.
    pub scale: Vec<u8>,
    /// The address prefix that counts as a match.
    pub target: Vec<u8>,
}

impl SearchConfig {
    /// Both character scales have at least one character to draw from.
    pub open spec fn wf(&self) -> bool {
        self.first_scale@.len() > 0 && self.scale@.len() > 0
    }

    /// The production configuration: the fixed constants of the search.
    pub fn standard() -> (r: Self)
        ensures
            r.wf(),
            r.prefix@ =~= spec_std_prefix(),
            r.first_scale@ =~= spec_std_first_scale(),
            r.scale@ =~= spec_std_scale(),
            r.target@ =~= spec_std_target(),
    {
        let mut prefix: Vec<u8> = Vec::new();
        let mut i: usize = 0;
        while i < 23
            invariant
                i <= 23,
                prefix@.len() == i,
                forall|j: int| 0 <= j < i ==> prefix@[j] == 49u8,
            decreases 23 - i,
        {
            prefix.push(49u8);
            i += 1;
        }
        prefix.push(50u8);
        let mut scale: Vec<u8> = Vec::new();
        scale.push(49u8);
        scale.push(51u8);
        scale.push(52u8);
        scale.push(53u8);
        scale.push(54u8);
        scale.push(55u8);
        scale.push(56u8);
        scale.push(57u8);
        scale.push(65u8);
        scale.push(66u8);
        scale.push(67u8);
        scale.push(68u8);
        scale.push(69u8);
        scale.push(70u8);
        scale.push(71u8);
        scale.push(72u8);
        scale.push(74u8);
        scale.push(75u8);
        scale.push(76u8);
        scale.push(77u8);
        scale.push(78u8);
        scale.push(80u8);
        scale.push(81u8);
        scale.push(82u8);
        scale.push(83u8);
        scale.push(84u8);
        scale.push(85u8);
        scale.push(86u8);
        scale.push(87u8);
        scale.push(88u8);
        scale.push(89u8);
        scale.push(90u8);
        scale.push(97u8);
        scale.push(98u8);
        scale.push(99u8);
        scale.push(100u8);
        scale.push(101u8);
        scale.push(102u8);
        scale.push(103u8);
        scale.push(104u8);
        scale.push(105u8);
        scale.push(106u8);
        scale.push(107u8);
        scale.push(109u8);
        scale.push(110u8);
        scale.push(111u8);
        scale.push(112u8);
        scale.push(113u8);
        scale.push(114u8);
        scale.push(115u8);
        scale.push(116u8);
        scale.push(117u8);
        scale.push(118u8);
        scale.push(119u8);
        scale.push(120u8);
        scale.push(121u8);
        scale.push(122u8);
        let mut first_scale: Vec<u8> = Vec::new();
        first_scale.push(50u8);
        first_scale.push(51u8);
        first_scale.push(52u8);
        first_scale.push(53u8);
        first_scale.push(54u8);
        first_scale.push(55u8);
        first_scale.push(56u8);
        first_scale.push(57u8);
        first_scale.push(65u8);
        first_scale.push(66u8);
        first_scale.push(67u8);
        let mut target: Vec<u8> = Vec::new();
        target.push(49u8);
        target.push(80u8);
        target.push(87u8);
        target.push(111u8);
        proof {
            assert(prefix@ =~= spec_std_prefix());
            assert(scale@ =~= spec_std_scale());
            assert(first_scale@ =~= spec_std_first_scale());
            assert(target@ =~= spec_std_target());
        }
        SearchConfig { prefix, first_scale, scale, target }
    }
}

/// The shape of a well-formed candidate for `cfg`: the fixed prefix, one
/// character of the first scale, then eleven characters of the working
/// scale.
pub open spec fn candidate_wf(cfg: &SearchConfig, c: Seq<u8>) -> bool {
    let plen = cfg.prefix@.len() as int;
    c.len() == plen + 12 && c.subrange(0, plen) == cfg.prefix@ && cfg.first_scale@.contains(
        c[plen],
    ) && forall|j: int| plen + 1 <= j < c.len() ==> cfg.scale@.contains(#[trigger] c[j])
}

/// The exact candidate that the generator stream starting at `seed`
/// produces for `cfg`: the first draw picks the constrained character, the
/// next eleven pick from the working scale.
pub open spec fn candidate_from(cfg: &SearchConfig, seed: Seq<u32>, c: Seq<u8>) -> bool {
    let plen = cfg.prefix@.len() as int;
    c.len() == plen + 12 && c.subrange(0, plen) == cfg.prefix@ && c[plen] == cfg.first_scale@[
        nth_out(seed, 0) as int % cfg.first_scale@.len() as int
    ] && forall|j: int|
        1 <= j < 12 ==> c[plen + j] == cfg.scale@[
            #[trigger] nth_out(seed, j as nat) as int % cfg.scale@.len() as int
        ]
}

/// Builds the next candidate: the fixed prefix, one character drawn from
/// the first-character scale, then eleven characters drawn from the working
/// scale, consuming exactly twelve words of the generator stream.
pub fn make_candidate(cfg: &SearchConfig, rng: &mut XorShift128) -> (r: Vec<u8>)
    requires
        cfg.wf(),
    ensures
        final(rng).state@ =~= nth_state(old(rng).state@, 12),
        candidate_from(cfg, old(rng).state@, r@),
        candidate_wf(cfg, r@),
{
    let ghost seed = old(rng).state@;
    let plen = cfg.prefix.len();
    let mut r: Vec<u8> = Vec::new();
    let mut i: usize = 0;
    while i < plen
        invariant
            i <= plen,
            plen == cfg.prefix@.len(),
            r@.len() == i,
            forall|j: int| 0 <= j < i ==> r@[j] == cfg.prefix@[j],
        decreases plen - i,
    {
        let b = cfg.prefix[i];
        r.push(b);
        i += 1;
    }
    let c0 = rng.next_char(cfg.first_scale.as_slice());
    r.push(c0);
    proof {
        assert(nth_state(seed, 0) == seed);
        assert(nth_state(seed, 1) == step_state(nth_state(seed, 0)));
    }
    let mut j: usize = 1;
    while j < 12
        invariant
            1 <= j <= 12,
            cfg.wf(),
            plen == cfg.prefix@.len(),
            r@.len() == plen + j,
            rng.state@ =~= nth_state(seed, j as nat),
            r@.subrange(0, plen as int) =~= cfg.prefix@,
            r@[plen as int] == cfg.first_scale@[nth_out(seed, 0) as int
                % cfg.first_scale@.len() as int],
            forall|t: int|
                1 <= t < j ==> r@[plen + t] == cfg.scale@[
                    #[trigger] nth_out(seed, t as nat) as int % cfg.scale@.len() as int
                ],
        decreases 12 - j,
    {
        let c = rng.next_char(cfg.scale.as_slice());
        r.push(c);
        proof {
            assert(nth_state(seed, (j + 1) as nat) == step_state(nth_state(seed, j as nat)));
        }
        j += 1;
    }
    proof {
        assert(r@.subrange(0, plen as int) =~= cfg.prefix@);
        assert forall|t: int| plen + 1 <= t < r@.len() implies cfg.scale@.contains(
            #[trigger] r@[t],
        ) by {
            let w = nth_out(seed, (t - plen) as nat) as int % cfg.scale@.len() as int;
            assert(0 <= w < cfg.scale@.len());
            assert(r@[t] == cfg.scale@[w]);
        }
        assert(cfg.first_scale@.contains(r@[plen as int]));
    }
    r
}

/// Whether the address `a` starts with the target prefix `t`, character by
/// character.
pub open spec fn spec_matches(a: Seq<char>, t: Seq<u8>) -> bool {
    t.len() <= a.len() && forall|j: int| 0 <= j < t.len() ==> a[j] == t[j] as char
}

/// Whether `address` starts with the byte string `target` read as
/// characters.
pub fn is_match(address: &str, target: &[u8]) -> (r: bool)
    ensures
        r == spec_matches(address@, target@),
{
    let alen = address.unicode_len();
    if alen < target.len() {
        return false;
    }
    let mut j: usize = 0;
    while j < target.len()
        invariant
            j <= target@.len(),
            target@.len() <= address@.len(),
            forall|t: int| 0 <= t < j ==> address@[t] == target@[t] as char,
        decreases target@.len() - j,
    {
        let c = address.get_char(j);
        let t = target[j];
        if c != (t as char) {
            return false;
        }
        j += 1;
    }
    true
}

/// Whether the candidate `c` survives the whole pipeline: every character
/// decodes, and the decoded value is a valid secp256k1 scalar.
pub open spec fn accepted(c: Seq<u8>) -> bool {
    valid_prefix(c, c.len() as int) && 1 <= b58_val(c) < secp256k1_order()
}

/// What one candidate came to.
pub enum StepOutcome {
    /// The candidate decoded and derived, and its address meets the target.
    Matched {
        /// The derived address.
        address: String,
    },
    /// The candidate decoded and derived, but its address misses the target.
    Unmatched {
        /// The derived address.
        address: String,
    },
    /// The candidate was discarded at the decode or derivation stage.
    Rejected,
}

/// The contract of one pipeline step on candidate `c` against `target`:
/// a rejection exactly on the candidates that decode to no valid scalar,
/// and otherwise the address of the decoded scalar, sorted by the target
/// prefix test.
pub open spec fn outcome_ok(c: Seq<u8>, target: Seq<u8>, r: StepOutcome) -> bool {
    match r {
        StepOutcome::Matched { address } => accepted(c) && address@ == p2pkh_of(
            be_bytes(b58_val(c) as nat, 32),
        ) && spec_matches(address@, target),
        StepOutcome::Unmatched { address } => accepted(c) && address@ == p2pkh_of(
            be_bytes(b58_val(c) as nat, 32),
        ) && !spec_matches(address@, target),
        StepOutcome::Rejected => !accepted(c),
    }
}

/// The scale mismatch of the standard configuration is harmless: the
/// working scale omits `2` and the first-character scale supplies it, but
/// every character either scale or the prefix can put in a candidate is in
/// the decoder's alphabet, and the prefix pins the decoded value into
/// `[58^12, 2 * 58^12)`, inside the valid scalar range.  So every
/// well-formed standard candidate is accepted by the whole pipeline: it
/// decodes, fits in 32 bytes, and is a valid secp256k1 scalar.
pub proof fn lemma_standard_candidate_accepted(cfg: SearchConfig, c: Seq<u8>)
    requires
        cfg.prefix@ == spec_std_prefix(),
        cfg.first_scale@ == spec_std_first_scale(),
        cfg.scale@ == spec_std_scale(),
        candidate_wf(&cfg, c),
    ensures
        accepted(c),
{
    let plen = 24int;
    assert forall|j: int| 0 <= j < c.len() implies is_b58(c[j]) by {
        if j < plen {
            assert(c[j] == c.subrange(0, plen)[j]);
            assert(is_b58(spec_std_prefix()[j]));
        } else if j == plen {
            let k = choose|k: int|
                0 <= k < spec_std_first_scale().len() && spec_std_first_scale()[k] == c[j];
            assert(is_b58(spec_std_first_scale()[k]));
        } else {
            let k = choose|k: int| 0 <= k < spec_std_scale().len() && spec_std_scale()[k] == c[j];
            assert(is_b58(spec_std_scale()[k]));
        }
    }
    let suffix = c.subrange(plen, c.len() as int);
    assert(c =~= spec_std_prefix() + suffix);
    lemma_b58_val_split(spec_std_prefix(), suffix);
    lemma_std_prefix_val();
    lemma_b58_val_nonneg(suffix);
    lemma_b58_val_upper(suffix);
    crate::base58::lemma_pow58_pos(12);
    // The value is 58^12 plus the suffix value, so it is at least 1 and
    // less than 2 * 58^12, which is below the group order.
    assert(b58_val(c) == pow58(12) + b58_val(suffix));
    lemma_two_pow58_12_lt_order();
}

/// The base-58 value of the standard prefix: 23 zero digits and one `2`,
/// the digit 1.
proof fn lemma_std_prefix_val()
    ensures
        b58_val(spec_std_prefix()) == 1,
{
    let ones = Seq::new(23, |i: int| 49u8);
    assert(spec_std_prefix().drop_last() =~= ones);
    assert(spec_std_prefix().last() == 50u8);
    lemma_all_ones_val(ones);
}

/// A run of `1` characters denotes zero.
proof fn lemma_all_ones_val(s: Seq<u8>)
    requires
        forall|j: int| 0 <= j < s.len() ==> s[j] == 49u8,
    ensures
        b58_val(s) == 0,
    decreases s.len(),
{
    if s.len() > 0 {
        lemma_all_ones_val(s.drop_last());
    }
}

/// Twice `58^12` is below the secp256k1 group order.
proof fn lemma_two_pow58_12_lt_order()
    ensures
        2 * pow58(12) < secp256k1_order(),
{
    assert(pow58(12) == 0x4e900abb53e6b71000nat) by {
        reveal_with_fuel(pow58, 13);
    }
    assert(pow256(16) == 0x100000000000000000000000000000000nat) by {
        reveal_with_fuel(pow256, 17);
    }
    let hi = 0xFFFFFFFFFFFFFFFFFFFFFFFFFFFFFFFEu128;
    assert(hi * pow256(16) >= pow256(16)) by (nonlinear_arith)
        requires
            hi >= 1,
            pow256(16) == 0x100000000000000000000000000000000nat,
    ;
}
pub fn test_candidate(candidate: &[u8], target: &[u8]) -> (r: StepOutcome)
    ensures
        outcome_ok(candidate@, target@, r),
{
    let scalar = match base58_decode_scalar(candidate) {
        Ok(v) => v,
        Err(Base58Error::InvalidCharacter) => {
            proof {
                let i = choose|i: int|
                    #[trigger] first_invalid_at(candidate@, i) && b58_val(
                        candidate@.subrange(0, i),
                    ) < pow256(32);
                assert(!valid_prefix(candidate@, candidate@.len() as int));
            }
            return StepOutcome::Rejected;
        },
        Err(Base58Error::Overflow) => {
            proof {
                let i = choose|i: int|
                    #[trigger] valid_prefix(candidate@, i) && b58_val(candidate@.subrange(0, i))
                        >= pow256(32);
                crate::address::lemma_order_lt_pow256_32();
                if valid_prefix(candidate@, candidate@.len() as int) {
                    lemma_b58_val_prefix_mono(candidate@, i, candidate@.len() as int);
                    assert(candidate@.subrange(0, candidate@.len() as int) =~= candidate@);
                }
            }
            return StepOutcome::Rejected;
        },
    };
    proof {
        lemma_be_val_unique(scalar@);
        lemma_hex_round_trip(scalar@);
    }
    let hexkey = hex_encode(scalar.as_slice());
    let address = match private_key_to_p2pkh(hexkey.as_slice()) {
        Ok(a) => a,
        Err(DeriveError::InvalidScalar) => {
            proof {
                assert(!scalar_ok(scalar@));
            }
            return StepOutcome::Rejected;
        },
        Err(_) => {
            // Unreachable: the hexadecimal string of a 32-byte scalar is
            // 64 valid digits, so neither other error can come back.
            proof {
                assert(false);
            }
            return StepOutcome::Rejected;
        },
    };
    if is_match(address.as_str(), target) {
        StepOutcome::Matched { address }
    } else {
        StepOutcome::Unmatched { address }
    }
}

/// Generates the next candidate of this lane and runs it through the
/// pipeline: one full iteration of the search loop, without the console
/// and sink effects.
pub fn search_step(cfg: &SearchConfig, rng: &mut XorShift128) -> (r: (Vec<u8>, StepOutcome))
    requires
        cfg.wf(),
    ensures
        final(rng).state@ =~= nth_state(old(rng).state@, 12),
        candidate_from(cfg, old(rng).state@, r.0@),
        candidate_wf(cfg, r.0@),
        outcome_ok(r.0@, cfg.target@, r.1),
{
    let candidate = make_candidate(cfg, rng);
    let outcome = test_candidate(candidate.as_slice(), cfg.target.as_slice());
    (candidate, outcome)
}

} // verus!
