//! Single-field bit arithmetic: extracting a field from a word and
//! depositing a field into an accumulating word.

use vstd::prelude::*;

verus! {

use vstd::arithmetic::power2::{
    pow2,
    lemma_pow2_pos,
    lemma_pow2_adds,
    lemma_pow2_strictly_increases,
    lemma2_to64,
    lemma2_to64_rest,
};
use vstd::arithmetic::div_mod::lemma_mod_bound;
use vstd::arithmetic::mul::lemma_mul_inequality;
use vstd::bits::{
    low_bits_mask,
    lemma_u64_shr_is_div,
    lemma_u64_shl_is_mul,
    lemma_u64_low_bits_mask_is_mod,
    lemma_u64_pow2_no_overflow,
};

/// The value of the `width`-bit field that occupies bits
/// `[off, off + width)` of `word`, counted from the least-significant end.
pub open spec fn field_value(word: u32, off: nat, width: nat) -> nat {
    (word as nat / pow2(off)) % pow2(width)
}

/// A field value always fits in its declared width.
pub proof fn lemma_field_value_bound(word: u32, off: nat, width: nat)
    ensures
        field_value(word, off, width) < pow2(width),
{
    lemma_pow2_pos(off);
    lemma_pow2_pos(width);
    lemma_mod_bound((word as nat / pow2(off)) as int, pow2(width) as int);
}

/// Extract the `width`-bit field at bit offset `off` from `word`.
pub fn extract_bits(word: u32, off: u32, width: u32) -> (r: u32)
    requires
        1 <= width,
        off + width <= 32,
    ensures
        r as nat == field_value(word, off as nat, width as nat),
{
    let one_shl: u64 = 1u64 << (width as u64);
    proof {
        lemma_u64_pow2_no_overflow(width as nat);
        lemma_u64_shl_is_mul(1u64, width as u64);
        lemma_pow2_pos(width as nat);
    }
    let mask: u64 = one_shl - 1;
    let shifted: u64 = (word as u64) >> (off as u64);
    let v: u64 = shifted & mask;
    proof {
        lemma_u64_shr_is_div(word as u64, off as u64);
        assert(mask as nat == low_bits_mask(width as nat));
        lemma_u64_low_bits_mask_is_mod(shifted, width as nat);
        lemma_field_value_bound(word, off as nat, width as nat);
        if width < 32 {
            lemma_pow2_strictly_increases(width as nat, 32);
        }
        lemma2_to64();
        lemma2_to64_rest();
    }
    v as u32
}

/// Deposit the low `width` bits of `value` at bit offset `off` of `acc`.
/// The bits of `acc` at and above `off` must still be clear.
pub fn or_field(acc: u32, value: u32, off: u32, width: u32) -> (r: u32)
    requires
        1 <= width,
        off + width <= 32,
        (acc as nat) < pow2(off as nat),
    ensures
        r as nat == acc as nat + (value as nat % pow2(width as nat)) * pow2(off as nat),
        (r as nat) < pow2((off + width) as nat),
{
    let ow: u32 = off + width;
    let one_shl: u64 = 1u64 << (width as u64);
    proof {
        lemma_u64_pow2_no_overflow(width as nat);
        lemma_u64_shl_is_mul(1u64, width as u64);
        lemma_pow2_pos(width as nat);
    }
    let mask: u64 = one_shl - 1;
    let m: u64 = (value as u64) & mask;
    proof {
        assert(mask as nat == low_bits_mask(width as nat));
        lemma_u64_low_bits_mask_is_mod(value as u64, width as nat);
        lemma_mod_bound(value as int, pow2(width as nat) as int);
        lemma_pow2_pos(off as nat);
        lemma_pow2_adds(off as nat, width as nat);
        lemma_mul_inequality(m as int, pow2(width as nat) - 1, pow2(off as nat) as int);
        assert((pow2(width as nat) - 1) * pow2(off as nat) == pow2(width as nat) * pow2(
            off as nat,
        ) - pow2(off as nat)) by (nonlinear_arith);
        lemma2_to64();
        lemma2_to64_rest();
        if ow < 32 {
            lemma_pow2_strictly_increases(ow as nat, 32);
        }
        lemma_u64_shl_is_mul(m, off as u64);
        lemma_u64_shl_is_mul(1u64, off as u64);
        lemma_u64_shl_is_mul(1u64, ow as u64);
    }
    let shifted: u64 = m << (off as u64);
    let r64: u64 = (acc as u64) | shifted;
    proof {
        let a64 = acc as u64;
        let o64 = off as u64;
        let w64 = width as u64;
        let ow64 = ow as u64;
        assert(a64 | (m << o64) == a64 + (m << o64) && a64 + (m << o64) < (1u64 << ow64))
            by (bit_vector)
            requires
                o64 < 32,
                1 <= w64,
                o64 + w64 <= 32,
                ow64 == o64 + w64,
                a64 < (1u64 << o64),
                m < (1u64 << w64),
        ;
        if ow < 32 {
            lemma_pow2_strictly_increases(ow as nat, 32);
        }
    }
    r64 as u32
}

} // verus!
