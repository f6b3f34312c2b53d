//! The mathematical model of a field layout: per-field bit offsets, the
//! decoded field values of a word, the word a value list encodes to, and the
//! facts that tie the two together.

use vstd::prelude::*;

verus! {

use vstd::arithmetic::power2::{
    pow2,
    lemma_pow2_pos,
    lemma_pow2_adds,
    lemma2_to64,
    lemma2_to64_rest,
};
use vstd::arithmetic::div_mod::{
    lemma_mod_bound,
    lemma_small_mod,
    lemma_mod_twice,
    lemma_mod_breakdown,
};
use vstd::arithmetic::mul::lemma_mul_is_commutative;
use crate::bitfield::{field_value, lemma_field_value_bound};

/// Bit offset of field `i`: the sum of the widths of fields `0..i`. The
/// first field sits at the least-significant end of the word.
pub open spec fn offset_of(widths: Seq<u8>, i: int) -> nat
    decreases i,
{
    if i <= 0 {
        0
    } else {
        offset_of(widths, i - 1) + widths[i - 1] as nat
    }
}

/// The number of bits the whole field list covers.
pub open spec fn total_width(widths: Seq<u8>) -> nat {
    offset_of(widths, widths.len() as int)
}

/// A well-formed layout partitions the 32 bits of a word exactly, with no
/// zero-width field.
pub open spec fn layout_wf(widths: Seq<u8>) -> bool {
    &&& total_width(widths) == 32
    &&& forall|i: int| 0 <= i < widths.len() ==> widths[i] >= 1
}

/// The field values a word decodes to, one per field, in layout order.
pub open spec fn decoded_fields(word: u32, widths: Seq<u8>) -> Seq<nat> {
    Seq::new(widths.len(), |i: int| field_value(word, offset_of(widths, i), widths[i] as nat))
}

/// The word value assembled from fields `0..i`: each value is truncated to
/// its field's width and placed at its field's offset.
pub open spec fn encode_prefix(values: Seq<nat>, widths: Seq<u8>, i: int) -> nat
    decreases i,
{
    if i <= 0 {
        0
    } else {
        encode_prefix(values, widths, i - 1) + (values[i - 1] % pow2(widths[i - 1] as nat)) * pow2(
            offset_of(widths, i - 1),
        )
    }
}

/// The word a full value list encodes to.
pub open spec fn encoded_word(values: Seq<nat>, widths: Seq<u8>) -> nat {
    encode_prefix(values, widths, widths.len() as int)
}

/// A value truncated to a field's width.
pub open spec fn truncate_field(v: nat, w: u8) -> nat {
    v % pow2(w as nat)
}

/// Each value truncated to its field's width.
pub open spec fn truncated_values(values: Seq<nat>, widths: Seq<u8>) -> Seq<nat> {
    Seq::new(values.len(), |i: int| truncate_field(values[i], widths[i]))
}

/// Field offsets never decrease.
pub proof fn lemma_offset_mono(widths: Seq<u8>, i: int, j: int)
    requires
        0 <= i <= j,
    ensures
        offset_of(widths, i) <= offset_of(widths, j),
    decreases j - i,
{
    if i < j {
        lemma_offset_mono(widths, i, j - 1);
    }
}

/// In a well-formed layout every field lies inside the 32-bit word.
pub proof fn lemma_field_in_word(widths: Seq<u8>, i: int)
    requires
        layout_wf(widths),
        0 <= i < widths.len(),
    ensures
        offset_of(widths, i) + widths[i] <= 32,
{
    assert(offset_of(widths, i + 1) == offset_of(widths, i) + widths[i]);
    lemma_offset_mono(widths, i + 1, widths.len() as int);
}

/// Re-encoding the decoded fields of `word` reassembles, field by field, the
/// low `offset_of(widths, i)` bits of `word`.
proof fn lemma_decode_encode_prefix(word: u32, widths: Seq<u8>, i: int)
    requires
        0 <= i <= widths.len(),
    ensures
        encode_prefix(decoded_fields(word, widths), widths, i) == word as nat % pow2(
            offset_of(widths, i),
        ),
    decreases i,
{
    if i == 0 {
        lemma2_to64();
        lemma_mod_bound(word as int, 1);
    } else {
        lemma_decode_encode_prefix(word, widths, i - 1);
        let o = offset_of(widths, i - 1);
        let w = widths[i - 1] as nat;
        let dv = field_value(word, o, w);
        lemma_pow2_pos(o);
        lemma_pow2_pos(w);
        lemma_field_value_bound(word, o, w);
        lemma_small_mod(dv, pow2(w));
        lemma_mod_breakdown(word as int, pow2(o) as int, pow2(w) as int);
        lemma_pow2_adds(o, w);
        lemma_mul_is_commutative(pow2(o) as int, dv as int);
    }
}

/// Round trip: when a layout covers the word exactly, encoding the decoded
/// fields of any word gives that word back.
pub proof fn lemma_round_trip(word: u32, widths: Seq<u8>)
    requires
        total_width(widths) == 32,
    ensures
        encoded_word(decoded_fields(word, widths), widths) == word as nat,
{
    lemma_decode_encode_prefix(word, widths, widths.len() as int);
    lemma2_to64();
    lemma2_to64_rest();
    lemma_small_mod(word as nat, pow2(32));
}

/// Truncation: values wider than their field keep only their low `width`
/// bits, so truncating the values beforehand leaves the encoding unchanged.
pub proof fn lemma_encode_truncates(values: Seq<nat>, widths: Seq<u8>, i: int)
    requires
        0 <= i <= values.len(),
        values.len() == widths.len(),
    ensures
        encode_prefix(truncated_values(values, widths), widths, i) == encode_prefix(
            values,
            widths,
            i,
        ),
    decreases i,
{
    if i > 0 {
        lemma_encode_truncates(values, widths, i - 1);
        let w = widths[i - 1] as nat;
        lemma_pow2_pos(w);
        let tv = truncated_values(values, widths);
        assert(tv.len() == values.len());
        assert(tv[i - 1] == values[i - 1] % pow2(w));
        lemma_mod_twice(values[i - 1] as int, pow2(w) as int);
        assert((values[i - 1] % pow2(w)) % pow2(w) == values[i - 1] % pow2(w));
    }
}




} // verus!
