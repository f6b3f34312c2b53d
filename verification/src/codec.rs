//! The schema-driven codec: unpack a 32-bit word into an instruction record
//! and pack a record back into a word. Both directions walk the schema's
//! fields with a cumulative bit cursor, first field at the least-significant
//! end; both are total over their stated inputs.

use vstd::prelude::*;

verus! {

use vstd::arithmetic::power2::{pow2, lemma_pow2_pos};
use crate::bitfield::{field_value, extract_bits, or_field};
use crate::layout::{
    offset_of,
    decoded_fields,
    encode_prefix,
    encoded_word,
    truncated_values,
    lemma_field_in_word,
    lemma_round_trip,
    lemma_encode_truncates,
};
use crate::schema::FormatSchema;

/// The structured representation of one decoded word: one value per schema
/// field, in layout order. Values are carried in 32-bit cells, wide enough
/// for a field of any width; a record is an independent value owned by the
/// caller that asked for it.
pub struct InstructionRecord {
    pub values: Vec<u32>,
}

/// A record's values as mathematical integers.
pub open spec fn record_values(values: Seq<u32>) -> Seq<nat> {
    values.map_values(|v: u32| v as nat)
}

/// Unpack `word` into one value per field of `schema`, each taken from the
/// bits at its field's offset. Total: every word decodes, whatever it holds.
pub fn decode(word: u32, schema: &FormatSchema) -> (r: InstructionRecord)
    requires
        schema.wf(),
    ensures
        r.values@.len() == schema.widths().len(),
        forall|i: int|
            0 <= i < r.values@.len() ==> r.values@[i] as nat == field_value(
                word,
                offset_of(schema.widths(), i),
                schema.widths()[i] as nat,
            ),
        record_values(r.values@) == decoded_fields(word, schema.widths()),
{
    let ghost ws = schema.widths();
    let n = schema.len();
    let mut values: Vec<u32> = Vec::new();
    let mut cursor: u32 = 0;
    let mut j: usize = 0;
    while j < n
        invariant
            schema.wf(),
            ws == schema.widths(),
            n == ws.len(),
            j <= n,
            values@.len() == j,
            cursor as nat == offset_of(ws, j as int),
            cursor <= 32,
            forall|i: int|
                0 <= i < j ==> values@[i] as nat == field_value(
                    word,
                    offset_of(ws, i),
                    ws[i] as nat,
                ),
        decreases n - j,
    {
        let w = schema.width_at(j);
        proof {
            lemma_field_in_word(ws, j as int);
            assert(ws[j as int] >= 1);
            assert(offset_of(ws, j as int + 1) == offset_of(ws, j as int) + ws[j as int]);
        }
        let v = extract_bits(word, cursor, w as u32);
        values.push(v);
        cursor = cursor + (w as u32);
        j += 1;
    }
    proof {
        assert(record_values(values@) =~= decoded_fields(word, ws));
    }
    InstructionRecord { values }
}

/// Pack one value per field of `schema` into a word, each value truncated to
/// its field's width and placed at its field's offset. Total: out-of-range
/// values are silently truncated, mirroring decode.
pub fn encode(record: &InstructionRecord, schema: &FormatSchema) -> (r: u32)
    requires
        schema.wf(),
        record.values@.len() == schema.spec_fields().len(),
    ensures
        r as nat == encoded_word(record_values(record.values@), schema.widths()),
{
    let ghost ws = schema.widths();
    let ghost vals = record_values(record.values@);
    let n = schema.len();
    proof {
        lemma_pow2_pos(0);
    }
    let mut acc: u32 = 0;
    let mut cursor: u32 = 0;
    let mut j: usize = 0;
    while j < n
        invariant
            schema.wf(),
            ws == schema.widths(),
            vals == record_values(record.values@),
            record.values@.len() == n,
            n == ws.len(),
            j <= n,
            cursor as nat == offset_of(ws, j as int),
            cursor <= 32,
            acc as nat == encode_prefix(vals, ws, j as int),
            (acc as nat) < pow2(cursor as nat),
        decreases n - j,
    {
        let w = schema.width_at(j);
        proof {
            lemma_field_in_word(ws, j as int);
            assert(ws[j as int] >= 1);
            assert(offset_of(ws, j as int + 1) == offset_of(ws, j as int) + ws[j as int]);
            assert(vals[j as int] == record.values@[j as int] as nat);
        }
        let v = record.values[j];
        acc = or_field(acc, v, cursor, w as u32);
        cursor = cursor + (w as u32);
        j += 1;
    }
    acc
}

/// Round trip: for any word and any well-formed schema, encoding the record
/// that the word decodes to yields the word back, because both directions
/// use the same offset sequence and the widths cover all 32 bits with no
/// gaps or overlaps.
pub proof fn lemma_codec_round_trip(word: u32, schema: &FormatSchema)
    requires
        schema.wf(),
    ensures
        encoded_word(decoded_fields(word, schema.widths()), schema.widths()) == word as nat,
{
    lemma_round_trip(word, schema.widths());
}

/// Decode is deterministic: any two records whose values match the decoded
/// fields of the same word under the same schema are bit-identical.
pub proof fn lemma_decode_deterministic(
    word: u32,
    schema: &FormatSchema,
    r1: Seq<u32>,
    r2: Seq<u32>,
)
    requires
        r1.len() == schema.widths().len(),
        r2.len() == schema.widths().len(),
        record_values(r1) == decoded_fields(word, schema.widths()),
        record_values(r2) == decoded_fields(word, schema.widths()),
    ensures
        r1 == r2,
{
    assert forall|i: int| 0 <= i < r1.len() implies r1[i] == r2[i] by {
        assert(record_values(r1)[i] == r1[i] as nat);
        assert(record_values(r2)[i] == r2[i] as nat);
    }
    assert(r1 =~= r2);
}

/// Encode is deterministic: any two words that encode the same values under
/// the same schema are identical.
pub proof fn lemma_encode_deterministic(values: Seq<nat>, widths: Seq<u8>, w1: u32, w2: u32)
    requires
        w1 as nat == encoded_word(values, widths),
        w2 as nat == encoded_word(values, widths),
    ensures
        w1 == w2,
{
}

/// Truncation: a record whose values already fit their fields encodes to the
/// same word as one whose values overflow them, keeping only each value's
/// low `width` bits.
pub proof fn lemma_encode_truncated_values(values: Seq<nat>, widths: Seq<u8>)
    requires
        values.len() == widths.len(),
    ensures
        encoded_word(truncated_values(values, widths), widths) == encoded_word(values, widths),
{
    lemma_encode_truncates(values, widths, values.len() as int);
    assert(truncated_values(values, widths).len() == values.len());
}

} // verus!
