//! Format schemas: an ordered list of named, fixed-width fields, validated
//! once at definition time and immutable afterwards.

use vstd::prelude::*;

verus! {

use crate::layout::{offset_of, total_width, layout_wf};

/// One named, fixed-width slice of an instruction word.
pub struct FieldSpec {
    /// The field's name, carried for the schema's readers; the codec itself
    /// is positional.
    pub name: String,
    /// The field's width in bits.
    pub width: u8,
}

/// Why a field list was rejected at definition time.
#[derive(Clone, Copy, PartialEq, Eq, Structural, Debug)]
pub enum SchemaError {
    /// The field widths do not sum to the 32 bits of a word. `actual` is the
    /// computed sum, saturated far above the word size for absurdly long
    /// field lists.
    WidthSum { expected: u32, actual: u32 },
    /// The field at `index` has width zero.
    ZeroWidth { index: usize },
}

/// A validated format schema: fields in layout order, first field at the
/// least-significant end, whose widths sum to exactly 32 bits.
pub struct FormatSchema {
    fields: Vec<FieldSpec>,
}

/// The widths of a field list, in order.
pub open spec fn widths_of(fields: Seq<FieldSpec>) -> Seq<u8> {
    fields.map_values(|f: FieldSpec| f.width)
}

impl FormatSchema {
    /// The fields this schema was defined with.
    pub closed spec fn spec_fields(&self) -> Seq<FieldSpec> {
        self.fields@
    }

    /// The field widths, in layout order.
    pub open spec fn widths(&self) -> Seq<u8> {
        widths_of(self.spec_fields())
    }

    /// A schema constructed by `define_format` always covers the word.
    pub open spec fn wf(&self) -> bool {
        layout_wf(self.widths())
    }

    /// The number of fields.
    pub fn len(&self) -> (n: usize)
        ensures
            n == self.spec_fields().len(),
    {
        self.fields.len()
    }

    /// The width of field `i`.
    pub fn width_at(&self, i: usize) -> (w: u8)
        requires
            i < self.spec_fields().len(),
        ensures
            w == self.widths()[i as int],
    {
        proof {
            assert(self.widths()[i as int] == self.spec_fields()[i as int].width);
        }
        self.fields[i].width
    }

    /// The name of field `i`.
    pub fn name_at(&self, i: usize) -> (name: &String)
        requires
            i < self.spec_fields().len(),
        ensures
            name@ == self.spec_fields()[i as int].name@,
    {
        &self.fields[i].name
    }
}

/// The width sum of fields `0..i`, saturating once it is far past the word
/// size, so that the running total fits a machine word for any field list.
spec fn sat_width_sum(widths: Seq<u8>, i: int) -> nat
    decreases i,
{
    if i <= 0 {
        0
    } else {
        let s = sat_width_sum(widths, i - 1);
        if s <= 0xFFFF {
            s + widths[i - 1] as nat
        } else {
            s
        }
    }
}

/// The saturating sum agrees with the exact total while the total is small,
/// and stays saturated when the total is past the saturation point.
proof fn lemma_sat_width_sum(widths: Seq<u8>, i: int)
    requires
        0 <= i,
    ensures
        offset_of(widths, i) <= 0xFFFF ==> sat_width_sum(widths, i) == offset_of(widths, i),
        offset_of(widths, i) > 0xFFFF ==> sat_width_sum(widths, i) > 0xFFFF,
        sat_width_sum(widths, i) <= 0xFFFF + 255,
    decreases i,
{
    if i > 0 {
        lemma_sat_width_sum(widths, i - 1);
        crate::layout::lemma_offset_mono(widths, i - 1, i);
    }
}

/// Validate an ordered field list as a format schema.
///
/// Succeeds exactly when every field has a nonzero width and the widths sum
/// to the 32 bits of a word; the schema then holds the given fields
/// unchanged. A wrong sum is reported with the computed sum; a zero-width
/// field is reported with the first index it occurs at.
pub fn define_format(fields: Vec<FieldSpec>) -> (r: Result<FormatSchema, SchemaError>)
    ensures
        ({
            let ws = widths_of(fields@);
            match r {
                Ok(schema) => {
                    &&& total_width(ws) == 32
                    &&& forall|k: int| 0 <= k < ws.len() ==> ws[k] >= 1
                    &&& schema.spec_fields() == fields@
                    &&& schema.wf()
                },
                Err(SchemaError::WidthSum { expected, actual }) => {
                    &&& expected == 32
                    &&& total_width(ws) != 32
                    &&& (actual as nat == total_width(ws) || (total_width(ws) > 0xFFFF && actual
                        > 0xFFFF))
                },
                Err(SchemaError::ZeroWidth { index }) => {
                    &&& total_width(ws) == 32
                    &&& index < ws.len()
                    &&& ws[index as int] == 0
                    &&& forall|k: int| 0 <= k < index ==> ws[k] >= 1
                },
            }
        }),
{
    let ghost ws = widths_of(fields@);
    let n = fields.len();
    let mut sum: u32 = 0;
    let mut zero_at: Option<usize> = None;
    let mut j: usize = 0;
    while j < n
        invariant
            j <= n,
            n == fields@.len(),
            ws == widths_of(fields@),
            sum as nat == sat_width_sum(ws, j as int),
            sum <= 0xFFFF + 255,
            match zero_at {
                Some(k) => k < j && ws[k as int] == 0 && forall|t: int| 0 <= t < k ==> ws[t] >= 1,
                None => forall|t: int| 0 <= t < j ==> ws[t] >= 1,
            },
        decreases n - j,
    {
        let w = fields[j].width;
        proof {
            assert(ws[j as int] == fields@[j as int].width);
        }
        if w == 0 && zero_at.is_none() {
            zero_at = Some(j);
        }
        if sum <= 0xFFFF {
            sum = sum + (w as u32);
        }
        j += 1;
    }
    proof {
        lemma_sat_width_sum(ws, n as int);
    }
    if sum != 32 {
        return Err(SchemaError::WidthSum { expected: 32, actual: sum });
    }
    match zero_at {
        Some(k) => Err(SchemaError::ZeroWidth { index: k }),
        None => Ok(FormatSchema { fields }),
    }
}

} // verus!
