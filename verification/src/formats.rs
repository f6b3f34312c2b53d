//! The six instruction formats of the base 32-bit instruction set, each a
//! struct of typed fields together with its format schema. Every format
//! implements `Instruction`: conversion to and from a raw word, proved
//! against the generic layout model.

use vstd::prelude::*;

verus! {

use vstd::arithmetic::power2::{lemma_pow2_pos, lemma2_to64};
use crate::bitfield::{field_value, extract_bits, or_field, lemma_field_value_bound};
use crate::layout::{
    offset_of,
    layout_wf,
    decoded_fields,
    encode_prefix,
    encoded_word,
    lemma_round_trip,
};
use crate::schema::{FieldSpec, FormatSchema, widths_of, define_format};

/// A structured view of one 32-bit instruction word.
///
/// `from_u32` unpacks a word into the format's fields; `to_u32` packs the
/// fields back into a word, truncating any value that overflows its field.
/// For every word, `to_u32` of `from_u32` gives the word back.
pub trait Instruction: Sized {
    /// The field widths of this format, in layout order, first field at the
    /// least-significant end of the word.
    spec fn format_widths() -> Seq<u8>;

    /// The instruction's field values, in layout order.
    spec fn field_values(&self) -> Seq<nat>;

    /// The instruction a word decodes to.
    spec fn decoded(word: u32) -> Self;

    /// Decode a raw word into this format's fields.
    fn from_u32(input: u32) -> (r: Self)
        ensures
            r == Self::decoded(input),
            encoded_word(r.field_values(), Self::format_widths()) == input as nat,
    ;

    /// Encode the fields back into a raw word.
    fn to_u32(&self) -> (r: u32)
        ensures
            r as nat == encoded_word(self.field_values(), Self::format_widths()),
    ;
}

/// R-type instruction
///
/// Useful for register-register operations.
/// Sources from registers `rs1` and `rs2`.
/// Stores its output into register `rd`.
pub struct RInstruction {
    pub opcode: u8,
    /// Destination
    pub rd: u8,
    pub funct3: u8,
    /// Source
    pub rs1: u8,
    /// Source
    pub rs2: u8,
    pub funct7: u8,
}

/// The field widths of the R format.
pub open spec fn r_widths() -> Seq<u8> {
    seq![7u8, 5u8, 3u8, 5u8, 5u8, 7u8]
}

/// The field offsets of the R format, and that the widths cover the word.
pub proof fn lemma_r_offsets()
    ensures
        layout_wf(r_widths()),
        offset_of(r_widths(), 0) == 0,
        offset_of(r_widths(), 1) == 7,
        offset_of(r_widths(), 2) == 12,
        offset_of(r_widths(), 3) == 15,
        offset_of(r_widths(), 4) == 20,
        offset_of(r_widths(), 5) == 25,
        offset_of(r_widths(), 6) == 32,
{
    let ws = r_widths();
    assert(ws.len() == 6);
    assert(offset_of(ws, 0) == 0);
    assert(offset_of(ws, 1) == 7);
    assert(offset_of(ws, 2) == 12);
    assert(offset_of(ws, 3) == 15);
    assert(offset_of(ws, 4) == 20);
    assert(offset_of(ws, 5) == 25);
    assert(offset_of(ws, 6) == 32);
    assert forall|i: int| 0 <= i < ws.len() implies ws[i] >= 1 by {
        assert(ws[0] == 7);
        assert(ws[1] == 5);
        assert(ws[2] == 3);
        assert(ws[3] == 5);
        assert(ws[4] == 5);
        assert(ws[5] == 7);
    }
}

impl Instruction for RInstruction {
    open spec fn format_widths() -> Seq<u8> {
        r_widths()
    }

    open spec fn field_values(&self) -> Seq<nat> {
        seq![
            self.opcode as nat,
            self.rd as nat,
            self.funct3 as nat,
            self.rs1 as nat,
            self.rs2 as nat,
            self.funct7 as nat,
        ]
    }

    open spec fn decoded(word: u32) -> Self {
        RInstruction {
            opcode: field_value(word, 0, 7) as u8,
            rd: field_value(word, 7, 5) as u8,
            funct3: field_value(word, 12, 3) as u8,
            rs1: field_value(word, 15, 5) as u8,
            rs2: field_value(word, 20, 5) as u8,
            funct7: field_value(word, 25, 7) as u8,
        }
    }

    fn from_u32(input: u32) -> (r: Self) {
        let opcode = extract_bits(input, 0, 7) as u8;
        let rd = extract_bits(input, 7, 5) as u8;
        let funct3 = extract_bits(input, 12, 3) as u8;
        let rs1 = extract_bits(input, 15, 5) as u8;
        let rs2 = extract_bits(input, 20, 5) as u8;
        let funct7 = extract_bits(input, 25, 7) as u8;
        let r = RInstruction { opcode, rd, funct3, rs1, rs2, funct7 };
        proof {
            lemma2_to64();
            lemma_field_value_bound(input, 0, 7);
            lemma_field_value_bound(input, 7, 5);
            lemma_field_value_bound(input, 12, 3);
            lemma_field_value_bound(input, 15, 5);
            lemma_field_value_bound(input, 20, 5);
            lemma_field_value_bound(input, 25, 7);
            lemma_r_offsets();
            lemma_round_trip(input, r_widths());
            assert(r.field_values() =~= decoded_fields(input, r_widths()));
        }
        r
    }

    fn to_u32(&self) -> (r: u32) {
        proof {
            lemma_pow2_pos(0);
            lemma_r_offsets();
        }
        let a0 = or_field(0, self.opcode as u32, 0, 7);
        let a1 = or_field(a0, self.rd as u32, 7, 5);
        let a2 = or_field(a1, self.funct3 as u32, 12, 3);
        let a3 = or_field(a2, self.rs1 as u32, 15, 5);
        let a4 = or_field(a3, self.rs2 as u32, 20, 5);
        let a5 = or_field(a4, self.funct7 as u32, 25, 7);
        proof {
            let vals = self.field_values();
            let ws = r_widths();
            assert(ws[0] == 7 && ws[1] == 5 && ws[2] == 3 && ws[3] == 5 && ws[4] == 5 && ws[5] == 7);
            assert(vals[0] == self.opcode as nat && vals[1] == self.rd as nat && vals[2] == self.funct3 as nat && vals[3] == self.rs1 as nat && vals[4] == self.rs2 as nat && vals[5] == self.funct7 as nat);
            assert(encode_prefix(vals, ws, 0) == 0);
            assert(a0 as nat == encode_prefix(vals, ws, 1));
            assert(a1 as nat == encode_prefix(vals, ws, 2));
            assert(a2 as nat == encode_prefix(vals, ws, 3));
            assert(a3 as nat == encode_prefix(vals, ws, 4));
            assert(a4 as nat == encode_prefix(vals, ws, 5));
            assert(a5 as nat == encode_prefix(vals, ws, 6));
        }
        a5
    }
}

/// The R-format schema.
pub fn r_format() -> (s: FormatSchema)
    ensures
        s.wf(),
        s.widths() == r_widths(),
{
    let mut fields: Vec<FieldSpec> = Vec::new();
    fields.push(field("opcode", 7));
    fields.push(field("rd", 5));
    fields.push(field("funct3", 3));
    fields.push(field("rs1", 5));
    fields.push(field("rs2", 5));
    fields.push(field("funct7", 7));
    proof {
        lemma_r_offsets();
        assert(widths_of(fields@) =~= r_widths());
    }
    let r = define_format(fields);
    r.unwrap()
}

/// I-type instruction
///
/// Useful for register-immediate operations.
/// Sources from register `rs1` and immediate `imm`.
/// Stores its output into register `rd`.
pub struct IInstruction {
    pub opcode: u8,
    /// Destination
    pub rd: u8,
    pub funct3: u8,
    /// Source
    pub rs1: u8,
    pub imm: u16,
}

/// The field widths of the I format.
pub open spec fn i_widths() -> Seq<u8> {
    seq![7u8, 5u8, 3u8, 5u8, 12u8]
}

/// The field offsets of the I format, and that the widths cover the word.
pub proof fn lemma_i_offsets()
    ensures
        layout_wf(i_widths()),
        offset_of(i_widths(), 0) == 0,
        offset_of(i_widths(), 1) == 7,
        offset_of(i_widths(), 2) == 12,
        offset_of(i_widths(), 3) == 15,
        offset_of(i_widths(), 4) == 20,
        offset_of(i_widths(), 5) == 32,
{
    let ws = i_widths();
    assert(ws.len() == 5);
    assert(offset_of(ws, 0) == 0);
    assert(offset_of(ws, 1) == 7);
    assert(offset_of(ws, 2) == 12);
    assert(offset_of(ws, 3) == 15);
    assert(offset_of(ws, 4) == 20);
    assert(offset_of(ws, 5) == 32);
    assert forall|i: int| 0 <= i < ws.len() implies ws[i] >= 1 by {
        assert(ws[0] == 7);
        assert(ws[1] == 5);
        assert(ws[2] == 3);
        assert(ws[3] == 5);
        assert(ws[4] == 12);
    }
}

impl Instruction for IInstruction {
    open spec fn format_widths() -> Seq<u8> {
        i_widths()
    }

    open spec fn field_values(&self) -> Seq<nat> {
        seq![
            self.opcode as nat,
            self.rd as nat,
            self.funct3 as nat,
            self.rs1 as nat,
            self.imm as nat,
        ]
    }

    open spec fn decoded(word: u32) -> Self {
        IInstruction {
            opcode: field_value(word, 0, 7) as u8,
            rd: field_value(word, 7, 5) as u8,
            funct3: field_value(word, 12, 3) as u8,
            rs1: field_value(word, 15, 5) as u8,
            imm: field_value(word, 20, 12) as u16,
        }
    }

    fn from_u32(input: u32) -> (r: Self) {
        let opcode = extract_bits(input, 0, 7) as u8;
        let rd = extract_bits(input, 7, 5) as u8;
        let funct3 = extract_bits(input, 12, 3) as u8;
        let rs1 = extract_bits(input, 15, 5) as u8;
        let imm = extract_bits(input, 20, 12) as u16;
        let r = IInstruction { opcode, rd, funct3, rs1, imm };
        proof {
            lemma2_to64();
            lemma_field_value_bound(input, 0, 7);
            lemma_field_value_bound(input, 7, 5);
            lemma_field_value_bound(input, 12, 3);
            lemma_field_value_bound(input, 15, 5);
            lemma_field_value_bound(input, 20, 12);
            lemma_i_offsets();
            lemma_round_trip(input, i_widths());
            assert(r.field_values() =~= decoded_fields(input, i_widths()));
        }
        r
    }

    fn to_u32(&self) -> (r: u32) {
        proof {
            lemma_pow2_pos(0);
            lemma_i_offsets();
        }
        let a0 = or_field(0, self.opcode as u32, 0, 7);
        let a1 = or_field(a0, self.rd as u32, 7, 5);
        let a2 = or_field(a1, self.funct3 as u32, 12, 3);
        let a3 = or_field(a2, self.rs1 as u32, 15, 5);
        let a4 = or_field(a3, self.imm as u32, 20, 12);
        proof {
            let vals = self.field_values();
            let ws = i_widths();
            assert(ws[0] == 7 && ws[1] == 5 && ws[2] == 3 && ws[3] == 5 && ws[4] == 12);
            assert(vals[0] == self.opcode as nat && vals[1] == self.rd as nat && vals[2] == self.funct3 as nat && vals[3] == self.rs1 as nat && vals[4] == self.imm as nat);
            assert(encode_prefix(vals, ws, 0) == 0);
            assert(a0 as nat == encode_prefix(vals, ws, 1));
            assert(a1 as nat == encode_prefix(vals, ws, 2));
            assert(a2 as nat == encode_prefix(vals, ws, 3));
            assert(a3 as nat == encode_prefix(vals, ws, 4));
            assert(a4 as nat == encode_prefix(vals, ws, 5));
        }
        a4
    }
}

/// The I-format schema.
pub fn i_format() -> (s: FormatSchema)
    ensures
        s.wf(),
        s.widths() == i_widths(),
{
    let mut fields: Vec<FieldSpec> = Vec::new();
    fields.push(field("opcode", 7));
    fields.push(field("rd", 5));
    fields.push(field("funct3", 3));
    fields.push(field("rs1", 5));
    fields.push(field("imm", 12));
    proof {
        lemma_i_offsets();
        assert(widths_of(fields@) =~= i_widths());
    }
    let r = define_format(fields);
    r.unwrap()
}

/// S-type instruction
///
/// Useful for stores: two source registers and an immediate
/// split into two pieces.
pub struct SInstruction {
    pub opcode: u8,
    pub imm0: u8,
    pub funct3: u8,
    /// Source
    pub rs1: u8,
    /// Source
    pub rs2: u8,
    pub imm1: u8,
}

/// The field widths of the S format.
pub open spec fn s_widths() -> Seq<u8> {
    seq![7u8, 5u8, 3u8, 5u8, 5u8, 7u8]
}

/// The field offsets of the S format, and that the widths cover the word.
pub proof fn lemma_s_offsets()
    ensures
        layout_wf(s_widths()),
        offset_of(s_widths(), 0) == 0,
        offset_of(s_widths(), 1) == 7,
        offset_of(s_widths(), 2) == 12,
        offset_of(s_widths(), 3) == 15,
        offset_of(s_widths(), 4) == 20,
        offset_of(s_widths(), 5) == 25,
        offset_of(s_widths(), 6) == 32,
{
    let ws = s_widths();
    assert(ws.len() == 6);
    assert(offset_of(ws, 0) == 0);
    assert(offset_of(ws, 1) == 7);
    assert(offset_of(ws, 2) == 12);
    assert(offset_of(ws, 3) == 15);
    assert(offset_of(ws, 4) == 20);
    assert(offset_of(ws, 5) == 25);
    assert(offset_of(ws, 6) == 32);
    assert forall|i: int| 0 <= i < ws.len() implies ws[i] >= 1 by {
        assert(ws[0] == 7);
        assert(ws[1] == 5);
        assert(ws[2] == 3);
        assert(ws[3] == 5);
        assert(ws[4] == 5);
        assert(ws[5] == 7);
    }
}

impl Instruction for SInstruction {
    open spec fn format_widths() -> Seq<u8> {
        s_widths()
    }

    open spec fn field_values(&self) -> Seq<nat> {
        seq![
            self.opcode as nat,
            self.imm0 as nat,
            self.funct3 as nat,
            self.rs1 as nat,
            self.rs2 as nat,
            self.imm1 as nat,
        ]
    }

    open spec fn decoded(word: u32) -> Self {
        SInstruction {
            opcode: field_value(word, 0, 7) as u8,
            imm0: field_value(word, 7, 5) as u8,
            funct3: field_value(word, 12, 3) as u8,
            rs1: field_value(word, 15, 5) as u8,
            rs2: field_value(word, 20, 5) as u8,
            imm1: field_value(word, 25, 7) as u8,
        }
    }

    fn from_u32(input: u32) -> (r: Self) {
        let opcode = extract_bits(input, 0, 7) as u8;
        let imm0 = extract_bits(input, 7, 5) as u8;
        let funct3 = extract_bits(input, 12, 3) as u8;
        let rs1 = extract_bits(input, 15, 5) as u8;
        let rs2 = extract_bits(input, 20, 5) as u8;
        let imm1 = extract_bits(input, 25, 7) as u8;
        let r = SInstruction { opcode, imm0, funct3, rs1, rs2, imm1 };
        proof {
            lemma2_to64();
            lemma_field_value_bound(input, 0, 7);
            lemma_field_value_bound(input, 7, 5);
            lemma_field_value_bound(input, 12, 3);
            lemma_field_value_bound(input, 15, 5);
            lemma_field_value_bound(input, 20, 5);
            lemma_field_value_bound(input, 25, 7);
            lemma_s_offsets();
            lemma_round_trip(input, s_widths());
            assert(r.field_values() =~= decoded_fields(input, s_widths()));
        }
        r
    }

    fn to_u32(&self) -> (r: u32) {
        proof {
            lemma_pow2_pos(0);
            lemma_s_offsets();
        }
        let a0 = or_field(0, self.opcode as u32, 0, 7);
        let a1 = or_field(a0, self.imm0 as u32, 7, 5);
        let a2 = or_field(a1, self.funct3 as u32, 12, 3);
        let a3 = or_field(a2, self.rs1 as u32, 15, 5);
        let a4 = or_field(a3, self.rs2 as u32, 20, 5);
        let a5 = or_field(a4, self.imm1 as u32, 25, 7);
        proof {
            let vals = self.field_values();
            let ws = s_widths();
            assert(ws[0] == 7 && ws[1] == 5 && ws[2] == 3 && ws[3] == 5 && ws[4] == 5 && ws[5] == 7);
            assert(vals[0] == self.opcode as nat && vals[1] == self.imm0 as nat && vals[2] == self.funct3 as nat && vals[3] == self.rs1 as nat && vals[4] == self.rs2 as nat && vals[5] == self.imm1 as nat);
            assert(encode_prefix(vals, ws, 0) == 0);
            assert(a0 as nat == encode_prefix(vals, ws, 1));
            assert(a1 as nat == encode_prefix(vals, ws, 2));
            assert(a2 as nat == encode_prefix(vals, ws, 3));
            assert(a3 as nat == encode_prefix(vals, ws, 4));
            assert(a4 as nat == encode_prefix(vals, ws, 5));
            assert(a5 as nat == encode_prefix(vals, ws, 6));
        }
        a5
    }
}

/// The S-format schema.
pub fn s_format() -> (s: FormatSchema)
    ensures
        s.wf(),
        s.widths() == s_widths(),
{
    let mut fields: Vec<FieldSpec> = Vec::new();
    fields.push(field("opcode", 7));
    fields.push(field("imm0", 5));
    fields.push(field("funct3", 3));
    fields.push(field("rs1", 5));
    fields.push(field("rs2", 5));
    fields.push(field("imm1", 7));
    proof {
        lemma_s_offsets();
        assert(widths_of(fields@) =~= s_widths());
    }
    let r = define_format(fields);
    r.unwrap()
}

/// B-type instruction
///
/// Useful for branches: two source registers and an immediate
/// split into three pieces.
pub struct BInstruction {
    pub opcode: u8,
    pub imm0: u8,
    pub imm1: u8,
    pub funct3: u8,
    /// Source
    pub rs1: u8,
    /// Source
    pub rs2: u8,
    pub imm2: u8,
}

/// The field widths of the B format.
pub open spec fn b_widths() -> Seq<u8> {
    seq![7u8, 2u8, 2u8, 3u8, 5u8, 5u8, 8u8]
}

/// The field offsets of the B format, and that the widths cover the word.
pub proof fn lemma_b_offsets()
    ensures
        layout_wf(b_widths()),
        offset_of(b_widths(), 0) == 0,
        offset_of(b_widths(), 1) == 7,
        offset_of(b_widths(), 2) == 9,
        offset_of(b_widths(), 3) == 11,
        offset_of(b_widths(), 4) == 14,
        offset_of(b_widths(), 5) == 19,
        offset_of(b_widths(), 6) == 24,
        offset_of(b_widths(), 7) == 32,
{
    let ws = b_widths();
    assert(ws.len() == 7);
    assert(offset_of(ws, 0) == 0);
    assert(offset_of(ws, 1) == 7);
    assert(offset_of(ws, 2) == 9);
    assert(offset_of(ws, 3) == 11);
    assert(offset_of(ws, 4) == 14);
    assert(offset_of(ws, 5) == 19);
    assert(offset_of(ws, 6) == 24);
    assert(offset_of(ws, 7) == 32);
    assert forall|i: int| 0 <= i < ws.len() implies ws[i] >= 1 by {
        assert(ws[0] == 7);
        assert(ws[1] == 2);
        assert(ws[2] == 2);
        assert(ws[3] == 3);
        assert(ws[4] == 5);
        assert(ws[5] == 5);
        assert(ws[6] == 8);
    }
}

impl Instruction for BInstruction {
    open spec fn format_widths() -> Seq<u8> {
        b_widths()
    }

    open spec fn field_values(&self) -> Seq<nat> {
        seq![
            self.opcode as nat,
            self.imm0 as nat,
            self.imm1 as nat,
            self.funct3 as nat,
            self.rs1 as nat,
            self.rs2 as nat,
            self.imm2 as nat,
        ]
    }

    open spec fn decoded(word: u32) -> Self {
        BInstruction {
            opcode: field_value(word, 0, 7) as u8,
            imm0: field_value(word, 7, 2) as u8,
            imm1: field_value(word, 9, 2) as u8,
            funct3: field_value(word, 11, 3) as u8,
            rs1: field_value(word, 14, 5) as u8,
            rs2: field_value(word, 19, 5) as u8,
            imm2: field_value(word, 24, 8) as u8,
        }
    }

    fn from_u32(input: u32) -> (r: Self) {
        let opcode = extract_bits(input, 0, 7) as u8;
        let imm0 = extract_bits(input, 7, 2) as u8;
        let imm1 = extract_bits(input, 9, 2) as u8;
        let funct3 = extract_bits(input, 11, 3) as u8;
        let rs1 = extract_bits(input, 14, 5) as u8;
        let rs2 = extract_bits(input, 19, 5) as u8;
        let imm2 = extract_bits(input, 24, 8) as u8;
        let r = BInstruction { opcode, imm0, imm1, funct3, rs1, rs2, imm2 };
        proof {
            lemma2_to64();
            lemma_field_value_bound(input, 0, 7);
            lemma_field_value_bound(input, 7, 2);
            lemma_field_value_bound(input, 9, 2);
            lemma_field_value_bound(input, 11, 3);
            lemma_field_value_bound(input, 14, 5);
            lemma_field_value_bound(input, 19, 5);
            lemma_field_value_bound(input, 24, 8);
            lemma_b_offsets();
            lemma_round_trip(input, b_widths());
            assert(r.field_values() =~= decoded_fields(input, b_widths()));
        }
        r
    }

    fn to_u32(&self) -> (r: u32) {
        proof {
            lemma_pow2_pos(0);
            lemma_b_offsets();
        }
        let a0 = or_field(0, self.opcode as u32, 0, 7);
        let a1 = or_field(a0, self.imm0 as u32, 7, 2);
        let a2 = or_field(a1, self.imm1 as u32, 9, 2);
        let a3 = or_field(a2, self.funct3 as u32, 11, 3);
        let a4 = or_field(a3, self.rs1 as u32, 14, 5);
        let a5 = or_field(a4, self.rs2 as u32, 19, 5);
        let a6 = or_field(a5, self.imm2 as u32, 24, 8);
        proof {
            let vals = self.field_values();
            let ws = b_widths();
            assert(ws[0] == 7 && ws[1] == 2 && ws[2] == 2 && ws[3] == 3 && ws[4] == 5 && ws[5] == 5 && ws[6] == 8);
            assert(vals[0] == self.opcode as nat && vals[1] == self.imm0 as nat && vals[2] == self.imm1 as nat && vals[3] == self.funct3 as nat && vals[4] == self.rs1 as nat && vals[5] == self.rs2 as nat && vals[6] == self.imm2 as nat);
            assert(encode_prefix(vals, ws, 0) == 0);
            assert(a0 as nat == encode_prefix(vals, ws, 1));
            assert(a1 as nat == encode_prefix(vals, ws, 2));
            assert(a2 as nat == encode_prefix(vals, ws, 3));
            assert(a3 as nat == encode_prefix(vals, ws, 4));
            assert(a4 as nat == encode_prefix(vals, ws, 5));
            assert(a5 as nat == encode_prefix(vals, ws, 6));
            assert(a6 as nat == encode_prefix(vals, ws, 7));
        }
        a6
    }
}

/// The B-format schema.
pub fn b_format() -> (s: FormatSchema)
    ensures
        s.wf(),
        s.widths() == b_widths(),
{
    let mut fields: Vec<FieldSpec> = Vec::new();
    fields.push(field("opcode", 7));
    fields.push(field("imm0", 2));
    fields.push(field("imm1", 2));
    fields.push(field("funct3", 3));
    fields.push(field("rs1", 5));
    fields.push(field("rs2", 5));
    fields.push(field("imm2", 8));
    proof {
        lemma_b_offsets();
        assert(widths_of(fields@) =~= b_widths());
    }
    let r = define_format(fields);
    r.unwrap()
}

/// U-type instruction
///
/// Useful for upper-immediate operations: an opcode, a destination
/// register and one wide immediate.
pub struct UInstruction {
    pub opcode: u8,
    /// Destination
    pub rd: u8,
    pub imm: u32,
}

/// The field widths of the U format.
pub open spec fn u_widths() -> Seq<u8> {
    seq![7u8, 5u8, 20u8]
}

/// The field offsets of the U format, and that the widths cover the word.
pub proof fn lemma_u_offsets()
    ensures
        layout_wf(u_widths()),
        offset_of(u_widths(), 0) == 0,
        offset_of(u_widths(), 1) == 7,
        offset_of(u_widths(), 2) == 12,
        offset_of(u_widths(), 3) == 32,
{
    let ws = u_widths();
    assert(ws.len() == 3);
    assert(offset_of(ws, 0) == 0);
    assert(offset_of(ws, 1) == 7);
    assert(offset_of(ws, 2) == 12);
    assert(offset_of(ws, 3) == 32);
    assert forall|i: int| 0 <= i < ws.len() implies ws[i] >= 1 by {
        assert(ws[0] == 7);
        assert(ws[1] == 5);
        assert(ws[2] == 20);
    }
}

impl Instruction for UInstruction {
    open spec fn format_widths() -> Seq<u8> {
        u_widths()
    }

    open spec fn field_values(&self) -> Seq<nat> {
        seq![
            self.opcode as nat,
            self.rd as nat,
            self.imm as nat,
        ]
    }

    open spec fn decoded(word: u32) -> Self {
        UInstruction {
            opcode: field_value(word, 0, 7) as u8,
            rd: field_value(word, 7, 5) as u8,
            imm: field_value(word, 12, 20) as u32,
        }
    }

    fn from_u32(input: u32) -> (r: Self) {
        let opcode = extract_bits(input, 0, 7) as u8;
        let rd = extract_bits(input, 7, 5) as u8;
        let imm = extract_bits(input, 12, 20);
        let r = UInstruction { opcode, rd, imm };
        proof {
            lemma2_to64();
            lemma_field_value_bound(input, 0, 7);
            lemma_field_value_bound(input, 7, 5);
            lemma_field_value_bound(input, 12, 20);
            lemma_u_offsets();
            lemma_round_trip(input, u_widths());
            assert(r.field_values() =~= decoded_fields(input, u_widths()));
        }
        r
    }

    fn to_u32(&self) -> (r: u32) {
        proof {
            lemma_pow2_pos(0);
            lemma_u_offsets();
        }
        let a0 = or_field(0, self.opcode as u32, 0, 7);
        let a1 = or_field(a0, self.rd as u32, 7, 5);
        let a2 = or_field(a1, self.imm as u32, 12, 20);
        proof {
            let vals = self.field_values();
            let ws = u_widths();
            assert(ws[0] == 7 && ws[1] == 5 && ws[2] == 20);
            assert(vals[0] == self.opcode as nat && vals[1] == self.rd as nat && vals[2] == self.imm as nat);
            assert(encode_prefix(vals, ws, 0) == 0);
            assert(a0 as nat == encode_prefix(vals, ws, 1));
            assert(a1 as nat == encode_prefix(vals, ws, 2));
            assert(a2 as nat == encode_prefix(vals, ws, 3));
        }
        a2
    }
}

/// The U-format schema.
pub fn u_format() -> (s: FormatSchema)
    ensures
        s.wf(),
        s.widths() == u_widths(),
{
    let mut fields: Vec<FieldSpec> = Vec::new();
    fields.push(field("opcode", 7));
    fields.push(field("rd", 5));
    fields.push(field("imm", 20));
    proof {
        lemma_u_offsets();
        assert(widths_of(fields@) =~= u_widths());
    }
    let r = define_format(fields);
    r.unwrap()
}
/// J-type instruction
///
/// Useful for jumps: an opcode, a destination register and a wide
/// immediate split into four pieces.
pub struct JInstruction {
    pub opcode: u8,
    /// Destination
    pub rd: u8,
    pub imm0: u8,
    pub imm1: u8,
    pub imm2: u16,
    pub imm3: u8,
}

/// The field widths of the J format.
pub open spec fn j_widths() -> Seq<u8> {
    seq![7u8, 5u8, 8u8, 1u8, 10u8, 1u8]
}

/// The field offsets of the J format, and that the widths cover the word.
pub proof fn lemma_j_offsets()
    ensures
        layout_wf(j_widths()),
        offset_of(j_widths(), 0) == 0,
        offset_of(j_widths(), 1) == 7,
        offset_of(j_widths(), 2) == 12,
        offset_of(j_widths(), 3) == 20,
        offset_of(j_widths(), 4) == 21,
        offset_of(j_widths(), 5) == 31,
        offset_of(j_widths(), 6) == 32,
{
    let ws = j_widths();
    assert(ws.len() == 6);
    assert(offset_of(ws, 0) == 0);
    assert(offset_of(ws, 1) == 7);
    assert(offset_of(ws, 2) == 12);
    assert(offset_of(ws, 3) == 20);
    assert(offset_of(ws, 4) == 21);
    assert(offset_of(ws, 5) == 31);
    assert(offset_of(ws, 6) == 32);
    assert forall|i: int| 0 <= i < ws.len() implies ws[i] >= 1 by {
        assert(ws[0] == 7);
        assert(ws[1] == 5);
        assert(ws[2] == 8);
        assert(ws[3] == 1);
        assert(ws[4] == 10);
        assert(ws[5] == 1);
    }
}

impl Instruction for JInstruction {
    open spec fn format_widths() -> Seq<u8> {
        j_widths()
    }

    open spec fn field_values(&self) -> Seq<nat> {
        seq![
            self.opcode as nat,
            self.rd as nat,
            self.imm0 as nat,
            self.imm1 as nat,
            self.imm2 as nat,
            self.imm3 as nat,
        ]
    }

    open spec fn decoded(word: u32) -> Self {
        JInstruction {
            opcode: field_value(word, 0, 7) as u8,
            rd: field_value(word, 7, 5) as u8,
            imm0: field_value(word, 12, 8) as u8,
            imm1: field_value(word, 20, 1) as u8,
            imm2: field_value(word, 21, 10) as u16,
            imm3: field_value(word, 31, 1) as u8,
        }
    }

    fn from_u32(input: u32) -> (r: Self) {
        let opcode = extract_bits(input, 0, 7) as u8;
        let rd = extract_bits(input, 7, 5) as u8;
        let imm0 = extract_bits(input, 12, 8) as u8;
        let imm1 = extract_bits(input, 20, 1) as u8;
        let imm2 = extract_bits(input, 21, 10) as u16;
        let imm3 = extract_bits(input, 31, 1) as u8;
        let r = JInstruction { opcode, rd, imm0, imm1, imm2, imm3 };
        proof {
            lemma2_to64();
            lemma_field_value_bound(input, 0, 7);
            lemma_field_value_bound(input, 7, 5);
            lemma_field_value_bound(input, 12, 8);
            lemma_field_value_bound(input, 20, 1);
            lemma_field_value_bound(input, 21, 10);
            lemma_field_value_bound(input, 31, 1);
            lemma_j_offsets();
            lemma_round_trip(input, j_widths());
            assert(r.field_values() =~= decoded_fields(input, j_widths()));
        }
        r
    }

    fn to_u32(&self) -> (r: u32) {
        proof {
            lemma_pow2_pos(0);
            lemma_j_offsets();
        }
        let a0 = or_field(0, self.opcode as u32, 0, 7);
        let a1 = or_field(a0, self.rd as u32, 7, 5);
        let a2 = or_field(a1, self.imm0 as u32, 12, 8);
        let a3 = or_field(a2, self.imm1 as u32, 20, 1);
        let a4 = or_field(a3, self.imm2 as u32, 21, 10);
        let a5 = or_field(a4, self.imm3 as u32, 31, 1);
        proof {
            let vals = self.field_values();
            let ws = j_widths();
            assert(ws[0] == 7 && ws[1] == 5 && ws[2] == 8 && ws[3] == 1 && ws[4] == 10 && ws[5]
                == 1);
            assert(vals[0] == self.opcode as nat && vals[1] == self.rd as nat && vals[2]
                == self.imm0 as nat && vals[3] == self.imm1 as nat && vals[4] == self.imm2 as nat
                && vals[5] == self.imm3 as nat);
            assert(encode_prefix(vals, ws, 0) == 0);
            assert(a0 as nat == encode_prefix(vals, ws, 1));
            assert(a1 as nat == encode_prefix(vals, ws, 2));
            assert(a2 as nat == encode_prefix(vals, ws, 3));
            assert(a3 as nat == encode_prefix(vals, ws, 4));
            assert(a4 as nat == encode_prefix(vals, ws, 5));
            assert(a5 as nat == encode_prefix(vals, ws, 6));
        }
        a5
    }
}

/// A named field of the given width.
fn field(name: &str, width: u8) -> (f: FieldSpec)
    ensures
        f.width == width,
{
    FieldSpec { name: name.to_string(), width }
}

/// The J-format schema.
pub fn j_format() -> (s: FormatSchema)
    ensures
        s.wf(),
        s.widths() == j_widths(),
{
    let mut fields: Vec<FieldSpec> = Vec::new();
    fields.push(field("opcode", 7));
    fields.push(field("rd", 5));
    fields.push(field("imm0", 8));
    fields.push(field("imm1", 1));
    fields.push(field("imm2", 10));
    fields.push(field("imm3", 1));
    proof {
        lemma_j_offsets();
        assert(widths_of(fields@) =~= j_widths());
    }
    let r = define_format(fields);
    r.unwrap()
}

} // verus!
