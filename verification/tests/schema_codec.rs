//! Schema validation and the generic, schema-driven codec.

use isa::codec::{decode, encode, InstructionRecord};
use isa::formats::{b_format, i_format, j_format, r_format, s_format, u_format};
use isa::schema::{define_format, FieldSpec, SchemaError};

fn named(name: &str, width: u8) -> FieldSpec {
    FieldSpec {
        name: name.to_string(),
        width,
    }
}

#[test]
fn define_format_accepts_a_full_word() {
    let fields = vec![named("opcode", 7), named("rd", 5), named("imm", 20)];
    assert!(define_format(fields).is_ok());
}

#[test]
fn define_format_rejects_sum_31() {
    let fields = vec![named("opcode", 7), named("rd", 5), named("imm", 19)];
    match define_format(fields) {
        Err(SchemaError::WidthSum { expected, actual }) => {
            assert_eq!(expected, 32);
            assert_eq!(actual, 31);
        }
        _ => panic!("a 31-bit layout must be rejected with the computed sum"),
    }
}

#[test]
fn define_format_rejects_sum_33() {
    let fields = vec![named("opcode", 7), named("rd", 5), named("imm", 21)];
    match define_format(fields) {
        Err(SchemaError::WidthSum { expected, actual }) => {
            assert_eq!(expected, 32);
            assert_eq!(actual, 33);
        }
        _ => panic!("a 33-bit layout must be rejected with the computed sum"),
    }
}

#[test]
fn define_format_rejects_an_empty_field_list() {
    match define_format(Vec::new()) {
        Err(SchemaError::WidthSum { expected, actual }) => {
            assert_eq!(expected, 32);
            assert_eq!(actual, 0);
        }
        _ => panic!("an empty layout must be rejected"),
    }
}

#[test]
fn define_format_rejects_a_zero_width_field() {
    let fields = vec![named("opcode", 7), named("gap", 0), named("imm", 25)];
    match define_format(fields) {
        Err(SchemaError::ZeroWidth { index }) => assert_eq!(index, 1),
        _ => panic!("a zero-width field must be rejected with its index"),
    }
}

#[test]
fn generic_codec_round_trips_every_format() {
    let schemas = [
        r_format(),
        i_format(),
        s_format(),
        b_format(),
        u_format(),
        j_format(),
    ];
    for schema in &schemas {
        for &word in &[0u32, 1, 0xFFFF_FFFF, 0x1234_5678, 0xDEAD_BEEF] {
            let record = decode(word, schema);
            assert_eq!(encode(&record, schema), word);
        }
    }
}

#[test]
fn decode_extracts_the_j_format_bit_slices() {
    let schema = j_format();
    let word: u32 = 0b00001011_01010_0111100;
    let record = decode(word, &schema);
    assert_eq!(record.values, vec![0b0111100, 0b01010, 0b1011, 0, 0, 0]);
    assert_eq!(encode(&record, &schema), word);
}

#[test]
fn decode_is_deterministic() {
    let schema = b_format();
    let word: u32 = 0x8765_4321;
    let first = decode(word, &schema);
    let second = decode(word, &schema);
    assert_eq!(first.values, second.values);
    assert_eq!(encode(&first, &schema), encode(&second, &schema));
}

#[test]
fn encode_truncates_an_oversized_value() {
    // A 3-bit field given 0b1011 keeps only 0b011.
    let fields = vec![named("small", 3), named("rest", 29)];
    let schema = define_format(fields).unwrap();
    let record = InstructionRecord {
        values: vec![0b1011, 0],
    };
    assert_eq!(encode(&record, &schema), 0b011);
}

#[test]
fn schema_reports_its_fields() {
    let schema = j_format();
    assert_eq!(schema.len(), 6);
    assert_eq!(schema.width_at(2), 8);
    assert_eq!(schema.name_at(0).as_str(), "opcode");
    assert_eq!(schema.name_at(4).as_str(), "imm2");
}
