//! The opcode table and the decode dispatcher.

use isa::dispatch::{dispatch, DecodedInstruction, FormatTag, OpcodeTable};
use isa::formats::Instruction;
use isa::registers::{base_register_file, RegisterFile};

#[test]
fn dispatch_routes_a_registered_opcode() {
    let mut table = OpcodeTable::new();
    table.register_opcode(0b0111100, FormatTag::J).unwrap();
    let word: u32 = 0b00001011_01010_0111100;
    match dispatch(word, &table) {
        DecodedInstruction::J(inst) => {
            assert_eq!(inst.opcode, 0b0111100);
            assert_eq!(inst.rd, 0b01010);
            assert_eq!(inst.imm0, 0b1011);
            assert_eq!(inst.imm1, 0);
            assert_eq!(inst.imm2, 0);
            assert_eq!(inst.imm3, 0);
            assert_eq!(inst.to_u32(), word);
        }
        _ => panic!("the J format must be selected for its registered opcode"),
    }
}

#[test]
fn dispatch_reports_an_unregistered_opcode() {
    let mut table = OpcodeTable::new();
    table.register_opcode(0b0111100, FormatTag::J).unwrap();
    // Low seven bits are 0b0000011, which is not registered.
    let word: u32 = 0b00001011_01010_0000011;
    assert!(matches!(
        dispatch(word, &table),
        DecodedInstruction::Unrecognized
    ));
}

#[test]
fn dispatch_on_an_empty_table_is_unrecognized() {
    let table = OpcodeTable::new();
    assert!(matches!(
        dispatch(0xFFFF_FFFF, &table),
        DecodedInstruction::Unrecognized
    ));
}

#[test]
fn dispatch_selects_among_several_formats() {
    let mut table = OpcodeTable::new();
    table.register_opcode(0b0110011, FormatTag::R).unwrap();
    table.register_opcode(0b0010011, FormatTag::I).unwrap();
    table.register_opcode(0b0110111, FormatTag::U).unwrap();
    assert!(matches!(
        dispatch(0b0110011, &table),
        DecodedInstruction::R(_)
    ));
    assert!(matches!(
        dispatch(0x0010_0093, &table),
        DecodedInstruction::I(_)
    ));
    assert!(matches!(
        dispatch(0x0001_2537, &table),
        DecodedInstruction::U(_)
    ));
}

#[test]
fn register_opcode_rejects_a_duplicate() {
    let mut table = OpcodeTable::new();
    table.register_opcode(0b0110011, FormatTag::R).unwrap();
    let err = table
        .register_opcode(0b0110011, FormatTag::I)
        .expect_err("a second registration of the same opcode must fail");
    assert_eq!(err.opcode, 0b0110011);
    // The table is unchanged: the opcode still routes to the R format.
    assert!(matches!(
        dispatch(0b0110011, &table),
        DecodedInstruction::R(_)
    ));
}

#[test]
fn register_file_stores_and_returns_words() {
    let mut rf = RegisterFile::new(8);
    assert_eq!(rf.len(), 8);
    assert_eq!(rf.read(3), 0);
    rf.write(3, 0xDEAD_BEEF);
    rf.write(0, 7);
    assert_eq!(rf.read(3), 0xDEAD_BEEF);
    assert_eq!(rf.read(0), 7);
    assert_eq!(rf.read(1), 0);
    assert_eq!(rf.pc(), 0);
    rf.set_pc(0x8000_0000);
    assert_eq!(rf.pc(), 0x8000_0000);
    assert_eq!(rf.read(3), 0xDEAD_BEEF);
}

#[test]
fn base_register_file_has_thirty_two_registers() {
    let rf = base_register_file();
    assert_eq!(rf.len(), 32);
    assert_eq!(rf.pc(), 0);
    assert_eq!(rf.read(31), 0);
}
