//! Word/record conversion through the six instruction formats.

use isa::formats::{
    BInstruction, IInstruction, Instruction, JInstruction, RInstruction, SInstruction,
    UInstruction,
};

#[test]
fn test_conversion() {
    let input: u32 = 0b00001011_01010_0111100;
    let inst = JInstruction::from_u32(input);
    assert_eq!(inst.opcode, 0b0111100);
    assert_eq!(inst.rd, 0b01010);
    assert_eq!(inst.imm0, 0b1011);
    assert_eq!(inst.imm1, 0);
    assert_eq!(inst.imm2, 0);
    assert_eq!(inst.imm3, 0);
    assert_eq!(input, inst.to_u32());
}

#[test]
fn r_format_round_trips() {
    for &word in &[0u32, 1, 0xFFFF_FFFF, 0xDEAD_BEEF, 0x0000_00B3, 0x4000_0033] {
        let inst = RInstruction::from_u32(word);
        assert_eq!(inst.to_u32(), word);
    }
}

#[test]
fn i_format_round_trips() {
    for &word in &[0u32, 0xFFFF_FFFF, 0x0010_0093, 0x8000_0001] {
        let inst = IInstruction::from_u32(word);
        assert_eq!(inst.to_u32(), word);
    }
}

#[test]
fn s_format_round_trips() {
    for &word in &[0u32, 0xFFFF_FFFF, 0x00A1_2223, 0x7FFF_FFFF] {
        let inst = SInstruction::from_u32(word);
        assert_eq!(inst.to_u32(), word);
    }
}

#[test]
fn b_format_round_trips() {
    for &word in &[0u32, 0xFFFF_FFFF, 0x0020_8663, 0xAAAA_AAAA] {
        let inst = BInstruction::from_u32(word);
        assert_eq!(inst.to_u32(), word);
    }
}

#[test]
fn u_format_round_trips() {
    for &word in &[0u32, 0xFFFF_FFFF, 0x0001_2537, 0x8000_0000] {
        let inst = UInstruction::from_u32(word);
        assert_eq!(inst.to_u32(), word);
    }
}

#[test]
fn j_format_round_trips() {
    for &word in &[0u32, 0xFFFF_FFFF, 0x0040_006F, 0x1234_5678] {
        let inst = JInstruction::from_u32(word);
        assert_eq!(inst.to_u32(), word);
    }
}

#[test]
fn r_format_fields_are_bit_slices() {
    // 0b1000001_00010_00001_000_00011_0110011: funct7 rs2 rs1 funct3 rd opcode
    let word: u32 = (0b1000001 << 25) | (0b00010 << 20) | (0b00001 << 15) | (0b000 << 12)
        | (0b00011 << 7) | 0b0110011;
    let inst = RInstruction::from_u32(word);
    assert_eq!(inst.opcode, 0b0110011);
    assert_eq!(inst.rd, 0b00011);
    assert_eq!(inst.funct3, 0b000);
    assert_eq!(inst.rs1, 0b00001);
    assert_eq!(inst.rs2, 0b00010);
    assert_eq!(inst.funct7, 0b1000001);
}

#[test]
fn u_format_fields_are_bit_slices() {
    let word: u32 = (0xFEDCB << 12) | (0b11001 << 7) | 0b0110111;
    let inst = UInstruction::from_u32(word);
    assert_eq!(inst.opcode, 0b0110111);
    assert_eq!(inst.rd, 0b11001);
    assert_eq!(inst.imm, 0xFEDCB);
    assert_eq!(inst.to_u32(), word);
}

#[test]
fn to_u32_truncates_oversized_fields() {
    // funct3 is a 3-bit field; the value 0b1011 keeps only its low 3 bits.
    let inst = RInstruction {
        opcode: 0,
        rd: 0,
        funct3: 0b1011,
        rs1: 0,
        rs2: 0,
        funct7: 0,
    };
    assert_eq!(inst.to_u32(), 0b011 << 12);
}

#[test]
fn from_u32_is_deterministic() {
    let word: u32 = 0xCAFE_F00D;
    let a = JInstruction::from_u32(word);
    let b = JInstruction::from_u32(word);
    assert_eq!(a.opcode, b.opcode);
    assert_eq!(a.rd, b.rd);
    assert_eq!(a.imm0, b.imm0);
    assert_eq!(a.imm1, b.imm1);
    assert_eq!(a.imm2, b.imm2);
    assert_eq!(a.imm3, b.imm3);
    assert_eq!(a.to_u32(), b.to_u32());
}
