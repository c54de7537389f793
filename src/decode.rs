//! Field extraction from 32-bit instruction words.
use vstd::prelude::*;

verus! {

pub const OPCODE_FIELD_WIDTH: u32 = 4;
pub const REGISTER_FIELD_WIDTH: u32 = 3;
pub const VALUE_FIELD_WIDTH: u32 = 25;
pub const THREE_REG_A_LSB: u32 = 6;
pub const THREE_REG_B_LSB: u32 = 3;
pub const THREE_REG_C_LSB: u32 = 0;
pub const ONE_REG_A_LSB: u32 = 25;
pub const ONE_REG_VALUE_LSB: u32 = 0;

/// The `width` bits of `word` that start at bit `lsb`.
pub open spec fn field(word: u32, lsb: u32, width: u32) -> u32 {
    (word >> lsb) & (0xffff_ffffu32 >> (32 - width) as u32)
}

/// Opcode: bits 31..28.
pub open spec fn opcode_of(word: u32) -> u32 {
    word >> 28
}

/// Register A of the standard form: bits 8..6.
pub open spec fn reg_a(word: u32) -> usize {
    ((word >> 6) & 7) as usize
}

/// Register B of the standard form: bits 5..3.
pub open spec fn reg_b(word: u32) -> usize {
    ((word >> 3) & 7) as usize
}

/// Register C of the standard form: bits 2..0.
pub open spec fn reg_c(word: u32) -> usize {
    (word & 7) as usize
}

/// Register A of the load-immediate form: bits 27..25.
pub open spec fn load_reg(word: u32) -> usize {
    ((word >> 25) & 7) as usize
}

/// Immediate of the load-immediate form: bits 24..0.
pub open spec fn load_imm(word: u32) -> u32 {
    word & 0x01ff_ffff
}

/// Extracts `width` bits of `word` starting at bit `lsb`, by shifting the
/// field to the top of the word and then down to the bottom.
pub fn get_field(word: u32, lsb: u32, width: u32) -> (r: u32)
    requires
        1 <= width,
        lsb + width <= 32,
    ensures
        r == field(word, lsb, width),
{
    let up: u32 = 32 - (width + lsb);
    let down: u32 = 32 - width;
    assert((word << up) >> down == (word >> lsb) & (0xffff_ffffu32 >> down)) by (bit_vector)
        requires
            1 <= width,
            lsb + width <= 32,
            up == 32 - (width + lsb),
            down == 32 - width,
    ;
    (word << up) >> down
}

/// Register A of a standard-form instruction.
pub fn get_three_reg_a(instruction: u32) -> (r: usize)
    ensures
        r == reg_a(instruction),
        r < 8,
{
    let f = get_field(instruction, THREE_REG_A_LSB, REGISTER_FIELD_WIDTH);
    assert(f == (instruction >> 6) & 7 && f < 8) by (bit_vector)
        requires
            f == (instruction >> 6) & (0xffff_ffffu32 >> 29u32),
    ;
    f as usize
}

/// Register B of a standard-form instruction.
pub fn get_three_reg_b(instruction: u32) -> (r: usize)
    ensures
        r == reg_b(instruction),
        r < 8,
{
    let f = get_field(instruction, THREE_REG_B_LSB, REGISTER_FIELD_WIDTH);
    assert(f == (instruction >> 3) & 7 && f < 8) by (bit_vector)
        requires
            f == (instruction >> 3) & (0xffff_ffffu32 >> 29u32),
    ;
    f as usize
}

/// Register C of a standard-form instruction.
pub fn get_three_reg_c(instruction: u32) -> (r: usize)
    ensures
        r == reg_c(instruction),
        r < 8,
{
    let f = get_field(instruction, THREE_REG_C_LSB, REGISTER_FIELD_WIDTH);
    assert(f == instruction & 7 && f < 8) by (bit_vector)
        requires
            f == (instruction >> 0u32) & (0xffff_ffffu32 >> 29u32),
    ;
    f as usize
}

/// The target register of a load-immediate instruction.
pub fn get_load_reg_a(instruction: u32) -> (r: usize)
    ensures
        r == load_reg(instruction),
        r < 8,
{
    let f = get_field(instruction, ONE_REG_A_LSB, REGISTER_FIELD_WIDTH);
    assert(f == (instruction >> 25) & 7 && f < 8) by (bit_vector)
        requires
            f == (instruction >> 25u32) & (0xffff_ffffu32 >> 29u32),
    ;
    f as usize
}

/// The 25-bit immediate of a load-immediate instruction.
pub fn get_load_value(instruction: u32) -> (r: u32)
    ensures
        r == load_imm(instruction),
        r < 0x0200_0000,
{
    let f = get_field(instruction, ONE_REG_VALUE_LSB, VALUE_FIELD_WIDTH);
    assert(f == instruction & 0x01ff_ffff && f < 0x0200_0000) by (bit_vector)
        requires
            f == (instruction >> 0u32) & (0xffff_ffffu32 >> 7u32),
    ;
    f
}

/// The opcode: the top four bits.
pub fn get_opcode_value(instruction: u32) -> (r: u32)
    ensures
        r == opcode_of(instruction),
        r < 16,
{
    assert(instruction >> 28u32 < 16) by (bit_vector);
    instruction >> (32 - OPCODE_FIELD_WIDTH)
}

} // verus!
