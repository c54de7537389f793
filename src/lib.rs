//! An emulator for the Universal Machine: a register machine with eight
//! 32-bit registers, fourteen opcodes and a segmented memory of word arrays.
pub mod decode;
pub mod loader;
pub mod segmented_memory;
pub mod um;
