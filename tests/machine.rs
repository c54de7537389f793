use universal_machine::um::{Fault, Status, UmState};

fn standard(opcode: u32, a: u32, b: u32, c: u32) -> u32 {
    (opcode << 28) | (a << 6) | (b << 3) | c
}

fn load_immediate(a: u32, value: u32) -> u32 {
    (13 << 28) | (a << 25) | value
}

const HALT: u32 = 0x7000_0000;

/// Runs `program` to a halt or a fault, feeding it `input` byte by byte.
fn execute(program: &[u32], input: &[u8]) -> (Vec<u8>, Result<Status, Fault>, UmState) {
    let mut um = UmState::new(&program.to_vec());
    let mut out = Vec::new();
    let mut pos = 0;
    for _ in 0..1000 {
        match um.run(100_000) {
            Ok(Status::Running) => {}
            Ok(Status::Output(b)) => out.push(b),
            Ok(Status::AwaitingInput) => {
                um.provide_input(input.get(pos).copied());
                pos += 1;
            }
            Ok(Status::Halted) => return (out, Ok(Status::Halted), um),
            Err(f) => return (out, Err(f), um),
        }
    }
    panic!("program did not stop");
}

#[test]
fn halt_only() {
    let (out, r, _) = execute(&[0x7000_0000], b"");
    assert_eq!(r, Ok(Status::Halted));
    assert!(out.is_empty());
}

#[test]
fn load_immediate_output_halt() {
    let (out, r, _) = execute(&[0xD000_0041, 0xA000_0000, 0x7000_0000], b"");
    assert_eq!(r, Ok(Status::Halted));
    assert_eq!(out, b"A".to_vec());
}

#[test]
fn echo_one_byte() {
    let (out, r, _) = execute(&[0xB000_0000, 0xA000_0000, 0x7000_0000], b"Z");
    assert_eq!(r, Ok(Status::Halted));
    assert_eq!(out, b"Z".to_vec());
}

#[test]
fn map_store_load() {
    let program = [
        load_immediate(1, 1),     // r1 = 1 (length)
        standard(8, 0, 2, 1),     // r2 = map(r1)
        load_immediate(3, 0x2A),  // r3 = 42
        load_immediate(4, 0),     // r4 = 0 (offset)
        standard(2, 2, 4, 3),     // m[r2][r4] = r3
        standard(1, 5, 2, 4),     // r5 = m[r2][r4]
        standard(10, 0, 0, 5),    // output r5
        HALT,
    ];
    let (out, r, um) = execute(&program, b"");
    assert_eq!(r, Ok(Status::Halted));
    assert_eq!(out, b"*".to_vec());
    assert_eq!(um.register(2), 1);
}

#[test]
fn self_modifying_jump() {
    let program = [
        load_immediate(1, 2),             // r1 = 2 (length)
        standard(8, 0, 2, 1),             // r2 = map(r1)
        load_immediate(3, 1),             // r3 = 1 (offset)
        load_immediate(4, 7),             // r4 = 7
        load_immediate(5, 1 << 24),       // r5 = 2^24
        standard(4, 6, 4, 5),             // r6 = 7 * 2^24
        load_immediate(5, 16),            // r5 = 16
        standard(4, 6, 6, 5),             // r6 = 7 << 28: a Halt word
        standard(2, 2, 3, 6),             // m[r2][1] = Halt
        standard(12, 0, 2, 3),            // load program r2, pc = 1
        load_immediate(0, 0x41),          // never reached
        standard(10, 0, 0, 0),
        HALT,
    ];
    let (out, r, um) = execute(&program, b"");
    assert_eq!(r, Ok(Status::Halted));
    assert!(out.is_empty());
    assert_eq!(um.program_counter(), 1);
    assert_eq!(um.memory().fetch_instruction(1), Ok(HALT));
}

#[test]
fn division_by_zero_faults() {
    let program = [standard(5, 2, 0, 1), HALT];
    let (out, r, um) = execute(&program, b"");
    assert_eq!(r, Err(Fault::DivisionByZero));
    assert!(out.is_empty());
    assert_eq!(um.program_counter(), 0);
}

#[test]
fn division_truncates() {
    let program = [load_immediate(0, 17), load_immediate(1, 5), standard(5, 2, 0, 1), HALT];
    let (_, r, um) = execute(&program, b"");
    assert_eq!(r, Ok(Status::Halted));
    assert_eq!(um.register(2), 3);
}

#[test]
fn add_wraps() {
    // r0 = 0 nand 0 = 0xFFFFFFFF; r1 = 2; r2 = r0 + r1 = 1
    let program = [standard(6, 0, 0, 0), load_immediate(1, 2), standard(3, 2, 0, 1), HALT];
    let (_, r, um) = execute(&program, b"");
    assert_eq!(r, Ok(Status::Halted));
    assert_eq!(um.register(0), 0xFFFF_FFFF);
    assert_eq!(um.register(2), 1);
}

#[test]
fn mul_wraps() {
    // r0 = 0xFFFFFFFF; r1 = 3; r2 = r0 * r1 mod 2^32 = 0xFFFFFFFD
    let program = [standard(6, 0, 0, 0), load_immediate(1, 3), standard(4, 2, 0, 1), HALT];
    let (_, _, um) = execute(&program, b"");
    assert_eq!(um.register(2), 0xFFFF_FFFD);
    assert_eq!(um.register(2), 0xFFFF_FFFFu32.wrapping_mul(3));
}

#[test]
fn nand_is_not_and() {
    let program = [
        load_immediate(1, 0x0F0F),
        load_immediate(2, 0x00FF),
        standard(6, 0, 1, 2),
        HALT,
    ];
    let (_, _, um) = execute(&program, b"");
    assert_eq!(um.register(0), !(0x0F0Fu32 & 0x00FF));
    assert_eq!(um.register(0), 0xFFFF_FFF0);
}

#[test]
fn load_immediate_takes_low_25_bits() {
    let word = 0xDFFF_FFFFu32; // opcode 13, A = 7, immediate = 0x1FFFFFF
    let (_, r, um) = execute(&[word, HALT], b"");
    assert_eq!(r, Ok(Status::Halted));
    assert_eq!(um.register(7), 0x01FF_FFFF);
    for i in 0..7 {
        assert_eq!(um.register(i), 0);
    }
}

#[test]
fn conditional_move() {
    let program = [
        load_immediate(1, 5),
        standard(0, 2, 1, 3), // r3 == 0: no move
        load_immediate(3, 1),
        standard(0, 4, 1, 3), // r3 != 0: r4 = r1
        HALT,
    ];
    let (_, _, um) = execute(&program, b"");
    assert_eq!(um.register(2), 0);
    assert_eq!(um.register(4), 5);
}

#[test]
fn output_above_255_faults() {
    let program = [load_immediate(0, 256), standard(10, 0, 0, 0), HALT];
    let (out, r, um) = execute(&program, b"");
    assert_eq!(r, Err(Fault::IoOutOfRange));
    assert!(out.is_empty());
    assert_eq!(um.program_counter(), 1);
}

#[test]
fn invalid_opcode_faults() {
    let (_, r, _) = execute(&[0xE000_0000], b"");
    assert_eq!(r, Err(Fault::InvalidOpcode));
    let (_, r, _) = execute(&[0xF000_0000], b"");
    assert_eq!(r, Err(Fault::InvalidOpcode));
}

#[test]
fn empty_program_faults_on_fetch() {
    let (_, r, _) = execute(&[], b"");
    assert_eq!(r, Err(Fault::OutOfRange));
}

#[test]
fn running_off_the_end_faults() {
    let (_, r, um) = execute(&[load_immediate(0, 1)], b"");
    assert_eq!(r, Err(Fault::OutOfRange));
    assert_eq!(um.program_counter(), 1);
}

#[test]
fn unknown_segment_faults() {
    // r1 = 1: segment 1 was never mapped
    let program = [load_immediate(1, 1), standard(1, 0, 1, 2), HALT];
    let (_, r, _) = execute(&program, b"");
    assert_eq!(r, Err(Fault::UnknownSegment));
    // unmapping segment 0
    let (_, r, _) = execute(&[standard(9, 0, 0, 0), HALT], b"");
    assert_eq!(r, Err(Fault::UnknownSegment));
}

#[test]
fn out_of_range_store_faults() {
    let program = [
        load_immediate(1, 1),
        standard(8, 0, 2, 1), // r2 = map(1)
        load_immediate(3, 1),
        standard(2, 2, 3, 3), // m[r2][1]: past the end
        HALT,
    ];
    let (_, r, um) = execute(&program, b"");
    assert_eq!(r, Err(Fault::OutOfRange));
    assert_eq!(um.program_counter(), 3);
}

#[test]
fn end_of_input_is_sticky() {
    let program = [
        standard(11, 0, 0, 0),
        standard(11, 0, 0, 1),
        standard(11, 0, 0, 2),
        HALT,
    ];
    let mut um = UmState::new(&program.to_vec());
    assert_eq!(um.run(10), Ok(Status::AwaitingInput));
    um.provide_input(Some(b'q'));
    assert_eq!(um.run(10), Ok(Status::AwaitingInput));
    um.provide_input(None);
    um.provide_input(Some(b'x'));
    assert_eq!(um.run(10), Ok(Status::Halted));
    assert_eq!(um.register(0), b'q' as u32);
    assert_eq!(um.register(1), 0xFFFF_FFFF);
    assert_eq!(um.register(2), 0xFFFF_FFFF);
}

#[test]
fn run_stops_when_steps_run_out() {
    let program = [load_immediate(0, 1), load_immediate(1, 2), HALT];
    let mut um = UmState::new(&program.to_vec());
    assert_eq!(um.run(1), Ok(Status::Running));
    assert_eq!(um.program_counter(), 1);
    assert_eq!(um.run(0), Ok(Status::Running));
    assert_eq!(um.program_counter(), 1);
    assert_eq!(um.step(), Ok(Status::Running));
    assert_eq!(um.run(5), Ok(Status::Halted));
    assert_eq!(um.program_counter(), 2);
}

#[test]
fn machine_map_new_segment_recycles() {
    let mut um = UmState::new(&vec![HALT]);
    assert_eq!(um.map_new_segment(4), 1);
    assert_eq!(um.map_new_segment(0), 2);
    assert_eq!(um.memory().read_word(1, 3), Ok(0));
}

#[test]
fn unmap_then_map_reuses_id() {
    let program = [
        load_immediate(1, 3),
        standard(8, 0, 2, 1),  // r2 = map(3) = 1
        standard(8, 0, 3, 1),  // r3 = map(3) = 2
        standard(9, 0, 0, 2),  // unmap r2
        standard(8, 0, 4, 1),  // r4 = map(3) = 1
        HALT,
    ];
    let (_, r, um) = execute(&program, b"");
    assert_eq!(r, Ok(Status::Halted));
    assert_eq!(um.register(2), 1);
    assert_eq!(um.register(3), 2);
    assert_eq!(um.register(4), 1);
}
