//! The execution core: registers, program counter, and one handler per
//! opcode. The machine never does I/O itself: it stops with a status that
//! asks its driver to emit a byte or to supply one.
use vstd::prelude::*;
use crate::decode::{
    get_load_reg_a, get_load_value, get_opcode_value, get_three_reg_a, get_three_reg_b,
    get_three_reg_c, load_imm, load_reg, opcode_of, reg_a, reg_b, reg_c,
};
use crate::segmented_memory::{MemoryError, MemoryModel, SegmentedMemory};

verus! {

pub const NUM_REGISTERS: usize = 8;

/// 2^32, the modulus of word arithmetic.
pub const WORD_MODULUS: u64 = 0x1_0000_0000;

/// Why the machine stopped with a fault. The instruction at the program
/// counter is the one that faulted, and the state is as it was before it.
#[derive(Debug, Clone, Copy, PartialEq, Eq, Structural)]
pub enum Fault {
    /// A segment id that is not live, or an attempt to free segment 0.
    UnknownSegment,
    /// An offset (or the program counter) past the end of its segment.
    OutOfRange,
    /// Division by a zero register.
    DivisionByZero,
    /// Output of a value above 255.
    IoOutOfRange,
    /// Opcode 14 or 15.
    InvalidOpcode,
    /// An allocation when every segment id is live or recycled-and-reused.
    SegmentIdsExhausted,
}

/// What a step left the machine waiting for.
#[derive(Debug, Clone, Copy, PartialEq, Eq, Structural)]
pub enum Status {
    /// Ready for the next instruction.
    Running,
    /// The Halt instruction ran.
    Halted,
    /// This byte is to be written to the output stream.
    Output(u8),
    /// An Input instruction waits for `provide_input`.
    AwaitingInput,
}

/// The machine's view of its input stream.
#[derive(Debug, Clone, Copy, PartialEq, Eq, Structural)]
pub enum InputState {
    /// Nothing read ahead.
    Empty,
    /// One byte read ahead, for the next Input instruction.
    Byte(u8),
    /// The stream has ended, for good.
    Closed,
}

/// The abstract state of the machine.
pub struct UmModel {
    pub pc: usize,
    pub regs: Seq<u32>,
    pub mem: MemoryModel,
    pub input: InputState,
}

pub open spec fn fault_of(e: MemoryError) -> Fault {
    match e {
        MemoryError::UnknownSegment => Fault::UnknownSegment,
        MemoryError::OutOfRange => Fault::OutOfRange,
    }
}

/// What a step gives: the next state and the status, or a fault with the
/// state unchanged.
pub type StepResult = (UmModel, Result<Status, Fault>);

/// `s` with the program counter moved to the next instruction.
pub open spec fn advance(s: UmModel) -> UmModel {
    UmModel { pc: (s.pc + 1) as usize, ..s }
}

/// `s` with register `r` set to `v`.
pub open spec fn set_reg(s: UmModel, r: usize, v: u32) -> UmModel {
    UmModel { regs: s.regs.update(r as int, v), ..s }
}

pub open spec fn running(s: UmModel) -> StepResult {
    (advance(s), Ok(Status::Running))
}

pub open spec fn faulted(s: UmModel, f: Fault) -> StepResult {
    (s, Err(f))
}

pub open spec fn cond_move_spec(s: UmModel, w: u32) -> StepResult {
    if s.regs[reg_c(w) as int] != 0 {
        running(set_reg(s, reg_a(w), s.regs[reg_b(w) as int]))
    } else {
        running(s)
    }
}

pub open spec fn seg_load_spec(s: UmModel, w: u32) -> StepResult {
    match s.mem.read(s.regs[reg_b(w) as int], s.regs[reg_c(w) as int] as int) {
        Ok(v) => running(set_reg(s, reg_a(w), v)),
        Err(e) => faulted(s, fault_of(e)),
    }
}

pub open spec fn seg_store_spec(s: UmModel, w: u32) -> StepResult {
    match s.mem.write(s.regs[reg_a(w) as int], s.regs[reg_b(w) as int] as int, s.regs[reg_c(w) as int]) {
        Ok(m) => running(UmModel { mem: m, ..s }),
        Err(e) => faulted(s, fault_of(e)),
    }
}

/// The sum of two words modulo 2^32.
pub open spec fn word_sum(x: u32, y: u32) -> u32 {
    ((x as nat + y as nat) % (WORD_MODULUS as nat)) as u32
}

/// The product of two words modulo 2^32.
pub open spec fn word_product(x: u32, y: u32) -> u32 {
    ((x as nat * y as nat) % (WORD_MODULUS as nat)) as u32
}

pub open spec fn add_spec(s: UmModel, w: u32) -> StepResult {
    running(set_reg(s, reg_a(w), word_sum(s.regs[reg_b(w) as int], s.regs[reg_c(w) as int])))
}

pub open spec fn mult_spec(s: UmModel, w: u32) -> StepResult {
    running(set_reg(s, reg_a(w), word_product(s.regs[reg_b(w) as int], s.regs[reg_c(w) as int])))
}

pub open spec fn div_spec(s: UmModel, w: u32) -> StepResult {
    if s.regs[reg_c(w) as int] == 0 {
        faulted(s, Fault::DivisionByZero)
    } else {
        running(set_reg(s, reg_a(w), (s.regs[reg_b(w) as int] / s.regs[reg_c(w) as int]) as u32))
    }
}

pub open spec fn nand_spec(s: UmModel, w: u32) -> StepResult {
    running(set_reg(s, reg_a(w), !(s.regs[reg_b(w) as int] & s.regs[reg_c(w) as int])))
}

pub open spec fn map_segment_spec(s: UmModel, w: u32) -> StepResult {
    if !s.mem.can_allocate() {
        faulted(s, Fault::SegmentIdsExhausted)
    } else {
        let id = s.mem.next_allocated_id();
        let m = s.mem.allocate(s.regs[reg_c(w) as int] as nat);
        running(set_reg(UmModel { mem: m, ..s }, reg_b(w), id))
    }
}

pub open spec fn unmap_segment_spec(s: UmModel, w: u32) -> StepResult {
    match s.mem.free(s.regs[reg_c(w) as int]) {
        Ok(m) => running(UmModel { mem: m, ..s }),
        Err(e) => faulted(s, fault_of(e)),
    }
}

pub open spec fn output_spec(s: UmModel, w: u32) -> StepResult {
    let v = s.regs[reg_c(w) as int];
    if v > 255 {
        faulted(s, Fault::IoOutOfRange)
    } else {
        (advance(s), Ok(Status::Output(v as u8)))
    }
}

pub open spec fn input_spec(s: UmModel, w: u32) -> StepResult {
    match s.input {
        InputState::Byte(b) => running(
            set_reg(UmModel { input: InputState::Empty, ..s }, reg_c(w), b as u32),
        ),
        InputState::Closed => running(set_reg(s, reg_c(w), 0xffff_ffffu32)),
        InputState::Empty => (s, Ok(Status::AwaitingInput)),
    }
}

pub open spec fn load_program_spec(s: UmModel, w: u32) -> StepResult {
    match s.mem.load_program(s.regs[reg_b(w) as int]) {
        Ok(m) => (UmModel { mem: m, pc: s.regs[reg_c(w) as int] as usize, ..s }, Ok(Status::Running)),
        Err(e) => faulted(s, fault_of(e)),
    }
}

pub open spec fn load_value_spec(s: UmModel, w: u32) -> StepResult {
    running(set_reg(s, load_reg(w), load_imm(w)))
}

/// The effect of executing instruction `w` in state `s`.
pub open spec fn execute_spec(s: UmModel, w: u32) -> StepResult {
    let op = opcode_of(w);
    if op == 0 {
        cond_move_spec(s, w)
    } else if op == 1 {
        seg_load_spec(s, w)
    } else if op == 2 {
        seg_store_spec(s, w)
    } else if op == 3 {
        add_spec(s, w)
    } else if op == 4 {
        mult_spec(s, w)
    } else if op == 5 {
        div_spec(s, w)
    } else if op == 6 {
        nand_spec(s, w)
    } else if op == 7 {
        (s, Ok(Status::Halted))
    } else if op == 8 {
        map_segment_spec(s, w)
    } else if op == 9 {
        unmap_segment_spec(s, w)
    } else if op == 10 {
        output_spec(s, w)
    } else if op == 11 {
        input_spec(s, w)
    } else if op == 12 {
        load_program_spec(s, w)
    } else if op == 13 {
        load_value_spec(s, w)
    } else {
        faulted(s, Fault::InvalidOpcode)
    }
}

/// One fetch-decode-execute step.
pub open spec fn step_spec(s: UmModel) -> StepResult {
    match s.mem.read(0, s.pc as int) {
        Ok(w) => execute_spec(s, w),
        Err(e) => faulted(s, fault_of(e)),
    }
}

/// Up to `fuel` steps, stopping at the first status other than `Running`.
pub open spec fn run_spec(s: UmModel, fuel: nat) -> StepResult
    decreases fuel,
{
    if fuel == 0 {
        (s, Ok(Status::Running))
    } else {
        let (next, r) = step_spec(s);
        if r == Ok::<Status, Fault>(Status::Running) {
            run_spec(next, (fuel - 1) as nat)
        } else {
            (next, r)
        }
    }
}

/// `w` is the instruction at the program counter of `s`.
pub open spec fn fetched(s: UmModel, w: u32) -> bool {
    s.mem.read(0, s.pc as int) == Ok::<u32, MemoryError>(w)
}

impl UmModel {
    /// Eight registers, a well-formed memory, and a program segment short
    /// enough to be indexed by a `usize`.
    pub open spec fn inv(self) -> bool {
        &&& self.regs.len() == NUM_REGISTERS
        &&& self.mem.inv()
        &&& self.mem.segments[0].len() <= usize::MAX
    }
}

/// Add, Mul and Nand leave in register A the sum, the product (both modulo
/// 2^32) and the bitwise NOT of the AND of registers B and C, and go on to
/// the next instruction.
pub proof fn lemma_arithmetic_wraps(s: UmModel, w: u32)
    requires
        s.inv(),
        fetched(s, w),
        opcode_of(w) == 3 || opcode_of(w) == 4 || opcode_of(w) == 6,
    ensures
        step_spec(s).1 == Ok::<Status, Fault>(Status::Running),
        step_spec(s).0.pc == s.pc + 1,
        opcode_of(w) == 3 ==> step_spec(s).0.regs[reg_a(w) as int] as int == (s.regs[reg_b(
            w,
        ) as int] as int + s.regs[reg_c(w) as int] as int) % 0x1_0000_0000,
        opcode_of(w) == 4 ==> step_spec(s).0.regs[reg_a(w) as int] as int == (s.regs[reg_b(
            w,
        ) as int] as int * s.regs[reg_c(w) as int] as int) % 0x1_0000_0000,
        opcode_of(w) == 6 ==> step_spec(s).0.regs[reg_a(w) as int] == !(s.regs[reg_b(w) as int]
            & s.regs[reg_c(w) as int]),
{
    assert(reg_a(w) < 8) by (bit_vector);
    let x = s.regs[reg_b(w) as int] as int;
    let y = s.regs[reg_c(w) as int] as int;
    assert(0 <= x * y) by (nonlinear_arith)
        requires
            0 <= x,
            0 <= y,
    ;
}

/// A load-immediate followed by a halt stops the machine with the
/// immediate's low 25 bits, zero-extended, in the target register.
pub proof fn lemma_load_immediate_then_halt(s: UmModel, w: u32, halt: u32, fuel: nat)
    requires
        s.inv(),
        fetched(s, w),
        opcode_of(w) == 13,
        s.mem.read(0, s.pc + 1) == Ok::<u32, MemoryError>(halt),
        opcode_of(halt) == 7,
        fuel >= 2,
    ensures
        run_spec(s, fuel).1 == Ok::<Status, Fault>(Status::Halted),
        run_spec(s, fuel).0.regs[load_reg(w) as int] as int == w as int % 0x0200_0000,
{
    assert(load_reg(w) < 8) by (bit_vector);
    assert(load_imm(w) as int == w as int % 0x0200_0000) by (bit_vector);
    let s1 = step_spec(s).0;
    assert(s1.pc == s.pc + 1);
    assert(run_spec(s1, (fuel - 1) as nat) == (s1, Ok::<Status, Fault>(Status::Halted)));
}

/// A Universal Machine: registers, program counter, memory and input.
pub struct UmState {
    program_counter: usize,
    registers: [u32; NUM_REGISTERS],
    segmented_memory: SegmentedMemory,
    input: InputState,
}

impl View for UmState {
    type V = UmModel;

    closed spec fn view(&self) -> UmModel {
        UmModel {
            pc: self.program_counter,
            regs: self.registers@,
            mem: self.segmented_memory@,
            input: self.input,
        }
    }
}

impl UmState {
    /// The memory is well-formed.
    pub closed spec fn wf(&self) -> bool {
        self.segmented_memory.wf()
    }

    /// A well-formed machine's model satisfies the model invariant.
    pub proof fn lemma_wf_inv(&self)
        requires
            self.wf(),
        ensures
            self@.inv(),
    {
        self.segmented_memory.lemma_wf_inv();
    }

    /// A machine whose segment 0 is a copy of `program`, with all registers
    /// and the program counter at zero.
    pub fn new(program: &Vec<u32>) -> (r: UmState)
        ensures
            r.wf(),
            r@ == (UmModel {
                pc: 0,
                regs: Seq::new(8, |i: int| 0u32),
                mem: MemoryModel::initial(program@),
                input: InputState::Empty,
            }),
    {
        let st = UmState {
            program_counter: 0,
            registers: [0u32; NUM_REGISTERS],
            segmented_memory: SegmentedMemory::new(program),
            input: InputState::Empty,
        };
        assert(st@.regs =~= Seq::new(8, |i: int| 0u32));
        st
    }

    /// A copy of `length` zero words becomes a new segment; returns its id.
    pub fn map_new_segment(&mut self, length: usize) -> (r: u32)
        requires
            old(self).wf(),
            old(self)@.mem.can_allocate(),
        ensures
            final(self).wf(),
            r == old(self)@.mem.next_allocated_id(),
            final(self)@ == (UmModel { mem: old(self)@.mem.allocate(length as nat), ..old(self)@ }),
    {
        self.segmented_memory.map_new_segment(length)
    }

    /// Fetches, decodes and executes one instruction.
    pub fn step(&mut self) -> (r: Result<Status, Fault>)
        requires
            old(self).wf(),
        ensures
            final(self).wf(),
            (final(self)@, r) == step_spec(old(self)@),
    {
        let instruction = match self.segmented_memory.fetch_instruction(self.program_counter) {
            Ok(w) => w,
            Err(e) => {
                return Err(memory_fault(e));
            },
        };
        let opcode_value = get_opcode_value(instruction);
        if opcode_value == 0 {
            cond_move(self, instruction)
        } else if opcode_value == 1 {
            seg_load(self, instruction)
        } else if opcode_value == 2 {
            seg_store(self, instruction)
        } else if opcode_value == 3 {
            crate::um::add(self, instruction)
        } else if opcode_value == 4 {
            mult(self, instruction)
        } else if opcode_value == 5 {
            div(self, instruction)
        } else if opcode_value == 6 {
            nand(self, instruction)
        } else if opcode_value == 7 {
            Ok(Status::Halted)
        } else if opcode_value == 8 {
            map_segment(self, instruction)
        } else if opcode_value == 9 {
            unmap_segment(self, instruction)
        } else if opcode_value == 10 {
            output(self, instruction)
        } else if opcode_value == 11 {
            input(self, instruction)
        } else if opcode_value == 12 {
            load_program(self, instruction)
        } else if opcode_value == 13 {
            load_value(self, instruction)
        } else {
            Err(Fault::InvalidOpcode)
        }
    }

    /// Executes up to `max_steps` instructions and returns at the first
    /// status other than `Running` (a halt, a byte to write out, a wait for
    /// input) or fault; `Running` means the steps ran out.
    pub fn run(&mut self, max_steps: u64) -> (r: Result<Status, Fault>)
        requires
            old(self).wf(),
        ensures
            final(self).wf(),
            (final(self)@, r) == run_spec(old(self)@, max_steps as nat),
    {
        let ghost start = self@;
        let mut remaining: u64 = max_steps;
        let mut result: Result<Status, Fault> = Ok(Status::Running);
        while remaining > 0
            invariant
                self.wf(),
                result == Ok::<Status, Fault>(Status::Running) ==> run_spec(start, max_steps as nat)
                    == run_spec(self@, remaining as nat),
                result != Ok::<Status, Fault>(Status::Running) ==> remaining == 0 && (self@, result)
                    == run_spec(start, max_steps as nat),
            decreases remaining,
        {
            let ghost prev = self@;
            result = self.step();
            assert(run_spec(prev, remaining as nat) == if result == Ok::<Status, Fault>(
                Status::Running,
            ) {
                run_spec(self@, (remaining - 1) as nat)
            } else {
                (self@, result)
            });
            match result {
                Ok(Status::Running) => {
                    remaining = remaining - 1;
                },
                _ => {
                    remaining = 0;
                },
            }
        }
        result
    }

    /// Hands the machine the next input byte, or `None` at the end of the
    /// stream; once the stream has ended it stays ended.
    pub fn provide_input(&mut self, byte: Option<u8>)
        requires
            old(self).wf(),
        ensures
            final(self).wf(),
            final(self)@ == (UmModel {
                input: match byte {
                    Some(b) => if old(self)@.input == InputState::Closed {
                        InputState::Closed
                    } else {
                        InputState::Byte(b)
                    },
                    None => InputState::Closed,
                },
                ..old(self)@
            }),
    {
        match byte {
            Some(b) => {
                if self.input != InputState::Closed {
                    self.input = InputState::Byte(b);
                }
            },
            None => {
                self.input = InputState::Closed;
            },
        }
    }

    /// The offset in segment 0 of the next instruction.
    pub fn program_counter(&self) -> (r: usize)
        ensures
            r == self@.pc,
    {
        self.program_counter
    }

    /// The value of register `index`.
    pub fn register(&self, index: usize) -> (r: u32)
        requires
            index < NUM_REGISTERS,
        ensures
            r == self@.regs[index as int],
    {
        self.registers[index]
    }

    /// The segmented memory, for reading.
    pub fn memory(&self) -> (r: &SegmentedMemory)
        requires
            self.wf(),
        ensures
            r.wf(),
            r@ == self@.mem,
    {
        &self.segmented_memory
    }
}

/// The program counter of the instruction after the current one.
fn next_pc(state: &UmState, instruction: u32) -> (r: usize)
    requires
        state.wf(),
        fetched(state@, instruction),
    ensures
        r == state@.pc + 1,
{
    proof {
        state.segmented_memory.lemma_wf_inv();
    }
    state.program_counter + 1
}

/// Register A gets register B when register C is nonzero.
fn cond_move(state: &mut UmState, instruction: u32) -> (r: Result<Status, Fault>)
    requires
        old(state).wf(),
        fetched(old(state)@, instruction),
    ensures
        final(state).wf(),
        (final(state)@, r) == cond_move_spec(old(state)@, instruction),
{
    if state.registers[get_three_reg_c(instruction)] != 0 {
        state.registers[get_three_reg_a(instruction)] = state.registers[get_three_reg_b(
            instruction,
        )];
    }
    state.program_counter = next_pc(state, instruction);
    proof {
        let ghost o = old(state)@;
        if o.regs[reg_c(instruction) as int] != 0 {
            assert(state@.regs =~= o.regs.update(
                reg_a(instruction) as int,
                o.regs[reg_b(instruction) as int],
            ));
        } else {
            assert(state@.regs =~= o.regs);
        }
    }
    Ok(Status::Running)
}

/// Register A gets word C of segment B.
fn seg_load(state: &mut UmState, instruction: u32) -> (r: Result<Status, Fault>)
    requires
        old(state).wf(),
        fetched(old(state)@, instruction),
    ensures
        final(state).wf(),
        (final(state)@, r) == seg_load_spec(old(state)@, instruction),
{
    let memory_result = state.segmented_memory.read_word(
        state.registers[get_three_reg_b(instruction)],
        state.registers[get_three_reg_c(instruction)] as usize,
    );
    match memory_result {
        Ok(v) => {
            state.registers[get_three_reg_a(instruction)] = v;
            state.program_counter = next_pc(state, instruction);
            assert(state@.regs =~= old(state)@.regs.update(reg_a(instruction) as int, v));
            Ok(Status::Running)
        },
        Err(e) => Err(memory_fault(e)),
    }
}

/// Word B of segment A gets register C.
fn seg_store(state: &mut UmState, instruction: u32) -> (r: Result<Status, Fault>)
    requires
        old(state).wf(),
        fetched(old(state)@, instruction),
    ensures
        final(state).wf(),
        (final(state)@, r) == seg_store_spec(old(state)@, instruction),
{
    let pc = next_pc(state, instruction);
    let stored = state.segmented_memory.write_word(
        state.registers[get_three_reg_a(instruction)],
        state.registers[get_three_reg_b(instruction)] as usize,
        state.registers[get_three_reg_c(instruction)],
    );
    match stored {
        Ok(()) => {
            state.program_counter = pc;
            Ok(Status::Running)
        },
        Err(e) => Err(memory_fault(e)),
    }
}

/// Applies `operator` to registers B and C and stores the result in A.
fn math<F: Fn(u32, u32) -> u32>(state: &mut UmState, instruction: u32, operator: F) -> (r: Result<
    Status,
    Fault,
>)
    requires
        old(state).wf(),
        fetched(old(state)@, instruction),
        forall|x: u32, y: u32| operator.requires((x, y)),
    ensures
        final(state).wf(),
        r == Ok::<Status, Fault>(Status::Running),
        operator.ensures(
            (old(state)@.regs[reg_b(instruction) as int], old(state)@.regs[reg_c(instruction) as int]),
            final(state)@.regs[reg_a(instruction) as int],
        ),
        final(state)@ == advance(
            set_reg(old(state)@, reg_a(instruction), final(state)@.regs[reg_a(instruction) as int]),
        ),
{
    let result = operator(
        state.registers[get_three_reg_b(instruction)],
        state.registers[get_three_reg_c(instruction)],
    );
    state.registers[get_three_reg_a(instruction)] = result;
    state.program_counter = next_pc(state, instruction);
    assert(state@.regs =~= old(state)@.regs.update(reg_a(instruction) as int, result));
    Ok(Status::Running)
}

/// Register A gets the sum of B and C modulo 2^32.
fn add(state: &mut UmState, instruction: u32) -> (r: Result<Status, Fault>)
    requires
        old(state).wf(),
        fetched(old(state)@, instruction),
    ensures
        final(state).wf(),
        (final(state)@, r) == add_spec(old(state)@, instruction),
{
    let r = math(state, instruction, u32::wrapping_add);
    assert(state@.regs[reg_a(instruction) as int] == word_sum(
        old(state)@.regs[reg_b(instruction) as int],
        old(state)@.regs[reg_c(instruction) as int],
    ));
    r
}

/// Register A gets the product of B and C modulo 2^32.
fn mult(state: &mut UmState, instruction: u32) -> (r: Result<Status, Fault>)
    requires
        old(state).wf(),
        fetched(old(state)@, instruction),
    ensures
        final(state).wf(),
        (final(state)@, r) == mult_spec(old(state)@, instruction),
{
    math(state, instruction, u32::wrapping_mul)
}

/// Register A gets the quotient of B by C; a zero C is a fault.
fn div(state: &mut UmState, instruction: u32) -> (r: Result<Status, Fault>)
    requires
        old(state).wf(),
        fetched(old(state)@, instruction),
    ensures
        final(state).wf(),
        (final(state)@, r) == div_spec(old(state)@, instruction),
{
    let divisor = state.registers[get_three_reg_c(instruction)];
    if divisor == 0 {
        return Err(Fault::DivisionByZero);
    }
    state.registers[get_three_reg_a(instruction)] = state.registers[get_three_reg_b(instruction)]
        / divisor;
    state.program_counter = next_pc(state, instruction);
    assert(state@.regs =~= old(state)@.regs.update(
        reg_a(instruction) as int,
        (old(state)@.regs[reg_b(instruction) as int] / divisor) as u32,
    ));
    Ok(Status::Running)
}

/// Register A gets the bitwise NOT of the AND of B and C.
fn nand(state: &mut UmState, instruction: u32) -> (r: Result<Status, Fault>)
    requires
        old(state).wf(),
        fetched(old(state)@, instruction),
    ensures
        final(state).wf(),
        (final(state)@, r) == nand_spec(old(state)@, instruction),
{
    math(state, instruction, |x: u32, y: u32| -> (z: u32)
        ensures
            z == !(x & y),
        { !(x & y) })
}

/// Register B gets the id of a new zeroed segment of C words.
fn map_segment(state: &mut UmState, instruction: u32) -> (r: Result<Status, Fault>)
    requires
        old(state).wf(),
        fetched(old(state)@, instruction),
    ensures
        final(state).wf(),
        (final(state)@, r) == map_segment_spec(old(state)@, instruction),
{
    if !state.segmented_memory.can_allocate() {
        return Err(Fault::SegmentIdsExhausted);
    }
    let pc = next_pc(state, instruction);
    let size = state.registers[get_three_reg_c(instruction)];
    let new_id = state.segmented_memory.map_new_segment(size as usize);
    state.registers[get_three_reg_b(instruction)] = new_id;
    state.program_counter = pc;
    assert(state@.regs =~= old(state)@.regs.update(reg_b(instruction) as int, new_id));
    Ok(Status::Running)
}

/// Frees the segment whose id is in register C.
fn unmap_segment(state: &mut UmState, instruction: u32) -> (r: Result<Status, Fault>)
    requires
        old(state).wf(),
        fetched(old(state)@, instruction),
    ensures
        final(state).wf(),
        (final(state)@, r) == unmap_segment_spec(old(state)@, instruction),
{
    let pc = next_pc(state, instruction);
    match state.segmented_memory.unmap_segment(state.registers[get_three_reg_c(instruction)]) {
        Ok(()) => {
            state.program_counter = pc;
            Ok(Status::Running)
        },
        Err(e) => Err(memory_fault(e)),
    }
}

/// Asks for register C to be written out; values above 255 are a fault.
fn output(state: &mut UmState, instruction: u32) -> (r: Result<Status, Fault>)
    requires
        old(state).wf(),
        fetched(old(state)@, instruction),
    ensures
        final(state).wf(),
        (final(state)@, r) == output_spec(old(state)@, instruction),
{
    let value = state.registers[get_three_reg_c(instruction)];
    if value > 255 {
        return Err(Fault::IoOutOfRange);
    }
    state.program_counter = next_pc(state, instruction);
    Ok(Status::Output(value as u8))
}

/// Register C gets the byte read ahead, or all ones once the input has
/// ended; with nothing read ahead the machine waits.
fn input(state: &mut UmState, instruction: u32) -> (r: Result<Status, Fault>)
    requires
        old(state).wf(),
        fetched(old(state)@, instruction),
    ensures
        final(state).wf(),
        (final(state)@, r) == input_spec(old(state)@, instruction),
{
    let value: u32 = match state.input {
        InputState::Byte(b) => b as u32,
        InputState::Closed => u32::MAX,
        InputState::Empty => {
            return Ok(Status::AwaitingInput);
        },
    };
    if state.input != InputState::Closed {
        state.input = InputState::Empty;
    }
    state.registers[get_three_reg_c(instruction)] = value;
    state.program_counter = next_pc(state, instruction);
    assert(state@.regs =~= old(state)@.regs.update(reg_c(instruction) as int, value));
    Ok(Status::Running)
}

/// Segment 0 becomes a copy of segment B, and execution goes on at offset C.
fn load_program(state: &mut UmState, instruction: u32) -> (r: Result<Status, Fault>)
    requires
        old(state).wf(),
        fetched(old(state)@, instruction),
    ensures
        final(state).wf(),
        (final(state)@, r) == load_program_spec(old(state)@, instruction),
{
    let new_segment_zero = state.registers[get_three_reg_b(instruction)];
    match state.segmented_memory.load_segment_zero(new_segment_zero) {
        Ok(()) => {
            state.program_counter = state.registers[get_three_reg_c(instruction)] as usize;
            Ok(Status::Running)
        },
        Err(e) => Err(memory_fault(e)),
    }
}

/// The load-immediate register gets the 25-bit immediate.
fn load_value(state: &mut UmState, instruction: u32) -> (r: Result<Status, Fault>)
    requires
        old(state).wf(),
        fetched(old(state)@, instruction),
    ensures
        final(state).wf(),
        (final(state)@, r) == load_value_spec(old(state)@, instruction),
{
    let value = get_load_value(instruction);
    state.registers[get_load_reg_a(instruction)] = value;
    state.program_counter = next_pc(state, instruction);
    assert(state@.regs =~= old(state)@.regs.update(load_reg(instruction) as int, value));
    Ok(Status::Running)
}

/// The machine fault that a memory error stands for.
fn memory_fault(e: MemoryError) -> (r: Fault)
    ensures
        r == fault_of(e),
{
    match e {
        MemoryError::UnknownSegment => Fault::UnknownSegment,
        MemoryError::OutOfRange => Fault::OutOfRange,
    }
}

} // verus!
