use vstd::prelude::*;
use crate::assembler::holds_program;
use crate::arch::{
    decoded_op, ra_field, rb_field, ArchError, Instruction, Memory, OpCode, RegMnem, MEM_SIZE,
};

verus! {

/// Initial stack pointer: the stack grows down from the top of memory.
pub const SP_INIT: u16 = 0x8000;

/// Writing here emits a character.
pub const CHAR_OUT_ADDR: u16 = 0x8000;

/// Reading here consumes a character of input.
pub const CHAR_IN_ADDR: u16 = 0x8001;

/// Reading or writing here ends the program.
pub const END_PROG_ADDR: u16 = 0xFFFF;

/// Index of the program counter in the register file.
pub const PC: u16 = 0;

/// Index of the stack pointer in the register file.
pub const SP: u16 = 7;

/// What an executed instruction asks of the world outside the machine.
#[derive(Clone, Copy, Debug, PartialEq, Eq, Structural)]
pub enum Action {
    /// Nothing: go on with the next instruction.
    Continue,
    /// Emit this byte.
    Output(u8),
    /// Read one byte and hand it to `complete_input`.
    Input,
    /// Stop with this status.
    Exit(u16),
}

/// The machine as the instructions see it: the register file, the memory
/// and the register indices that decoding last latched.
pub ghost struct CpuState {
    pub regs: Seq<u16>,
    pub mem: Seq<u16>,
    pub ra: u16,
    pub rb: u16,
}

/// Two's-complement reading of a word.
pub open spec fn signed(x: u16) -> int {
    if x < 0x8000 {
        x as int
    } else {
        x as int - 0x10000
    }
}

pub open spec fn add16(a: u16, b: u16) -> u16 {
    ((a + b) % 0x10000) as u16
}

pub open spec fn sub16(a: u16, b: u16) -> u16 {
    ((a + 0x10000 - b) % 0x10000) as u16
}

pub open spec fn mul16(a: u16, b: u16) -> u16 {
    ((a * b) % 0x10000) as u16
}

/// Two's-complement negation, wrapping.
pub open spec fn neg16(a: u16) -> u16 {
    ((0x10000 - a) % 0x10000) as u16
}

/// Logical left shift; shifting by 16 or more gives zero.
pub open spec fn shl16(a: u16, n: u16) -> u16 {
    if n >= 16 {
        0
    } else {
        (a << n) as u16
    }
}

/// Logical right shift; shifting by 16 or more gives zero.
pub open spec fn shr16(a: u16, n: u16) -> u16 {
    if n >= 16 {
        0
    } else {
        (a >> n) as u16
    }
}

/// The comparison that a conditional jump makes on two signed values.
pub open spec fn jump_taken(op: OpCode, a: int, b: int) -> bool {
    match op {
        OpCode::Jl => a < b,
        OpCode::Jle => a <= b,
        OpCode::Je => a == b,
        OpCode::Jne => a != b,
        OpCode::Jge => a >= b,
        OpCode::Jg => a > b,
        _ => false,
    }
}

/// A read of `addr` into register `ra`.
pub open spec fn spec_load(addr: u16, ra: u16, regs: Seq<u16>, mem: Seq<u16>) -> Result<
    (Seq<u16>, Seq<u16>, Action),
    ArchError,
> {
    if addr == CHAR_IN_ADDR {
        Ok((regs, mem, Action::Input))
    } else if addr == END_PROG_ADDR {
        Ok((regs, mem, Action::Exit(regs[ra as int])))
    } else if addr >= MEM_SIZE {
        Err(ArchError::MemAddrOutOfRange(addr))
    } else {
        Ok((regs.update(ra as int, mem[addr as int]), mem, Action::Continue))
    }
}

/// A write of `val` to `addr`.
pub open spec fn spec_store(addr: u16, val: u16, regs: Seq<u16>, mem: Seq<u16>) -> Result<
    (Seq<u16>, Seq<u16>, Action),
    ArchError,
> {
    if addr == CHAR_OUT_ADDR {
        Ok((regs, mem, Action::Output((val % 256) as u8)))
    } else if addr == END_PROG_ADDR {
        Ok((regs, mem, Action::Exit(val)))
    } else if addr >= MEM_SIZE {
        Err(ArchError::MemAddrOutOfRange(addr))
    } else {
        Ok((regs, mem.update(addr as int, val), Action::Continue))
    }
}

/// Pushing `val`: the stack pointer moves down one word first.
pub open spec fn spec_push(val: u16, regs: Seq<u16>, mem: Seq<u16>) -> Result<
    (Seq<u16>, Seq<u16>, Action),
    ArchError,
> {
    let sp = sub16(regs[SP as int], 1);
    if sp >= MEM_SIZE {
        Err(ArchError::MemAddrOutOfRange(sp))
    } else {
        Ok((regs.update(SP as int, sp), mem.update(sp as int, val), Action::Continue))
    }
}

/// Popping into register `ra`: read at the stack pointer, then move it up.
pub open spec fn spec_pop(ra: u16, regs: Seq<u16>, mem: Seq<u16>) -> Result<
    (Seq<u16>, Seq<u16>, Action),
    ArchError,
> {
    let sp = regs[SP as int];
    if sp >= MEM_SIZE {
        Err(ArchError::MemAddrOutOfRange(sp))
    } else {
        let regs1 = regs.update(ra as int, mem[sp as int]);
        Ok((regs1.update(SP as int, add16(regs1[SP as int], 1)), mem, Action::Continue))
    }
}

/// Register `ra` set to `v`.
pub open spec fn with_reg(ra: u16, v: u16, regs: Seq<u16>, mem: Seq<u16>) -> Result<
    (Seq<u16>, Seq<u16>, Action),
    ArchError,
> {
    Ok((regs.update(ra as int, v), mem, Action::Continue))
}

/// The effect of one decoded instruction on the registers (whose program
/// counter already points past it) and the memory.
pub open spec fn spec_execute(
    op: OpCode,
    ra: u16,
    rb: u16,
    imm: u16,
    regs: Seq<u16>,
    mem: Seq<u16>,
) -> Result<(Seq<u16>, Seq<u16>, Action), ArchError> {
    let a = regs[ra as int];
    let b = regs[rb as int];
    match op {
        OpCode::SetImm => with_reg(ra, imm, regs, mem),
        OpCode::Copy => with_reg(ra, b, regs, mem),
        OpCode::Load => spec_load(imm, ra, regs, mem),
        OpCode::Stor => spec_store(imm, a, regs, mem),
        OpCode::PLoad => spec_load(b, ra, regs, mem),
        OpCode::PStor => spec_store(a, b, regs, mem),
        OpCode::Push => spec_push(a, regs, mem),
        OpCode::Pop => spec_pop(ra, regs, mem),
        OpCode::Add => with_reg(ra, add16(a, b), regs, mem),
        OpCode::Sub => with_reg(ra, sub16(a, b), regs, mem),
        OpCode::Mult => with_reg(ra, mul16(a, b), regs, mem),
        OpCode::Div => if b == 0 {
            Err(ArchError::DivisionByZero)
        } else {
            with_reg(ra, (a / b) as u16, regs, mem)
        },
        OpCode::Mod => if b == 0 {
            Err(ArchError::DivisionByZero)
        } else {
            with_reg(ra, (a % b) as u16, regs, mem)
        },
        OpCode::Neg => with_reg(ra, neg16(a), regs, mem),
        OpCode::Inc => with_reg(ra, add16(a, 1), regs, mem),
        OpCode::Dec => with_reg(ra, sub16(a, 1), regs, mem),
        OpCode::And => with_reg(ra, a & b, regs, mem),
        OpCode::Or => with_reg(ra, a | b, regs, mem),
        OpCode::Xor => with_reg(ra, a ^ b, regs, mem),
        OpCode::Inv => with_reg(ra, !a, regs, mem),
        OpCode::Shl => with_reg(ra, shl16(a, imm), regs, mem),
        OpCode::Shr => with_reg(ra, shr16(a, imm), regs, mem),
        OpCode::Call => match spec_push(regs[PC as int], regs, mem) {
            Ok((r, m, act)) => Ok((r.update(PC as int, imm), m, act)),
            Err(e) => Err(e),
        },
        _ => if jump_taken(op, signed(a), signed(b)) {
            Ok((regs.update(PC as int, imm), mem, Action::Continue))
        } else {
            Ok((regs, mem, Action::Continue))
        },
    }
}

/// The instruction at the program counter.
pub open spec fn spec_fetch(s: CpuState) -> Result<Instruction, ArchError> {
    let pc = s.regs[PC as int];
    if pc >= MEM_SIZE {
        Err(ArchError::MemAddrOutOfRange(pc))
    } else if pc + 1 >= MEM_SIZE {
        Err(ArchError::MemAddrOutOfRange((pc + 1) as u16))
    } else {
        Ok(Instruction { word_op_regs: s.mem[pc as int], word_imm: s.mem[pc + 1] })
    }
}

/// Register A latched by decoding `w`: read only where the opcode has a
/// register operand.
pub open spec fn latched_ra(op: OpCode, w: u16, prev: u16) -> u16 {
    if op.arity() >= 1 {
        ra_field(w)
    } else {
        prev
    }
}

/// Register B latched by decoding `w`: read only where the opcode has two
/// register operands.
pub open spec fn latched_rb(op: OpCode, w: u16, prev: u16) -> u16 {
    if op.arity() == 2 {
        rb_field(w)
    } else {
        prev
    }
}

/// One fetch, decode and execute.
pub open spec fn spec_step(s: CpuState) -> Result<(CpuState, Action), ArchError> {
    match spec_fetch(s) {
        Err(e) => Err(e),
        Ok(ins) => match decoded_op(ins.word_op_regs) {
            Err(e) => Err(e),
            Ok(op) => {
                let ra = latched_ra(op, ins.word_op_regs, s.ra);
                let rb = latched_rb(op, ins.word_op_regs, s.rb);
                let regs1 = s.regs.update(PC as int, (s.regs[PC as int] + 2) as u16);
                match spec_execute(op, ra, rb, ins.word_imm, regs1, s.mem) {
                    Err(e) => Err(e),
                    Ok((regs, mem, act)) => Ok((CpuState { regs, mem, ra, rb }, act)),
                }
            },
        },
    }
}

/// The byte `v` delivered to the register that an input instruction named.
pub open spec fn spec_input(s: CpuState, v: u8) -> CpuState {
    CpuState { regs: s.regs.update(s.ra as int, v as u16), mem: s.mem, ra: s.ra, rb: s.rb }
}

/// How a bounded run ended.
#[derive(Debug, PartialEq, Eq)]
pub enum RunEnd {
    /// The program stopped itself with this status.
    Exit(u16),
    /// An instruction failed.
    Fault(ArchError),
    /// The program asked for input after the last byte given.
    NoInput,
    /// The step budget ran out.
    OutOfFuel,
}

/// What a bounded run produced.
#[derive(Debug)]
pub struct RunOutcome {
    pub output: Vec<u8>,
    pub end: RunEnd,
}

/// At most `fuel` steps from `s`, reading `input` in order: the final state,
/// the bytes emitted and how the run ended. On a fault the state is the one
/// before the failing instruction.
pub open spec fn spec_run(s: CpuState, input: Seq<u8>, fuel: nat) -> (CpuState, Seq<u8>, RunEnd)
    decreases fuel,
{
    if fuel == 0 {
        (s, Seq::empty(), RunEnd::OutOfFuel)
    } else {
        match spec_step(s) {
            Err(e) => (s, Seq::empty(), RunEnd::Fault(e)),
            Ok((s2, act)) => match act {
                Action::Continue => spec_run(s2, input, (fuel - 1) as nat),
                Action::Output(b) => {
                    let r = spec_run(s2, input, (fuel - 1) as nat);
                    (r.0, seq![b] + r.1, r.2)
                },
                Action::Input => if input.len() == 0 {
                    (s2, Seq::empty(), RunEnd::NoInput)
                } else {
                    spec_run(spec_input(s2, input[0]), input.drop_first(), (fuel - 1) as nat)
                },
                Action::Exit(v) => (s2, Seq::empty(), RunEnd::Exit(v)),
            },
        }
    }
}


/// The machine: memory, register file and decode latches.
#[derive(Debug)]
pub struct TeenyAT {
    mem: Memory,
    ins: Instruction,
    regs: Vec<u16>,
    op_code: OpCode,
    ra: RegMnem,
    rb: RegMnem,
    imm: u16,
    addr: u16,
    pub debug_mode: bool,
}

impl View for TeenyAT {
    type V = CpuState;

    closed spec fn view(&self) -> CpuState {
        CpuState { regs: self.regs@, mem: self.mem.words(), ra: self.ra.index(), rb: self.rb.index() }
    }
}

impl TeenyAT {
    /// The machine's state is well formed: eight registers and a full memory.
    pub closed spec fn wf(&self) -> bool {
        &&& self.regs@.len() == 8
        &&& self.mem.wf()
    }

    /// The whole memory: its words and the length of the program in it.
    pub closed spec fn memory_view(&self) -> (Seq<u16>, nat) {
        self.mem@
    }

    /// Whether the program image is to be shown before running.
    pub closed spec fn debug(&self) -> bool {
        self.debug_mode
    }

    /// A machine over `program` with every register zero but the stack
    /// pointer, which starts at the top of memory.
    pub fn new(program: Memory) -> (r: TeenyAT)
        requires
            program.wf(),
        ensures
            r.wf(),
            r@ == (CpuState {
                regs: seq![0u16, 0u16, 0u16, 0u16, 0u16, 0u16, 0u16, SP_INIT],
                mem: program.words(),
                ra: 0,
                rb: 0,
            }),
            r.memory_view() == program@,
            !r.debug(),
    {
        let mut regs: Vec<u16> = Vec::new();
        let mut i: usize = 0;
        while i < 7
            invariant
                i <= 7,
                regs@ =~= Seq::new(i as nat, |j: int| 0u16),
            decreases 7 - i,
        {
            regs.push(0);
            i = i + 1;
        }
        regs.push(SP_INIT);
        let r = TeenyAT {
            mem: program,
            ins: Instruction::new(0, 0),
            regs,
            op_code: OpCode::SetImm,
            ra: RegMnem::Pc,
            rb: RegMnem::Pc,
            imm: 0,
            addr: 0,
            debug_mode: false,
        };
        assert(r@.regs =~= seq![0u16, 0u16, 0u16, 0u16, 0u16, 0u16, 0u16, SP_INIT]);
        r
    }

    /// The memory the machine runs on.
    pub fn memory(&self) -> (r: &Memory)
        requires
            self.wf(),
        ensures
            r.wf(),
            r.words() == self@.mem,
            r@ == self.memory_view(),
    {
        &self.mem
    }

    /// The value of register `i`.
    pub fn reg(&self, i: u16) -> (r: u16)
        requires
            self.wf(),
            i < 8,
        ensures
            r == self@.regs[i as int],
    {
        self.regs[i as usize]
    }

    /// Reads the instruction at the program counter and moves the program
    /// counter past it.
    fn fetch(&mut self) -> (r: Result<(), ArchError>)
        requires
            old(self).wf(),
        ensures
            final(self).wf(),
            final(self).ra == old(self).ra,
            final(self).rb == old(self).rb,
            final(self).mem == old(self).mem,
            match spec_fetch(old(self)@) {
                Ok(ins) => r is Ok && final(self).ins == ins && final(self).regs@ == old(self).regs@.update(
                    PC as int,
                    (old(self).regs@[PC as int] + 2) as u16,
                ),
                Err(e) => r == Err::<(), ArchError>(e) && final(self).regs == old(self).regs,
            },
    {
        let pc = self.regs[PC as usize];
        let word1 = match self.mem.read(pc) {
            Ok(w) => w,
            Err(e) => return Err(e),
        };
        let word2 = match self.mem.read(pc + 1) {
            Ok(w) => w,
            Err(e) => return Err(e),
        };
        self.ins = Instruction::new(word1, word2);
        self.regs.set(PC as usize, pc + 2);
        Ok(())
    }

    /// Splits the fetched instruction into the decode latches.
    fn decode(&mut self) -> (r: Result<(), ArchError>)
        requires
            old(self).wf(),
        ensures
            final(self).wf(),
            final(self).regs == old(self).regs,
            final(self).mem == old(self).mem,
            match decoded_op(old(self).ins.word_op_regs) {
                Ok(op) => r is Ok && final(self).op_code == op
                    && final(self).ra.index() == latched_ra(op, old(self).ins.word_op_regs, old(self).ra.index())
                    && final(self).rb.index() == latched_rb(op, old(self).ins.word_op_regs, old(self).rb.index())
                    && final(self).imm == old(self).ins.word_imm
                    && final(self).addr == old(self).ins.word_imm,
                Err(e) => r == Err::<(), ArchError>(e),
            },
    {
        self.op_code = match self.ins.get_op_code() {
            Ok(op) => op,
            Err(e) => return Err(e),
        };
        let num_regs = self.op_code.num_regs();
        if num_regs >= 1 {
            self.ra = match self.ins.get_ra() {
                Ok(m) => m,
                Err(e) => return Err(e),
            };
        }
        if num_regs == 2 {
            self.rb = match self.ins.get_rb() {
                Ok(m) => m,
                Err(e) => return Err(e),
            };
        }
        self.imm = self.ins.word_imm;
        self.addr = self.imm;
        Ok(())
    }

    /// The value of the latched register A.
    fn get_ra(&self) -> (r: u16)
        requires
            self.wf(),
        ensures
            r == self@.regs[self@.ra as int],
    {
        self.regs[self.ra.to_int() as usize]
    }

    /// The value of the latched register B.
    fn rb_val(&self) -> (r: u16)
        requires
            self.wf(),
        ensures
            r == self@.regs[self@.rb as int],
    {
        self.regs[self.rb.to_int() as usize]
    }

    /// Sets the latched register A.
    fn set(&mut self, v: u16)
        requires
            old(self).wf(),
        ensures
            final(self).wf(),
            final(self).regs@ == old(self).regs@.update(old(self)@.ra as int, v),
            final(self).mem == old(self).mem,
            final(self).ra == old(self).ra,
            final(self).rb == old(self).rb,
    {
        let i = self.ra.to_int() as usize;
        self.regs.set(i, v);
    }

    /// A read of `addr` into register A.
    fn load(&mut self, addr: u16) -> (r: Result<Action, ArchError>)
        requires
            old(self).wf(),
        ensures
            final(self).wf(),
            final(self).ra == old(self).ra,
            final(self).rb == old(self).rb,
            match spec_load(addr, old(self)@.ra, old(self)@.regs, old(self)@.mem) {
                Ok((regs, mem, act)) => r == Ok::<Action, ArchError>(act) && final(self)@.regs == regs
                    && final(self)@.mem == mem,
                Err(e) => r == Err::<Action, ArchError>(e),
            },
    {
        if addr == CHAR_IN_ADDR {
            Ok(Action::Input)
        } else if addr == END_PROG_ADDR {
            Ok(Action::Exit(self.get_ra()))
        } else {
            match self.mem.read(addr) {
                Ok(v) => {
                    self.set(v);
                    Ok(Action::Continue)
                },
                Err(e) => Err(e),
            }
        }
    }

    /// A write of `val` to `addr`.
    fn stor(&mut self, addr: u16, val: u16) -> (r: Result<Action, ArchError>)
        requires
            old(self).wf(),
        ensures
            final(self).wf(),
            final(self).ra == old(self).ra,
            final(self).rb == old(self).rb,
            final(self).regs == old(self).regs,
            match spec_store(addr, val, old(self)@.regs, old(self)@.mem) {
                Ok((regs, mem, act)) => r == Ok::<Action, ArchError>(act) && final(self)@.mem == mem,
                Err(e) => r == Err::<Action, ArchError>(e),
            },
    {
        if addr == CHAR_OUT_ADDR {
            Ok(Action::Output((val % 256) as u8))
        } else if addr == END_PROG_ADDR {
            Ok(Action::Exit(val))
        } else {
            match self.mem.write(addr, val) {
                Ok(()) => Ok(Action::Continue),
                Err(e) => Err(e),
            }
        }
    }

    /// Pushes `val`: the stack pointer moves down, then the word is written.
    fn push(&mut self, val: u16) -> (r: Result<Action, ArchError>)
        requires
            old(self).wf(),
        ensures
            final(self).wf(),
            final(self).ra == old(self).ra,
            final(self).rb == old(self).rb,
            match spec_push(val, old(self)@.regs, old(self)@.mem) {
                Ok((regs, mem, act)) => r == Ok::<Action, ArchError>(act) && final(self)@.regs == regs
                    && final(self)@.mem == mem,
                Err(e) => r == Err::<Action, ArchError>(e),
            },
    {
        let sp_old = self.regs[SP as usize];
        let sp: u16 = ((sp_old as u32 + 0xFFFF) % 0x10000) as u16;
        match self.mem.write(sp, val) {
            Ok(()) => {
                self.regs.set(SP as usize, sp);
                Ok(Action::Continue)
            },
            Err(e) => Err(e),
        }
    }

    /// Pops into register A: read at the stack pointer, then move it up.
    fn pop(&mut self) -> (r: Result<Action, ArchError>)
        requires
            old(self).wf(),
        ensures
            final(self).wf(),
            final(self).ra == old(self).ra,
            final(self).rb == old(self).rb,
            match spec_pop(old(self)@.ra, old(self)@.regs, old(self)@.mem) {
                Ok((regs, mem, act)) => r == Ok::<Action, ArchError>(act) && final(self)@.regs == regs
                    && final(self)@.mem == mem,
                Err(e) => r == Err::<Action, ArchError>(e),
            },
    {
        let sp = self.regs[SP as usize];
        match self.mem.read(sp) {
            Ok(v) => {
                self.set(v);
                let sp1 = self.regs[SP as usize];
                self.regs.set(SP as usize, ((sp1 as u32 + 1) % 0x10000) as u16);
                Ok(Action::Continue)
            },
            Err(e) => Err(e),
        }
    }

    /// Calls `addr`: pushes the program counter, then jumps.
    fn call(&mut self, addr: u16) -> (r: Result<Action, ArchError>)
        requires
            old(self).wf(),
        ensures
            final(self).wf(),
            final(self).ra == old(self).ra,
            final(self).rb == old(self).rb,
            match spec_push(old(self)@.regs[PC as int], old(self)@.regs, old(self)@.mem) {
                Ok((regs, mem, act)) => r == Ok::<Action, ArchError>(act) && final(self)@.regs
                    == regs.update(PC as int, addr) && final(self)@.mem == mem,
                Err(e) => r == Err::<Action, ArchError>(e),
            },
    {
        let pc = self.regs[PC as usize];
        let r = self.push(pc);
        if r.is_ok() {
            self.regs.set(PC as usize, addr);
        }
        r
    }

    /// A conditional jump to `addr`, on the signed comparison that `op`
    /// names between registers A and B.
    fn jump(&mut self, op: OpCode, addr: u16)
        requires
            old(self).wf(),
        ensures
            final(self).wf(),
            final(self).ra == old(self).ra,
            final(self).rb == old(self).rb,
            final(self).mem == old(self).mem,
            final(self).regs@ == if jump_taken(
                op,
                signed(old(self)@.regs[old(self)@.ra as int]),
                signed(old(self)@.regs[old(self)@.rb as int]),
            ) {
                old(self).regs@.update(PC as int, addr)
            } else {
                old(self).regs@
            },
    {
        let a = self.get_ra();
        let b = self.rb_val();
        let sa: i32 = if a < 0x8000 { a as i32 } else { a as i32 - 0x10000 };
        let sb: i32 = if b < 0x8000 { b as i32 } else { b as i32 - 0x10000 };
        let taken = match op {
            OpCode::Jl => sa < sb,
            OpCode::Jle => sa <= sb,
            OpCode::Je => sa == sb,
            OpCode::Jne => sa != sb,
            OpCode::Jge => sa >= sb,
            OpCode::Jg => sa > sb,
            _ => false,
        };
        if taken {
            self.regs.set(PC as usize, addr);
        }
    }

    /// Executes the decoded instruction.
    fn execute(&mut self) -> (r: Result<Action, ArchError>)
        requires
            old(self).wf(),
            old(self).addr == old(self).imm,
        ensures
            final(self).wf(),
            final(self).ra == old(self).ra,
            final(self).rb == old(self).rb,
            match spec_execute(
                old(self).op_code,
                old(self)@.ra,
                old(self)@.rb,
                old(self).imm,
                old(self)@.regs,
                old(self)@.mem,
            ) {
                Ok((regs, mem, act)) => r == Ok::<Action, ArchError>(act) && final(self)@.regs == regs
                    && final(self)@.mem == mem,
                Err(e) => r == Err::<Action, ArchError>(e),
            },
    {
        let imm = self.imm;
        let addr = self.addr;
        let a = self.get_ra();
        let b = self.rb_val();
        match self.op_code {
            OpCode::SetImm => {
                self.set(imm);
                Ok(Action::Continue)
            },
            OpCode::Copy => {
                self.set(b);
                Ok(Action::Continue)
            },
            OpCode::Load => self.load(addr),
            OpCode::Stor => self.stor(addr, a),
            OpCode::PLoad => self.load(b),
            OpCode::PStor => self.stor(a, b),
            OpCode::Push => self.push(a),
            OpCode::Pop => self.pop(),
            OpCode::Add => {
                self.set(((a as u32 + b as u32) % 0x10000) as u16);
                Ok(Action::Continue)
            },
            OpCode::Sub => {
                self.set(((a as u32 + 0x10000 - b as u32) % 0x10000) as u16);
                Ok(Action::Continue)
            },
            OpCode::Mult => {
                assert((a as u32) * (b as u32) <= 0xFFFFu32 * 0xFFFFu32) by (nonlinear_arith)
                    requires
                        a <= 0xFFFF,
                        b <= 0xFFFF,
                ;
                self.set(((a as u32 * b as u32) % 0x10000) as u16);
                Ok(Action::Continue)
            },
            OpCode::Div => {
                if b == 0 {
                    Err(ArchError::DivisionByZero)
                } else {
                    self.set(a / b);
                    Ok(Action::Continue)
                }
            },
            OpCode::Mod => {
                if b == 0 {
                    Err(ArchError::DivisionByZero)
                } else {
                    self.set(a % b);
                    Ok(Action::Continue)
                }
            },
            OpCode::Neg => {
                self.set(((0x10000 - a as u32) % 0x10000) as u16);
                Ok(Action::Continue)
            },
            OpCode::Inc => {
                self.set(((a as u32 + 1) % 0x10000) as u16);
                Ok(Action::Continue)
            },
            OpCode::Dec => {
                self.set(((a as u32 + 0xFFFF) % 0x10000) as u16);
                Ok(Action::Continue)
            },
            OpCode::And => {
                self.set(a & b);
                Ok(Action::Continue)
            },
            OpCode::Or => {
                self.set(a | b);
                Ok(Action::Continue)
            },
            OpCode::Xor => {
                self.set(a ^ b);
                Ok(Action::Continue)
            },
            OpCode::Inv => {
                self.set(!a);
                Ok(Action::Continue)
            },
            OpCode::Shl => {
                self.set(if imm >= 16 { 0 } else { a << imm });
                Ok(Action::Continue)
            },
            OpCode::Shr => {
                self.set(if imm >= 16 { 0 } else { a >> imm });
                Ok(Action::Continue)
            },
            OpCode::Call => self.call(addr),
            _ => {
                let op = self.op_code;
                self.jump(op, addr);
                Ok(Action::Continue)
            },
        }
    }

    /// One fetch, decode and execute. Where an error comes, the state is
    /// left as the failing stage left it.
    pub fn step(&mut self) -> (r: Result<Action, ArchError>)
        requires
            old(self).wf(),
        ensures
            final(self).wf(),
            match spec_step(old(self)@) {
                Ok((s, act)) => r == Ok::<Action, ArchError>(act) && final(self)@ == s,
                Err(e) => r == Err::<Action, ArchError>(e),
            },
    {
        match self.fetch() {
            Ok(()) => {},
            Err(e) => return Err(e),
        }
        match self.decode() {
            Ok(()) => {},
            Err(e) => return Err(e),
        }
        self.execute()
    }

    /// Runs at most `fuel` instructions, taking input bytes from `input` in
    /// order and collecting the bytes the program emits.
    pub fn run(&mut self, input: &Vec<u8>, fuel: u64) -> (r: RunOutcome)
        requires
            old(self).wf(),
        ensures
            final(self).wf(),
            r.output@ == spec_run(old(self)@, input@, fuel as nat).1,
            r.end == spec_run(old(self)@, input@, fuel as nat).2,
            !(r.end is Fault) ==> final(self)@ == spec_run(old(self)@, input@, fuel as nat).0,
    {
        let mut out: Vec<u8> = Vec::new();
        let mut pos: usize = 0;
        let mut left: u64 = fuel;
        assert(input@.subrange(0, input@.len() as int) =~= input@);
        assert(forall|t: Seq<u8>| out@ + t =~= t);
        loop
            invariant
                self.wf(),
                pos <= input@.len(),
                ({
                    let rest = spec_run(self@, input@.subrange(pos as int, input@.len() as int), left as nat);
                    let all = spec_run(old(self)@, input@, fuel as nat);
                    &&& all.1 == out@ + rest.1
                    &&& all.2 == rest.2
                    &&& !(all.2 is Fault) ==> all.0 == rest.0
                }),
            decreases left,
        {
            let ghost rest_in = input@.subrange(pos as int, input@.len() as int);
            assert(out@ + Seq::<u8>::empty() =~= out@);
            if left == 0 {
                return RunOutcome { output: out, end: RunEnd::OutOfFuel };
            }
            match self.step() {
                Err(e) => {
                    return RunOutcome { output: out, end: RunEnd::Fault(e) };
                },
                Ok(Action::Continue) => {},
                Ok(Action::Output(b)) => {
                    let ghost prev = out@;
                    out.push(b);
                    assert(forall|t: Seq<u8>| prev + (seq![b] + t) =~= out@ + t);
                },
                Ok(Action::Input) => {
                    if pos < input.len() {
                        self.complete_input(input[pos]);
                        assert(rest_in.drop_first() =~= input@.subrange(pos + 1, input@.len() as int));
                        pos = pos + 1;
                    } else {
                        return RunOutcome { output: out, end: RunEnd::NoInput };
                    }
                },
                Ok(Action::Exit(v)) => {
                    return RunOutcome { output: out, end: RunEnd::Exit(v) };
                },
            }
            left = left - 1;
        }
    }

    /// Delivers a byte of input to the register that the last instruction,
    /// an input read, named.
    pub fn complete_input(&mut self, byte: u8)
        requires
            old(self).wf(),
        ensures
            final(self).wf(),
            final(self)@ == spec_input(old(self)@, byte),
    {
        self.set(byte as u16);
    }
}


/// A push of any register but the stack pointer, followed by a pop into the
/// same register, leaves every register as it was.
pub proof fn lemma_push_pop(r: u16, rb: u16, imm: u16, regs: Seq<u16>, mem: Seq<u16>)
    requires
        regs.len() == 8,
        mem.len() == MEM_SIZE,
        r < SP,
        rb < 8,
    ensures
        spec_execute(OpCode::Push, r, rb, imm, regs, mem) is Ok ==> spec_execute(
            OpCode::Pop,
            r,
            rb,
            imm,
            spec_execute(OpCode::Push, r, rb, imm, regs, mem)->Ok_0.0,
            spec_execute(OpCode::Push, r, rb, imm, regs, mem)->Ok_0.1,
        ) == Ok::<(Seq<u16>, Seq<u16>, Action), ArchError>(
            (regs, spec_execute(OpCode::Push, r, rb, imm, regs, mem)->Ok_0.1, Action::Continue),
        ),
{
    if spec_execute(OpCode::Push, r, rb, imm, regs, mem) is Ok {
        let sp = sub16(regs[SP as int], 1);
        let regs1 = regs.update(SP as int, sp);
        let mem1 = mem.update(sp as int, regs[r as int]);
        let regs2 = regs1.update(r as int, mem1[sp as int]);
        assert(add16(regs2[SP as int], 1) == regs[SP as int]);
        assert(regs2.update(SP as int, add16(regs2[SP as int], 1)) =~= regs);
    }
}

/// Negating twice gives the word back.
pub proof fn lemma_neg_neg(x: u16)
    ensures
        neg16(neg16(x)) == x,
{
}

/// Two `Neg` instructions on one register leave registers and memory as
/// they were.
pub proof fn lemma_neg_twice(r: u16, rb: u16, imm: u16, regs: Seq<u16>, mem: Seq<u16>)
    requires
        regs.len() == 8,
        r < 8,
        rb < 8,
    ensures
        spec_execute(OpCode::Neg, r, rb, imm, regs, mem) is Ok,
        spec_execute(
            OpCode::Neg,
            r,
            rb,
            imm,
            spec_execute(OpCode::Neg, r, rb, imm, regs, mem)->Ok_0.0,
            spec_execute(OpCode::Neg, r, rb, imm, regs, mem)->Ok_0.1,
        ) == Ok::<(Seq<u16>, Seq<u16>, Action), ArchError>((regs, mem, Action::Continue)),
{
    lemma_neg_neg(regs[r as int]);
    let regs1 = regs.update(r as int, neg16(regs[r as int]));
    assert(regs1.update(r as int, neg16(regs1[r as int])) =~= regs);
}

/// The word that holds the 16-bit signed value `a`.
pub open spec fn word_of_i16(a: i16) -> u16 {
    if a >= 0 {
        a as u16
    } else {
        (a + 0x10000) as u16
    }
}

/// Each conditional jump, on registers that hold the signed values `a` and
/// `b`, is taken exactly when the comparison it names holds between `a` and
/// `b`; otherwise it changes nothing.
pub proof fn lemma_jump_signed(
    op: OpCode,
    ra: u16,
    rb: u16,
    addr: u16,
    regs: Seq<u16>,
    mem: Seq<u16>,
    a: i16,
    b: i16,
)
    requires
        op.is_jump(),
        regs.len() == 8,
        ra < 8,
        rb < 8,
        regs[ra as int] == word_of_i16(a),
        regs[rb as int] == word_of_i16(b),
    ensures
        spec_execute(op, ra, rb, addr, regs, mem) == Ok::<(Seq<u16>, Seq<u16>, Action), ArchError>(
            (
                if jump_taken(op, a as int, b as int) {
                    regs.update(PC as int, addr)
                } else {
                    regs
                },
                mem,
                Action::Continue,
            ),
        ),
{
    assert(signed(word_of_i16(a)) == a as int);
    assert(signed(word_of_i16(b)) == b as int);
}

/// Every instruction of an assembled program can be fetched, without an
/// address error, from its even offset, and the fetch reads that
/// instruction.
pub proof fn lemma_fetch_assembled(s: CpuState, m: Memory, prog: Seq<Instruction>, k: int)
    requires
        holds_program(m, prog),
        s.mem == m.words(),
        s.regs.len() == 8,
        0 <= k < prog.len(),
        s.regs[PC as int] == 2 * k,
    ensures
        spec_fetch(s) == Ok::<Instruction, ArchError>(prog[k]),
{
}

} // verus!
