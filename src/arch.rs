use vstd::prelude::*;

verus! {

/// Number of words of ordinary memory.
pub const MEM_SIZE: u16 = 32768;

/// Bit position of the opcode field in the first instruction word.
pub const OP_CODE_SHIFT: u16 = 11;

/// Bit position of the register A field.
pub const RA_SHIFT: u16 = 8;

/// Bit position of the register B field.
pub const RB_SHIFT: u16 = 5;

/// Mask of the opcode field (bits 15..11).
pub const OP_CODE_MASK: u16 = 0xF800;

/// Mask of the register A field (bits 10..8).
pub const RA_MASK: u16 = 0x0700;

/// Mask of the register B field (bits 7..5).
pub const RB_MASK: u16 = 0x00E0;

/// The number of opcodes; valid opcode fields lie below it.
pub const NUM_OPCODES: u16 = 29;

/// First instruction word for the given opcode and register indices.
pub open spec fn encode_op_regs(op: u16, ra: u16, rb: u16) -> u16 {
    ((op << 11u16) | (ra << 8u16) | (rb << 5u16)) as u16
}

/// The opcode field of a first instruction word.
pub open spec fn op_field(w: u16) -> u16 {
    ((w & 0xF800u16) >> 11u16) as u16
}

/// The register A field of a first instruction word.
pub open spec fn ra_field(w: u16) -> u16 {
    ((w & 0x0700u16) >> 8u16) as u16
}

/// The register B field of a first instruction word.
pub open spec fn rb_field(w: u16) -> u16 {
    ((w & 0x00E0u16) >> 5u16) as u16
}

/// The three fields are recovered from an encoding of in-range values, and
/// every field read from any word is within its width.
pub proof fn lemma_fields(op: u16, ra: u16, rb: u16, w: u16)
    requires
        op < 32,
        ra < 8,
        rb < 8,
    ensures
        op_field(encode_op_regs(op, ra, rb)) == op,
        ra_field(encode_op_regs(op, ra, rb)) == ra,
        rb_field(encode_op_regs(op, ra, rb)) == rb,
        op_field(w) < 32,
        ra_field(w) < 8,
        rb_field(w) < 8,
{
    assert(((((op << 11u16) | (ra << 8u16) | (rb << 5u16)) & 0xF800u16) >> 11u16) == op)
        by (bit_vector)
        requires
            op < 32,
            ra < 8,
            rb < 8,
    ;
    assert(((((op << 11u16) | (ra << 8u16) | (rb << 5u16)) & 0x0700u16) >> 8u16) == ra)
        by (bit_vector)
        requires
            op < 32,
            ra < 8,
            rb < 8,
    ;
    assert(((((op << 11u16) | (ra << 8u16) | (rb << 5u16)) & 0x00E0u16) >> 5u16) == rb)
        by (bit_vector)
        requires
            op < 32,
            ra < 8,
            rb < 8,
    ;
    assert(((w & 0xF800u16) >> 11u16) < 32) by (bit_vector);
    assert(((w & 0x0700u16) >> 8u16) < 8) by (bit_vector);
    assert(((w & 0x00E0u16) >> 5u16) < 8) by (bit_vector);
}

/// The instruction set, in encoding order.
#[derive(Clone, Copy, Debug, PartialEq, Eq, Structural)]
pub enum OpCode {
    SetImm,
    Copy,
    Load,
    Stor,
    PLoad,
    PStor,
    Push,
    Pop,
    Add,
    Sub,
    Mult,
    Div,
    Mod,
    Neg,
    Inc,
    Dec,
    And,
    Or,
    Xor,
    Inv,
    Shl,
    Shr,
    Call,
    Jl,
    Jle,
    Je,
    Jne,
    Jge,
    Jg,
}

/// The opcode whose index is `code`, for `code < 29`.
pub open spec fn opcode_at(code: u16) -> OpCode {
    match code {
        0 => OpCode::SetImm,
        1 => OpCode::Copy,
        2 => OpCode::Load,
        3 => OpCode::Stor,
        4 => OpCode::PLoad,
        5 => OpCode::PStor,
        6 => OpCode::Push,
        7 => OpCode::Pop,
        8 => OpCode::Add,
        9 => OpCode::Sub,
        10 => OpCode::Mult,
        11 => OpCode::Div,
        12 => OpCode::Mod,
        13 => OpCode::Neg,
        14 => OpCode::Inc,
        15 => OpCode::Dec,
        16 => OpCode::And,
        17 => OpCode::Or,
        18 => OpCode::Xor,
        19 => OpCode::Inv,
        20 => OpCode::Shl,
        21 => OpCode::Shr,
        22 => OpCode::Call,
        23 => OpCode::Jl,
        24 => OpCode::Jle,
        25 => OpCode::Je,
        26 => OpCode::Jne,
        27 => OpCode::Jge,
        _ => OpCode::Jg,
    }
}

impl OpCode {
    /// The opcode's index in encoding order.
    pub open spec fn index(self) -> u16 {
        match self {
            OpCode::SetImm => 0,
            OpCode::Copy => 1,
            OpCode::Load => 2,
            OpCode::Stor => 3,
            OpCode::PLoad => 4,
            OpCode::PStor => 5,
            OpCode::Push => 6,
            OpCode::Pop => 7,
            OpCode::Add => 8,
            OpCode::Sub => 9,
            OpCode::Mult => 10,
            OpCode::Div => 11,
            OpCode::Mod => 12,
            OpCode::Neg => 13,
            OpCode::Inc => 14,
            OpCode::Dec => 15,
            OpCode::And => 16,
            OpCode::Or => 17,
            OpCode::Xor => 18,
            OpCode::Inv => 19,
            OpCode::Shl => 20,
            OpCode::Shr => 21,
            OpCode::Call => 22,
            OpCode::Jl => 23,
            OpCode::Jle => 24,
            OpCode::Je => 25,
            OpCode::Jne => 26,
            OpCode::Jge => 27,
            OpCode::Jg => 28,
        }
    }

    /// How many register operands the opcode takes.
    pub open spec fn arity(self) -> u16 {
        match self {
            OpCode::Call => 0,
            OpCode::SetImm | OpCode::Load | OpCode::Stor | OpCode::Push | OpCode::Pop
            | OpCode::Neg | OpCode::Inc | OpCode::Dec | OpCode::Inv | OpCode::Shl
            | OpCode::Shr => 1,
            _ => 2,
        }
    }

    /// True of the six conditional jumps.
    pub open spec fn is_jump(self) -> bool {
        match self {
            OpCode::Jl | OpCode::Jle | OpCode::Je | OpCode::Jne | OpCode::Jge | OpCode::Jg => true,
            _ => false,
        }
    }

    pub fn to_int(&self) -> (r: u16)
        ensures
            r == self.index(),
            r < NUM_OPCODES,
    {
        match self {
            OpCode::SetImm => 0,
            OpCode::Copy => 1,
            OpCode::Load => 2,
            OpCode::Stor => 3,
            OpCode::PLoad => 4,
            OpCode::PStor => 5,
            OpCode::Push => 6,
            OpCode::Pop => 7,
            OpCode::Add => 8,
            OpCode::Sub => 9,
            OpCode::Mult => 10,
            OpCode::Div => 11,
            OpCode::Mod => 12,
            OpCode::Neg => 13,
            OpCode::Inc => 14,
            OpCode::Dec => 15,
            OpCode::And => 16,
            OpCode::Or => 17,
            OpCode::Xor => 18,
            OpCode::Inv => 19,
            OpCode::Shl => 20,
            OpCode::Shr => 21,
            OpCode::Call => 22,
            OpCode::Jl => 23,
            OpCode::Jle => 24,
            OpCode::Je => 25,
            OpCode::Jne => 26,
            OpCode::Jge => 27,
            OpCode::Jg => 28,
        }
    }

    pub fn from_int(code: u16) -> (r: Result<OpCode, ArchError>)
        ensures
            code < NUM_OPCODES ==> r == Ok::<OpCode, ArchError>(opcode_at(code)),
            code >= NUM_OPCODES ==> r == Err::<OpCode, ArchError>(ArchError::InvalidOpCode(code)),
            r matches Ok(op) ==> op.index() == code,
    {
        match code {
            0 => Ok(OpCode::SetImm),
            1 => Ok(OpCode::Copy),
            2 => Ok(OpCode::Load),
            3 => Ok(OpCode::Stor),
            4 => Ok(OpCode::PLoad),
            5 => Ok(OpCode::PStor),
            6 => Ok(OpCode::Push),
            7 => Ok(OpCode::Pop),
            8 => Ok(OpCode::Add),
            9 => Ok(OpCode::Sub),
            10 => Ok(OpCode::Mult),
            11 => Ok(OpCode::Div),
            12 => Ok(OpCode::Mod),
            13 => Ok(OpCode::Neg),
            14 => Ok(OpCode::Inc),
            15 => Ok(OpCode::Dec),
            16 => Ok(OpCode::And),
            17 => Ok(OpCode::Or),
            18 => Ok(OpCode::Xor),
            19 => Ok(OpCode::Inv),
            20 => Ok(OpCode::Shl),
            21 => Ok(OpCode::Shr),
            22 => Ok(OpCode::Call),
            23 => Ok(OpCode::Jl),
            24 => Ok(OpCode::Jle),
            25 => Ok(OpCode::Je),
            26 => Ok(OpCode::Jne),
            27 => Ok(OpCode::Jge),
            28 => Ok(OpCode::Jg),
            _ => Err(ArchError::InvalidOpCode(code)),
        }
    }

    pub fn num_regs(&self) -> (r: u16)
        ensures
            r == self.arity(),
    {
        match self {
            OpCode::Call => 0,
            OpCode::SetImm | OpCode::Load | OpCode::Stor | OpCode::Push | OpCode::Pop
            | OpCode::Neg | OpCode::Inc | OpCode::Dec | OpCode::Inv | OpCode::Shl
            | OpCode::Shr => 1,
            _ => 2,
        }
    }
}


/// The opcode that a lower-case mnemonic names, if any.
pub open spec fn opcode_named(s: Seq<char>) -> Option<OpCode> {
    if s == "set"@ {
        Some(OpCode::SetImm)
    } else if s == "copy"@ {
        Some(OpCode::Copy)
    } else if s == "load"@ {
        Some(OpCode::Load)
    } else if s == "stor"@ {
        Some(OpCode::Stor)
    } else if s == "pload"@ {
        Some(OpCode::PLoad)
    } else if s == "pstor"@ {
        Some(OpCode::PStor)
    } else if s == "push"@ {
        Some(OpCode::Push)
    } else if s == "pop"@ {
        Some(OpCode::Pop)
    } else if s == "add"@ {
        Some(OpCode::Add)
    } else if s == "sub"@ {
        Some(OpCode::Sub)
    } else if s == "mult"@ {
        Some(OpCode::Mult)
    } else if s == "div"@ {
        Some(OpCode::Div)
    } else if s == "mod"@ {
        Some(OpCode::Mod)
    } else if s == "neg"@ {
        Some(OpCode::Neg)
    } else if s == "inc"@ {
        Some(OpCode::Inc)
    } else if s == "dec"@ {
        Some(OpCode::Dec)
    } else if s == "and"@ {
        Some(OpCode::And)
    } else if s == "or"@ {
        Some(OpCode::Or)
    } else if s == "xor"@ {
        Some(OpCode::Xor)
    } else if s == "inv"@ {
        Some(OpCode::Inv)
    } else if s == "shl"@ {
        Some(OpCode::Shl)
    } else if s == "shr"@ {
        Some(OpCode::Shr)
    } else if s == "call"@ {
        Some(OpCode::Call)
    } else if s == "jl"@ {
        Some(OpCode::Jl)
    } else if s == "jle"@ {
        Some(OpCode::Jle)
    } else if s == "je"@ {
        Some(OpCode::Je)
    } else if s == "jne"@ {
        Some(OpCode::Jne)
    } else if s == "jge"@ {
        Some(OpCode::Jge)
    } else if s == "jg"@ {
        Some(OpCode::Jg)
    } else {
        None
    }
}

impl OpCode {
    /// Reads a mnemonic, ignoring ASCII case.
    pub fn from_str(op: &str) -> (r: Result<OpCode, ArchError>)
        ensures
            opcode_named(lower_seq(op@)) matches Some(o) ==> r == Ok::<OpCode, ArchError>(o),
            opcode_named(lower_seq(op@)) is None ==> (r matches Err(ArchError::InvalidOpMnem(m)) && m@ == lower_seq(op@)),
    {
        let lower = lower_chars(op);
        if chars_eq(&lower, "set") { return Ok(OpCode::SetImm); }
        if chars_eq(&lower, "copy") { return Ok(OpCode::Copy); }
        if chars_eq(&lower, "load") { return Ok(OpCode::Load); }
        if chars_eq(&lower, "stor") { return Ok(OpCode::Stor); }
        if chars_eq(&lower, "pload") { return Ok(OpCode::PLoad); }
        if chars_eq(&lower, "pstor") { return Ok(OpCode::PStor); }
        if chars_eq(&lower, "push") { return Ok(OpCode::Push); }
        if chars_eq(&lower, "pop") { return Ok(OpCode::Pop); }
        if chars_eq(&lower, "add") { return Ok(OpCode::Add); }
        if chars_eq(&lower, "sub") { return Ok(OpCode::Sub); }
        if chars_eq(&lower, "mult") { return Ok(OpCode::Mult); }
        if chars_eq(&lower, "div") { return Ok(OpCode::Div); }
        if chars_eq(&lower, "mod") { return Ok(OpCode::Mod); }
        if chars_eq(&lower, "neg") { return Ok(OpCode::Neg); }
        if chars_eq(&lower, "inc") { return Ok(OpCode::Inc); }
        if chars_eq(&lower, "dec") { return Ok(OpCode::Dec); }
        if chars_eq(&lower, "and") { return Ok(OpCode::And); }
        if chars_eq(&lower, "or") { return Ok(OpCode::Or); }
        if chars_eq(&lower, "xor") { return Ok(OpCode::Xor); }
        if chars_eq(&lower, "inv") { return Ok(OpCode::Inv); }
        if chars_eq(&lower, "shl") { return Ok(OpCode::Shl); }
        if chars_eq(&lower, "shr") { return Ok(OpCode::Shr); }
        if chars_eq(&lower, "call") { return Ok(OpCode::Call); }
        if chars_eq(&lower, "jl") { return Ok(OpCode::Jl); }
        if chars_eq(&lower, "jle") { return Ok(OpCode::Jle); }
        if chars_eq(&lower, "je") { return Ok(OpCode::Je); }
        if chars_eq(&lower, "jne") { return Ok(OpCode::Jne); }
        if chars_eq(&lower, "jge") { return Ok(OpCode::Jge); }
        if chars_eq(&lower, "jg") { return Ok(OpCode::Jg); }
        Err(ArchError::InvalidOpMnem(string_from_chars(&lower)))
    }
}

/// ASCII lower case of one character; others are kept.
pub open spec fn lower_char(c: char) -> char {
    if 'A' <= c && c <= 'Z' {
        ((c as u32) + 32) as char
    } else {
        c
    }
}

/// ASCII lower case of a text.
pub open spec fn lower_seq(s: Seq<char>) -> Seq<char> {
    Seq::new(s.len(), |i: int| lower_char(s[i]))
}

/// The characters of `s` in ASCII lower case.
pub fn lower_chars(s: &str) -> (r: Vec<char>)
    ensures
        r@ == lower_seq(s@),
{
    let n = s.unicode_len();
    let mut r: Vec<char> = Vec::new();
    let mut i: usize = 0;
    while i < n
        invariant
            n == s@.len(),
            i <= n,
            r@ =~= lower_seq(s@).subrange(0, i as int),
        decreases n - i,
    {
        let c = s.get_char(i);
        let l = if 'A' <= c && c <= 'Z' {
            char_add_32(c)
        } else {
            c
        };
        r.push(l);
        i = i + 1;
    }
    r
}

/// The upper-case letter `c` moved to its lower-case form.
fn char_add_32(c: char) -> (r: char)
    requires
        'A' <= c && c <= 'Z',
    ensures
        r == lower_char(c),
{
    let v: u32 = c as u32;
    let lowered: u32 = v + 32;
    let r = lowered as u8 as char;
    assert(lowered < 128);
    r
}

/// True exactly when the characters of `v` are those of `lit`.
pub fn chars_eq(v: &Vec<char>, lit: &str) -> (r: bool)
    ensures
        r == (v@ == lit@),
{
    let n = lit.unicode_len();
    if v.len() != n {
        return false;
    }
    let mut i: usize = 0;
    while i < n
        invariant
            n == lit@.len(),
            n == v@.len(),
            i <= n,
            forall|j: int| 0 <= j < i ==> v@[j] == lit@[j],
        decreases n - i,
    {
        if v[i] != lit.get_char(i) {
            return false;
        }
        i = i + 1;
    }
    assert(v@ =~= lit@);
    true
}

/// Relies on `String: FromIterator<&char>`: collecting characters keeps
/// them all, in order.
#[verifier::external_body]
pub(crate) fn string_from_chars(v: &Vec<char>) -> (r: String)
    ensures
        r@ == v@,
{
    v.iter().collect()
}

/// One register of the machine, by name, with its value.
#[derive(Clone, Debug)]
pub struct Register {
    pub mnem: RegMnem,
    pub val: u16,
}

impl Register {
    pub fn new(mnem: RegMnem) -> (r: Register)
        ensures
            r.mnem == mnem,
            r.val == 0,
    {
        Register { mnem, val: 0 }
    }
}

/// Register names: each of the eight registers has two spellings.
#[derive(Clone, Copy, Debug, PartialEq, Eq, Structural)]
pub enum RegMnem {
    Pc,
    _R0,
    R1,
    Ax,
    R2,
    Bx,
    R3,
    Cx,
    R4,
    Dx,
    R5,
    Ex,
    R6,
    Fx,
    Sp,
    R7,
}

/// The canonical name of register `code`, for `code < 8`.
pub open spec fn reg_at(code: u16) -> RegMnem {
    match code {
        0 => RegMnem::Pc,
        1 => RegMnem::R1,
        2 => RegMnem::R2,
        3 => RegMnem::R3,
        4 => RegMnem::R4,
        5 => RegMnem::R5,
        6 => RegMnem::R6,
        _ => RegMnem::Sp,
    }
}

/// The register that a lower-case name denotes, if any.
pub open spec fn reg_named(s: Seq<char>) -> Option<u16> {
    if s == "pc"@ || s == "r0"@ {
        Some(0u16)
    } else if s == "ax"@ || s == "r1"@ {
        Some(1u16)
    } else if s == "bx"@ || s == "r2"@ {
        Some(2u16)
    } else if s == "cx"@ || s == "r3"@ {
        Some(3u16)
    } else if s == "dx"@ || s == "r4"@ {
        Some(4u16)
    } else if s == "ex"@ || s == "r5"@ {
        Some(5u16)
    } else if s == "fx"@ || s == "r6"@ {
        Some(6u16)
    } else if s == "sp"@ || s == "r7"@ {
        Some(7u16)
    } else {
        None
    }
}

impl RegMnem {
    /// The register index that the name denotes.
    pub open spec fn index(self) -> u16 {
        match self {
            RegMnem::Pc | RegMnem::_R0 => 0,
            RegMnem::R1 | RegMnem::Ax => 1,
            RegMnem::R2 | RegMnem::Bx => 2,
            RegMnem::R3 | RegMnem::Cx => 3,
            RegMnem::R4 | RegMnem::Dx => 4,
            RegMnem::R5 | RegMnem::Ex => 5,
            RegMnem::R6 | RegMnem::Fx => 6,
            RegMnem::Sp | RegMnem::R7 => 7,
        }
    }

    pub fn to_int(&self) -> (r: u16)
        ensures
            r == self.index(),
            r < 8,
    {
        match self {
            RegMnem::Pc | RegMnem::_R0 => 0,
            RegMnem::R1 | RegMnem::Ax => 1,
            RegMnem::R2 | RegMnem::Bx => 2,
            RegMnem::R3 | RegMnem::Cx => 3,
            RegMnem::R4 | RegMnem::Dx => 4,
            RegMnem::R5 | RegMnem::Ex => 5,
            RegMnem::R6 | RegMnem::Fx => 6,
            RegMnem::Sp | RegMnem::R7 => 7,
        }
    }

    pub fn from_int(code: u16) -> (r: Result<RegMnem, ArchError>)
        ensures
            code < 8 ==> r == Ok::<RegMnem, ArchError>(reg_at(code)),
            code >= 8 ==> r == Err::<RegMnem, ArchError>(ArchError::InvalidRegister(code)),
            r matches Ok(m) ==> m.index() == code,
    {
        match code {
            0 => Ok(RegMnem::Pc),
            1 => Ok(RegMnem::R1),
            2 => Ok(RegMnem::R2),
            3 => Ok(RegMnem::R3),
            4 => Ok(RegMnem::R4),
            5 => Ok(RegMnem::R5),
            6 => Ok(RegMnem::R6),
            7 => Ok(RegMnem::Sp),
            _ => Err(ArchError::InvalidRegister(code)),
        }
    }

    /// Reads a register name, either spelling, ignoring ASCII case.
    pub fn from_str(mnem: &str) -> (r: Result<RegMnem, ArchError>)
        ensures
            reg_named(lower_seq(mnem@)) matches Some(i) ==> (r matches Ok(m) && m.index() == i),
            reg_named(lower_seq(mnem@)) is None ==> (r matches Err(ArchError::InvalidRegMnem(m)) && m@ == lower_seq(mnem@)),
    {
        let l = lower_chars(mnem);
        if chars_eq(&l, "pc") || chars_eq(&l, "r0") {
            Ok(RegMnem::Pc)
        } else if chars_eq(&l, "ax") || chars_eq(&l, "r1") {
            Ok(RegMnem::R1)
        } else if chars_eq(&l, "bx") || chars_eq(&l, "r2") {
            Ok(RegMnem::R2)
        } else if chars_eq(&l, "cx") || chars_eq(&l, "r3") {
            Ok(RegMnem::R3)
        } else if chars_eq(&l, "dx") || chars_eq(&l, "r4") {
            Ok(RegMnem::R4)
        } else if chars_eq(&l, "ex") || chars_eq(&l, "r5") {
            Ok(RegMnem::R5)
        } else if chars_eq(&l, "fx") || chars_eq(&l, "r6") {
            Ok(RegMnem::R6)
        } else if chars_eq(&l, "sp") || chars_eq(&l, "r7") {
            Ok(RegMnem::R7)
        } else {
            Err(ArchError::InvalidRegMnem(string_from_chars(&l)))
        }
    }
}

/// Errors of the assembler and of the machine.
#[derive(Debug, PartialEq, Eq)]
pub enum ArchError {
    InvalidOpCode(u16),
    InvalidOpMnem(String),
    InvalidRegister(u16),
    InvalidRegMnem(String),
    MemAddrOutOfRange(u16),
    InvalidInstruction,
    UnresolvableLabel(&'static str),
    InvalidOperand(&'static str),
    RepeatedLabel(String, u16, u16),
    DivisionByZero,
}


/// What decoding the opcode field of `w` gives.
pub open spec fn decoded_op(w: u16) -> Result<OpCode, ArchError> {
    if op_field(w) < NUM_OPCODES {
        Ok(opcode_at(op_field(w)))
    } else {
        Err(ArchError::InvalidOpCode(op_field(w)))
    }
}

/// One instruction: the word with the opcode and register fields, and the
/// immediate word.
#[derive(Clone, Copy, Debug, PartialEq, Eq, Structural)]
pub struct Instruction {
    pub word_op_regs: u16,
    pub word_imm: u16,
}

impl Instruction {
    pub fn new(word_op_regs: u16, word_imm: u16) -> (r: Instruction)
        ensures
            r.word_op_regs == word_op_regs,
            r.word_imm == word_imm,
    {
        Instruction { word_op_regs, word_imm }
    }

    /// Encodes an opcode, two registers and an immediate.
    pub fn with_vals(op: OpCode, ra: RegMnem, rb: RegMnem, imm: u16) -> (r: Instruction)
        ensures
            r.word_op_regs == encode_op_regs(op.index(), ra.index(), rb.index()),
            r.word_imm == imm,
    {
        let word1: u16 = op.to_int() << OP_CODE_SHIFT | ra.to_int() << RA_SHIFT | rb.to_int()
            << RB_SHIFT;
        Instruction { word_op_regs: word1, word_imm: imm }
    }

    pub fn get_op_code(&self) -> (r: Result<OpCode, ArchError>)
        ensures
            r == decoded_op(self.word_op_regs),
    {
        let code: u16 = (self.word_op_regs & OP_CODE_MASK) >> OP_CODE_SHIFT;
        OpCode::from_int(code)
    }

    pub fn get_ra(&self) -> (r: Result<RegMnem, ArchError>)
        ensures
            r == Ok::<RegMnem, ArchError>(reg_at(ra_field(self.word_op_regs))),
            ra_field(self.word_op_regs) < 8,
    {
        let code: u16 = (self.word_op_regs & RA_MASK) >> RA_SHIFT;
        proof {
            lemma_fields(0, 0, 0, self.word_op_regs);
        }
        RegMnem::from_int(code)
    }

    pub fn get_rb(&self) -> (r: Result<RegMnem, ArchError>)
        ensures
            r == Ok::<RegMnem, ArchError>(reg_at(rb_field(self.word_op_regs))),
            rb_field(self.word_op_regs) < 8,
    {
        let code: u16 = (self.word_op_regs & RB_MASK) >> RB_SHIFT;
        proof {
            lemma_fields(0, 0, 0, self.word_op_regs);
        }
        RegMnem::from_int(code)
    }
}

/// Decoding what `with_vals` encodes gives back the opcode and the two
/// registers (under their canonical names); the immediate is its own word.
pub proof fn lemma_decode_encode(op: OpCode, ra: RegMnem, rb: RegMnem)
    ensures
        decoded_op(encode_op_regs(op.index(), ra.index(), rb.index())) == Ok::<OpCode, ArchError>(op),
        reg_at(ra_field(encode_op_regs(op.index(), ra.index(), rb.index()))).index() == ra.index(),
        reg_at(rb_field(encode_op_regs(op.index(), ra.index(), rb.index()))).index() == rb.index(),
{
    lemma_fields(op.index(), ra.index(), rb.index(), 0);
}

/// The bytes of a ROM image of the first `n` words: each word low byte
/// first.
pub open spec fn rom_bytes(words: Seq<u16>, n: nat) -> Seq<u8> {
    Seq::new(2 * n, |j: int| if j % 2 == 0 { (words[j / 2] % 256) as u8 } else { (words[j / 2] / 256) as u8 })
}

/// The word at `i` of a ROM image read from `bytes`.
pub open spec fn rom_word(bytes: Seq<u8>, i: int) -> u16 {
    (bytes[2 * i] + 256 * bytes[2 * i + 1]) as u16
}

/// Reading back a ROM image of the first `n` words gives those words.
pub proof fn lemma_rom_round_trip(words: Seq<u16>, n: nat, i: int)
    requires
        n <= words.len(),
        0 <= i < n,
    ensures
        rom_bytes(words, n).len() == 2 * n,
        rom_word(rom_bytes(words, n), i) == words[i],
{
    let b = rom_bytes(words, n);
    assert((2 * i) % 2 == 0 && (2 * i) / 2 == i);
    assert((2 * i + 1) % 2 == 1 && (2 * i + 1) / 2 == i);
    assert(b[2 * i] == (words[i] % 256) as u8);
    assert(b[2 * i + 1] == (words[i] / 256) as u8);
}

/// The word memory with the count of program words written into it.
#[derive(Debug)]
pub struct Memory {
    ram: Vec<u16>,
    next_ins: usize,
}

impl View for Memory {
    type V = (Seq<u16>, nat);

    closed spec fn view(&self) -> (Seq<u16>, nat) {
        (self.ram@, self.next_ins as nat)
    }
}

impl Memory {
    /// The memory's words.
    pub open spec fn words(&self) -> Seq<u16> {
        self@.0
    }

    /// How many words of program have been written from offset 0.
    pub open spec fn next(&self) -> nat {
        self@.1
    }

    pub open spec fn wf(&self) -> bool {
        &&& self.words().len() == MEM_SIZE
        &&& self.next() <= MEM_SIZE
    }

    /// An all-zero memory with no program.
    pub fn new() -> (r: Memory)
        ensures
            r.wf(),
            r.words() == Seq::new(MEM_SIZE as nat, |i: int| 0u16),
            r.next() == 0,
    {
        let mut ram: Vec<u16> = Vec::new();
        let mut i: usize = 0;
        while i < MEM_SIZE as usize
            invariant
                i <= MEM_SIZE,
                ram@ =~= Seq::new(i as nat, |j: int| 0u16),
            decreases MEM_SIZE - i,
        {
            ram.push(0);
            i = i + 1;
        }
        let r = Memory { ram, next_ins: 0 };
        assert(r.words() =~= Seq::new(MEM_SIZE as nat, |i: int| 0u16));
        r
    }

    /// A memory loaded from a ROM image: word `i` is made of bytes `2i` (low)
    /// and `2i + 1` (high); a trailing odd byte is left out.
    pub fn from_rom_bytes(bytes: &Vec<u8>) -> (r: Memory)
        requires
            bytes@.len() <= 2 * MEM_SIZE,
        ensures
            r.wf(),
            r.next() == bytes@.len() / 2,
            forall|i: int| 0 <= i < bytes@.len() / 2 ==> r.words()[i] == rom_word(bytes@, i),
            forall|i: int| bytes@.len() / 2 <= i < MEM_SIZE ==> r.words()[i] == 0,
    {
        let mut mem = Memory::new();
        let n: usize = bytes.len() / 2;
        let mut i: usize = 0;
        while i < n
            invariant
                n == bytes@.len() / 2,
                n <= MEM_SIZE,
                i <= n,
                mem.wf(),
                mem.next() == i,
                forall|j: int| 0 <= j < i ==> mem.words()[j] == rom_word(bytes@, j),
                forall|j: int| i <= j < MEM_SIZE ==> mem.words()[j] == 0,
            decreases n - i,
        {
            let low: u16 = bytes[2 * i] as u16;
            let high: u16 = bytes[2 * i + 1] as u16;
            let word: u16 = low + 256 * high;
            mem.ram.set(i, word);
            mem.next_ins = i + 1;
            i = i + 1;
        }
        mem
    }

    /// How many words of program the memory holds.
    pub fn next_ins(&self) -> (r: usize)
        ensures
            r == self.next(),
    {
        self.next_ins
    }

    pub fn read(&self, addr: u16) -> (r: Result<u16, ArchError>)
        requires
            self.wf(),
        ensures
            addr < MEM_SIZE ==> r == Ok::<u16, ArchError>(self.words()[addr as int]),
            addr >= MEM_SIZE ==> r == Err::<u16, ArchError>(ArchError::MemAddrOutOfRange(addr)),
    {
        if addr >= MEM_SIZE {
            Err(ArchError::MemAddrOutOfRange(addr))
        } else {
            Ok(self.ram[addr as usize])
        }
    }

    pub fn write(&mut self, addr: u16, val: u16) -> (r: Result<(), ArchError>)
        requires
            old(self).wf(),
        ensures
            final(self).wf(),
            final(self).next() == old(self).next(),
            addr < MEM_SIZE ==> r is Ok && final(self).words() == old(self).words().update(addr as int, val),
            addr >= MEM_SIZE ==> r == Err::<(), ArchError>(ArchError::MemAddrOutOfRange(addr)) && final(self).words() == old(self).words(),
    {
        if addr >= MEM_SIZE {
            Err(ArchError::MemAddrOutOfRange(addr))
        } else {
            self.ram.set(addr as usize, val);
            Ok(())
        }
    }

    /// Appends one instruction after the program written so far.
    pub fn add_ins(&mut self, ins: Instruction)
        requires
            old(self).wf(),
            old(self).next() + 2 <= MEM_SIZE,
        ensures
            final(self).wf(),
            final(self).next() == old(self).next() + 2,
            final(self).words() == old(self).words().update(old(self).next() as int, ins.word_op_regs).update(
                old(self).next() + 1int,
                ins.word_imm,
            ),
    {
        let n = self.next_ins;
        self.ram.set(n, ins.word_op_regs);
        self.ram.set(n + 1, ins.word_imm);
        self.next_ins = n + 2;
    }

    /// The ROM image of the program: the program's words and the two words
    /// after it (as far as memory reaches), each low byte first.
    pub fn bytes(&self) -> (r: Vec<u8>)
        requires
            self.wf(),
        ensures
            r@ == rom_bytes(self.words(), if self.next() + 2 <= MEM_SIZE { self.next() + 2 } else { MEM_SIZE as nat }),
    {
        let n: usize = if self.next_ins + 2 <= MEM_SIZE as usize {
            self.next_ins + 2
        } else {
            MEM_SIZE as usize
        };
        let mut out: Vec<u8> = Vec::new();
        let mut i: usize = 0;
        while i < n
            invariant
                n <= MEM_SIZE,
                self.wf(),
                i <= n,
                out@ =~= rom_bytes(self.words(), i as nat),
            decreases n - i,
        {
            let word = self.ram[i];
            out.push((word % 256) as u8);
            out.push((word / 256) as u8);
            i = i + 1;
            assert(out@ =~= rom_bytes(self.words(), i as nat));
        }
        out
    }
}


/// The decimal digit `d`.
pub open spec fn digit_char(d: nat) -> char {
    if d == 0 {
        '0'
    } else if d == 1 {
        '1'
    } else if d == 2 {
        '2'
    } else if d == 3 {
        '3'
    } else if d == 4 {
        '4'
    } else if d == 5 {
        '5'
    } else if d == 6 {
        '6'
    } else if d == 7 {
        '7'
    } else if d == 8 {
        '8'
    } else {
        '9'
    }
}

/// `n` written in decimal, without leading zeros.
pub open spec fn dec_text(n: nat) -> Seq<char>
    decreases n,
{
    if n < 10 {
        seq![digit_char(n)]
    } else {
        dec_text(n / 10).push(digit_char(n % 10))
    }
}

/// The one line of text that reports an error.
pub open spec fn error_text(e: ArchError) -> Seq<char> {
    match e {
        ArchError::InvalidOpCode(c) => "Invalid OpCode: "@ + dec_text(c as nat),
        ArchError::InvalidOpMnem(m) => "Invalid OpCode Mnemonic: "@ + m@,
        ArchError::InvalidRegister(c) => "Invalid Register Code: "@ + dec_text(c as nat),
        ArchError::InvalidRegMnem(m) => "Invalid Register Mnemonic: "@ + m@,
        ArchError::MemAddrOutOfRange(a) => "Memory address out of range: "@ + dec_text(a as nat)
            + ". Last memory address is at: "@ + dec_text((MEM_SIZE - 1) as nat),
        ArchError::InvalidInstruction => "Invalid Instruction"@,
        ArchError::UnresolvableLabel(msg) => msg@,
        ArchError::InvalidOperand(msg) => msg@,
        ArchError::RepeatedLabel(l, a, b) => "Ambiguous label: "@ + l@ + ". First appearance: "@
            + dec_text(a as nat) + ", Second appearance: "@ + dec_text(b as nat),
        ArchError::DivisionByZero => "Division by zero"@,
    }
}

fn digit(d: u16) -> (r: char)
    requires
        d < 10,
    ensures
        r == digit_char(d as nat),
{
    match d {
        0 => '0',
        1 => '1',
        2 => '2',
        3 => '3',
        4 => '4',
        5 => '5',
        6 => '6',
        7 => '7',
        8 => '8',
        _ => '9',
    }
}

/// Appends the characters of `s`.
fn push_str(out: &mut Vec<char>, s: &str)
    ensures
        final(out)@ == old(out)@ + s@,
{
    let n = s.unicode_len();
    let mut i: usize = 0;
    let ghost start = out@;
    while i < n
        invariant
            n == s@.len(),
            i <= n,
            out@ =~= start + s@.subrange(0, i as int),
        decreases n - i,
    {
        out.push(s.get_char(i));
        i = i + 1;
    }
    assert(s@.subrange(0, n as int) =~= s@);
}

/// Appends `n` in decimal.
fn push_dec(out: &mut Vec<char>, n: u16)
    ensures
        final(out)@ == old(out)@ + dec_text(n as nat),
    decreases n,
{
    if n >= 10 {
        push_dec(out, n / 10);
    }
    let ghost mid = out@;
    out.push(digit(n % 10));
    proof {
        if n >= 10 {
            assert(out@ =~= old(out)@ + dec_text(n as nat));
        } else {
            assert(out@ =~= old(out)@ + dec_text(n as nat));
        }
    }
}

impl ArchError {
    /// The one line of text that reports the error.
    pub fn message(&self) -> (r: String)
        ensures
            r@ == error_text(*self),
    {
        let mut out: Vec<char> = Vec::new();
        match self {
            ArchError::InvalidOpCode(c) => {
                push_str(&mut out, "Invalid OpCode: ");
                push_dec(&mut out, *c);
            },
            ArchError::InvalidOpMnem(m) => {
                push_str(&mut out, "Invalid OpCode Mnemonic: ");
                push_str(&mut out, m.as_str());
            },
            ArchError::InvalidRegister(c) => {
                push_str(&mut out, "Invalid Register Code: ");
                push_dec(&mut out, *c);
            },
            ArchError::InvalidRegMnem(m) => {
                push_str(&mut out, "Invalid Register Mnemonic: ");
                push_str(&mut out, m.as_str());
            },
            ArchError::MemAddrOutOfRange(a) => {
                push_str(&mut out, "Memory address out of range: ");
                push_dec(&mut out, *a);
                push_str(&mut out, ". Last memory address is at: ");
                push_dec(&mut out, MEM_SIZE - 1);
            },
            ArchError::InvalidInstruction => {
                push_str(&mut out, "Invalid Instruction");
            },
            ArchError::UnresolvableLabel(msg) => {
                push_str(&mut out, msg);
            },
            ArchError::InvalidOperand(msg) => {
                push_str(&mut out, msg);
            },
            ArchError::RepeatedLabel(l, a, b) => {
                push_str(&mut out, "Ambiguous label: ");
                push_str(&mut out, l.as_str());
                push_str(&mut out, ". First appearance: ");
                push_dec(&mut out, *a);
                push_str(&mut out, ", Second appearance: ");
                push_dec(&mut out, *b);
            },
            ArchError::DivisionByZero => {
                push_str(&mut out, "Division by zero");
            },
        }
        assert(out@ =~= error_text(*self));
        string_from_chars(&out)
    }
}

} // verus!
