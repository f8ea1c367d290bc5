use teenyat::arch::{ArchError, Instruction, Memory, OpCode, RegMnem, Register};
use teenyat::assembler::parse_lines;

#[test]
fn encoding_layout() {
    let ins = Instruction::with_vals(OpCode::Jg, RegMnem::Sp, RegMnem::Bx, 0x1234);
    assert_eq!(ins.word_op_regs, (28 << 11) | (7 << 8) | (2 << 5));
    assert_eq!(ins.word_imm, 0x1234);
}

#[test]
fn decode_gives_back_every_encoding() {
    for code in 0u16..29 {
        let op = OpCode::from_int(code).unwrap();
        assert_eq!(op.to_int(), code);
        for ra in 0u16..8 {
            for rb in 0u16..8 {
                let a = RegMnem::from_int(ra).unwrap();
                let b = RegMnem::from_int(rb).unwrap();
                let ins = Instruction::with_vals(op, a, b, 77);
                assert_eq!(ins.get_op_code(), Ok(op));
                assert_eq!(ins.get_ra(), Ok(a));
                assert_eq!(ins.get_rb(), Ok(b));
                assert_eq!(ins.word_imm, 77);
            }
        }
    }
}

#[test]
fn aliases_share_an_index() {
    assert_eq!(RegMnem::Ax.to_int(), RegMnem::R1.to_int());
    assert_eq!(RegMnem::_R0.to_int(), 0);
    assert_eq!(RegMnem::R7.to_int(), 7);
    assert_eq!(RegMnem::from_str("SP").map(|m| m.to_int()), Ok(7));
    assert_eq!(RegMnem::from_str("r0").map(|m| m.to_int()), Ok(0));
    assert_eq!(RegMnem::from_str("Fx").map(|m| m.to_int()), Ok(6));
}

#[test]
fn unknown_codes_and_names_are_errors() {
    assert_eq!(OpCode::from_int(29), Err(ArchError::InvalidOpCode(29)));
    assert_eq!(RegMnem::from_int(8), Err(ArchError::InvalidRegister(8)));
    assert_eq!(OpCode::from_str("NOPE"), Err(ArchError::InvalidOpMnem("nope".to_string())));
    assert_eq!(RegMnem::from_str("GX"), Err(ArchError::InvalidRegMnem("gx".to_string())));
}

#[test]
fn mnemonics_ignore_case() {
    assert_eq!(OpCode::from_str("PLoad"), Ok(OpCode::PLoad));
    assert_eq!(OpCode::from_str("SET"), Ok(OpCode::SetImm));
    assert_eq!(OpCode::from_str("jge"), Ok(OpCode::Jge));
    assert_eq!(OpCode::Call.num_regs(), 0);
    assert_eq!(OpCode::Shl.num_regs(), 1);
    assert_eq!(OpCode::Xor.num_regs(), 2);
}

#[test]
fn memory_bounds() {
    let mut m = Memory::new();
    assert_eq!(m.read(0x7fff), Ok(0));
    assert_eq!(m.write(0x7fff, 5), Ok(()));
    assert_eq!(m.read(0x7fff), Ok(5));
    assert_eq!(m.read(0x8000), Err(ArchError::MemAddrOutOfRange(0x8000)));
    assert_eq!(m.write(0x9000, 1), Err(ArchError::MemAddrOutOfRange(0x9000)));
}

#[test]
fn add_ins_appends_two_words() {
    let mut m = Memory::new();
    m.add_ins(Instruction::new(0xabcd, 0x1234));
    m.add_ins(Instruction::new(1, 2));
    assert_eq!(m.next_ins(), 4);
    assert_eq!(m.read(0), Ok(0xabcd));
    assert_eq!(m.read(1), Ok(0x1234));
    assert_eq!(m.read(3), Ok(2));
}

#[test]
fn rom_bytes_are_low_byte_first() {
    let mut m = Memory::new();
    m.add_ins(Instruction::new(0xabcd, 0x1234));
    assert_eq!(m.bytes(), vec![0xcd, 0xab, 0x34, 0x12, 0, 0, 0, 0]);
    let l = Memory::from_rom_bytes(&vec![0xcd, 0xab, 0x34, 0x12, 0x99]);
    assert_eq!(l.next_ins(), 2);
    assert_eq!(l.read(0), Ok(0xabcd));
    assert_eq!(l.read(1), Ok(0x1234));
    assert_eq!(l.read(2), Ok(0));
}

#[test]
fn register_starts_at_zero() {
    let r = Register::new(RegMnem::Cx);
    assert_eq!(r.val, 0);
    assert_eq!(r.mnem, RegMnem::Cx);
}

#[test]
fn assembled_words() {
    let m = parse_lines(&vec![
        "set ax 65 ; comment".to_string(),
        "".to_string(),
        ":l jmp :l".to_string(),
        "call :l".to_string(),
    ])
    .unwrap();
    assert_eq!(m.next_ins(), 6);
    assert_eq!(m.read(0), Ok(1 << 8));
    assert_eq!(m.read(1), Ok(65));
    assert_eq!(m.read(2), Ok(0));
    assert_eq!(m.read(3), Ok(2));
    assert_eq!(m.read(4), Ok(22 << 11));
    assert_eq!(m.read(5), Ok(2));
}

#[test]
fn empty_source_is_an_empty_program() {
    let m = parse_lines(&Vec::new()).unwrap();
    assert_eq!(m.next_ins(), 0);
}

#[test]
fn error_messages() {
    assert_eq!(ArchError::InvalidOpCode(31).message(), "Invalid OpCode: 31");
    assert_eq!(ArchError::InvalidRegister(0).message(), "Invalid Register Code: 0");
    assert_eq!(ArchError::InvalidOpMnem("nop".to_string()).message(), "Invalid OpCode Mnemonic: nop");
    assert_eq!(ArchError::InvalidRegMnem("gx".to_string()).message(), "Invalid Register Mnemonic: gx");
    assert_eq!(
        ArchError::MemAddrOutOfRange(65535).message(),
        "Memory address out of range: 65535. Last memory address is at: 32767"
    );
    assert_eq!(ArchError::InvalidInstruction.message(), "Invalid Instruction");
    assert_eq!(ArchError::UnresolvableLabel("no such label").message(), "no such label");
    assert_eq!(ArchError::InvalidOperand("bad operand").message(), "bad operand");
    assert_eq!(
        ArchError::RepeatedLabel(":dup".to_string(), 0, 12).message(),
        "Ambiguous label: :dup. First appearance: 0, Second appearance: 12"
    );
    assert_eq!(ArchError::DivisionByZero.message(), "Division by zero");
}
