use teenyat::arch::{ArchError, Memory};
use teenyat::assembler::parse_lines;
use teenyat::vm::{Action, RunEnd, RunOutcome, TeenyAT};

fn lines(src: &[&str]) -> Vec<String> {
    src.iter().map(|l| l.to_string()).collect()
}

fn assemble(src: &[&str]) -> Memory {
    parse_lines(&lines(src)).expect("program assembles")
}

fn run_with(src: &[&str], input: &[u8]) -> RunOutcome {
    let mem = assemble(src);
    let mut vm = TeenyAT::new(mem);
    vm.run(&input.to_vec(), 100_000)
}

#[test]
fn prints_a_and_exits_with_its_code() {
    let out = run_with(&["set ax 65", "stor ax OUT", "stor ax END"], &[]);
    assert_eq!(out.output, b"A".to_vec());
    assert_eq!(out.end, RunEnd::Exit(65));
}

#[test]
fn adds_two_registers() {
    let out = run_with(&["set ax 5", "set bx 3", "add ax bx", "stor ax END"], &[]);
    assert!(out.output.is_empty());
    assert_eq!(out.end, RunEnd::Exit(8));
}

#[test]
fn counts_to_ten_with_a_backward_jump() {
    let out = run_with(
        &["set ax 0", "set bx 10", ":loop inc ax", "jl ax bx :loop", "stor ax END"],
        &[],
    );
    assert_eq!(out.end, RunEnd::Exit(10));
}

#[test]
fn push_and_pop_restore_a_register() {
    let out = run_with(
        &["set ax 'A'", "push ax", "set ax 0", "pop ax", "stor ax OUT", "stor ax END"],
        &[],
    );
    assert_eq!(out.output, b"A".to_vec());
    assert_eq!(out.end, RunEnd::Exit(65));
}

#[test]
fn call_and_return() {
    let out = run_with(&["call :sub", "stor ax END", ":sub set ax 7", "ret"], &[]);
    assert_eq!(out.end, RunEnd::Exit(7));
}

#[test]
fn duplicate_label_is_refused() {
    let r = parse_lines(&lines(&[":dup set ax 1", ":dup set bx 2"]));
    match r {
        Err(ArchError::RepeatedLabel(name, first, second)) => {
            assert_eq!(name, ":dup");
            assert_eq!(first, 0);
            assert_eq!(second, 1);
        }
        other => panic!("expected RepeatedLabel, got {:?}", other.map(|m| m.next_ins())),
    }
}

#[test]
fn duplicate_label_on_one_line_is_refused() {
    let r = parse_lines(&lines(&["!x !x"]));
    assert!(matches!(r, Err(ArchError::RepeatedLabel(_, 0, 0))));
}

#[test]
fn undeclared_label_is_unresolvable() {
    let r = parse_lines(&lines(&["jmp :nowhere"]));
    assert!(matches!(r, Err(ArchError::UnresolvableLabel(_))));
}

#[test]
fn register_in_address_slot_is_invalid_operand() {
    let r = parse_lines(&lines(&["stor ax bx"]));
    assert!(matches!(r, Err(ArchError::InvalidOperand(_))));
}

#[test]
fn stor_takes_address_before_register_too() {
    let out = run_with(&["set bx 9", "stor END bx"], &[]);
    assert_eq!(out.end, RunEnd::Exit(9));
}

#[test]
fn reads_input_bytes_in_order() {
    let out = run_with(&["load ax IN", "load bx IN", "sub ax bx", "stor ax END"], &[10, 3]);
    assert_eq!(out.end, RunEnd::Exit(7));
}

#[test]
fn input_after_the_last_byte_ends_the_run() {
    let out = run_with(&["load ax IN", "stor ax END"], &[]);
    assert_eq!(out.end, RunEnd::NoInput);
}

#[test]
fn pload_and_pstor_go_through_registers() {
    let out = run_with(
        &["set ax 100", "set bx 42", "pstor ax bx", "pload cx ax", "stor cx END"],
        &[],
    );
    assert_eq!(out.end, RunEnd::Exit(42));
}

#[test]
fn pstor_to_output_port_emits_register_b() {
    let out = run_with(&["set ax OUT", "set bx 'z'", "pstor ax bx", "stor bx END"], &[]);
    assert_eq!(out.output, b"z".to_vec());
    assert_eq!(out.end, RunEnd::Exit(122));
}

#[test]
fn division_by_zero_faults() {
    let out = run_with(&["set ax 5", "div ax bx", "stor ax END"], &[]);
    assert_eq!(out.end, RunEnd::Fault(ArchError::DivisionByZero));
}

#[test]
fn division_and_remainder() {
    let out = run_with(&["set ax 17", "set bx 5", "copy cx ax", "div ax bx", "mod cx bx", "shl ax 4", "or ax cx", "stor ax END"], &[]);
    assert_eq!(out.end, RunEnd::Exit(3 * 16 + 2));
}

#[test]
fn arithmetic_wraps() {
    let out = run_with(&["set ax 65535", "inc ax", "dec ax", "dec ax", "stor ax END"], &[]);
    assert_eq!(out.end, RunEnd::Exit(65534));
    let out = run_with(&["set ax 300", "set bx 300", "mult ax bx", "stor ax END"], &[]);
    assert_eq!(out.end, RunEnd::Exit((90000u32 % 65536) as u16));
}

#[test]
fn bit_operations() {
    let out = run_with(
        &["set ax 0x00f0", "set bx 0x0ff0", "xor ax bx", "set cx 0x0f00", "and ax cx", "inv ax", "shr ax 8", "stor ax END"],
        &[],
    );
    assert_eq!(out.end, RunEnd::Exit(0x00f0));
}

#[test]
fn shift_by_sixteen_or_more_gives_zero() {
    let out = run_with(&["set ax 1", "shl ax 16", "stor ax END"], &[]);
    assert_eq!(out.end, RunEnd::Exit(0));
}

#[test]
fn negation_twice_is_identity() {
    for v in [0u16, 1, 5, 32767, 32768, 65535] {
        let src = format!("set ax {}", v);
        let out = run_with(&[src.as_str(), "neg ax", "neg ax", "stor ax END"], &[]);
        assert_eq!(out.end, RunEnd::Exit(v));
    }
    let out = run_with(&["set ax 5", "neg ax", "stor ax END"], &[]);
    assert_eq!(out.end, RunEnd::Exit(65531));
}

#[test]
fn jumps_compare_signed() {
    // -1 < 1 as signed values, though 65535 > 1 unsigned.
    let cases: [(&str, bool); 6] = [
        ("jl", true),
        ("jle", true),
        ("je", false),
        ("jne", true),
        ("jge", false),
        ("jg", false),
    ];
    for (op, taken) in cases {
        let jump = format!("{} ax bx :yes", op);
        let out = run_with(
            &["set ax -1", "set bx 1", jump.as_str(), "set cx 0", "stor cx END", ":yes set cx 1", "stor cx END"],
            &[],
        );
        assert_eq!(out.end, RunEnd::Exit(if taken { 1 } else { 0 }), "{}", op);
    }
}

#[test]
fn push_pop_keeps_stack_pointer() {
    let out = run_with(&["copy dx sp", "set ax 9", "push ax", "pop ax", "sub dx sp", "stor dx END"], &[]);
    assert_eq!(out.end, RunEnd::Exit(0));
}

#[test]
fn pop_on_empty_stack_faults() {
    let out = run_with(&["pop ax"], &[]);
    assert_eq!(out.end, RunEnd::Fault(ArchError::MemAddrOutOfRange(0x8000)));
}

#[test]
fn running_off_memory_faults() {
    let out = run_with(&["set pc 32767"], &[]);
    assert_eq!(out.end, RunEnd::Fault(ArchError::MemAddrOutOfRange(0x8000)));
}

#[test]
fn out_of_fuel_stops_a_loop() {
    let mem = assemble(&[":top jmp :top"]);
    let mut vm = TeenyAT::new(mem);
    let out = vm.run(&Vec::new(), 50);
    assert_eq!(out.end, RunEnd::OutOfFuel);
}

#[test]
fn invalid_opcode_faults() {
    let mut mem = Memory::new();
    mem.write(0, 29 << 11).unwrap();
    let mut vm = TeenyAT::new(mem);
    let out = vm.run(&Vec::new(), 10);
    assert_eq!(out.end, RunEnd::Fault(ArchError::InvalidOpCode(29)));
}

#[test]
fn rom_image_round_trip_runs_the_same() {
    let src = ["set ax 'h'", "stor ax OUT", "set ax 'i'", "stor ax OUT", "stor ax END"];
    let mem = assemble(&src);
    let bytes = mem.bytes();
    assert_eq!(bytes.len(), 2 * (mem.next_ins() + 2));
    assert_eq!(&bytes[0..4], &[0x00, 0x01, 104, 0]);
    let loaded = Memory::from_rom_bytes(&bytes);
    let a = TeenyAT::new(mem).run(&Vec::new(), 100);
    let b = TeenyAT::new(loaded).run(&Vec::new(), 100);
    assert_eq!(a.output, b"hi".to_vec());
    assert_eq!(a.output, b.output);
    assert_eq!(a.end, b.end);
}

#[test]
fn step_reports_output_then_exit() {
    let mut vm = TeenyAT::new(assemble(&["set ax 'Q'", "stor ax OUT", "stor ax END"]));
    assert_eq!(vm.step(), Ok(Action::Continue));
    assert_eq!(vm.step(), Ok(Action::Output(b'Q')));
    assert_eq!(vm.step(), Ok(Action::Exit(81)));
    assert_eq!(vm.reg(0), 6);
}

#[test]
fn input_is_completed_into_register_a() {
    let mut vm = TeenyAT::new(assemble(&["load dx IN"]));
    assert_eq!(vm.step(), Ok(Action::Input));
    vm.complete_input(b'x');
    assert_eq!(vm.reg(4), 120);
}

#[test]
fn new_machine_keeps_the_program_and_starts_quiet() {
    let mem = assemble(&["set ax 1", "stor ax END"]);
    let vm = TeenyAT::new(mem);
    assert!(!vm.debug_mode);
    assert_eq!(vm.memory().next_ins(), 4);
    assert_eq!(vm.memory().read(1), Ok(1));
    for r in 0u16..7 {
        assert_eq!(vm.reg(r), 0);
    }
    assert_eq!(vm.reg(7), 0x8000);
}
