use tinyvm::assembler::{assembly, AsmErrorKind};
use tinyvm::cpu::{ExecError, Get, Run, RunError, RunOutcome, SetReg, CPU};
use tinyvm::isa::{DecodeError, EncodeTwoBytes, Op, OpPlace, Reg};

#[test]
fn test_mov_immediate_word_decodes_back() {
    let words = assembly("mov 154 B").unwrap();
    assert_eq!(words.len(), 1);
    let op = Op::decode(words[0]).unwrap();
    assert_eq!(op, Op::Mov(OpPlace::Imm(154), Reg::B));
}

#[test]
fn test_mov_register_word_decodes_back() {
    let words = assembly("mov A B").unwrap();
    let op = Op::decode(words[0]).unwrap();
    assert_eq!(op, Op::Mov(OpPlace::Reg(Reg::A), Reg::B));
}

#[test]
fn test_add_immediate_word_fields() {
    let w: u16 = assembly("add 12 B").unwrap()[0];
    assert_eq!(w >> 12, 0b0001);
    assert_eq!((w >> 9) & 0b111, 1);
    assert!(w & (1 << 8) != 0);
    assert_eq!(w & 0xFF, 12);
    assert_eq!(Op::decode(w).unwrap(), Op::Add(OpPlace::Imm(12), Reg::B));
}

#[test]
fn test_round_trip_all_variants() {
    let ops = vec![
        Op::Mov(OpPlace::Imm(0), Reg::A),
        Op::Mov(OpPlace::Reg(Reg::C), Reg::B),
        Op::Add(OpPlace::Imm(255), Reg::C),
        Op::Add(OpPlace::Reg(Reg::A), Reg::A),
        Op::Sub(OpPlace::Imm(17), Reg::B),
        Op::Sub(OpPlace::Reg(Reg::B), Reg::C),
        Op::Cmp(OpPlace::Imm(200), Reg::A),
        Op::Cmp(OpPlace::Reg(Reg::A), Reg::B),
        Op::Jmp(OpPlace::Imm(3)),
        Op::Jmp(OpPlace::Reg(Reg::B)),
        Op::Je(OpPlace::Imm(0)),
        Op::Jne(OpPlace::Imm(255)),
        Op::Int(OpPlace::Imm(0)),
        Op::Int(OpPlace::Reg(Reg::C)),
    ];
    for op in ops.iter() {
        let w: u16 = op.encode();
        assert_eq!(Op::decode(w).unwrap(), *op);
    }
}

#[test]
fn test_distinct_instructions_encode_distinctly() {
    let a: u16 = Op::Mov(OpPlace::Imm(1), Reg::A).encode();
    let b: u16 = Op::Mov(OpPlace::Imm(2), Reg::A).encode();
    let c: u16 = Op::Mov(OpPlace::Reg(Reg::B), Reg::A).encode();
    let d: u16 = Op::Add(OpPlace::Imm(1), Reg::A).encode();
    assert_ne!(a, b);
    assert_ne!(a, c);
    assert_ne!(a, d);
    assert_ne!(c, d);
}

#[test]
fn test_jump_if_zero_taken_skips_move() {
    let words = vec![
        Op::Mov(OpPlace::Imm(5), Reg::A).encode(),
        Op::Sub(OpPlace::Imm(5), Reg::A).encode(),
        Op::Je(OpPlace::Imm(4)).encode(),
        Op::Mov(OpPlace::Imm(1), Reg::B).encode(),
    ];
    let mut cpu = CPU::default();
    let r = cpu.run(&words, 1000);
    assert_eq!(r.unwrap(), RunOutcome::Halted);
    assert_eq!(cpu.get(&Reg::B), 0);
    assert!(cpu.zero_flag());
    assert_eq!(cpu.pc(), 4);
}

#[test]
fn test_subtract_borrow_and_compare() {
    let mut cpu = CPU::default();
    cpu.set(&Reg::A, 5);
    cpu.execute(&Op::Sub(OpPlace::Imm(7), Reg::A)).unwrap();
    assert!(cpu.carry_flag());
    assert!(!cpu.zero_flag());
    assert_eq!(cpu.get(&Reg::A), 254);

    let mut cpu2 = CPU::default();
    cpu2.set(&Reg::A, 5);
    cpu2.execute(&Op::Cmp(OpPlace::Imm(7), Reg::A)).unwrap();
    assert!(cpu2.carry_flag());
    assert!(!cpu2.zero_flag());
    assert_eq!(cpu2.get(&Reg::A), 5);
}

#[test]
fn test_add_wraps_at_eight_bits() {
    let mut cpu = CPU::default();
    cpu.set(&Reg::A, 250);
    cpu.execute(&Op::Add(OpPlace::Imm(10), Reg::A)).unwrap();
    assert_eq!(cpu.get(&Reg::A), 4);
}

#[test]
fn test_unsupported_interrupt_stops_run() {
    let words = vec![
        Op::Int(OpPlace::Imm(1)).encode(),
        Op::Mov(OpPlace::Imm(9), Reg::C).encode(),
    ];
    let mut cpu = CPU::default();
    let r = cpu.run(&words, 1000);
    assert_eq!(r.unwrap_err(), RunError::Exec(ExecError::UnsupportedInterrupt));
    assert_eq!(cpu.get(&Reg::C), 0);
}

#[test]
fn test_unsupported_interrupt_execute() {
    let mut cpu = CPU::default();
    let r = cpu.execute(&Op::Int(OpPlace::Imm(3)));
    assert_eq!(r.unwrap_err(), ExecError::UnsupportedInterrupt);
}

#[test]
fn test_interrupt_zero_emits_register_b() {
    let words = vec![
        Op::Mov(OpPlace::Imm(72), Reg::B).encode(),
        Op::Int(OpPlace::Imm(0)).encode(),
        Op::Mov(OpPlace::Imm(105), Reg::B).encode(),
        Op::Int(OpPlace::Imm(0)).encode(),
    ];
    let mut cpu = CPU::default();
    assert_eq!(cpu.run(&words, 1000).unwrap(), RunOutcome::Halted);
    assert_eq!(cpu.output(), &vec![72u8, 105]);
}

#[test]
fn test_program_halts_cleanly_at_word_count() {
    let words = vec![Op::Mov(OpPlace::Imm(1), Reg::A).encode()];
    let mut cpu = CPU::default();
    assert_eq!(cpu.run(&words, 1000).unwrap(), RunOutcome::Halted);
    assert_eq!(cpu.pc(), 1);
    assert_eq!(cpu.get(&Reg::A), 1);
}

#[test]
fn test_empty_program_halts_immediately() {
    let words: Vec<u16> = Vec::new();
    let mut cpu = CPU::default();
    assert_eq!(cpu.run(&words, 1000).unwrap(), RunOutcome::Halted);
    assert_eq!(cpu.pc(), 0);
}

#[test]
fn test_infinite_loop_hits_step_limit() {
    let words = vec![Op::Jmp(OpPlace::Imm(0)).encode()];
    let mut cpu = CPU::default();
    assert_eq!(cpu.run(&words, 50).unwrap(), RunOutcome::StepLimit);
}

#[test]
fn test_unknown_opcode_word() {
    assert_eq!(Op::decode(0x8000).unwrap_err(), DecodeError::UnknownOpcode);
}

#[test]
fn test_unknown_register_in_source_field() {
    // immediate flag clear, source register field 5
    assert_eq!(Op::decode(0x0005).unwrap_err(), DecodeError::UnknownRegister);
}

#[test]
fn test_unknown_register_in_destination_field() {
    // opcode 0, dst field 5, immediate flag set, operand 7
    let w: u16 = (5 << 9) | (1 << 8) | 7;
    assert_eq!(Op::decode(w).unwrap_err(), DecodeError::UnknownRegister);
}

#[test]
fn test_unknown_mnemonic_reports_line() {
    let e = assembly("mov 1 A\n\nfoo 1").unwrap_err();
    assert_eq!(e.line, 2);
    assert_eq!(e.kind, AsmErrorKind::UnknownMnemonic);
}

#[test]
fn test_missing_operands() {
    assert_eq!(assembly("mov").unwrap_err().kind, AsmErrorKind::MissingOperand);
    assert_eq!(assembly("mov 1").unwrap_err().kind, AsmErrorKind::MissingOperand);
    assert_eq!(assembly("jmp").unwrap_err().kind, AsmErrorKind::MissingOperand);
}

#[test]
fn test_unrecognized_operand() {
    assert_eq!(
        assembly("mov x B").unwrap_err().kind,
        AsmErrorKind::UnrecognizedOperand
    );
    // a doubled separator makes an empty field
    assert_eq!(
        assembly("mov  1").unwrap_err().kind,
        AsmErrorKind::UnrecognizedOperand
    );
}

#[test]
fn test_immediate_out_of_range() {
    let e = assembly("mov 300 B").unwrap_err();
    assert_eq!(e.line, 0);
    assert_eq!(e.kind, AsmErrorKind::ImmediateOutOfRange);
}

#[test]
fn test_register_required_for_destination() {
    assert_eq!(
        assembly("mov 1 2").unwrap_err().kind,
        AsmErrorKind::RegisterRequired
    );
}

#[test]
fn test_blank_lines_are_skipped() {
    let words = assembly("\n\n  mov 1 A  \n\n\tjmp 0\n").unwrap();
    assert_eq!(words.len(), 2);
    assert_eq!(Op::decode(words[0]).unwrap(), Op::Mov(OpPlace::Imm(1), Reg::A));
    assert_eq!(Op::decode(words[1]).unwrap(), Op::Jmp(OpPlace::Imm(0)));
}

#[test]
fn test_single_operand_mnemonics() {
    let words = assembly("jmp 3\nje 4\njne 5\nint 0").unwrap();
    assert_eq!(Op::decode(words[0]).unwrap(), Op::Jmp(OpPlace::Imm(3)));
    assert_eq!(Op::decode(words[1]).unwrap(), Op::Je(OpPlace::Imm(4)));
    assert_eq!(Op::decode(words[2]).unwrap(), Op::Jne(OpPlace::Imm(5)));
    assert_eq!(Op::decode(words[3]).unwrap(), Op::Int(OpPlace::Imm(0)));
}

#[test]
fn test_countdown_program_runs() {
    let src = "mov 3 A\nsub 1 A\njne 1";
    // `sub` is not a mnemonic: only mov, add, cmp, jmp, je, jne, int
    assert_eq!(assembly(src).unwrap_err().kind, AsmErrorKind::UnknownMnemonic);

    let words = vec![
        Op::Mov(OpPlace::Imm(3), Reg::A).encode(),
        Op::Sub(OpPlace::Imm(1), Reg::A).encode(),
        Op::Jne(OpPlace::Imm(1)).encode(),
    ];
    let mut cpu = CPU::default();
    assert_eq!(cpu.run(&words, 1000).unwrap(), RunOutcome::Halted);
    assert_eq!(cpu.get(&Reg::A), 0);
    assert!(cpu.zero_flag());
}
