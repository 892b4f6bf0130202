use tinyvm::cpu::{Get, SetReg, CPU};
use tinyvm::isa::{Op, OpPlace, Reg};

#[test]
fn test_mov_register_to_register() {
    let mut cpu = CPU::default();
    cpu.set(&Reg::A, 0xEF);

    cpu.execute(&Op::Mov(OpPlace::Reg(Reg::A), Reg::B)).unwrap();

    assert_eq!(cpu.get(&Reg::B), 0xEF);
}

#[test]
fn test_mov_immediate_to_register() {
    let mut cpu = CPU::default();

    cpu.execute(&Op::Mov(OpPlace::Imm(0xEF), Reg::B)).unwrap();

    assert_eq!(cpu.get(&Reg::B), 0xEF);
}

#[test]
fn test_add_immediate_to_register() {
    let mut cpu = CPU::default();
    cpu.set(&Reg::B, 0x02);

    cpu.execute(&Op::Add(OpPlace::Imm(0x01), Reg::B)).unwrap();

    assert_eq!(cpu.get(&Reg::B), 0x03);
}

#[test]
fn test_add_reguster_to_register() {
    let mut cpu = CPU::default();

    cpu.set(&Reg::A, 0x01);
    cpu.set(&Reg::B, 0x02);

    cpu.execute(&Op::Add(OpPlace::Reg(Reg::A), Reg::B)).unwrap();

    assert_eq!(cpu.get(&Reg::B), 0x03);
}

#[test]
fn test_sub_immediate_from_register() {
    let mut cpu = CPU::default();

    cpu.set(&Reg::A, 0x08);

    cpu.execute(&Op::Sub(OpPlace::Imm(0x05), Reg::A)).unwrap();

    assert_eq!(cpu.get(&Reg::A), 0x03);
}

#[test]
fn test_sub_register_from_register() {
    let mut cpu = CPU::default();

    cpu.set(&Reg::A, 0x08);
    cpu.set(&Reg::B, 0x05);

    cpu.execute(&Op::Sub(OpPlace::Reg(Reg::B), Reg::A)).unwrap();

    assert_eq!(cpu.get(&Reg::A), 0x03);
}
