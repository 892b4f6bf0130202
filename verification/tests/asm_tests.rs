use tinyvm::assembler::assembly;

#[test]
fn test_assembly_mov_immediate_to_register() {
    let upper: u16 = assembly("mov 154 B").unwrap()[0];

    // opcode
    assert!(upper & (1 << 15) == 0);
    assert!(upper & (1 << 14) == 0);
    assert!(upper & (1 << 13) == 0);
    assert!(upper & (1 << 12) == 0);

    // dst
    assert!(upper & (1 << 11) == 0);
    assert!(upper & (1 << 10) == 0);
    assert!(upper & (1 << 9) != 0);

    // immediate bit
    assert!(upper & (1 << 8) != 0);

    // immediate value
    assert!(upper & (1 << 7) != 0);
    assert!(upper & (1 << 6) == 0);
    assert!(upper & (1 << 5) == 0);
    assert!(upper & (1 << 4) != 0);
    assert!(upper & (1 << 3) != 0);
    assert!(upper & (1 << 2) == 0);
    assert!(upper & (1 << 1) != 0);
    assert!(upper & (1 << 0) == 0);
}

#[test]
fn test_assembly_mov_register_to_register() {
    let upper: u16 = assembly("mov A B").unwrap()[0];

    // opcode
    assert!(upper & (1 << 15) == 0);
    assert!(upper & (1 << 14) == 0);
    assert!(upper & (1 << 13) == 0);
    assert!(upper & (1 << 12) == 0);

    // dst
    assert!(upper & (1 << 11) == 0);
    assert!(upper & (1 << 10) == 0);
    assert!(upper & (1 << 9) != 0);

    // immediate bit
    assert!(upper & (1 << 8) == 0);

    // src
    assert!(upper & (1 << 7) == 0);
    assert!(upper & (1 << 6) == 0);
    assert!(upper & (1 << 5) == 0);
    assert!(upper & (1 << 4) == 0);
    assert!(upper & (1 << 3) == 0);
    assert!(upper & (1 << 2) == 0);
    assert!(upper & (1 << 1) == 0);
    assert!(upper & (1 << 0) == 0);
}

#[test]
fn test_assembly_add_immediate_to_register() {
    let upper: u16 = assembly("add 12 B").unwrap()[0];

    // opcode
    assert!(upper & (1 << 15) == 0);
    assert!(upper & (1 << 14) == 0);
    assert!(upper & (1 << 13) == 0);
    assert!(upper & (1 << 12) != 0);

    // dst
    assert!(upper & (1 << 11) == 0);
    assert!(upper & (1 << 10) == 0);
    assert!(upper & (1 << 9) != 0);

    // immediate bit
    assert!(upper & (1 << 8) != 0);

    // src
    assert!(upper & (1 << 7) == 0);
    assert!(upper & (1 << 6) == 0);
    assert!(upper & (1 << 5) == 0);
    assert!(upper & (1 << 4) == 0);
    assert!(upper & (1 << 3) != 0);
    assert!(upper & (1 << 2) != 0);
    assert!(upper & (1 << 1) == 0);
    assert!(upper & (1 << 0) == 0);
}

#[test]
fn test_assembly_add_register_to_register() {
    let upper: u16 = assembly("add A B").unwrap()[0];

    // opcode
    assert!(upper & (1 << 15) == 0);
    assert!(upper & (1 << 14) == 0);
    assert!(upper & (1 << 13) == 0);
    assert!(upper & (1 << 12) != 0);

    // dst
    assert!(upper & (1 << 11) == 0);
    assert!(upper & (1 << 10) == 0);
    assert!(upper & (1 << 9) != 0);

    // immediate bit
    assert!(upper & (1 << 8) == 0);

    // src
    assert!(upper & (1 << 7) == 0);
    assert!(upper & (1 << 6) == 0);
    assert!(upper & (1 << 5) == 0);
    assert!(upper & (1 << 4) == 0);
    assert!(upper & (1 << 3) == 0);
    assert!(upper & (1 << 2) == 0);
    assert!(upper & (1 << 1) == 0);
    assert!(upper & (1 << 0) == 0);
}
