use flint::disassembler::disassemble_bytecode;
use flint::op;

fn show_float(bits: u64) -> String {
    format!("{:.4}", f64::from_bits(bits))
}

fn disassemble(bytecode: Vec<u8>) -> String {
    disassemble_bytecode(bytecode, &show_float)
}

#[test]
fn test_disassemble_single_byte_instructions() {
    let bytecode = vec![op::ADD, op::HALT];
    let result = disassemble(bytecode);
    let lines: Vec<&str> = result.lines().collect();
    assert_eq!(lines.len(), 2);
    let add_expected = format!("0000: {:02X} ADD", op::ADD);
    let halt_expected = format!("0001: {:02X} HALT", op::HALT);
    assert!(
        lines[0].contains(&add_expected),
        "Expected line to contain '{}', but got '{}'",
        add_expected,
        lines[0]
    );
    assert!(
        lines[1].contains(&halt_expected),
        "Expected line to contain '{}', but got '{}'",
        halt_expected,
        lines[1]
    );
}

#[test]
fn test_disassemble_two_byte_instruction() {
    let bytecode = vec![op::BIPUSH, 10];
    let result = disassemble(bytecode);
    assert!(result.contains("0000: 03 BIPUSH     10"));
}

#[test]
fn test_disassemble_five_byte_signed_instruction() {
    let val: i32 = -500;
    let mut bytecode = vec![op::IPUSH];
    bytecode.extend(&val.to_be_bytes());
    let result = disassemble(bytecode);
    assert!(result.contains("0000: 02 IPUSH      -500"));
}

#[test]
fn test_disassemble_five_byte_aligned_instruction() {
    let mut bytecode = vec![op::LOAD];
    bytecode.extend(&10u32.to_be_bytes());
    let result = disassemble(bytecode);
    assert!(result.contains("LOAD       10       (0x0A)"));
}

#[test]
fn test_disassemble_nine_byte_instruction() {
    let val: f64 = 42.5;
    let mut bytecode = vec![op::FPUSH];
    bytecode.extend(&val.to_be_bytes());
    let result = disassemble(bytecode);
    assert!(result.contains("0000: 04 FPUSH      42.5000"));
}

#[test]
fn test_disassemble_unknown_opcode() {
    let bytecode = vec![0xFF];
    let result = disassemble(bytecode);
    assert!(result.contains("0000: FF UNKNOWN"));
}

#[test]
fn test_disassemble_complex_sequence() {
    let mut bytecode = vec![op::BIPUSH, 5];
    bytecode.push(op::ADD);
    bytecode.push(op::STORE);
    bytecode.extend(&20u32.to_be_bytes());
    bytecode.push(op::HALT);
    let result = disassemble(bytecode);
    let lines: Vec<&str> = result.lines().collect();
    assert_eq!(lines.len(), 4);
    assert!(lines[0].starts_with("0000:"));
    assert!(lines[1].starts_with("0002:"));
    assert!(lines[2].starts_with("0003:"));
    assert!(lines[3].starts_with("0008:"));
}

#[test]
fn test_disassemble_alignment_consistency() {
    let mut bytecode = vec![op::LOAD];
    bytecode.extend(&5u32.to_be_bytes());
    bytecode.push(op::STORE);
    bytecode.extend(&500u32.to_be_bytes());
    let result = disassemble(bytecode);
    let lines: Vec<&str> = result.lines().collect();
    let pos1 = lines[0].find('(').unwrap();
    let pos2 = lines[1].find('(').unwrap();
    assert_eq!(pos1, pos2, "Hex offsets (0xXX) are not aligned vertically");
}

#[test]
fn test_disassemble_large_address_hex() {
    let mut bytecode = vec![op::JMP];
    bytecode.extend(&1000u32.to_be_bytes());
    let result = disassemble(bytecode);
    assert!(result.contains("(0x3E8)") || result.contains("(0x03E8)"));
}

#[test]
fn test_disassemble_ipush_vs_jmp_format() {
    let mut bytecode = vec![op::IPUSH];
    bytecode.extend(&(-10i32).to_be_bytes());
    bytecode.push(op::JMP);
    bytecode.extend(&10u32.to_be_bytes());
    let result = disassemble(bytecode);
    let lines: Vec<&str> = result.lines().collect();
    assert!(lines[0].contains("-10"));
    assert!(!lines[0].contains("(0x"));
    assert!(lines[1].contains("(0x0A)"));
}

#[test]
fn test_disassemble_fpush_precision() {
    let mut bytecode = vec![op::FPUSH];
    bytecode.extend(&1.2345678f64.to_be_bytes());
    let result = disassemble(bytecode);
    assert!(result.contains("1.2346"));
}

#[test]
fn test_disassemble_empty_bytecode() {
    let result = disassemble(vec![]);
    assert_eq!(result, "");
}

#[test]
fn bipush_then_halt_gives_two_lines() {
    let result = disassemble(vec![op::BIPUSH, 10, op::HALT]);
    assert_eq!(result, "0000: 03 BIPUSH     10\n0002: 01 HALT\n");
}

#[test]
fn exact_lines_for_every_operand_kind() {
    let mut bytecode = vec![op::BIPUSH, 0xFF, op::IPUSH];
    bytecode.extend(&123456i32.to_be_bytes());
    bytecode.push(op::STORE);
    bytecode.extend(&0xABCDu32.to_be_bytes());
    bytecode.push(op::FPUSH);
    bytecode.extend(&(-0.5f64).to_be_bytes());
    let result = disassemble(bytecode);
    assert_eq!(
        result,
        "0000: 03 BIPUSH     -1\n\
         0002: 02 IPUSH      123456\n\
         0007: 08 STORE      43981    (0xABCD)\n\
         000C: 04 FPUSH      -0.5000\n"
    );
}

#[test]
fn truncated_operand_degrades_to_unknown() {
    let result = disassemble(vec![op::JMP, 0, 1]);
    assert_eq!(result, "0000: 17 UNKNOWN\n0001: 00 NOP\n0002: 01 HALT\n");
}

#[test]
fn offsets_widen_past_four_digits() {
    let mut bytecode = vec![op::NOP; 0x10000];
    bytecode.push(op::HALT);
    let result = disassemble(bytecode);
    assert!(result.ends_with("10000: 01 HALT\n"));
}
