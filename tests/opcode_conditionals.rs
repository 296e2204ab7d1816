use flint::op;
use flint::runner::{Exit, Value, VirtualMachine};

fn ins(code: u8) -> Vec<u8> {
    vec![code]
}

fn bipush(v: u8) -> Vec<u8> {
    vec![op::BIPUSH, v]
}

fn ipush(v: i32) -> Vec<u8> {
    let mut b = vec![op::IPUSH];
    b.extend(&v.to_be_bytes());
    b
}

fn jump(code: u8, target: u32) -> Vec<u8> {
    let mut b = vec![code];
    b.extend(&target.to_be_bytes());
    b
}

fn execute(vm: &mut VirtualMachine) -> Exit {
    loop {
        match vm.execute() {
            Exit::Print(_) => {}
            other => return other,
        }
    }
}

#[test]
fn test_je_jumps_when_equal() {
    let code = [
        bipush(10),
        bipush(10),
        ins(op::CMP),
        jump(op::JE, 17),
        ipush(999),
        ins(op::HALT),
    ]
    .concat();
    let mut vm = VirtualMachine::new(code);
    execute(&mut vm);
    assert!(vm.stack.is_empty());
    assert_eq!(vm.ip, 17);
}

#[test]
fn test_jne_jumps_when_not_equal() {
    let code = [
        bipush(10),
        bipush(20),
        ins(op::CMP),
        jump(op::JNE, 17),
        ipush(999),
        ins(op::HALT),
    ]
    .concat();
    let mut vm = VirtualMachine::new(code);
    execute(&mut vm);
    assert!(vm.stack.is_empty());
}

#[test]
fn test_jl_jumps_when_less() {
    let code = [
        bipush(5),
        bipush(10),
        ins(op::CMP),
        jump(op::JL, 17),
        ipush(999),
        ins(op::HALT),
    ]
    .concat();
    let mut vm = VirtualMachine::new(code);
    execute(&mut vm);
    assert!(vm.stack.is_empty());
}

#[test]
fn test_jg_jumps_when_greater() {
    let code = [
        bipush(20),
        bipush(10),
        ins(op::CMP),
        jump(op::JG, 17),
        ipush(999),
        ins(op::HALT),
    ]
    .concat();
    let mut vm = VirtualMachine::new(code);
    execute(&mut vm);
    assert!(vm.stack.is_empty());
}

#[test]
fn test_jle_jumps_when_equal() {
    let code = [
        bipush(15),
        bipush(15),
        ins(op::CMP),
        jump(op::JLE, 17),
        ipush(999),
        ins(op::HALT),
    ]
    .concat();
    let mut vm = VirtualMachine::new(code);
    execute(&mut vm);
    assert!(vm.stack.is_empty());
}

#[test]
fn test_jge_jumps_when_greater() {
    let code = [
        bipush(50),
        bipush(10),
        ins(op::CMP),
        jump(op::JGE, 17),
        ipush(999),
        ins(op::HALT),
    ]
    .concat();
    let mut vm = VirtualMachine::new(code);
    execute(&mut vm);
    assert!(vm.stack.is_empty());
}

#[test]
fn test_conditional_fallthrough() {
    let code = [
        bipush(10),
        bipush(50),
        ins(op::CMP),
        jump(op::JG, 17),
        bipush(42),
        ins(op::HALT),
        ins(op::HALT),
    ]
    .concat();
    let mut vm = VirtualMachine::new(code);
    execute(&mut vm);
    assert_eq!(vm.stack, vec![Value::Int(42)]);
}

#[test]
fn test_stack_behavior_all_conditionals_pop() {
    let conditionals = vec![
        (op::JE, 0),
        (op::JNE, 1),
        (op::JL, -1),
        (op::JLE, 0),
        (op::JG, 1),
        (op::JGE, 0),
    ];
    for (opcode, cmp_value) in conditionals {
        let mut code = vec![op::BIPUSH, cmp_value as u8];
        code.push(opcode);
        code.extend(&(7u32).to_be_bytes());
        code.push(op::HALT);
        let mut vm = VirtualMachine::new(code);
        execute(&mut vm);
        assert!(
            vm.stack.is_empty(),
            "Opcode {} failed to pop the comparison result from the stack",
            op::get_info(opcode).unwrap().name
        );
    }
    let code_jmp = [bipush(42), jump(op::JMP, 7), ins(op::HALT)].concat();
    let mut vm_jmp = VirtualMachine::new(code_jmp);
    execute(&mut vm_jmp);
    assert_eq!(vm_jmp.stack.len(), 1);
    assert_eq!(vm_jmp.stack[0], Value::Int(42));
}
