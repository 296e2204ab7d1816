use flint::op;
use flint::runner::{ArithOp, Exit, Fault, Value, VirtualMachine};

fn ins(code: u8) -> Vec<u8> {
    vec![code]
}

fn bipush(v: u8) -> Vec<u8> {
    vec![op::BIPUSH, v]
}

fn ipush(v: i32) -> Vec<u8> {
    let mut b = vec![op::IPUSH];
    b.extend(&v.to_be_bytes());
    b
}

fn fpush(v: f64) -> Vec<u8> {
    let mut b = vec![op::FPUSH];
    b.extend(&v.to_be_bytes());
    b
}

fn float_result(o: ArithOp, a: u64, b: u64) -> u64 {
    let (x, y) = (f64::from_bits(a), f64::from_bits(b));
    let r = match o {
        ArithOp::Add => x + y,
        ArithOp::Sub => x - y,
        ArithOp::Mul => x * y,
        ArithOp::Div => x / y,
        ArithOp::Mod => x % y,
    };
    r.to_bits()
}

fn execute(vm: &mut VirtualMachine) -> Exit {
    loop {
        match vm.execute() {
            Exit::Float(o, a, b) => vm.push(Value::Float(float_result(o, a, b))),
            Exit::Print(_) => {}
            other => return other,
        }
    }
}

fn float(v: f64) -> Value {
    Value::Float(v.to_bits())
}

#[test]
fn test_nop() {
    let code = [ins(op::NOP), ins(op::NOP), ins(op::HALT)].concat();
    let mut vm = VirtualMachine::new(code);
    execute(&mut vm);
    assert_eq!(vm.ip, 3);
    assert!(vm.stack.is_empty());
}

#[test]
fn test_halt_stops_execution() {
    let code = [ins(op::HALT), ipush(100)].concat();
    let mut vm = VirtualMachine::new(code);
    execute(&mut vm);
    assert_eq!(vm.ip, 1);
    assert!(vm.stack.is_empty());
}

#[test]
fn test_ipush_pushes_integer() {
    let code = [
        ipush(120),
        ipush(539),
        ipush(4533084),
        ipush(2147483647),
        ipush(-2147483648),
        ins(op::HALT),
    ]
    .concat();
    let mut vm = VirtualMachine::new(code);
    execute(&mut vm);
    assert_eq!(vm.ip, 26);
    assert_eq!(
        vec![
            Value::Int(120),
            Value::Int(539),
            Value::Int(4533084),
            Value::Int(2147483647),
            Value::Int(-2147483648),
        ],
        vm.stack
    );
}

#[test]
fn test_ipop_removes_top_of_stack() {
    let code = [ipush(100), ipush(200), ins(op::POP), ins(op::HALT)].concat();
    let mut vm = VirtualMachine::new(code);
    execute(&mut vm);
    assert_eq!(vm.stack.len(), 1);
    assert_eq!(vm.stack[0], Value::Int(100));
}

#[test]
fn test_bipush_pushes_single_byte() {
    let code = [bipush(10), bipush(127), bipush(255), ins(op::HALT)].concat();
    let mut vm = VirtualMachine::new(code);
    execute(&mut vm);
    assert_eq!(vm.stack.len(), 3);
    assert_eq!(vm.stack[0], Value::Int(10));
    assert_eq!(vm.stack[1], Value::Int(127));
    // BIPUSH sign-extends its byte: 0xFF is -1.
    assert_eq!(vm.stack[2], Value::Int(-1));
}

#[test]
fn test_swp_swaps_top_two_values() {
    let code = [bipush(10), bipush(20), ins(op::SWP), ins(op::HALT)].concat();
    let mut vm = VirtualMachine::new(code);
    execute(&mut vm);
    assert_eq!(vm.stack, vec![Value::Int(20), Value::Int(10)]);
}

#[test]
fn test_dup_duplicates_top_value() {
    let code = [bipush(42), ins(op::DUP), ins(op::HALT)].concat();
    let mut vm = VirtualMachine::new(code);
    execute(&mut vm);
    assert_eq!(vm.stack, vec![Value::Int(42), Value::Int(42)]);
}

#[test]
fn test_add_neg_integers() {
    let code = [
        bipush(10),
        ins(op::NEG),
        bipush(20),
        ins(op::ADD),
        bipush(40),
        ins(op::NEG),
        bipush(10),
        ins(op::ADD),
        ins(op::HALT),
    ]
    .concat();
    let mut vm = VirtualMachine::new(code);
    execute(&mut vm);
    assert_eq!(vm.stack.len(), 2);
    assert_eq!(vm.stack[0], Value::Int(10));
    assert_eq!(vm.stack[1], Value::Int(-30));
}

#[test]
fn test_add_integers() {
    let code = [bipush(10), bipush(20), ins(op::ADD), ins(op::HALT)].concat();
    let mut vm = VirtualMachine::new(code);
    execute(&mut vm);
    assert_eq!(vm.stack.len(), 1);
    assert_eq!(vm.stack[0], Value::Int(30));
}

#[test]
fn test_sub_integers() {
    let code = [
        bipush(10),
        bipush(20),
        ins(op::SUB),
        bipush(35),
        bipush(10),
        ins(op::SUB),
        ins(op::HALT),
    ]
    .concat();
    let mut vm = VirtualMachine::new(code);
    execute(&mut vm);
    assert_eq!(vm.stack.len(), 2);
    assert_eq!(vm.stack[0], Value::Int(-10));
    assert_eq!(vm.stack[1], Value::Int(25));
}

#[test]
fn test_mul_integers() {
    let code = [bipush(6), bipush(7), ins(op::MUL), ins(op::HALT)].concat();
    let mut vm = VirtualMachine::new(code);
    execute(&mut vm);
    assert_eq!(vm.stack.len(), 1);
    assert_eq!(vm.stack[0], Value::Int(42));
}

#[test]
fn test_div_integers() {
    let code = [bipush(100), bipush(25), ins(op::DIV), ins(op::HALT)].concat();
    let mut vm = VirtualMachine::new(code);
    execute(&mut vm);
    assert_eq!(vm.stack.len(), 1);
    assert_eq!(vm.stack[0], Value::Int(4));
}

#[test]
fn test_mod_integers() {
    let code = [bipush(10), bipush(3), ins(op::MOD), ins(op::HALT)].concat();
    let mut vm = VirtualMachine::new(code);
    execute(&mut vm);
    assert_eq!(vm.stack.len(), 1);
    assert_eq!(vm.stack[0], Value::Int(1));
}

#[test]
fn test_div_by_zero() {
    let code = [bipush(10), bipush(0), ins(op::DIV), ins(op::HALT)].concat();
    let mut vm = VirtualMachine::new(code);
    assert_eq!(execute(&mut vm), Exit::Fault(Fault::DivisionByZero));
    assert_eq!(vm.stack, vec![Value::Int(10), Value::Int(0)]);
    assert!(!vm.running);
}

#[test]
fn test_complex_math_stack() {
    let code = [
        bipush(10),
        bipush(2),
        ins(op::MUL),
        bipush(10),
        bipush(5),
        ins(op::SUB),
        ins(op::DIV),
        ins(op::HALT),
    ]
    .concat();
    let mut vm = VirtualMachine::new(code);
    execute(&mut vm);
    assert_eq!(vm.stack[0], Value::Int(4));
}

#[test]
fn test_add_mixed_float_int() {
    let code = [fpush(10.5), bipush(20), ins(op::ADD), ins(op::HALT)].concat();
    let mut vm = VirtualMachine::new(code);
    execute(&mut vm);
    assert_eq!(vm.stack[0], float(30.5));
}

#[test]
fn test_div_mixed_int_float() {
    let code = [bipush(10), fpush(2.5), ins(op::DIV), ins(op::HALT)].concat();
    let mut vm = VirtualMachine::new(code);
    execute(&mut vm);
    assert_eq!(vm.stack[0], float(4.0));
}

#[test]
fn test_float_pure_math() {
    let code = [fpush(5.5), fpush(2.0), ins(op::MUL), ins(op::HALT)].concat();
    let mut vm = VirtualMachine::new(code);
    execute(&mut vm);
    assert_eq!(vm.stack[0], float(11.0));
}

#[test]
fn test_sub_float_int() {
    let code = [fpush(10.0), bipush(5), ins(op::SUB), ins(op::HALT)].concat();
    let mut vm = VirtualMachine::new(code);
    execute(&mut vm);
    assert_eq!(vm.stack[0], float(5.0));
}

#[test]
fn test_float_div_by_zero() {
    let code = [fpush(10.0), fpush(0.0), ins(op::DIV), ins(op::HALT)].concat();
    let mut vm = VirtualMachine::new(code);
    assert_eq!(execute(&mut vm), Exit::Fault(Fault::DivisionByZero));
    assert_eq!(vm.stack, vec![float(10.0), float(0.0)]);
}

#[test]
fn test_cmp_integers() {
    let mut vm_lt = VirtualMachine::new([bipush(10), bipush(20), ins(op::CMP), ins(op::HALT)].concat());
    execute(&mut vm_lt);
    assert_eq!(vm_lt.stack[0], Value::Int(-1));
    let mut vm_eq = VirtualMachine::new([bipush(15), bipush(15), ins(op::CMP), ins(op::HALT)].concat());
    execute(&mut vm_eq);
    assert_eq!(vm_eq.stack[0], Value::Int(0));
    let mut vm_gt = VirtualMachine::new([bipush(30), bipush(10), ins(op::CMP), ins(op::HALT)].concat());
    execute(&mut vm_gt);
    assert_eq!(vm_gt.stack[0], Value::Int(1));
}

#[test]
fn test_cmp_mixed_types() {
    let mut vm = VirtualMachine::new([fpush(5.5), bipush(10), ins(op::CMP), ins(op::HALT)].concat());
    execute(&mut vm);
    assert_eq!(vm.stack[0], Value::Int(-1));
}

#[test]
fn test_cmp_with_neg_opcode() {
    let code = [
        bipush(5),
        ins(op::NEG),
        bipush(10),
        ins(op::NEG),
        ins(op::CMP),
        ins(op::HALT),
    ]
    .concat();
    let mut vm = VirtualMachine::new(code);
    execute(&mut vm);
    assert_eq!(vm.stack[0], Value::Int(1));
}

#[test]
fn test_cmp_floats_equality() {
    let mut vm_f = VirtualMachine::new([fpush(0.5), fpush(0.5), ins(op::CMP), ins(op::HALT)].concat());
    execute(&mut vm_f);
    assert_eq!(vm_f.stack[0], Value::Int(0));
}

#[test]
fn test_neg_mixed_float_int() {
    let code = [fpush(10.5), ins(op::NEG), bipush(20), ins(op::NEG), ins(op::HALT)].concat();
    let mut vm = VirtualMachine::new(code);
    execute(&mut vm);
    assert_eq!(vm.stack[0], float(-10.5));
    assert_eq!(vm.stack[1], Value::Int(-20));
}
