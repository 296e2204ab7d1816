use flint::assembler::Assembler;
use flint::float_bits::{compare_f64, negate_bits};
use flint::op;
use flint::runner::{ArithOp, Exit, Fault, Signal, Value, VirtualMachine};

fn read_float(t: &str) -> Option<u64> {
    t.parse::<f64>().ok().map(f64::to_bits)
}

fn with_operand(code: u8, v: u32) -> Vec<u8> {
    let mut b = vec![code];
    b.extend(&v.to_be_bytes());
    b
}

fn fpush(v: f64) -> Vec<u8> {
    let mut b = vec![op::FPUSH];
    b.extend(&v.to_be_bytes());
    b
}

#[test]
fn add_two_bytes_then_halt() {
    let mut vm = VirtualMachine::new(vec![op::BIPUSH, 10, op::BIPUSH, 20, op::ADD, op::HALT]);
    assert_eq!(vm.execute(), Exit::Stopped);
    assert_eq!(vm.stack, vec![Value::Int(30)]);
    assert!(!vm.running);
}

#[test]
fn divide_by_zero_is_fatal_without_result() {
    let mut vm = VirtualMachine::new(vec![op::BIPUSH, 10, op::BIPUSH, 0, op::DIV, op::HALT]);
    assert_eq!(vm.execute(), Exit::Fault(Fault::DivisionByZero));
    assert_eq!(vm.stack, vec![Value::Int(10), Value::Int(0)]);
    assert_eq!(vm.execute(), Exit::Stopped);
}

#[test]
fn modulo_and_float_zero_divisors_are_fatal() {
    let mut vm = VirtualMachine::new(vec![op::BIPUSH, 7, op::BIPUSH, 0, op::MOD]);
    assert_eq!(vm.execute(), Exit::Fault(Fault::DivisionByZero));
    let code = [vec![op::BIPUSH, 7], fpush(-0.0), vec![op::DIV]].concat();
    let mut vm = VirtualMachine::new(code);
    assert_eq!(vm.execute(), Exit::Fault(Fault::DivisionByZero));
    let code = [fpush(7.5), vec![op::BIPUSH, 0, op::MOD]].concat();
    let mut vm = VirtualMachine::new(code);
    assert_eq!(vm.execute(), Exit::Fault(Fault::DivisionByZero));
}

#[test]
fn countdown_loop_ends_at_zero() {
    let mut assembler = Assembler::new();
    let code = assembler
        .assemble(
            "loop: BIPUSH 1\nSUB\nDUP\nBIPUSH 0\nCMP\nJG loop\nHALT",
            &read_float,
        )
        .expect("Assembly failed");
    let mut vm = VirtualMachine::new(code);
    vm.push(Value::Int(5));
    assert_eq!(vm.run(1000), Exit::Stopped);
    assert_eq!(vm.stack, vec![Value::Int(0)]);
}

#[test]
fn load_of_unwritten_address_stops_gracefully() {
    let mut vm = VirtualMachine::new(with_operand(op::LOAD, 3));
    assert_eq!(vm.execute(), Exit::BadLoad(3));
    assert!(!vm.running);
    assert!(vm.stack.is_empty());
    assert_eq!(vm.ip, 5);
}

#[test]
fn store_grows_memory_with_zeros() {
    let code = [vec![op::BIPUSH, 9], with_operand(op::STORE, 3), with_operand(op::LOAD, 3), with_operand(op::LOAD, 1)]
        .concat();
    let mut vm = VirtualMachine::new(code);
    assert_eq!(vm.execute(), Exit::Stopped);
    assert_eq!(vm.memory, vec![Value::Int(0), Value::Int(0), Value::Int(0), Value::Int(9)]);
    assert_eq!(vm.stack, vec![Value::Int(9), Value::Int(0)]);
}

#[test]
fn dup_then_pop_restores_stack() {
    let mut vm = VirtualMachine::new(vec![op::DUP, op::POP]);
    vm.push(Value::Int(3));
    vm.push(Value::Float(2.5f64.to_bits()));
    let before = vm.stack.clone();
    assert_eq!(vm.execute(), Exit::Stopped);
    assert_eq!(vm.stack, before);
}

#[test]
fn swap_twice_restores_order() {
    let mut vm = VirtualMachine::new(vec![op::SWP, op::SWP]);
    vm.push(Value::Int(1));
    vm.push(Value::Int(2));
    vm.push(Value::Int(3));
    assert_eq!(vm.step(), Signal::Continue);
    assert_eq!(vm.stack, vec![Value::Int(1), Value::Int(3), Value::Int(2)]);
    assert_eq!(vm.step(), Signal::Continue);
    assert_eq!(vm.stack, vec![Value::Int(1), Value::Int(2), Value::Int(3)]);
}

#[test]
fn integer_arithmetic_wraps() {
    let code = [
        with_operand(op::IPUSH, i32::MAX as u32),
        vec![op::BIPUSH, 1, op::ADD],
        with_operand(op::IPUSH, i32::MIN as u32),
        vec![op::BIPUSH, 0xFF, op::DIV],
        with_operand(op::IPUSH, i32::MIN as u32),
        vec![op::NEG],
    ]
    .concat();
    let mut vm = VirtualMachine::new(code);
    assert_eq!(vm.execute(), Exit::Stopped);
    assert_eq!(vm.stack, vec![Value::Int(i32::MIN), Value::Int(i32::MIN), Value::Int(i32::MIN)]);
}

#[test]
fn integer_division_rounds_toward_zero() {
    let code = vec![
        op::BIPUSH, 0xF9, op::BIPUSH, 2, op::DIV, // -7 / 2
        op::BIPUSH, 0xF9, op::BIPUSH, 2, op::MOD, // -7 % 2
        op::BIPUSH, 7, op::BIPUSH, 0xFE, op::MOD, // 7 % -2
    ];
    let mut vm = VirtualMachine::new(code);
    vm.execute();
    assert_eq!(vm.stack, vec![Value::Int(-3), Value::Int(-1), Value::Int(1)]);
}

#[test]
fn mixed_arithmetic_asks_the_host_for_a_float() {
    let code = [vec![op::BIPUSH, 20], fpush(10.5), vec![op::SUB, op::HALT]].concat();
    let mut vm = VirtualMachine::new(code);
    assert_eq!(
        vm.execute(),
        Exit::Float(ArithOp::Sub, 20.0f64.to_bits(), 10.5f64.to_bits())
    );
    assert!(vm.stack.is_empty());
    vm.push(Value::Float(9.5f64.to_bits()));
    assert_eq!(vm.execute(), Exit::Stopped);
    assert_eq!(vm.stack, vec![Value::Float(9.5f64.to_bits())]);
}

#[test]
fn integers_convert_to_floats_exactly() {
    for i in [0, 1, -1, 7, 16777217, -16777217, i32::MAX, i32::MIN, 123456789] {
        assert_eq!(flint::float_bits::float_of_int(i), (i as f64).to_bits());
    }
}

#[test]
fn float_comparison_matches_ieee() {
    let values = [0.0, -0.0, 1.5, -1.5, f64::INFINITY, f64::NEG_INFINITY, f64::MIN_POSITIVE, 1e300];
    for a in values {
        for b in values {
            let expected = match a.partial_cmp(&b) {
                Some(std::cmp::Ordering::Less) => -1,
                Some(std::cmp::Ordering::Equal) => 0,
                Some(std::cmp::Ordering::Greater) => 1,
                None => -2,
            };
            assert_eq!(compare_f64(a.to_bits(), b.to_bits()), expected, "{} vs {}", a, b);
        }
    }
    assert_eq!(compare_f64(f64::NAN.to_bits(), 1.0f64.to_bits()), -2);
    assert_eq!(compare_f64(1.0f64.to_bits(), (-f64::NAN).to_bits()), -2);
}

#[test]
fn float_negation_flips_the_sign() {
    for x in [0.0, 1.25, -3.0, f64::INFINITY] {
        assert_eq!(negate_bits(x.to_bits()), (-x).to_bits());
    }
}

#[test]
fn nan_comparison_only_satisfies_jne() {
    for code in [op::JL, op::JLE, op::JG, op::JGE, op::JE, op::JNE] {
        let program = [fpush(f64::NAN), fpush(1.0), vec![op::CMP], with_operand(code, 100)].concat();
        let mut vm = VirtualMachine::new(program);
        vm.execute();
        assert!(vm.stack.is_empty());
        assert_eq!(vm.ip == 100, code == op::JNE);
    }
}

#[test]
fn nan_cmp_pushes_unordered_marker() {
    let program = [fpush(f64::NAN), fpush(f64::NAN), vec![op::CMP]].concat();
    let mut vm = VirtualMachine::new(program);
    vm.execute();
    assert_eq!(vm.stack, vec![Value::Int(-2)]);
}

#[test]
fn print_hands_the_value_out() {
    let mut vm = VirtualMachine::new(vec![op::BIPUSH, 5, op::PRINT, op::BIPUSH, 6]);
    assert_eq!(vm.execute(), Exit::Print(Value::Int(5)));
    assert!(vm.stack.is_empty());
    assert_eq!(vm.execute(), Exit::Stopped);
    assert_eq!(vm.stack, vec![Value::Int(6)]);
}

#[test]
fn fatal_conditions_are_told_apart() {
    let mut vm = VirtualMachine::new(vec![op::POP]);
    assert_eq!(vm.execute(), Exit::Fault(Fault::StackUnderflow));
    let mut vm = VirtualMachine::new(vec![0xEE]);
    assert_eq!(vm.execute(), Exit::Fault(Fault::UnknownOpcode(0xEE)));
    let mut vm = VirtualMachine::new(vec![op::NEG]);
    vm.push(Value::Char(b'a'));
    assert_eq!(vm.execute(), Exit::Fault(Fault::TypeMismatch));
    let mut vm = VirtualMachine::new(vec![op::IPUSH, 0, 0]);
    assert_eq!(vm.execute(), Exit::Fault(Fault::TruncatedOperand));
    let mut vm = VirtualMachine::new(with_operand(op::JE, 0));
    vm.push(Value::Float(0));
    assert_eq!(vm.execute(), Exit::Fault(Fault::TypeMismatch));
}

#[test]
fn run_stops_after_its_budget() {
    let mut vm = VirtualMachine::new(with_operand(op::JMP, 0));
    assert_eq!(vm.run(100), Exit::OutOfFuel);
    assert!(vm.running);
    assert_eq!(vm.ip, 0);
}

#[test]
fn handlers_work_alone() {
    let mut vm = VirtualMachine::new(vec![42]);
    assert_eq!(vm.handle_bipush(), Signal::Continue);
    assert_eq!(vm.stack, vec![Value::Int(42)]);
    assert_eq!(vm.handle_dup(), Signal::Continue);
    assert_eq!(vm.handle_mul(), Signal::Continue);
    assert_eq!(vm.stack, vec![Value::Int(1764)]);
    assert_eq!(vm.handle_pop(), Signal::Continue);
    assert_eq!(vm.handle_pop(), Signal::Fault(Fault::StackUnderflow));
}
