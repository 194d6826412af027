use oxforth::compiler::parser::parse;
use oxforth::compiler::scanner::scan;
use oxforth::vm::interpreter::execute;
use oxforth::vm::{Data, VirtualMachineError, VM};

fn bootstrapped() -> VM {
    let mut vm: VM = VM::default();
    vm.define_core_words();
    vm
}

#[test]
fn pipeline_adds_two_numbers() {
    let mut vm = bootstrapped();
    assert!(scan("1 2 +\n", &mut vm).is_ok());
    assert!(parse(&mut vm).is_ok());
    assert!(execute(&mut vm).is_ok());
    assert_eq!(vm.data_stack, vec![Data::NUMBER(3)]);
}

#[test]
fn pipeline_division_by_zero_keeps_stack() {
    let mut vm = bootstrapped();
    assert!(scan("5 0 /\n", &mut vm).is_ok());
    assert!(parse(&mut vm).is_ok());
    assert_eq!(execute(&mut vm), Err(VirtualMachineError::DivisionByZero));
    assert_eq!(vm.data_stack, vec![Data::NUMBER(5), Data::NUMBER(0)]);
    assert_eq!(vm._ops_applied, 0);
}

#[test]
fn pipeline_squares_with_dup() {
    let mut vm = bootstrapped();
    assert!(scan("3 DUP *\n", &mut vm).is_ok());
    assert!(parse(&mut vm).is_ok());
    // Scanning stops at the first word, so only 3 and DUP were queued.
    assert!(execute(&mut vm).is_ok());
    assert_eq!(vm.data_stack, vec![Data::NUMBER(3), Data::NUMBER(3)]);
    assert!(scan("*\n", &mut vm).is_ok());
    assert!(parse(&mut vm).is_ok());
    assert!(execute(&mut vm).is_ok());
    assert_eq!(vm.data_stack, vec![Data::NUMBER(9)]);
}
