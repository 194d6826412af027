use oxforth::compiler::parser::{parse, Operation};
use oxforth::compiler::scanner::scan;
use oxforth::vm::dictionary::Dictionary;
use oxforth::vm::interpreter::execute;
use oxforth::vm::VM;

#[test]
fn vm_test_dictionary() {
    let mut vm: VM = VM::default();
    vm.dictionary.insert("word", vec![Operation::NOP]);
    assert!(vm.dictionary.contains_key("word"));
}

#[test]
fn vm_test_defining_words() {
    let mut vm: VM = VM::default();
    vm.dictionary.insert("NOP_INC", vec![Operation::NOP_INC]);
    assert_eq!(vm._ops_applied, 0);
    assert!(scan("NOP_INC\n", &mut vm).is_ok());
    assert!(parse(&mut vm).is_ok());
    assert!(execute(&mut vm).is_ok());
    assert_eq!(vm._ops_applied, 1);
}

#[test]
fn core_words_table() {
    let mut vm: VM = VM::default();
    vm.define_core_words();
    let table = [
        ("NOP", Operation::NOP),
        ("ABS", Operation::ABS),
        ("+", Operation::ADD),
        ("BYE", Operation::BYE),
        ("=", Operation::CMP_EQ),
        ("<", Operation::CMP_LT),
        (">", Operation::CMP_GT),
        ("<>", Operation::CMP_NE),
        ("/", Operation::DIV),
        ("DROP", Operation::DROP),
        ("DUP", Operation::DUP),
        ("MAX", Operation::MAX),
        ("MIN", Operation::MIN),
        ("MOD", Operation::MOD),
        ("*", Operation::MUL),
        ("NEGATE", Operation::NEGATE),
        ("-", Operation::SUB),
        ("0=", Operation::ZERO_EQ),
        ("0<", Operation::ZERO_LT),
        ("0>", Operation::ZERO_GT),
        ("0<>", Operation::ZERO_NE),
    ];
    for (name, op) in table {
        assert_eq!(vm.dictionary.get(name), Some(&vec![op]), "{}", name);
    }
    assert!(!vm.dictionary.contains_key("dup"));
    assert!(!vm.dictionary.contains_key("NOP_INC"));
}

#[test]
fn dictionary_last_insert_wins() {
    let mut d = Dictionary::new();
    assert_eq!(d.get("w"), None);
    d.insert("w", vec![Operation::ADD]);
    d.insert("v", vec![]);
    d.insert("w", vec![Operation::SUB, Operation::DUP]);
    assert_eq!(d.get("w"), Some(&vec![Operation::SUB, Operation::DUP]));
    assert_eq!(d.get("v"), Some(&vec![]));
    assert!(d.contains_key("v"));
    assert!(!d.contains_key("W"));
}

#[test]
fn define_core_words_replaces_earlier_definition() {
    let mut vm: VM = VM::default();
    vm.dictionary.insert("DUP", vec![Operation::NOP]);
    vm.dictionary.insert("SQUARE", vec![Operation::DUP, Operation::MUL]);
    vm.define_core_words();
    assert_eq!(vm.dictionary.get("DUP"), Some(&vec![Operation::DUP]));
    assert_eq!(vm.dictionary.get("SQUARE"), Some(&vec![Operation::DUP, Operation::MUL]));
}
