use oxforth::compiler::scanner::{scan, Symbol, Token};
use oxforth::compiler::CompilerError;
use oxforth::vm::VM;

fn number(text: &str) -> Token {
    Token { token: String::from(text), symbol: Symbol::NUMBER }
}

/// Test:  Assert numbers are recognized
#[test]
fn scan_test_numbers() {
    let mut vm: VM = VM::default();
    assert!(scan("1 2 3\n", &mut vm).is_ok());
    assert_eq!(vm.tokens, vec![number("1"), number("2"), number("3")]);
}

/// Test:  Assert whitespace is ignored during parse area scanning
#[test]
fn scan_test_whitespace() {
    let mut vm: VM = VM::default();
    for line in ["1 2 3\n", "1  2  3\n", "1  2  3 \n", " 1  2  3 \n", "  1  2  3 \n", "  1 \x07 2  3 \n"] {
        assert!(scan(line, &mut vm).is_ok());
        assert_eq!(vm.tokens.len(), 3);
        assert_eq!(vm.tokens, vec![number("1"), number("2"), number("3")]);
        vm.tokens.clear();
    }
}

/// Test:  Assert detection of undefined words
#[test]
fn scan_test_undefined_words() {
    let mut vm: VM = VM::default();
    let undefined = Token { token: String::from("undefined_word"), symbol: Symbol::UNDEFINED };

    assert!(scan("undefined_word\n", &mut vm).is_ok());
    assert_eq!(vm.tokens, vec![undefined.clone()]);
    vm.tokens.clear();

    assert!(scan(" undefined_word\n", &mut vm).is_ok());
    assert_eq!(vm.tokens, vec![undefined.clone()]);
    vm.tokens.clear();

    assert!(scan(" undefined_word\n", &mut vm).is_ok());
    assert_eq!(vm.tokens, vec![undefined.clone()]);
    vm.tokens.clear();

    assert!(scan(" 1 undefined_word\n", &mut vm).is_ok());
    assert_eq!(vm.tokens, vec![number("1"), undefined.clone()]);
    vm.tokens.clear();
}

/// Test:  Assert detected of defined words
#[test]
fn scan_test_defined_words() {
    let mut vm: VM = VM::default();

    // "example" word that is initially undefined
    assert!(scan("example\n", &mut vm).is_ok());
    assert_eq!(
        vm.tokens,
        vec![Token { token: String::from("example"), symbol: Symbol::UNDEFINED }]
    );
    vm.tokens.clear();

    // define the word "example"
    vm.dictionary.insert("example", vec![]);

    // scan reports that "example" is a defined word
    assert!(scan("example\n", &mut vm).is_ok());
    assert_eq!(
        vm.tokens,
        vec![Token { token: String::from("example"), symbol: Symbol::WORD }]
    );
    vm.tokens.clear();
}

#[test]
fn scan_rejects_non_ascii_and_appends_nothing() {
    let mut vm: VM = VM::default();
    assert!(scan("7\n", &mut vm).is_ok());
    assert_eq!(scan("1 2 é\n", &mut vm), Err(CompilerError::NonAscii));
    assert_eq!(vm.tokens, vec![number("7")]);
}

#[test]
fn scan_rejects_line_without_trailing_whitespace() {
    let mut vm: VM = VM::default();
    assert_eq!(scan("1 2 3", &mut vm), Err(CompilerError::MissingTrailingWhitespace));
    assert!(vm.tokens.is_empty());
    assert_eq!(scan("abc", &mut vm), Err(CompilerError::MissingTrailingWhitespace));
    assert_eq!(scan("42", &mut vm), Err(CompilerError::MissingTrailingWhitespace));
    assert!(vm.tokens.is_empty());
}

#[test]
fn scan_stops_at_first_word() {
    let mut vm: VM = VM::default();
    vm.define_core_words();
    // Scanning stops after DUP, so the unterminated tail is never looked at.
    assert!(scan("1 DUP 2 3", &mut vm).is_ok());
    assert_eq!(
        vm.tokens,
        vec![number("1"), Token { token: String::from("DUP"), symbol: Symbol::WORD }]
    );
}

#[test]
fn scan_empty_and_blank_lines() {
    let mut vm: VM = VM::default();
    assert!(scan("", &mut vm).is_ok());
    assert!(scan(" \t \n", &mut vm).is_ok());
    assert!(vm.tokens.is_empty());
}

#[test]
fn scan_classifies_mixed_digits_as_word() {
    let mut vm: VM = VM::default();
    vm.define_core_words();
    assert!(scan("0= 12a\n", &mut vm).is_ok());
    assert_eq!(
        vm.tokens,
        vec![Token { token: String::from("0="), symbol: Symbol::WORD }]
    );
    vm.tokens.clear();
    assert!(scan("12a\n", &mut vm).is_ok());
    assert_eq!(
        vm.tokens,
        vec![Token { token: String::from("12a"), symbol: Symbol::UNDEFINED }]
    );
}
