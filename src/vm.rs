//! Virtual Machine

pub mod dictionary;
pub mod interpreter;

use std::collections::VecDeque;

use crate::compiler::parser::Operation;
use crate::compiler::scanner::Token;
use dictionary::Dictionary;
use vstd::prelude::*;

verus! {

/// A cell of the data stack.
#[derive(Clone, Debug, PartialEq)]
pub enum Data {
    STRING(String),
    NUMBER(i64),
}

impl Data {
    /// A copy of this cell.
    pub fn duplicate(&self) -> (r: Data)
        ensures
            r == *self,
    {
        match self {
            Data::STRING(s) => Data::STRING(s.clone()),
            Data::NUMBER(n) => Data::NUMBER(*n),
        }
    }
}

/// The state shared by the scanner, the parser and the interpreter.
pub struct VM {
    /// Number of operations applied to the VM instance
    pub _ops_applied: u64,
    /// Words are mapped to an ordered collection of VM operations
    pub dictionary: Dictionary,
    /// Tokens found by scanning the input buffer ("parse area").
    pub tokens: VecDeque<Token>,
    /// Tokens are parsed into Operations that manipulate the data stack and VM.
    pub operations: VecDeque<Operation>,
    /// The general stack ("data stack")
    pub data_stack: Vec<Data>,
    /// Set once `BYE` has been executed: the host should end the process.
    pub halted: bool,
}

/// Errors raised while executing operations.
#[derive(Clone, Copy, Debug, PartialEq, Eq, Structural)]
pub enum VirtualMachineError {
    /// The operation needs more cells than the data stack holds.
    StackUnderflow,
    /// The operation needs a number where the data stack holds a string.
    TypeMismatch,
    /// `/` or `MOD` with a zero divisor.
    DivisionByZero,
}

/// `dict` with the built-in words defined, each standing for a single
/// operation.
pub open spec fn with_core_words(dict: Map<Seq<char>, Seq<Operation>>) -> Map<
    Seq<char>,
    Seq<Operation>,
> {
    dict
        .insert("NOP"@, seq![Operation::NOP])
        .insert("ABS"@, seq![Operation::ABS])
        .insert("+"@, seq![Operation::ADD])
        .insert("BYE"@, seq![Operation::BYE])
        .insert("="@, seq![Operation::CMP_EQ])
        .insert("<"@, seq![Operation::CMP_LT])
        .insert(">"@, seq![Operation::CMP_GT])
        .insert("<>"@, seq![Operation::CMP_NE])
        .insert("/"@, seq![Operation::DIV])
        .insert("DROP"@, seq![Operation::DROP])
        .insert("DUP"@, seq![Operation::DUP])
        .insert("MAX"@, seq![Operation::MAX])
        .insert("MIN"@, seq![Operation::MIN])
        .insert("MOD"@, seq![Operation::MOD])
        .insert("*"@, seq![Operation::MUL])
        .insert("NEGATE"@, seq![Operation::NEGATE])
        .insert("-"@, seq![Operation::SUB])
        .insert("0="@, seq![Operation::ZERO_EQ])
        .insert("0<"@, seq![Operation::ZERO_LT])
        .insert("0>"@, seq![Operation::ZERO_GT])
        .insert("0<>"@, seq![Operation::ZERO_NE])
}

/// A definition of one operation.
fn single_op(op: Operation) -> (v: Vec<Operation>)
    ensures
        v@ == seq![op],
{
    let v = vec![op];
    assert(v@ =~= seq![op]);
    v
}

impl VM {
    /// Define the built-in words (see [`with_core_words`]), replacing any earlier
    /// definitions of those names.
    pub fn define_core_words(&mut self)
        requires
            old(self).dictionary.wf(),
        ensures
            final(self).dictionary.wf(),
            final(self).dictionary@ == with_core_words(old(self).dictionary@),
            final(self).tokens == old(self).tokens,
            final(self).operations == old(self).operations,
            final(self).data_stack == old(self).data_stack,
            final(self)._ops_applied == old(self)._ops_applied,
            final(self).halted == old(self).halted,
    {
        self.dictionary.insert("NOP", single_op(Operation::NOP));
        self.dictionary.insert("ABS", single_op(Operation::ABS));
        self.dictionary.insert("+", single_op(Operation::ADD));
        self.dictionary.insert("BYE", single_op(Operation::BYE));
        self.dictionary.insert("=", single_op(Operation::CMP_EQ));
        self.dictionary.insert("<", single_op(Operation::CMP_LT));
        self.dictionary.insert(">", single_op(Operation::CMP_GT));
        self.dictionary.insert("<>", single_op(Operation::CMP_NE));
        self.dictionary.insert("/", single_op(Operation::DIV));
        self.dictionary.insert("DROP", single_op(Operation::DROP));
        self.dictionary.insert("DUP", single_op(Operation::DUP));
        self.dictionary.insert("MAX", single_op(Operation::MAX));
        self.dictionary.insert("MIN", single_op(Operation::MIN));
        self.dictionary.insert("MOD", single_op(Operation::MOD));
        self.dictionary.insert("*", single_op(Operation::MUL));
        self.dictionary.insert("NEGATE", single_op(Operation::NEGATE));
        self.dictionary.insert("-", single_op(Operation::SUB));
        self.dictionary.insert("0=", single_op(Operation::ZERO_EQ));
        self.dictionary.insert("0<", single_op(Operation::ZERO_LT));
        self.dictionary.insert("0>", single_op(Operation::ZERO_GT));
        self.dictionary.insert("0<>", single_op(Operation::ZERO_NE));
    }
}

impl Default for VM {
    fn default() -> (vm: VM)
        ensures
            vm._ops_applied == 0,
            vm.dictionary.wf(),
            vm.dictionary@ == Map::<Seq<char>, Seq<Operation>>::empty(),
            vm.tokens@.len() == 0,
            vm.operations@.len() == 0,
            vm.data_stack@.len() == 0,
            !vm.halted,
    {
        VM {
            _ops_applied: 0,
            dictionary: Dictionary::new(),
            tokens: VecDeque::new(),
            operations: VecDeque::new(),
            data_stack: Vec::new(),
            halted: false,
        }
    }
}

} // verus!
