//! Parser

use std::collections::VecDeque;

use super::scanner::{all_digits, is_all_digits, Symbol, Token};
use super::CompilerError;
use crate::vm::{Data, VM};
use vstd::arithmetic::div_mod::{lemma_add_mod_noop, lemma_mul_mod_noop_left};
use vstd::prelude::*;

verus! {

/// Operations change VM state (e.g. dictionary, stacks, etc).
#[allow(non_camel_case_types)]
#[derive(Clone, Copy, Debug, PartialEq, Eq, Structural)]
pub enum Operation {
    /// Non-operation
    NOP,
    /// Non-operation as well; kept apart from `NOP` for testing word expansion
    NOP_INC,
    /// ( n -- u ) u is the absolute value of n.
    ABS,
    /// ( n1 n2 -- n3 ) Add n2 to n1, giving the sum n3.
    ADD,
    /// Return control to the host.
    BYE,
    /// ( n1 n2 -- flag ) flag is true if and only if n1 equals n2.
    CMP_EQ,
    /// ( n1 n2 -- flag ) flag is true if and only if n1 is greater than n2.
    CMP_GT,
    /// ( n1 n2 -- flag ) flag is true if and only if n1 is less than n2.
    CMP_LT,
    /// ( n1 n2 -- flag ) flag is true if and only if n1 differs from n2.
    CMP_NE,
    /// ( n1 n2 -- n3 ) Divide n1 by n2, giving the truncated quotient n3.
    DIV,
    /// ( x -- ) Remove x from the stack.
    DROP,
    /// ( x -- x x ) Duplicate x.
    DUP,
    /// ( n1 -- n2 ) Negate n1, giving its arithmetic inverse n2.
    NEGATE,
    /// ( n1 n2 -- n3 ) n3 is the greater of n1 and n2.
    MAX,
    /// ( n1 n2 -- n3 ) n3 is the lesser of n1 and n2.
    MIN,
    /// ( n1 n2 -- n3 ) n3 is the Euclidean remainder of n1 divided by n2.
    MOD,
    /// ( n1 n2 -- n3 ) Multiply n1 by n2 giving the product n3.
    MUL,
    /// ( n1 n2 -- n3 ) Subtract n2 from n1, giving the difference n3.
    SUB,
    /// ( n -- flag ) flag is true if and only if n is equal to zero.
    ZERO_EQ,
    /// ( n -- flag ) flag is true if and only if n is less than zero.
    ZERO_LT,
    /// ( n -- flag ) flag is true if and only if n is greater than zero.
    ZERO_GT,
    /// ( n -- flag ) flag is true if and only if n is not equal to zero.
    ZERO_NE,
}

/// Number of distinct values of a 64-bit cell.
pub open spec fn cell_modulus() -> int {
    0x1_0000_0000_0000_0000
}

/// `x` reduced to a signed 64-bit cell (two's complement wrap-around).
pub open spec fn wrap_i64(x: int) -> i64 {
    let m = x % cell_modulus();
    if m <= i64::MAX {
        m as i64
    } else {
        (m - cell_modulus()) as i64
    }
}

/// The value of an ASCII digit.
pub open spec fn digit_value(c: char) -> int {
    c as int - '0' as int
}

/// The value of a string of decimal digits.
pub open spec fn decimal_value(s: Seq<char>) -> int
    decreases s.len(),
{
    if s.len() == 0 {
        0
    } else {
        decimal_value(s.drop_last()) * 10 + digit_value(s.last())
    }
}

/// The cell that a numeric literal denotes: its decimal value, wrapped to 64 bits.
pub open spec fn number_value(s: Seq<char>) -> i64 {
    wrap_i64(decimal_value(s))
}

/// The cell that a string of decimal digits denotes.
pub fn number_from_digits(digits: &str) -> (n: i64)
    requires
        forall|i: int| 0 <= i < digits@.len() ==> '0' <= #[trigger] digits@[i] <= '9',
    ensures
        n == number_value(digits@),
{
    proof {
        broadcast use vstd::string::is_ascii_spec_bytes;
        assert(vstd::string::is_ascii(digits));
    }
    let bytes = digits.as_bytes();
    let mut acc: u64 = 0;
    let mut i: usize = 0;
    while i < bytes.len()
        invariant
            i <= bytes@.len(),
            bytes@.len() == digits@.len(),
            forall|k: int| 0 <= k < bytes@.len() ==> bytes@[k] == digits@[k] as u8,
            forall|k: int| 0 <= k < digits@.len() ==> '0' <= #[trigger] digits@[k] <= '9',
            acc as int == decimal_value(digits@.subrange(0, i as int)) % cell_modulus(),
        decreases bytes@.len() - i,
    {
        let d: u64 = (bytes[i] - 48u8) as u64;
        proof {
            let prefix = digits@.subrange(0, i as int);
            let next = digits@.subrange(0, i as int + 1);
            assert(next.drop_last() =~= prefix);
            assert(d as int == digit_value(digits@[i as int]));
            let v = decimal_value(prefix);
            lemma_mul_mod_noop_left(v, 10, cell_modulus());
            lemma_add_mod_noop(v * 10, d as int, cell_modulus());
            assert((d as int) % cell_modulus() == d as int);
            assert(((acc as int) * 10) % cell_modulus() == (v * 10) % cell_modulus());
        }
        acc = acc.wrapping_mul(10).wrapping_add(d);
        i = i + 1;
    }
    proof {
        assert(digits@.subrange(0, i as int) =~= digits@);
    }
    if acc <= 0x7fff_ffff_ffff_ffffu64 {
        acc as i64
    } else {
        let high: u64 = acc - 0x8000_0000_0000_0000u64;
        (high as i64) + i64::MIN
    }
}

/// Every queued token can be resolved against `dict`: each number is made of
/// digits and each word is defined.
pub open spec fn tokens_resolvable(tokens: Seq<Token>, dict: Map<Seq<char>, Seq<Operation>>) -> bool {
    forall|k: int|
        0 <= k < tokens.len() ==> match #[trigger] tokens[k].symbol {
            Symbol::NUMBER => all_digits(tokens[k].token@),
            Symbol::WORD => dict.contains_key(tokens[k].token@),
            Symbol::UNDEFINED => true,
        }
}

/// What resolving a token queue comes to.
pub ghost struct Resolution {
    /// The data stack afterwards.
    pub stack: Seq<Data>,
    /// The operation queue afterwards.
    pub operations: Seq<Operation>,
    /// The first undefined word met, if any.
    pub undefined: Option<Seq<char>>,
}

/// Resolve `tokens` in order: numbers are pushed onto `stack`, words append
/// their definitions to `operations`, and the first undefined word stops the
/// resolution.
pub open spec fn resolve(
    tokens: Seq<Token>,
    dict: Map<Seq<char>, Seq<Operation>>,
    stack: Seq<Data>,
    operations: Seq<Operation>,
) -> Resolution
    decreases tokens.len(),
{
    if tokens.len() == 0 {
        Resolution { stack, operations, undefined: None }
    } else {
        let t = tokens[0];
        let rest = tokens.drop_first();
        match t.symbol {
            Symbol::NUMBER => resolve(
                rest,
                dict,
                stack.push(Data::NUMBER(number_value(t.token@))),
                operations,
            ),
            Symbol::WORD => resolve(rest, dict, stack, operations + dict[t.token@]),
            Symbol::UNDEFINED => Resolution { stack, operations, undefined: Some(t.token@) },
        }
    }
}

/// Append `ops` to the back of `queue`.
fn enqueue_all(queue: &mut VecDeque<Operation>, ops: &Vec<Operation>)
    ensures
        final(queue)@ == old(queue)@ + ops@,
{
    let mut j: usize = 0;
    while j < ops.len()
        invariant
            j <= ops@.len(),
            queue@ == old(queue)@ + ops@.subrange(0, j as int),
        decreases ops@.len() - j,
    {
        queue.push_back(ops[j]);
        j = j + 1;
        assert(queue@ =~= old(queue)@ + ops@.subrange(0, j as int));
    }
    assert(ops@.subrange(0, j as int) =~= ops@);
}

impl VM {
    /// Can the queued tokens be resolved (see [`tokens_resolvable`])?
    pub fn can_parse(&self) -> (r: bool)
        requires
            self.dictionary.wf(),
        ensures
            r == tokens_resolvable(self.tokens@, self.dictionary@),
    {
        let mut k: usize = 0;
        while k < self.tokens.len()
            invariant
                k <= self.tokens@.len(),
                self.dictionary.wf(),
                forall|j: int|
                    0 <= j < k ==> match #[trigger] self.tokens@[j].symbol {
                        Symbol::NUMBER => all_digits(self.tokens@[j].token@),
                        Symbol::WORD => self.dictionary@.contains_key(self.tokens@[j].token@),
                        Symbol::UNDEFINED => true,
                    },
            decreases self.tokens@.len() - k,
        {
            let token = &self.tokens[k];
            let ok = match token.symbol {
                Symbol::NUMBER => is_all_digits(token.token.as_str()),
                Symbol::WORD => self.dictionary.contains_key(token.token.as_str()),
                Symbol::UNDEFINED => true,
            };
            if !ok {
                return false;
            }
            k = k + 1;
        }
        true
    }
}

/// Translate tokens into VM operations: drain the token queue in order,
/// pushing numbers onto the data stack and appending the operations of words
/// to the operation queue. An undefined word fails the resolution and
/// discards the tokens still queued.
pub fn parse(vm: &mut VM) -> (r: Result<(), CompilerError>)
    requires
        old(vm).dictionary.wf(),
        tokens_resolvable(old(vm).tokens@, old(vm).dictionary@),
    ensures
        final(vm).tokens@.len() == 0,
        final(vm).data_stack@ == resolve(
            old(vm).tokens@,
            old(vm).dictionary@,
            old(vm).data_stack@,
            old(vm).operations@,
        ).stack,
        final(vm).operations@ == resolve(
            old(vm).tokens@,
            old(vm).dictionary@,
            old(vm).data_stack@,
            old(vm).operations@,
        ).operations,
        match resolve(
            old(vm).tokens@,
            old(vm).dictionary@,
            old(vm).data_stack@,
            old(vm).operations@,
        ).undefined {
            Some(name) => r matches Err(CompilerError::UndefinedWord(w)) && w@ == name,
            None => r is Ok,
        },
        final(vm).dictionary == old(vm).dictionary,
        final(vm)._ops_applied == old(vm)._ops_applied,
        final(vm).halted == old(vm).halted,
{
    let ghost dict = vm.dictionary@;
    let ghost whole = resolve(vm.tokens@, dict, vm.data_stack@, vm.operations@);
    loop
        invariant
            vm.dictionary == old(vm).dictionary,
            vm._ops_applied == old(vm)._ops_applied,
            vm.halted == old(vm).halted,
            dict == vm.dictionary@,
            vm.dictionary.wf(),
            tokens_resolvable(vm.tokens@, dict),
            whole == resolve(old(vm).tokens@, dict, old(vm).data_stack@, old(vm).operations@),
            whole == resolve(vm.tokens@, dict, vm.data_stack@, vm.operations@),
        decreases vm.tokens@.len(),
    {
        let ghost queued = vm.tokens@;
        let token = match vm.tokens.pop_front() {
            Some(token) => token,
            None => {
                return Ok(());
            },
        };
        proof {
            assert(vm.tokens@ =~= queued.drop_first());
            assert(tokens_resolvable(vm.tokens@, dict)) by {
                assert forall|k: int| 0 <= k < vm.tokens@.len() implies #[trigger] vm.tokens@[k]
                    == queued[k + 1] by {}
                assert forall|k: int| 0 <= k < vm.tokens@.len() implies match #[trigger] vm.tokens@[k].symbol {
                    Symbol::NUMBER => all_digits(vm.tokens@[k].token@),
                    Symbol::WORD => dict.contains_key(vm.tokens@[k].token@),
                    Symbol::UNDEFINED => true,
                } by {
                    assert(vm.tokens@[k] == queued[k + 1]);
                }
            }
            let first = queued[0];
            assert(match first.symbol {
                Symbol::NUMBER => all_digits(first.token@),
                Symbol::WORD => dict.contains_key(first.token@),
                Symbol::UNDEFINED => true,
            });
        }
        match token.symbol {
            Symbol::NUMBER => {
                let n = number_from_digits(token.token.as_str());
                vm.data_stack.push(Data::NUMBER(n));
            },
            Symbol::WORD => {
                match vm.dictionary.get(token.token.as_str()) {
                    Some(word_ops) => enqueue_all(&mut vm.operations, word_ops),
                    None => {
                        return vstd::pervasive::unreached();
                    },
                }
            },
            Symbol::UNDEFINED => {
                vm.tokens.clear();
                return Err(CompilerError::UndefinedWord(token.token));
            },
        }
    }
}

} // verus!
