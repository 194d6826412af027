//! Interpretation

use super::{Data, VirtualMachineError, VM};
use crate::compiler::parser::{wrap_i64, Operation};
use vstd::prelude::*;

verus! {

/// Operations of stack effect `( n -- n' )`.
pub open spec fn is_unary(op: Operation) -> bool {
    match op {
        Operation::ABS | Operation::NEGATE | Operation::ZERO_EQ | Operation::ZERO_NE
        | Operation::ZERO_GT | Operation::ZERO_LT => true,
        _ => false,
    }
}

/// Operations of stack effect `( n1 n2 -- n3 )`.
pub open spec fn is_binary(op: Operation) -> bool {
    match op {
        Operation::ADD | Operation::SUB | Operation::MUL | Operation::DIV | Operation::MOD
        | Operation::MAX | Operation::MIN | Operation::CMP_EQ | Operation::CMP_NE
        | Operation::CMP_GT | Operation::CMP_LT => true,
        _ => false,
    }
}

/// A truth value as a cell: 1 for true, 0 for false.
pub open spec fn flag(b: bool) -> i64 {
    if b {
        1
    } else {
        0
    }
}

/// Division truncated toward zero.
pub open spec fn trunc_div(a: int, b: int) -> int {
    let q = abs(a) / abs(b);
    if (a < 0) != (b < 0) {
        -q
    } else {
        q
    }
}

/// Absolute value of an integer.
pub open spec fn abs(a: int) -> int {
    if a < 0 {
        -a
    } else {
        a
    }
}

/// The result of a unary operation on `n`. Arithmetic wraps at 64 bits.
pub open spec fn unary_result(op: Operation, n: i64) -> i64 {
    match op {
        Operation::ABS => wrap_i64(abs(n as int)),
        Operation::NEGATE => wrap_i64(-n),
        Operation::ZERO_EQ => flag(n == 0),
        Operation::ZERO_NE => flag(n != 0),
        Operation::ZERO_GT => flag(n > 0),
        Operation::ZERO_LT => flag(n < 0),
        _ => n,
    }
}

/// The result of a binary operation on `n1` (deeper) and `n2` (top).
/// Arithmetic wraps at 64 bits; `MOD` is the Euclidean remainder.
pub open spec fn binary_result(op: Operation, n1: i64, n2: i64) -> i64 {
    match op {
        Operation::ADD => wrap_i64(n1 + n2),
        Operation::SUB => wrap_i64(n1 - n2),
        Operation::MUL => wrap_i64(n1 * n2),
        Operation::DIV => wrap_i64(trunc_div(n1 as int, n2 as int)),
        Operation::MOD => (n1 % n2) as i64,
        Operation::MAX => if n1 >= n2 {
            n1
        } else {
            n2
        },
        Operation::MIN => if n1 <= n2 {
            n1
        } else {
            n2
        },
        Operation::CMP_EQ => flag(n1 == n2),
        Operation::CMP_NE => flag(n1 != n2),
        Operation::CMP_GT => flag(n1 > n2),
        Operation::CMP_LT => flag(n1 < n2),
        _ => n2,
    }
}

/// The stack after `op`, or the error that `op` fails with on `stack`.
/// `BYE` has no stack effect.
pub open spec fn apply_op(op: Operation, stack: Seq<Data>) -> Result<Seq<Data>, VirtualMachineError> {
    let len = stack.len();
    if is_unary(op) {
        if len == 0 {
            Err(VirtualMachineError::StackUnderflow)
        } else {
            match stack.last() {
                Data::NUMBER(n) => Ok(stack.drop_last().push(Data::NUMBER(unary_result(op, n)))),
                Data::STRING(_) => Err(VirtualMachineError::TypeMismatch),
            }
        }
    } else if is_binary(op) {
        if len < 2 {
            Err(VirtualMachineError::StackUnderflow)
        } else {
            match (stack[len - 2], stack[len - 1]) {
                (Data::NUMBER(n1), Data::NUMBER(n2)) => {
                    if (op == Operation::DIV || op == Operation::MOD) && n2 == 0 {
                        Err(VirtualMachineError::DivisionByZero)
                    } else {
                        Ok(stack.subrange(0, len - 2).push(Data::NUMBER(binary_result(op, n1, n2))))
                    }
                },
                _ => Err(VirtualMachineError::TypeMismatch),
            }
        }
    } else {
        match op {
            Operation::DROP => if len == 0 {
                Err(VirtualMachineError::StackUnderflow)
            } else {
                Ok(stack.drop_last())
            },
            Operation::DUP => if len == 0 {
                Err(VirtualMachineError::StackUnderflow)
            } else {
                Ok(stack.push(stack.last()))
            },
            _ => Ok(stack),
        }
    }
}

/// What executing a queue of operations comes to.
pub ghost struct Run {
    /// The data stack afterwards.
    pub stack: Seq<Data>,
    /// The operations left in the queue.
    pub remaining: Seq<Operation>,
    /// How many operations completed.
    pub applied: nat,
    /// The error of the operation that failed, if one did.
    pub error: Option<VirtualMachineError>,
    /// Whether execution stopped at `BYE`.
    pub halted: bool,
}

/// Execute `ops` in order on `stack`: stop at the first failing operation
/// (which is taken from the queue, leaving the stack as it was) or right after
/// `BYE`.
pub open spec fn run_ops(ops: Seq<Operation>, stack: Seq<Data>) -> Run
    decreases ops.len(),
{
    if ops.len() == 0 {
        Run { stack, remaining: ops, applied: 0, error: None, halted: false }
    } else {
        let op = ops[0];
        let rest = ops.drop_first();
        match apply_op(op, stack) {
            Err(e) => Run { stack, remaining: rest, applied: 0, error: Some(e), halted: false },
            Ok(next) => if op == Operation::BYE {
                Run { stack: next, remaining: rest, applied: 1, error: None, halted: true }
            } else {
                let r = run_ops(rest, next);
                Run { applied: r.applied + 1, ..r }
            },
        }
    }
}

/// Common cast from the top cell to an i64, with error-checking. Does not
/// change the stack.
fn int_from_stack(stack: &Vec<Data>) -> (r: Result<i64, VirtualMachineError>)
    ensures
        stack@.len() == 0 ==> r == Err::<i64, VirtualMachineError>(
            VirtualMachineError::StackUnderflow,
        ),
        stack@.len() > 0 ==> r == match stack@.last() {
            Data::NUMBER(n) => Ok(n),
            Data::STRING(_) => Err(VirtualMachineError::TypeMismatch),
        },
{
    let len = stack.len();
    if len == 0 {
        return Err(VirtualMachineError::StackUnderflow);
    }
    match &stack[len - 1] {
        Data::NUMBER(n) => Ok(*n),
        Data::STRING(_) => Err(VirtualMachineError::TypeMismatch),
    }
}

/// The two top cells as numbers (deeper first), with error-checking. Does
/// not change the stack.
fn two_ints_from_stack(stack: &Vec<Data>) -> (r: Result<(i64, i64), VirtualMachineError>)
    ensures
        stack@.len() < 2 ==> r == Err::<(i64, i64), VirtualMachineError>(
            VirtualMachineError::StackUnderflow,
        ),
        stack@.len() >= 2 ==> r == match (stack@[stack@.len() - 2], stack@[stack@.len() - 1]) {
            (Data::NUMBER(n1), Data::NUMBER(n2)) => Ok((n1, n2)),
            _ => Err(VirtualMachineError::TypeMismatch),
        },
{
    let len = stack.len();
    if len < 2 {
        return Err(VirtualMachineError::StackUnderflow);
    }
    match (&stack[len - 2], &stack[len - 1]) {
        (Data::NUMBER(n1), Data::NUMBER(n2)) => Ok((*n1, *n2)),
        _ => Err(VirtualMachineError::TypeMismatch),
    }
}

/// Compute a unary operation's result.
fn unary(op: Operation, n: i64) -> (r: i64)
    requires
        is_unary(op),
    ensures
        r == unary_result(op, n),
{
    match op {
        Operation::ABS => if n < 0 {
            0i64.wrapping_sub(n)
        } else {
            n
        },
        Operation::NEGATE => 0i64.wrapping_sub(n),
        Operation::ZERO_EQ => if n == 0 {
            1
        } else {
            0
        },
        Operation::ZERO_NE => if n != 0 {
            1
        } else {
            0
        },
        Operation::ZERO_GT => if n > 0 {
            1
        } else {
            0
        },
        _ => if n < 0 {
            1
        } else {
            0
        },
    }
}

/// Compute a binary operation's result.
fn binary(op: Operation, n1: i64, n2: i64) -> (r: i64)
    requires
        is_binary(op),
        (op == Operation::DIV || op == Operation::MOD) ==> n2 != 0,
    ensures
        r == binary_result(op, n1, n2),
{
    match op {
        Operation::ADD => n1.wrapping_add(n2),
        Operation::SUB => n1.wrapping_sub(n2),
        Operation::MUL => n1.wrapping_mul(n2),
        Operation::DIV => match n1.checked_div(n2) {
            Some(q) => q,
            None => i64::MIN,
        },
        Operation::MOD => match n1.checked_rem_euclid(n2) {
            Some(m) => m,
            None => 0,
        },
        Operation::MAX => if n1 >= n2 {
            n1
        } else {
            n2
        },
        Operation::MIN => if n1 <= n2 {
            n1
        } else {
            n2
        },
        Operation::CMP_EQ => if n1 == n2 {
            1
        } else {
            0
        },
        Operation::CMP_NE => if n1 != n2 {
            1
        } else {
            0
        },
        Operation::CMP_GT => if n1 > n2 {
            1
        } else {
            0
        },
        _ => if n1 < n2 {
            1
        } else {
            0
        },
    }
}

/// Apply one operation to the data stack. On failure the stack is left as it
/// was.
pub fn apply_operation(stack: &mut Vec<Data>, op: Operation) -> (r: Result<(), VirtualMachineError>)
    ensures
        match apply_op(op, old(stack)@) {
            Ok(next) => r is Ok && final(stack)@ == next,
            Err(e) => r == Err::<(), VirtualMachineError>(e) && final(stack)@ == old(stack)@,
        },
{
    match op {
        Operation::NOP | Operation::NOP_INC | Operation::BYE => Ok(()),
        Operation::DROP => {
            match stack.pop() {
                Some(_) => Ok(()),
                None => Err(VirtualMachineError::StackUnderflow),
            }
        },
        Operation::DUP => {
            let len = stack.len();
            if len == 0 {
                return Err(VirtualMachineError::StackUnderflow);
            }
            let top = stack[len - 1].duplicate();
            stack.push(top);
            Ok(())
        },
        Operation::ABS | Operation::NEGATE | Operation::ZERO_EQ | Operation::ZERO_NE
        | Operation::ZERO_GT | Operation::ZERO_LT => {
            let n = match int_from_stack(stack) {
                Ok(n) => n,
                Err(e) => return Err(e),
            };
            let result = unary(op, n);
            stack.pop();
            stack.push(Data::NUMBER(result));
            Ok(())
        },
        _ => {
            let (n1, n2) = match two_ints_from_stack(stack) {
                Ok(pair) => pair,
                Err(e) => return Err(e),
            };
            if (op == Operation::DIV || op == Operation::MOD) && n2 == 0 {
                return Err(VirtualMachineError::DivisionByZero);
            }
            let result = binary(op, n1, n2);
            stack.pop();
            stack.pop();
            stack.push(Data::NUMBER(result));
            Ok(())
        },
    }
}

/// Drain the operation queue in order, applying each operation to the data
/// stack and counting it. Stops at the first failing operation (taken from
/// the queue; the stack is left as it was before it) or right after `BYE`,
/// which sets `halted`.
pub fn execute(vm: &mut VM) -> (r: Result<(), VirtualMachineError>)
    requires
        old(vm)._ops_applied + old(vm).operations@.len() <= u64::MAX,
    ensures
        final(vm).data_stack@ == run_ops(old(vm).operations@, old(vm).data_stack@).stack,
        final(vm).operations@ == run_ops(old(vm).operations@, old(vm).data_stack@).remaining,
        final(vm)._ops_applied == old(vm)._ops_applied + run_ops(
            old(vm).operations@,
            old(vm).data_stack@,
        ).applied,
        final(vm).halted == (old(vm).halted || run_ops(
            old(vm).operations@,
            old(vm).data_stack@,
        ).halted),
        r == match run_ops(old(vm).operations@, old(vm).data_stack@).error {
            Some(e) => Err::<(), VirtualMachineError>(e),
            None => Ok(()),
        },
        final(vm).dictionary == old(vm).dictionary,
        final(vm).tokens == old(vm).tokens,
{
    let ghost ops0 = vm.operations@;
    let ghost stack0 = vm.data_stack@;
    let ghost count0 = vm._ops_applied;
    loop
        invariant
            count0 <= vm._ops_applied,
            vm._ops_applied - count0 + vm.operations@.len() == ops0.len(),
            count0 + ops0.len() <= u64::MAX,
            vm.halted == old(vm).halted,
            vm.dictionary == old(vm).dictionary,
            vm.tokens == old(vm).tokens,
            ops0 == old(vm).operations@,
            stack0 == old(vm).data_stack@,
            count0 == old(vm)._ops_applied,
            ({
                let whole = run_ops(ops0, stack0);
                let here = run_ops(vm.operations@, vm.data_stack@);
                &&& whole.stack == here.stack
                &&& whole.remaining == here.remaining
                &&& whole.applied == here.applied + (vm._ops_applied - count0)
                &&& whole.error == here.error
                &&& whole.halted == here.halted
            }),
        decreases vm.operations@.len(),
    {
        let ghost ops = vm.operations@;
        let ghost stack = vm.data_stack@;
        match vm.operations.pop_front() {
            None => {
                return Ok(());
            },
            Some(op) => {
                proof {
                    assert(vm.operations@ =~= ops.drop_first());
                }
                match apply_operation(&mut vm.data_stack, op) {
                    Ok(()) => {},
                    Err(e) => {
                        return Err(e);
                    },
                }
                vm._ops_applied = vm._ops_applied + 1;
                if op == Operation::BYE {
                    vm.halted = true;
                    return Ok(());
                }
            },
        }
    }
}

/// A binary operation fails with `StackUnderflow` or `TypeMismatch`, and
/// leaves the stack as it was, whenever the two top cells are not both
/// numbers.
pub proof fn lemma_binary_needs_two_numbers(op: Operation, stack: Seq<Data>)
    requires
        is_binary(op),
        !(stack.len() >= 2 && stack[stack.len() - 2] is NUMBER && stack[stack.len() - 1] is NUMBER),
    ensures
        run_ops(seq![op], stack).error == Some(VirtualMachineError::StackUnderflow)
            || run_ops(seq![op], stack).error == Some(VirtualMachineError::TypeMismatch),
        run_ops(seq![op], stack).stack == stack,
        run_ops(seq![op], stack).applied == 0,
{
    assert(seq![op][0] == op);
}

/// `/` and `MOD` with a zero divisor fail with `DivisionByZero` whatever the
/// dividend, leaving the stack as it was.
pub proof fn lemma_division_by_zero(op: Operation, below: Seq<Data>, n1: i64)
    requires
        op == Operation::DIV || op == Operation::MOD,
    ensures
        run_ops(seq![op], below.push(Data::NUMBER(n1)).push(Data::NUMBER(0))).error == Some(
            VirtualMachineError::DivisionByZero,
        ),
        run_ops(seq![op], below.push(Data::NUMBER(n1)).push(Data::NUMBER(0))).stack == below.push(
            Data::NUMBER(n1),
        ).push(Data::NUMBER(0)),
{
    let stack = below.push(Data::NUMBER(n1)).push(Data::NUMBER(0));
    assert(seq![op][0] == op);
    assert(stack[stack.len() - 2] == Data::NUMBER(n1));
    assert(stack[stack.len() - 1] == Data::NUMBER(0));
}

/// `MOD` is the Euclidean remainder: for a non-zero divisor it lies in
/// `[0, |n2|)` and differs from the dividend by a multiple of the divisor.
pub proof fn lemma_mod_euclidean(n1: i64, n2: i64)
    requires
        n2 != 0,
    ensures
        0 <= binary_result(Operation::MOD, n1, n2) < abs(n2 as int),
        (n1 - binary_result(Operation::MOD, n1, n2)) % (n2 as int) == 0,
{
    let r = (n1 as int) % (n2 as int);
    let q = (n1 as int) / (n2 as int);
    assert(0 <= r < abs(n2 as int)) by (nonlinear_arith)
        requires
            n2 != 0,
            r == (n1 as int) % (n2 as int),
    ;
    assert(n1 == q * n2 + r) by (nonlinear_arith)
        requires
            n2 != 0,
            r == (n1 as int) % (n2 as int),
            q == (n1 as int) / (n2 as int),
    ;
    assert(binary_result(Operation::MOD, n1, n2) == r);
    assert((n1 - r) % (n2 as int) == 0) by (nonlinear_arith)
        requires
            n2 != 0,
            n1 == q * n2 + r,
    ;
}

/// The operations counter: every operation taken from the queue counts once
/// if it completed (no-ops included) and not at all if it failed.
pub proof fn lemma_run_counts_operations(ops: Seq<Operation>, stack: Seq<Data>)
    ensures
        run_ops(ops, stack).applied + run_ops(ops, stack).remaining.len() + (if run_ops(
            ops,
            stack,
        ).error is Some {
            1int
        } else {
            0int
        }) == ops.len(),
        run_ops(ops, stack).remaining == ops.subrange(
            ops.len() - run_ops(ops, stack).remaining.len(),
            ops.len() as int,
        ),
    decreases ops.len(),
{
    if ops.len() > 0 {
        let rest = ops.drop_first();
        assert(rest =~= ops.subrange(1, ops.len() as int));
        if let Ok(next) = apply_op(ops[0], stack) {
            if ops[0] != Operation::BYE {
                lemma_run_counts_operations(rest, next);
                let r = run_ops(rest, next);
                assert(r.remaining =~= ops.subrange(ops.len() - r.remaining.len(), ops.len() as int));
            }
        }
    } else {
        assert(ops.subrange(0, 0) =~= ops);
    }
}

/// No-ops never fail and leave the stack alone.
pub proof fn lemma_no_op(op: Operation, stack: Seq<Data>)
    requires
        op == Operation::NOP || op == Operation::NOP_INC,
    ensures
        apply_op(op, stack) == Ok::<Seq<Data>, VirtualMachineError>(stack),
{
}

} // verus!
