//! The stack evaluator: it applies one command at a time to the calculator's
//! stack, enforcing the underflow and domain-error guards.
//!
//! An operator short of operands leaves the stack untouched and says
//! nothing.  A division whose divisor is zero and a square root of a
//! strictly negative number also leave the stack untouched, so that the
//! operands stay available, and answer with a diagnostic.  Every successful
//! arithmetic command answers with the new top of the stack.

use vstd::prelude::*;

use crate::rpncalc::cli::{CliCmd, CliOperation};
use crate::rpncalc::numbers;
use crate::rpncalc::RpnCalc;

verus! {

/// What one command answers: nothing, the new top of the stack, the request
/// to show the whole stack, or a diagnostic that names the domain error.
#[derive(Debug, Clone, Copy, PartialEq, Eq, Structural)]
pub enum Outcome {
    Silent,
    NewTop(u64),
    Listing,
    DivideByZero,
    NegativeRoot,
}

/// The left-to-right sum of `s` starting from `acc`, in binary64.
pub open spec fn fold_add(acc: u64, s: Seq<u64>) -> u64
    decreases s.len(),
{
    if s.len() == 0 {
        acc
    } else {
        fold_add(numbers::add_bits(acc, s[0]), s.drop_first())
    }
}

/// The left-to-right product of `s` starting from `acc`, in binary64.
pub open spec fn fold_mul(acc: u64, s: Seq<u64>) -> u64
    decreases s.len(),
{
    if s.len() == 0 {
        acc
    } else {
        fold_mul(numbers::mul_bits(acc, s[0]), s.drop_first())
    }
}

/// The sum of the whole stack, summed bottom to top from 0.0.
pub open spec fn stack_sum(s: Seq<u64>) -> u64 {
    fold_add(numbers::ZERO_BITS, s)
}

/// The product of the whole stack, multiplied bottom to top from 1.0.
pub open spec fn stack_product(s: Seq<u64>) -> u64 {
    fold_mul(numbers::ONE_BITS, s)
}

/// The stack after one command.
///
/// The top of the stack is its last element.  Add, Subtract, Multiply and
/// Divide need two operands and otherwise change nothing; SquareRoot needs
/// one.  A Divide whose divisor, the top element, equals zero, and a
/// SquareRoot of a strictly negative top, change nothing.  Subtract takes
/// the top as subtrahend, Divide takes the top as divisor.  AddAll and
/// MultAll replace a non-empty stack by its sum or product.  Clear empties
/// the stack; every remaining command leaves it as it is.
pub open spec fn step(s: Seq<u64>, op: CliOperation) -> Seq<u64> {
    match op {
        CliOperation::Push(v) => s.push(v),
        CliOperation::Add => if s.len() < 2 {
            s
        } else {
            s.take(s.len() - 2).push(numbers::add_bits(s[s.len() - 2], s[s.len() - 1]))
        },
        CliOperation::Subtract => if s.len() < 2 {
            s
        } else {
            s.take(s.len() - 2).push(numbers::sub_bits(s[s.len() - 2], s[s.len() - 1]))
        },
        CliOperation::Multiply => if s.len() < 2 {
            s
        } else {
            s.take(s.len() - 2).push(numbers::mul_bits(s[s.len() - 2], s[s.len() - 1]))
        },
        CliOperation::Divide => if s.len() < 2 || numbers::is_zero_bits(s[s.len() - 1]) {
            s
        } else {
            s.take(s.len() - 2).push(numbers::div_bits(s[s.len() - 2], s[s.len() - 1]))
        },
        CliOperation::SquareRoot => if s.len() < 1 || numbers::is_negative_bits(s[s.len() - 1]) {
            s
        } else {
            s.take(s.len() - 1).push(numbers::sqrt_bits(s[s.len() - 1]))
        },
        CliOperation::AddAll => if s.len() == 0 {
            s
        } else {
            seq![stack_sum(s)]
        },
        CliOperation::MultAll => if s.len() == 0 {
            s
        } else {
            seq![stack_product(s)]
        },
        CliOperation::Clear => Seq::empty(),
        _ => s,
    }
}

/// What one command answers on the stack `s`: the new top where the command
/// computes one, `Listing` for List, a diagnostic for the two domain
/// errors, and silence otherwise, a no-op included.
pub open spec fn step_outcome(s: Seq<u64>, op: CliOperation) -> Outcome {
    match op {
        CliOperation::Add | CliOperation::Subtract | CliOperation::Multiply => if s.len() < 2 {
            Outcome::Silent
        } else {
            Outcome::NewTop(step(s, op)[step(s, op).len() - 1])
        },
        CliOperation::Divide => if s.len() < 2 {
            Outcome::Silent
        } else if numbers::is_zero_bits(s[s.len() - 1]) {
            Outcome::DivideByZero
        } else {
            Outcome::NewTop(step(s, op)[step(s, op).len() - 1])
        },
        CliOperation::SquareRoot => if s.len() < 1 {
            Outcome::Silent
        } else if numbers::is_negative_bits(s[s.len() - 1]) {
            Outcome::NegativeRoot
        } else {
            Outcome::NewTop(step(s, op)[step(s, op).len() - 1])
        },
        CliOperation::AddAll => if s.len() == 0 {
            Outcome::Silent
        } else {
            Outcome::NewTop(stack_sum(s))
        },
        CliOperation::MultAll => if s.len() == 0 {
            Outcome::Silent
        } else {
            Outcome::NewTop(stack_product(s))
        },
        CliOperation::List => Outcome::Listing,
        _ => Outcome::Silent,
    }
}

/// The stack after a sequence of commands, applied left to right.
pub open spec fn steps(s: Seq<u64>, ops: Seq<CliOperation>) -> Seq<u64>
    decreases ops.len(),
{
    if ops.len() == 0 {
        s
    } else {
        step(steps(s, ops.drop_last()), ops.last())
    }
}

/// Clearing is idempotent: clearing twice in a row leaves the same stack as
/// clearing once, the empty one.
pub proof fn lemma_clear_idempotent(s: Seq<u64>)
    ensures
        step(step(s, CliOperation::Clear), CliOperation::Clear) == step(s, CliOperation::Clear),
        step(s, CliOperation::Clear) == Seq::<u64>::empty(),
{
}

/// Underflow is a no-op: Add, Subtract and Multiply leave a stack of fewer
/// than two elements unchanged, and Divide and SquareRoot leave a stack of
/// fewer than one element unchanged.
pub proof fn lemma_underflow_no_op(s: Seq<u64>)
    ensures
        s.len() < 2 ==> step(s, CliOperation::Add) == s,
        s.len() < 2 ==> step(s, CliOperation::Subtract) == s,
        s.len() < 2 ==> step(s, CliOperation::Multiply) == s,
        s.len() < 1 ==> step(s, CliOperation::Divide) == s,
        s.len() < 1 ==> step(s, CliOperation::SquareRoot) == s,
{
}

/// A domain error removes nothing: a Divide whose divisor, the top of the
/// stack, equals zero, and a SquareRoot of a strictly negative top, leave
/// the stack exactly as it was, so its size is unchanged.
pub proof fn lemma_domain_error_keeps_stack(s: Seq<u64>)
    ensures
        s.len() >= 1 && numbers::is_zero_bits(s[s.len() - 1]) ==> step(s, CliOperation::Divide)
            == s && step(s, CliOperation::Divide).len() == s.len(),
        s.len() >= 1 && numbers::is_negative_bits(s[s.len() - 1]) ==> step(
            s,
            CliOperation::SquareRoot,
        ) == s && step(s, CliOperation::SquareRoot).len() == s.len(),
{
}

/// SumAll and ProductAll are no-ops on the empty stack; on any other stack
/// they reduce it to exactly one element.
pub proof fn lemma_reduce_whole_stack(s: Seq<u64>)
    ensures
        s.len() == 0 ==> step(s, CliOperation::AddAll) == s && step(s, CliOperation::MultAll) == s,
        s.len() > 0 ==> step(s, CliOperation::AddAll).len() == 1 && step(
            s,
            CliOperation::MultAll,
        ).len() == 1,
{
}

/// Evaluation composes: applying two command sequences one after the other
/// is applying their concatenation.
pub proof fn lemma_steps_append(s: Seq<u64>, ops1: Seq<CliOperation>, ops2: Seq<CliOperation>)
    ensures
        steps(s, ops1 + ops2) == steps(steps(s, ops1), ops2),
    decreases ops2.len(),
{
    if ops2.len() == 0 {
        assert(ops1 + ops2 =~= ops1);
    } else {
        lemma_steps_append(s, ops1, ops2.drop_last());
        assert((ops1 + ops2).drop_last() =~= ops1 + ops2.drop_last());
        assert((ops1 + ops2).last() == ops2.last());
    }
}

/// Applies one command to the calculator's stack and returns its answer.
pub fn process(c: &mut RpnCalc, cmd: &CliCmd) -> (r: Outcome)
    ensures
        final(c)@ == step(old(c)@, cmd.oper),
        r == step_outcome(old(c)@, cmd.oper),
{
    match cmd.oper {
        CliOperation::Push(number) => push(c, number),
        CliOperation::Add => self::add(c),
        CliOperation::Subtract => subtract(c),
        CliOperation::Multiply => multiply(c),
        CliOperation::Divide => divide(c),
        CliOperation::SquareRoot => square_root(c),
        CliOperation::AddAll => add_all(c),
        CliOperation::MultAll => mult_all(c),
        CliOperation::Clear => clear(c),
        CliOperation::List => list(c),
        _ => Outcome::Silent,
    }
}

/// Appends the value to the stack; this always succeeds and says nothing.
fn push(c: &mut RpnCalc, number: u64) -> (r: Outcome)
    ensures
        final(c)@ == step(old(c)@, CliOperation::Push(number)),
        r == step_outcome(old(c)@, CliOperation::Push(number)),
{
    c.stack.push(number);
    Outcome::Silent
}

/// Empties the stack unconditionally.
fn clear(c: &mut RpnCalc) -> (r: Outcome)
    ensures
        final(c)@ == step(old(c)@, CliOperation::Clear),
        r == step_outcome(old(c)@, CliOperation::Clear),
{
    c.stack.clear();
    Outcome::Silent
}

/// Asks for the whole stack to be shown; the stack is not touched.
fn list(c: &mut RpnCalc) -> (r: Outcome)
    ensures
        final(c)@ == step(old(c)@, CliOperation::List),
        r == step_outcome(old(c)@, CliOperation::List),
{
    Outcome::Listing
}

/// Pops two operands and pushes their sum; short of two, a silent no-op.
fn add(c: &mut RpnCalc) -> (r: Outcome)
    ensures
        final(c)@ == step(old(c)@, CliOperation::Add),
        r == step_outcome(old(c)@, CliOperation::Add),
{
    if c.stack.len() < 2 {
        return Outcome::Silent;
    }
    let b = c.stack.pop().unwrap();
    let a = c.stack.pop().unwrap();
    let result = numbers::add64(a, b);
    c.stack.push(result);
    proof {
        assert(c.stack@ =~= old(c)@.take(old(c)@.len() - 2).push(result));
    }
    Outcome::NewTop(result)
}

/// Pops the subtrahend, then the minuend, and pushes their difference;
/// short of two operands, a silent no-op.
fn subtract(c: &mut RpnCalc) -> (r: Outcome)
    ensures
        final(c)@ == step(old(c)@, CliOperation::Subtract),
        r == step_outcome(old(c)@, CliOperation::Subtract),
{
    if c.stack.len() < 2 {
        return Outcome::Silent;
    }
    let subtrahend = c.stack.pop().unwrap();
    let minuend = c.stack.pop().unwrap();
    let result = numbers::sub64(minuend, subtrahend);
    c.stack.push(result);
    proof {
        assert(c.stack@ =~= old(c)@.take(old(c)@.len() - 2).push(result));
    }
    Outcome::NewTop(result)
}

/// Pops two operands and pushes their product; short of two, a silent no-op.
fn multiply(c: &mut RpnCalc) -> (r: Outcome)
    ensures
        final(c)@ == step(old(c)@, CliOperation::Multiply),
        r == step_outcome(old(c)@, CliOperation::Multiply),
{
    if c.stack.len() < 2 {
        return Outcome::Silent;
    }
    let b = c.stack.pop().unwrap();
    let a = c.stack.pop().unwrap();
    let result = numbers::mul64(a, b);
    c.stack.push(result);
    proof {
        assert(c.stack@ =~= old(c)@.take(old(c)@.len() - 2).push(result));
    }
    Outcome::NewTop(result)
}

/// Divides the second element by the top one.  Short of two operands, a
/// silent no-op; with a divisor that equals zero, the stack is left exactly
/// as it is and the zero-division diagnostic is answered, so that both
/// operands stay available.
fn divide(c: &mut RpnCalc) -> (r: Outcome)
    ensures
        final(c)@ == step(old(c)@, CliOperation::Divide),
        r == step_outcome(old(c)@, CliOperation::Divide),
{
    if c.stack.len() < 2 {
        return Outcome::Silent;
    }
    let top = c.stack[c.stack.len() - 1];
    if numbers::bits_equal_zero(top) {
        return Outcome::DivideByZero;
    }
    let divisor = c.stack.pop().unwrap();
    let dividend = c.stack.pop().unwrap();
    let result = numbers::div64(dividend, divisor);
    c.stack.push(result);
    proof {
        assert(c.stack@ =~= old(c)@.take(old(c)@.len() - 2).push(result));
    }
    Outcome::NewTop(result)
}

/// Replaces the top of the stack by its square root.  On an empty stack, a
/// silent no-op; with a strictly negative top, the stack is left exactly as
/// it is and the negative-root diagnostic is answered, so that the operand
/// stays available.
fn square_root(c: &mut RpnCalc) -> (r: Outcome)
    ensures
        final(c)@ == step(old(c)@, CliOperation::SquareRoot),
        r == step_outcome(old(c)@, CliOperation::SquareRoot),
{
    if c.stack.len() < 1 {
        return Outcome::Silent;
    }
    let top = c.stack[c.stack.len() - 1];
    if numbers::bits_strictly_negative(top) {
        return Outcome::NegativeRoot;
    }
    let operand = c.stack.pop().unwrap();
    let result = numbers::sqrt64(operand);
    c.stack.push(result);
    proof {
        assert(c.stack@ =~= old(c)@.take(old(c)@.len() - 1).push(result));
    }
    Outcome::NewTop(result)
}

/// Replaces a non-empty stack by the sum of all its elements, added bottom
/// to top from 0.0; on an empty stack, a silent no-op.
fn add_all(c: &mut RpnCalc) -> (r: Outcome)
    ensures
        final(c)@ == step(old(c)@, CliOperation::AddAll),
        r == step_outcome(old(c)@, CliOperation::AddAll),
{
    if c.stack.is_empty() {
        return Outcome::Silent;
    }
    let ghost s = c.stack@;
    let mut sum: u64 = numbers::ZERO_BITS;
    let mut i: usize = 0;
    proof {
        assert(s.skip(0) =~= s);
    }
    while i < c.stack.len()
        invariant
            i <= s.len(),
            c.stack@ == s,
            fold_add(numbers::ZERO_BITS, s) == fold_add(sum, s.skip(i as int)),
        decreases s.len() - i,
    {
        proof {
            assert(s.skip(i as int)[0] == s[i as int]);
            assert(s.skip(i as int).drop_first() =~= s.skip(i as int + 1));
        }
        sum = numbers::add64(sum, c.stack[i]);
        i += 1;
    }
    proof {
        assert(s.skip(s.len() as int) =~= Seq::<u64>::empty());
    }
    c.stack.clear();
    c.stack.push(sum);
    proof {
        assert(c.stack@ =~= seq![stack_sum(s)]);
    }
    Outcome::NewTop(sum)
}

/// Replaces a non-empty stack by the product of all its elements, multiplied
/// bottom to top from 1.0; on an empty stack, a silent no-op.
fn mult_all(c: &mut RpnCalc) -> (r: Outcome)
    ensures
        final(c)@ == step(old(c)@, CliOperation::MultAll),
        r == step_outcome(old(c)@, CliOperation::MultAll),
{
    if c.stack.is_empty() {
        return Outcome::Silent;
    }
    let ghost s = c.stack@;
    let mut mult: u64 = numbers::ONE_BITS;
    let mut i: usize = 0;
    proof {
        assert(s.skip(0) =~= s);
    }
    while i < c.stack.len()
        invariant
            i <= s.len(),
            c.stack@ == s,
            fold_mul(numbers::ONE_BITS, s) == fold_mul(mult, s.skip(i as int)),
        decreases s.len() - i,
    {
        proof {
            assert(s.skip(i as int)[0] == s[i as int]);
            assert(s.skip(i as int).drop_first() =~= s.skip(i as int + 1));
        }
        mult = numbers::mul64(mult, c.stack[i]);
        i += 1;
    }
    proof {
        assert(s.skip(s.len() as int) =~= Seq::<u64>::empty());
    }
    c.stack.clear();
    c.stack.push(mult);
    proof {
        assert(c.stack@ =~= seq![stack_product(s)]);
    }
    Outcome::NewTop(mult)
}

} // verus!
