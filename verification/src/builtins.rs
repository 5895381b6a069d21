use vstd::prelude::*;

use crate::errors::ForthError;
use crate::output::OutputItem;
use crate::stack::Stack;

verus! {

broadcast use vstd::seq_lib::group_seq_lib_default;

/// The closed vocabulary of primitive operations.  All variants but the
/// conditional markers execute directly against a stack; `If`, `Else`, `Then`
/// and `IfElse` are structural markers whose meaning is resolved by the
/// structural parser, and reaching one in the dispatcher is a defect.
/// `IfElse` never comes from source text: the conditionals pass rewrites an
/// `If` to it when the conditional has an `ELSE` branch.
#[derive(Clone, Copy, Debug, PartialEq, Eq, Structural)]
pub enum Operation {
    Add,
    Sub,
    Mul,
    Div,
    Dup,
    Drop,
    Swap,
    Over,
    Rot,
    Dot,
    Emit,
    Cr,
    Eq,
    Lt,
    Gt,
    And,
    Or,
    Not,
    If,
    Else,
    Then,
    IfElse,
}

/// Truncating 16-bit division of `b` by `a`, wrapping on overflow: the one
/// overflowing case, the smallest value divided by minus one, yields the
/// smallest value again.
pub open spec fn wrap_div(b: i16, a: i16) -> i16 {
    match b.checked_div(a) {
        Some(q) => q,
        None => i16::MIN,
    }
}

/// The value a binary operation pushes after popping its right operand `a`
/// (the old top of stack) and its left operand `b`.  Arithmetic wraps on
/// overflow; relational and boolean operations push 1 for true and 0 for
/// false.
pub open spec fn binary_result(op: Operation, b: i16, a: i16) -> i16 {
    match op {
        Operation::Add => a.wrapping_add(b),
        Operation::Sub => b.wrapping_sub(a),
        Operation::Mul => a.wrapping_mul(b),
        Operation::Div => wrap_div(b, a),
        Operation::Eq => if a == b {
            1
        } else {
            0
        },
        Operation::Lt => if b < a {
            1
        } else {
            0
        },
        Operation::Gt => if b > a {
            1
        } else {
            0
        },
        Operation::And => if a != 0 && b != 0 {
            1
        } else {
            0
        },
        Operation::Or => if a != 0 || b != 0 {
            1
        } else {
            0
        },
        _ => 0,
    }
}

/// What executing `op` against a stack holding `s` (bottom to top, length at
/// most `cap`) does: the result, the stack afterwards, and the output items
/// emitted.  Values popped before a failure stay popped; a binary operation
/// that underflows with one value on the stack leaves it empty.
pub open spec fn op_step(op: Operation, s: Seq<i16>, cap: nat) -> (Result<(), ForthError>, Seq<
    i16,
>, Seq<OutputItem>) {
    let len = s.len() as int;
    match op {
        Operation::Add | Operation::Sub | Operation::Mul | Operation::Eq | Operation::Lt
            | Operation::Gt | Operation::And | Operation::Or => if len == 0 {
            (Err(ForthError::StackUnderflow), s, Seq::empty())
        } else if len == 1 {
            (Err(ForthError::StackUnderflow), Seq::empty(), Seq::empty())
        } else {
            (Ok(()), s.take(len - 2).push(binary_result(op, s[len - 2], s[len - 1])), Seq::empty())
        },
        Operation::Div => if len == 0 {
            (Err(ForthError::StackUnderflow), s, Seq::empty())
        } else if len == 1 {
            (Err(ForthError::StackUnderflow), Seq::empty(), Seq::empty())
        } else if s[len - 1] == 0 {
            (Err(ForthError::DivisionByZero), s.take(len - 2), Seq::empty())
        } else {
            (Ok(()), s.take(len - 2).push(wrap_div(s[len - 2], s[len - 1])), Seq::empty())
        },
        Operation::Dup => if len == 0 {
            (Err(ForthError::StackUnderflow), s, Seq::empty())
        } else if len >= cap {
            (Err(ForthError::StackOverflow), s, Seq::empty())
        } else {
            (Ok(()), s.push(s.last()), Seq::empty())
        },
        Operation::Drop => if len == 0 {
            (Err(ForthError::StackUnderflow), s, Seq::empty())
        } else {
            (Ok(()), s.drop_last(), Seq::empty())
        },
        Operation::Swap => if len == 0 {
            (Err(ForthError::StackUnderflow), s, Seq::empty())
        } else if len == 1 {
            (Err(ForthError::StackUnderflow), Seq::empty(), Seq::empty())
        } else {
            (Ok(()), s.take(len - 2).push(s[len - 1]).push(s[len - 2]), Seq::empty())
        },
        Operation::Over => if len == 0 {
            (Err(ForthError::StackUnderflow), s, Seq::empty())
        } else if len == 1 {
            (Err(ForthError::StackUnderflow), Seq::empty(), Seq::empty())
        } else if len >= cap {
            (Err(ForthError::StackOverflow), s, Seq::empty())
        } else {
            (Ok(()), s.push(s[len - 2]), Seq::empty())
        },
        Operation::Rot => if len == 0 {
            (Err(ForthError::StackUnderflow), s, Seq::empty())
        } else if len == 1 || len == 2 {
            (Err(ForthError::StackUnderflow), Seq::empty(), Seq::empty())
        } else {
            (
                Ok(()),
                s.take(len - 3).push(s[len - 2]).push(s[len - 1]).push(s[len - 3]),
                Seq::empty(),
            )
        },
        Operation::Dot => if len == 0 {
            (Err(ForthError::StackUnderflow), s, Seq::empty())
        } else {
            (Ok(()), s.drop_last(), seq![OutputItem::Number(s.last())])
        },
        Operation::Emit => if len == 0 {
            (Err(ForthError::StackUnderflow), s, Seq::empty())
        } else {
            (Ok(()), s.drop_last(), seq![OutputItem::Character(s.last() as u8)])
        },
        Operation::Not => if len == 0 {
            (Err(ForthError::StackUnderflow), s, Seq::empty())
        } else {
            (
                Ok(()),
                s.drop_last().push(
                    if s.last() == 0 {
                        1
                    } else {
                        0
                    },
                ),
                Seq::empty(),
            )
        },
        Operation::Cr => (Ok(()), s, seq![OutputItem::Newline]),
        Operation::If | Operation::Else | Operation::Then | Operation::IfElse => (
            Err(ForthError::ConditionalReachedExecution),
            s,
            Seq::empty(),
        ),
    }
}

impl Operation {
    /// Executes this operation against `stack`, appending any output it
    /// produces to `out`.  The effect on the stack, the output emitted and
    /// the result are exactly [`op_step`] of the old stack contents.
    pub fn execute(&self, stack: &mut Stack, out: &mut Vec<OutputItem>) -> (r: Result<
        (),
        ForthError,
    >)
        requires
            old(stack)@.len() <= old(stack).capacity(),
        ensures
            final(stack).capacity() == old(stack).capacity(),
            r == op_step(*self, old(stack)@, old(stack).capacity()).0,
            final(stack)@ == op_step(*self, old(stack)@, old(stack).capacity()).1,
            final(out)@ == old(out)@ + op_step(*self, old(stack)@, old(stack).capacity()).2,
    {
        let ghost s0 = stack@;
        let ghost cap = stack.capacity();
        match self {
            Operation::Add | Operation::Sub | Operation::Mul | Operation::Eq | Operation::Lt
                | Operation::Gt | Operation::And | Operation::Or => {
                let a = stack.pop()?;
                let b = stack.pop()?;
                proof {
                    assert(stack@ =~= s0.take(s0.len() - 2));
                }
                let v: i16 = match self {
                    Operation::Add => a.wrapping_add(b),
                    Operation::Sub => b.wrapping_sub(a),
                    Operation::Mul => a.wrapping_mul(b),
                    Operation::Eq => if a == b {
                        1
                    } else {
                        0
                    },
                    Operation::Lt => if b < a {
                        1
                    } else {
                        0
                    },
                    Operation::Gt => if b > a {
                        1
                    } else {
                        0
                    },
                    Operation::And => if a != 0 && b != 0 {
                        1
                    } else {
                        0
                    },
                    _ => if a != 0 || b != 0 {
                        1
                    } else {
                        0
                    },
                };
                stack.push(v)?;
                Ok(())
            },
            Operation::Div => {
                let a = stack.pop()?;
                let b = stack.pop()?;
                proof {
                    assert(stack@ =~= s0.take(s0.len() - 2));
                }
                if a == 0 {
                    return Err(ForthError::DivisionByZero);
                }
                let v: i16 = match b.checked_div(a) {
                    Some(q) => q,
                    None => i16::MIN,
                };
                stack.push(v)?;
                Ok(())
            },
            Operation::Dup => {
                let a = stack.pop()?;
                stack.push(a)?;
                proof {
                    assert(stack@ =~= s0);
                }
                stack.push(a)?;
                Ok(())
            },
            Operation::Drop => {
                stack.pop()?;
                Ok(())
            },
            Operation::Swap => {
                let a = stack.pop()?;
                let b = stack.pop()?;
                proof {
                    assert(stack@ =~= s0.take(s0.len() - 2));
                }
                stack.push(a)?;
                stack.push(b)?;
                Ok(())
            },
            Operation::Over => {
                let a = stack.pop()?;
                let b = stack.pop()?;
                proof {
                    assert(stack@ =~= s0.take(s0.len() - 2));
                }
                stack.push(b)?;
                stack.push(a)?;
                proof {
                    assert(stack@ =~= s0);
                }
                stack.push(b)?;
                Ok(())
            },
            Operation::Rot => {
                let a = stack.pop()?;
                let b = stack.pop()?;
                let c = stack.pop()?;
                proof {
                    assert(stack@ =~= s0.take(s0.len() - 3));
                }
                stack.push(b)?;
                stack.push(a)?;
                stack.push(c)?;
                Ok(())
            },
            Operation::Dot => {
                let a = stack.pop()?;
                out.push(OutputItem::Number(a));
                proof {
                    assert(out@ =~= old(out)@ + op_step(*self, s0, cap).2);
                }
                Ok(())
            },
            Operation::Emit => {
                let a = stack.pop()?;
                out.push(OutputItem::Character(a as u8));
                proof {
                    assert(out@ =~= old(out)@ + op_step(*self, s0, cap).2);
                }
                Ok(())
            },
            Operation::Not => {
                let a = stack.pop()?;
                stack.push(
                    if a == 0 {
                        1
                    } else {
                        0
                    },
                )?;
                Ok(())
            },
            Operation::Cr => {
                out.push(OutputItem::Newline);
                proof {
                    assert(out@ =~= old(out)@ + op_step(*self, s0, cap).2);
                }
                Ok(())
            },
            Operation::If | Operation::Else | Operation::Then | Operation::IfElse => {
                Err(ForthError::ConditionalReachedExecution)
            },
        }
    }
}

/// Division by zero always fails.  Whenever the divisor — the top-of-stack
/// operand — is zero, executing `Div` yields `DivisionByZero`, whatever the
/// dividend below it, and both operands stay popped.
pub proof fn lemma_div_by_zero(s: Seq<i16>, cap: nat)
    requires
        s.len() >= 2,
        s.last() == 0,
    ensures
        op_step(Operation::Div, s, cap).0 == Err::<(), ForthError>(ForthError::DivisionByZero),
        op_step(Operation::Div, s, cap).1 == s.take(s.len() - 2),
{
}

} // verus!
