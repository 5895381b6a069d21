use vstd::prelude::*;

use crate::builtins::op_step;
use crate::errors::ForthError;
use crate::output::OutputItem;
use crate::parser::Token;
use crate::parser::TokenView;
use crate::parser::lex;
use crate::parser::parse;
use crate::stack::DEFAULT_CAPACITY;
use crate::stack::Stack;
use crate::structure::conds_pass;
use crate::structure::defs_pass;
use crate::structure::resolve_conditionals;
use crate::structure::resolve_definitions;

verus! {

broadcast use vstd::seq_lib::group_seq_lib_default;

/// What a single forward pass over the tokens `ts` does to a stack holding
/// `s` (length at most `cap`) with the output items `out` already emitted:
/// a `Number` pushes its value, an `Operand` executes as [`op_step`] says,
/// and any other token shape fails with `UnexpectedToken`.  The first failure
/// stops the pass.
pub open spec fn exec_tokens(ts: Seq<TokenView>, s: Seq<i16>, cap: nat, out: Seq<OutputItem>) -> (
    Result<(), ForthError>,
    Seq<i16>,
    Seq<OutputItem>,
)
    decreases ts.len(),
{
    if ts.len() == 0 {
        (Ok(()), s, out)
    } else {
        let rest = ts.drop_first();
        match ts.first() {
            TokenView::Number(v) => if s.len() >= cap {
                (Err(ForthError::StackOverflow), s, out)
            } else {
                exec_tokens(rest, s.push(v), cap, out)
            },
            TokenView::Operand(op) => if op_step(op, s, cap).0 is Ok {
                exec_tokens(rest, op_step(op, s, cap).1, cap, out + op_step(op, s, cap).2)
            } else {
                (op_step(op, s, cap).0, op_step(op, s, cap).1, out + op_step(op, s, cap).2)
            },
            _ => (Err(ForthError::UnexpectedToken), s, out),
        }
    }
}

/// The whole pipeline on source text `src` against a stack holding `stack0`
/// with capacity `cap`: lexing, the definitions pass, the conditionals pass,
/// then execution.  A failing stage stops the run with the stack unchanged
/// and nothing emitted.
pub open spec fn run_model(src: Seq<char>, stack0: Seq<i16>, cap: nat) -> (
    Result<(), ForthError>,
    Seq<i16>,
    Seq<OutputItem>,
) {
    match lex(src) {
        Err(e) => (Err(e), stack0, Seq::empty()),
        Ok(toks) => match defs_pass(toks) {
            Err(e) => (Err(e), stack0, Seq::empty()),
            Ok(t2) => match conds_pass(t2) {
                Err(e) => (Err(e), stack0, Seq::empty()),
                Ok(t3) => exec_tokens(t3, stack0, cap, Seq::empty()),
            },
        },
    }
}

/// Drives the pipeline end to end and executes token sequences against one
/// stack that it owns for its whole lifetime, collecting the output the
/// program produces.
pub struct Interpreter {
    stack: Stack,
    output: Vec<OutputItem>,
}

impl Interpreter {
    /// The values on the interpreter's stack, bottom to top.
    pub closed spec fn stack_view(self) -> Seq<i16> {
        self.stack@
    }

    /// The capacity of the interpreter's stack.
    pub closed spec fn capacity(self) -> nat {
        self.stack.capacity()
    }

    /// The output items collected so far, in the order they were emitted.
    pub closed spec fn output_view(self) -> Seq<OutputItem> {
        self.output@
    }

    /// The stack never holds more values than its capacity.  Construction
    /// establishes this and every method preserves it.
    pub open spec fn wf(self) -> bool {
        self.stack_view().len() <= self.capacity()
    }

    /// A new interpreter with an empty stack of the given capacity, or of the
    /// default capacity when none is given.
    pub fn new(stack_size: Option<usize>) -> (it: Self)
        ensures
            it.stack_view() == Seq::<i16>::empty(),
            it.output_view() == Seq::<OutputItem>::empty(),
            it.capacity() == (match stack_size {
                Some(n) => n as nat,
                None => DEFAULT_CAPACITY as nat,
            }),
            it.wf(),
    {
        let size: usize = match stack_size {
            Some(n) => n,
            None => DEFAULT_CAPACITY,
        };
        Interpreter { stack: Stack::new(size), output: Vec::new() }
    }

    /// Executes a token sequence in order against the interpreter's stack:
    /// exactly [`exec_tokens`] of the tokens' views.  Values popped before a
    /// failure stay popped, and output emitted before it stays collected.
    #[verifier::loop_isolation(false)]
    pub fn execute(&mut self, tokens: Vec<Token>) -> (r: Result<(), ForthError>)
        requires
            old(self).wf(),
        ensures
            final(self).wf(),
            final(self).capacity() == old(self).capacity(),
            r == exec_tokens(
                tokens.deep_view(),
                old(self).stack_view(),
                old(self).capacity(),
                Seq::empty(),
            ).0,
            final(self).stack_view() == exec_tokens(
                tokens.deep_view(),
                old(self).stack_view(),
                old(self).capacity(),
                Seq::empty(),
            ).1,
            final(self).output_view() == old(self).output_view() + exec_tokens(
                tokens.deep_view(),
                old(self).stack_view(),
                old(self).capacity(),
                Seq::empty(),
            ).2,
    {
        let ghost orig = tokens.deep_view();
        let ghost s0 = self.stack@;
        let ghost cap = self.stack.capacity();
        let ghost out0 = self.output@;
        let mut tokens = tokens;
        proof {
            assert(self.output@.skip(out0.len() as int) =~= Seq::<OutputItem>::empty());
        }
        while tokens.len() > 0
            invariant
                self.stack@.len() <= self.stack.capacity(),
                self.stack.capacity() == cap,
                out0.len() <= self.output@.len(),
                out0 == self.output@.take(out0.len() as int),
                exec_tokens(orig, s0, cap, Seq::empty()) == exec_tokens(
                    tokens.deep_view(),
                    self.stack@,
                    cap,
                    self.output@.skip(out0.len() as int),
                ),
            decreases tokens@.len(),
        {
            let ghost tdv = tokens.deep_view();
            let ghost scur = self.stack@;
            let ghost ocur = self.output@;
            let t = tokens.remove(0);
            proof {
                assert(tokens.deep_view() =~= tdv.drop_first());
                assert(t.deep_view() == tdv.first());
            }
            match t {
                Token::Number(v) => {
                    match self.stack.push(v) {
                        Ok(_) => {},
                        Err(e) => {
                            proof {
                                assert(self.output@ =~= out0 + self.output@.skip(
                                    out0.len() as int,
                                ));
                            }
                            return Err(e);
                        },
                    }
                },
                Token::Operand(op) => {
                    let step = op.execute(&mut self.stack, &mut self.output);
                    proof {
                        assert(self.output@.skip(out0.len() as int) =~= ocur.skip(
                            out0.len() as int,
                        ) + op_step(op, scur, cap).2);
                        assert(out0 =~= self.output@.take(out0.len() as int));
                    }
                    match step {
                        Ok(_) => {},
                        Err(e) => {
                            proof {
                                assert(self.output@ =~= out0 + self.output@.skip(
                                    out0.len() as int,
                                ));
                            }
                            return Err(e);
                        },
                    }
                },
                _ => {
                    proof {
                        assert(self.output@ =~= out0 + self.output@.skip(out0.len() as int));
                    }
                    return Err(ForthError::UnexpectedToken);
                },
            }
        }
        proof {
            assert(tokens.deep_view().len() == 0);
            assert(self.output@ =~= out0 + self.output@.skip(out0.len() as int));
        }
        Ok(())
    }

    /// Runs a program: tokenizes `input`, resolves definitions, resolves
    /// conditionals, and executes the result, leaving the final stack and the
    /// collected output in the interpreter.  The behaviour is exactly
    /// [`run_model`] of the input and the old stack.
    pub fn run(&mut self, input: &str) -> (r: Result<(), ForthError>)
        requires
            old(self).wf(),
        ensures
            final(self).wf(),
            final(self).capacity() == old(self).capacity(),
            r == run_model(input@, old(self).stack_view(), old(self).capacity()).0,
            final(self).stack_view() == run_model(
                input@,
                old(self).stack_view(),
                old(self).capacity(),
            ).1,
            final(self).output_view() == old(self).output_view() + run_model(
                input@,
                old(self).stack_view(),
                old(self).capacity(),
            ).2,
    {
        let tokens = match parse(input) {
            Ok(t) => t,
            Err(e) => {
                return Err(e);
            },
        };
        let defined = match resolve_definitions(tokens) {
            Ok(t) => t,
            Err(e) => {
                return Err(e);
            },
        };
        let resolved = match resolve_conditionals(defined) {
            Ok(t) => t,
            Err(e) => {
                return Err(e);
            },
        };
        self.execute(resolved)
    }

    /// The final stack contents, bottom to top; the stack is reset to empty.
    pub fn get_stack_contents(&mut self) -> (contents: Vec<i16>)
        ensures
            contents@ == old(self).stack_view(),
            final(self).stack_view() == Seq::<i16>::empty(),
            final(self).capacity() == old(self).capacity(),
            final(self).output_view() == old(self).output_view(),
            final(self).wf(),
    {
        self.stack.get_contents()
    }

    /// The output items collected so far; the collected output is reset to
    /// empty.
    pub fn take_output(&mut self) -> (out: Vec<OutputItem>)
        ensures
            out@ == old(self).output_view(),
            final(self).output_view() == Seq::<OutputItem>::empty(),
            final(self).stack_view() == old(self).stack_view(),
            final(self).capacity() == old(self).capacity(),
            old(self).wf() ==> final(self).wf(),
    {
        let mut taken: Vec<OutputItem> = Vec::new();
        core::mem::swap(&mut self.output, &mut taken);
        taken
    }
}

} // verus!
