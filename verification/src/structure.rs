use vstd::prelude::*;

use crate::builtins::Operation;
use crate::errors::ForthError;
use crate::parser::Token;
use crate::parser::TokenView;
use crate::parser::tokens_view;
use vstd::string::StringExecFns;

verus! {

broadcast use vstd::seq_lib::group_seq_lib_default;

/// One step of the definitions pass: a linear fold over the tokens `ts` with
/// the parser state carried by value.  While `defining` holds a definition is
/// open; `named` says whether its name has been seen; `name` and `body`
/// accumulate it; `acc` holds the tokens already emitted.  A completed
/// definition is emitted as a `Word` marker `DEFINE_<NAME>` immediately
/// followed by the body tokens, inlined at the definition site.
pub open spec fn defs_step(
    ts: Seq<TokenView>,
    defining: bool,
    named: bool,
    name: Seq<char>,
    body: Seq<TokenView>,
    acc: Seq<TokenView>,
) -> Result<Seq<TokenView>, ForthError>
    decreases ts.len(),
{
    if ts.len() == 0 {
        if defining {
            Err(ForthError::UnterminatedWordDefinition)
        } else {
            Ok(acc)
        }
    } else {
        let t = ts.first();
        let rest = ts.drop_first();
        match t {
            TokenView::DefStart => if defining {
                Err(ForthError::NestedWordDefinition)
            } else {
                defs_step(rest, true, false, Seq::empty(), Seq::empty(), acc)
            },
            TokenView::DefEnd => if !defining {
                Err(ForthError::UnexpectedDefinitionEnd)
            } else if !named {
                Err(ForthError::InvalidWord)
            } else {
                defs_step(
                    rest,
                    false,
                    false,
                    Seq::empty(),
                    Seq::empty(),
                    acc.push(TokenView::Word("DEFINE_"@ + name)) + body,
                )
            },
            _ => if defining && !named {
                match t {
                    TokenView::Word(w) => defs_step(rest, true, true, w, body, acc),
                    _ => Err(ForthError::InvalidWord),
                }
            } else if defining {
                defs_step(rest, defining, named, name, body.push(t), acc)
            } else {
                defs_step(rest, false, false, name, body, acc.push(t))
            },
        }
    }
}

/// The definitions pass over a token sequence; see [`defs_step`].
pub open spec fn defs_pass(ts: Seq<TokenView>) -> Result<Seq<TokenView>, ForthError> {
    defs_step(ts, false, false, Seq::empty(), Seq::empty(), Seq::empty())
}

/// Resolves word definitions: `: NAME body ;` becomes a `Word` token
/// `DEFINE_<NAME>` immediately followed by the body tokens.  Fails with
/// `NestedWordDefinition` for a `:` inside a definition, `InvalidWord` for a
/// name position holding anything but a bare word, `UnexpectedDefinitionEnd`
/// for a `;` outside a definition, and `UnterminatedWordDefinition` for a
/// definition still open at the end of input.  The result is exactly
/// [`defs_pass`] of the input's views.
#[verifier::loop_isolation(false)]
pub fn resolve_definitions(tokens: Vec<Token>) -> (r: Result<Vec<Token>, ForthError>)
    ensures
        tokens_view(r) == defs_pass(tokens.deep_view()),
{
    let ghost orig = tokens.deep_view();
    let mut tokens = tokens;
    let mut out: Vec<Token> = Vec::new();
    let mut defining: bool = false;
    let mut named: bool = false;
    let mut name: String = String::new();
    let mut body: Vec<Token> = Vec::new();
    proof {
        assert(out.deep_view() =~= Seq::<TokenView>::empty());
        assert(body.deep_view() =~= Seq::<TokenView>::empty());
    }
    while tokens.len() > 0
        invariant
            defs_pass(orig) == defs_step(
                tokens.deep_view(),
                defining,
                named,
                name@,
                body.deep_view(),
                out.deep_view(),
            ),
        decreases tokens@.len(),
    {
        let ghost tdv = tokens.deep_view();
        let t = tokens.remove(0);
        proof {
            assert(tokens.deep_view() =~= tdv.drop_first());
            assert(t.deep_view() == tdv.first());
        }
        match t {
            Token::DefStart => {
                if defining {
                    return Err(ForthError::NestedWordDefinition);
                }
                defining = true;
                named = false;
                name = String::new();
                body = Vec::new();
                proof {
                    assert(body.deep_view() =~= Seq::<TokenView>::empty());
                }
            },
            Token::DefEnd => {
                if !defining {
                    return Err(ForthError::UnexpectedDefinitionEnd);
                }
                if !named {
                    return Err(ForthError::InvalidWord);
                }
                let ghost odv = out.deep_view();
                let ghost bdv = body.deep_view();
                let ghost nv = name@;
                let mut marker = String::from_str("DEFINE_");
                marker.append(name.as_str());
                out.push(Token::Word(marker));
                out.append(&mut body);
                proof {
                    assert(out.deep_view() =~~= odv.push(TokenView::Word("DEFINE_"@ + nv)) + bdv);
                    assert(body.deep_view() =~= Seq::<TokenView>::empty());
                }
                defining = false;
                named = false;
                name = String::new();
            },
            other => {
                if defining && !named {
                    match other {
                        Token::Word(w) => {
                            name = w;
                            named = true;
                        },
                        _ => {
                            return Err(ForthError::InvalidWord);
                        },
                    }
                } else if defining {
                    let ghost bdv = body.deep_view();
                    body.push(other);
                    proof {
                        assert(body.deep_view() =~= bdv.push(tdv.first()));
                    }
                } else {
                    let ghost odv = out.deep_view();
                    out.push(other);
                    proof {
                        assert(out.deep_view() =~= odv.push(tdv.first()));
                    }
                }
            },
        }
    }
    if defining {
        return Err(ForthError::UnterminatedWordDefinition);
    }
    Ok(out)
}

/// One step of the conditionals pass: a linear fold over the tokens `ts`.
/// `pending` stacks each open conditional as the position of its emitted `IF`
/// in `acc` together with whether it has seen an `ELSE`; `acc` holds the
/// tokens already emitted.  When an `ELSE` arrives, the `IF` emitted for the
/// innermost pending conditional is rewritten to `IF_ELSE`, which is how a
/// two-branch conditional is later told apart from a one-branch one.
pub open spec fn conds_step(
    ts: Seq<TokenView>,
    pending: Seq<(usize, bool)>,
    acc: Seq<TokenView>,
) -> Result<Seq<TokenView>, ForthError>
    decreases ts.len(),
{
    if ts.len() == 0 {
        if pending.len() == 0 {
            Ok(acc)
        } else {
            Err(ForthError::UnterminatedIf)
        }
    } else {
        let t = ts.first();
        let rest = ts.drop_first();
        if t == TokenView::Operand(Operation::If) {
            conds_step(rest, pending.push((acc.len() as usize, false)), acc.push(t))
        } else if t == TokenView::Operand(Operation::Else) {
            if pending.len() == 0 {
                Err(ForthError::UnexpectedElse)
            } else if pending.last().1 {
                Err(ForthError::DuplicateElse)
            } else {
                conds_step(
                    rest,
                    pending.update(pending.len() - 1, (pending.last().0, true)),
                    acc.update(
                        pending.last().0 as int,
                        TokenView::Operand(Operation::IfElse),
                    ).push(t),
                )
            }
        } else if t == TokenView::Operand(Operation::Then) {
            if pending.len() == 0 {
                Err(ForthError::UnexpectedThen)
            } else {
                conds_step(rest, pending.drop_last(), acc.push(t))
            }
        } else {
            conds_step(rest, pending, acc.push(t))
        }
    }
}

/// The conditionals pass over a token sequence; see [`conds_step`].
pub open spec fn conds_pass(ts: Seq<TokenView>) -> Result<Seq<TokenView>, ForthError> {
    conds_step(ts, Seq::empty(), Seq::empty())
}

/// Resolves conditional markers, supporting nesting: each `IF` opens a
/// pending conditional; an `ELSE` marks the innermost one and rewrites its
/// emitted `IF` to `IF_ELSE`; a `THEN` closes it.  Fails with
/// `UnexpectedElse` or `UnexpectedThen` where no conditional is open,
/// `DuplicateElse` for a second `ELSE` of the same conditional, and
/// `UnterminatedIf` for one still open at the end of input.  The result is
/// exactly [`conds_pass`] of the input's views.
#[verifier::loop_isolation(false)]
pub fn resolve_conditionals(tokens: Vec<Token>) -> (r: Result<Vec<Token>, ForthError>)
    ensures
        tokens_view(r) == conds_pass(tokens.deep_view()),
{
    let ghost orig = tokens.deep_view();
    let mut tokens = tokens;
    let mut out: Vec<Token> = Vec::new();
    let mut pending: Vec<(usize, bool)> = Vec::new();
    proof {
        assert(out.deep_view() =~= Seq::<TokenView>::empty());
        assert(pending@ =~= Seq::<(usize, bool)>::empty());
    }
    while tokens.len() > 0
        invariant
            conds_pass(orig) == conds_step(tokens.deep_view(), pending@, out.deep_view()),
            forall|j: int| 0 <= j < pending@.len() ==> (#[trigger] pending@[j]).0 < out@.len(),
        decreases tokens@.len(),
    {
        let ghost tdv = tokens.deep_view();
        let t = tokens.remove(0);
        proof {
            assert(tokens.deep_view() =~= tdv.drop_first());
            assert(t.deep_view() == tdv.first());
        }
        match t {
            Token::Operand(op) => {
                if op == Operation::If {
                    let ghost odv = out.deep_view();
                    pending.push((out.len(), false));
                    out.push(Token::Operand(Operation::If));
                    proof {
                        assert(out.deep_view() =~= odv.push(tdv.first()));
                    }
                } else if op == Operation::Else {
                    let plen: usize = pending.len();
                    if plen == 0 {
                        return Err(ForthError::UnexpectedElse);
                    }
                    let (idx, seen) = pending[plen - 1];
                    if seen {
                        return Err(ForthError::DuplicateElse);
                    }
                    let ghost odv = out.deep_view();
                    pending.set(plen - 1, (idx, true));
                    out.set(idx, Token::Operand(Operation::IfElse));
                    out.push(Token::Operand(Operation::Else));
                    proof {
                        assert(out.deep_view() =~= odv.update(
                            idx as int,
                            TokenView::Operand(Operation::IfElse),
                        ).push(tdv.first()));
                    }
                } else if op == Operation::Then {
                    if pending.len() == 0 {
                        return Err(ForthError::UnexpectedThen);
                    }
                    let ghost odv = out.deep_view();
                    let _popped = pending.pop();
                    out.push(Token::Operand(Operation::Then));
                    proof {
                        assert(out.deep_view() =~= odv.push(tdv.first()));
                    }
                } else {
                    let ghost odv = out.deep_view();
                    out.push(Token::Operand(op));
                    proof {
                        assert(out.deep_view() =~= odv.push(tdv.first()));
                    }
                }
            },
            other => {
                let ghost odv = out.deep_view();
                out.push(other);
                proof {
                    assert(out.deep_view() =~= odv.push(tdv.first()));
                }
            },
        }
    }
    if pending.len() > 0 {
        return Err(ForthError::UnterminatedIf);
    }
    Ok(out)
}

} // verus!
