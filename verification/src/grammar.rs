//! The grammar, as functions from a sequence of lexemes to a result.
//!
//! ```text
//! top        := (definition | extern | expression | ';')*
//! definition := 'def' prototype expression
//! extern     := 'extern' prototype
//! prototype  := Identifier '(' Identifier* ')'
//! expression := primary binoprhs
//! primary    := Identifier ['(' (expression (',' expression)*)? ')']
//!             | Number
//!             | '(' expression ')'
//! binoprhs   := (binop primary)*
//! ```
//!
//! Each function takes the lexemes that are still to be read, the first of
//! which is the parser's lookahead, and gives what is parsed from their front
//! together with the lexemes that are left.

use vstd::prelude::*;
use crate::ast::{ExprView, FunctionView, PrototypeView, UnitView};
use crate::error::{Expected, ParseErrorView};
use crate::token::{Lexeme, TokenView};

verus! {

/// The binding strength of a binary operator, or `None` for a character that
/// is no binary operator. A higher value binds tighter.
#[verifier::allow_in_spec]
pub fn precedence(op: char) -> Option<u32>
    returns
        (if op == '<' {
            Some(10u32)
        } else if op == '+' || op == '-' {
            Some(20u32)
        } else if op == '*' {
            Some(40u32)
        } else {
            None
        }),
{
    if op == '<' {
        Some(10u32)
    } else if op == '+' || op == '-' {
        Some(20u32)
    } else if op == '*' {
        Some(40u32)
    } else {
        None
    }
}

/// The outcome of reading one construct from the front of a sequence of
/// lexemes: the value or the failure, and the lexemes that are left. After a
/// failure the first lexeme left is the one that was refused.
pub struct Parsed<T> {
    pub outcome: Result<T, ParseErrorView>,
    pub rest: Seq<Lexeme>,
}

/// The lookahead token, or `None` at the end of the input and at a malformed
/// literal.
pub open spec fn head(s: Seq<Lexeme>) -> Option<TokenView> {
    if s.len() > 0 {
        match s[0] {
            Ok(token) => Some(token),
            Err(_) => None,
        }
    } else {
        None
    }
}

/// Whether the lookahead is the symbol `c`.
pub open spec fn symbol_ahead(s: Seq<Lexeme>, c: char) -> bool {
    head(s) == Some(TokenView::Symbol(c))
}

/// The binary operator at the lookahead, with its precedence.
pub open spec fn operator_ahead(s: Seq<Lexeme>) -> Option<(char, u32)> {
    match head(s) {
        Some(TokenView::Symbol(c)) => match precedence(c) {
            Some(p) => Some((c, p)),
            None => None,
        },
        _ => None,
    }
}

/// The failure reported where the grammar asks for `expected` and the
/// lookahead is something else: the malformed literal if the lookahead is one,
/// else the unexpected token or end of input.
pub open spec fn refusal(s: Seq<Lexeme>, expected: Expected) -> ParseErrorView {
    if s.len() > 0 {
        match s[0] {
            Ok(token) => ParseErrorView::Unexpected { found: Some(token), expected },
            Err(literal) => ParseErrorView::Lex(literal),
        }
    } else {
        ParseErrorView::Unexpected { found: None, expected }
    }
}

/// The outcome of refusing the lookahead.
pub open spec fn refuse<T>(s: Seq<Lexeme>, expected: Expected) -> Parsed<T> {
    Parsed { outcome: Err(refusal(s, expected)), rest: s }
}

/// Whether the outcome `p` has read at least one lexeme of `s`.
///
/// Every successful outcome of the functions below has, as the module
/// `progress` shows. The definitions test it where they go on with what is
/// left, which is what shows that they terminate.
pub open spec fn advanced<T>(p: Parsed<T>, s: Seq<Lexeme>) -> bool {
    p.rest.len() < s.len()
}

/// expression := primary binoprhs
pub open spec fn expression(s: Seq<Lexeme>) -> Parsed<ExprView>
    decreases s.len(), 2int,
{
    let first = primary(s);
    match first.outcome {
        Ok(lhs) if advanced(first, s) => binoprhs(first.rest, lhs, 0),
        _ => first,
    }
}

/// primary := Identifier ['(' arguments] | Number | '(' expression ')'
///
/// An identifier directly followed by `(` is a call, any other identifier is a
/// variable.
pub open spec fn primary(s: Seq<Lexeme>) -> Parsed<ExprView>
    decreases s.len(), 1int,
{
    match head(s) {
        Some(TokenView::Identifier(name)) => {
            let after_name = s.drop_first();
            if symbol_ahead(after_name, '(') {
                let after_paren = after_name.drop_first();
                if symbol_ahead(after_paren, ')') {
                    Parsed {
                        outcome: Ok(ExprView::Call { callee: name, args: Seq::empty() }),
                        rest: after_paren.drop_first(),
                    }
                } else {
                    let list = arguments(after_paren, Seq::empty());
                    Parsed {
                        outcome: match list.outcome {
                            Ok(args) => Ok(ExprView::Call { callee: name, args }),
                            Err(error) => Err(error),
                        },
                        rest: list.rest,
                    }
                }
            } else {
                Parsed { outcome: Ok(ExprView::Variable(name)), rest: after_name }
            }
        },
        Some(TokenView::Number(text)) => Parsed {
            outcome: Ok(ExprView::Number(text)),
            rest: s.drop_first(),
        },
        Some(TokenView::Symbol('(')) => {
            let inner = expression(s.drop_first());
            if inner.outcome is Ok {
                if symbol_ahead(inner.rest, ')') {
                    Parsed { outcome: inner.outcome, rest: inner.rest.drop_first() }
                } else {
                    refuse(inner.rest, Expected::Symbol(')'))
                }
            } else {
                inner
            }
        },
        _ => refuse(s, Expected::Primary),
    }
}

/// The arguments of a call, read behind its `(` or behind a `,`, up to and
/// with the closing `)`: expression (',' expression)* ')'. The arguments read
/// before are in `seen`.
///
/// A comma stands between two arguments only: a leading, doubled or trailing
/// comma is refused, and so is an argument that follows another without a
/// comma.
pub open spec fn arguments(s: Seq<Lexeme>, seen: Seq<ExprView>) -> Parsed<Seq<ExprView>>
    decreases s.len(), 3int,
{
    let next = expression(s);
    match next.outcome {
        Ok(arg) => {
            if symbol_ahead(next.rest, ')') {
                Parsed { outcome: Ok(seen.push(arg)), rest: next.rest.drop_first() }
            } else if symbol_ahead(next.rest, ',') && advanced(next, s) {
                arguments(next.rest.drop_first(), seen.push(arg))
            } else {
                refuse(next.rest, Expected::ArgumentEnd)
            }
        },
        Err(error) => Parsed { outcome: Err(error), rest: next.rest },
    }
}

/// binoprhs := (binop primary)*, by precedence climbing.
///
/// While the lookahead is an operator that binds at least as tightly as `min`,
/// the operator and one primary are read. If the operator behind that primary
/// binds tighter than the one just read, it takes the primary as its own
/// left-hand side first. The operation becomes the new left-hand side.
pub open spec fn binoprhs(s: Seq<Lexeme>, lhs: ExprView, min: u32) -> Parsed<ExprView>
    decreases s.len(), 0int,
{
    match operator_ahead(s) {
        Some((op, prec)) if prec >= min => {
            let operand = primary(s.drop_first());
            match operand.outcome {
                Ok(rhs) if advanced(operand, s) => {
                    let right = match operator_ahead(operand.rest) {
                        Some((_, next)) if next > prec => binoprhs(
                            operand.rest,
                            rhs,
                            (prec + 1) as u32,
                        ),
                        _ => operand,
                    };
                    match right.outcome {
                        Ok(rhs) if advanced(right, s) => binoprhs(
                            right.rest,
                            ExprView::Binary { op, lhs: Box::new(lhs), rhs: Box::new(rhs) },
                            min,
                        ),
                        _ => right,
                    }
                },
                _ => operand,
            }
        },
        _ => Parsed { outcome: Ok(lhs), rest: s },
    }
}

/// The parameter names of a prototype, read behind its `(` up to and with the
/// closing `)`: Identifier* ')'. The names read before are in `seen`.
pub open spec fn parameters(s: Seq<Lexeme>, seen: Seq<Seq<char>>) -> Parsed<Seq<Seq<char>>>
    decreases s.len(),
{
    match head(s) {
        Some(TokenView::Identifier(name)) => parameters(s.drop_first(), seen.push(name)),
        Some(TokenView::Symbol(')')) => Parsed { outcome: Ok(seen), rest: s.drop_first() },
        _ => refuse(s, Expected::Symbol(')')),
    }
}

/// prototype := Identifier '(' Identifier* ')'
pub open spec fn prototype(s: Seq<Lexeme>) -> Parsed<PrototypeView> {
    match head(s) {
        Some(TokenView::Identifier(name)) => {
            let after_name = s.drop_first();
            if symbol_ahead(after_name, '(') {
                let list = parameters(after_name.drop_first(), Seq::empty());
                Parsed {
                    outcome: match list.outcome {
                        Ok(params) => Ok(PrototypeView { name, params }),
                        Err(error) => Err(error),
                    },
                    rest: list.rest,
                }
            } else {
                refuse(after_name, Expected::Symbol('('))
            }
        },
        _ => refuse(s, Expected::Identifier),
    }
}

/// definition := 'def' prototype expression
pub open spec fn definition(s: Seq<Lexeme>) -> Parsed<FunctionView> {
    if head(s) == Some(TokenView::Def) {
        let proto = prototype(s.drop_first());
        match proto.outcome {
            Ok(p) => {
                let body = expression(proto.rest);
                Parsed {
                    outcome: match body.outcome {
                        Ok(e) => Ok(FunctionView { proto: p, body: e }),
                        Err(error) => Err(error),
                    },
                    rest: body.rest,
                }
            },
            Err(error) => Parsed { outcome: Err(error), rest: proto.rest },
        }
    } else {
        refuse(s, Expected::Def)
    }
}

/// extern := 'extern' prototype
pub open spec fn external(s: Seq<Lexeme>) -> Parsed<PrototypeView> {
    if head(s) == Some(TokenView::Extern) {
        prototype(s.drop_first())
    } else {
        refuse(s, Expected::Extern)
    }
}

/// What is left of `s` behind the semicolons at its front.
pub open spec fn skip_semicolons(s: Seq<Lexeme>) -> Seq<Lexeme>
    decreases s.len(),
{
    if symbol_ahead(s, ';') {
        skip_semicolons(s.drop_first())
    } else {
        s
    }
}

/// The next top-level unit: behind any semicolons, a definition where the
/// lookahead is `def`, an extern declaration where it is `extern`, nothing at
/// the end of the input, and a standalone expression otherwise.
pub open spec fn unit(s: Seq<Lexeme>) -> Parsed<Option<UnitView>> {
    let t = skip_semicolons(s);
    if t.len() == 0 {
        Parsed { outcome: Ok(None), rest: t }
    } else if head(t) == Some(TokenView::Def) {
        let d = definition(t);
        Parsed {
            outcome: match d.outcome {
                Ok(function) => Ok(Some(UnitView::Definition(function))),
                Err(error) => Err(error),
            },
            rest: d.rest,
        }
    } else if head(t) == Some(TokenView::Extern) {
        let x = external(t);
        Parsed {
            outcome: match x.outcome {
                Ok(proto) => Ok(Some(UnitView::Extern(proto))),
                Err(error) => Err(error),
            },
            rest: x.rest,
        }
    } else {
        let e = expression(t);
        Parsed {
            outcome: match e.outcome {
                Ok(expr) => Ok(Some(UnitView::Expression(expr))),
                Err(error) => Err(error),
            },
            rest: e.rest,
        }
    }
}

/// top := (definition | extern | expression | ';')*
///
/// The units of the whole input in source order, or the first failure.
pub open spec fn program(s: Seq<Lexeme>) -> Parsed<Seq<UnitView>>
    decreases s.len(),
{
    let first = unit(s);
    match first.outcome {
        Ok(Some(u)) if advanced(first, s) => {
            let others = program(first.rest);
            Parsed {
                outcome: match others.outcome {
                    Ok(units) => Ok(seq![u] + units),
                    Err(error) => Err(error),
                },
                rest: others.rest,
            }
        },
        Ok(_) => Parsed { outcome: Ok(Seq::empty()), rest: first.rest },
        Err(error) => Parsed { outcome: Err(error), rest: first.rest },
    }
}

} // verus!
