//! What the grammar yields: trees whose operators are all in the precedence
//! table, and failures that report the lexeme at which the parser stopped.

use vstd::prelude::*;
use crate::ast::{all_operators_known, ExprView, FunctionView, PrototypeView};
use crate::error::{Expected, ParseErrorView};
use crate::grammar::{
    advanced, arguments, binoprhs, definition, expression, external, head, operator_ahead,
    parameters, primary, program, prototype, refusal, refuse, skip_semicolons, symbol_ahead, unit,
    Parsed,
};
use crate::token::{Lexeme, TokenView};

verus! {

/// A primary expression that is parsed holds no binary operation whose
/// operator the precedence table lacks.
pub proof fn lemma_primary_operators(s: Seq<Lexeme>)
    ensures
        primary(s).outcome matches Ok(e) ==> e.operators_known(),
    decreases s.len(), 1int,
{
    match head(s) {
        Some(TokenView::Identifier(name)) => {
            let after_name = s.drop_first();
            if symbol_ahead(after_name, '(') {
                let after_paren = after_name.drop_first();
                if !symbol_ahead(after_paren, ')') {
                    lemma_arguments_operators(after_paren, Seq::empty());
                }
            }
        },
        Some(TokenView::Symbol('(')) => {
            lemma_expression_operators(s.drop_first());
        },
        _ => {},
    }
}

/// An expression that is parsed holds no binary operation whose operator the
/// precedence table lacks.
pub proof fn lemma_expression_operators(s: Seq<Lexeme>)
    ensures
        expression(s).outcome matches Ok(e) ==> e.operators_known(),
    decreases s.len(), 2int,
{
    lemma_primary_operators(s);
    let first = primary(s);
    match first.outcome {
        Ok(lhs) if advanced(first, s) => {
            lemma_binoprhs_operators(first.rest, lhs, 0);
        },
        _ => {},
    }
}

/// The arguments that are parsed hold no binary operation whose operator the
/// precedence table lacks, if those read before hold none.
pub proof fn lemma_arguments_operators(s: Seq<Lexeme>, seen: Seq<ExprView>)
    requires
        all_operators_known(seen),
    ensures
        arguments(s, seen).outcome matches Ok(args) ==> all_operators_known(args),
    decreases s.len(), 3int,
{
    lemma_expression_operators(s);
    let next = expression(s);
    match next.outcome {
        Ok(arg) => {
            if !symbol_ahead(next.rest, ')') && symbol_ahead(next.rest, ',') && advanced(next, s) {
                lemma_arguments_operators(next.rest.drop_first(), seen.push(arg));
            }
        },
        _ => {},
    }
}

/// The operations parsed behind a left-hand side hold no binary operation
/// whose operator the precedence table lacks, if the left-hand side holds none.
pub proof fn lemma_binoprhs_operators(s: Seq<Lexeme>, lhs: ExprView, min: u32)
    requires
        lhs.operators_known(),
    ensures
        binoprhs(s, lhs, min).outcome matches Ok(e) ==> e.operators_known(),
    decreases s.len(), 0int,
{
    match operator_ahead(s) {
        Some((op, prec)) if prec >= min => {
            lemma_primary_operators(s.drop_first());
            let operand = primary(s.drop_first());
            match operand.outcome {
                Ok(rhs) if advanced(operand, s) => {
                    let right = match operator_ahead(operand.rest) {
                        Some((_, next)) if next > prec => {
                            lemma_binoprhs_operators(operand.rest, rhs, (prec + 1) as u32);
                            binoprhs(operand.rest, rhs, (prec + 1) as u32)
                        },
                        _ => operand,
                    };
                    match right.outcome {
                        Ok(rhs) if advanced(right, s) => {
                            lemma_binoprhs_operators(
                                right.rest,
                                ExprView::Binary { op, lhs: Box::new(lhs), rhs: Box::new(rhs) },
                                min,
                            );
                        },
                        _ => {},
                    }
                },
                _ => {},
            }
        },
        _ => {},
    }
}

/// A top-level unit that is parsed holds no binary operation whose operator
/// the precedence table lacks.
pub proof fn lemma_unit_operators(s: Seq<Lexeme>)
    ensures
        unit(s).outcome matches Ok(Some(u)) ==> u.operators_known(),
{
    let t = skip_semicolons(s);
    if t.len() > 0 {
        if head(t) == Some(TokenView::Def) {
            let proto = prototype(t.drop_first());
            if proto.outcome is Ok {
                lemma_expression_operators(proto.rest);
            }
        } else if head(t) != Some(TokenView::Extern) {
            lemma_expression_operators(t);
        }
    }
}

/// The units of a program that is parsed hold no binary operation whose
/// operator the precedence table lacks.
pub proof fn lemma_program_operators(s: Seq<Lexeme>)
    ensures
        program(s).outcome matches Ok(units) ==> forall|i: int|
            0 <= i < units.len() ==> (#[trigger] units[i]).operators_known(),
    decreases s.len(),
{
    lemma_unit_operators(s);
    let first = unit(s);
    match first.outcome {
        Ok(Some(u)) if advanced(first, s) => {
            lemma_program_operators(first.rest);
        },
        _ => {},
    }
}

/// Whether `error` is the failure of refusing the first lexeme of `rest`, or
/// the end of the input where `rest` is empty.
pub open spec fn reports(error: ParseErrorView, rest: Seq<Lexeme>) -> bool {
    exists|expected: Expected| error == #[trigger] refusal(rest, expected)
}

/// Whether an outcome that is a failure reports the lexeme at which it
/// stopped.
pub open spec fn fails_at_rest<T>(p: Parsed<T>) -> bool {
    p.outcome matches Err(error) ==> reports(error, p.rest)
}

/// A primary expression that cannot be read fails at the lexeme that is
/// refused, which is then the first one left.
pub proof fn lemma_primary_fails_at_rest(s: Seq<Lexeme>)
    ensures
        fails_at_rest(primary(s)),
    decreases s.len(), 1int,
{
    match head(s) {
        Some(TokenView::Identifier(name)) => {
            let after_name = s.drop_first();
            if symbol_ahead(after_name, '(') {
                let after_paren = after_name.drop_first();
                if !symbol_ahead(after_paren, ')') {
                    lemma_arguments_fail_at_rest(after_paren, Seq::empty());
                }
            }
        },
        Some(TokenView::Symbol('(')) => {
            lemma_expression_fails_at_rest(s.drop_first());
            let inner = expression(s.drop_first());
            assert(refuse::<ExprView>(inner.rest, Expected::Symbol(')')).outcome == Err::<
                ExprView,
                _,
            >(refusal(inner.rest, Expected::Symbol(')'))));
        },
        Some(TokenView::Number(_)) => {},
        _ => {
            assert(primary(s).outcome == Err::<ExprView, _>(refusal(s, Expected::Primary)));
        },
    }
}

/// An expression that cannot be read fails at the lexeme that is refused.
pub proof fn lemma_expression_fails_at_rest(s: Seq<Lexeme>)
    ensures
        fails_at_rest(expression(s)),
    decreases s.len(), 2int,
{
    lemma_primary_fails_at_rest(s);
    let first = primary(s);
    match first.outcome {
        Ok(lhs) if advanced(first, s) => {
            lemma_binoprhs_fails_at_rest(first.rest, lhs, 0);
        },
        _ => {},
    }
}

/// The arguments of a call that cannot be read fail at the lexeme that is
/// refused.
pub proof fn lemma_arguments_fail_at_rest(s: Seq<Lexeme>, seen: Seq<ExprView>)
    ensures
        fails_at_rest(arguments(s, seen)),
    decreases s.len(), 3int,
{
    lemma_expression_fails_at_rest(s);
    let next = expression(s);
    match next.outcome {
        Ok(arg) => {
            if symbol_ahead(next.rest, ')') {
            } else if symbol_ahead(next.rest, ',') && advanced(next, s) {
                lemma_arguments_fail_at_rest(next.rest.drop_first(), seen.push(arg));
            } else {
                assert(arguments(s, seen).outcome == Err::<Seq<ExprView>, _>(
                    refusal(next.rest, Expected::ArgumentEnd),
                ));
            }
        },
        _ => {},
    }
}

/// The operations behind a left-hand side that cannot be read fail at the
/// lexeme that is refused.
pub proof fn lemma_binoprhs_fails_at_rest(s: Seq<Lexeme>, lhs: ExprView, min: u32)
    ensures
        fails_at_rest(binoprhs(s, lhs, min)),
    decreases s.len(), 0int,
{
    match operator_ahead(s) {
        Some((op, prec)) if prec >= min => {
            lemma_primary_fails_at_rest(s.drop_first());
            let operand = primary(s.drop_first());
            match operand.outcome {
                Ok(rhs) if advanced(operand, s) => {
                    let right = match operator_ahead(operand.rest) {
                        Some((_, next)) if next > prec => {
                            lemma_binoprhs_fails_at_rest(operand.rest, rhs, (prec + 1) as u32);
                            binoprhs(operand.rest, rhs, (prec + 1) as u32)
                        },
                        _ => operand,
                    };
                    match right.outcome {
                        Ok(rhs) if advanced(right, s) => {
                            lemma_binoprhs_fails_at_rest(
                                right.rest,
                                ExprView::Binary { op, lhs: Box::new(lhs), rhs: Box::new(rhs) },
                                min,
                            );
                        },
                        _ => {},
                    }
                },
                _ => {},
            }
        },
        _ => {},
    }
}

/// The parameter names of a prototype that cannot be read fail at the lexeme
/// that is refused.
pub proof fn lemma_parameters_fail_at_rest(s: Seq<Lexeme>, seen: Seq<Seq<char>>)
    ensures
        fails_at_rest(parameters(s, seen)),
    decreases s.len(),
{
    match head(s) {
        Some(TokenView::Identifier(name)) => {
            lemma_parameters_fail_at_rest(s.drop_first(), seen.push(name));
        },
        Some(TokenView::Symbol(')')) => {},
        _ => {
            assert(parameters(s, seen).outcome == Err::<Seq<Seq<char>>, _>(
                refusal(s, Expected::Symbol(')')),
            ));
        },
    }
}

/// A prototype that cannot be read fails at the lexeme that is refused.
pub proof fn lemma_prototype_fails_at_rest(s: Seq<Lexeme>)
    ensures
        fails_at_rest(prototype(s)),
{
    match head(s) {
        Some(TokenView::Identifier(name)) => {
            let after_name = s.drop_first();
            if symbol_ahead(after_name, '(') {
                lemma_parameters_fail_at_rest(after_name.drop_first(), Seq::empty());
            } else {
                assert(prototype(s).outcome == Err::<PrototypeView, _>(
                    refusal(after_name, Expected::Symbol('(')),
                ));
            }
        },
        _ => {
            assert(prototype(s).outcome == Err::<PrototypeView, _>(
                refusal(s, Expected::Identifier),
            ));
        },
    }
}

/// A top-level unit that cannot be read fails at the lexeme that is refused.
pub proof fn lemma_unit_fails_at_rest(s: Seq<Lexeme>)
    ensures
        fails_at_rest(unit(s)),
        fails_at_rest(definition(s)),
        fails_at_rest(external(s)),
{
    if head(s) == Some(TokenView::Def) {
        lemma_prototype_fails_at_rest(s.drop_first());
        let proto = prototype(s.drop_first());
        if proto.outcome is Ok {
            lemma_expression_fails_at_rest(proto.rest);
        }
    } else {
        assert(definition(s).outcome == Err::<FunctionView, _>(refusal(s, Expected::Def)));
    }
    if head(s) == Some(TokenView::Extern) {
        lemma_prototype_fails_at_rest(s.drop_first());
    } else {
        assert(external(s).outcome == Err::<PrototypeView, _>(refusal(s, Expected::Extern)));
    }
    let t = skip_semicolons(s);
    if t.len() > 0 {
        if head(t) == Some(TokenView::Def) {
            lemma_prototype_fails_at_rest(t.drop_first());
            let proto = prototype(t.drop_first());
            if proto.outcome is Ok {
                lemma_expression_fails_at_rest(proto.rest);
            }
        } else if head(t) == Some(TokenView::Extern) {
            lemma_prototype_fails_at_rest(t.drop_first());
        } else {
            lemma_expression_fails_at_rest(t);
        }
    }
}

/// A program that cannot be read fails at the lexeme that is refused.
pub proof fn lemma_program_fails_at_rest(s: Seq<Lexeme>)
    ensures
        fails_at_rest(program(s)),
    decreases s.len(),
{
    lemma_unit_fails_at_rest(s);
    let first = unit(s);
    match first.outcome {
        Ok(Some(u)) if advanced(first, s) => {
            lemma_program_fails_at_rest(first.rest);
        },
        _ => {},
    }
}

} // verus!
