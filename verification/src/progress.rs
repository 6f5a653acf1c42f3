//! What the grammar consumes: every construct is read from the front of the
//! input, and a construct that is read takes at least one lexeme.
//!
//! This is what makes the parser terminate, and it shows that the tests on
//! `advanced` in the definitions of the grammar never fail.

use vstd::prelude::*;
use crate::ast::ExprView;
use crate::grammar::{
    arguments, binoprhs, expression, head, operator_ahead, parameters, primary, program,
    prototype, skip_semicolons, symbol_ahead, unit,
};
use crate::token::{Lexeme, TokenView};

verus! {

/// Whether `rest` is what is left of `s` behind some of its first lexemes.
pub open spec fn left_of(rest: Seq<Lexeme>, s: Seq<Lexeme>) -> bool {
    rest.len() <= s.len() && rest == s.skip(s.len() - rest.len())
}

/// What is left of what is left of `s` is left of `s`.
pub proof fn lemma_left_of_left(last: Seq<Lexeme>, rest: Seq<Lexeme>, s: Seq<Lexeme>)
    requires
        left_of(last, rest),
        left_of(rest, s),
    ensures
        left_of(last, s),
{
    assert(last =~= s.skip(s.len() - last.len()));
}

/// What is left of `s` behind its first lexeme is left of `s`.
pub proof fn lemma_left_of_first(rest: Seq<Lexeme>, s: Seq<Lexeme>)
    requires
        s.len() > 0,
        left_of(rest, s.drop_first()),
    ensures
        left_of(rest, s),
{
    assert(left_of(s.drop_first(), s)) by {
        assert(s.drop_first() =~= s.skip(1));
    }
    lemma_left_of_left(rest, s.drop_first(), s);
}

/// All of `s` is left of `s`.
pub proof fn lemma_left_of_self(s: Seq<Lexeme>)
    ensures
        left_of(s, s),
{
    assert(s =~= s.skip(0));
}

/// A primary expression is read from the front of the input, and takes at
/// least one lexeme where it succeeds.
pub proof fn lemma_primary_consumes(s: Seq<Lexeme>)
    ensures
        left_of(primary(s).rest, s),
        primary(s).outcome is Ok ==> primary(s).rest.len() < s.len(),
    decreases s.len(), 1int,
{
    lemma_left_of_self(s);
    match head(s) {
        Some(TokenView::Identifier(name)) => {
            let after_name = s.drop_first();
            lemma_left_of_self(after_name);
            lemma_left_of_first(after_name, s);
            if symbol_ahead(after_name, '(') {
                let after_paren = after_name.drop_first();
                lemma_left_of_self(after_paren);
                lemma_left_of_first(after_paren, after_name);
                if symbol_ahead(after_paren, ')') {
                    lemma_left_of_self(after_paren.drop_first());
                    lemma_left_of_first(after_paren.drop_first(), after_paren);
                    lemma_left_of_left(after_paren.drop_first(), after_paren, after_name);
                } else {
                    lemma_arguments_consume(after_paren, Seq::empty());
                    lemma_left_of_left(primary(s).rest, after_paren, after_name);
                }
                lemma_left_of_first(primary(s).rest, s);
            }
        },
        Some(TokenView::Number(_)) => {
            lemma_left_of_self(s.drop_first());
            lemma_left_of_first(s.drop_first(), s);
        },
        Some(TokenView::Symbol('(')) => {
            let inner = expression(s.drop_first());
            lemma_expression_consumes(s.drop_first());
            if inner.outcome is Ok && symbol_ahead(inner.rest, ')') {
                lemma_left_of_self(inner.rest.drop_first());
                lemma_left_of_first(inner.rest.drop_first(), inner.rest);
                lemma_left_of_left(inner.rest.drop_first(), inner.rest, s.drop_first());
            }
            lemma_left_of_first(primary(s).rest, s);
        },
        _ => {},
    }
}

/// An expression is read from the front of the input, and takes at least one
/// lexeme where it succeeds.
pub proof fn lemma_expression_consumes(s: Seq<Lexeme>)
    ensures
        left_of(expression(s).rest, s),
        expression(s).outcome is Ok ==> expression(s).rest.len() < s.len(),
    decreases s.len(), 2int,
{
    lemma_primary_consumes(s);
    let first = primary(s);
    match first.outcome {
        Ok(lhs) => {
            lemma_binoprhs_consumes(first.rest, lhs, 0);
            lemma_left_of_left(expression(s).rest, first.rest, s);
        },
        _ => {},
    }
}

/// The arguments of a call are read from the front of the input, and take at
/// least one lexeme where they succeed.
pub proof fn lemma_arguments_consume(s: Seq<Lexeme>, seen: Seq<ExprView>)
    ensures
        left_of(arguments(s, seen).rest, s),
        arguments(s, seen).outcome is Ok ==> arguments(s, seen).rest.len() < s.len(),
    decreases s.len(), 3int,
{
    lemma_expression_consumes(s);
    let next = expression(s);
    match next.outcome {
        Ok(arg) => {
            lemma_left_of_self(next.rest);
            if symbol_ahead(next.rest, ')') {
                lemma_left_of_self(next.rest.drop_first());
                lemma_left_of_first(next.rest.drop_first(), next.rest);
            } else if symbol_ahead(next.rest, ',') {
                lemma_arguments_consume(next.rest.drop_first(), seen.push(arg));
                lemma_left_of_first(arguments(s, seen).rest, next.rest);
            }
            lemma_left_of_left(arguments(s, seen).rest, next.rest, s);
        },
        _ => {},
    }
}

/// The operations behind a left-hand side are read from the front of the input.
pub proof fn lemma_binoprhs_consumes(s: Seq<Lexeme>, lhs: ExprView, min: u32)
    ensures
        left_of(binoprhs(s, lhs, min).rest, s),
    decreases s.len(), 0int,
{
    lemma_left_of_self(s);
    match operator_ahead(s) {
        Some((op, prec)) if prec >= min => {
            lemma_primary_consumes(s.drop_first());
            let operand = primary(s.drop_first());
            lemma_left_of_first(operand.rest, s);
            match operand.outcome {
                Ok(rhs) => {
                    let right = match operator_ahead(operand.rest) {
                        Some((_, next)) if next > prec => {
                            lemma_binoprhs_consumes(operand.rest, rhs, (prec + 1) as u32);
                            binoprhs(operand.rest, rhs, (prec + 1) as u32)
                        },
                        _ => operand,
                    };
                    lemma_left_of_self(operand.rest);
                    lemma_left_of_left(right.rest, operand.rest, s);
                    match right.outcome {
                        Ok(rhs) => {
                            let next = ExprView::Binary {
                                op,
                                lhs: Box::new(lhs),
                                rhs: Box::new(rhs),
                            };
                            lemma_binoprhs_consumes(right.rest, next, min);
                            lemma_left_of_left(binoprhs(right.rest, next, min).rest, right.rest, s);
                        },
                        _ => {},
                    }
                },
                _ => {},
            }
        },
        _ => {},
    }
}

/// The parameter names of a prototype are read from the front of the input,
/// and take at least one lexeme where they succeed.
pub proof fn lemma_parameters_consume(s: Seq<Lexeme>, seen: Seq<Seq<char>>)
    ensures
        left_of(parameters(s, seen).rest, s),
        parameters(s, seen).outcome is Ok ==> parameters(s, seen).rest.len() < s.len(),
    decreases s.len(),
{
    lemma_left_of_self(s);
    match head(s) {
        Some(TokenView::Identifier(name)) => {
            lemma_parameters_consume(s.drop_first(), seen.push(name));
            lemma_left_of_first(parameters(s, seen).rest, s);
        },
        Some(TokenView::Symbol(')')) => {
            lemma_left_of_self(s.drop_first());
            lemma_left_of_first(s.drop_first(), s);
        },
        _ => {},
    }
}

/// A prototype is read from the front of the input, and takes at least one
/// lexeme where it succeeds.
pub proof fn lemma_prototype_consumes(s: Seq<Lexeme>)
    ensures
        left_of(prototype(s).rest, s),
        prototype(s).outcome is Ok ==> prototype(s).rest.len() < s.len(),
{
    lemma_left_of_self(s);
    match head(s) {
        Some(TokenView::Identifier(name)) => {
            let after_name = s.drop_first();
            lemma_left_of_self(after_name);
            if symbol_ahead(after_name, '(') {
                lemma_parameters_consume(after_name.drop_first(), Seq::empty());
                lemma_left_of_first(prototype(s).rest, after_name);
            }
            lemma_left_of_first(prototype(s).rest, s);
        },
        _ => {},
    }
}

/// Skipping semicolons leaves a part of the input that starts with none.
pub proof fn lemma_skip_semicolons(s: Seq<Lexeme>)
    ensures
        left_of(skip_semicolons(s), s),
        !symbol_ahead(skip_semicolons(s), ';'),
    decreases s.len(),
{
    lemma_left_of_self(s);
    if symbol_ahead(s, ';') {
        lemma_skip_semicolons(s.drop_first());
        lemma_left_of_first(skip_semicolons(s), s);
    }
}

/// A top-level unit is read from the front of the input, and takes at least
/// one lexeme where there is one.
pub proof fn lemma_unit_consumes(s: Seq<Lexeme>)
    ensures
        left_of(unit(s).rest, s),
        unit(s).outcome matches Ok(Some(_)) ==> unit(s).rest.len() < s.len(),
        unit(s).outcome matches Ok(None) ==> unit(s).rest.len() == 0,
{
    lemma_skip_semicolons(s);
    let t = skip_semicolons(s);
    if t.len() > 0 {
        if head(t) == Some(TokenView::Def) {
            let proto = prototype(t.drop_first());
            lemma_prototype_consumes(t.drop_first());
            if proto.outcome is Ok {
                lemma_expression_consumes(proto.rest);
                lemma_left_of_left(unit(s).rest, proto.rest, t.drop_first());
            }
            lemma_left_of_first(unit(s).rest, t);
        } else if head(t) == Some(TokenView::Extern) {
            lemma_prototype_consumes(t.drop_first());
            lemma_left_of_first(unit(s).rest, t);
        } else {
            lemma_expression_consumes(t);
        }
        lemma_left_of_left(unit(s).rest, t, s);
    }
}

/// A program is read up to the end of the input, or up to the lexeme that is
/// refused.
pub proof fn lemma_program_consumes(s: Seq<Lexeme>)
    ensures
        left_of(program(s).rest, s),
        program(s).outcome is Ok ==> program(s).rest.len() == 0,
    decreases s.len(),
{
    lemma_unit_consumes(s);
    let first = unit(s);
    match first.outcome {
        Ok(Some(u)) => {
            lemma_program_consumes(first.rest);
            lemma_left_of_left(program(s).rest, first.rest, s);
        },
        _ => {},
    }
}

} // verus!
