//! The parser: recursive descent with precedence climbing, over one token of
//! lookahead.

use vstd::prelude::*;
use vstd::string::StringSliceAdditionalSpecFns;
use crate::ast::{
    lemma_call_tree, names, trees, unit_views, BinaryExpr, CallExpr, Expr, ExprView, Function,
    NumberExpr, Prototype, Unit, UnitView, VariableExpr,
};
use crate::error::{Expected, ParseError, ParseErrorView};
use crate::grammar::{
    arguments, binoprhs, definition, expression, external, operator_ahead, parameters, precedence,
    primary, program, prototype, refusal, skip_semicolons, symbol_ahead, unit,
};
use crate::lexer::Lexer;
use crate::results::{
    lemma_expression_fails_at_rest, lemma_expression_operators, lemma_program_fails_at_rest,
    lemma_program_operators, lemma_unit_fails_at_rest, lemma_unit_operators, reports,
};
use crate::progress::{
    lemma_binoprhs_consumes, lemma_expression_consumes, lemma_primary_consumes,
    lemma_program_consumes, lemma_unit_consumes,
};
use crate::scan::lexemes;
use crate::token::{clone_lexeme, lexeme_view, LexError, Lexeme, Token};

verus! {

/// The mathematical value of what a parsing function returns.
pub open spec fn outcome<T: View>(result: Result<T, ParseError>) -> Result<T::V, ParseErrorView> {
    match result {
        Ok(value) => Ok(value@),
        Err(error) => Err(error@),
    }
}

/// The mathematical value of what `Parser::parse_unit` returns.
pub open spec fn unit_outcome(result: Result<Option<Unit>, ParseError>) -> Result<
    Option<UnitView>,
    ParseErrorView,
> {
    match result {
        Ok(Some(unit)) => Ok(Some(unit@)),
        Ok(None) => Ok(None),
        Err(error) => Err(error@),
    }
}

/// A parser over one source buffer.
///
/// It holds the lexer, one lexeme of lookahead, and the top-level units that
/// `parse` has read. A new parser has read nothing: its lookahead is empty
/// until `get_next_token` fills it. The parsing functions start at the
/// lookahead, and leave the lexeme behind what they read as the lookahead.
pub struct Parser<'b> {
    lexer: Lexer<'b>,
    token: Option<Result<Token, LexError>>,
    ast: Vec<Unit>,
}

impl<'b> Parser<'b> {
    /// The lookahead: the lexeme at which the parser stands, or `None` where it
    /// has read nothing yet or stands at the end of the buffer.
    pub closed spec fn lookahead(&self) -> Option<Lexeme> {
        match self.token {
            Some(item) => Some(lexeme_view(item)),
            None => None,
        }
    }

    /// The lexemes behind the lookahead, which the lexer has yet to yield.
    pub closed spec fn unread(&self) -> Seq<Lexeme> {
        self.lexer.remaining()
    }

    /// The lexemes that the parsing functions see: the lookahead and what
    /// follows it, or nothing where the lookahead is empty.
    pub open spec fn pending(&self) -> Seq<Lexeme> {
        match self.lookahead() {
            Some(lexeme) => seq![lexeme] + self.unread(),
            None => Seq::empty(),
        }
    }

    /// Whether the parser has read ahead: the lookahead is empty only where the
    /// lexer has nothing more to yield.
    pub open spec fn read_ahead(&self) -> bool {
        self.lookahead() is Some || self.unread().len() == 0
    }

    /// The top-level units that `parse` has read, in source order.
    pub closed spec fn units(&self) -> Seq<UnitView> {
        unit_views(self.ast@)
    }

    /// What every parsing function keeps of the state `before` it: a parser
    /// that has read ahead has read ahead afterwards, a parser with an empty
    /// lookahead takes nothing from the lexer, and the units read stay as they
    /// are.
    pub open spec fn continues(&self, before: &Parser<'b>) -> bool {
        &&& before.read_ahead() ==> self.read_ahead()
        &&& before.lookahead() is None ==> self.unread() == before.unread()
        &&& self.units() == before.units()
    }

    /// A parser at the start of `buf`, which has read nothing yet.
    pub fn new(buf: &'b str) -> (parser: Parser<'b>)
        ensures
            parser.lookahead() is None,
            parser.unread() == lexemes(buf.spec_bytes(), 0),
            parser.units() == Seq::<UnitView>::empty(),
    {
        let parser = Parser { lexer: Lexer::new(buf), token: None, ast: Vec::new() };
        proof {
            assert(parser.units() =~= Seq::<UnitView>::empty());
        }
        parser
    }

    /// The lookahead.
    #[inline]
    pub fn token(&self) -> (lookahead: Option<Result<Token, LexError>>)
        ensures
            self.lookahead() == (match lookahead {
                Some(item) => Some(lexeme_view(item)),
                None => None,
            }),
    {
        match &self.token {
            Some(item) => Some(clone_lexeme(item)),
            None => None,
        }
    }

    /// The top-level units that `parse` has read, in source order.
    pub fn ast(&self) -> (list: &Vec<Unit>)
        ensures
            unit_views(list@) == self.units(),
    {
        &self.ast
    }

    /// Takes the next lexeme from the lexer and makes it the lookahead, in
    /// place of the one before. At the end of the buffer the lookahead becomes
    /// empty.
    #[inline]
    pub fn get_next_token(&mut self)
        ensures
            final(self).lookahead() == (if old(self).unread().len() > 0 {
                Some(old(self).unread()[0])
            } else {
                None
            }),
            final(self).unread() == (if old(self).unread().len() > 0 {
                old(self).unread().drop_first()
            } else {
                old(self).unread()
            }),
            final(self).units() == old(self).units(),
            final(self).read_ahead(),
            final(self).pending() == old(self).unread(),
            old(self).lookahead() is Some ==> final(self).pending() == old(
                self,
            ).pending().drop_first(),
    {
        self.token = self.lexer.next();
        proof {
            assert(self.pending() =~= old(self).unread());
            if old(self).lookahead() is Some {
                assert(old(self).pending().drop_first() =~= old(self).unread());
            }
        }
    }

    /// Tests whether the lookahead is the symbol `c`.
    fn symbol_ahead(&self, c: char) -> (yes: bool)
        ensures
            yes == symbol_ahead(self.pending(), c),
    {
        match &self.token {
            Some(Ok(Token::Symbol(found))) => *found == c,
            _ => false,
        }
    }

    /// The failure to report where the grammar asks for `expected` and the
    /// lookahead is something else.
    fn refuse(&self, expected: Expected) -> (error: ParseError)
        ensures
            error@ == refusal(self.pending(), expected),
    {
        match &self.token {
            Some(Ok(token)) => ParseError::Unexpected { found: Some(token.clone()), expected },
            Some(Err(error)) => ParseError::Lex(error.clone()),
            None => ParseError::Unexpected { found: None, expected },
        }
    }

    /// The binary operator at the lookahead, with its precedence.
    fn get_token_precedence(&self) -> (found: Option<(char, u32)>)
        ensures
            found == operator_ahead(self.pending()),
    {
        match &self.token {
            Some(Ok(Token::Symbol(op))) => match precedence(*op) {
                Some(p) => Some((*op, p)),
                None => None,
            },
            _ => None,
        }
    }

    /// expression := primary binoprhs
    ///
    /// Every binary operation of the expression has an operator of the
    /// precedence table. A failure reports the lexeme that was refused, which
    /// is then the lookahead.
    pub fn parse_expression(&mut self) -> (result: Result<Box<Expr>, ParseError>)
        ensures
            outcome(result) == expression(old(self).pending()).outcome,
            final(self).pending() == expression(old(self).pending()).rest,
            final(self).continues(old(self)),
            result matches Ok(expr) ==> expr@.operators_known(),
            result matches Err(error) ==> reports(error@, final(self).pending()),
        decreases old(self).pending().len(), 2int,
    {
        proof {
            lemma_primary_consumes(self.pending());
            lemma_expression_operators(self.pending());
            lemma_expression_fails_at_rest(self.pending());
        }
        match self.parse_primary() {
            Ok(lhs) => self.parse_binoprhs(lhs, 0),
            Err(error) => Err(error),
        }
    }

    /// primary := Identifier ['(' (expression (',' expression)*)? ')']
    ///          | Number
    ///          | '(' expression ')'
    #[verifier::loop_isolation(false)]
    fn parse_primary(&mut self) -> (result: Result<Box<Expr>, ParseError>)
        ensures
            outcome(result) == primary(old(self).pending()).outcome,
            final(self).pending() == primary(old(self).pending()).rest,
            final(self).continues(old(self)),
        decreases old(self).pending().len(), 1int,
    {
        let ghost s = self.pending();
        match &self.token {
            Some(Ok(Token::Identifier(id))) => {
                let name = id.clone();
                self.get_next_token();
                if self.symbol_ahead('(') {
                    self.get_next_token();
                    let mut args: Vec<Box<Expr>> = Vec::new();
                    if self.symbol_ahead(')') {
                        self.get_next_token();
                        let call = CallExpr { callee: name, args: args };
                        proof {
                            lemma_call_tree(call);
                            assert(trees(call.args@) =~= Seq::<ExprView>::empty());
                        }
                        return Ok(Box::new(Expr::CallExpr(call)));
                    }
                    assert(trees(args@) =~= Seq::<ExprView>::empty());
                    loop
                        invariant
                            s == old(self).pending(),
                            self.pending().len() < s.len(),
                            arguments(self.pending(), trees(args@)) == arguments(
                                s.drop_first().drop_first(),
                                Seq::empty(),
                            ),
                            self.continues(old(self)),
                        decreases self.pending().len(),
                    {
                        let ghost before = self.pending();
                        let ghost seen = trees(args@);
                        proof {
                            lemma_expression_consumes(before);
                        }
                        let arg = match self.parse_expression() {
                            Ok(arg) => arg,
                            Err(error) => {
                                return Err(error);
                            },
                        };
                        args.push(arg);
                        assert(trees(args@) =~= seen.push(arg.tree()));
                        if self.symbol_ahead(')') {
                            self.get_next_token();
                            let call = CallExpr { callee: name, args: args };
                            proof {
                                lemma_call_tree(call);
                            }
                            return Ok(Box::new(Expr::CallExpr(call)));
                        } else if self.symbol_ahead(',') {
                            self.get_next_token();
                        } else {
                            return Err(self.refuse(Expected::ArgumentEnd));
                        }
                    }
                } else {
                    Ok(Box::new(Expr::VariableExpr(VariableExpr { name: name })))
                }
            },
            Some(Ok(Token::Number(n))) => {
                let val = n.clone();
                self.get_next_token();
                Ok(Box::new(Expr::NumberExpr(NumberExpr { val: val })))
            },
            Some(Ok(Token::Symbol(c))) => {
                if *c == '(' {
                    self.get_next_token();
                    let expr = match self.parse_expression() {
                        Ok(expr) => expr,
                        Err(error) => {
                            return Err(error);
                        },
                    };
                    if self.symbol_ahead(')') {
                        self.get_next_token();
                        Ok(expr)
                    } else {
                        Err(self.refuse(Expected::Symbol(')')))
                    }
                } else {
                    Err(self.refuse(Expected::Primary))
                }
            },
            _ => Err(self.refuse(Expected::Primary)),
        }
    }

    /// binoprhs := (binop primary)*
    ///
    /// Reads the operations that follow the left-hand side `lhs`, as long as
    /// their operators bind at least as tightly as `lhs_precedence`.
    #[verifier::loop_isolation(false)]
    fn parse_binoprhs(&mut self, lhs: Box<Expr>, lhs_precedence: u32) -> (result: Result<
        Box<Expr>,
        ParseError,
    >)
        ensures
            outcome(result) == binoprhs(old(self).pending(), lhs@, lhs_precedence).outcome,
            final(self).pending() == binoprhs(old(self).pending(), lhs@, lhs_precedence).rest,
            final(self).continues(old(self)),
        decreases old(self).pending().len(), 0int,
    {
        let ghost start = self.pending();
        let ghost first = lhs@;
        let mut lhs = lhs;
        loop
            invariant
                start == old(self).pending(),
                self.pending().len() <= start.len(),
                binoprhs(self.pending(), lhs@, lhs_precedence) == binoprhs(
                    start,
                    first,
                    lhs_precedence,
                ),
                self.continues(old(self)),
            decreases self.pending().len(),
        {
            let ghost s = self.pending();
            let (op, prec) = match self.get_token_precedence() {
                Some((op, prec)) => {
                    if prec < lhs_precedence {
                        return Ok(lhs);
                    }
                    (op, prec)
                },
                None => {
                    return Ok(lhs);
                },
            };
            self.get_next_token();
            proof {
                lemma_primary_consumes(s.drop_first());
            }
            let mut rhs = match self.parse_primary() {
                Ok(rhs) => rhs,
                Err(error) => {
                    return Err(error);
                },
            };

            // If the operator binds less tightly with the right-hand side than
            // the operator behind it, the pending operator takes the
            // right-hand side as its left-hand side.
            let ghost operand = self.pending();
            let ghost plain = rhs@;
            let tighter = match self.get_token_precedence() {
                Some((_, next)) => prec < next,
                None => false,
            };
            if tighter {
                proof {
                    lemma_binoprhs_consumes(operand, plain, (prec + 1) as u32);
                }
                rhs = match self.parse_binoprhs(rhs, prec + 1) {
                    Ok(rhs) => rhs,
                    Err(error) => {
                        return Err(error);
                    },
                };
            }
            lhs = Box::new(Expr::BinaryExpr(BinaryExpr { op: op, lhs: lhs, rhs: rhs }));
        }
    }

    /// prototype := Identifier '(' Identifier* ')'
    #[verifier::loop_isolation(false)]
    fn parse_prototype(&mut self) -> (result: Result<Box<Prototype>, ParseError>)
        ensures
            outcome(result) == prototype(old(self).pending()).outcome,
            final(self).pending() == prototype(old(self).pending()).rest,
            final(self).continues(old(self)),
    {
        let ghost s = self.pending();
        let name = match &self.token {
            Some(Ok(Token::Identifier(id))) => id.clone(),
            _ => {
                return Err(self.refuse(Expected::Identifier));
            },
        };
        self.get_next_token();

        if !self.symbol_ahead('(') {
            return Err(self.refuse(Expected::Symbol('(')));
        }
        self.get_next_token();

        let mut args: Vec<String> = Vec::new();
        assert(names(args@) =~= Seq::<Seq<char>>::empty());
        loop
            invariant
                s == old(self).pending(),
                parameters(self.pending(), names(args@)) == parameters(
                    s.drop_first().drop_first(),
                    Seq::empty(),
                ),
                self.continues(old(self)),
            decreases self.pending().len(),
        {
            let ghost seen = names(args@);
            let id = match &self.token {
                Some(Ok(Token::Identifier(id))) => id.clone(),
                _ => {
                    if self.symbol_ahead(')') {
                        self.get_next_token();
                        return Ok(Box::new(Prototype { name: name, args: args }));
                    }
                    return Err(self.refuse(Expected::Symbol(')')));
                },
            };
            args.push(id);
            assert(names(args@) =~= seen.push(id@));
            self.get_next_token();
        }
    }

    /// definition := 'def' prototype expression
    pub fn parse_definition(&mut self) -> (result: Result<Box<Function>, ParseError>)
        ensures
            outcome(result) == definition(old(self).pending()).outcome,
            final(self).pending() == definition(old(self).pending()).rest,
            final(self).continues(old(self)),
            result matches Ok(function) ==> function@.body.operators_known(),
            result matches Err(error) ==> reports(error@, final(self).pending()),
    {
        proof {
            lemma_unit_fails_at_rest(self.pending());
        }
        match &self.token {
            Some(Ok(Token::Def)) => {},
            _ => {
                return Err(self.refuse(Expected::Def));
            },
        }
        self.get_next_token();

        let proto = match self.parse_prototype() {
            Ok(proto) => proto,
            Err(error) => {
                return Err(error);
            },
        };
        let body = match self.parse_expression() {
            Ok(body) => body,
            Err(error) => {
                return Err(error);
            },
        };
        Ok(Box::new(Function { proto: proto, body: body }))
    }

    /// extern := 'extern' prototype
    pub fn parse_extern(&mut self) -> (result: Result<Box<Prototype>, ParseError>)
        ensures
            outcome(result) == external(old(self).pending()).outcome,
            final(self).pending() == external(old(self).pending()).rest,
            final(self).continues(old(self)),
            result matches Err(error) ==> reports(error@, final(self).pending()),
    {
        proof {
            lemma_unit_fails_at_rest(self.pending());
        }
        match &self.token {
            Some(Ok(Token::Extern)) => {},
            _ => {
                return Err(self.refuse(Expected::Extern));
            },
        }
        self.get_next_token();

        self.parse_prototype()
    }

    /// Reads the next top-level unit from the lookahead on, behind any
    /// semicolons. `Ok(None)` says that no further unit follows.
    #[verifier::loop_isolation(false)]
    pub fn parse_unit(&mut self) -> (result: Result<Option<Unit>, ParseError>)
        ensures
            unit_outcome(result) == unit(old(self).pending()).outcome,
            final(self).pending() == unit(old(self).pending()).rest,
            final(self).continues(old(self)),
            result matches Ok(Some(unit)) ==> unit@.operators_known(),
            result matches Err(error) ==> reports(error@, final(self).pending()),
    {
        proof {
            lemma_unit_operators(self.pending());
            lemma_unit_fails_at_rest(self.pending());
        }
        while self.symbol_ahead(';')
            invariant
                skip_semicolons(self.pending()) == skip_semicolons(old(self).pending()),
                self.continues(old(self)),
                old(self).lookahead() is None ==> self.lookahead() is None,
            decreases self.pending().len(),
        {
            self.get_next_token();
        }
        match &self.token {
            None => Ok(None),
            Some(Ok(Token::Def)) => match self.parse_definition() {
                Ok(function) => Ok(Some(Unit::Definition(function))),
                Err(error) => Err(error),
            },
            Some(Ok(Token::Extern)) => match self.parse_extern() {
                Ok(proto) => Ok(Some(Unit::Extern(proto))),
                Err(error) => Err(error),
            },
            _ => match self.parse_expression() {
                Ok(expr) => Ok(Some(Unit::Expression(expr))),
                Err(error) => Err(error),
            },
        }
    }

    /// top := (definition | extern | expression | ';')*
    ///
    /// Takes the next lexeme from the lexer as `get_next_token` does, in place
    /// of the lookahead, and from there reads every top-level unit up to the
    /// end of the buffer. No lexeme is dropped between two units. The units
    /// are appended to the units read so far. On a failure nothing is
    /// appended, and the lookahead is the lexeme that was refused: the units of
    /// a buffer are kept all or none.
    #[verifier::loop_isolation(false)]
    pub fn parse(&mut self) -> (result: Result<(), ParseError>)
        ensures
            match result {
                Ok(_) => {
                    &&& program(old(self).unread()).outcome matches Ok(read)
                    &&& final(self).units() == old(self).units() + read
                    &&& forall|i: int|
                        0 <= i < read.len() ==> (#[trigger] read[i]).operators_known()
                },
                Err(error) => {
                    &&& program(old(self).unread()).outcome == Err::<Seq<UnitView>, _>(error@)
                    &&& final(self).units() == old(self).units()
                },
            },
            final(self).pending() == program(old(self).unread()).rest,
            final(self).read_ahead(),
            result is Ok ==> final(self).pending().len() == 0,
            result matches Err(error) ==> reports(error@, final(self).pending()),
    {
        self.get_next_token();
        let ghost start = self.pending();
        proof {
            lemma_program_operators(start);
            lemma_program_consumes(start);
            lemma_program_fails_at_rest(start);
        }
        let mut read: Vec<Unit> = Vec::new();
        assert(unit_views(read@) =~= Seq::<UnitView>::empty());
        loop
            invariant
                start == old(self).unread(),
                self.units() == old(self).units(),
                self.read_ahead(),
                program(self.pending()).rest == program(start).rest,
                match program(self.pending()).outcome {
                    Ok(units) => program(start).outcome == Ok::<_, ParseErrorView>(
                        unit_views(read@) + units,
                    ),
                    Err(error) => program(start).outcome == Err::<Seq<UnitView>, _>(error),
                },
            decreases self.pending().len(),
        {
            let ghost s = self.pending();
            let ghost seen = unit_views(read@);
            proof {
                lemma_unit_consumes(s);
            }
            match self.parse_unit() {
                Ok(Some(unit)) => {
                    read.push(unit);
                    proof {
                        assert(unit_views(read@) =~= seen.push(unit@));
                        match program(self.pending()).outcome {
                            Ok(units) => {
                                assert(seen.push(unit@) + units =~= seen + (seq![unit@] + units));
                            },
                            Err(_) => {},
                        }
                    }
                },
                Ok(None) => {
                    proof {
                        assert(unit_views(read@) + Seq::<UnitView>::empty() =~= unit_views(read@));
                        assert(unit_views(self.ast@ + read@) =~= unit_views(self.ast@) + unit_views(
                            read@,
                        ));
                    }
                    self.ast.append(&mut read);
                    return Ok(());
                },
                Err(error) => {
                    return Err(error);
                },
            }
        }
    }
}

} // verus!
