//! Writing a tree down, and reading it back.
//!
//! `flat` writes an expression as a sequence of lexemes with no more
//! parentheses than precedence and left-associativity ask for. The parser
//! reads every such sequence back as the tree it was written from:
//! `lemma_parse_inverts_flat`. This says in general what the grammar means
//! by precedence, by associativity and by parentheses.

use vstd::prelude::*;
use crate::ast::{all_operators_known, ExprView, FunctionView, PrototypeView, UnitView};
use crate::grammar::{
    arguments, binoprhs, definition, expression, external, head, operator_ahead, parameters,
    precedence, primary, program, prototype, skip_semicolons, symbol_ahead, unit, Parsed,
};
use crate::progress::{lemma_expression_consumes, lemma_primary_consumes, lemma_unit_consumes};
use crate::token::{Lexeme, TokenView};

verus! {

/// The lexeme of the symbol `c`.
pub open spec fn symbol(c: char) -> Lexeme {
    Ok(TokenView::Symbol(c))
}

/// The precedence of the operator `op` as a number, which is negative for a
/// character that is no operator.
pub open spec fn binding(op: char) -> int {
    match precedence(op) {
        Some(p) => p as int,
        None => -1,
    }
}

/// Whether `e` is a binary operation whose operator binds at least as tightly
/// as `min`.
pub open spec fn binds(e: ExprView, min: int) -> bool {
    e matches ExprView::Binary { op, .. } && binding(op) >= min
}

/// An expression that is no binary operation, as lexemes: a literal, a name,
/// or a call with its arguments between parentheses.
pub open spec fn atom(e: ExprView) -> Seq<Lexeme>
    decreases e, 0int,
{
    match e {
        ExprView::Number(text) => seq![Ok(TokenView::Number(text))],
        ExprView::Variable(name) => seq![Ok(TokenView::Identifier(name))],
        ExprView::Call { callee, args } => seq![Ok(TokenView::Identifier(callee)), symbol('(')]
            + list(args) + seq![symbol(')')],
        ExprView::Binary { .. } => Seq::empty(),
    }
}

/// The expressions of `args` as lexemes, with a comma between each two.
pub open spec fn list(args: Seq<ExprView>) -> Seq<Lexeme>
    decreases args, 0int,
{
    if args.len() == 0 {
        Seq::empty()
    } else if args.len() == 1 {
        flat(args[0])
    } else {
        flat(args[0]) + seq![symbol(',')] + list(args.drop_first())
    }
}

/// An expression as lexemes, where it stands as an operand: a binary
/// operation between parentheses, anything else as it is.
pub open spec fn show(e: ExprView) -> Seq<Lexeme>
    decreases e, 2int,
{
    if e is Binary {
        seq![symbol('(')] + flat(e) + seq![symbol(')')]
    } else {
        atom(e)
    }
}

/// An expression as lexemes, with as few parentheses as can be.
///
/// The left-hand side of an operation stands without parentheses if it is an
/// operation whose operator binds at least as tightly, the right-hand side if
/// it is one whose operator binds tighter.
pub open spec fn flat(e: ExprView) -> Seq<Lexeme>
    decreases e, 1int,
{
    match e {
        ExprView::Binary { op, lhs, rhs } => {
            let left = if binds(*lhs, binding(op)) {
                flat(*lhs)
            } else {
                show(*lhs)
            };
            let right = if binds(*rhs, binding(op) + 1) {
                flat(*rhs)
            } else {
                show(*rhs)
            };
            left + seq![symbol(op)] + right
        },
        _ => atom(e),
    }
}

/// Whether the lexemes `s` can follow an expression without being read as a
/// part of it: they start neither with a binary operator nor with `(`.
pub open spec fn ends_expression(s: Seq<Lexeme>) -> bool {
    operator_ahead(s) is None && !symbol_ahead(s, '(')
}

/// An expression that is no binary operation is read back as a primary.
proof fn lemma_atom(e: ExprView, s: Seq<Lexeme>)
    requires
        !(e is Binary),
        e.operators_known(),
        !symbol_ahead(s, '('),
    ensures
        primary(atom(e) + s) == (Parsed { outcome: Ok(e), rest: s }),
    decreases e, 0int,
{
    let whole = atom(e) + s;
    match e {
        ExprView::Number(text) => {
            assert(whole.drop_first() =~= s);
        },
        ExprView::Variable(name) => {
            assert(whole.drop_first() =~= s);
        },
        ExprView::Call { callee, args } => {
            let inside = list(args) + seq![symbol(')')] + s;
            assert(whole.drop_first().drop_first() =~= inside);
            if args.len() == 0 {
                assert(inside.drop_first() =~= s);
                assert(args =~= Seq::<ExprView>::empty());
            } else {
                lemma_list_starts(args, seq![symbol(')')] + s);
                assert(list(args) + (seq![symbol(')')] + s) =~= inside);
                lemma_list(args, Seq::empty(), s);
                assert(Seq::<ExprView>::empty() + args =~= args);
            }
        },
        ExprView::Binary { .. } => {},
    }
}

/// Whether the lexemes `s` start as a primary expression does: with a
/// literal, a name or `(`.
pub open spec fn starts_primary(s: Seq<Lexeme>) -> bool {
    match head(s) {
        Some(TokenView::Number(_)) => true,
        Some(TokenView::Identifier(_)) => true,
        Some(TokenView::Symbol(c)) => c == '(',
        _ => false,
    }
}

/// What an expression is written as starts with a literal, a name or `(`.
proof fn lemma_flat_starts(e: ExprView, s: Seq<Lexeme>)
    ensures
        starts_primary(flat(e) + s),
        starts_primary(show(e) + s),
    decreases e, 1int,
{
    match e {
        ExprView::Binary { op, lhs, rhs } => {
            let right = if binds(*rhs, binding(op) + 1) {
                flat(*rhs)
            } else {
                show(*rhs)
            };
            let behind = seq![symbol(op)] + right + s;
            lemma_flat_starts(*lhs, behind);
            if binds(*lhs, binding(op)) {
                assert(flat(e) + s =~= flat(*lhs) + behind);
            } else {
                assert(flat(e) + s =~= show(*lhs) + behind);
            }
            assert((show(e) + s)[0] == symbol('('));
        },
        _ => {
            assert((atom(e) + s)[0] == atom(e)[0]);
        },
    }
}

/// What a list of expressions is written as starts like its first one.
proof fn lemma_list_starts(args: Seq<ExprView>, s: Seq<Lexeme>)
    requires
        args.len() > 0,
    ensures
        starts_primary(list(args) + s),
{
    if args.len() == 1 {
        lemma_flat_starts(args[0], s);
    } else {
        let behind = seq![symbol(',')] + list(args.drop_first()) + s;
        lemma_flat_starts(args[0], behind);
        assert(list(args) + s =~= flat(args[0]) + behind);
    }
}

/// The arguments of a call are read back one by one.
proof fn lemma_list(args: Seq<ExprView>, seen: Seq<ExprView>, s: Seq<Lexeme>)
    requires
        args.len() > 0,
        all_operators_known(args),
    ensures
        arguments(list(args) + seq![symbol(')')] + s, seen) == (Parsed {
            outcome: Ok(seen + args),
            rest: s,
        }),
    decreases args, 0int,
{
    let whole = list(args) + seq![symbol(')')] + s;
    let first = args[0];
    assert(first.operators_known());
    if args.len() == 1 {
        let behind = seq![symbol(')')] + s;
        assert(whole =~= flat(first) + behind);
        lemma_parse_inverts_flat(first, behind);
        assert(behind.drop_first() =~= s);
        assert(seen + args =~= seen.push(first));
    } else {
        let others = args.drop_first();
        let behind = seq![symbol(',')] + list(others) + seq![symbol(')')] + s;
        assert(whole =~= flat(first) + behind);
        lemma_parse_inverts_flat(first, behind);
        lemma_expression_consumes(whole);
        assert(behind.drop_first() =~= list(others) + seq![symbol(')')] + s);
        assert(all_operators_known(others)) by {
            assert forall|i: int| 0 <= i < others.len() implies (#[trigger] others[i])
                .operators_known() by {
                assert(others[i] == args[i + 1]);
            }
        }
        lemma_list(others, seen.push(first), s);
        assert(seen.push(first) + others =~= seen + args);
    }
}

/// An operand is read back as a primary.
proof fn lemma_show(e: ExprView, s: Seq<Lexeme>)
    requires
        e.operators_known(),
        !symbol_ahead(s, '('),
    ensures
        primary(show(e) + s) == (Parsed { outcome: Ok(e), rest: s }),
    decreases e, 3int,
{
    if e is Binary {
        let whole = show(e) + s;
        let behind = seq![symbol(')')] + s;
        assert(whole.drop_first() =~= flat(e) + behind);
        lemma_parse_inverts_flat(e, behind);
        assert(behind.drop_first() =~= s);
    } else {
        lemma_atom(e, s);
    }
}

/// The heart of the matter: what the parser makes of an expression that is
/// written without parentheses around it, where more may follow.
///
/// It reads the first primary of `flat(e)`, and from there the operations up
/// to the end of `flat(e)` give `e`: the parser stands before `s` with `e` as
/// its left-hand side. This holds where no operator of `e` that stands
/// outside parentheses binds less tightly than `min`, and where the operator
/// that `s` starts with, if it starts with one, binds no tighter than the
/// outermost operator of `e`.
proof fn lemma_flat(e: ExprView, min: u32, s: Seq<Lexeme>)
    requires
        e.operators_known(),
        !symbol_ahead(s, '('),
        e matches ExprView::Binary { op, .. } ==> {
            &&& min <= binding(op)
            &&& operator_ahead(s) matches Some((_, next)) ==> next <= binding(op)
        },
    ensures
        primary(flat(e) + s).outcome is Ok,
        binoprhs(primary(flat(e) + s).rest, primary(flat(e) + s).outcome->Ok_0, min) == binoprhs(
            s,
            e,
            min,
        ),
        e matches ExprView::Binary { op, .. } ==> operator_ahead(primary(flat(e) + s).rest)
            matches Some((_, next)) && next >= binding(op),
    decreases e, 1int,
{
    match e {
        ExprView::Binary { op, lhs, rhs } => {
            let p = binding(op);
            let right = if binds(*rhs, p + 1) {
                flat(*rhs)
            } else {
                show(*rhs)
            };
            let operand = right + s;
            let behind = seq![symbol(op)] + operand;
            assert(operator_ahead(behind) == Some((op, p as u32)));
            assert(behind.drop_first() =~= operand);

            // The left-hand side is read, and the parser stands before the
            // operator with it.
            if binds(*lhs, p) {
                assert(flat(e) + s =~= flat(*lhs) + behind);
                lemma_flat(*lhs, min, behind);
            } else {
                assert(flat(e) + s =~= show(*lhs) + behind);
                lemma_show(*lhs, behind);
            }
            assert(binoprhs(
                primary(flat(e) + s).rest,
                primary(flat(e) + s).outcome->Ok_0,
                min,
            ) == binoprhs(behind, *lhs, min));

            // The operator and the right-hand side are read.
            lemma_primary_consumes(operand);
            let read = primary(operand);
            if binds(*rhs, p + 1) {
                lemma_flat(*rhs, (p + 1) as u32, s);
                assert(binoprhs(read.rest, read.outcome->Ok_0, (p + 1) as u32) == (Parsed {
                    outcome: Ok(*rhs),
                    rest: s,
                }));
            } else {
                lemma_show(*rhs, s);
            }
            assert(binoprhs(behind, *lhs, min) == binoprhs(s, e, min));
        },
        _ => {
            lemma_atom(e, s);
        },
    }
}

/// The parser reads an expression back from what it is written as: `flat` is
/// a right inverse of the parser.
///
/// Whatever tree the operators of the precedence table can form is read back
/// from `flat(e)`, if what follows can end an expression. An operand
/// without parentheses is thus taken by the operator that binds tighter, by
/// the left one of two that bind alike, and parentheses can give it to the
/// other.
pub proof fn lemma_parse_inverts_flat(e: ExprView, s: Seq<Lexeme>)
    requires
        e.operators_known(),
        ends_expression(s),
    ensures
        expression(flat(e) + s) == (Parsed { outcome: Ok(e), rest: s }),
    decreases e, 2int,
{
    lemma_flat(e, 0, s);
    lemma_primary_consumes(flat(e) + s);
}

/// An operand between two operators goes to the one that binds tighter, and
/// to the left one where both bind alike.
///
/// `a`, `b` and `c` are operands that are no binary operations, `first` and
/// `second` are operators, and `s` can end an expression. Then the lexemes
/// `a first b second c` are read as `a first (b second c)` if `second` binds
/// tighter than `first`, and as `(a first b) second c` if it does not.
pub proof fn lemma_operand_between_operators(
    a: ExprView,
    first: char,
    b: ExprView,
    second: char,
    c: ExprView,
    s: Seq<Lexeme>,
)
    requires
        !(a is Binary) && !(b is Binary) && !(c is Binary),
        a.operators_known() && b.operators_known() && c.operators_known(),
        precedence(first) is Some,
        precedence(second) is Some,
        ends_expression(s),
    ensures
        expression(atom(a) + seq![symbol(first)] + atom(b) + seq![symbol(second)] + atom(c) + s)
            == (Parsed {
            outcome: Ok(
                if binding(second) > binding(first) {
                    ExprView::Binary {
                        op: first,
                        lhs: Box::new(a),
                        rhs: Box::new(
                            ExprView::Binary { op: second, lhs: Box::new(b), rhs: Box::new(c) },
                        ),
                    }
                } else {
                    ExprView::Binary {
                        op: second,
                        lhs: Box::new(
                            ExprView::Binary { op: first, lhs: Box::new(a), rhs: Box::new(b) },
                        ),
                        rhs: Box::new(c),
                    }
                },
            ),
            rest: s,
        }),
{
    let written = atom(a) + seq![symbol(first)] + atom(b) + seq![symbol(second)] + atom(c);
    assert(show(a) == atom(a) && show(b) == atom(b) && show(c) == atom(c));
    if binding(second) > binding(first) {
        let inner = ExprView::Binary { op: second, lhs: Box::new(b), rhs: Box::new(c) };
        let outer = ExprView::Binary { op: first, lhs: Box::new(a), rhs: Box::new(inner) };
        assert(flat(inner) =~= atom(b) + seq![symbol(second)] + atom(c));
        assert(flat(outer) =~= written);
        assert(inner.operators_known());
        assert(outer.operators_known());
        lemma_parse_inverts_flat(outer, s);
    } else {
        let inner = ExprView::Binary { op: first, lhs: Box::new(a), rhs: Box::new(b) };
        let outer = ExprView::Binary { op: second, lhs: Box::new(inner), rhs: Box::new(c) };
        assert(flat(inner) =~= atom(a) + seq![symbol(first)] + atom(b));
        assert(flat(outer) =~= written);
        assert(inner.operators_known());
        assert(outer.operators_known());
        lemma_parse_inverts_flat(outer, s);
    }
}

/// The lexemes of a list of names.
pub open spec fn identifiers(names: Seq<Seq<char>>) -> Seq<Lexeme> {
    Seq::new(names.len(), |i: int| Ok(TokenView::Identifier(names[i])))
}

/// A prototype as lexemes: the name, and the parameter names between
/// parentheses.
pub open spec fn written_prototype(proto: PrototypeView) -> Seq<Lexeme> {
    seq![Ok(TokenView::Identifier(proto.name)), symbol('(')] + identifiers(proto.params) + seq![
        symbol(')'),
    ]
}

/// A top-level unit as lexemes.
pub open spec fn written_unit(u: UnitView) -> Seq<Lexeme> {
    match u {
        UnitView::Definition(function) => seq![Ok(TokenView::Def)] + written_prototype(
            function.proto,
        ) + flat(function.body),
        UnitView::Extern(proto) => seq![Ok(TokenView::Extern)] + written_prototype(proto),
        UnitView::Expression(expr) => flat(expr),
    }
}

/// A list of top-level units as lexemes, each followed by a semicolon.
pub open spec fn written(units: Seq<UnitView>) -> Seq<Lexeme>
    decreases units.len(),
{
    if units.len() == 0 {
        Seq::empty()
    } else {
        written_unit(units[0]) + seq![symbol(';')] + written(units.drop_first())
    }
}

/// The parameter names of a prototype are read back one by one.
proof fn lemma_parameters(names: Seq<Seq<char>>, seen: Seq<Seq<char>>, s: Seq<Lexeme>)
    ensures
        parameters(identifiers(names) + seq![symbol(')')] + s, seen) == (Parsed {
            outcome: Ok(seen + names),
            rest: s,
        }),
    decreases names.len(),
{
    let whole = identifiers(names) + seq![symbol(')')] + s;
    if names.len() == 0 {
        assert(whole.drop_first() =~= s);
        assert(seen + names =~= seen);
    } else {
        let others = names.drop_first();
        assert(whole.drop_first() =~= identifiers(others) + seq![symbol(')')] + s);
        lemma_parameters(others, seen.push(names[0]), s);
        assert(seen.push(names[0]) + others =~= seen + names);
    }
}

/// The parser reads a prototype back from what it is written as.
pub proof fn lemma_parse_inverts_written_prototype(proto: PrototypeView, s: Seq<Lexeme>)
    ensures
        prototype(written_prototype(proto) + s) == (Parsed { outcome: Ok(proto), rest: s }),
{
    let whole = written_prototype(proto) + s;
    assert(whole.drop_first().drop_first() =~= identifiers(proto.params) + seq![symbol(')')] + s);
    lemma_parameters(proto.params, Seq::empty(), s);
    assert(Seq::<Seq<char>>::empty() + proto.params =~= proto.params);
}

/// The parser reads a definition back from what it is written as, if what
/// follows can end an expression.
pub proof fn lemma_parse_inverts_written_definition(function: FunctionView, s: Seq<Lexeme>)
    requires
        function.body.operators_known(),
        ends_expression(s),
    ensures
        definition(written_unit(UnitView::Definition(function)) + s) == (Parsed {
            outcome: Ok(function),
            rest: s,
        }),
{
    let whole = written_unit(UnitView::Definition(function)) + s;
    let body = flat(function.body) + s;
    assert(whole.drop_first() =~= written_prototype(function.proto) + body);
    lemma_parse_inverts_written_prototype(function.proto, body);
    lemma_parse_inverts_flat(function.body, s);
}

/// The parser reads an extern declaration back from what it is written as.
pub proof fn lemma_parse_inverts_written_extern(proto: PrototypeView, s: Seq<Lexeme>)
    ensures
        external(written_unit(UnitView::Extern(proto)) + s) == (Parsed {
            outcome: Ok(proto),
            rest: s,
        }),
{
    let whole = written_unit(UnitView::Extern(proto)) + s;
    assert(whole.drop_first() =~= written_prototype(proto) + s);
    lemma_parse_inverts_written_prototype(proto, s);
}

/// The parser reads a top-level unit back from what it is written as, if what
/// follows can end an expression.
pub proof fn lemma_parse_inverts_written_unit(u: UnitView, s: Seq<Lexeme>)
    requires
        u.operators_known(),
        ends_expression(s),
    ensures
        unit(written_unit(u) + s) == (Parsed { outcome: Ok(Some(u)), rest: s }),
{
    match u {
        UnitView::Definition(function) => {
            lemma_parse_inverts_written_definition(function, s);
        },
        UnitView::Extern(proto) => {
            lemma_parse_inverts_written_extern(proto, s);
        },
        UnitView::Expression(expr) => {
            lemma_flat_starts(expr, s);
            lemma_parse_inverts_flat(expr, s);
        },
    }
}

/// A semicolon before the units of a program changes nothing.
proof fn lemma_program_skips_semicolon(s: Seq<Lexeme>)
    ensures
        program(seq![symbol(';')] + s) == program(s),
{
    let behind = seq![symbol(';')] + s;
    assert(behind.drop_first() =~= s);
    assert(skip_semicolons(behind) == skip_semicolons(s));
    assert(unit(behind) == unit(s));
    lemma_unit_consumes(s);
}

/// The parser reads a list of top-level units back from what it is written
/// as: `written` is a right inverse of the parser.
pub proof fn lemma_parse_inverts_written(units: Seq<UnitView>)
    requires
        forall|i: int| 0 <= i < units.len() ==> (#[trigger] units[i]).operators_known(),
    ensures
        program(written(units)) == (Parsed { outcome: Ok(units), rest: Seq::empty() }),
    decreases units.len(),
{
    if units.len() == 0 {
        assert(units =~= Seq::<UnitView>::empty());
    } else {
        let others = units.drop_first();
        let behind = seq![symbol(';')] + written(others);
        assert(written(units) =~= written_unit(units[0]) + behind);
        lemma_parse_inverts_written_unit(units[0], behind);
        lemma_unit_consumes(written(units));
        assert forall|i: int| 0 <= i < others.len() implies (#[trigger] others[i])
            .operators_known() by {
            assert(others[i] == units[i + 1]);
        }
        lemma_parse_inverts_written(others);
        lemma_program_skips_semicolon(written(others));
        assert(seq![units[0]] + others =~= units);
    }
}

} // verus!
