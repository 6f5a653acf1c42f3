use kaleidoscope::ast::{
    BinaryExpr, CallExpr, Expr, Function, NumberExpr, Prototype, Unit, VariableExpr,
};
use kaleidoscope::error::{Expected, ParseError};
use kaleidoscope::parser::Parser;
use kaleidoscope::token::{LexError, Token};

fn num(text: &str) -> Box<Expr> {
    Box::new(Expr::NumberExpr(NumberExpr { val: text.to_string() }))
}

fn var(name: &str) -> Box<Expr> {
    Box::new(Expr::VariableExpr(VariableExpr { name: name.to_string() }))
}

fn bin(op: char, lhs: Box<Expr>, rhs: Box<Expr>) -> Box<Expr> {
    Box::new(Expr::BinaryExpr(BinaryExpr { op, lhs, rhs }))
}

fn call(callee: &str, args: Vec<Box<Expr>>) -> Box<Expr> {
    Box::new(Expr::CallExpr(CallExpr { callee: callee.to_string(), args }))
}

fn proto(name: &str, params: &[&str]) -> Box<Prototype> {
    Box::new(Prototype {
        name: name.to_string(),
        args: params.iter().map(|p| p.to_string()).collect(),
    })
}

fn started(buf: &str) -> Parser<'_> {
    let mut parser = Parser::new(buf);
    parser.get_next_token();
    parser
}

fn expr(buf: &str) -> Result<Box<Expr>, ParseError> {
    started(buf).parse_expression()
}

fn units(buf: &str) -> Result<Vec<Unit>, ParseError> {
    let mut parser = Parser::new(buf);
    parser.parse()?;
    let mut list = Vec::new();
    let mut again = started(buf);
    while let Some(unit) = again.parse_unit()? {
        list.push(unit);
    }
    assert_eq!(parser.ast(), &list);
    Ok(list)
}

fn unexpected(found: Option<Token>, expected: Expected) -> ParseError {
    ParseError::Unexpected { found, expected }
}

fn fib_units() -> Vec<Unit> {
    vec![Unit::Definition(Box::new(Function {
        proto: proto("fib", &["x"]),
        body: bin(
            '+',
            call("fib", vec![bin('-', var("x"), num("1"))]),
            call("fib", vec![bin('-', var("x"), num("2"))]),
        ),
    }))]
}

#[test]
fn test_parse() {
    let mut parser = Parser::new(r"
# An incomplete (and wrong) example, because if-stat is not supported for now
def fib(x)
    fib(x-1)+fib(x-2)
");

    assert_eq!(parser.parse(), Ok(()));
    println!("{:#?}", parser.ast());
    assert_eq!(parser.ast(), &fib_units());
    assert_eq!(parser.token(), None);
}

#[test]
fn precedence_of_product_over_sum() {
    assert_eq!(expr("a+b*c"), Ok(bin('+', var("a"), bin('*', var("b"), var("c")))));
    assert_eq!(expr("a*b+c"), Ok(bin('+', bin('*', var("a"), var("b")), var("c"))));
}

#[test]
fn comparison_binds_loosest() {
    assert_eq!(
        expr("a<b+c*d"),
        Ok(bin('<', var("a"), bin('+', var("b"), bin('*', var("c"), var("d")))))
    );
    assert_eq!(
        expr("a*b+c<d"),
        Ok(bin('<', bin('+', bin('*', var("a"), var("b")), var("c")), var("d")))
    );
    assert_eq!(
        expr("a+b*c-d"),
        Ok(bin('-', bin('+', var("a"), bin('*', var("b"), var("c"))), var("d")))
    );
}

#[test]
fn equal_precedence_associates_left() {
    assert_eq!(expr("a-b-c"), Ok(bin('-', bin('-', var("a"), var("b")), var("c"))));
    assert_eq!(expr("a-b+c"), Ok(bin('+', bin('-', var("a"), var("b")), var("c"))));
    assert_eq!(expr("a*b*c"), Ok(bin('*', bin('*', var("a"), var("b")), var("c"))));
    assert_eq!(expr("a<b<c"), Ok(bin('<', bin('<', var("a"), var("b")), var("c"))));
}

#[test]
fn parentheses_override_precedence() {
    assert_eq!(expr("(a+b)*c"), Ok(bin('*', bin('+', var("a"), var("b")), var("c"))));
    assert_eq!(expr("a*(b+c)"), Ok(bin('*', var("a"), bin('+', var("b"), var("c")))));
    assert_eq!(expr("((a))"), Ok(var("a")));
}

#[test]
fn calls() {
    assert_eq!(expr("f(a,b)"), Ok(call("f", vec![var("a"), var("b")])));
    assert_eq!(expr("f()"), Ok(call("f", vec![])));
    assert_eq!(expr("f(a)"), Ok(call("f", vec![var("a")])));
    assert_eq!(
        expr("f(g(1), a+b, (c))"),
        Ok(call("f", vec![call("g", vec![num("1")]), bin('+', var("a"), var("b")), var("c")]))
    );
    assert_eq!(expr("f (a)"), Ok(call("f", vec![var("a")])));
}

#[test]
fn definition_end_to_end() {
    let mut parser = started("def test(x) (1+2+x)*(x+(1+2))");
    let expected = Box::new(Function {
        proto: proto("test", &["x"]),
        body: bin(
            '*',
            bin('+', bin('+', num("1"), num("2")), var("x")),
            bin('+', var("x"), bin('+', num("1"), num("2"))),
        ),
    });
    assert_eq!(parser.parse_definition(), Ok(expected));
    assert_eq!(parser.token(), None);
}

#[test]
fn driver_session() {
    let list = units(
        r"
        def test(x) (1+2+x)*(x+(1+2));
        test(3);
    ",
    )
    .unwrap();
    assert_eq!(list.len(), 2);
    assert!(matches!(&list[0], Unit::Definition(f) if f.proto == proto("test", &["x"])));
    assert_eq!(list[1], Unit::Expression(call("test", vec![num("3")])));
}

#[test]
fn externs_and_prototypes() {
    let mut parser = started("extern sin(x) extern atan2(y x) extern now()");
    assert_eq!(parser.parse_extern(), Ok(proto("sin", &["x"])));
    assert_eq!(parser.parse_extern(), Ok(proto("atan2", &["y", "x"])));
    assert_eq!(parser.parse_extern(), Ok(proto("now", &[])));
    assert_eq!(parser.token(), None);
}

#[test]
fn duplicate_parameters_are_kept() {
    let mut parser = started("def f(x x) x");
    let function = parser.parse_definition().unwrap();
    assert_eq!(function.proto, proto("f", &["x", "x"]));
    assert_eq!(function.body, var("x"));
}

#[test]
fn top_level_units_in_source_order() {
    assert_eq!(
        units(";; a; extern f(x); ;def g() 1 b+c;"),
        Ok(vec![
            Unit::Expression(var("a")),
            Unit::Extern(proto("f", &["x"])),
            Unit::Definition(Box::new(Function { proto: proto("g", &[]), body: num("1") })),
            Unit::Expression(bin('+', var("b"), var("c"))),
        ])
    );
    assert_eq!(units(""), Ok(vec![]));
    assert_eq!(units(" ;;; # nothing\n"), Ok(vec![]));
}

#[test]
fn units_need_no_separator() {
    assert_eq!(units("a b"), Ok(vec![Unit::Expression(var("a")), Unit::Expression(var("b"))]));
    assert_eq!(
        units("def f(x) x def g(y) y"),
        Ok(vec![
            Unit::Definition(Box::new(Function { proto: proto("f", &["x"]), body: var("x") })),
            Unit::Definition(Box::new(Function { proto: proto("g", &["y"]), body: var("y") })),
        ])
    );
}

#[test]
fn lookahead_protocol() {
    let mut parser = Parser::new("a + b ; c");
    assert_eq!(parser.token(), None);
    parser.get_next_token();
    assert_eq!(parser.token(), Some(Ok(Token::Identifier("a".to_string()))));
    assert_eq!(parser.parse_expression(), Ok(bin('+', var("a"), var("b"))));
    assert_eq!(parser.token(), Some(Ok(Token::Symbol(';'))));
    parser.get_next_token();
    assert_eq!(parser.token(), Some(Ok(Token::Identifier("c".to_string()))));
    parser.get_next_token();
    assert_eq!(parser.token(), None);
    parser.get_next_token();
    assert_eq!(parser.token(), None);
    assert_eq!(parser.parse_unit(), Ok(None));
}

#[test]
fn a_new_parser_has_read_nothing() {
    let parser = Parser::new("x");
    assert_eq!(parser.token(), None);
    assert_eq!(parser.ast(), &Vec::new());

    let mut parser = Parser::new("x y");
    parser.get_next_token();
    assert_eq!(parser.token(), Some(Ok(Token::Identifier("x".to_string()))));
    parser.get_next_token();
    assert_eq!(parser.token(), Some(Ok(Token::Identifier("y".to_string()))));
    parser.get_next_token();
    assert_eq!(parser.token(), None);
}

#[test]
fn an_empty_lookahead_is_the_end_of_the_input() {
    let mut parser = Parser::new("a+b");
    assert_eq!(parser.parse_expression(), Err(unexpected(None, Expected::Primary)));
    assert_eq!(parser.parse_definition(), Err(unexpected(None, Expected::Def)));
    assert_eq!(parser.parse_extern(), Err(unexpected(None, Expected::Extern)));
    assert_eq!(parser.parse_unit(), Ok(None));
    assert_eq!(parser.token(), None);
    parser.get_next_token();
    assert_eq!(parser.token(), Some(Ok(Token::Identifier("a".to_string()))));
    assert_eq!(parser.parse_expression(), Ok(bin('+', var("a"), var("b"))));
    assert_eq!(parser.token(), None);
}

#[test]
fn get_next_token_replaces_the_lookahead() {
    let mut parser = started("a b c");
    parser.get_next_token();
    assert_eq!(parser.parse_expression(), Ok(var("b")));
    assert_eq!(parser.token(), Some(Ok(Token::Identifier("c".to_string()))));
}

#[test]
fn parse_starts_behind_the_lookahead() {
    let mut parser = Parser::new("a b c");
    assert_eq!(parser.parse(), Ok(()));
    assert_eq!(
        parser.ast(),
        &vec![
            Unit::Expression(var("a")),
            Unit::Expression(var("b")),
            Unit::Expression(var("c")),
        ]
    );

    let mut parser = started("a b c");
    assert_eq!(parser.parse(), Ok(()));
    assert_eq!(parser.ast(), &vec![Unit::Expression(var("b")), Unit::Expression(var("c"))]);
    assert_eq!(parser.token(), None);
}

#[test]
fn what_follows_a_unit_is_left_as_the_lookahead() {
    let mut parser = started("def f(x y) x+y; 1");
    let function = parser.parse_definition().unwrap();
    assert_eq!(function.proto, proto("f", &["x", "y"]));
    assert_eq!(function.body, bin('+', var("x"), var("y")));
    assert_eq!(parser.token(), Some(Ok(Token::Symbol(';'))));

    let mut parser = started("extern sin(x) 1");
    assert_eq!(parser.parse_extern(), Ok(proto("sin", &["x"])));
    assert_eq!(parser.token(), Some(Ok(Token::Number("1".to_string()))));

    let mut parser = started("4.5 x");
    assert_eq!(parser.parse_expression(), Ok(num("4.5")));
    assert_eq!(parser.token(), Some(Ok(Token::Identifier("x".to_string()))));

    let mut parser = started("(a+b)*c");
    assert_eq!(
        parser.parse_expression(),
        Ok(bin('*', bin('+', var("a"), var("b")), var("c")))
    );
    assert_eq!(parser.token(), None);
}

#[test]
fn a_keyword_is_asked_for_at_the_first_lexeme() {
    let mut parser = started("f(x) x");
    assert_eq!(
        parser.parse_definition(),
        Err(unexpected(Some(Token::Identifier("f".to_string())), Expected::Def))
    );
    let mut parser = started("sin(x)");
    assert_eq!(
        parser.parse_extern(),
        Err(unexpected(Some(Token::Identifier("sin".to_string())), Expected::Extern))
    );
}

#[test]
fn unknown_symbol_ends_an_expression() {
    let mut parser = started("a / b");
    assert_eq!(parser.parse_expression(), Ok(var("a")));
    assert_eq!(parser.token(), Some(Ok(Token::Symbol('/'))));
    assert_eq!(
        parser.parse_expression(),
        Err(unexpected(Some(Token::Symbol('/')), Expected::Primary))
    );
    assert_eq!(parser.token(), Some(Ok(Token::Symbol('/'))));
}

#[test]
fn missing_closing_parenthesis() {
    assert_eq!(expr("(a+b"), Err(unexpected(None, Expected::Symbol(')'))));
    assert_eq!(
        expr("(a b)"),
        Err(unexpected(Some(Token::Identifier("b".to_string())), Expected::Symbol(')')))
    );
}

#[test]
fn missing_primary() {
    assert_eq!(expr(""), Err(unexpected(None, Expected::Primary)));
    assert_eq!(expr("a+"), Err(unexpected(None, Expected::Primary)));
    assert_eq!(expr("a+*b"), Err(unexpected(Some(Token::Symbol('*')), Expected::Primary)));
    assert_eq!(expr("def"), Err(unexpected(Some(Token::Def), Expected::Primary)));
    assert_eq!(expr(")"), Err(unexpected(Some(Token::Symbol(')')), Expected::Primary)));
}

#[test]
fn stray_commas_are_refused() {
    assert_eq!(expr("f(,a)"), Err(unexpected(Some(Token::Symbol(',')), Expected::Primary)));
    assert_eq!(expr("f(a,,b)"), Err(unexpected(Some(Token::Symbol(',')), Expected::Primary)));
    assert_eq!(expr("f(a,)"), Err(unexpected(Some(Token::Symbol(')')), Expected::Primary)));
    assert_eq!(
        expr("f(a b)"),
        Err(unexpected(Some(Token::Identifier("b".to_string())), Expected::ArgumentEnd))
    );
    assert_eq!(expr("f(a"), Err(unexpected(None, Expected::ArgumentEnd)));
    assert_eq!(expr("f("), Err(unexpected(None, Expected::Primary)));
}

#[test]
fn malformed_prototypes() {
    let mut parser = started("def 1(x) x");
    assert_eq!(
        parser.parse_definition(),
        Err(unexpected(Some(Token::Number("1".to_string())), Expected::Identifier))
    );
    let mut parser = started("def f x");
    assert_eq!(
        parser.parse_definition(),
        Err(unexpected(Some(Token::Identifier("x".to_string())), Expected::Symbol('(')))
    );
    let mut parser = started("extern f(x, y)");
    assert_eq!(
        parser.parse_extern(),
        Err(unexpected(Some(Token::Symbol(',')), Expected::Symbol(')')))
    );
    let mut parser = started("extern f(x");
    assert_eq!(parser.parse_extern(), Err(unexpected(None, Expected::Symbol(')'))));
    let mut parser = started("extern");
    assert_eq!(parser.parse_extern(), Err(unexpected(None, Expected::Identifier)));
}

#[test]
fn wrong_keyword() {
    let mut parser = started("extern f()");
    assert_eq!(parser.parse_definition(), Err(unexpected(Some(Token::Extern), Expected::Def)));
    assert_eq!(parser.token(), Some(Ok(Token::Extern)));
    let mut parser = started("def f() 1");
    assert_eq!(parser.parse_extern(), Err(unexpected(Some(Token::Def), Expected::Extern)));
    let mut parser = started("");
    assert_eq!(parser.parse_definition(), Err(unexpected(None, Expected::Def)));
}

#[test]
fn malformed_literal_fails_the_parse() {
    let bad = ParseError::Lex(LexError { literal: "1.2.3".to_string() });
    assert_eq!(expr("1.2.3"), Err(bad));
    let bad = ParseError::Lex(LexError { literal: "..".to_string() });
    assert_eq!(expr("a + .."), Err(bad));
    let bad = ParseError::Lex(LexError { literal: ".".to_string() });
    assert_eq!(expr("f(a ."), Err(bad));

    let mut parser = Parser::new("a; b 1..2; c");
    let bad = ParseError::Lex(LexError { literal: "1..2".to_string() });
    assert_eq!(parser.parse(), Err(bad));
    assert_eq!(parser.ast(), &Vec::new());
}

#[test]
fn failure_keeps_earlier_units_of_earlier_parses_only() {
    let mut parser = started("a; b; (c");
    assert_eq!(parser.parse_unit(), Ok(Some(Unit::Expression(var("a")))));
    assert_eq!(parser.token(), Some(Ok(Token::Symbol(';'))));
    assert_eq!(parser.parse(), Err(unexpected(None, Expected::Symbol(')'))));
    assert_eq!(parser.ast(), &Vec::new());
    assert_eq!(parser.token(), None);
}

#[test]
fn blanks_between_tokens_keep_the_tree() {
    let plain = units("def test(x)(1+2+x)*(x+(1+2));test(3);").unwrap();
    let spaced = units(
        r"# a definition
def test ( x ) # its body
  ( 1 + 2 + x ) * ( x + ( 1 + 2 ) ) ;

# a call
test ( 3 ) ; # done
",
    )
    .unwrap();
    assert_eq!(plain, spaced);
    assert_eq!(plain.len(), 2);
}

#[test]
fn every_operator_of_a_parsed_tree_is_in_the_table() {
    fn known(expr: &Expr) -> bool {
        match expr {
            Expr::NumberExpr(_) | Expr::VariableExpr(_) => true,
            Expr::BinaryExpr(b) => {
                kaleidoscope::grammar::precedence(b.op).is_some() && known(&b.lhs) && known(&b.rhs)
            }
            Expr::CallExpr(c) => c.args.iter().all(|a| known(a)),
        }
    }
    for buf in ["a+b*c<d-e", "f(a*b, (c-d)<e)", "((1))", "a / b", "a = b", "a + b ! c"] {
        assert!(known(&expr(buf).unwrap()), "{}", buf);
    }
    assert_eq!(expr("a = b"), Ok(var("a")));
}

fn written(expr: &Expr, out: &mut String) {
    fn binds(expr: &Expr, min: u32) -> bool {
        match expr {
            Expr::BinaryExpr(b) => kaleidoscope::grammar::precedence(b.op).unwrap() >= min,
            _ => false,
        }
    }
    fn operand(expr: &Expr, bare: bool, out: &mut String) {
        if bare || !matches!(expr, Expr::BinaryExpr(_)) {
            written(expr, out);
        } else {
            out.push('(');
            written(expr, out);
            out.push(')');
        }
    }
    match expr {
        Expr::NumberExpr(n) => out.push_str(&n.val),
        Expr::VariableExpr(v) => out.push_str(&v.name),
        Expr::BinaryExpr(b) => {
            let p = kaleidoscope::grammar::precedence(b.op).unwrap();
            operand(&b.lhs, binds(&b.lhs, p), out);
            out.push(b.op);
            operand(&b.rhs, binds(&b.rhs, p + 1), out);
        }
        Expr::CallExpr(c) => {
            out.push_str(&c.callee);
            out.push('(');
            for (i, arg) in c.args.iter().enumerate() {
                if i > 0 {
                    out.push(',');
                }
                written(arg, out);
            }
            out.push(')');
        }
    }
}

fn copy(expr: &Expr) -> Box<Expr> {
    match expr {
        Expr::NumberExpr(n) => num(&n.val),
        Expr::VariableExpr(v) => var(&v.name),
        Expr::BinaryExpr(b) => bin(b.op, copy(&b.lhs), copy(&b.rhs)),
        Expr::CallExpr(c) => call(&c.callee, c.args.iter().map(|a| copy(a)).collect()),
    }
}

fn trees(depth: u32) -> Vec<Box<Expr>> {
    if depth == 0 {
        return vec![var("a"), num("1"), call("f", vec![])];
    }
    let smaller = trees(depth - 1);
    let mut all: Vec<Box<Expr>> = smaller.iter().map(|e| copy(e)).collect();
    for op in ['<', '+', '-', '*'] {
        for lhs in smaller.iter().take(9) {
            for rhs in smaller.iter().take(9) {
                all.push(bin(op, copy(lhs), copy(rhs)));
            }
        }
    }
    all.push(call("g", vec![copy(&smaller[smaller.len() - 1]), copy(&smaller[0])]));
    all
}

#[test]
fn a_tree_is_read_back_from_what_it_is_written_as() {
    let mut count = 0;
    for tree in trees(2) {
        let mut text = String::new();
        written(&tree, &mut text);
        assert_eq!(expr(&text), Ok(tree), "{}", text);
        count += 1;
    }
    assert!(count > 300);
    let mut text = String::new();
    written(&bin('-', var("a"), bin('-', var("b"), var("c"))), &mut text);
    assert_eq!(text, "a-(b-c)");
    let mut text = String::new();
    written(&bin('*', bin('+', var("a"), var("b")), bin('*', var("c"), var("d"))), &mut text);
    assert_eq!(text, "(a+b)*(c*d)");
    let mut text = String::new();
    written(&bin('+', bin('*', var("a"), var("b")), bin('*', var("c"), var("d"))), &mut text);
    assert_eq!(text, "a*b+c*d");
}
