use kaleidoscope::ast::{Expr, Function, Prototype, Unit};
use kaleidoscope::grammar::precedence;
use kaleidoscope::parser::Parser;
use kaleidoscope::visit::{operation, Operation, Visit};

fn number(text: &str) -> Visit {
    Visit::Number(text.to_string())
}

fn variable(name: &str) -> Visit {
    Visit::Variable(name.to_string())
}

fn call(callee: &str, args: usize) -> Visit {
    Visit::Call { callee: callee.to_string(), args }
}

fn order(buf: &str) -> Vec<Visit> {
    let mut parser = Parser::new(buf);
    parser.get_next_token();
    parser.parse_expression().unwrap().postorder()
}

fn depth_after(order: &[Visit]) -> Option<usize> {
    let mut depth: usize = 0;
    for visit in order {
        depth = match visit {
            Visit::Number(_) | Visit::Variable(_) => depth + 1,
            Visit::Binary(_) => depth.checked_sub(2)? + 1,
            Visit::Call { args, .. } => depth.checked_sub(*args)? + 1,
        };
    }
    Some(depth)
}

#[test]
fn test_codegen() {
    let mut parser = Parser::new(r"
# An incomplete (and wrong) example, because if-stat is not supported for now
def fib(x)
    fib(x-1)+fib(x-2)
");

    assert_eq!(parser.parse(), Ok(()));
    assert_eq!(parser.ast().len(), 1);
    let body = match &parser.ast()[0] {
        Unit::Definition(function) => &function.body,
        other => panic!("not a definition: {:?}", other),
    };
    let visits = body.postorder();
    visits.iter().for_each(|c| println!("{:?}", c));
    assert_eq!(
        visits,
        vec![
            variable("x"),
            number("1"),
            Visit::Binary('-'),
            call("fib", 1),
            variable("x"),
            number("2"),
            Visit::Binary('-'),
            call("fib", 1),
            Visit::Binary('+'),
        ]
    );
}

#[test]
fn leaves_are_single_visits() {
    assert_eq!(order("42"), vec![number("42")]);
    assert_eq!(order("x"), vec![variable("x")]);
    assert_eq!(order("f()"), vec![call("f", 0)]);
}

#[test]
fn children_come_first_and_left_to_right() {
    assert_eq!(
        order("a-b*c"),
        vec![variable("a"), variable("b"), variable("c"), Visit::Binary('*'), Visit::Binary('-')]
    );
    assert_eq!(
        order("f(a, g(b, 1), c<d)"),
        vec![
            variable("a"),
            variable("b"),
            number("1"),
            call("g", 2),
            variable("c"),
            variable("d"),
            Visit::Binary('<'),
            call("f", 3),
        ]
    );
}

#[test]
fn every_visit_finds_its_operands() {
    for buf in ["1", "a+b", "(1+2+x)*(x+(1+2))", "f(a, g(b, 1), c<d) - h()", "f(f(f(f())))"] {
        assert_eq!(depth_after(&order(buf)), Some(1), "{}", buf);
    }
}

#[test]
fn operations_of_the_operators() {
    assert_eq!(operation('<'), Some(Operation::Less));
    assert_eq!(operation('+'), Some(Operation::Add));
    assert_eq!(operation('-'), Some(Operation::Subtract));
    assert_eq!(operation('*'), Some(Operation::Multiply));
    assert_eq!(operation('/'), None);
    assert_eq!(operation(' '), None);
    for code in 0u32..0x250 {
        if let Some(c) = char::from_u32(code) {
            assert_eq!(operation(c).is_some(), precedence(c).is_some());
        }
    }
}

#[test]
fn precedence_table() {
    assert_eq!(precedence('<'), Some(10));
    assert_eq!(precedence('+'), Some(20));
    assert_eq!(precedence('-'), Some(20));
    assert_eq!(precedence('*'), Some(40));
    assert_eq!(precedence('/'), None);
    assert_eq!(precedence('('), None);
    assert_eq!(precedence('a'), None);
}

#[test]
fn anonymous_function_wraps_an_expression() {
    let mut parser = Parser::new("test(3)");
    parser.get_next_token();
    let body = parser.parse_expression().unwrap();
    let function = Function::anonymous(body);
    assert_eq!(*function.proto, Prototype { name: String::new(), args: vec![] });
    assert!(matches!(&*function.body, Expr::CallExpr(call) if call.callee == "test"));
}
