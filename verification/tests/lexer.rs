use kaleidoscope::lexer::Lexer;
use kaleidoscope::token::{LexError, Token};

fn ident(name: &str) -> Token {
    Token::Identifier(name.to_string())
}

fn number(text: &str) -> Token {
    Token::Number(text.to_string())
}

fn value(token: &Token) -> f64 {
    match token {
        Token::Number(text) => text.parse::<f64>().unwrap(),
        other => panic!("not a number: {:?}", other),
    }
}

fn all(buf: &str) -> Vec<Result<Token, LexError>> {
    let mut lexer = Lexer::new(buf);
    let mut items = Vec::new();
    while let Some(item) = lexer.next() {
        items.push(item);
    }
    items
}

#[test]
fn test_lexer() {
    let mut lexer = Lexer::new(r"
# Compute the x'th fibonacci number.
def fib(x)
  if x < 3 then
    1
  else
    fib(x-1)+fib(x-2)

# This expression will compute the 40th number.
fib(40)
");

    assert_eq!(lexer.next().unwrap().unwrap(), Token::Def);
    assert_eq!(lexer.next().unwrap().unwrap(), Token::Identifier("fib".to_string()));
    assert_eq!(lexer.next().unwrap().unwrap(), Token::Symbol('('));
    assert_eq!(lexer.next().unwrap().unwrap(), Token::Identifier("x".to_string()));
    assert_eq!(lexer.next().unwrap().unwrap(), Token::Symbol(')'));
    assert_eq!(lexer.next().unwrap().unwrap(), Token::Identifier("if".to_string()));
    assert_eq!(lexer.next().unwrap().unwrap(), Token::Identifier("x".to_string()));
    assert_eq!(lexer.next().unwrap().unwrap(), Token::Symbol('<'));
    assert_eq!(value(&lexer.next().unwrap().unwrap()), 3.0);
    assert_eq!(lexer.next().unwrap().unwrap(), Token::Identifier("then".to_string()));
    assert_eq!(value(&lexer.next().unwrap().unwrap()), 1.0);
    assert_eq!(lexer.next().unwrap().unwrap(), Token::Identifier("else".to_string()));
    assert_eq!(lexer.next().unwrap().unwrap(), Token::Identifier("fib".to_string()));
    assert_eq!(lexer.next().unwrap().unwrap(), Token::Symbol('('));
    assert_eq!(lexer.next().unwrap().unwrap(), Token::Identifier("x".to_string()));
    assert_eq!(lexer.next().unwrap().unwrap(), Token::Symbol('-'));
    assert_eq!(value(&lexer.next().unwrap().unwrap()), 1.0);
    assert_eq!(lexer.next().unwrap().unwrap(), Token::Symbol(')'));
    assert_eq!(lexer.next().unwrap().unwrap(), Token::Symbol('+'));
    assert_eq!(lexer.next().unwrap().unwrap(), Token::Identifier("fib".to_string()));
    assert_eq!(lexer.next().unwrap().unwrap(), Token::Symbol('('));
    assert_eq!(lexer.next().unwrap().unwrap(), Token::Identifier("x".to_string()));
    assert_eq!(lexer.next().unwrap().unwrap(), Token::Symbol('-'));
    assert_eq!(value(&lexer.next().unwrap().unwrap()), 2.0);
    assert_eq!(lexer.next().unwrap().unwrap(), Token::Symbol(')'));
    assert_eq!(lexer.next().unwrap().unwrap(), Token::Identifier("fib".to_string()));
    assert_eq!(lexer.next().unwrap().unwrap(), Token::Symbol('('));
    assert_eq!(value(&lexer.next().unwrap().unwrap()), 40.0);
    assert_eq!(lexer.next().unwrap().unwrap(), Token::Symbol(')'));
    assert!(lexer.next().is_none());
}

#[test]
fn numbers_keep_their_text() {
    assert_eq!(
        all("3 40 1.5 .5 5. 007"),
        vec![
            Ok(number("3")),
            Ok(number("40")),
            Ok(number("1.5")),
            Ok(number(".5")),
            Ok(number("5.")),
            Ok(number("007")),
        ]
    );
}

#[test]
fn keywords_and_identifiers() {
    assert_eq!(
        all("def extern define ext Def x1 d"),
        vec![
            Ok(Token::Def),
            Ok(Token::Extern),
            Ok(ident("define")),
            Ok(ident("ext")),
            Ok(ident("Def")),
            Ok(ident("x1")),
            Ok(ident("d")),
        ]
    );
}

fn bad(text: &str) -> Result<Token, LexError> {
    Err(LexError { literal: text.to_string() })
}

#[test]
fn empty_and_blank_buffers_hold_no_token() {
    assert_eq!(all(""), vec![]);
    assert_eq!(all(" \t\r\n\x0c"), vec![]);
    assert_eq!(all("# only a comment"), vec![]);
    assert_eq!(all("# one\n# two\n\n  # three"), vec![]);
}

#[test]
fn end_of_stream_stays() {
    let mut lexer = Lexer::new("a ");
    assert_eq!(lexer.next(), Some(Ok(ident("a"))));
    assert_eq!(lexer.next(), None);
    assert_eq!(lexer.next(), None);
    assert_eq!(lexer.next(), None);
}

#[test]
fn comments_run_to_the_end_of_the_line() {
    assert_eq!(all("a # b c\nd"), vec![Ok(ident("a")), Ok(ident("d"))]);
    assert_eq!(all("a # b # c\n# d\ne#"), vec![Ok(ident("a")), Ok(ident("e"))]);
    assert_eq!(all("a#\rb\nc"), vec![Ok(ident("a")), Ok(ident("c"))]);
    assert_eq!(all("1#2\n3"), vec![Ok(number("1")), Ok(number("3"))]);
}

#[test]
fn vertical_tab_is_no_whitespace() {
    assert_eq!(all("a\x0bb"), vec![Ok(ident("a")), Ok(Token::Symbol('\x0b')), Ok(ident("b"))]);
}

#[test]
fn identifiers_are_maximal_runs() {
    assert_eq!(all("abc123 a1b2"), vec![Ok(ident("abc123")), Ok(ident("a1b2"))]);
    assert_eq!(all("a_b"), vec![Ok(ident("a")), Ok(Token::Symbol('_')), Ok(ident("b"))]);
    assert_eq!(all("x.5"), vec![Ok(ident("x")), Ok(number(".5"))]);
    assert_eq!(all("externdef"), vec![Ok(ident("externdef"))]);
    assert_eq!(all("def1"), vec![Ok(ident("def1"))]);
}

#[test]
fn numbers_are_maximal_runs() {
    assert_eq!(all("1a"), vec![Ok(number("1")), Ok(ident("a"))]);
    assert_eq!(all("1.5x2"), vec![Ok(number("1.5")), Ok(ident("x2"))]);
    assert_eq!(all("1+2"), vec![Ok(number("1")), Ok(Token::Symbol('+')), Ok(number("2"))]);
    assert_eq!(all("1e5"), vec![Ok(number("1")), Ok(ident("e5"))]);
    assert_eq!(all("-1"), vec![Ok(Token::Symbol('-')), Ok(number("1"))]);
}

#[test]
fn malformed_numbers_are_failures() {
    assert_eq!(all("1.2.3"), vec![bad("1.2.3")]);
    assert_eq!(all("."), vec![bad(".")]);
    assert_eq!(all(".."), vec![bad("..")]);
    assert_eq!(all("1..2"), vec![bad("1..2")]);
    assert_eq!(all("..5"), vec![bad("..5")]);
    assert_eq!(all("5.."), vec![bad("5..")]);
}

#[test]
fn lexer_goes_on_behind_a_malformed_number() {
    assert_eq!(
        all("a 1.2.3 b . c"),
        vec![Ok(ident("a")), bad("1.2.3"), Ok(ident("b")), bad("."), Ok(ident("c"))]
    );
}

#[test]
fn number_literals_are_what_parses_as_a_float() {
    let digits = ['0', '7', '.'];
    let mut runs = vec![String::new()];
    for _ in 0..6 {
        let mut longer = Vec::new();
        for run in &runs {
            for d in digits {
                let mut next = run.clone();
                next.push(d);
                longer.push(next);
            }
        }
        for run in &longer {
            let expected = match run.parse::<f64>() {
                Ok(_) => Ok(Token::Number(run.clone())),
                Err(_) => Err(LexError { literal: run.clone() }),
            };
            assert_eq!(all(run), vec![expected], "{}", run);
        }
        runs = longer;
    }
}

#[test]
fn number_values() {
    let values: Vec<f64> = all("0 1 2.5 .25 10. 0001 123456789")
        .iter()
        .map(|item| value(item.as_ref().unwrap()))
        .collect();
    assert_eq!(values, vec![0.0, 1.0, 2.5, 0.25, 10.0, 1.0, 123456789.0]);
}

#[test]
fn any_other_byte_is_a_symbol() {
    assert_eq!(
        all("( ) , ; < + - * / = ! @ $ _ ' \""),
        "(),;<+-*/=!@$_'\"".chars().map(|c| Ok(Token::Symbol(c))).collect::<Vec<_>>()
    );
    assert_eq!(all("\0"), vec![Ok(Token::Symbol('\0'))]);
    assert_eq!(all("\x7f"), vec![Ok(Token::Symbol('\x7f'))]);
}

#[test]
fn bytes_beyond_ascii_are_symbols_one_by_one() {
    assert_eq!(
        all("a\u{e9}b"),
        vec![
            Ok(ident("a")),
            Ok(Token::Symbol('\u{c3}')),
            Ok(Token::Symbol('\u{a9}')),
            Ok(ident("b")),
        ]
    );
    assert_eq!(
        all("\u{aa}"),
        vec![Ok(Token::Symbol('\u{c2}')), Ok(Token::Symbol('\u{aa}'))]
    );
    assert_eq!(all("\u{20ac}").len(), 3);
}

#[test]
fn rescanning_gives_the_same_tokens() {
    let buf = "def f(x) x*2.5 # twice\n f(1..) extern \u{e9} g";
    let first = all(buf);
    let second = all(buf);
    assert_eq!(first, second);
    assert_eq!(first.len(), 16);
    let copy = buf.to_string();
    assert_eq!(all(&copy), first);
}

#[test]
fn blanks_between_tokens_change_nothing() {
    let tokens = all("def f(x)x*2.5<y;f(1)");
    assert_eq!(tokens.len(), 15);
    assert_eq!(all("def f (x) x * 2.5 < y ; f ( 1 )"), tokens);
    assert_eq!(all("def\tf\n(\rx\x0c)x*2.5<y;f(1)\n\n"), tokens);
    assert_eq!(all("# head\ndef # a\n f(x)#b\n#c\nx*2.5<y;# d\nf(1)# tail"), tokens);
    assert_eq!(all("def f(x)x*2.5<y;f(1)#"), tokens);
    assert_eq!(all(" def f(x)x*2.5<y;f(1)"), tokens);
}

#[test]
fn blanks_within_tokens_split_them() {
    assert_eq!(all("ab"), vec![Ok(ident("ab"))]);
    assert_eq!(all("a b"), vec![Ok(ident("a")), Ok(ident("b"))]);
    assert_eq!(all("1.5"), vec![Ok(number("1.5"))]);
    assert_eq!(all("1 .5"), vec![Ok(number("1")), Ok(number(".5"))]);
    assert_eq!(all("a#\nb"), vec![Ok(ident("a")), Ok(ident("b"))]);
}

/// A scan written out step by step, to hold the lexer against.
fn scan(buf: &str) -> Vec<Result<Token, LexError>> {
    let bytes = buf.as_bytes();
    let mut items = Vec::new();
    let mut pos = 0;
    while pos < bytes.len() {
        let b = bytes[pos];
        if b.is_ascii_whitespace() {
            pos += 1;
        } else if b == b'#' {
            while pos < bytes.len() && bytes[pos] != b'\n' {
                pos += 1;
            }
            if pos < bytes.len() {
                pos += 1;
            }
        } else if b.is_ascii_alphabetic() {
            let start = pos;
            while pos < bytes.len() && bytes[pos].is_ascii_alphanumeric() {
                pos += 1;
            }
            items.push(Ok(match &buf[start..pos] {
                "def" => Token::Def,
                "extern" => Token::Extern,
                name => Token::Identifier(name.to_string()),
            }));
        } else if b.is_ascii_digit() || b == b'.' {
            let start = pos;
            while pos < bytes.len() && (bytes[pos].is_ascii_digit() || bytes[pos] == b'.') {
                pos += 1;
            }
            let run = &buf[start..pos];
            items.push(match run.parse::<f64>() {
                Ok(_) => Ok(Token::Number(run.to_string())),
                Err(_) => Err(LexError { literal: run.to_string() }),
            });
        } else {
            items.push(Ok(Token::Symbol(b as char)));
            pos += 1;
        }
    }
    items
}

#[test]
fn lexer_agrees_with_a_step_by_step_scan() {
    let alphabet = ["d", "e", "f", "1", ".", " ", "#", "\n", "(", "\u{e9}"];
    let mut bufs = vec![String::new()];
    let mut count = 0;
    for _ in 0..5 {
        let mut longer = Vec::new();
        for buf in &bufs {
            for piece in alphabet {
                let mut next = buf.clone();
                next.push_str(piece);
                longer.push(next);
            }
        }
        for buf in &longer {
            assert_eq!(all(buf), scan(buf), "{:?}", buf);
            count += 1;
        }
        bufs = longer;
    }
    assert_eq!(count, 111110);
    for buf in ["def extern", "extern def1 1def", "x#def\nextern", "de f", "externdef(1..2)"] {
        assert_eq!(all(buf), scan(buf), "{:?}", buf);
    }
}
