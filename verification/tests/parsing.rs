use hulk::ast::{Atom, Body, ExprBody, Expression};
use hulk::errors::SyntaxErrorKind;
use hulk::lexer::{tokenize, TokenKind};
use hulk::parser::{parse_expression, parse_program};
use hulk::text::chars_of;
use hulk::tokens::{BinOp, Literal};

#[test]
fn tokens_of_a_let() {
    let toks = tokenize(&chars_of("let x = 42;")).unwrap();
    let kinds: Vec<TokenKind> = toks.iter().map(|t| t.kind).collect();
    assert_eq!(
        kinds,
        vec![TokenKind::Ident, TokenKind::Ident, TokenKind::Symbol, TokenKind::Number, TokenKind::Symbol]
    );
    let spans: Vec<(usize, usize)> = toks.iter().map(|t| (t.start, t.end)).collect();
    assert_eq!(spans, vec![(0, 3), (4, 5), (6, 7), (8, 10), (10, 11)]);
}

#[test]
fn tokens_of_strings_and_two_char_symbols() {
    let toks = tokenize(&chars_of("a := \"h\\\"i\" @@ b")).unwrap();
    let kinds: Vec<TokenKind> = toks.iter().map(|t| t.kind).collect();
    assert_eq!(
        kinds,
        vec![TokenKind::Ident, TokenKind::Symbol, TokenKind::Str, TokenKind::Symbol, TokenKind::Ident]
    );
    assert_eq!((toks[1].start, toks[1].end), (2, 4));
    assert_eq!((toks[2].start, toks[2].end), (5, 11));
}

#[test]
fn lexical_error_position() {
    assert_eq!(tokenize(&chars_of("1 $ 2")).err(), Some(2));
    assert_eq!(tokenize(&chars_of("\"open")).err(), Some(0));
}

#[test]
fn precedence_of_products_over_sums() {
    let e = parse_expression("1 + 2 * 3").unwrap();
    match e {
        Expression::BinaryOp(b) => {
            assert!(matches!(b.operator, BinOp::Plus(_)));
            assert!(matches!(*b.left, Expression::Atom(_)));
            match *b.right {
                Expression::BinaryOp(r) => assert!(matches!(r.operator, BinOp::Mul(_))),
                _ => panic!("right side is not a product"),
            }
        },
        _ => panic!("not a binary operation"),
    }
}

#[test]
fn power_is_right_associative() {
    let e = parse_expression("2 ^ 3 ^ 2").unwrap();
    match e {
        Expression::BinaryOp(b) => {
            assert!(matches!(b.operator, BinOp::Pow(_)));
            assert!(matches!(*b.left, Expression::Atom(_)));
            assert!(matches!(*b.right, Expression::BinaryOp(_)));
        },
        _ => panic!("not a binary operation"),
    }
}

#[test]
fn number_literal_value() {
    match parse_expression("42").unwrap() {
        Expression::Atom(a) => match *a {
            Atom::NumberLiteral(Literal::Number(n, _)) => assert_eq!(n, 42),
            _ => panic!("not a number"),
        },
        _ => panic!("not an atom"),
    }
}

#[test]
fn program_with_class_function_and_entry() {
    let src = "class Point(x: Number, y: Number) {\n    x = x;\n    y = y;\n    getX(): Number -> self.x;\n}\nfunction add(a: Number, b: Number): Number -> a + b;\nprint(add(1, 2));\n";
    let p = parse_program(src).unwrap();
    assert_eq!(p.classes.len(), 1);
    assert_eq!(p.classes[0].name, "Point");
    assert_eq!(p.classes[0].params.len(), 2);
    assert_eq!(p.classes[0].attributes.len(), 2);
    assert_eq!(p.classes[0].methods.len(), 1);
    assert_eq!(p.classes[0].methods[0].return_type, Some("Number".to_string()));
    assert_eq!(p.functions.len(), 1);
    assert_eq!(p.functions[0].name, "add");
    assert!(matches!(p.functions[0].body, Body::Inline(_)));
    assert!(matches!(p.entry, Some(ExprBody::Single(_))));
}

#[test]
fn program_with_block_entry() {
    let p = parse_program("{ print(1); print(2); }").unwrap();
    match p.entry {
        Some(ExprBody::Block(es)) => assert_eq!(es.len(), 2),
        _ => panic!("no block entry"),
    }
}

#[test]
fn empty_program() {
    let p = parse_program("").unwrap();
    assert!(p.classes.is_empty() && p.functions.is_empty() && p.entry.is_none());
}

#[test]
fn missing_semicolon_is_end_of_file() {
    let e = parse_program("let x = 5 in x").err().unwrap();
    assert!(matches!(e.kind, SyntaxErrorKind::UnexpectedEOF));
    assert_eq!((e.location.line, e.location.column, e.location.offset), (1, 15, 14));
    assert_eq!(e.found, None);
    assert_eq!(e.expected, vec!["\";\"".to_string()]);
}

#[test]
fn unexpected_token_is_reported_where_it_stands() {
    let e = parse_program("print(1 + );").err().unwrap();
    assert!(matches!(e.kind, SyntaxErrorKind::UnrecognizedToken));
    assert_eq!((e.location.line, e.location.column), (1, 11));
    assert_eq!(e.found, Some(")".to_string()));
    assert_eq!(e.source_line, "print(1 + );");
}

#[test]
fn invalid_character_is_an_invalid_token() {
    let e = parse_program("x = $;").err().unwrap();
    assert!(matches!(e.kind, SyntaxErrorKind::InvalidToken));
    assert_eq!((e.location.line, e.location.column, e.location.offset), (1, 5, 4));
    assert_eq!(e.found, None);
}

#[test]
fn token_after_the_program_is_extra() {
    let e = parse_program("1; 2;").err().unwrap();
    assert!(matches!(e.kind, SyntaxErrorKind::ExtraToken));
    assert_eq!((e.location.line, e.location.column), (1, 4));
    assert_eq!(e.found, Some("2".to_string()));
}

#[test]
fn error_on_second_line() {
    let e = parse_program("let x = 1 in\n  x +;").err().unwrap();
    assert!(matches!(e.kind, SyntaxErrorKind::UnrecognizedToken));
    assert_eq!((e.location.line, e.location.column), (2, 6));
    assert_eq!(e.source_line, "  x +;");
    assert_eq!(e.found, Some(";".to_string()));
}

#[test]
fn expression_followed_by_more_is_extra() {
    let e = parse_expression("1 2").err().unwrap();
    assert!(matches!(e.kind, SyntaxErrorKind::ExtraToken));
    assert_eq!(e.found, Some("2".to_string()));
}

#[test]
fn attribute_after_method_is_refused() {
    let e = parse_program("class A {\n    f() -> 1;\n    x = 2;\n}\n").err().unwrap();
    assert!(matches!(e.kind, SyntaxErrorKind::UnrecognizedToken));
    assert_eq!((e.location.line, e.location.column), (3, 7));
    assert_eq!(e.found, Some("=".to_string()));
}

#[test]
fn subtraction_is_left_associative() {
    match parse_expression("8 - 4 - 2").unwrap() {
        Expression::BinaryOp(b) => {
            assert!(matches!(b.operator, BinOp::Minus(_)));
            assert!(matches!(*b.left, Expression::BinaryOp(_)));
            assert!(matches!(*b.right, Expression::Atom(_)));
        },
        _ => panic!("not a binary operation"),
    }
}

#[test]
fn assignment_is_right_associative() {
    match parse_expression("a := b := 3").unwrap() {
        Expression::Assign(a) => {
            assert!(matches!(a.target, Expression::Atom(_)));
            assert!(matches!(a.value, Expression::Assign(_)));
        },
        _ => panic!("not an assignment"),
    }
}

#[test]
fn type_test_binds_like_a_comparison() {
    match parse_expression("x + 1 is Number").unwrap() {
        Expression::IsType(t) => {
            assert_eq!(t.type_ident, "Number");
            assert!(matches!(t.expr, Expression::BinaryOp(_)));
        },
        _ => panic!("not a type test"),
    }
    match parse_expression("a | b is Boolean").unwrap() {
        Expression::BinaryOp(b) => {
            assert!(matches!(b.operator, BinOp::Or(_)));
            assert!(matches!(*b.right, Expression::IsType(_)));
        },
        _ => panic!("not a disjunction"),
    }
}

#[test]
fn unary_minus_binds_tighter_than_power() {
    match parse_expression("-2 ^ 2").unwrap() {
        Expression::BinaryOp(b) => {
            assert!(matches!(b.operator, BinOp::Pow(_)));
            assert!(matches!(*b.left, Expression::UnaryOp(_)));
        },
        _ => panic!("not a power"),
    }
}

#[test]
fn operator_expressions_over_calls_and_groups_parse() {
    for src in [
        "-(1 + x) * f(2, y) @ \"s\"",
        "!(a < b) | c & d == e",
        "g()",
        "h(1, (2 + 3) ^ 2, k(z))",
        "--4 % 3 @@ name",
    ] {
        assert!(parse_expression(src).is_ok(), "{}", src);
    }
}

#[test]
fn operator_entry_programs_parse() {
    assert!(parse_program("print(1 + 2 * x);").is_ok());
    assert!(parse_program("f(g(1), -2) @ \"end\";").is_ok());
    assert!(parse_program("   ").is_ok());
}

#[test]
fn accesses_and_method_calls_in_operator_expressions_parse() {
    assert!(parse_expression("p.x + q.len() * a[i + 1].f(2)[0]").is_ok());
    assert!(parse_program("print(obj.get(1)[2] @ names[0]);").is_ok());
}

#[test]
fn chained_assignments_parse() {
    assert!(parse_expression("a := b := c + 1").is_ok());
    assert!(parse_expression("x.y := f(z)[0] := 2").is_ok());
    assert!(parse_program("v[1] := w;").is_ok());
}

#[test]
fn object_creation_in_operator_expressions_parses() {
    assert!(parse_expression("new Point(1, 2).getX() + new Empty()").is_ok());
}

#[test]
fn every_construct_of_the_language_parses() {
    let src = "class Point(x: Number, y: Number) is Base(x) {\n    x = x;\n    y: Number = y;\n    norm(): Number -> self.x * self.x + self.y * self.y;\n    show() { print(self.x); print(self.y); }\n}\nclass Base(v) { v = v; }\nfunction f(a, b: Number): Number -> a + b;\nfunction g(n) {\n    let i = 0, acc: Number = 1 in while (i < n) { acc := acc * 2; i := i + 1; } else acc;\n    for (k in range(0, n)) print(k);\n}\n{\n    let p = new Point(1, 2), arr = new Number[3] { i -> i * i } in\n        if (p is Point) p.norm() elif (f(1, 2) > 2) arr[0] else 0;\n    case p of { q: Point -> q.norm(); r: Base -> 0; };\n    case 3 of n: Number -> n as Number;\n    print(\"done\" @@ 1 @ g(2));\n};\n";
    assert!(parse_program(src).is_ok(), "{:?}", parse_program(src).err());
    assert!(parse_expression("let x = if (a) b else c in while (x) for (y in z) { y; }").is_ok());
    assert!(parse_expression("a < b is T == c as U").is_ok());
}

#[test]
fn fractional_numbers_are_invalid_tokens() {
    assert!(parse_expression("1.5").is_err());
}

#[test]
fn spans_and_error_offsets_count_bytes() {
    let e = parse_expression("\"ñ\" @ x").unwrap();
    match e {
        Expression::BinaryOp(b) => {
            assert_eq!(b.right.span().start, 7);
            assert_eq!(b.right.span().end, 8);
        }
        _ => panic!("expected a binary operation"),
    }
    let err = parse_expression("\"ñ\" @ @").unwrap_err();
    assert_eq!(err.location.offset, 7);
    assert_eq!((err.location.line, err.location.column), (1, 7));
    let p = parse_program("print(\"ñ\");").unwrap();
    assert_eq!(p.span.end, 12);
}
