use hulk::errors::{
    build_syntax_error, format_error, format_expected, format_parse_error, format_syntax_error, generate_hint,
    get_source_line, humanize_token, offset_to_location, trim_quotes, ParseFailure, SourceLocation, SyntaxError,
    SyntaxErrorKind,
};

fn strings(items: &[&str]) -> Vec<String> {
    items.iter().map(|s| s.to_string()).collect()
}

fn error_with(kind: SyntaxErrorKind, expected: &[&str], found: Option<&str>) -> SyntaxError {
    SyntaxError {
        kind,
        location: SourceLocation { line: 1, column: 1, offset: 0 },
        source_line: String::new(),
        expected: strings(expected),
        found: found.map(|s| s.to_string()),
    }
}

#[test]
fn kind_texts() {
    assert_eq!(SyntaxErrorKind::UnrecognizedToken.text(), "Token inesperado");
    assert_eq!(SyntaxErrorKind::InvalidToken.text(), "Token inválido");
    assert_eq!(SyntaxErrorKind::UnexpectedEOF.text(), "Fin de archivo inesperado");
    assert_eq!(SyntaxErrorKind::ExtraToken.text(), "Token extra no esperado");
}

#[test]
fn humanize_known_tokens() {
    assert_eq!(humanize_token(";"), "\";\" (punto y coma)");
    assert_eq!(humanize_token("\"let\""), "\"let\" (declaración de variable)");
    assert_eq!(humanize_token("@@"), "\"@@\" (concatenación con espacio)");
    assert_eq!(humanize_token(":="), "\":=\" (asignación destructiva)");
    assert_eq!(humanize_token("in"), "\"in\"");
}

#[test]
fn humanize_unknown_token_is_quoted() {
    assert_eq!(humanize_token("foo"), "\"foo\"");
    assert_eq!(humanize_token("\"Identifier\""), "\"Identifier\"");
}

#[test]
fn trim_quotes_strips_both_ends() {
    assert_eq!(trim_quotes("\"in\""), "in");
    assert_eq!(trim_quotes("\"\"x\"\""), "x");
    assert_eq!(trim_quotes("plain"), "plain");
    assert_eq!(trim_quotes("\"\""), "");
}

#[test]
fn format_expected_lists() {
    assert_eq!(format_expected(&Vec::new()), "ningún token reconocido");
    assert_eq!(format_expected(&strings(&["\";\""])), "\";\" (punto y coma)");
    assert_eq!(
        format_expected(&strings(&["\";\"", "\")\""])),
        "\";\" (punto y coma) o \")\" (paréntesis de cierre)"
    );
    assert_eq!(format_expected(&strings(&["a", "b", "c"])), "\"a\", \"b\" o \"c\"");
}

#[test]
fn format_expected_more_than_five() {
    assert_eq!(
        format_expected(&strings(&["a", "b", "c", "d", "e", "f", "g"])),
        "\"a\", \"b\", \"c\", \"d\", \"e\", ... (y 2 opciones más)"
    );
}

#[test]
fn hint_missing_semicolon() {
    let e = error_with(SyntaxErrorKind::UnrecognizedToken, &["\";\""], Some("}"));
    assert_eq!(generate_hint(&e), Some("¿Falta un \";\" al final de la expresión anterior?".to_string()));
}

#[test]
fn hint_return_type_position() {
    let e = error_with(SyntaxErrorKind::UnrecognizedToken, &["\"(\""], Some(":"));
    assert_eq!(
        generate_hint(&e),
        Some(
            "El tipo de retorno va después de los parámetros. Sintaxis correcta: function nombre(params): tipo { ... }"
                .to_string()
        )
    );
}

#[test]
fn hint_unclosed_delimiters_and_keywords() {
    let e = error_with(SyntaxErrorKind::UnrecognizedToken, &["\")\""], Some("x"));
    assert_eq!(generate_hint(&e), Some("¿Falta cerrar un paréntesis \")\"?".to_string()));
    let e = error_with(SyntaxErrorKind::UnrecognizedToken, &["\"}\""], Some("x"));
    assert_eq!(generate_hint(&e), Some("¿Falta cerrar una llave \"}\"?".to_string()));
    let e = error_with(SyntaxErrorKind::UnrecognizedToken, &["\"else\""], Some("x"));
    assert_eq!(
        generate_hint(&e),
        Some("En HULK, las expresiones \"if\" requieren una rama \"else\" obligatoria.".to_string())
    );
    let e = error_with(SyntaxErrorKind::UnrecognizedToken, &["\"in\""], Some("x"));
    assert_eq!(generate_hint(&e), Some("¿Falta \"in\" después de la declaración \"let\"?".to_string()));
}

#[test]
fn hint_end_of_file_and_none() {
    let e = error_with(SyntaxErrorKind::UnexpectedEOF, &["\"x\""], None);
    assert_eq!(
        generate_hint(&e),
        Some(
            "El archivo terminó antes de lo esperado. Verifique que todas las llaves, paréntesis y expresiones estén completas."
                .to_string()
        )
    );
    let e = error_with(SyntaxErrorKind::UnrecognizedToken, &["\"=\""], Some("5"));
    assert_eq!(generate_hint(&e), None);
}

#[test]
fn locations_are_one_based() {
    let loc = offset_to_location("ab\ncd", 4);
    assert_eq!((loc.line, loc.column, loc.offset), (2, 2, 4));
    let loc = offset_to_location("ab\ncd", 0);
    assert_eq!((loc.line, loc.column, loc.offset), (1, 1, 0));
    let loc = offset_to_location("ab", 10);
    assert_eq!((loc.line, loc.column), (1, 3));
}

#[test]
fn source_lines_by_number() {
    assert_eq!(get_source_line("ab\ncd", 1), "ab");
    assert_eq!(get_source_line("ab\ncd", 2), "cd");
    assert_eq!(get_source_line("ab\ncd", 3), "");
}

#[test]
fn build_from_each_failure() {
    let src = "x = $;\nnext";
    let e = build_syntax_error(src, &ParseFailure::InvalidToken { location: 4 });
    assert!(matches!(e.kind, SyntaxErrorKind::InvalidToken));
    assert_eq!((e.location.line, e.location.column, e.location.offset), (1, 5, 4));
    assert_eq!(e.source_line, "x = $;");
    assert!(e.expected.is_empty());
    assert_eq!(e.found, None);

    let e = build_syntax_error(src, &ParseFailure::UnrecognizedEof { location: 11, expected: strings(&["\";\""]) });
    assert!(matches!(e.kind, SyntaxErrorKind::UnexpectedEOF));
    assert_eq!((e.location.line, e.location.column), (2, 5));
    assert_eq!(e.source_line, "next");
    assert_eq!(e.expected, strings(&["\";\""]));
    assert_eq!(e.found, None);

    let e = build_syntax_error(
        src,
        &ParseFailure::UnrecognizedToken { start: 7, token: "next".to_string(), end: 11, expected: strings(&["a"]) },
    );
    assert!(matches!(e.kind, SyntaxErrorKind::UnrecognizedToken));
    assert_eq!((e.location.line, e.location.column), (2, 1));
    assert_eq!(e.found, Some("next".to_string()));
    assert_eq!(e.expected, strings(&["a"]));

    let e = build_syntax_error(src, &ParseFailure::ExtraToken { start: 5, token: ";".to_string(), end: 6 });
    assert!(matches!(e.kind, SyntaxErrorKind::ExtraToken));
    assert_eq!((e.location.line, e.location.column), (1, 6));
    assert_eq!(e.found, Some(";".to_string()));
    assert!(e.expected.is_empty());

    let e = build_syntax_error(src, &ParseFailure::User { error: "boom".to_string() });
    assert!(matches!(e.kind, SyntaxErrorKind::InvalidToken));
    assert_eq!((e.location.line, e.location.column, e.location.offset), (1, 1, 0));
    assert_eq!(e.source_line, "x = $;");
    assert_eq!(e.found, Some("boom".to_string()));
}

#[test]
fn diagnostic_for_unrecognized_token() {
    let e = SyntaxError {
        kind: SyntaxErrorKind::UnrecognizedToken,
        location: SourceLocation { line: 1, column: 7, offset: 6 },
        source_line: "let x 5 in x;".to_string(),
        expected: strings(&["\"=\""]),
        found: Some("5".to_string()),
    };
    let expected = [
        "\x1b[1;31merror[E001]\x1b[0m: \x1b[1mToken inesperado\x1b[0m\n",
        "  \x1b[1;34m-->\x1b[0m prog.hulk:1:7\n",
        "  \x1b[1;34m    |\x1b[0m\n",
        "  \x1b[1;34m  1 |\x1b[0m let x 5 in x;\n",
        "  \x1b[1;34m    |\x1b[0m       \x1b[1;31m^\x1b[0m \x1b[1;31mSe encontró 5 aquí\x1b[0m\n",
        "  \x1b[1;34m    |\x1b[0m\n",
        "  \x1b[1;34m    =\x1b[0m \x1b[1;36mSe esperaba:\x1b[0m \"=\" (igual)\n",
    ].concat();
    assert_eq!(format_syntax_error(&e, "prog.hulk"), expected);
    assert_eq!(format_error(&e, "prog.hulk"), expected);
}

#[test]
fn diagnostic_for_end_of_file_with_hint() {
    let e = SyntaxError {
        kind: SyntaxErrorKind::UnexpectedEOF,
        location: SourceLocation { line: 1, column: 3, offset: 2 },
        source_line: "ab".to_string(),
        expected: Vec::new(),
        found: None,
    };
    let expected = [
        "\x1b[1;31merror[E001]\x1b[0m: \x1b[1mFin de archivo inesperado\x1b[0m\n",
        "  \x1b[1;34m-->\x1b[0m f:1:3\n",
        "  \x1b[1;34m    |\x1b[0m\n",
        "  \x1b[1;34m  1 |\x1b[0m ab\n",
        "  \x1b[1;34m    |\x1b[0m   \x1b[1;31m^^^\x1b[0m \x1b[1;31mFin de archivo inesperado aquí\x1b[0m\n",
        "\n  \x1b[1;33mayuda:\x1b[0m El archivo terminó antes de lo esperado. Verifique que todas las llaves, paréntesis y expresiones estén completas.\x1b[90m\x1b[0m\n",
    ].concat();
    assert_eq!(format_syntax_error(&e, "f"), expected);
}

#[test]
fn format_parse_error_builds_then_formats() {
    let src = "1 +";
    let failure = ParseFailure::UnrecognizedEof { location: 3, expected: strings(&["\"(\""]) };
    let direct = format_syntax_error(&build_syntax_error(src, &failure), "a.hulk");
    assert_eq!(format_parse_error(src, "a.hulk", &failure), direct);
    assert!(direct.contains("a.hulk:1:4"));
}
