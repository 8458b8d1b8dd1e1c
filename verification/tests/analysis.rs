use hulk::parser::parse_program;
use hulk::semantic::errors::format_compiler_error;
use hulk::semantic::{analyze, CompilerError, Severity};
use hulk::tokens::Position;

fn codes(src: &str) -> Vec<String> {
    let p = parse_program(src).unwrap();
    analyze(&p).diagnostics.iter().map(|d| d.code.to_string()).collect()
}

fn messages(src: &str) -> Vec<String> {
    let p = parse_program(src).unwrap();
    analyze(&p).diagnostics.iter().map(|d| d.message.clone()).collect()
}

#[test]
fn clean_program_has_no_diagnostics() {
    let src = "class Point(x: Number, y: Number) {\n    x = x;\n    y = y;\n    getX(): Number -> self.x;\n}\nfunction add(a: Number, b: Number): Number -> a + b;\nprint(add(1, 2));\n";
    let p = parse_program(src).unwrap();
    let r = analyze(&p);
    assert!(r.diagnostics.is_empty(), "{:?}", r.diagnostics);
    assert!(r.is_ok());
    assert!(r.errors().is_empty());
    assert!(r.warnings().is_empty());
}

#[test]
fn undefined_variable_and_unused_binding() {
    assert_eq!(codes("let x = 5 in print(y);"), vec!["E100", "W001"]);
    assert_eq!(
        messages("let x = 5 in print(y);"),
        vec!["Variable 'y' no está definida", "Variable 'x' declarada pero nunca usada"]
    );
}

#[test]
fn warnings_alone_keep_the_result_ok() {
    let p = parse_program("let x = 5 in 1;").unwrap();
    let r = analyze(&p);
    assert!(r.is_ok());
    assert_eq!(r.warnings().len(), 1);
    assert!(r.errors().is_empty());
    assert_eq!(r.warnings()[0].severity, Severity::Warning);
}

#[test]
fn undefined_function() {
    assert_eq!(codes("foo(1);"), vec!["E101"]);
    assert_eq!(messages("foo(1);"), vec!["Función 'foo' no está definida"]);
}

#[test]
fn undefined_type_in_annotation() {
    let cs = codes("let x: Foo = 1 in print(x);");
    assert_eq!(cs[0], "E102");
    assert_eq!(messages("let x: Foo = 1 in print(x);")[0], "Tipo 'Foo' no está definido");
}

#[test]
fn duplicate_binding_in_one_let() {
    let cs = codes("let x = 1, x = 2 in print(x);");
    assert!(cs.contains(&"E103".to_string()), "{:?}", cs);
    assert!(messages("let x = 1, x = 2 in print(x);").contains(&"Variable 'x' ya fue definida anteriormente".to_string()));
}

#[test]
fn duplicate_class_does_not_stop_the_analysis() {
    let cs = codes("class A { }\nclass A { }\nprint(y);");
    assert_eq!(cs, vec!["E103", "E100"]);
}

#[test]
fn wrong_number_of_arguments() {
    assert_eq!(codes("function f(a) -> a;\nprint(f(1, 2));")[0], "E104");
    assert_eq!(
        messages("function f(a) -> a;\nprint(f(1, 2));")[0],
        "'f' espera 1 argumento(s), pero se proporcionaron 2"
    );
}

#[test]
fn invalid_assignment_target() {
    let cs = codes("let a = 1 in 2 := a;");
    assert_eq!(cs[0], "E105");
}

#[test]
fn self_outside_a_method() {
    assert_eq!(codes("print(self);")[0], "E106");
}

#[test]
fn cyclic_inheritance() {
    let cs = codes("class A is B { }\nclass B is A { }\n1;");
    assert!(!cs.is_empty());
    assert!(cs.iter().all(|c| c == "E107"), "{:?}", cs);
}

#[test]
fn base_outside_a_method() {
    assert_eq!(codes("print(base(1));")[0], "E111");
}

#[test]
fn base_without_overridden_method() {
    let cs = codes("class A { m() -> base(); }\n1;");
    assert_eq!(cs[0], "E112");
    assert_eq!(messages("class A { m() -> base(); }\n1;")[0], "Ningún ancestro de 'A' define el método 'm'");
}

#[test]
fn override_with_other_signature() {
    let src = "class A { m(x: Number): Number -> x; }\nclass B is A { m(x: String): Number -> 1; }\n1;";
    let cs = codes(src);
    assert!(cs.contains(&"E113".to_string()), "{:?}", cs);
}

#[test]
fn operator_type_error() {
    let cs = codes("print(1 + true);");
    assert_eq!(cs, vec!["E201"]);
}

#[test]
fn condition_must_be_boolean() {
    let cs = codes("if (1) print(2) else print(3);");
    assert_eq!(cs, vec!["E203"]);
}

#[test]
fn declared_type_mismatch() {
    let cs = codes("let x: Number = \"a\" in print(x);");
    assert_eq!(cs, vec!["E200"]);
}

#[test]
fn errors_and_warnings_partition_the_diagnostics() {
    let p = parse_program("let x = 5, z = 2 in print(y);").unwrap();
    let r = analyze(&p);
    assert_eq!(r.errors().len() + r.warnings().len(), r.diagnostics.len());
    assert!(!r.is_ok());
    assert_eq!(r.errors().len(), 1);
    assert_eq!(r.warnings().len(), 2);
}

#[test]
fn describe_is_one_line() {
    let e = CompilerError::undefined_variable("y", Position::new(6, 7));
    assert_eq!(e.describe(), "error[E100]: Variable 'y' no está definida");
    let w = CompilerError::unused_variable("x", Position::new(0, 1));
    assert_eq!(w.describe(), "warning[W001]: Variable 'x' declarada pero nunca usada");
}

#[test]
fn compiler_error_diagnostic() {
    let e = CompilerError::undefined_variable("y", Position::new(6, 7));
    let expected = [
        "\x1b[1;31merror[E100]\x1b[0m: \x1b[1mVariable 'y' no está definida\x1b[0m\n",
        "  \x1b[1;34m-->\x1b[0m t.hulk:1:7\n",
        "  \x1b[1;34m    |\x1b[0m\n",
        "  \x1b[1;34m  1 |\x1b[0m print(y);\n",
        "  \x1b[1;34m    |\x1b[0m       \x1b[1;31m^\x1b[0m\n",
        "\n  \x1b[1;36mayuda:\x1b[0m Verifique que la variable esté declarada antes de usarla.\n",
    ].concat();
    assert_eq!(format_compiler_error(&e, "print(y);", "t.hulk"), expected);
}

#[test]
fn warning_diagnostic_on_second_line() {
    let w = CompilerError::unused_variable("abc", Position::new(7, 10));
    let expected = [
        "\x1b[1;33mwarning[W001]\x1b[0m: \x1b[1mVariable 'abc' declarada pero nunca usada\x1b[0m\n",
        "  \x1b[1;34m-->\x1b[0m w.hulk:2:5\n",
        "  \x1b[1;34m    |\x1b[0m\n",
        "  \x1b[1;34m  2 |\x1b[0m let abc = 1 in 2;\n",
        "  \x1b[1;34m    |\x1b[0m     \x1b[1;33m^^^\x1b[0m\n",
        "\n  \x1b[1;36mayuda:\x1b[0m Si es intencional, prefije el nombre con '_'.\n",
    ].concat();
    assert_eq!(format_compiler_error(&w, "1;\nlet abc = 1 in 2;", "w.hulk"), expected);
}

#[test]
fn underline_is_cut_at_the_end_of_the_line() {
    let e = CompilerError::undefined_type("T", Position::new(2, 40));
    let out = format_compiler_error(&e, "a bc", "u");
    assert!(out.contains("  \x1b[1;34m    |\x1b[0m   \x1b[1;31m^^\x1b[0m\n"), "{}", out);
}

#[test]
fn inference_runs_before_the_type_check() {
    let p = parse_program("function f(x) -> x + 1;").unwrap();
    let r = analyze(&p);
    assert!(r.is_ok(), "{:?}", r.diagnostics);
    let f = r.symbols.get_function("f").unwrap();
    assert_eq!(f.params[0].1.display_name(), "Number");
}

#[test]
fn checks_still_run_after_collection_errors() {
    let p = parse_program("function f() -> 1;\nfunction f() -> 2;\nprint(y);").unwrap();
    let r = analyze(&p);
    let codes: Vec<String> = r.diagnostics.iter().map(|d| d.code.to_string()).collect();
    assert_eq!(codes[0], "E103");
    assert!(codes.contains(&"E100".to_string()), "{:?}", codes);
    assert!(!r.is_ok());
}

#[test]
fn only_unbound_names_are_reported_undefined() {
    let src = "let x = 1 in let y = x in print(y + z);";
    let p = parse_program(src).unwrap();
    let r = analyze(&p);
    let undefined: Vec<String> = r
        .diagnostics
        .iter()
        .filter(|d| d.code == "E100")
        .map(|d| d.message.clone())
        .collect();
    assert_eq!(undefined, vec!["Variable 'z' no está definida".to_string()]);
    assert!(r.diagnostics.iter().all(|d| d.code != "W001"));
}

#[test]
fn checks_run_on_a_table_without_scopes() {
    let p = parse_program("let x = 1 in print(x + y);").unwrap();
    let mut t = hulk::semantic::SymbolTable::new();
    t.scopes.clear();
    let sem = hulk::semantic::semantic_checker::check_semantics(&p, &mut t);
    let codes: Vec<&str> = sem.iter().map(|d| d.code).collect();
    assert_eq!(codes, vec!["E100"]);
    assert_eq!(t.scopes.len(), 0);
    let _ = hulk::semantic::type_checker::check_types(&p, &mut t);
    assert_eq!(t.scopes.len(), 0);
}
