use hulk::parser::{parse_expression, parse_program};
use hulk::semantic::collector::collect_declarations;
use hulk::semantic::SymbolTable;
use hulk::static_types::{class_of, static_type};

fn symbols_of(src: &str) -> SymbolTable {
    let p = parse_program(src).unwrap();
    let mut symbols = SymbolTable::new();
    let errors = collect_declarations(&p, &mut symbols);
    assert!(errors.is_empty(), "{:?}", errors);
    symbols
}

const SRC: &str = "class P {\n    me(): P -> self;\n    n(): Number -> 1;\n}\nfunction f(): String -> \"s\";\n";

#[test]
fn class_of_construction_and_method_chain() {
    let st = symbols_of(SRC);
    let none: Option<String> = None;
    assert_eq!(class_of(&st, &none, &parse_expression("new P()").unwrap()), Some("P".to_string()));
    assert_eq!(class_of(&st, &none, &parse_expression("new P().me().me()").unwrap()), Some("P".to_string()));
    assert_eq!(class_of(&st, &none, &parse_expression("new P().n()").unwrap()), None);
    assert_eq!(class_of(&st, &none, &parse_expression("1 + 2").unwrap()), None);
}

#[test]
fn self_is_the_current_class() {
    let st = symbols_of(SRC);
    let cur = Some("P".to_string());
    assert_eq!(class_of(&st, &cur, &parse_expression("self").unwrap()), Some("P".to_string()));
    assert_eq!(class_of(&st, &None, &parse_expression("self").unwrap()), None);
}

#[test]
fn static_types_of_calls() {
    let st = symbols_of(SRC);
    let none: Option<String> = None;
    let t = static_type(&st, &none, &parse_expression("new P().n()").unwrap()).unwrap();
    assert_eq!(t.display_name(), "Number");
    let t = static_type(&st, &none, &parse_expression("f()").unwrap()).unwrap();
    assert_eq!(t.display_name(), "String");
    let t = static_type(&st, &none, &parse_expression("new P()").unwrap()).unwrap();
    assert_eq!(t.display_name(), "P");
    assert!(static_type(&st, &none, &parse_expression("g()").unwrap()).is_none());
    assert!(static_type(&st, &none, &parse_expression("x").unwrap()).is_none());
}
