use hulk::parser::parse_program;
use hulk::semantic::collector::collect_declarations;
use hulk::semantic::type_inferer::{infer_binop_type, infer_types};
use hulk::semantic::SymbolTable;
use hulk::tokens::{BinOp, Position};

fn inferred(src: &str) -> SymbolTable {
    let p = parse_program(src).unwrap();
    let mut symbols = SymbolTable::new();
    let collected = collect_declarations(&p, &mut symbols);
    assert!(collected.is_empty(), "{:?}", collected);
    let errors = infer_types(&p, &mut symbols);
    assert!(errors.is_empty());
    symbols
}

fn param_types(ps: &Vec<(String, hulk::semantic::HulkType)>) -> Vec<String> {
    ps.iter().map(|(n, t)| format!("{}: {}", n, t.display_name())).collect()
}

#[test]
fn function_parameter_from_arithmetic() {
    let st = inferred("function inc(x) -> x + 1;");
    let f = st.get_function("inc").unwrap();
    assert_eq!(param_types(&f.params), vec!["x: Number"]);
    assert_eq!(f.return_type.display_name(), "Number");
}

#[test]
fn function_parameter_from_negation() {
    let st = inferred("function flip(b) -> !b;");
    let f = st.get_function("flip").unwrap();
    assert_eq!(param_types(&f.params), vec!["b: Boolean"]);
    assert_eq!(f.return_type.display_name(), "Boolean");
}

#[test]
fn conflicting_uses_leave_the_parameter_unknown() {
    let st = inferred("function f(x) -> x + (x | true);");
    let f = st.get_function("f").unwrap();
    assert_eq!(param_types(&f.params), vec!["x: <unknown>"]);
}

#[test]
fn annotated_parameter_is_kept() {
    let st = inferred("function g(x: String, y) -> y * 2;");
    let f = st.get_function("g").unwrap();
    assert_eq!(param_types(&f.params), vec!["x: String", "y: Number"]);
}

#[test]
fn constructor_parameter_and_attribute_of_a_class() {
    let st = inferred("class P(a) {\n    v = a * 2;\n    m(y) -> y - 1;\n}\n");
    let c = st.get_class("P").unwrap();
    assert_eq!(param_types(&c.params), vec!["a: Number"]);
    assert_eq!(c.attributes[0].hulk_type.display_name(), "Number");
    let m = c.get_method("m").unwrap();
    assert_eq!(param_types(&m.params), vec!["y: Number"]);
}

#[test]
fn operator_result_types() {
    let p = Position::new(0, 1);
    assert_eq!(infer_binop_type(&BinOp::Plus(p)).display_name(), "Number");
    assert_eq!(infer_binop_type(&BinOp::Less(p)).display_name(), "Boolean");
    assert_eq!(infer_binop_type(&BinOp::Concat(p)).display_name(), "String");
}

#[test]
fn constraints_from_unrelated_classes_conflict() {
    let st = inferred("class B { }\nclass C { }\nfunction h(b: B) -> 1;\nfunction k(c: C) -> 2;\nfunction g(x) -> h(x) + k(x);\n");
    let f = st.get_function("g").unwrap();
    assert_eq!(param_types(&f.params), vec!["x: <unknown>"]);
}

#[test]
fn constraints_from_one_hierarchy_meet_at_the_common_ancestor() {
    let st = inferred("class B { }\nclass C is B { }\nclass D is B { }\nfunction h(c: C) -> 1;\nfunction k(d: D) -> 2;\nfunction g(x) -> h(x) + k(x);\n");
    let f = st.get_function("g").unwrap();
    assert_eq!(param_types(&f.params), vec!["x: B"]);
}
