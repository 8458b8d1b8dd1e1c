use hulk::layout::{class_order, object_fields, vtable_layout};
use hulk::parser::parse_program;
use hulk::semantic::collector::collect_declarations;
use hulk::semantic::{HulkType, SymbolTable};

#[test]
fn parents_are_laid_out_before_children() {
    let p = parse_program("class C is B { }\nclass B is A { }\nclass A { }\nclass D { }\n").unwrap();
    assert_eq!(class_order(&p.classes), vec!["A", "B", "C", "D"]);
}

#[test]
fn each_class_is_laid_out_once() {
    let p = parse_program("class A { }\nclass B is A { }\nclass C is A { }\n").unwrap();
    assert_eq!(class_order(&p.classes), vec!["A", "B", "C"]);
}

#[test]
fn override_keeps_the_slot_and_new_methods_follow() {
    let p = parse_program("class B is A {\n    n() -> 2;\n    k() -> 3;\n}\n").unwrap();
    let inherited = vec![("m".to_string(), "A".to_string()), ("n".to_string(), "A".to_string())];
    let layout = vtable_layout(&inherited, "B", &p.classes[0].methods);
    assert_eq!(
        layout,
        vec![
            ("m".to_string(), "A".to_string()),
            ("n".to_string(), "B".to_string()),
            ("k".to_string(), "B".to_string()),
        ]
    );
}

#[test]
fn root_class_table_lists_its_methods() {
    let p = parse_program("class A {\n    m() -> 1;\n    m() -> 2;\n}\n").unwrap();
    let layout = vtable_layout(&Vec::new(), "A", &p.classes[0].methods);
    assert_eq!(layout, vec![("m".to_string(), "A".to_string())]);
}

#[test]
fn inherited_fields_come_first() {
    let p = parse_program("class B is A {\n    y = \"s\";\n}\nclass A {\n    x = 1;\n}\n").unwrap();
    let mut symbols = SymbolTable::new();
    let errors = collect_declarations(&p, &mut symbols);
    assert!(errors.is_empty(), "{:?}", errors);
    let fields: Vec<String> = object_fields(&symbols, "B").iter().map(|(n, t)| format!("{}: {}", n, t.display_name())).collect();
    assert_eq!(fields, vec!["x: Number", "y: String"]);
    let parent: Vec<String> = object_fields(&symbols, "A").iter().map(|(n, _)| n.clone()).collect();
    assert_eq!(parent, vec!["x"]);
    assert!(object_fields(&symbols, "Z").is_empty());
}

#[test]
fn constructor_copies_parent_fields_in_place() {
    let p = parse_program("class A {\n    x = 1;\n    y = 2;\n}\nclass B is A {\n    z = 3;\n}\n").unwrap();
    let mut symbols = SymbolTable::new();
    let errors = collect_declarations(&p, &mut symbols);
    assert!(errors.is_empty(), "{:?}", errors);
    let copies: Vec<(String, usize, usize)> = hulk::layout::inherited_copies(&symbols, "B", "A")
        .into_iter()
        .map(|(n, a, b, _)| (n, a, b))
        .collect();
    assert_eq!(copies, vec![("x".to_string(), 2, 2), ("y".to_string(), 3, 3)]);
}

#[test]
fn parent_arguments_are_forwarded_by_name_then_by_place() {
    let parent = vec![("a".to_string(), HulkType::Number), ("b".to_string(), HulkType::Number), ("c".to_string(), HulkType::Number)];
    let own = vec![("a".to_string(), HulkType::Number), ("q".to_string(), HulkType::String)];
    let bound = vec!["a".to_string(), "q".to_string()];
    let sources = hulk::layout::forwarded_args(&parent, &own, &bound);
    assert_eq!(sources, vec![Some("a".to_string()), Some("q".to_string()), None]);
}
