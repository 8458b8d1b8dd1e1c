use hulk::semantic::symbol_table::{ClassInfo, SymbolTable};
use hulk::semantic::type_checker::{binary_op_rule, unary_op_rule};
use hulk::semantic::types::HulkType;
use hulk::tokens::{BinOp, Position, UnaryOp};

fn pos() -> Position {
    Position::new(0, 1)
}

#[test]
fn builtins_are_registered() {
    let t = SymbolTable::new();
    for name in ["Number", "String", "Boolean", "Void", "Object"] {
        assert!(t.type_exists(name), "{}", name);
    }
    assert!(!t.type_exists("Foo"));
    assert_eq!(t.get_function("print").unwrap().params.len(), 1);
    assert_eq!(t.get_function("log").unwrap().params.len(), 2);
    assert_eq!(t.get_function("rand").unwrap().params.len(), 0);
    assert!(t.get_function("nope").is_none());
    assert_eq!(t.get_class("Number").unwrap().parent, Some("Object".to_string()));
    assert_eq!(t.get_class("Object").unwrap().parent, None);
}

#[test]
fn define_then_lookup() {
    let mut t = SymbolTable::new();
    assert!(t.define_var("x", HulkType::Number, pos()));
    let v = t.lookup_var("x").unwrap();
    assert_eq!(v.name, "x");
    assert!(!v.used);
    assert!(matches!(t.var_type("x"), Some(HulkType::Number)));
    assert!(t.lookup_var("y").is_none());
}

#[test]
fn redefinition_in_one_scope_is_refused() {
    let mut t = SymbolTable::new();
    assert!(t.define_var("x", HulkType::Number, pos()));
    assert!(!t.define_var("x", HulkType::String, pos()));
    assert!(matches!(t.var_type("x"), Some(HulkType::Number)));
}

#[test]
fn inner_scope_shadows_and_pops() {
    let mut t = SymbolTable::new();
    t.define_var("x", HulkType::Number, pos());
    t.push_scope();
    assert!(matches!(t.var_type("x"), Some(HulkType::Number)));
    assert!(t.define_var("x", HulkType::String, pos()));
    assert!(matches!(t.var_type("x"), Some(HulkType::String)));
    let popped = t.pop_scope();
    assert_eq!(popped.len(), 1);
    assert!(matches!(t.var_type("x"), Some(HulkType::Number)));
}

#[test]
fn marking_used_finds_the_innermost() {
    let mut t = SymbolTable::new();
    t.define_var("x", HulkType::Number, pos());
    t.push_scope();
    t.define_var("x", HulkType::String, pos());
    assert!(t.mark_var_used("x"));
    assert!(!t.mark_var_used("nothing"));
    let inner = t.pop_scope();
    assert!(inner[0].used);
    assert!(!t.lookup_var("x").unwrap().used);
}

#[test]
fn conformance_rules() {
    let t = SymbolTable::new();
    assert!(t.conforms_to(&HulkType::Number, &HulkType::Number));
    assert!(t.conforms_to(&HulkType::Number, &HulkType::Object));
    assert!(!t.conforms_to(&HulkType::Object, &HulkType::Number));
    assert!(!t.conforms_to(&HulkType::Number, &HulkType::String));
    assert!(t.conforms_to(&HulkType::Error, &HulkType::Number));
    assert!(t.conforms_to(&HulkType::Boolean, &HulkType::Error));
}

#[test]
fn least_common_ancestor() {
    let t = SymbolTable::new();
    assert!(matches!(t.lca(&HulkType::Number, &HulkType::Number), HulkType::Number));
    assert!(matches!(t.lca(&HulkType::Number, &HulkType::String), HulkType::Object));
    assert!(matches!(t.lca(&HulkType::Error, &HulkType::String), HulkType::String));
    assert!(matches!(t.lca(&HulkType::Boolean, &HulkType::Error), HulkType::Boolean));
}

#[test]
fn ancestors_of_a_builtin() {
    let t = SymbolTable::new();
    assert_eq!(t.ancestors("Number"), vec!["Number".to_string(), "Object".to_string()]);
    assert_eq!(t.ancestors("Unknown"), vec!["Unknown".to_string()]);
    assert!(t.is_subclass("Number", "Object"));
    assert!(!t.is_subclass("Object", "Number"));
}

#[test]
fn type_names() {
    assert_eq!(HulkType::Number.display_name(), "Number");
    assert_eq!(HulkType::String.display_name(), "String");
    assert_eq!(HulkType::Class("Point".to_string()).display_name(), "Point");
    assert!(matches!(HulkType::from_name("Boolean"), HulkType::Boolean));
    assert!(matches!(HulkType::from_name("Point"), HulkType::Class(ref n) if n == "Point"));
    assert!(HulkType::Number.same_as(&HulkType::Number));
    assert!(!HulkType::Number.same_as(&HulkType::Object));
    assert!(HulkType::Error.is_error());
    assert!(!HulkType::Unknown.is_resolved());
    assert!(HulkType::Number.is_resolved());
}

#[test]
fn operator_rules() {
    let p = pos();
    let (t, report) = binary_op_rule(&BinOp::Plus(p), &HulkType::Number, &HulkType::Number);
    assert!(matches!(t, HulkType::Number) && !report);
    let (t, report) = binary_op_rule(&BinOp::Plus(p), &HulkType::Number, &HulkType::Boolean);
    assert!(matches!(t, HulkType::Error) && report);
    let (t, report) = binary_op_rule(&BinOp::Less(p), &HulkType::Number, &HulkType::Number);
    assert!(matches!(t, HulkType::Boolean) && !report);
    let (t, report) = binary_op_rule(&BinOp::Concat(p), &HulkType::Number, &HulkType::Boolean);
    assert!(matches!(t, HulkType::String) && !report);
    let (t, report) = binary_op_rule(&BinOp::And(p), &HulkType::Error, &HulkType::Number);
    assert!(matches!(t, HulkType::Error) && !report);
    let (t, report) = unary_op_rule(&UnaryOp::Not(p), &HulkType::Boolean);
    assert!(matches!(t, HulkType::Boolean) && !report);
    let (t, report) = unary_op_rule(&UnaryOp::Minus(p), &HulkType::String);
    assert!(matches!(t, HulkType::Error) && report);
}

fn class(name: &str, parent: &str) -> ClassInfo {
    ClassInfo {
        name: name.to_string(),
        params: Vec::new(),
        parent: Some(parent.to_string()),
        attributes: Vec::new(),
        methods: Vec::new(),
        span: pos(),
    }
}

fn hierarchy() -> SymbolTable {
    // Object <- A <- B <- D, A <- C, Object <- E
    let mut t = SymbolTable::new();
    t.classes.push(class("A", "Object"));
    t.classes.push(class("B", "A"));
    t.classes.push(class("C", "A"));
    t.classes.push(class("D", "B"));
    t.classes.push(class("E", "Object"));
    t
}

fn cls(n: &str) -> HulkType {
    HulkType::Class(n.to_string())
}

#[test]
fn lca_of_classes_is_the_meeting_point_in_either_order() {
    let t = hierarchy();
    assert!(matches!(t.lca(&cls("D"), &cls("C")), HulkType::Class(ref n) if n == "A"));
    assert!(matches!(t.lca(&cls("C"), &cls("D")), HulkType::Class(ref n) if n == "A"));
    assert!(matches!(t.lca(&cls("D"), &cls("B")), HulkType::Class(ref n) if n == "B"));
    assert!(matches!(t.lca(&cls("B"), &cls("D")), HulkType::Class(ref n) if n == "B"));
    assert!(matches!(t.lca(&cls("D"), &cls("E")), HulkType::Class(ref n) if n == "Object"));
    assert!(matches!(t.lca(&cls("E"), &cls("D")), HulkType::Class(ref n) if n == "Object"));
}

#[test]
fn lca_lies_below_every_common_superclass() {
    let t = hierarchy();
    let r = t.lca(&cls("D"), &cls("C"));
    for c in ["A", "Object"] {
        assert!(t.conforms_to(&cls("D"), &cls(c)) && t.conforms_to(&cls("C"), &cls(c)));
        assert!(t.conforms_to(&r, &cls(c)), "{}", c);
    }
    assert!(!t.conforms_to(&cls("C"), &cls("B")));
}

#[test]
fn popped_scope_gives_back_its_bindings_in_order() {
    let mut t = SymbolTable::new();
    t.define_var("x", HulkType::Number, pos());
    t.push_scope();
    assert!(t.define_var("a", HulkType::String, Position::new(3, 4)));
    assert!(t.define_var("x", HulkType::Boolean, Position::new(5, 6)));
    assert!(t.mark_var_used("a"));
    let popped = t.pop_scope();
    assert_eq!(popped.len(), 2);
    assert_eq!(popped[0].name, "a");
    assert!(matches!(popped[0].hulk_type, HulkType::String));
    assert!(popped[0].used);
    assert_eq!(popped[1].name, "x");
    assert!(matches!(popped[1].hulk_type, HulkType::Boolean));
    assert!(!popped[1].used);
    assert!(matches!(t.var_type("x"), Some(HulkType::Number)));
    assert!(t.lookup_var("a").is_none());
}
