use hulk::ast::{Visitable, Visitor};
use hulk::ast_printer::AstPrinterVisitor;
use hulk::parser::{parse_expression, parse_program};

fn outline(src: &str) -> String {
    let p = parse_program(src).unwrap();
    let mut printer = AstPrinterVisitor::new();
    p.accept(&mut printer);
    assert_eq!(printer.indent, 0);
    printer.output
}

#[test]
fn new_printer_is_empty() {
    let p = AstPrinterVisitor::new();
    assert_eq!(p.indent, 0);
    assert_eq!(p.output, "");
}

#[test]
fn call_with_arguments() {
    assert_eq!(
        outline("print(1);"),
        "Program:\n  Entry:\n    FunctionCall: print()\n      Args:\n        NumberLiteral: 1\n"
    );
}

#[test]
fn call_without_arguments_has_no_args_line() {
    assert_eq!(outline("rand();"), "Program:\n  Entry:\n    FunctionCall: rand()\n");
}

#[test]
fn let_expression() {
    assert_eq!(
        outline("let x = 1 in x;"),
        [
            "Program:\n",
            "  Entry:\n",
            "    LetExpr:\n",
            "      Declarations:\n",
            "        Decl: x =\n",
            "          NumberLiteral: 1\n",
            "      In:\n",
            "        Variable: x\n",
        ].concat()
    );
}

#[test]
fn annotated_declaration_and_string() {
    assert_eq!(
        outline("let s: String = \"hi\" in print(s);"),
        [
            "Program:\n",
            "  Entry:\n",
            "    LetExpr:\n",
            "      Declarations:\n",
            "        Decl: s: String =\n",
            "          StringLiteral: hi\n",
            "      In:\n",
            "        FunctionCall: print()\n",
            "          Args:\n",
            "            Variable: s\n",
        ].concat()
    );
}

#[test]
fn class_and_function_declarations() {
    assert_eq!(
        outline("class A(a: Number) is B(a) { z = 1; m() -> 2; }\nfunction f(x) -> x;\n"),
        [
            "Program:\n",
            "  ClassDecl: A(a: Number, ) is B\n",
            "    Attribute: z =\n",
            "      NumberLiteral: 1\n",
            "    Method: m()\n",
            "      NumberLiteral: 2\n",
            "  FunctionDecl: f(x, )\n",
            "    Variable: x\n",
        ].concat()
    );
}

#[test]
fn block_bodies() {
    assert_eq!(
        outline("function g(): Number { 1; true; }\n{ g(); }"),
        [
            "Program:\n",
            "  FunctionDecl: g(): Number\n",
            "    Block:\n",
            "      NumberLiteral: 1\n",
            "      BoolLiteral: true\n",
            "  Entry:\n",
            "    Block:\n",
            "      FunctionCall: g()\n",
        ].concat()
    );
}

#[test]
fn operators_and_groups() {
    let e = parse_expression("-(1 + 2) * 3").unwrap();
    let mut printer = AstPrinterVisitor::new();
    printer.indent = 1;
    printer.visit_expression(&e);
    assert_eq!(
        printer.output,
        [
            "  BinaryOp: *\n",
            "    UnaryOp: -\n",
            "      Group:\n",
            "        BinaryOp: +\n",
            "          NumberLiteral: 1\n",
            "          NumberLiteral: 2\n",
            "    NumberLiteral: 3\n",
        ].concat()
    );
    assert_eq!(printer.indent, 1);
}

#[test]
fn if_with_elif_and_else() {
    assert_eq!(
        outline("if (a) 1 elif (b) 2 else 3;"),
        [
            "Program:\n",
            "  Entry:\n",
            "    IfExpr:\n",
            "      Condition:\n",
            "        Variable: a\n",
            "      Then:\n",
            "        NumberLiteral: 1\n",
            "      Elif:\n",
            "        Condition:\n",
            "          Variable: b\n",
            "        Then:\n",
            "          NumberLiteral: 2\n",
            "      Else:\n",
            "        NumberLiteral: 3\n",
        ].concat()
    );
}

#[test]
fn member_access_method_call_and_assignment() {
    assert_eq!(
        outline("p.x := p.get(1);"),
        [
            "Program:\n",
            "  Entry:\n",
            "    AssignExpr: :=\n",
            "      MemberAccess: .x\n",
            "        Variable: p\n",
            "      MethodCall: .get()\n",
            "        Object:\n",
            "          Variable: p\n",
            "        Args:\n",
            "          NumberLiteral: 1\n",
        ].concat()
    );
}

#[test]
fn new_instance_and_while() {
    assert_eq!(
        outline("while (true) new P(1);"),
        [
            "Program:\n",
            "  Entry:\n",
            "    WhileExpr:\n",
            "      Condition:\n",
            "        BoolLiteral: true\n",
            "      Body:\n",
            "        NewInstance: P\n",
            "          Args:\n",
            "            NumberLiteral: 1\n",
        ].concat()
    );
}
