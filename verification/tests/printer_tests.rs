use hulk::ast::{
    BinOp, BinaryOpExpr, CallExpr, Expr, FunctionDef, LetExpr, NumberExpr, Params, Program, StringExpr,
    VariableExpr,
};
use hulk::printer::PrettyPrinter;
use hulk::span::Span;
use hulk::types::HulkType;

fn sp() -> Span {
    Span::new(0, 1)
}

fn num(v: &str, ty: Option<HulkType>) -> Box<Expr> {
    Box::new(Expr::Number(NumberExpr { value: v.to_string(), span: sp(), ty }))
}

fn var(name: &str) -> Box<Expr> {
    Box::new(Expr::Variable(VariableExpr { name: name.to_string(), span: sp(), ty: None }))
}

#[test]
fn prints_binary_operation() {
    let e = Expr::BinaryOp(BinaryOpExpr { left: num("1", None), op: BinOp::Add, right: var("x"), span: sp(), ty: None });
    let mut p = PrettyPrinter::new();
    p.visit_expr(&e);
    assert_eq!(p.into_string(), "BinaryOp { op: Add\n  left:\n    Number(1)\n  right:\n    Variable(x)\n}\n");
}

#[test]
fn prints_recorded_types() {
    let e = Expr::BinaryOp(BinaryOpExpr {
        left: num("2", Some(HulkType::Number)),
        op: BinOp::Mul,
        right: num("3", Some(HulkType::Number)),
        span: sp(),
        ty: Some(HulkType::Number),
    });
    let mut p = PrettyPrinter::new();
    p.visit_expr(&e);
    assert_eq!(
        p.into_string(),
        "BinaryOp { op: Mul : Number\n  left:\n    Number(2) : Number\n  right:\n    Number(3) : Number\n}\n"
    );
}

#[test]
fn prints_string_with_quotes() {
    let e = Expr::String(StringExpr { value: "hi \"there\"".to_string(), span: sp(), ty: Some(HulkType::String) });
    let mut p = PrettyPrinter::new();
    p.visit_expr(&e);
    assert_eq!(p.into_string(), "String(\"hi \\\"there\\\"\") : String\n");
}

#[test]
fn prints_let_bindings() {
    let e = Expr::Let(LetExpr {
        bindings: vec![("a".to_string(), Some(HulkType::Number), num("1", None))],
        body: var("a"),
        span: sp(),
        ty: None,
    });
    let mut p = PrettyPrinter::new();
    p.visit_expr(&e);
    assert_eq!(
        p.into_string(),
        "Let {\n  bindings: [\n    a: Number =\n      Number(1)\n  ]\n  body:\n    Variable(a)\n}\n"
    );
}

#[test]
fn prints_call_arguments_with_separators() {
    let e = Expr::Call(CallExpr { func: "f".to_string(), args: vec![num("1", None), num("2", None)], span: sp(), ty: None });
    let mut p = PrettyPrinter::new();
    p.visit_expr(&e);
    assert_eq!(p.into_string(), "Call(f, args: [\n  Number(1)\n  ,\n  Number(2)\n  \n])\n");
    let empty = Expr::Call(CallExpr { func: "g".to_string(), args: vec![], span: sp(), ty: None });
    let mut q = PrettyPrinter::new();
    q.visit_expr(&empty);
    assert_eq!(q.into_string(), "Call(g, args: [\n])\n");
}

#[test]
fn prints_program() {
    let f = FunctionDef {
        name: "f".to_string(),
        params: vec![Params { name: "x".to_string(), ty: Some(HulkType::Number), ty_annotation: Some(HulkType::Number), span: sp() }],
        body: var("x"),
        span: sp(),
        ty: None,
        ty_annotation: None,
        is_generic: false,
    };
    let main = Box::new(Expr::Call(CallExpr { func: "f".to_string(), args: vec![num("2", None)], span: sp(), ty: None }));
    let prog = Program { types: vec![], protocols: vec![], functions: vec![f], main_expr: main, span: sp() };
    let mut p = PrettyPrinter::new();
    p.visit_program(&prog);
    let expected = "Program {\n  FunctionDef { name: 'f', generic: false, params: [x: Number [infer: Number]]\n    body:\n      Variable(x)\n  }\n  main_expr:\n    Call(f, args: [\n      Number(2)\n      \n    ])\n}\n";
    assert_eq!(p.into_string(), expected);
}

#[test]
fn printing_two_expressions_concatenates_their_texts() {
    let a = *num("1", None);
    let b = *var("x");
    let mut first = PrettyPrinter::new();
    first.visit_expr(&a);
    let ta = first.into_string();
    let mut second = PrettyPrinter::new();
    second.visit_expr(&b);
    let tb = second.into_string();
    let mut both = PrettyPrinter::new();
    both.visit_expr(&a);
    both.visit_expr(&b);
    assert_eq!(both.into_string(), format!("{}{}", ta, tb));
}
