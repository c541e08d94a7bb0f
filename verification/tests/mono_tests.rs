use hulk::ast::{BlockExpr, CallExpr, Expr, FunctionDef, NumberExpr, Params, Program, StringExpr, VariableExpr};
use hulk::type_checker::TypeChecker;
use hulk::error::CompilerError;
use hulk::mono::{
    mangle_specialization, replace_type_var, substitute_in_expr, substitute_in_function, type_to_string,
    MonomorphizationPass,
};
use hulk::span::Span;
use hulk::types::HulkType;
use std::collections::HashMap;

fn sp(a: usize, b: usize) -> Span {
    Span::new(a, b)
}

fn typed_num(v: &str) -> Box<Expr> {
    Box::new(Expr::Number(NumberExpr { value: v.to_string(), span: sp(0, 1), ty: Some(HulkType::Number) }))
}

fn typed_var(name: &str, t: HulkType) -> Box<Expr> {
    Box::new(Expr::Variable(VariableExpr { name: name.to_string(), span: sp(0, 1), ty: Some(t) }))
}

fn typed_call(f: &str, args: Vec<Box<Expr>>, t: HulkType) -> Box<Expr> {
    Box::new(Expr::Call(CallExpr { func: f.to_string(), args, span: sp(3, 9), ty: Some(t) }))
}

fn generic_identity(body: Box<Expr>) -> FunctionDef {
    FunctionDef {
        name: "id".to_string(),
        params: vec![Params { name: "x".to_string(), ty: Some(HulkType::Var(0)), ty_annotation: None, span: sp(0, 1) }],
        body,
        span: sp(0, 20),
        ty: Some(HulkType::Var(0)),
        ty_annotation: None,
        is_generic: true,
    }
}

fn show(t: &Option<HulkType>) -> String {
    format!("{:?}", t)
}

#[test]
fn type_names_in_specializations() {
    assert_eq!(type_to_string(&HulkType::Number), "Number");
    assert_eq!(type_to_string(&HulkType::Boolean), "Bool");
    assert_eq!(type_to_string(&HulkType::String), "String");
    assert_eq!(type_to_string(&HulkType::Object), "Object");
    assert_eq!(type_to_string(&HulkType::Class("Point".to_string())), "Point");
    assert_eq!(type_to_string(&HulkType::Protocol("Iter".to_string())), "Iter");
    assert_eq!(type_to_string(&HulkType::UserDefined("Q".to_string())), "UserDefinedQ");
    assert_eq!(type_to_string(&HulkType::Var(12)), "Var12");
    assert_eq!(type_to_string(&HulkType::Error), "Error");
}

#[test]
fn mangled_names() {
    assert_eq!(mangle_specialization("foo", &[HulkType::Number, HulkType::Boolean]), "foo$Number$Bool");
    assert_eq!(mangle_specialization("f", &[]), "f");
    assert_eq!(mangle_specialization("g", &[HulkType::Class("A".to_string())]), "g$A");
}

#[test]
fn replace_only_mapped_variables() {
    let mut subst = HashMap::new();
    subst.insert(0usize, HulkType::Number);
    assert!(matches!(replace_type_var(&HulkType::Var(0), &subst), HulkType::Number));
    assert!(matches!(replace_type_var(&HulkType::Var(1), &subst), HulkType::Var(1)));
    assert!(matches!(replace_type_var(&HulkType::String, &subst), HulkType::String));
}

#[test]
fn substitution_in_function() {
    let mut f = FunctionDef {
        name: "foo".to_string(),
        params: vec![
            Params { name: "x".to_string(), ty: Some(HulkType::Var(0)), ty_annotation: None, span: sp(0, 1) },
            Params { name: "y".to_string(), ty: Some(HulkType::Var(1)), ty_annotation: None, span: sp(2, 3) },
        ],
        body: typed_var("x", HulkType::Var(0)),
        span: sp(0, 10),
        ty: Some(HulkType::Var(0)),
        ty_annotation: None,
        is_generic: true,
    };
    let mut subst = HashMap::new();
    subst.insert(0usize, HulkType::Number);
    subst.insert(1usize, HulkType::String);
    substitute_in_function(&mut f, &subst);
    assert_eq!(show(&f.params[0].ty), "Some(Number)");
    assert_eq!(show(&f.params[1].ty), "Some(String)");
    assert_eq!(show(&f.ty), "Some(Number)");
    assert_eq!(show(&f.body.get_type().cloned()), "Some(Number)");
    assert_eq!(f.name, "foo");
    assert!(f.is_generic);
}

#[test]
fn substitution_reaches_nested_expressions() {
    let mut e = *typed_call("g", vec![typed_var("a", HulkType::Var(2)), typed_num("1")], HulkType::Var(2));
    let mut subst = HashMap::new();
    subst.insert(2usize, HulkType::Boolean);
    substitute_in_expr(&mut e, &subst);
    match &e {
        Expr::Call(c) => {
            assert_eq!(show(&c.ty), "Some(Boolean)");
            assert_eq!(show(&c.args[0].get_type().cloned()), "Some(Boolean)");
            assert_eq!(show(&c.args[1].get_type().cloned()), "Some(Number)");
        },
        _ => panic!("shape changed"),
    }
}

#[test]
fn run_specializes_generic_call() {
    let mut pass = MonomorphizationPass::new();
    let mut p = Program {
        types: vec![],
        protocols: vec![],
        functions: vec![generic_identity(typed_var("x", HulkType::Var(0)))],
        main_expr: typed_call("id", vec![typed_num("5")], HulkType::Number),
        span: sp(0, 30),
    };
    assert!(pass.run(&mut p).is_ok());
    assert_eq!(p.functions.len(), 1);
    let f = &p.functions[0];
    assert_eq!(f.name, "id$Number");
    assert!(!f.is_generic);
    assert_eq!(show(&f.params[0].ty), "Some(Number)");
    assert_eq!(show(&f.ty), "Some(Number)");
    assert_eq!(show(&f.body.get_type().cloned()), "Some(Number)");
    match &*p.main_expr {
        Expr::Call(c) => assert_eq!(c.func, "id$Number"),
        _ => panic!("shape changed"),
    }
}

#[test]
fn run_reuses_a_specialization() {
    let mut pass = MonomorphizationPass::new();
    let main = Box::new(Expr::Call(CallExpr {
        func: "pair".to_string(),
        args: vec![
            typed_call("id", vec![typed_num("1")], HulkType::Number),
            typed_call("id", vec![typed_num("2")], HulkType::Number),
        ],
        span: sp(0, 20),
        ty: Some(HulkType::Number),
    }));
    let mut p = Program {
        types: vec![],
        protocols: vec![],
        functions: vec![generic_identity(typed_var("x", HulkType::Var(0)))],
        main_expr: main,
        span: sp(0, 30),
    };
    assert!(pass.run(&mut p).is_ok());
    assert_eq!(p.functions.len(), 1);
    match &*p.main_expr {
        Expr::Call(c) => {
            assert_eq!(c.func, "pair");
            for a in &c.args {
                match &**a {
                    Expr::Call(inner) => assert_eq!(inner.func, "id$Number"),
                    _ => panic!("shape changed"),
                }
            }
        },
        _ => panic!("shape changed"),
    }
}

#[test]
fn run_keeps_concrete_functions_and_builtin_calls() {
    let mut pass = MonomorphizationPass::new();
    let concrete = FunctionDef {
        name: "one".to_string(),
        params: vec![],
        body: typed_call("print", vec![typed_num("1")], HulkType::Number),
        span: sp(0, 5),
        ty: Some(HulkType::Number),
        ty_annotation: None,
        is_generic: false,
    };
    let mut p = Program {
        types: vec![],
        protocols: vec![],
        functions: vec![concrete],
        main_expr: typed_call("one", vec![], HulkType::Number),
        span: sp(0, 30),
    };
    assert!(pass.run(&mut p).is_ok());
    assert_eq!(p.functions.len(), 1);
    assert_eq!(p.functions[0].name, "one");
    match &*p.main_expr {
        Expr::Call(c) => assert_eq!(c.func, "one"),
        _ => panic!("shape changed"),
    }
}

#[test]
fn run_detects_recursive_specialization() {
    let mut pass = MonomorphizationPass::new();
    let body = typed_call("id", vec![typed_var("x", HulkType::Var(0))], HulkType::Var(0));
    let mut p = Program {
        types: vec![],
        protocols: vec![],
        functions: vec![generic_identity(body)],
        main_expr: typed_call("id", vec![typed_num("5")], HulkType::Number),
        span: sp(0, 30),
    };
    match pass.run(&mut p) {
        Err(CompilerError::MonomorphizationError { msg, span }) => {
            assert_eq!(msg, "infinite recursion detected while instantiating `id$Number`");
            assert_eq!(span, sp(3, 9));
        },
        other => panic!("unexpected result: {:?}", other),
    }
}

#[test]
fn generic_identity_is_checked_then_specialized_per_type() {
    let id = FunctionDef {
        name: "id".to_string(),
        params: vec![Params { name: "x".to_string(), ty: None, ty_annotation: None, span: sp(12, 13) }],
        body: Box::new(Expr::Variable(VariableExpr { name: "x".to_string(), span: sp(18, 19), ty: None })),
        span: sp(0, 20),
        ty: None,
        ty_annotation: None,
        is_generic: false,
    };
    let call_num = Box::new(Expr::Call(CallExpr {
        func: "id".to_string(),
        args: vec![Box::new(Expr::Number(NumberExpr { value: "42".to_string(), span: sp(24, 26), ty: None }))],
        span: sp(21, 27),
        ty: None,
    }));
    let call_str = Box::new(Expr::Call(CallExpr {
        func: "id".to_string(),
        args: vec![Box::new(Expr::String(StringExpr { value: "Hola".to_string(), span: sp(32, 38), ty: None }))],
        span: sp(29, 39),
        ty: None,
    }));
    let main = Box::new(Expr::Block(BlockExpr { expressions: vec![call_num, call_str], span: sp(20, 40), ty: None }));
    let mut p = Program { types: vec![], protocols: vec![], functions: vec![id], main_expr: main, span: sp(0, 40) };
    let mut tc = TypeChecker::new();
    assert!(tc.check(&mut p).is_ok());
    assert!(p.functions[0].is_generic);
    let mut pass = MonomorphizationPass::new();
    assert!(pass.run(&mut p).is_ok());
    let mut names: Vec<String> = p.functions.iter().map(|f| f.name.clone()).collect();
    names.sort();
    assert_eq!(names, vec!["id$Number".to_string(), "id$String".to_string()]);
    assert!(p.functions.iter().all(|f| !f.is_generic));
    match &*p.main_expr {
        Expr::Block(b) => {
            let callees: Vec<String> = b
                .expressions
                .iter()
                .map(|e| match &**e {
                    Expr::Call(c) => c.func.clone(),
                    _ => String::new(),
                })
                .collect();
            assert_eq!(callees, vec!["id$Number".to_string(), "id$String".to_string()]);
        },
        _ => panic!("shape changed"),
    }
}

#[test]
fn run_redirects_calls_in_concrete_functions() {
    let mut pass = MonomorphizationPass::new();
    let wrapper = FunctionDef {
        name: "twice".to_string(),
        params: vec![],
        body: typed_call("id", vec![typed_num("2")], HulkType::Number),
        span: sp(0, 5),
        ty: Some(HulkType::Number),
        ty_annotation: None,
        is_generic: false,
    };
    let mut p = Program {
        types: vec![],
        protocols: vec![],
        functions: vec![generic_identity(typed_var("x", HulkType::Var(0))), wrapper],
        main_expr: typed_call("twice", vec![], HulkType::Number),
        span: sp(0, 30),
    };
    assert!(pass.run(&mut p).is_ok());
    let names: Vec<&str> = p.functions.iter().map(|f| f.name.as_str()).collect();
    assert_eq!(names, vec!["twice", "id$Number"]);
    match &*p.functions[0].body {
        Expr::Call(c) => assert_eq!(c.func, "id$Number"),
        _ => panic!("shape changed"),
    }
    match &*p.main_expr {
        Expr::Call(c) => assert_eq!(c.func, "twice"),
        _ => panic!("shape changed"),
    }
}
