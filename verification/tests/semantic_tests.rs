use hulk::ast::{
    Attribute, BaseExpr, BinOp, BinaryOpExpr, BoolExpr, CallExpr, DestructiveAssignExpr, Expr, FunctionDef, Method, MethodParam, NewExpr,
    IfExpr, LetExpr, NumberExpr, Params, Parent, Program, TypeDef, VariableExpr, WhileExpr,
};
use hulk::base_detector::BaseDetector;
use hulk::error::CompilerError;
use hulk::inference::{Constraint, Unifier};
use hulk::span::Span;
use hulk::type_checker::TypeChecker;
use hulk::types::HulkType;

fn sp(a: usize, b: usize) -> Span {
    Span::new(a, b)
}

fn num(v: &str, a: usize, b: usize) -> Box<Expr> {
    Box::new(Expr::Number(NumberExpr { value: v.to_string(), span: sp(a, b), ty: None }))
}

fn boolean(v: bool, a: usize, b: usize) -> Box<Expr> {
    Box::new(Expr::Bool(BoolExpr { value: v, span: sp(a, b), ty: None }))
}

fn var(name: &str, a: usize, b: usize) -> Box<Expr> {
    Box::new(Expr::Variable(VariableExpr { name: name.to_string(), span: sp(a, b), ty: None }))
}

fn bin(op: BinOp, l: Box<Expr>, r: Box<Expr>, a: usize, b: usize) -> Box<Expr> {
    Box::new(Expr::BinaryOp(BinaryOpExpr { left: l, op, right: r, span: sp(a, b), ty: None }))
}

fn call(f: &str, args: Vec<Box<Expr>>, a: usize, b: usize) -> Box<Expr> {
    Box::new(Expr::Call(CallExpr { func: f.to_string(), args, span: sp(a, b), ty: None }))
}

fn program(types: Vec<TypeDef>, functions: Vec<FunctionDef>, main: Box<Expr>) -> Program {
    Program { types, protocols: vec![], functions, main_expr: main, span: sp(0, 100) }
}

fn class(name: &str, parent: Option<&str>) -> TypeDef {
    TypeDef {
        name: name.to_string(),
        params: vec![],
        param_types: vec![],
        parent: parent.map(|p| Parent { name: p.to_string(), args: vec![], span: sp(0, 1), ty: None }),
        attributes: vec![],
        methods: vec![],
        span: sp(0, 1),
        ty: None,
    }
}

fn is_number(t: &HulkType) -> bool {
    matches!(t, HulkType::Number)
}

#[test]
fn unifier_binds_variable_to_number() {
    let mut u = Unifier::default();
    let v = u.new_var();
    assert!(matches!(v, HulkType::Var(0)));
    assert!(u.unify(&v, &HulkType::Number).is_ok());
    assert!(is_number(&u.resolve(&v)));
    assert!(is_number(&u.apply(&v)));
}

#[test]
fn unifier_reports_mismatch() {
    let mut u = Unifier::default();
    assert_eq!(u.unify(&HulkType::Number, &HulkType::String), Err("Cannot unify Number and String".to_string()));
    assert!(u.unify(&HulkType::Boolean, &HulkType::Boolean).is_ok());
}

#[test]
fn unifier_chains_variables() {
    let mut u = Unifier::default();
    let a = u.new_var();
    let b = u.new_var();
    assert!(u.unify(&a, &b).is_ok());
    assert!(u.unify(&b, &HulkType::String).is_ok());
    assert!(matches!(u.resolve(&a), HulkType::String));
}

#[test]
fn unifier_checks_constraints() {
    let mut u = Unifier::default();
    let v = u.new_var();
    let id = v.get_var_id().unwrap();
    u.add_constraint(id, Constraint::StringOrNumber);
    assert_eq!(u.get_constraints(id).map(|c| c.len()), Some(1));
    assert!(u.check_constraints(id, &HulkType::Number).is_ok());
    assert_eq!(
        u.check_constraints(id, &HulkType::Boolean),
        Err("Type Boolean must be String or Number".to_string())
    );
    assert_eq!(u.bind(id, HulkType::Boolean), Err("Type Boolean must be String or Number".to_string()));
    assert!(u.bind(id, HulkType::String).is_ok());
    assert!(matches!(u.resolve(&v), HulkType::String));
}

#[test]
fn unifier_occurs_check() {
    let mut u = Unifier::default();
    let v = u.new_var();
    let id = v.get_var_id().unwrap();
    assert_eq!(u.bind(id, HulkType::Var(id)), Err("Occurs check failed".to_string()));
}

#[test]
fn type_compatibility() {
    assert!(HulkType::Number.is_compatible_with(&HulkType::Number));
    assert!(HulkType::Object.is_compatible_with(&HulkType::String));
    assert!(HulkType::Boolean.is_compatible_with(&HulkType::Var(3)));
    assert!(!HulkType::Number.is_compatible_with(&HulkType::String));
    assert_eq!(HulkType::Var(7).get_var_id(), Some(7));
    assert_eq!(HulkType::Number.get_var_id(), None);
}

#[test]
fn conformance_of_builtin_types() {
    let tc = TypeChecker::new();
    assert!(tc.conforms_to(&HulkType::Number, &HulkType::Object));
    assert!(tc.conforms_to(&HulkType::Var(0), &HulkType::String));
    assert!(!tc.conforms_to(&HulkType::Number, &HulkType::String));
    assert!(!tc.conforms_to(&HulkType::Error, &HulkType::Error));
    assert!(tc.conforms_to(&HulkType::String, &HulkType::String));
}

#[test]
fn lowest_common_ancestor_of_builtin_types() {
    let tc = TypeChecker::new();
    assert!(matches!(tc.lowest_common_ancestor(&HulkType::Number, &HulkType::Number), Some(HulkType::Number)));
    assert!(matches!(tc.lowest_common_ancestor(&HulkType::Number, &HulkType::String), Some(HulkType::Object)));
    assert!(matches!(tc.lowest_common_ancestor(&HulkType::Number, &HulkType::Object), Some(HulkType::Object)));
}

#[test]
fn check_accepts_arithmetic() {
    let mut tc = TypeChecker::new();
    let mut p = program(vec![], vec![], bin(BinOp::Add, num("1", 0, 1), num("2", 4, 5), 0, 5));
    assert!(tc.check(&mut p).is_ok());
    assert!(matches!(p.main_expr.get_type(), Some(HulkType::Number)));
}

#[test]
fn check_rejects_adding_a_boolean() {
    let mut tc = TypeChecker::new();
    let mut p = program(vec![], vec![], bin(BinOp::Add, num("1", 0, 1), boolean(true, 4, 8), 0, 8));
    match tc.check(&mut p) {
        Err(errors) => {
            assert_eq!(errors.len(), 1);
            match &errors[0] {
                CompilerError::TypeError { msg, span } => {
                    assert_eq!(msg, "Cannot unify Boolean and Number");
                    assert_eq!(*span, sp(4, 8));
                },
                other => panic!("unexpected error: {:?}", other),
            }
        },
        Ok(()) => panic!("expected a type error"),
    }
}

#[test]
fn check_infers_function_parameter() {
    let mut tc = TypeChecker::new();
    let f = FunctionDef {
        name: "f".to_string(),
        params: vec![Params { name: "x".to_string(), ty: None, ty_annotation: None, span: sp(11, 12) }],
        body: bin(BinOp::Add, var("x", 17, 18), num("1", 21, 22), 17, 22),
        span: sp(0, 23),
        ty: None,
        ty_annotation: None,
        is_generic: false,
    };
    let mut p = program(vec![], vec![f], call("f", vec![num("2", 26, 27)], 24, 28));
    assert!(tc.check(&mut p).is_ok());
    assert!(matches!(p.main_expr.get_type(), Some(HulkType::Number)));
    assert!(matches!(p.functions[0].ty, Some(HulkType::Number)));
}

#[test]
fn check_reports_unknown_variable() {
    let mut tc = TypeChecker::new();
    let mut p = program(vec![], vec![], var("y", 0, 1));
    assert!(tc.check(&mut p).is_err());
}

#[test]
fn class_hierarchy_after_check() {
    let mut tc = TypeChecker::new();
    let new_b = Box::new(Expr::New(NewExpr { class_name: "B".to_string(), args: vec![], span: sp(0, 7), ty: None }));
    let mut p = program(vec![class("A", None), class("B", Some("A")), class("C", Some("A"))], vec![], new_b);
    assert!(tc.check(&mut p).is_ok());
    let a = HulkType::Class("A".to_string());
    let b = HulkType::Class("B".to_string());
    let c = HulkType::Class("C".to_string());
    assert!(tc.conforms_to(&b, &a));
    assert!(!tc.conforms_to(&a, &b));
    match tc.lowest_common_ancestor(&b, &c) {
        Some(HulkType::Class(name)) => assert_eq!(name, "A"),
        other => panic!("unexpected ancestor: {:?}", other),
    }
    assert!(tc.get_type_def("B").is_some());
    assert!(tc.get_type_def("Z").is_none());
    assert!(tc.get_flattened_types().iter().any(|(n, _)| n == "B"));
}

#[test]
fn base_detector_finds_base() {
    let mut d = BaseDetector::new();
    let plain = bin(BinOp::Add, num("1", 0, 1), num("2", 2, 3), 0, 3);
    d.visit_expr(&plain);
    assert!(!d.found);
    let with_base = bin(
        BinOp::Add,
        num("1", 0, 1),
        Box::new(Expr::Base(BaseExpr { span: sp(2, 6), ty: None, base_type: None, method_name: None })),
        0,
        6,
    );
    d.visit_expr(&with_base);
    assert!(d.found);
    d.reset();
    assert!(!d.found);
}

#[test]
fn check_records_operator_types() {
    use_types_of_comparison();
}

fn use_types_of_comparison() {
    let mut tc = TypeChecker::new();
    let cond = bin(BinOp::Lt, num("1", 4, 5), num("2", 8, 9), 4, 9);
    let sum = bin(BinOp::Add, num("3", 11, 12), num("4", 15, 16), 11, 16);
    let main = bin(BinOp::And, cond, bin(BinOp::Eq, sum, num("7", 20, 21), 11, 21), 0, 21);
    let mut p = program(vec![], vec![], main);
    assert!(tc.check(&mut p).is_ok());
    match &*p.main_expr {
        Expr::BinaryOp(and) => {
            assert!(matches!(and.ty, Some(HulkType::Boolean)));
            match (&*and.left, &*and.right) {
                (Expr::BinaryOp(lt), Expr::BinaryOp(eq)) => {
                    assert!(matches!(lt.ty, Some(HulkType::Boolean)));
                    assert!(matches!(lt.left.get_type(), Some(HulkType::Number)));
                    assert!(matches!(eq.ty, Some(HulkType::Boolean)));
                    assert!(matches!(eq.left.get_type(), Some(HulkType::Number)));
                },
                _ => panic!("shape changed"),
            }
        },
        _ => panic!("shape changed"),
    }
}

#[test]
fn check_records_operator_types_in_declarations() {
    let mut tc = TypeChecker::new();
    let f = FunctionDef {
        name: "neg".to_string(),
        params: vec![Params { name: "x".to_string(), ty: None, ty_annotation: None, span: sp(8, 9) }],
        body: bin(BinOp::Sub, num("0", 13, 14), var("x", 17, 18), 13, 18),
        span: sp(0, 19),
        ty: None,
        ty_annotation: None,
        is_generic: false,
    };
    let mut point = class("Point", None);
    point.attributes.push(Attribute {
        name: "x".to_string(),
        init_expr: bin(BinOp::Mul, num("2", 30, 31), num("3", 34, 35), 30, 35),
        span: sp(26, 36),
        ty: None,
        ty_annotation: None,
    });
    point.methods.push(Method {
        name: "small".to_string(),
        owner: None,
        params: vec![MethodParam { name: "k".to_string(), span: sp(44, 45), ty: None, ty_annotation: None }],
        body: bin(BinOp::Lt, var("k", 50, 51), num("10", 54, 56), 50, 56),
        span: sp(38, 57),
        ty: None,
        ty_annotation: None,
    });
    let mut p = program(vec![point], vec![f], call("neg", vec![num("4", 64, 65)], 60, 66));
    assert!(tc.check(&mut p).is_ok());
    match &*p.functions[0].body {
        Expr::BinaryOp(sub) => {
            assert!(matches!(sub.ty, Some(HulkType::Number)));
            assert!(matches!(sub.right.get_type(), Some(HulkType::Number)));
        },
        _ => panic!("shape changed"),
    }
    match &*p.types[0].attributes[0].init_expr {
        Expr::BinaryOp(mul) => assert!(matches!(mul.ty, Some(HulkType::Number))),
        _ => panic!("shape changed"),
    }
    match &*p.types[0].methods[0].body {
        Expr::BinaryOp(lt) => {
            assert!(matches!(lt.ty, Some(HulkType::Boolean)));
            assert!(matches!(lt.left.get_type(), Some(HulkType::Number)));
        },
        _ => panic!("shape changed"),
    }
}

fn attribute(name: &str, value: &str, a: usize) -> Attribute {
    Attribute { name: name.to_string(), init_expr: num(value, a + 4, a + 5), span: sp(a, a + 5), ty: None, ty_annotation: None }
}

fn method(name: &str, value: &str, a: usize) -> Method {
    Method {
        name: name.to_string(),
        owner: None,
        params: vec![],
        body: num(value, a + 8, a + 9),
        span: sp(a, a + 9),
        ty: None,
        ty_annotation: None,
    }
}

#[test]
fn flattening_lays_out_inherited_members_first() {
    let mut tc = TypeChecker::new();
    let mut a = class("A", None);
    a.attributes.push(attribute("x", "1", 10));
    a.methods.push(method("f", "1", 20));
    a.methods.push(method("g", "2", 30));
    let mut b = class("B", Some("A"));
    b.attributes.push(attribute("y", "2", 40));
    b.methods.push(method("h", "3", 50));
    b.methods.push(method("g", "4", 60));
    let new_b = Box::new(Expr::New(NewExpr { class_name: "B".to_string(), args: vec![], span: sp(70, 77), ty: None }));
    let mut p = program(vec![a, b], vec![], new_b);
    assert!(tc.check(&mut p).is_ok());
    let flat = tc.get_flattened_types();
    let fb = &flat.iter().find(|(n, _)| n == "B").expect("B is flattened").1;
    let names: Vec<&str> = fb.attributes.iter().map(|at| at.name.as_str()).collect();
    assert_eq!(names, vec!["x", "y"]);
    let slots: Vec<(&str, usize, &str)> =
        fb.methods.iter().map(|m| (m.method.name.as_str(), m.vtable_index, m.defining_type.as_str())).collect();
    assert_eq!(slots, vec![("f", 0, "A"), ("g", 1, "B"), ("h", 2, "B")]);
}

#[test]
fn check_records_operator_types_in_builtin_calls() {
    let mut tc = TypeChecker::new();
    let sum = bin(BinOp::Add, num("1", 6, 7), num("2", 10, 11), 6, 11);
    let root = call("sqrt", vec![bin(BinOp::Mul, num("3", 18, 19), num("3", 22, 23), 18, 23)], 13, 24);
    let main = call("print", vec![bin(BinOp::Add, sum, root, 6, 24)], 0, 25);
    let mut p = program(vec![], vec![], main);
    assert!(tc.check(&mut p).is_ok());
    match &*p.main_expr {
        Expr::Call(print) => match &*print.args[0] {
            Expr::BinaryOp(outer) => {
                assert!(matches!(outer.ty, Some(HulkType::Number)));
                match &*outer.right {
                    Expr::Call(sqrt) => match &*sqrt.args[0] {
                        Expr::BinaryOp(mul) => assert!(matches!(mul.ty, Some(HulkType::Number))),
                        _ => panic!("shape changed"),
                    },
                    _ => panic!("shape changed"),
                }
            },
            _ => panic!("shape changed"),
        },
        _ => panic!("shape changed"),
    }
}

#[test]
fn check_records_operator_types_in_function_arguments() {
    let mut tc = TypeChecker::new();
    let f = FunctionDef {
        name: "half".to_string(),
        params: vec![Params { name: "x".to_string(), ty: None, ty_annotation: None, span: sp(14, 15) }],
        body: bin(BinOp::Div, var("x", 20, 21), num("2", 24, 25), 20, 25),
        span: sp(0, 26),
        ty: None,
        ty_annotation: None,
        is_generic: false,
    };
    let arg = bin(BinOp::Sub, num("9", 33, 34), num("1", 37, 38), 33, 38);
    let mut p = program(vec![], vec![f], call("half", vec![arg], 28, 39));
    assert!(tc.check(&mut p).is_ok());
    match &*p.main_expr {
        Expr::Call(c) => match &*c.args[0] {
            Expr::BinaryOp(sub) => {
                assert!(matches!(sub.ty, Some(HulkType::Number)));
                assert!(matches!(sub.left.get_type(), Some(HulkType::Number)));
            },
            _ => panic!("shape changed"),
        },
        _ => panic!("shape changed"),
    }
}

#[test]
fn range_gives_the_builtin_range_class() {
    let mut tc = TypeChecker::new();
    let mut p = program(vec![], vec![], call("range", vec![num("1", 6, 7), num("5", 9, 10)], 0, 11));
    assert!(tc.check(&mut p).is_ok());
    match p.main_expr.get_type() {
        Some(HulkType::Class(name)) => assert_eq!(name, "_Range"),
        other => panic!("unexpected type: {:?}", other),
    }
    assert!(tc.get_type_def("_Range").is_some());
    let flat = tc.get_flattened_types();
    let fr = &flat.iter().find(|(n, _)| n == "_Range").expect("_Range is flattened").1;
    let names: Vec<&str> = fr.attributes.iter().map(|a| a.name.as_str()).collect();
    assert_eq!(names, vec!["min", "max", "current"]);
}

#[test]
fn unifier_refuses_a_binding_that_closes_a_cycle() {
    let mut u = Unifier::default();
    let a = u.new_var();
    let b = u.new_var();
    assert!(u.bind(0, HulkType::Var(1)).is_ok());
    assert_eq!(u.bind(1, HulkType::Var(0)), Err("Occurs check failed".to_string()));
    assert!(matches!(u.apply(&a), HulkType::Var(1)));
    assert!(matches!(u.apply(&b), HulkType::Var(1)));
}

#[test]
fn unifier_binds_through_a_bound_variable() {
    let mut u = Unifier::default();
    let _a = u.new_var();
    let _b = u.new_var();
    let c = u.new_var();
    assert!(u.bind(0, HulkType::Var(1)).is_ok());
    assert!(u.bind(2, HulkType::Var(0)).is_ok());
    assert!(u.bind(1, HulkType::Number).is_ok());
    assert!(is_number(&u.apply(&c)));
}

#[test]
fn unifier_rebinding_replaces_the_binding() {
    let mut u = Unifier::default();
    let v = u.new_var();
    assert!(u.bind(0, HulkType::Number).is_ok());
    assert!(u.bind(0, HulkType::String).is_ok());
    assert!(matches!(u.apply(&v), HulkType::String));
}

#[test]
fn check_collects_every_undefined_variable() {
    let main = Box::new(Expr::Block(hulk::ast::BlockExpr {
        expressions: vec![var("x", 1, 2), var("y", 4, 5)],
        span: sp(0, 6),
        ty: None,
    }));
    let mut prog = program(vec![], vec![], main);
    let result = TypeChecker::new().check(&mut prog);
    match result {
        Err(es) => {
            assert_eq!(es.len(), 2);
            match (&es[0], &es[1]) {
                (CompilerError::TypeError { msg: m0, span: s0 }, CompilerError::TypeError { msg: m1, span: s1 }) => {
                    assert_eq!(m0, "Undefined variable 'x'");
                    assert_eq!(*s0, sp(1, 2));
                    assert_eq!(m1, "Undefined variable 'y'");
                    assert_eq!(*s1, sp(4, 5));
                },
                other => panic!("unexpected errors: {:?}", other),
            }
        },
        Ok(()) => panic!("undefined variables are errors"),
    }
}

#[test]
fn check_succeeds_on_a_well_typed_program() {
    let mut prog = program(vec![], vec![], bin(BinOp::Add, num("1", 0, 1), num("2", 4, 5), 0, 5));
    assert!(TypeChecker::new().check(&mut prog).is_ok());
}

#[test]
fn math_function_checks_its_argument() {
    let mut tc = TypeChecker::new();
    let arg = Box::new(Expr::String(hulk::ast::StringExpr { value: "a".to_string(), span: sp(4, 7), ty: None }));
    let mut p = program(vec![], vec![], call("sin", vec![arg], 0, 8));
    match tc.check(&mut p) {
        Err(errors) => {
            assert_eq!(errors.len(), 1);
            match &errors[0] {
                CompilerError::TypeError { msg, span } => {
                    assert_eq!(msg, "Cannot unify String and Number");
                    assert_eq!(*span, sp(4, 7));
                },
                other => panic!("unexpected error: {:?}", other),
            }
        },
        Ok(()) => panic!("sin of a string is an error"),
    }
    assert!(matches!(p.main_expr.get_type(), Some(HulkType::Number)));
}

#[test]
fn bad_operand_keeps_the_operator_type() {
    let mut tc = TypeChecker::new();
    let right = Box::new(Expr::String(hulk::ast::StringExpr { value: "a".to_string(), span: sp(4, 7), ty: None }));
    let mut p = program(vec![], vec![], bin(BinOp::Add, num("1", 0, 1), right, 0, 7));
    match tc.check(&mut p) {
        Err(errors) => {
            assert_eq!(errors.len(), 1);
            match &errors[0] {
                CompilerError::TypeError { msg, span } => {
                    assert_eq!(msg, "Cannot unify String and Number");
                    assert_eq!(*span, sp(4, 7));
                },
                other => panic!("unexpected error: {:?}", other),
            }
        },
        Ok(()) => panic!("adding a string is an error"),
    }
    assert!(matches!(p.main_expr.get_type(), Some(HulkType::Number)));
}

#[test]
fn unifier_reports_a_constraint_violation() {
    let mut u = Unifier::default();
    let v = u.new_var();
    u.add_constraint(0, Constraint::StringOrNumber);
    assert_eq!(u.unify(&v, &HulkType::Boolean), Err("Type Boolean must be String or Number".to_string()));
    assert!(matches!(u.apply(&v), HulkType::Var(0)));
    assert!(u.unify(&v, &HulkType::Number).is_ok());
    assert!(is_number(&u.apply(&v)));
}

#[test]
fn check_reports_each_bad_operand_and_arity_in_order() {
    let neg = Box::new(Expr::UnaryOp(hulk::ast::UnaryOpExpr {
        op: hulk::ast::UnaryOp::Neg,
        expr: boolean(true, 2, 6),
        span: sp(1, 6),
        ty: None,
    }));
    let bad_range = call("range", vec![num("1", 14, 15)], 8, 16);
    let main = Box::new(Expr::Block(hulk::ast::BlockExpr { expressions: vec![neg, bad_range], span: sp(0, 17), ty: None }));
    let mut prog = program(vec![], vec![], main);
    match TypeChecker::new().check(&mut prog) {
        Err(es) => {
            assert_eq!(es.len(), 2);
            match (&es[0], &es[1]) {
                (CompilerError::TypeError { msg: m0, span: s0 }, CompilerError::TypeError { msg: m1, span: s1 }) => {
                    assert_eq!(m0, "Cannot unify Boolean and Number");
                    assert_eq!(*s0, sp(2, 6));
                    assert_eq!(m1, "range expects 2 arguments");
                    assert_eq!(*s1, sp(8, 16));
                },
                other => panic!("unexpected errors: {:?}", other),
            }
        },
        Ok(()) => panic!("expected errors"),
    }
}

#[test]
fn check_accepts_a_well_typed_block_of_builtin_calls() {
    let main = Box::new(Expr::Block(hulk::ast::BlockExpr {
        expressions: vec![
            call("sin", vec![num("1", 4, 5)], 0, 6),
            call("range", vec![num("1", 14, 15), num("3", 17, 18)], 8, 19),
        ],
        span: sp(0, 20),
        ty: None,
    }));
    let mut prog = program(vec![], vec![], main);
    assert!(TypeChecker::new().check(&mut prog).is_ok());
}

#[test]
fn check_reports_conditions_that_are_not_boolean() {
    let cond_if = Box::new(Expr::If(IfExpr {
        condition: num("1", 3, 4),
        then_branch: num("2", 6, 7),
        else_branch: num("3", 13, 14),
        span: sp(0, 14),
        ty: None,
    }));
    let cond_while = Box::new(Expr::While(WhileExpr {
        condition: num("0", 22, 23),
        body: num("4", 25, 26),
        span: sp(16, 26),
        ty: None,
    }));
    let main = Box::new(Expr::Block(hulk::ast::BlockExpr {
        expressions: vec![cond_if, cond_while],
        span: sp(0, 26),
        ty: None,
    }));
    let mut prog = program(vec![], vec![], main);
    match TypeChecker::new().check(&mut prog) {
        Err(es) => {
            assert_eq!(es.len(), 2);
            match (&es[0], &es[1]) {
                (CompilerError::TypeError { msg: m0, span: s0 }, CompilerError::TypeError { msg: m1, span: s1 }) => {
                    assert_eq!(m0, "If condition must be Boolean");
                    assert_eq!(*s0, sp(3, 4));
                    assert_eq!(m1, "While condition must be Boolean");
                    assert_eq!(*s1, sp(22, 23));
                },
                other => panic!("unexpected errors: {:?}", other),
            }
        },
        Ok(()) => panic!("a Number condition is an error"),
    }
}

#[test]
fn check_accepts_boolean_conditions() {
    let cond_if = Box::new(Expr::If(IfExpr {
        condition: boolean(true, 3, 7),
        then_branch: num("2", 9, 10),
        else_branch: num("3", 16, 17),
        span: sp(0, 17),
        ty: None,
    }));
    let mut prog = program(vec![], vec![], cond_if);
    assert!(TypeChecker::new().check(&mut prog).is_ok());
    match &*prog.main_expr {
        Expr::If(x) => assert!(matches!(x.ty, Some(HulkType::Number))),
        _ => panic!("the main expression is still a conditional"),
    }
}

fn let_in(bindings: Vec<(&str, Box<Expr>)>, body: Box<Expr>, a: usize, b: usize) -> Box<Expr> {
    Box::new(Expr::Let(LetExpr {
        bindings: bindings.into_iter().map(|(n, e)| (n.to_string(), None, e)).collect(),
        body,
        span: sp(a, b),
        ty: None,
    }))
}

#[test]
fn check_gives_let_variables_their_initializer_types() {
    // let x = 1, y = true in x + y
    let main = let_in(
        vec![("x", num("1", 8, 9)), ("y", boolean(true, 15, 19))],
        bin(BinOp::Add, var("x", 23, 24), var("y", 27, 28), 23, 28),
        0,
        28,
    );
    let mut prog = program(vec![], vec![], main);
    match TypeChecker::new().check(&mut prog) {
        Err(es) => {
            assert_eq!(es.len(), 1);
            match &es[0] {
                CompilerError::TypeError { msg, span } => {
                    assert_eq!(msg, "Cannot unify Boolean and Number");
                    assert_eq!(*span, sp(27, 28));
                },
                other => panic!("unexpected error: {:?}", other),
            }
        },
        Ok(()) => panic!("adding a Boolean is an error"),
    }
}

#[test]
fn check_accepts_a_let_whose_body_uses_earlier_bindings() {
    // let x = 1, y = x * 2 in y - x
    let main = let_in(
        vec![("x", num("1", 8, 9)), ("y", bin(BinOp::Mul, var("x", 15, 16), num("2", 19, 20), 15, 20))],
        bin(BinOp::Sub, var("y", 24, 25), var("x", 28, 29), 24, 29),
        0,
        29,
    );
    let mut prog = program(vec![], vec![], main);
    assert!(TypeChecker::new().check(&mut prog).is_ok());
    match &*prog.main_expr {
        Expr::Let(l) => assert!(matches!(l.ty, Some(HulkType::Number))),
        _ => panic!("the main expression is still a let"),
    }
}

#[test]
fn check_reports_an_undefined_initializer_once() {
    // let x = y in x
    let main = let_in(vec![("x", var("y", 8, 9))], var("x", 13, 14), 0, 14);
    let mut prog = program(vec![], vec![], main);
    match TypeChecker::new().check(&mut prog) {
        Err(es) => {
            assert_eq!(es.len(), 1);
            match &es[0] {
                CompilerError::TypeError { msg, span } => {
                    assert_eq!(msg, "Undefined variable 'y'");
                    assert_eq!(*span, sp(8, 9));
                },
                other => panic!("unexpected error: {:?}", other),
            }
        },
        Ok(()) => panic!("an undefined variable is an error"),
    }
}

fn assign(name: &str, a: usize, b: usize, value: Box<Expr>, c: usize) -> Box<Expr> {
    Box::new(Expr::DestructiveAssign(DestructiveAssignExpr { lhs: var(name, a, b), value, span: sp(a, c), ty: None }))
}

#[test]
fn check_reports_an_assignment_of_another_type() {
    // let x = 1 in x := true
    let main = let_in(vec![("x", num("1", 8, 9))], assign("x", 13, 14, boolean(true, 18, 22), 22), 0, 22);
    let mut prog = program(vec![], vec![], main);
    match TypeChecker::new().check(&mut prog) {
        Err(es) => {
            assert_eq!(es.len(), 1);
            match &es[0] {
                CompilerError::TypeError { msg, span } => {
                    assert_eq!(msg, "Cannot assign Boolean to expression of type Number");
                    assert_eq!(*span, sp(13, 22));
                },
                other => panic!("unexpected error: {:?}", other),
            }
        },
        Ok(()) => panic!("assigning a Boolean to a Number variable is an error"),
    }
}

#[test]
fn check_accepts_an_assignment_of_the_same_type() {
    // let x = 1 in x := x + 1
    let main = let_in(
        vec![("x", num("1", 8, 9))],
        assign("x", 13, 14, bin(BinOp::Add, var("x", 18, 19), num("1", 22, 23), 18, 23), 23),
        0,
        23,
    );
    let mut prog = program(vec![], vec![], main);
    assert!(TypeChecker::new().check(&mut prog).is_ok());
    match &*prog.main_expr {
        Expr::Let(l) => match &*l.body {
            Expr::DestructiveAssign(a) => assert!(matches!(a.ty, Some(HulkType::Number))),
            _ => panic!("the body is still an assignment"),
        },
        _ => panic!("the main expression is still a let"),
    }
}
