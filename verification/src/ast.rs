use vstd::prelude::*;
use crate::span::Span;
use crate::types::HulkType;

verus! {

/// A number literal; the value is kept as it was written.
pub struct NumberExpr {
    pub value: String,
    pub span: Span,
    pub ty: Option<HulkType>,
}

/// Binary operators.
#[derive(Debug, Clone, Copy, PartialEq, Eq, Structural)]
pub enum BinOp {
    Add,
    Sub,
    Mul,
    Div,
    Pow,
    Concat,
    Eq,
    Neq,
    Lt,
    Gt,
    Leq,
    Geq,
    And,
    Or,
    Mod,
    ConcatSpace,
}

/// A binary operation.
pub struct BinaryOpExpr {
    pub left: Box<Expr>,
    pub op: BinOp,
    pub right: Box<Expr>,
    pub span: Span,
    pub ty: Option<HulkType>,
}

/// A string literal.
pub struct StringExpr {
    pub value: String,
    pub span: Span,
    pub ty: Option<HulkType>,
}

/// A call of a function by name.
pub struct CallExpr {
    pub func: String,
    pub args: Vec<Box<Expr>>,
    pub span: Span,
    pub ty: Option<HulkType>,
}

/// A named constant (such as `PI`).
pub struct ConstExpr {
    pub name: String,
    pub span: Span,
    pub ty: Option<HulkType>,
}

/// A boolean literal.
pub struct BoolExpr {
    pub value: bool,
    pub span: Span,
    pub ty: Option<HulkType>,
}

/// Unary operators.
#[derive(Debug, Clone, Copy, PartialEq, Eq, Structural)]
pub enum UnaryOp {
    Not,
    Neg,
}

/// A unary operation.
pub struct UnaryOpExpr {
    pub op: UnaryOp,
    pub expr: Box<Expr>,
    pub span: Span,
    pub ty: Option<HulkType>,
}

/// A use of a variable.
pub struct VariableExpr {
    pub name: String,
    pub span: Span,
    pub ty: Option<HulkType>,
}

/// `let` bindings (name, optional annotation, initializer) and a body.
pub struct LetExpr {
    pub bindings: Vec<(String, Option<HulkType>, Box<Expr>)>,
    pub body: Box<Expr>,
    pub span: Span,
    pub ty: Option<HulkType>,
}

/// A destructive assignment `lhs := value`.
pub struct DestructiveAssignExpr {
    pub lhs: Box<Expr>,
    pub value: Box<Expr>,
    pub span: Span,
    pub ty: Option<HulkType>,
}

/// A block of expressions.
pub struct BlockExpr {
    pub expressions: Vec<Box<Expr>>,
    pub span: Span,
    pub ty: Option<HulkType>,
}

/// A conditional.
pub struct IfExpr {
    pub condition: Box<Expr>,
    pub then_branch: Box<Expr>,
    pub else_branch: Box<Expr>,
    pub span: Span,
    pub ty: Option<HulkType>,
}

/// A loop.
pub struct WhileExpr {
    pub condition: Box<Expr>,
    pub body: Box<Expr>,
    pub span: Span,
    pub ty: Option<HulkType>,
}

/// An instantiation of a type.
pub struct NewExpr {
    pub class_name: String,
    pub args: Vec<Box<Expr>>,
    pub span: Span,
    pub ty: Option<HulkType>,
}

/// A method call on an object.
pub struct MethodCallExpr {
    pub object: Box<Expr>,
    pub method: String,
    pub args: Vec<Box<Expr>>,
    pub span: Span,
    pub ty: Option<HulkType>,
}

/// `self`.
pub struct SelfExpr {
    pub span: Span,
    pub ty: Option<HulkType>,
}

/// `base`: the parent's implementation of the current method.
pub struct BaseExpr {
    pub span: Span,
    pub ty: Option<HulkType>,
    /// Parent type that provides the implementation.
    pub base_type: Option<String>,
    /// Name of the invoked method.
    pub method_name: Option<String>,
}

/// An access to an attribute of an object.
pub struct AttributeAccessExpr {
    pub object: Box<Expr>,
    pub attribute: String,
    pub span: Span,
    pub ty: Option<HulkType>,
}

/// Expressions.
pub enum Expr {
    Number(NumberExpr),
    BinaryOp(BinaryOpExpr),
    String(StringExpr),
    Call(CallExpr),
    Const(ConstExpr),
    Bool(BoolExpr),
    UnaryOp(UnaryOpExpr),
    Variable(VariableExpr),
    Let(LetExpr),
    DestructiveAssign(DestructiveAssignExpr),
    Block(BlockExpr),
    If(IfExpr),
    While(WhileExpr),
    New(NewExpr),
    MethodCall(MethodCallExpr),
    SelfExpr(SelfExpr),
    Base(BaseExpr),
    AttributeAccess(AttributeAccessExpr),
}

/// The span of an expression.
pub open spec fn expr_span(e: Expr) -> Span {
    match e {
        Expr::Number(x) => x.span,
        Expr::BinaryOp(x) => x.span,
        Expr::String(x) => x.span,
        Expr::Call(x) => x.span,
        Expr::Const(x) => x.span,
        Expr::Bool(x) => x.span,
        Expr::UnaryOp(x) => x.span,
        Expr::Variable(x) => x.span,
        Expr::Let(x) => x.span,
        Expr::DestructiveAssign(x) => x.span,
        Expr::Block(x) => x.span,
        Expr::If(x) => x.span,
        Expr::While(x) => x.span,
        Expr::New(x) => x.span,
        Expr::MethodCall(x) => x.span,
        Expr::SelfExpr(x) => x.span,
        Expr::Base(x) => x.span,
        Expr::AttributeAccess(x) => x.span,
    }
}

/// The type recorded on an expression node.
pub open spec fn expr_ty(e: Expr) -> Option<HulkType> {
    match e {
        Expr::Number(x) => x.ty,
        Expr::BinaryOp(x) => x.ty,
        Expr::String(x) => x.ty,
        Expr::Call(x) => x.ty,
        Expr::Const(x) => x.ty,
        Expr::Bool(x) => x.ty,
        Expr::UnaryOp(x) => x.ty,
        Expr::Variable(x) => x.ty,
        Expr::Let(x) => x.ty,
        Expr::DestructiveAssign(x) => x.ty,
        Expr::Block(x) => x.ty,
        Expr::If(x) => x.ty,
        Expr::While(x) => x.ty,
        Expr::New(x) => x.ty,
        Expr::MethodCall(x) => x.ty,
        Expr::SelfExpr(x) => x.ty,
        Expr::Base(x) => x.ty,
        Expr::AttributeAccess(x) => x.ty,
    }
}

/// The expression with the type recorded on its node replaced.
pub open spec fn with_ty(e: Expr, t: Option<HulkType>) -> Expr {
    match e {
        Expr::Number(x) => Expr::Number(NumberExpr { ty: t, ..x }),
        Expr::BinaryOp(x) => Expr::BinaryOp(BinaryOpExpr { ty: t, ..x }),
        Expr::String(x) => Expr::String(StringExpr { ty: t, ..x }),
        Expr::Call(x) => Expr::Call(CallExpr { ty: t, ..x }),
        Expr::Const(x) => Expr::Const(ConstExpr { ty: t, ..x }),
        Expr::Bool(x) => Expr::Bool(BoolExpr { ty: t, ..x }),
        Expr::UnaryOp(x) => Expr::UnaryOp(UnaryOpExpr { ty: t, ..x }),
        Expr::Variable(x) => Expr::Variable(VariableExpr { ty: t, ..x }),
        Expr::Let(x) => Expr::Let(LetExpr { ty: t, ..x }),
        Expr::DestructiveAssign(x) => Expr::DestructiveAssign(DestructiveAssignExpr { ty: t, ..x }),
        Expr::Block(x) => Expr::Block(BlockExpr { ty: t, ..x }),
        Expr::If(x) => Expr::If(IfExpr { ty: t, ..x }),
        Expr::While(x) => Expr::While(WhileExpr { ty: t, ..x }),
        Expr::New(x) => Expr::New(NewExpr { ty: t, ..x }),
        Expr::MethodCall(x) => Expr::MethodCall(MethodCallExpr { ty: t, ..x }),
        Expr::SelfExpr(x) => Expr::SelfExpr(SelfExpr { ty: t, ..x }),
        Expr::Base(x) => Expr::Base(BaseExpr { ty: t, ..x }),
        Expr::AttributeAccess(x) => Expr::AttributeAccess(AttributeAccessExpr { ty: t, ..x }),
    }
}

impl Expr {
    /// The span of the expression.
    pub fn span(&self) -> (res: Span)
        ensures
            res == expr_span(*self),
    {
        match self {
            Expr::Number(x) => x.span,
            Expr::BinaryOp(x) => x.span,
            Expr::String(x) => x.span,
            Expr::Call(x) => x.span,
            Expr::Const(x) => x.span,
            Expr::Bool(x) => x.span,
            Expr::UnaryOp(x) => x.span,
            Expr::Variable(x) => x.span,
            Expr::Let(x) => x.span,
            Expr::DestructiveAssign(x) => x.span,
            Expr::Block(x) => x.span,
            Expr::If(x) => x.span,
            Expr::While(x) => x.span,
            Expr::New(x) => x.span,
            Expr::MethodCall(x) => x.span,
            Expr::SelfExpr(x) => x.span,
            Expr::Base(x) => x.span,
            Expr::AttributeAccess(x) => x.span,
        }
    }

    /// The type recorded on the expression, if any.
    pub fn get_type(&self) -> (res: Option<&HulkType>)
        ensures
            match res {
                Some(t) => expr_ty(*self) == Some(*t),
                None => expr_ty(*self) is None,
            },
    {
        match self {
            Expr::Number(x) => x.ty.as_ref(),
            Expr::BinaryOp(x) => x.ty.as_ref(),
            Expr::String(x) => x.ty.as_ref(),
            Expr::Call(x) => x.ty.as_ref(),
            Expr::Const(x) => x.ty.as_ref(),
            Expr::Bool(x) => x.ty.as_ref(),
            Expr::UnaryOp(x) => x.ty.as_ref(),
            Expr::Variable(x) => x.ty.as_ref(),
            Expr::Let(x) => x.ty.as_ref(),
            Expr::DestructiveAssign(x) => x.ty.as_ref(),
            Expr::Block(x) => x.ty.as_ref(),
            Expr::If(x) => x.ty.as_ref(),
            Expr::While(x) => x.ty.as_ref(),
            Expr::New(x) => x.ty.as_ref(),
            Expr::MethodCall(x) => x.ty.as_ref(),
            Expr::SelfExpr(x) => x.ty.as_ref(),
            Expr::Base(x) => x.ty.as_ref(),
            Expr::AttributeAccess(x) => x.ty.as_ref(),
        }
    }

    /// The slot in which the expression's type is recorded.
    pub fn ty_mut(&mut self) -> (res: &mut Option<HulkType>)
        ensures
            *res == expr_ty(*old(self)),
            *final(self) == with_ty(*old(self), *final(res)),
    {
        match self {
            Expr::Number(x) => &mut x.ty,
            Expr::BinaryOp(x) => &mut x.ty,
            Expr::String(x) => &mut x.ty,
            Expr::Call(x) => &mut x.ty,
            Expr::Const(x) => &mut x.ty,
            Expr::Bool(x) => &mut x.ty,
            Expr::UnaryOp(x) => &mut x.ty,
            Expr::Variable(x) => &mut x.ty,
            Expr::Let(x) => &mut x.ty,
            Expr::DestructiveAssign(x) => &mut x.ty,
            Expr::Block(x) => &mut x.ty,
            Expr::If(x) => &mut x.ty,
            Expr::While(x) => &mut x.ty,
            Expr::New(x) => &mut x.ty,
            Expr::MethodCall(x) => &mut x.ty,
            Expr::SelfExpr(x) => &mut x.ty,
            Expr::Base(x) => &mut x.ty,
            Expr::AttributeAccess(x) => &mut x.ty,
        }
    }
}


/// `b` is `a` with every type slot of an expression node transformed by `rel`: the same
/// tree, the same names, values and spans, and `rel(ty of a, ty of b)` at every node.
pub open spec fn types_mapped(
    a: Expr,
    b: Expr,
    rel: spec_fn(Option<HulkType>, Option<HulkType>) -> bool,
) -> bool
    decreases a,
{
    &&& rel(expr_ty(a), expr_ty(b))
    &&& match (a, b) {
        (Expr::Number(x), Expr::Number(y)) => x.value == y.value && x.span == y.span,
        (Expr::BinaryOp(x), Expr::BinaryOp(y)) => x.op == y.op && x.span == y.span && types_mapped(
            *x.left,
            *y.left,
            rel,
        ) && types_mapped(*x.right, *y.right, rel),
        (Expr::String(x), Expr::String(y)) => x.value == y.value && x.span == y.span,
        (Expr::Call(x), Expr::Call(y)) => x.func == y.func && x.span == y.span && x.args@.len()
            == y.args@.len() && forall|i: int|
            0 <= i < x.args@.len() ==> types_mapped(*x.args@[i], *y.args@[i], rel),
        (Expr::Const(x), Expr::Const(y)) => x.name == y.name && x.span == y.span,
        (Expr::Bool(x), Expr::Bool(y)) => x.value == y.value && x.span == y.span,
        (Expr::UnaryOp(x), Expr::UnaryOp(y)) => x.op == y.op && x.span == y.span && types_mapped(
            *x.expr,
            *y.expr,
            rel,
        ),
        (Expr::Variable(x), Expr::Variable(y)) => x.name == y.name && x.span == y.span,
        (Expr::Let(x), Expr::Let(y)) => x.span == y.span && x.bindings@.len() == y.bindings@.len()
            && (forall|i: int|
            0 <= i < x.bindings@.len() ==> x.bindings@[i].0 == y.bindings@[i].0 && x.bindings@[i].1
                == y.bindings@[i].1 && types_mapped(*x.bindings@[i].2, *y.bindings@[i].2, rel))
            && types_mapped(*x.body, *y.body, rel),
        (Expr::DestructiveAssign(x), Expr::DestructiveAssign(y)) => x.span == y.span && types_mapped(
            *x.lhs,
            *y.lhs,
            rel,
        ) && types_mapped(*x.value, *y.value, rel),
        (Expr::Block(x), Expr::Block(y)) => x.span == y.span && x.expressions@.len()
            == y.expressions@.len() && forall|i: int|
            0 <= i < x.expressions@.len() ==> types_mapped(*x.expressions@[i], *y.expressions@[i], rel),
        (Expr::If(x), Expr::If(y)) => x.span == y.span && types_mapped(*x.condition, *y.condition, rel)
            && types_mapped(*x.then_branch, *y.then_branch, rel) && types_mapped(
            *x.else_branch,
            *y.else_branch,
            rel,
        ),
        (Expr::While(x), Expr::While(y)) => x.span == y.span && types_mapped(*x.condition, *y.condition, rel)
            && types_mapped(*x.body, *y.body, rel),
        (Expr::New(x), Expr::New(y)) => x.class_name == y.class_name && x.span == y.span && x.args@.len()
            == y.args@.len() && forall|i: int|
            0 <= i < x.args@.len() ==> types_mapped(*x.args@[i], *y.args@[i], rel),
        (Expr::MethodCall(x), Expr::MethodCall(y)) => x.method == y.method && x.span == y.span
            && types_mapped(*x.object, *y.object, rel) && x.args@.len() == y.args@.len() && forall|i: int|
            0 <= i < x.args@.len() ==> types_mapped(*x.args@[i], *y.args@[i], rel),
        (Expr::SelfExpr(x), Expr::SelfExpr(y)) => x.span == y.span,
        (Expr::Base(x), Expr::Base(y)) => x.span == y.span && x.base_type == y.base_type && x.method_name
            == y.method_name,
        (Expr::AttributeAccess(x), Expr::AttributeAccess(y)) => x.attribute == y.attribute && x.span
            == y.span && types_mapped(*x.object, *y.object, rel),
        _ => false,
    }
}

/// The identity on type slots.
pub open spec fn same_rel() -> spec_fn(Option<HulkType>, Option<HulkType>) -> bool {
    |t1: Option<HulkType>, t2: Option<HulkType>| t1 == t2
}

/// Two expressions are the same tree with the same contents (lists compared element by
/// element).
pub open spec fn same_expr(a: Expr, b: Expr) -> bool {
    types_mapped(a, b, same_rel())
}

/// Two expression lists hold the same expressions.
pub open spec fn same_exprs(a: Seq<Box<Expr>>, b: Seq<Box<Expr>>) -> bool {
    a.len() == b.len() && forall|i: int|
        #![trigger b[i]]
        0 <= i < a.len() ==> types_mapped(*a[i], *b[i], same_rel())
}


/// A parameter of a function.
pub struct Params {
    pub name: String,
    pub ty: Option<HulkType>,
    pub ty_annotation: Option<HulkType>,
    pub span: Span,
}

/// A function definition.
pub struct FunctionDef {
    pub name: String,
    pub params: Vec<Params>,
    /// The body is always an expression (simple or block).
    pub body: Box<Expr>,
    pub span: Span,
    /// Return type.
    pub ty: Option<HulkType>,
    pub ty_annotation: Option<HulkType>,
    pub is_generic: bool,
}

/// A type definition.
pub struct TypeDef {
    pub name: String,
    pub params: Vec<String>,
    pub param_types: Vec<HulkType>,
    pub parent: Option<Parent>,
    pub attributes: Vec<Attribute>,
    pub methods: Vec<Method>,
    pub span: Span,
    pub ty: Option<HulkType>,
}

/// An attribute of a type, with its initializer.
pub struct Attribute {
    pub name: String,
    pub init_expr: Box<Expr>,
    pub span: Span,
    pub ty: Option<HulkType>,
    pub ty_annotation: Option<HulkType>,
}

/// A method of a type.
pub struct Method {
    pub name: String,
    pub owner: Option<String>,
    pub params: Vec<MethodParam>,
    pub body: Box<Expr>,
    pub span: Span,
    pub ty: Option<HulkType>,
    pub ty_annotation: Option<HulkType>,
}

/// A parameter of a method.
pub struct MethodParam {
    pub name: String,
    pub span: Span,
    pub ty: Option<HulkType>,
    pub ty_annotation: Option<HulkType>,
}

/// A member of a type definition.
pub enum TypeMember {
    Attribute(Attribute),
    Method(Method),
}

/// The parent of a type, with the arguments passed to its constructor.
pub struct Parent {
    pub name: String,
    pub args: Vec<Box<Expr>>,
    pub span: Span,
    pub ty: Option<HulkType>,
}

/// A protocol definition.
pub struct ProtocolDef {
    pub name: String,
    pub extends: Option<String>,
    pub methods: Vec<ProtocolMethod>,
    pub span: Span,
}

/// A method signature of a protocol.
pub struct ProtocolMethod {
    pub name: String,
    pub params: Vec<MethodParam>,
    pub return_ty: Option<HulkType>,
    pub span: Span,
}

/// A statement: a function definition or an expression.
pub enum Stmt {
    Function(FunctionDef),
    Expr(ExprStmt),
}

/// An expression used as a statement.
pub struct ExprStmt {
    pub expr: Box<Expr>,
    pub span: Span,
}

/// A top-level declaration.
pub enum TopLevel {
    Type(TypeDef),
    Protocol(ProtocolDef),
    Function(FunctionDef),
}

/// A whole program.
pub struct Program {
    pub types: Vec<TypeDef>,
    pub protocols: Vec<ProtocolDef>,
    pub functions: Vec<FunctionDef>,
    pub main_expr: Box<Expr>,
    pub span: Span,
}

fn clone_opt_type(t: &Option<HulkType>) -> (res: Option<HulkType>)
    ensures
        res == *t,
{
    match t {
        Some(x) => Some(x.clone()),
        None => None,
    }
}

fn clone_opt_string(t: &Option<String>) -> (res: Option<String>)
    ensures
        res == *t,
{
    match t {
        Some(x) => Some(x.clone()),
        None => None,
    }
}

/// A copy of a list of expressions.
pub fn clone_exprs(v: &Vec<Box<Expr>>) -> (res: Vec<Box<Expr>>)
    ensures
        same_exprs(v@, res@),
    decreases v, 0int,
{
    let mut out: Vec<Box<Expr>> = Vec::new();
    let mut i: usize = 0;
    while i < v.len()
        invariant
            i <= v@.len(),
            same_exprs(v@.subrange(0, i as int), out@),
        decreases v@.len() - i,
    {
        let e = clone_expr(&v[i]);
        out.push(Box::new(e));
        i = i + 1;
        assert forall|j: int| 0 <= j < i implies types_mapped(
            *v@.subrange(0, i as int)[j],
            #[trigger] *out@[j],
            same_rel(),
        ) by {
            if j < i - 1 {
                assert(out@[j] == out@.subrange(0, i - 1)[j]);
            }
        }
    }
    assert(v@.subrange(0, i as int) =~= v@);
    out
}

fn clone_bindings(v: &Vec<(String, Option<HulkType>, Box<Expr>)>) -> (res: Vec<
    (String, Option<HulkType>, Box<Expr>),
>)
    ensures
        res@.len() == v@.len(),
        forall|i: int|
            #![trigger res@[i]]
            0 <= i < v@.len() ==> res@[i].0 == v@[i].0 && res@[i].1 == v@[i].1 && same_expr(
                *v@[i].2,
                *res@[i].2,
            ),
    decreases v, 0int,
{
    let mut out: Vec<(String, Option<HulkType>, Box<Expr>)> = Vec::new();
    let mut i: usize = 0;
    while i < v.len()
        invariant
            i <= v@.len(),
            out@.len() == i,
            forall|j: int|
                #![trigger out@[j]]
                0 <= j < i ==> out@[j].0 == v@[j].0 && out@[j].1 == v@[j].1 && same_expr(
                    *v@[j].2,
                    *out@[j].2,
                ),
        decreases v@.len() - i,
    {
        let b = &v[i];
        let e = clone_expr(&b.2);
        let ghost before = out@;
        out.push((b.0.clone(), clone_opt_type(&b.1), Box::new(e)));
        assert forall|j: int| #![trigger out@[j]] 0 <= j < i + 1 implies out@[j].0 == v@[j].0 && out@[j].1
            == v@[j].1 && same_expr(*v@[j].2, *out@[j].2) by {
            if j < i {
                assert(out@[j] == before[j]);
                assert(same_expr(*v@[j].2, *before[j].2));
            } else {
                assert(same_expr(*v@[j].2, *out@[j].2));
            }
        }
        i = i + 1;
    }
    out
}

/// A copy of an expression.
pub fn clone_expr(e: &Expr) -> (res: Expr)
    ensures
        same_expr(*e, res),
    decreases e, 1int,
{
    match e {
        Expr::Number(x) => Expr::Number(
            NumberExpr { value: x.value.clone(), span: x.span, ty: clone_opt_type(&x.ty) },
        ),
        Expr::BinaryOp(x) => Expr::BinaryOp(
            BinaryOpExpr {
                left: Box::new(clone_expr(&x.left)),
                op: x.op,
                right: Box::new(clone_expr(&x.right)),
                span: x.span,
                ty: clone_opt_type(&x.ty),
            },
        ),
        Expr::String(x) => Expr::String(
            StringExpr { value: x.value.clone(), span: x.span, ty: clone_opt_type(&x.ty) },
        ),
        Expr::Call(x) => Expr::Call(
            CallExpr {
                func: x.func.clone(),
                args: clone_exprs(&x.args),
                span: x.span,
                ty: clone_opt_type(&x.ty),
            },
        ),
        Expr::Const(x) => Expr::Const(
            ConstExpr { name: x.name.clone(), span: x.span, ty: clone_opt_type(&x.ty) },
        ),
        Expr::Bool(x) => Expr::Bool(BoolExpr { value: x.value, span: x.span, ty: clone_opt_type(&x.ty) }),
        Expr::UnaryOp(x) => Expr::UnaryOp(
            UnaryOpExpr {
                op: x.op,
                expr: Box::new(clone_expr(&x.expr)),
                span: x.span,
                ty: clone_opt_type(&x.ty),
            },
        ),
        Expr::Variable(x) => Expr::Variable(
            VariableExpr { name: x.name.clone(), span: x.span, ty: clone_opt_type(&x.ty) },
        ),
        Expr::Let(x) => Expr::Let(
            LetExpr {
                bindings: clone_bindings(&x.bindings),
                body: Box::new(clone_expr(&x.body)),
                span: x.span,
                ty: clone_opt_type(&x.ty),
            },
        ),
        Expr::DestructiveAssign(x) => Expr::DestructiveAssign(
            DestructiveAssignExpr {
                lhs: Box::new(clone_expr(&x.lhs)),
                value: Box::new(clone_expr(&x.value)),
                span: x.span,
                ty: clone_opt_type(&x.ty),
            },
        ),
        Expr::Block(x) => Expr::Block(
            BlockExpr { expressions: clone_exprs(&x.expressions), span: x.span, ty: clone_opt_type(&x.ty) },
        ),
        Expr::If(x) => Expr::If(
            IfExpr {
                condition: Box::new(clone_expr(&x.condition)),
                then_branch: Box::new(clone_expr(&x.then_branch)),
                else_branch: Box::new(clone_expr(&x.else_branch)),
                span: x.span,
                ty: clone_opt_type(&x.ty),
            },
        ),
        Expr::While(x) => Expr::While(
            WhileExpr {
                condition: Box::new(clone_expr(&x.condition)),
                body: Box::new(clone_expr(&x.body)),
                span: x.span,
                ty: clone_opt_type(&x.ty),
            },
        ),
        Expr::New(x) => Expr::New(
            NewExpr {
                class_name: x.class_name.clone(),
                args: clone_exprs(&x.args),
                span: x.span,
                ty: clone_opt_type(&x.ty),
            },
        ),
        Expr::MethodCall(x) => Expr::MethodCall(
            MethodCallExpr {
                object: Box::new(clone_expr(&x.object)),
                method: x.method.clone(),
                args: clone_exprs(&x.args),
                span: x.span,
                ty: clone_opt_type(&x.ty),
            },
        ),
        Expr::SelfExpr(x) => Expr::SelfExpr(SelfExpr { span: x.span, ty: clone_opt_type(&x.ty) }),
        Expr::Base(x) => Expr::Base(
            BaseExpr {
                span: x.span,
                ty: clone_opt_type(&x.ty),
                base_type: clone_opt_string(&x.base_type),
                method_name: clone_opt_string(&x.method_name),
            },
        ),
        Expr::AttributeAccess(x) => Expr::AttributeAccess(
            AttributeAccessExpr {
                object: Box::new(clone_expr(&x.object)),
                attribute: x.attribute.clone(),
                span: x.span,
                ty: clone_opt_type(&x.ty),
            },
        ),
    }
}

impl Clone for Expr {
    fn clone(&self) -> (res: Self)
        ensures
            same_expr(*self, res),
    {
        clone_expr(self)
    }
}

impl Clone for Attribute {
    fn clone(&self) -> (res: Self)
        ensures
            res.name == self.name,
            same_expr(*self.init_expr, *res.init_expr),
            res.span == self.span,
            res.ty == self.ty,
            res.ty_annotation == self.ty_annotation,
    {
        Attribute {
            name: self.name.clone(),
            init_expr: Box::new(clone_expr(&self.init_expr)),
            span: self.span,
            ty: clone_opt_type(&self.ty),
            ty_annotation: clone_opt_type(&self.ty_annotation),
        }
    }
}

impl Clone for MethodParam {
    fn clone(&self) -> (res: Self)
        ensures
            res == *self,
    {
        MethodParam {
            name: self.name.clone(),
            span: self.span,
            ty: clone_opt_type(&self.ty),
            ty_annotation: clone_opt_type(&self.ty_annotation),
        }
    }
}

/// A copy of a list of method parameters.
pub fn clone_method_params(v: &Vec<MethodParam>) -> (res: Vec<MethodParam>)
    ensures
        res@ == v@,
{
    let mut out: Vec<MethodParam> = Vec::new();
    let mut i: usize = 0;
    while i < v.len()
        invariant
            i <= v@.len(),
            out@ == v@.subrange(0, i as int),
        decreases v@.len() - i,
    {
        out.push(v[i].clone());
        i = i + 1;
        assert(out@ =~= v@.subrange(0, i as int));
    }
    assert(v@.subrange(0, i as int) =~= v@);
    out
}

impl Clone for Method {
    fn clone(&self) -> (res: Self)
        ensures
            res.name == self.name,
            res.owner == self.owner,
            res.params@ == self.params@,
            same_expr(*self.body, *res.body),
            res.span == self.span,
            res.ty == self.ty,
            res.ty_annotation == self.ty_annotation,
    {
        Method {
            name: self.name.clone(),
            owner: clone_opt_string(&self.owner),
            params: clone_method_params(&self.params),
            body: Box::new(clone_expr(&self.body)),
            span: self.span,
            ty: clone_opt_type(&self.ty),
            ty_annotation: clone_opt_type(&self.ty_annotation),
        }
    }
}

impl Clone for Params {
    fn clone(&self) -> (res: Self)
        ensures
            res == *self,
    {
        Params {
            name: self.name.clone(),
            ty: clone_opt_type(&self.ty),
            ty_annotation: clone_opt_type(&self.ty_annotation),
            span: self.span,
        }
    }
}

impl Clone for FunctionDef {
    fn clone(&self) -> (res: Self)
        ensures
            res.name == self.name,
            res.params@ == self.params@,
            same_expr(*self.body, *res.body),
            res.span == self.span,
            res.ty == self.ty,
            res.ty_annotation == self.ty_annotation,
            res.is_generic == self.is_generic,
    {
        let mut params: Vec<Params> = Vec::new();
        let mut i: usize = 0;
        while i < self.params.len()
            invariant
                i <= self.params@.len(),
                params@ == self.params@.subrange(0, i as int),
            decreases self.params@.len() - i,
        {
            params.push(self.params[i].clone());
            i = i + 1;
            assert(params@ =~= self.params@.subrange(0, i as int));
        }
        assert(self.params@.subrange(0, i as int) =~= self.params@);
        FunctionDef {
            name: self.name.clone(),
            params,
            body: Box::new(clone_expr(&self.body)),
            span: self.span,
            ty: clone_opt_type(&self.ty),
            ty_annotation: clone_opt_type(&self.ty_annotation),
            is_generic: self.is_generic,
        }
    }
}


/// `b` is a copy of attribute `a`.
pub open spec fn attr_copy(a: Attribute, b: Attribute) -> bool {
    &&& a.name == b.name
    &&& same_expr(*a.init_expr, *b.init_expr)
    &&& a.span == b.span
    &&& a.ty == b.ty
    &&& a.ty_annotation == b.ty_annotation
}

/// `b` is a copy of method `a`.
pub open spec fn method_copy(a: Method, b: Method) -> bool {
    &&& a.name == b.name
    &&& a.owner == b.owner
    &&& a.params@ == b.params@
    &&& same_expr(*a.body, *b.body)
    &&& a.span == b.span
    &&& a.ty == b.ty
    &&& a.ty_annotation == b.ty_annotation
}

/// `b` is a copy of parent clause `a`.
pub open spec fn parent_copy(a: Option<Parent>, b: Option<Parent>) -> bool {
    match (a, b) {
        (None, None) => true,
        (Some(x), Some(y)) => x.name == y.name && same_exprs(x.args@, y.args@) && x.span == y.span && x.ty
            == y.ty,
        _ => false,
    }
}

/// `b` is a copy of type definition `a`.
pub open spec fn typedef_copy(a: TypeDef, b: TypeDef) -> bool {
    &&& a.name == b.name
    &&& a.params@ == b.params@
    &&& a.param_types@ == b.param_types@
    &&& parent_copy(a.parent, b.parent)
    &&& a.attributes@.len() == b.attributes@.len()
    &&& forall|i: int| 0 <= i < a.attributes@.len() ==> attr_copy(a.attributes@[i], #[trigger] b.attributes@[i])
    &&& a.methods@.len() == b.methods@.len()
    &&& forall|i: int| 0 <= i < a.methods@.len() ==> method_copy(a.methods@[i], #[trigger] b.methods@[i])
    &&& a.span == b.span
    &&& a.ty == b.ty
}

fn clone_types(v: &Vec<HulkType>) -> (res: Vec<HulkType>)
    ensures
        res@ == v@,
{
    let mut out: Vec<HulkType> = Vec::new();
    let mut i: usize = 0;
    while i < v.len()
        invariant
            i <= v@.len(),
            out@ == v@.subrange(0, i as int),
        decreases v@.len() - i,
    {
        out.push(v[i].clone());
        i = i + 1;
        assert(out@ =~= v@.subrange(0, i as int));
    }
    assert(v@.subrange(0, i as int) =~= v@);
    out
}

fn clone_strings(v: &Vec<String>) -> (res: Vec<String>)
    ensures
        res@ == v@,
{
    let mut out: Vec<String> = Vec::new();
    let mut i: usize = 0;
    while i < v.len()
        invariant
            i <= v@.len(),
            out@ == v@.subrange(0, i as int),
        decreases v@.len() - i,
    {
        out.push(v[i].clone());
        i = i + 1;
        assert(out@ =~= v@.subrange(0, i as int));
    }
    assert(v@.subrange(0, i as int) =~= v@);
    out
}

/// A copy of a list of names, for the other passes.
pub(crate) fn clone_strings_pub(v: &Vec<String>) -> (res: Vec<String>)
    ensures
        res@ == v@,
{
    clone_strings(v)
}

/// A copy of a type definition.
pub fn clone_typedef(td: &TypeDef) -> (res: TypeDef)
    ensures
        typedef_copy(*td, res),
{
    let parent = match &td.parent {
        Some(p) => Some(
            Parent { name: p.name.clone(), args: clone_exprs(&p.args), span: p.span, ty: clone_opt_type(&p.ty) },
        ),
        None => None,
    };
    let mut attributes: Vec<Attribute> = Vec::new();
    let mut i: usize = 0;
    while i < td.attributes.len()
        invariant
            i <= td.attributes@.len(),
            attributes@.len() == i,
            forall|j: int| 0 <= j < i ==> attr_copy(td.attributes@[j], #[trigger] attributes@[j]),
        decreases td.attributes@.len() - i,
    {
        attributes.push(td.attributes[i].clone());
        i = i + 1;
    }
    let mut methods: Vec<Method> = Vec::new();
    let mut k: usize = 0;
    while k < td.methods.len()
        invariant
            k <= td.methods@.len(),
            methods@.len() == k,
            forall|j: int| 0 <= j < k ==> method_copy(td.methods@[j], #[trigger] methods@[j]),
        decreases td.methods@.len() - k,
    {
        methods.push(td.methods[k].clone());
        k = k + 1;
    }
    TypeDef {
        name: td.name.clone(),
        params: clone_strings(&td.params),
        param_types: clone_types(&td.param_types),
        parent,
        attributes,
        methods,
        span: td.span,
        ty: clone_opt_type(&td.ty),
    }
}


/// Structural equality of expressions is symmetric.
pub proof fn lemma_same_expr_symmetric(a: Expr, b: Expr)
    requires
        same_expr(a, b),
    ensures
        same_expr(b, a),
    decreases a,
{
    match (a, b) {
        (Expr::BinaryOp(x), Expr::BinaryOp(y)) => {
            lemma_same_expr_symmetric(*x.left, *y.left);
            lemma_same_expr_symmetric(*x.right, *y.right);
        },
        (Expr::Call(x), Expr::Call(y)) => {
            assert forall|i: int| 0 <= i < y.args@.len() implies types_mapped(*y.args@[i], *x.args@[i], same_rel()) by {
                lemma_same_expr_symmetric(*x.args@[i], *y.args@[i]);
            }
        },
        (Expr::UnaryOp(x), Expr::UnaryOp(y)) => {
            lemma_same_expr_symmetric(*x.expr, *y.expr);
        },
        (Expr::Let(x), Expr::Let(y)) => {
            assert forall|i: int| 0 <= i < y.bindings@.len() implies y.bindings@[i].0 == x.bindings@[i].0
                && y.bindings@[i].1 == x.bindings@[i].1 && types_mapped(*y.bindings@[i].2, *x.bindings@[i].2, same_rel()) by {
                lemma_same_expr_symmetric(*x.bindings@[i].2, *y.bindings@[i].2);
            }
            lemma_same_expr_symmetric(*x.body, *y.body);
        },
        (Expr::DestructiveAssign(x), Expr::DestructiveAssign(y)) => {
            lemma_same_expr_symmetric(*x.lhs, *y.lhs);
            lemma_same_expr_symmetric(*x.value, *y.value);
        },
        (Expr::Block(x), Expr::Block(y)) => {
            assert forall|i: int| 0 <= i < y.expressions@.len() implies types_mapped(*y.expressions@[i], *x.expressions@[i], same_rel()) by {
                lemma_same_expr_symmetric(*x.expressions@[i], *y.expressions@[i]);
            }
        },
        (Expr::If(x), Expr::If(y)) => {
            lemma_same_expr_symmetric(*x.condition, *y.condition);
            lemma_same_expr_symmetric(*x.then_branch, *y.then_branch);
            lemma_same_expr_symmetric(*x.else_branch, *y.else_branch);
        },
        (Expr::While(x), Expr::While(y)) => {
            lemma_same_expr_symmetric(*x.condition, *y.condition);
            lemma_same_expr_symmetric(*x.body, *y.body);
        },
        (Expr::New(x), Expr::New(y)) => {
            assert forall|i: int| 0 <= i < y.args@.len() implies types_mapped(*y.args@[i], *x.args@[i], same_rel()) by {
                lemma_same_expr_symmetric(*x.args@[i], *y.args@[i]);
            }
        },
        (Expr::MethodCall(x), Expr::MethodCall(y)) => {
            lemma_same_expr_symmetric(*x.object, *y.object);
            assert forall|i: int| 0 <= i < y.args@.len() implies types_mapped(*y.args@[i], *x.args@[i], same_rel()) by {
                lemma_same_expr_symmetric(*x.args@[i], *y.args@[i]);
            }
        },
        (Expr::AttributeAccess(x), Expr::AttributeAccess(y)) => {
            lemma_same_expr_symmetric(*x.object, *y.object);
        },
        _ => {},
    }
}

/// Structural equality of expression lists is symmetric.
pub proof fn lemma_same_exprs_symmetric(a: Seq<Box<Expr>>, b: Seq<Box<Expr>>)
    requires
        same_exprs(a, b),
    ensures
        same_exprs(b, a),
{
    assert forall|i: int| 0 <= i < b.len() implies types_mapped(*b[i], *a[i], same_rel()) by {
        lemma_same_expr_symmetric(*a[i], *b[i]);
    }
}


/// `b` is `a` with possibly other types recorded: the same tree, the same names, values and
/// spans; only type slots, `let` annotations and what `base` records may differ.
pub open spec fn same_shape(a: Expr, b: Expr) -> bool
    decreases a,
{
    match (a, b) {
        (Expr::Number(x), Expr::Number(y)) => x.value == y.value && x.span == y.span,
        (Expr::BinaryOp(x), Expr::BinaryOp(y)) => x.op == y.op && x.span == y.span && same_shape(*x.left, *y.left)
            && same_shape(*x.right, *y.right),
        (Expr::String(x), Expr::String(y)) => x.value == y.value && x.span == y.span,
        (Expr::Call(x), Expr::Call(y)) => x.func == y.func && x.span == y.span && x.args@.len() == y.args@.len()
            && forall|i: int| 0 <= i < x.args@.len() ==> same_shape(*x.args@[i], *y.args@[i]),
        (Expr::Const(x), Expr::Const(y)) => x.name == y.name && x.span == y.span,
        (Expr::Bool(x), Expr::Bool(y)) => x.value == y.value && x.span == y.span,
        (Expr::UnaryOp(x), Expr::UnaryOp(y)) => x.op == y.op && x.span == y.span && same_shape(*x.expr, *y.expr),
        (Expr::Variable(x), Expr::Variable(y)) => x.name == y.name && x.span == y.span,
        (Expr::Let(x), Expr::Let(y)) => x.span == y.span && x.bindings@.len() == y.bindings@.len() && (forall|i: int|
            0 <= i < x.bindings@.len() ==> x.bindings@[i].0 == y.bindings@[i].0 && same_shape(
                *x.bindings@[i].2,
                *y.bindings@[i].2,
            )) && same_shape(*x.body, *y.body),
        (Expr::DestructiveAssign(x), Expr::DestructiveAssign(y)) => x.span == y.span && same_shape(*x.lhs, *y.lhs)
            && same_shape(*x.value, *y.value),
        (Expr::Block(x), Expr::Block(y)) => x.span == y.span && x.expressions@.len() == y.expressions@.len()
            && forall|i: int| 0 <= i < x.expressions@.len() ==> same_shape(*x.expressions@[i], *y.expressions@[i]),
        (Expr::If(x), Expr::If(y)) => x.span == y.span && same_shape(*x.condition, *y.condition) && same_shape(
            *x.then_branch,
            *y.then_branch,
        ) && same_shape(*x.else_branch, *y.else_branch),
        (Expr::While(x), Expr::While(y)) => x.span == y.span && same_shape(*x.condition, *y.condition)
            && same_shape(*x.body, *y.body),
        (Expr::New(x), Expr::New(y)) => x.class_name == y.class_name && x.span == y.span && x.args@.len()
            == y.args@.len() && forall|i: int| 0 <= i < x.args@.len() ==> same_shape(*x.args@[i], *y.args@[i]),
        (Expr::MethodCall(x), Expr::MethodCall(y)) => x.method == y.method && x.span == y.span && same_shape(
            *x.object,
            *y.object,
        ) && x.args@.len() == y.args@.len() && forall|i: int|
            0 <= i < x.args@.len() ==> same_shape(*x.args@[i], *y.args@[i]),
        (Expr::SelfExpr(x), Expr::SelfExpr(y)) => x.span == y.span,
        (Expr::Base(x), Expr::Base(y)) => x.span == y.span,
        (Expr::AttributeAccess(x), Expr::AttributeAccess(y)) => x.attribute == y.attribute && x.span == y.span
            && same_shape(*x.object, *y.object),
        _ => false,
    }
}


/// Every expression has its own shape.
pub proof fn lemma_same_shape_refl(a: Expr)
    ensures
        same_shape(a, a),
    decreases a,
{
    match a {
        Expr::BinaryOp(x) => {
            lemma_same_shape_refl(*x.left);
            lemma_same_shape_refl(*x.right);
        },
        Expr::Call(x) => {
            assert forall|i: int| 0 <= i < x.args@.len() implies same_shape(*x.args@[i], *x.args@[i]) by {
                lemma_same_shape_refl(*x.args@[i]);
            }
        },
        Expr::UnaryOp(x) => {
            lemma_same_shape_refl(*x.expr);
        },
        Expr::Let(x) => {
            assert forall|i: int| 0 <= i < x.bindings@.len() implies same_shape(*x.bindings@[i].2, *x.bindings@[i].2) by {
                lemma_same_shape_refl(*x.bindings@[i].2);
            }
            lemma_same_shape_refl(*x.body);
        },
        Expr::DestructiveAssign(x) => {
            lemma_same_shape_refl(*x.lhs);
            lemma_same_shape_refl(*x.value);
        },
        Expr::Block(x) => {
            assert forall|i: int| 0 <= i < x.expressions@.len() implies same_shape(*x.expressions@[i], *x.expressions@[i]) by {
                lemma_same_shape_refl(*x.expressions@[i]);
            }
        },
        Expr::If(x) => {
            lemma_same_shape_refl(*x.condition);
            lemma_same_shape_refl(*x.then_branch);
            lemma_same_shape_refl(*x.else_branch);
        },
        Expr::While(x) => {
            lemma_same_shape_refl(*x.condition);
            lemma_same_shape_refl(*x.body);
        },
        Expr::New(x) => {
            assert forall|i: int| 0 <= i < x.args@.len() implies same_shape(*x.args@[i], *x.args@[i]) by {
                lemma_same_shape_refl(*x.args@[i]);
            }
        },
        Expr::MethodCall(x) => {
            lemma_same_shape_refl(*x.object);
            assert forall|i: int| 0 <= i < x.args@.len() implies same_shape(*x.args@[i], *x.args@[i]) by {
                lemma_same_shape_refl(*x.args@[i]);
            }
        },
        Expr::AttributeAccess(x) => {
            lemma_same_shape_refl(*x.object);
        },
        _ => {},
    }
}

} // verus!
