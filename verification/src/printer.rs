//! An indented, human-readable dump of a program tree, with the types recorded on it.
use vstd::prelude::*;
use crate::types::{HulkType, type_debug, debug_string};
use crate::ast::{
    Expr, BinOp, UnaryOp, NumberExpr, BinaryOpExpr, StringExpr, CallExpr, ConstExpr, BoolExpr,
    UnaryOpExpr, VariableExpr, LetExpr, DestructiveAssignExpr, BlockExpr, IfExpr, WhileExpr, NewExpr,
    MethodCallExpr, SelfExpr, BaseExpr, AttributeAccessExpr,
};
use crate::text::{push_char, str_debug, debug_str};

verus! {

/// `n` levels of indentation, two spaces each.
pub open spec fn spaces(n: nat) -> Seq<char>
    decreases n,
{
    if n == 0 {
        Seq::empty()
    } else {
        spaces((n - 1) as nat) + "  "@
    }
}

/// One output line at indentation `ind`.
pub open spec fn line_text(ind: nat, text: Seq<char>) -> Seq<char> {
    spaces(ind) + text + seq!['\n']
}

/// The parts joined with `sep` between each two.
pub open spec fn joined(parts: Seq<Seq<char>>, sep: Seq<char>) -> Seq<char>
    decreases parts.len(),
{
    if parts.len() == 0 {
        Seq::empty()
    } else if parts.len() == 1 {
        parts[0]
    } else {
        joined(parts.drop_last(), sep) + sep + parts.last()
    }
}


/// ` : T` for a recorded type `T`, nothing when there is none.
pub open spec fn ty_text(t: Option<HulkType>) -> Seq<char> {
    match t {
        Some(x) => " : "@ + type_debug(x@),
        None => Seq::empty(),
    }
}

/// The type's text, or `?` when there is none.
pub open spec fn ty_or_unknown(t: Option<HulkType>) -> Seq<char> {
    match t {
        Some(x) => type_debug(x@),
        None => "?"@,
    }
}

/// `prefix`, the type's text and `suffix`; nothing when there is no type.
pub open spec fn ann(prefix: Seq<char>, t: Option<HulkType>, suffix: Seq<char>) -> Seq<char> {
    match t {
        Some(x) => prefix + type_debug(x@) + suffix,
        None => Seq::empty(),
    }
}

pub open spec fn bool_text(b: bool) -> Seq<char> {
    if b {
        "true"@
    } else {
        "false"@
    }
}

/// The name of a binary operator.
pub open spec fn binop_text(op: BinOp) -> Seq<char> {
    match op {
        BinOp::Add => "Add"@,
        BinOp::Sub => "Sub"@,
        BinOp::Mul => "Mul"@,
        BinOp::Div => "Div"@,
        BinOp::Pow => "Pow"@,
        BinOp::Concat => "Concat"@,
        BinOp::Eq => "Eq"@,
        BinOp::Neq => "Neq"@,
        BinOp::Lt => "Lt"@,
        BinOp::Gt => "Gt"@,
        BinOp::Leq => "Leq"@,
        BinOp::Geq => "Geq"@,
        BinOp::And => "And"@,
        BinOp::Or => "Or"@,
        BinOp::Mod => "Mod"@,
        BinOp::ConcatSpace => "ConcatSpace"@,
    }
}

pub open spec fn unop_text(op: UnaryOp) -> Seq<char> {
    match op {
        UnaryOp::Not => "!"@,
        UnaryOp::Neg => "-"@,
    }
}

/// ` (base_type: P, method: m)` when both are known.
pub open spec fn base_info(base_type: Option<String>, method_name: Option<String>) -> Seq<char> {
    match (base_type, method_name) {
        (Some(bt), Some(mn)) => " (base_type: "@ + bt@ + ", method: "@ + mn@ + ")"@,
        _ => Seq::empty(),
    }
}

/// The lines of a list of arguments: their texts separated by `,` lines, and an empty
/// line after them when there are any.
pub open spec fn arg_lines(parts: Seq<Seq<char>>, ind: nat) -> Seq<char> {
    joined(parts, line_text(ind, ","@)) + if parts.len() > 0 {
        line_text(ind, Seq::empty())
    } else {
        Seq::empty()
    }
}

/// The dump of an expression at indentation `ind`.
pub open spec fn expr_text(e: Expr, ind: nat) -> Seq<char>
    decreases e,
{
    match e {
        Expr::Number(x) => line_text(ind, "Number("@ + x.value@ + ")"@ + ty_text(x.ty)),
        Expr::BinaryOp(x) => line_text(ind, "BinaryOp { op: "@ + binop_text(x.op) + ty_text(x.ty)) + line_text(
            ind + 1,
            "left:"@,
        ) + expr_text(*x.left, ind + 2) + line_text(ind + 1, "right:"@) + expr_text(*x.right, ind + 2)
            + line_text(ind, "}"@),
        Expr::String(x) => line_text(ind, "String("@ + str_debug(x.value@) + ")"@ + ty_text(x.ty)),
        Expr::Call(x) => line_text(ind, "Call("@ + x.func@ + ", args: ["@ + ty_text(x.ty)) + arg_lines(
            texts(x.args@, ind + 1),
            ind + 1,
        ) + line_text(ind, "])"@),
        Expr::Const(x) => line_text(ind, "Const("@ + x.name@ + ")"@ + ty_text(x.ty)),
        Expr::Bool(x) => line_text(ind, "Bool("@ + bool_text(x.value) + ")"@ + ty_text(x.ty)),
        Expr::UnaryOp(x) => line_text(ind, "UnaryOp("@ + unop_text(x.op) + ")"@ + ty_text(x.ty)) + expr_text(
            *x.expr,
            ind + 1,
        ),
        Expr::Variable(x) => line_text(ind, "Variable("@ + x.name@ + ")"@ + ty_text(x.ty)),
        Expr::Let(x) => line_text(ind, "Let {"@) + line_text(ind + 1, "bindings: ["@) + joined(
            binding_texts(x.bindings@, ind + 2),
            Seq::empty(),
        ) + line_text(ind + 1, "]"@) + line_text(ind + 1, "body:"@) + expr_text(*x.body, ind + 2)
            + line_text(ind, "}"@),
        Expr::DestructiveAssign(x) => line_text(ind, "Assign {"@) + line_text(ind + 1, "lhs:"@) + expr_text(
            *x.lhs,
            ind + 2,
        ) + line_text(ind + 1, "value:"@) + expr_text(*x.value, ind + 2) + line_text(ind, "}"@),
        Expr::Block(x) => line_text(ind, "Block {"@ + ty_text(x.ty)) + joined(
            texts(x.expressions@, ind + 1),
            Seq::empty(),
        ) + line_text(ind, "}"@),
        Expr::If(x) => line_text(ind, "If {"@ + ty_text(x.ty)) + line_text(ind + 1, "condition:"@) + expr_text(
            *x.condition,
            ind + 2,
        ) + line_text(ind + 1, "then:"@) + expr_text(*x.then_branch, ind + 2) + line_text(ind + 1, "else:"@)
            + expr_text(*x.else_branch, ind + 2) + line_text(ind, "}"@),
        Expr::While(x) => line_text(ind, "While {"@ + ty_text(x.ty)) + line_text(ind + 1, "condition:"@)
            + expr_text(*x.condition, ind + 2) + line_text(ind + 1, "body:"@) + expr_text(*x.body, ind + 2)
            + line_text(ind, "}"@),
        Expr::New(x) => line_text(ind, "New { type: '"@ + x.class_name@ + "', args: ["@) + arg_lines(
            texts(x.args@, ind + 1),
            ind + 1,
        ) + line_text(ind, "] }"@),
        Expr::MethodCall(x) => line_text(ind, "MethodCall {"@) + line_text(ind + 1, "object:"@) + expr_text(
            *x.object,
            ind + 2,
        ) + line_text(ind + 1, "method: '"@ + x.method@ + "', args: ["@) + arg_lines(
            texts(x.args@, ind + 2),
            ind + 2,
        ) + line_text(ind + 1, "]"@) + line_text(ind, "}"@),
        Expr::SelfExpr(_) => line_text(ind, "Self"@),
        Expr::Base(x) => line_text(ind, "Base"@ + base_info(x.base_type, x.method_name) + ty_text(x.ty)),
        Expr::AttributeAccess(x) => line_text(ind, "AttributeAccess {"@) + line_text(ind + 1, "object:"@)
            + expr_text(*x.object, ind + 2) + line_text(ind + 1, "attribute: '"@ + x.attribute@ + "'"@)
            + line_text(ind, "}"@),
    }
}

proof fn lemma_ends_with_newline(a: Seq<char>, b: Seq<char>)
    requires
        b.len() > 0,
        b.last() == '\n',
    ensures
        (a + b).len() > 0,
        (a + b).last() == '\n',
{
    assert((a + b)[(a + b).len() - 1] == b[b.len() - 1]);
}

/// The dump of an expression is whole lines: it is not empty and ends with a newline.
pub proof fn lemma_expr_text_whole_lines(e: Expr, ind: nat)
    ensures
        expr_text(e, ind).len() > 0,
        expr_text(e, ind).last() == '\n',
    decreases e,
{
    match e {
        Expr::UnaryOp(x) => {
            lemma_expr_text_whole_lines(*x.expr, ind + 1);
            lemma_ends_with_newline(
                line_text(ind, "UnaryOp("@ + unop_text(x.op) + ")"@ + ty_text(x.ty)),
                expr_text(*x.expr, ind + 1),
            );
        },
        _ => {
            let t = expr_text(e, ind);
            let closing: Seq<char> = match e {
                Expr::BinaryOp(_) | Expr::Let(_) | Expr::DestructiveAssign(_) | Expr::Block(_) | Expr::If(_)
                | Expr::While(_) | Expr::MethodCall(_) | Expr::AttributeAccess(_) => line_text(ind, "}"@),
                Expr::Call(_) => line_text(ind, "])"@),
                Expr::New(_) => line_text(ind, "] }"@),
                _ => t,
            };
            let line_end = closing;
            assert(line_end.len() > 0 && line_end.last() == '\n');
            assert(t.len() >= line_end.len());
            assert(t.last() == line_end.last());
        },
    }
}

/// The dumps of a list of expressions, each at indentation `ind`.
pub open spec fn texts(args: Seq<Box<Expr>>, ind: nat) -> Seq<Seq<char>>
    decreases args,
{
    Seq::new(
        args.len(),
        |i: int|
            if 0 <= i < args.len() {
                expr_text(*args[i], ind)
            } else {
                Seq::empty()
            },
    )
}

/// The dumps of the bindings of a `let`: a line with the name and annotation, then the
/// initializer one level deeper.
pub open spec fn binding_texts(b: Seq<(String, Option<HulkType>, Box<Expr>)>, ind: nat) -> Seq<Seq<char>>
    decreases b,
{
    Seq::new(
        b.len(),
        |i: int|
            if 0 <= i < b.len() {
                line_text(ind, b[i].0@ + ann(": "@, b[i].1, Seq::empty()) + " ="@) + expr_text(*b[i].2, ind + 1)
            } else {
                Seq::empty()
            },
    )
}

/// Every indentation that dumping `e` at `ind` reaches fits in a `usize`.
pub open spec fn fits(e: Expr, ind: nat) -> bool
    decreases e,
{
    match e {
        Expr::BinaryOp(x) => ind + 2 <= usize::MAX && fits(*x.left, ind + 2) && fits(*x.right, ind + 2),
        Expr::Call(x) => ind + 1 <= usize::MAX && forall|i: int| 0 <= i < x.args@.len() ==> fits(*x.args@[i], ind + 1),
        Expr::UnaryOp(x) => ind + 1 <= usize::MAX && fits(*x.expr, ind + 1),
        Expr::Let(x) => ind + 3 <= usize::MAX && (forall|i: int|
            0 <= i < x.bindings@.len() ==> fits(*x.bindings@[i].2, ind + 3)) && fits(*x.body, ind + 2),
        Expr::DestructiveAssign(x) => ind + 2 <= usize::MAX && fits(*x.lhs, ind + 2) && fits(*x.value, ind + 2),
        Expr::Block(x) => ind + 1 <= usize::MAX && forall|i: int|
            0 <= i < x.expressions@.len() ==> fits(*x.expressions@[i], ind + 1),
        Expr::If(x) => ind + 2 <= usize::MAX && fits(*x.condition, ind + 2) && fits(*x.then_branch, ind + 2)
            && fits(*x.else_branch, ind + 2),
        Expr::While(x) => ind + 2 <= usize::MAX && fits(*x.condition, ind + 2) && fits(*x.body, ind + 2),
        Expr::New(x) => ind + 1 <= usize::MAX && forall|i: int| 0 <= i < x.args@.len() ==> fits(*x.args@[i], ind + 1),
        Expr::MethodCall(x) => ind + 2 <= usize::MAX && fits(*x.object, ind + 2) && forall|i: int|
            0 <= i < x.args@.len() ==> fits(*x.args@[i], ind + 2),
        Expr::AttributeAccess(x) => ind + 2 <= usize::MAX && fits(*x.object, ind + 2),
        _ => ind <= usize::MAX,
    }
}

/// Dumping at an indentation that fits needs that indentation to fit.
pub(crate) proof fn lemma_fits_bound(e: Expr, ind: nat)
    requires
        fits(e, ind),
    ensures
        ind <= usize::MAX,
{
}

pub(crate) proof fn lemma_joined_step(parts: Seq<Seq<char>>, sep: Seq<char>, i: int)
    requires
        0 <= i < parts.len(),
    ensures
        joined(parts.subrange(0, i + 1), sep) == if i == 0 {
            parts[0]
        } else {
            joined(parts.subrange(0, i), sep) + sep + parts[i]
        },
{
    let s = parts.subrange(0, i + 1);
    assert(s.drop_last() =~= parts.subrange(0, i));
    assert(s.last() == parts[i]);
}

/// `prefix`, the type's text and `suffix`; empty when there is no type.
pub(crate) fn ann_string(prefix: &str, t: &Option<HulkType>, suffix: &str) -> (res: String)
    ensures
        res@ == ann(prefix@, *t, suffix@),
{
    match t {
        Some(x) => {
            let mut s = String::from_str(prefix);
            let d = debug_string(x);
            s.append(d.as_str());
            s.append(suffix);
            s
        },
        None => String::new(),
    }
}

/// Writes the dump of a program tree, line by line, into a string.
pub struct PrettyPrinter {
    pub(crate) indent: usize,
    pub(crate) output: String,
}

impl PrettyPrinter {
    /// The current indentation level.
    pub closed spec fn level(&self) -> nat {
        self.indent as nat
    }

    /// The text written so far.
    pub closed spec fn text(&self) -> Seq<char> {
        self.output@
    }

    /// A printer with nothing written, at indentation 0.
    pub fn new() -> (res: Self)
        ensures
            res.level() == 0,
            res.text() == Seq::<char>::empty(),
    {
        PrettyPrinter { indent: 0, output: String::new() }
    }

    pub(crate) fn write_line(&mut self, line: &str)
        ensures
            final(self).indent == old(self).indent,
            final(self).level() == old(self).level(),
            final(self).text() == old(self).text() + line_text(old(self).level(), line@),
    {
        let ghost o0 = self.output@;
        let mut k: usize = 0;
        while k < self.indent
            invariant
                k <= self.indent,
                self.indent == old(self).indent,
                o0 == old(self).output@,
                self.output@ == o0 + spaces(k as nat),
            decreases self.indent - k,
        {
            self.output.append("  ");
            k = k + 1;
            assert(self.output@ =~= o0 + spaces(k as nat));
        }
        self.output.append(line);
        push_char(&mut self.output, '\n');
        assert(self.output@ =~= o0 + line_text(self.indent as nat, line@));
    }

    /// One level deeper.
    pub(crate) fn enter(&mut self)
        requires
            old(self).level() < usize::MAX,
        ensures
            final(self).level() == old(self).level() + 1,
            final(self).text() == old(self).text(),
    {
        self.indent = self.indent + 1;
    }

    /// One level back.
    pub(crate) fn leave(&mut self)
        requires
            old(self).level() > 0,
        ensures
            final(self).level() == old(self).level() - 1,
            final(self).text() == old(self).text(),
    {
        self.indent = self.indent - 1;
    }

    fn type_str(ty: &Option<HulkType>) -> (res: String)
        ensures
            res@ == ty_text(*ty),
    {
        match ty {
            Some(t) => {
                let mut s = String::from_str(" : ");
                let d = debug_string(t);
                s.append(d.as_str());
                s
            },
            None => String::new(),
        }
    }

    #[allow(dead_code)]
    fn type_opt(ty: &Option<HulkType>) -> (res: String)
        ensures
            res@ == ty_or_unknown(*ty),
    {
        match ty {
            Some(t) => debug_string(t),
            None => String::from_str("?"),
        }
    }

    /// The text written.
    pub fn into_string(self) -> (res: String)
        ensures
            res@ == self.text(),
    {
        self.output
    }

    /// Writes the line of a number literal.
    pub fn visit_number(&mut self, x: &NumberExpr)
        ensures
            final(self).level() == old(self).level(),
            final(self).text() == old(self).text() + expr_text(Expr::Number(*x), old(self).level() as nat),
    {
        let ghost o0 = self.output@;
        let mut s = String::from_str("Number(");
        s.append(x.value.as_str());
        s.append(")");
        let t = Self::type_str(&x.ty);
        s.append(t.as_str());
        assert(s@ =~= "Number("@ + x.value@ + ")"@ + ty_text(x.ty));
        self.write_line(s.as_str());
    }

    /// Writes the line of a string literal.
    pub fn visit_string(&mut self, x: &StringExpr)
        ensures
            final(self).level() == old(self).level(),
            final(self).text() == old(self).text() + expr_text(Expr::String(*x), old(self).level() as nat),
    {
        let ghost o0 = self.output@;
        let mut s = String::from_str("String(");
        let v = debug_str(x.value.as_str());
        s.append(v.as_str());
        s.append(")");
        let t = Self::type_str(&x.ty);
        s.append(t.as_str());
        assert(s@ =~= "String("@ + str_debug(x.value@) + ")"@ + ty_text(x.ty));
        self.write_line(s.as_str());
    }

    /// Writes the line of a named constant.
    pub fn visit_const(&mut self, x: &ConstExpr)
        ensures
            final(self).level() == old(self).level(),
            final(self).text() == old(self).text() + expr_text(Expr::Const(*x), old(self).level() as nat),
    {
        let ghost o0 = self.output@;
        let mut s = String::from_str("Const(");
        s.append(x.name.as_str());
        s.append(")");
        let t = Self::type_str(&x.ty);
        s.append(t.as_str());
        assert(s@ =~= "Const("@ + x.name@ + ")"@ + ty_text(x.ty));
        self.write_line(s.as_str());
    }

    /// Writes the line of a boolean literal.
    pub fn visit_bool(&mut self, x: &BoolExpr)
        ensures
            final(self).level() == old(self).level(),
            final(self).text() == old(self).text() + expr_text(Expr::Bool(*x), old(self).level() as nat),
    {
        let ghost o0 = self.output@;
        let mut s = String::from_str("Bool(");
        if x.value {
            s.append("true");
        } else {
            s.append("false");
        }
        s.append(")");
        let t = Self::type_str(&x.ty);
        s.append(t.as_str());
        assert(s@ =~= "Bool("@ + bool_text(x.value) + ")"@ + ty_text(x.ty));
        self.write_line(s.as_str());
    }

    /// Writes the line of a variable.
    pub fn visit_variable(&mut self, x: &VariableExpr)
        ensures
            final(self).level() == old(self).level(),
            final(self).text() == old(self).text() + expr_text(Expr::Variable(*x), old(self).level() as nat),
    {
        let ghost o0 = self.output@;
        let mut s = String::from_str("Variable(");
        s.append(x.name.as_str());
        s.append(")");
        let t = Self::type_str(&x.ty);
        s.append(t.as_str());
        assert(s@ =~= "Variable("@ + x.name@ + ")"@ + ty_text(x.ty));
        self.write_line(s.as_str());
    }

    /// Writes the line of `self`.
    pub fn visit_self(&mut self, x: &SelfExpr)
        ensures
            final(self).level() == old(self).level(),
            final(self).text() == old(self).text() + expr_text(Expr::SelfExpr(*x), old(self).level() as nat),
    {
        let ghost o0 = self.output@;
        let s = String::from_str("Self");
        self.write_line(s.as_str());
    }

    /// Writes the line of `base`.
    pub fn visit_base(&mut self, x: &BaseExpr)
        ensures
            final(self).level() == old(self).level(),
            final(self).text() == old(self).text() + expr_text(Expr::Base(*x), old(self).level() as nat),
    {
        let ghost o0 = self.output@;
        let mut s = String::from_str("Base");
        match (&x.base_type, &x.method_name) {
            (Some(bt), Some(mn)) => {
                s.append(" (base_type: ");
                s.append(bt.as_str());
                s.append(", method: ");
                s.append(mn.as_str());
                s.append(")");
            },
            _ => {},
        }
        let t = Self::type_str(&x.ty);
        s.append(t.as_str());
        assert(s@ =~= "Base"@ + base_info(x.base_type, x.method_name) + ty_text(x.ty));
        self.write_line(s.as_str());
    }

    fn binop_name(op: BinOp) -> (res: &'static str)
        ensures
            res@ == binop_text(op),
    {
        match op {
            BinOp::Add => "Add",
            BinOp::Sub => "Sub",
            BinOp::Mul => "Mul",
            BinOp::Div => "Div",
            BinOp::Pow => "Pow",
            BinOp::Concat => "Concat",
            BinOp::Eq => "Eq",
            BinOp::Neq => "Neq",
            BinOp::Lt => "Lt",
            BinOp::Gt => "Gt",
            BinOp::Leq => "Leq",
            BinOp::Geq => "Geq",
            BinOp::And => "And",
            BinOp::Or => "Or",
            BinOp::Mod => "Mod",
            BinOp::ConcatSpace => "ConcatSpace",
        }
    }

    /// Writes the dumps of a list of expressions, one after another.
    fn visit_all(&mut self, v: &Vec<Box<Expr>>)
        requires
            forall|i: int| 0 <= i < v@.len() ==> fits(*v@[i], old(self).level()),
        ensures
            final(self).indent == old(self).indent,
            final(self).output@ == old(self).output@ + joined(texts(v@, old(self).indent as nat), Seq::empty()),
        decreases v,
    {
        let ghost o0 = self.output@;
        let ghost ind = self.indent as nat;
        let ghost parts = texts(v@, ind);
        let mut i: usize = 0;
        while i < v.len()
            invariant
                i <= v@.len(),
                self.indent == ind,
                ind == old(self).indent,
                o0 == old(self).output@,
                parts == texts(v@, ind),
                forall|j: int| 0 <= j < v@.len() ==> fits(*v@[j], ind),
                self.output@ == o0 + joined(parts.subrange(0, i as int), Seq::empty()),
            decreases v@.len() - i,
        {
            self.visit_expr(&v[i]);
            proof {
                lemma_joined_step(parts, Seq::empty(), i as int);
                assert(parts[i as int] == expr_text(*v@[i as int], ind));
            }
            i = i + 1;
            assert(self.output@ =~= o0 + joined(parts.subrange(0, i as int), Seq::empty()));
        }
        assert(parts.subrange(0, i as int) =~= parts);
    }

    /// Writes the dumps of a list of arguments, separated by `,` lines and followed by
    /// an empty line when there are any.
    fn visit_args(&mut self, v: &Vec<Box<Expr>>)
        requires
            forall|i: int| 0 <= i < v@.len() ==> fits(*v@[i], old(self).level()),
        ensures
            final(self).indent == old(self).indent,
            final(self).output@ == old(self).output@ + arg_lines(texts(v@, old(self).indent as nat), old(self).indent as nat),
        decreases v,
    {
        let ghost o0 = self.output@;
        let ghost ind = self.indent as nat;
        let ghost parts = texts(v@, ind);
        let mut i: usize = 0;
        while i < v.len()
            invariant
                i <= v@.len(),
                self.indent == ind,
                ind == old(self).indent,
                o0 == old(self).output@,
                parts == texts(v@, ind),
                forall|j: int| 0 <= j < v@.len() ==> fits(*v@[j], ind),
                self.output@ == o0 + joined(parts.subrange(0, i as int), line_text(ind, ","@)),
            decreases v@.len() - i,
        {
            if i > 0 {
                self.write_line(",");
            }
            self.visit_expr(&v[i]);
            proof {
                lemma_joined_step(parts, line_text(ind, ","@), i as int);
                assert(parts[i as int] == expr_text(*v@[i as int], ind));
            }
            i = i + 1;
            assert(self.output@ =~= o0 + joined(parts.subrange(0, i as int), line_text(ind, ","@)));
        }
        assert(parts.subrange(0, i as int) =~= parts);
        if v.len() > 0 {
            self.write_line("");
        }
        proof {
            reveal_strlit("");
        }
        assert(self.output@ =~= o0 + arg_lines(parts, ind));
    }

    /// Writes the dumps of the bindings of a `let`.
    fn visit_bindings(&mut self, b: &Vec<(String, Option<HulkType>, Box<Expr>)>)
        requires
            old(self).level() + 1 <= usize::MAX,
            forall|i: int| 0 <= i < b@.len() ==> fits(*b@[i].2, old(self).level() + 1),
        ensures
            final(self).indent == old(self).indent,
            final(self).output@ == old(self).output@ + joined(binding_texts(b@, old(self).level()), Seq::empty()),
        decreases b,
    {
        let ghost o1 = self.output@;
        let ghost ind = self.indent as nat;
        let ghost parts = binding_texts(b@, ind);
        let mut i: usize = 0;
        while i < b.len()
            invariant
                i <= b@.len(),
                self.indent == ind,
                ind + 1 <= usize::MAX,
                parts == binding_texts(b@, ind),
                forall|j: int| 0 <= j < b@.len() ==> fits(*b@[j].2, ind + 1),
                self.output@ == o1 + joined(parts.subrange(0, i as int), Seq::empty()),
            decreases b@.len() - i,
        {
            let mut s = b[i].0.clone();
            let a = ann_string(": ", &b[i].1, "");
            s.append(a.as_str());
            s.append(" =");
            proof {
                reveal_strlit("");
            }
            assert(s@ =~= b@[i as int].0@ + ann(": "@, b@[i as int].1, Seq::empty()) + " ="@);
            self.write_line(s.as_str());
            self.indent = self.indent + 1;
            self.visit_expr(&b[i].2);
            self.indent = self.indent - 1;
            proof {
                lemma_joined_step(parts, Seq::empty(), i as int);
            }
            i = i + 1;
            assert(self.output@ =~= o1 + joined(parts.subrange(0, i as int), Seq::empty()));
        }
        assert(parts.subrange(0, i as int) =~= parts);
    }

    /// Writes the dump of any expression.
    /// Printing two expressions in a row, as `visit_expr` does (the second starting where
    /// the first left the printer), writes the text of the first followed by the text of the
    /// second, both at the starting indentation.
    pub proof fn lemma_print_in_sequence(p0: PrettyPrinter, p1: PrettyPrinter, p2: PrettyPrinter, e1: Expr, e2: Expr)
        requires
            p1.level() == p0.level(),
            p1.text() == p0.text() + expr_text(e1, p0.level()),
            p2.level() == p1.level(),
            p2.text() == p1.text() + expr_text(e2, p1.level()),
        ensures
            p2.level() == p0.level(),
            p2.text() == p0.text() + (expr_text(e1, p0.level()) + expr_text(e2, p0.level())),
    {
        assert(p2.text() =~= p0.text() + (expr_text(e1, p0.level()) + expr_text(e2, p0.level())));
    }

    pub fn visit_expr(&mut self, e: &Expr)
        requires
            fits(*e, old(self).level()),
        ensures
            final(self).level() == old(self).level(),
            final(self).text() == old(self).text() + expr_text(*e, old(self).level()),
        decreases e,
    {
        match e {
            Expr::Number(x) => self.visit_number(x),
            Expr::BinaryOp(x) => self.visit_binary_op(x),
            Expr::String(x) => self.visit_string(x),
            Expr::Call(x) => self.visit_call(x),
            Expr::Const(x) => self.visit_const(x),
            Expr::Bool(x) => self.visit_bool(x),
            Expr::UnaryOp(x) => self.visit_unary_op(x),
            Expr::Variable(x) => self.visit_variable(x),
            Expr::Let(x) => self.visit_let(x),
            Expr::DestructiveAssign(x) => self.visit_assign(x),
            Expr::Block(x) => self.visit_block(x),
            Expr::If(x) => self.visit_if(x),
            Expr::While(x) => self.visit_while(x),
            Expr::New(x) => self.visit_new(x),
            Expr::MethodCall(x) => self.visit_method_call(x),
            Expr::SelfExpr(x) => self.visit_self(x),
            Expr::Base(x) => self.visit_base(x),
            Expr::AttributeAccess(x) => self.visit_attribute_access(x),
        }
    }

    /// Writes the dump of a binary operation.
    pub fn visit_binary_op(&mut self, x: &BinaryOpExpr)
        requires
            fits(Expr::BinaryOp(*x), old(self).level()),
        ensures
            final(self).level() == old(self).level(),
            final(self).text() == old(self).text() + expr_text(Expr::BinaryOp(*x), old(self).level()),
        decreases x,
    {
        let ghost o0 = self.output@;
        let ghost ind = self.indent as nat;
        let mut s = String::from_str("BinaryOp { op: ");
        s.append(Self::binop_name(x.op));
        let t = Self::type_str(&x.ty);
        s.append(t.as_str());
        assert(s@ =~= "BinaryOp { op: "@ + binop_text(x.op) + ty_text(x.ty));
        self.write_line(s.as_str());
        self.indent = self.indent + 1;
        self.write_line("left:");
        self.indent = self.indent + 1;
        self.visit_expr(&x.left);
        self.indent = self.indent - 1;
        self.write_line("right:");
        self.indent = self.indent + 1;
        self.visit_expr(&x.right);
        self.indent = self.indent - 1;
        self.indent = self.indent - 1;
        self.write_line("}");
        assert(self.output@ =~= o0 + expr_text(Expr::BinaryOp(*x), ind));
    }

    /// Writes the dump of a call.
    pub fn visit_call(&mut self, x: &CallExpr)
        requires
            fits(Expr::Call(*x), old(self).level()),
        ensures
            final(self).level() == old(self).level(),
            final(self).text() == old(self).text() + expr_text(Expr::Call(*x), old(self).level()),
        decreases x,
    {
        let ghost o0 = self.output@;
        let ghost ind = self.indent as nat;
        let mut s = String::from_str("Call(");
        s.append(x.func.as_str());
        s.append(", args: [");
        let t = Self::type_str(&x.ty);
        s.append(t.as_str());
        assert(s@ =~= "Call("@ + x.func@ + ", args: ["@ + ty_text(x.ty));
        self.write_line(s.as_str());
        self.indent = self.indent + 1;
        self.visit_args(&x.args);
        self.indent = self.indent - 1;
        self.write_line("])");
        assert(self.output@ =~= o0 + expr_text(Expr::Call(*x), ind));
    }

    /// Writes the dump of a unary operation.
    pub fn visit_unary_op(&mut self, x: &UnaryOpExpr)
        requires
            fits(Expr::UnaryOp(*x), old(self).level()),
        ensures
            final(self).level() == old(self).level(),
            final(self).text() == old(self).text() + expr_text(Expr::UnaryOp(*x), old(self).level()),
        decreases x,
    {
        let ghost o0 = self.output@;
        let ghost ind = self.indent as nat;
        let mut s = String::from_str("UnaryOp(");
        match x.op {
            UnaryOp::Not => s.append("!"),
            UnaryOp::Neg => s.append("-"),
        }
        s.append(")");
        let t = Self::type_str(&x.ty);
        s.append(t.as_str());
        assert(s@ =~= "UnaryOp("@ + unop_text(x.op) + ")"@ + ty_text(x.ty));
        self.write_line(s.as_str());
        self.indent = self.indent + 1;
        self.visit_expr(&x.expr);
        self.indent = self.indent - 1;
        assert(self.output@ =~= o0 + expr_text(Expr::UnaryOp(*x), ind));
    }

    /// Writes the dump of a `let`.
    pub fn visit_let(&mut self, x: &LetExpr)
        requires
            fits(Expr::Let(*x), old(self).level()),
        ensures
            final(self).level() == old(self).level(),
            final(self).text() == old(self).text() + expr_text(Expr::Let(*x), old(self).level()),
        decreases x,
    {
        let ghost o0 = self.output@;
        let ghost ind = self.indent as nat;
        self.write_line("Let {");
        self.indent = self.indent + 1;
        self.write_line("bindings: [");
        self.indent = self.indent + 1;
        self.visit_bindings(&x.bindings);
        self.indent = self.indent - 1;
        self.write_line("]");
        self.write_line("body:");
        self.indent = self.indent + 1;
        self.visit_expr(&x.body);
        self.indent = self.indent - 1;
        self.indent = self.indent - 1;
        self.write_line("}");
        assert(self.output@ =~= o0 + expr_text(Expr::Let(*x), ind));
    }

    /// Writes the dump of an assignment.
    pub fn visit_assign(&mut self, x: &DestructiveAssignExpr)
        requires
            fits(Expr::DestructiveAssign(*x), old(self).level()),
        ensures
            final(self).level() == old(self).level(),
            final(self).text() == old(self).text() + expr_text(Expr::DestructiveAssign(*x), old(self).level()),
        decreases x,
    {
        let ghost o0 = self.output@;
        let ghost ind = self.indent as nat;
        self.write_line("Assign {");
        self.indent = self.indent + 1;
        self.write_line("lhs:");
        self.indent = self.indent + 1;
        self.visit_expr(&x.lhs);
        self.indent = self.indent - 1;
        self.write_line("value:");
        self.indent = self.indent + 1;
        self.visit_expr(&x.value);
        self.indent = self.indent - 1;
        self.indent = self.indent - 1;
        self.write_line("}");
        assert(self.output@ =~= o0 + expr_text(Expr::DestructiveAssign(*x), ind));
    }

    /// Writes the dump of a block.
    pub fn visit_block(&mut self, x: &BlockExpr)
        requires
            fits(Expr::Block(*x), old(self).level()),
        ensures
            final(self).level() == old(self).level(),
            final(self).text() == old(self).text() + expr_text(Expr::Block(*x), old(self).level()),
        decreases x,
    {
        let ghost o0 = self.output@;
        let ghost ind = self.indent as nat;
        let mut s = String::from_str("Block {");
        let t = Self::type_str(&x.ty);
        s.append(t.as_str());
        self.write_line(s.as_str());
        self.indent = self.indent + 1;
        self.visit_all(&x.expressions);
        self.indent = self.indent - 1;
        self.write_line("}");
        assert(self.output@ =~= o0 + expr_text(Expr::Block(*x), ind));
    }

    /// Writes the dump of a conditional.
    pub fn visit_if(&mut self, x: &IfExpr)
        requires
            fits(Expr::If(*x), old(self).level()),
        ensures
            final(self).level() == old(self).level(),
            final(self).text() == old(self).text() + expr_text(Expr::If(*x), old(self).level()),
        decreases x,
    {
        let ghost o0 = self.output@;
        let ghost ind = self.indent as nat;
        let mut s = String::from_str("If {");
        let t = Self::type_str(&x.ty);
        s.append(t.as_str());
        self.write_line(s.as_str());
        self.indent = self.indent + 1;
        self.write_line("condition:");
        self.indent = self.indent + 1;
        self.visit_expr(&x.condition);
        self.indent = self.indent - 1;
        self.write_line("then:");
        self.indent = self.indent + 1;
        self.visit_expr(&x.then_branch);
        self.indent = self.indent - 1;
        self.write_line("else:");
        self.indent = self.indent + 1;
        self.visit_expr(&x.else_branch);
        self.indent = self.indent - 1;
        self.indent = self.indent - 1;
        self.write_line("}");
        assert(self.output@ =~= o0 + expr_text(Expr::If(*x), ind));
    }

    /// Writes the dump of a loop.
    pub fn visit_while(&mut self, x: &WhileExpr)
        requires
            fits(Expr::While(*x), old(self).level()),
        ensures
            final(self).level() == old(self).level(),
            final(self).text() == old(self).text() + expr_text(Expr::While(*x), old(self).level()),
        decreases x,
    {
        let ghost o0 = self.output@;
        let ghost ind = self.indent as nat;
        let mut s = String::from_str("While {");
        let t = Self::type_str(&x.ty);
        s.append(t.as_str());
        self.write_line(s.as_str());
        self.indent = self.indent + 1;
        self.write_line("condition:");
        self.indent = self.indent + 1;
        self.visit_expr(&x.condition);
        self.indent = self.indent - 1;
        self.write_line("body:");
        self.indent = self.indent + 1;
        self.visit_expr(&x.body);
        self.indent = self.indent - 1;
        self.indent = self.indent - 1;
        self.write_line("}");
        assert(self.output@ =~= o0 + expr_text(Expr::While(*x), ind));
    }

    /// Writes the dump of an instantiation.
    pub fn visit_new(&mut self, x: &NewExpr)
        requires
            fits(Expr::New(*x), old(self).level()),
        ensures
            final(self).level() == old(self).level(),
            final(self).text() == old(self).text() + expr_text(Expr::New(*x), old(self).level()),
        decreases x,
    {
        let ghost o0 = self.output@;
        let ghost ind = self.indent as nat;
        let mut s = String::from_str("New { type: '");
        s.append(x.class_name.as_str());
        s.append("', args: [");
        self.write_line(s.as_str());
        self.indent = self.indent + 1;
        self.visit_args(&x.args);
        self.indent = self.indent - 1;
        self.write_line("] }");
        assert(self.output@ =~= o0 + expr_text(Expr::New(*x), ind));
    }

    /// Writes the dump of a method call.
    pub fn visit_method_call(&mut self, x: &MethodCallExpr)
        requires
            fits(Expr::MethodCall(*x), old(self).level()),
        ensures
            final(self).level() == old(self).level(),
            final(self).text() == old(self).text() + expr_text(Expr::MethodCall(*x), old(self).level()),
        decreases x,
    {
        let ghost o0 = self.output@;
        let ghost ind = self.indent as nat;
        self.write_line("MethodCall {");
        self.indent = self.indent + 1;
        self.write_line("object:");
        self.indent = self.indent + 1;
        self.visit_expr(&x.object);
        self.indent = self.indent - 1;
        let mut s = String::from_str("method: '");
        s.append(x.method.as_str());
        s.append("', args: [");
        self.write_line(s.as_str());
        self.indent = self.indent + 1;
        self.visit_args(&x.args);
        self.indent = self.indent - 1;
        self.write_line("]");
        self.indent = self.indent - 1;
        self.write_line("}");
        assert(self.output@ =~= o0 + expr_text(Expr::MethodCall(*x), ind));
    }

    /// Writes the dump of an attribute access.
    pub fn visit_attribute_access(&mut self, x: &AttributeAccessExpr)
        requires
            fits(Expr::AttributeAccess(*x), old(self).level()),
        ensures
            final(self).level() == old(self).level(),
            final(self).text() == old(self).text() + expr_text(Expr::AttributeAccess(*x), old(self).level()),
        decreases x,
    {
        let ghost o0 = self.output@;
        let ghost ind = self.indent as nat;
        self.write_line("AttributeAccess {");
        self.indent = self.indent + 1;
        self.write_line("object:");
        self.indent = self.indent + 1;
        self.visit_expr(&x.object);
        self.indent = self.indent - 1;
        let mut s = String::from_str("attribute: '");
        s.append(x.attribute.as_str());
        s.append("'");
        self.write_line(s.as_str());
        self.indent = self.indent - 1;
        self.write_line("}");
        assert(self.output@ =~= o0 + expr_text(Expr::AttributeAccess(*x), ind));
    }

}

} // verus!
