//! The dump of declarations and whole programs.
use vstd::prelude::*;
use crate::types::HulkType;
use crate::ast::{FunctionDef, Params, TypeDef, Attribute, Method, MethodParam, Parent, ProtocolDef, ProtocolMethod, Program};
use crate::printer::{
    PrettyPrinter, joined, line_text, ann, bool_text, expr_text, fits, lemma_joined_step, lemma_fits_bound,
    ann_string,
};

verus! {

/// A parameter: its name, its annotation and its inferred type.
pub open spec fn param_text(name: Seq<char>, annotation: Option<HulkType>, inferred: Option<HulkType>) -> Seq<char> {
    name + ann(": "@, annotation, Seq::empty()) + ann(" [infer: "@, inferred, "]"@)
}

/// The parameters of a function, separated by `, `.
pub open spec fn params_text(ps: Seq<Params>) -> Seq<char> {
    joined(Seq::new(ps.len(), |i: int| param_text(ps[i].name@, ps[i].ty_annotation, ps[i].ty)), ", "@)
}

/// The parameters of a method, separated by `, `.
pub open spec fn method_params_text(ps: Seq<MethodParam>) -> Seq<char> {
    joined(Seq::new(ps.len(), |i: int| param_text(ps[i].name@, ps[i].ty_annotation, ps[i].ty)), ", "@)
}

/// The dump of a function definition.
#[verifier::opaque]
pub open spec fn function_text(f: FunctionDef, ind: nat) -> Seq<char> {
    line_text(
        ind,
        "FunctionDef { name: '"@ + f.name@ + "', generic: "@ + bool_text(f.is_generic) + ", params: ["@
            + params_text(f.params@) + "]"@ + ann(" -> "@, f.ty_annotation, Seq::empty()) + ann(
            " [infer: "@,
            f.ty,
            "]"@,
        ),
    ) + line_text(ind + 1, "body:"@) + expr_text(*f.body, ind + 2) + line_text(ind, "}"@)
}

/// The dump of an attribute.
#[verifier::opaque]
pub open spec fn attribute_text(a: Attribute, ind: nat) -> Seq<char> {
    line_text(
        ind,
        "Attribute { name: '"@ + a.name@ + ann(": "@, a.ty_annotation, Seq::empty()) + ann(" [infer: "@, a.ty, "]"@)
            + "', init:"@,
    ) + expr_text(*a.init_expr, ind + 1) + line_text(ind, "}"@)
}

/// ` (in type 'T')` for a method of a known type.
pub open spec fn owner_info(owner: Option<String>) -> Seq<char> {
    match owner {
        Some(t) => " (in type '"@ + t@ + "')"@,
        None => Seq::empty(),
    }
}

/// The dump of a method.
#[verifier::opaque]
pub open spec fn method_text(m: Method, ind: nat) -> Seq<char> {
    line_text(
        ind,
        "Method { name: '"@ + m.name@ + "'"@ + owner_info(m.owner) + ", params: ["@ + method_params_text(m.params@)
            + "]"@ + ann(" -> "@, m.ty_annotation, Seq::empty()) + ann(" [infer: "@, m.ty, "]"@),
    ) + line_text(ind + 1, "body:"@) + expr_text(*m.body, ind + 2) + line_text(ind, "}"@)
}

/// ` inherits P(...)` for a type with a parent.
pub open spec fn parent_info(parent: Option<Parent>) -> Seq<char> {
    match parent {
        Some(q) => " inherits "@ + q.name@ + "(...)"@,
        None => Seq::empty(),
    }
}

/// A titled, bracketed list of parts; nothing when there are no parts.
pub open spec fn section(title: Seq<char>, parts: Seq<Seq<char>>, ind: nat) -> Seq<char> {
    if parts.len() > 0 {
        line_text(ind, title) + joined(parts, Seq::empty()) + line_text(ind, "]"@)
    } else {
        Seq::empty()
    }
}

/// The dump of a type definition.
#[verifier::opaque]
pub open spec fn typedef_text(t: TypeDef, ind: nat) -> Seq<char> {
    line_text(ind, "TypeDef { name: '"@ + t.name@ + "'"@ + parent_info(t.parent)) + section(
        "attributes: ["@,
        Seq::new(t.attributes@.len(), |i: int| attribute_text(t.attributes@[i], ind + 2)),
        ind + 1,
    ) + section("methods: ["@, Seq::new(t.methods@.len(), |i: int| method_text(t.methods@[i], ind + 2)), ind + 1)
        + line_text(ind, "}"@)
}

/// The dump of a protocol's method signature.
#[verifier::opaque]
pub open spec fn protocol_method_text(m: ProtocolMethod, ind: nat) -> Seq<char> {
    line_text(
        ind,
        "ProtocolMethod { "@ + m.name@ + "("@ + joined(
            Seq::new(
                m.params@.len(),
                |i: int| m.params@[i].name@ + ann(": "@, m.params@[i].ty_annotation, Seq::empty()),
            ),
            ", "@,
        ) + ")"@ + ann(": "@, m.return_ty, Seq::empty()) + " }"@,
    )
}

/// ` extends P` for a protocol with a parent.
pub open spec fn extends_info(extends: Option<String>) -> Seq<char> {
    match extends {
        Some(q) => " extends "@ + q@,
        None => Seq::empty(),
    }
}

/// The dump of a protocol.
#[verifier::opaque]
pub open spec fn protocol_text(p: ProtocolDef, ind: nat) -> Seq<char> {
    line_text(ind, "ProtocolDef { name: '"@ + p.name@ + "'"@ + extends_info(p.extends)) + section(
        "methods: ["@,
        Seq::new(p.methods@.len(), |i: int| protocol_method_text(p.methods@[i], ind + 2)),
        ind + 1,
    ) + line_text(ind, "}"@)
}

/// The dump of a program: its protocols, types and functions, then its main expression.
#[verifier::opaque]
pub open spec fn program_text(p: Program, ind: nat) -> Seq<char> {
    line_text(ind, "Program {"@) + joined(
        Seq::new(p.protocols@.len(), |i: int| protocol_text(p.protocols@[i], ind + 1)),
        Seq::empty(),
    ) + joined(Seq::new(p.types@.len(), |i: int| typedef_text(p.types@[i], ind + 1)), Seq::empty()) + joined(
        Seq::new(p.functions@.len(), |i: int| function_text(p.functions@[i], ind + 1)),
        Seq::empty(),
    ) + line_text(ind + 1, "main_expr:"@) + expr_text(*p.main_expr, ind + 2) + line_text(ind, "}"@)
}

/// Every indentation that dumping the type definition at `ind` reaches fits in a `usize`.
pub open spec fn typedef_fits(t: TypeDef, ind: nat) -> bool {
    &&& ind + 2 <= usize::MAX
    &&& forall|i: int| 0 <= i < t.attributes@.len() ==> fits(*(#[trigger] t.attributes@[i]).init_expr, ind + 3)
    &&& forall|i: int| 0 <= i < t.methods@.len() ==> fits(*(#[trigger] t.methods@[i]).body, ind + 4)
}

/// Every indentation that dumping the program at `ind` reaches fits in a `usize`.
pub open spec fn program_fits(p: Program, ind: nat) -> bool {
    &&& ind + 3 <= usize::MAX
    &&& forall|i: int| 0 <= i < p.types@.len() ==> typedef_fits(#[trigger] p.types@[i], ind + 1)
    &&& forall|i: int| 0 <= i < p.functions@.len() ==> fits(*(#[trigger] p.functions@[i]).body, ind + 3)
    &&& fits(*p.main_expr, ind + 2)
}

fn params_string(ps: &Vec<Params>) -> (res: String)
    ensures
        res@ == params_text(ps@),
{
    let ghost parts = Seq::new(ps@.len(), |i: int| param_text(ps@[i].name@, ps@[i].ty_annotation, ps@[i].ty));
    let mut out = String::new();
    let mut i: usize = 0;
    while i < ps.len()
        invariant
            i <= ps@.len(),
            parts == Seq::new(ps@.len(), |i: int| param_text(ps@[i].name@, ps@[i].ty_annotation, ps@[i].ty)),
            out@ == joined(parts.subrange(0, i as int), ", "@),
        decreases ps@.len() - i,
    {
        if i > 0 {
            out.append(", ");
        }
        out.append(ps[i].name.as_str());
        let a = ann_string(": ", &ps[i].ty_annotation, "");
        out.append(a.as_str());
        let b = ann_string(" [infer: ", &ps[i].ty, "]");
        out.append(b.as_str());
        proof {
            reveal_strlit("");
            lemma_joined_step(parts, ", "@, i as int);
        }
        i = i + 1;
        assert(out@ =~= joined(parts.subrange(0, i as int), ", "@));
    }
    assert(parts.subrange(0, i as int) =~= parts);
    out
}

fn method_params_string(ps: &Vec<MethodParam>) -> (res: String)
    ensures
        res@ == method_params_text(ps@),
{
    let ghost parts = Seq::new(ps@.len(), |i: int| param_text(ps@[i].name@, ps@[i].ty_annotation, ps@[i].ty));
    let mut out = String::new();
    let mut i: usize = 0;
    while i < ps.len()
        invariant
            i <= ps@.len(),
            parts == Seq::new(ps@.len(), |i: int| param_text(ps@[i].name@, ps@[i].ty_annotation, ps@[i].ty)),
            out@ == joined(parts.subrange(0, i as int), ", "@),
        decreases ps@.len() - i,
    {
        if i > 0 {
            out.append(", ");
        }
        out.append(ps[i].name.as_str());
        let a = ann_string(": ", &ps[i].ty_annotation, "");
        out.append(a.as_str());
        let b = ann_string(" [infer: ", &ps[i].ty, "]");
        out.append(b.as_str());
        proof {
            reveal_strlit("");
            lemma_joined_step(parts, ", "@, i as int);
        }
        i = i + 1;
        assert(out@ =~= joined(parts.subrange(0, i as int), ", "@));
    }
    assert(parts.subrange(0, i as int) =~= parts);
    out
}

fn protocol_params_string(ps: &Vec<MethodParam>) -> (res: String)
    ensures
        res@ == joined(
            Seq::new(ps@.len(), |i: int| ps@[i].name@ + ann(": "@, ps@[i].ty_annotation, Seq::empty())),
            ", "@,
        ),
{
    let ghost parts = Seq::new(ps@.len(), |i: int| ps@[i].name@ + ann(": "@, ps@[i].ty_annotation, Seq::empty()));
    let mut out = String::new();
    let mut i: usize = 0;
    while i < ps.len()
        invariant
            i <= ps@.len(),
            parts == Seq::new(ps@.len(), |i: int| ps@[i].name@ + ann(": "@, ps@[i].ty_annotation, Seq::empty())),
            out@ == joined(parts.subrange(0, i as int), ", "@),
        decreases ps@.len() - i,
    {
        if i > 0 {
            out.append(", ");
        }
        out.append(ps[i].name.as_str());
        let a = ann_string(": ", &ps[i].ty_annotation, "");
        out.append(a.as_str());
        proof {
            reveal_strlit("");
            lemma_joined_step(parts, ", "@, i as int);
        }
        i = i + 1;
        assert(out@ =~= joined(parts.subrange(0, i as int), ", "@));
    }
    assert(parts.subrange(0, i as int) =~= parts);
    out
}

impl PrettyPrinter {
    /// Writes the dump of a function definition.
    pub fn visit_function_def(&mut self, f: &FunctionDef)
        requires
            old(self).level() + 2 <= usize::MAX,
            fits(*f.body, old(self).level() + 2),
        ensures
            final(self).level() == old(self).level(),
            final(self).text() == old(self).text() + function_text(*f, old(self).level()),
    {
        let ghost o0 = self.text();
        let ghost ind = self.level();
        let mut s = String::from_str("FunctionDef { name: '");
        s.append(f.name.as_str());
        s.append("', generic: ");
        if f.is_generic {
            s.append("true");
        } else {
            s.append("false");
        }
        s.append(", params: [");
        let ps = params_string(&f.params);
        s.append(ps.as_str());
        s.append("]");
        let a = ann_string(" -> ", &f.ty_annotation, "");
        s.append(a.as_str());
        let b = ann_string(" [infer: ", &f.ty, "]");
        s.append(b.as_str());
        proof {
            reveal_strlit("");
        }
        assert(s@ =~= "FunctionDef { name: '"@ + f.name@ + "', generic: "@ + bool_text(f.is_generic)
            + ", params: ["@ + params_text(f.params@) + "]"@ + ann(" -> "@, f.ty_annotation, Seq::empty())
            + ann(" [infer: "@, f.ty, "]"@));
        self.write_line(s.as_str());
        self.enter();
        self.write_line("body:");
        self.enter();
        self.visit_expr(&f.body);
        self.leave();
        self.leave();
        self.write_line("}");
        proof {
            reveal(function_text);
        }
        assert(self.text() =~= o0 + function_text(*f, ind));
    }

    /// Writes the dump of an attribute.
    pub fn visit_attribute(&mut self, a: &Attribute)
        requires
            old(self).level() + 1 <= usize::MAX,
            fits(*a.init_expr, old(self).level() + 1),
        ensures
            final(self).level() == old(self).level(),
            final(self).text() == old(self).text() + attribute_text(*a, old(self).level()),
    {
        let ghost o0 = self.text();
        let ghost ind = self.level();
        let mut s = String::from_str("Attribute { name: '");
        s.append(a.name.as_str());
        let x = ann_string(": ", &a.ty_annotation, "");
        s.append(x.as_str());
        let y = ann_string(" [infer: ", &a.ty, "]");
        s.append(y.as_str());
        s.append("', init:");
        proof {
            reveal_strlit("");
        }
        assert(s@ =~= "Attribute { name: '"@ + a.name@ + ann(": "@, a.ty_annotation, Seq::empty()) + ann(
            " [infer: "@,
            a.ty,
            "]"@,
        ) + "', init:"@);
        self.write_line(s.as_str());
        self.enter();
        self.visit_expr(&a.init_expr);
        self.leave();
        self.write_line("}");
        proof {
            reveal(attribute_text);
        }
        assert(self.text() =~= o0 + attribute_text(*a, ind));
    }

    /// Writes the dump of a method.
    pub fn visit_method(&mut self, m: &Method)
        requires
            old(self).level() + 2 <= usize::MAX,
            fits(*m.body, old(self).level() + 2),
        ensures
            final(self).level() == old(self).level(),
            final(self).text() == old(self).text() + method_text(*m, old(self).level()),
    {
        let ghost o0 = self.text();
        let ghost ind = self.level();
        let mut s = String::from_str("Method { name: '");
        s.append(m.name.as_str());
        s.append("'");
        match &m.owner {
            Some(t) => {
                s.append(" (in type '");
                s.append(t.as_str());
                s.append("')");
            },
            None => {},
        }
        s.append(", params: [");
        let ps = method_params_string(&m.params);
        s.append(ps.as_str());
        s.append("]");
        let a = ann_string(" -> ", &m.ty_annotation, "");
        s.append(a.as_str());
        let b = ann_string(" [infer: ", &m.ty, "]");
        s.append(b.as_str());
        proof {
            reveal_strlit("");
        }
        assert(s@ =~= "Method { name: '"@ + m.name@ + "'"@ + owner_info(m.owner) + ", params: ["@
            + method_params_text(m.params@) + "]"@ + ann(" -> "@, m.ty_annotation, Seq::empty()) + ann(
            " [infer: "@,
            m.ty,
            "]"@,
        ));
        self.write_line(s.as_str());
        self.enter();
        self.write_line("body:");
        self.enter();
        self.visit_expr(&m.body);
        self.leave();
        self.leave();
        self.write_line("}");
        proof {
            reveal(method_text);
        }
        assert(self.text() =~= o0 + method_text(*m, ind));
    }

    /// Writes the dump of a type definition.
    #[verifier::rlimit(50)]
    pub fn visit_type_def(&mut self, t: &TypeDef)
        requires
            typedef_fits(*t, old(self).level()),
        ensures
            final(self).level() == old(self).level(),
            final(self).text() == old(self).text() + typedef_text(*t, old(self).level()),
    {
        let ghost o0 = self.text();
        let ghost ind = self.level();
        let mut s = String::from_str("TypeDef { name: '");
        s.append(t.name.as_str());
        s.append("'");
        match &t.parent {
            Some(p) => {
                s.append(" inherits ");
                s.append(p.name.as_str());
                s.append("(...)");
            },
            None => {},
        }
        assert(s@ =~= "TypeDef { name: '"@ + t.name@ + "'"@ + parent_info(t.parent));
        self.write_line(s.as_str());
        self.enter();
        let ghost o1 = self.text();
        if t.attributes.len() > 0 {
            proof {
                lemma_fits_bound(*t.attributes@[0].init_expr, ind + 3);
            }
            self.write_line("attributes: [");
            self.enter();
            self.visit_attributes(&t.attributes);
            self.leave();
            self.write_line("]");
        }
        let ghost o2 = self.text();
        assert(o2 =~= o1 + section(
            "attributes: ["@,
            Seq::new(t.attributes@.len(), |i: int| attribute_text(t.attributes@[i], ind + 2)),
            ind + 1,
        ));
        if t.methods.len() > 0 {
            proof {
                lemma_fits_bound(*t.methods@[0].body, ind + 4);
            }
            self.write_line("methods: [");
            self.enter();
            self.visit_methods(&t.methods);
            self.leave();
            self.write_line("]");
        }
        assert(self.text() =~= o2 + section(
            "methods: ["@,
            Seq::new(t.methods@.len(), |i: int| method_text(t.methods@[i], ind + 2)),
            ind + 1,
        ));
        self.leave();
        self.write_line("}");
        proof {
            reveal(typedef_text);
        }
        assert(self.text() =~= o0 + typedef_text(*t, ind));
    }

    /// Writes the line of a protocol's method signature.
    pub fn visit_protocol_method(&mut self, m: &ProtocolMethod)
        ensures
            final(self).level() == old(self).level(),
            final(self).text() == old(self).text() + protocol_method_text(*m, old(self).level()),
    {
        let mut s = String::from_str("ProtocolMethod { ");
        s.append(m.name.as_str());
        s.append("(");
        let ps = protocol_params_string(&m.params);
        s.append(ps.as_str());
        s.append(")");
        let r = ann_string(": ", &m.return_ty, "");
        s.append(r.as_str());
        s.append(" }");
        proof {
            reveal_strlit("");
        }
        assert(s@ =~= "ProtocolMethod { "@ + m.name@ + "("@ + joined(
            Seq::new(
                m.params@.len(),
                |i: int| m.params@[i].name@ + ann(": "@, m.params@[i].ty_annotation, Seq::empty()),
            ),
            ", "@,
        ) + ")"@ + ann(": "@, m.return_ty, Seq::empty()) + " }"@);
        self.write_line(s.as_str());
        proof {
            reveal(protocol_method_text);
        }
    }

    /// Writes the dump of a protocol.
    pub fn visit_protocol_def(&mut self, p: &ProtocolDef)
        requires
            old(self).level() + 2 <= usize::MAX,
        ensures
            final(self).level() == old(self).level(),
            final(self).text() == old(self).text() + protocol_text(*p, old(self).level()),
    {
        let ghost o0 = self.text();
        let ghost ind = self.level();
        let mut s = String::from_str("ProtocolDef { name: '");
        s.append(p.name.as_str());
        s.append("'");
        match &p.extends {
            Some(q) => {
                s.append(" extends ");
                s.append(q.as_str());
            },
            None => {},
        }
        assert(s@ =~= "ProtocolDef { name: '"@ + p.name@ + "'"@ + extends_info(p.extends));
        self.write_line(s.as_str());
        self.enter();
        let ghost o1 = self.text();
        if p.methods.len() > 0 {
            self.write_line("methods: [");
            self.enter();
            self.visit_protocol_methods(&p.methods);
            self.leave();
            self.write_line("]");
        }
        assert(self.text() =~= o1 + section(
            "methods: ["@,
            Seq::new(p.methods@.len(), |i: int| protocol_method_text(p.methods@[i], ind + 2)),
            ind + 1,
        ));
        self.leave();
        self.write_line("}");
        proof {
            reveal(protocol_text);
        }
        assert(self.text() =~= o0 + protocol_text(*p, ind));
    }

    /// Writes the dump of a whole program.
    pub fn visit_program(&mut self, p: &Program)
        requires
            program_fits(*p, old(self).level()),
        ensures
            final(self).level() == old(self).level(),
            final(self).text() == old(self).text() + program_text(*p, old(self).level()),
    {
        let ghost o0 = self.text();
        let ghost ind = self.level();
        self.write_line("Program {");
        self.enter();
        self.visit_protocols(&p.protocols);
        self.visit_type_defs(&p.types);
        self.visit_function_defs(&p.functions);
        self.write_line("main_expr:");
        self.enter();
        self.visit_expr(&p.main_expr);
        self.leave();
        self.leave();
        self.write_line("}");
        proof {
            reveal(program_text);
        }
        assert(self.text() =~= o0 + program_text(*p, ind));
    }

    /// Writes the dumps of attributes, one after another.
    fn visit_attributes(&mut self, v: &Vec<Attribute>)
        requires
            old(self).level() + 1 <= usize::MAX,
            forall|i: int| 0 <= i < v@.len() ==> fits(*(#[trigger] v@[i]).init_expr, old(self).level() + 1),
        ensures
            final(self).level() == old(self).level(),
            final(self).text() == old(self).text() + joined(
                Seq::new(v@.len(), |i: int| attribute_text(v@[i], old(self).level())),
                Seq::empty(),
            ),
    {
        let ghost o0 = self.text();
        let ghost ind = self.level();
        let ghost parts = Seq::new(v@.len(), |i: int| attribute_text(v@[i], ind));
        let mut i: usize = 0;
        while i < v.len()
            invariant
                i <= v@.len(),
                self.level() == ind,
                ind == old(self).level(),
                o0 == old(self).text(),
                ind + 1 <= usize::MAX,
            forall|i: int| 0 <= i < v@.len() ==> fits(*(#[trigger] v@[i]).init_expr, ind + 1),
                parts == Seq::new(v@.len(), |i: int| attribute_text(v@[i], ind)),
                self.text() == o0 + joined(parts.subrange(0, i as int), Seq::empty()),
            decreases v@.len() - i,
        {
            self.visit_attribute(&v[i]);
            proof {
                lemma_joined_step(parts, Seq::empty(), i as int);
            }
            i = i + 1;
            assert(self.text() =~= o0 + joined(parts.subrange(0, i as int), Seq::empty()));
        }
        assert(parts.subrange(0, i as int) =~= parts);
    }

    /// Writes the dumps of methods, one after another.
    fn visit_methods(&mut self, v: &Vec<Method>)
        requires
            old(self).level() + 2 <= usize::MAX,
            forall|i: int| 0 <= i < v@.len() ==> fits(*(#[trigger] v@[i]).body, old(self).level() + 2),
        ensures
            final(self).level() == old(self).level(),
            final(self).text() == old(self).text() + joined(
                Seq::new(v@.len(), |i: int| method_text(v@[i], old(self).level())),
                Seq::empty(),
            ),
    {
        let ghost o0 = self.text();
        let ghost ind = self.level();
        let ghost parts = Seq::new(v@.len(), |i: int| method_text(v@[i], ind));
        let mut i: usize = 0;
        while i < v.len()
            invariant
                i <= v@.len(),
                self.level() == ind,
                ind == old(self).level(),
                o0 == old(self).text(),
                ind + 2 <= usize::MAX,
            forall|i: int| 0 <= i < v@.len() ==> fits(*(#[trigger] v@[i]).body, ind + 2),
                parts == Seq::new(v@.len(), |i: int| method_text(v@[i], ind)),
                self.text() == o0 + joined(parts.subrange(0, i as int), Seq::empty()),
            decreases v@.len() - i,
        {
            self.visit_method(&v[i]);
            proof {
                lemma_joined_step(parts, Seq::empty(), i as int);
            }
            i = i + 1;
            assert(self.text() =~= o0 + joined(parts.subrange(0, i as int), Seq::empty()));
        }
        assert(parts.subrange(0, i as int) =~= parts);
    }

    /// Writes the dumps of method signatures, one after another.
    fn visit_protocol_methods(&mut self, v: &Vec<ProtocolMethod>)
        requires
            true,
        ensures
            final(self).level() == old(self).level(),
            final(self).text() == old(self).text() + joined(
                Seq::new(v@.len(), |i: int| protocol_method_text(v@[i], old(self).level())),
                Seq::empty(),
            ),
    {
        let ghost o0 = self.text();
        let ghost ind = self.level();
        let ghost parts = Seq::new(v@.len(), |i: int| protocol_method_text(v@[i], ind));
        let mut i: usize = 0;
        while i < v.len()
            invariant
                i <= v@.len(),
                self.level() == ind,
                ind == old(self).level(),
                o0 == old(self).text(),
                true,
                parts == Seq::new(v@.len(), |i: int| protocol_method_text(v@[i], ind)),
                self.text() == o0 + joined(parts.subrange(0, i as int), Seq::empty()),
            decreases v@.len() - i,
        {
            self.visit_protocol_method(&v[i]);
            proof {
                lemma_joined_step(parts, Seq::empty(), i as int);
            }
            i = i + 1;
            assert(self.text() =~= o0 + joined(parts.subrange(0, i as int), Seq::empty()));
        }
        assert(parts.subrange(0, i as int) =~= parts);
    }

    /// Writes the dumps of protocols, one after another.
    fn visit_protocols(&mut self, v: &Vec<ProtocolDef>)
        requires
            old(self).level() + 2 <= usize::MAX,
        ensures
            final(self).level() == old(self).level(),
            final(self).text() == old(self).text() + joined(
                Seq::new(v@.len(), |i: int| protocol_text(v@[i], old(self).level())),
                Seq::empty(),
            ),
    {
        let ghost o0 = self.text();
        let ghost ind = self.level();
        let ghost parts = Seq::new(v@.len(), |i: int| protocol_text(v@[i], ind));
        let mut i: usize = 0;
        while i < v.len()
            invariant
                i <= v@.len(),
                self.level() == ind,
                ind == old(self).level(),
                o0 == old(self).text(),
                ind + 2 <= usize::MAX,
                parts == Seq::new(v@.len(), |i: int| protocol_text(v@[i], ind)),
                self.text() == o0 + joined(parts.subrange(0, i as int), Seq::empty()),
            decreases v@.len() - i,
        {
            self.visit_protocol_def(&v[i]);
            proof {
                lemma_joined_step(parts, Seq::empty(), i as int);
            }
            i = i + 1;
            assert(self.text() =~= o0 + joined(parts.subrange(0, i as int), Seq::empty()));
        }
        assert(parts.subrange(0, i as int) =~= parts);
    }

    /// Writes the dumps of type definitions, one after another.
    fn visit_type_defs(&mut self, v: &Vec<TypeDef>)
        requires
            forall|i: int| 0 <= i < v@.len() ==> typedef_fits(#[trigger] v@[i], old(self).level()),
        ensures
            final(self).level() == old(self).level(),
            final(self).text() == old(self).text() + joined(
                Seq::new(v@.len(), |i: int| typedef_text(v@[i], old(self).level())),
                Seq::empty(),
            ),
    {
        let ghost o0 = self.text();
        let ghost ind = self.level();
        let ghost parts = Seq::new(v@.len(), |i: int| typedef_text(v@[i], ind));
        let mut i: usize = 0;
        while i < v.len()
            invariant
                i <= v@.len(),
                self.level() == ind,
                ind == old(self).level(),
                o0 == old(self).text(),
                forall|i: int| 0 <= i < v@.len() ==> typedef_fits(#[trigger] v@[i], ind),
                parts == Seq::new(v@.len(), |i: int| typedef_text(v@[i], ind)),
                self.text() == o0 + joined(parts.subrange(0, i as int), Seq::empty()),
            decreases v@.len() - i,
        {
            self.visit_type_def(&v[i]);
            proof {
                lemma_joined_step(parts, Seq::empty(), i as int);
            }
            i = i + 1;
            assert(self.text() =~= o0 + joined(parts.subrange(0, i as int), Seq::empty()));
        }
        assert(parts.subrange(0, i as int) =~= parts);
    }

    /// Writes the dumps of function definitions, one after another.
    fn visit_function_defs(&mut self, v: &Vec<FunctionDef>)
        requires
            old(self).level() + 2 <= usize::MAX,
            forall|i: int| 0 <= i < v@.len() ==> fits(*(#[trigger] v@[i]).body, old(self).level() + 2),
        ensures
            final(self).level() == old(self).level(),
            final(self).text() == old(self).text() + joined(
                Seq::new(v@.len(), |i: int| function_text(v@[i], old(self).level())),
                Seq::empty(),
            ),
    {
        let ghost o0 = self.text();
        let ghost ind = self.level();
        let ghost parts = Seq::new(v@.len(), |i: int| function_text(v@[i], ind));
        let mut i: usize = 0;
        while i < v.len()
            invariant
                i <= v@.len(),
                self.level() == ind,
                ind == old(self).level(),
                o0 == old(self).text(),
                ind + 2 <= usize::MAX,
            forall|i: int| 0 <= i < v@.len() ==> fits(*(#[trigger] v@[i]).body, ind + 2),
                parts == Seq::new(v@.len(), |i: int| function_text(v@[i], ind)),
                self.text() == o0 + joined(parts.subrange(0, i as int), Seq::empty()),
            decreases v@.len() - i,
        {
            self.visit_function_def(&v[i]);
            proof {
                lemma_joined_step(parts, Seq::empty(), i as int);
            }
            i = i + 1;
            assert(self.text() =~= o0 + joined(parts.subrange(0, i as int), Seq::empty()));
        }
        assert(parts.subrange(0, i as int) =~= parts);
    }
}

} // verus!
