//! The type of an expression, as far as it can be told without running anything.
pub mod laws;

use crate::ast::{BinOp, Block, Expr, FnDecl, Param, Stmt, UnOp};
use crate::builtins::Builtins;
use crate::names::NameSet;
use crate::program::{Signatures, Sigs};
use crate::text;
use crate::types::{self, type_from_ast, Records, Type, TypeModel, TypeRegistry};
use vstd::prelude::*;

verus! {

// ----- parameters -----

/// The types of parameters by name. Of two with the same name the later counts.
pub open spec fn params_map(params: Seq<Param>) -> Map<Seq<char>, TypeModel>
    decreases params.len(),
{
    if params.len() == 0 {
        Map::empty()
    } else {
        params_map(params.drop_last()).insert(
            params.last().name@,
            types::resolved(params.last().ty),
        )
    }
}

/// The type of a parameter.
fn param_type(params: &Vec<Param>, name: &String) -> (r: Option<Type>)
    ensures
        r is Some <==> params_map(params@).dom().contains(name@),
        r matches Some(t) ==> t@ == params_map(params@)[name@],
{
    let n: usize = params.len();
    let mut i: usize = n;
    assert(params@.take(n as int) =~= params@);
    while i > 0
        invariant
            n == params.len(),
            i <= n,
            params_map(params@.take(i as int)).dom().contains(name@) == params_map(
                params@,
            ).dom().contains(name@),
            params_map(params@).dom().contains(name@) ==> params_map(
                params@.take(i as int),
            )[name@] == params_map(params@)[name@],
        decreases i,
    {
        assert(params@.take(i as int).drop_last() =~= params@.take(i - 1));
        if params[i - 1].name == *name {
            return Some(type_from_ast(&params[i - 1].ty));
        }
        i = i - 1;
    }
    None
}

// ----- fields -----

/// The type of the first field with a name; `Unknown` where there is none.
pub open spec fn first_field(fields: Seq<(Seq<char>, TypeModel)>, name: Seq<char>) -> TypeModel
    decreases fields.len(),
{
    if fields.len() == 0 {
        TypeModel::Unknown
    } else if fields[0].0 == name {
        fields[0].1
    } else {
        first_field(fields.drop_first(), name)
    }
}

/// The type of a field of a value. A name is looked up among the declared
/// records; what is no record has fields of unknown type.
pub open spec fn field_of(rt: TypeModel, name: Seq<char>, reg: Records) -> TypeModel {
    match rt {
        TypeModel::Named(n) => if reg.dom().contains(n) {
            first_field(reg[n], name)
        } else {
            TypeModel::Unknown
        },
        TypeModel::Record(fields) => first_field(fields, name),
        _ => TypeModel::Unknown,
    }
}

fn find_field(fields: &Vec<(String, Type)>, name: &str) -> (r: Type)
    ensures
        r@ == first_field(types::fields_model(fields@), name@),
{
    let ghost all = types::fields_model(fields@);
    proof {
        types::lemma_fields_model(fields@);
        assert(all.skip(0) =~= all);
    }
    let n: usize = fields.len();
    let mut i: usize = 0;
    while i < n
        invariant
            n == fields.len(),
            i <= n,
            all == types::fields_model(fields@),
            all.len() == n,
            forall|k: int|
                #![trigger all[k]]
                0 <= k < n ==> all[k] == (fields@[k].0@, fields@[k].1@),
            first_field(all.skip(i as int), name@) == first_field(all, name@),
        decreases n - i,
    {
        assert(all.skip(i as int)[0] == all[i as int]);
        assert(all.skip(i as int).drop_first() =~= all.skip(i + 1));
        if text::same(&fields[i].0, name) {
            return fields[i].1.clone();
        }
        i = i + 1;
    }
    Type::Unknown
}

/// The type of a field of a value.
pub fn field_type(rt: &Type, name: &str, reg: &TypeRegistry) -> (r: Type)
    ensures
        r@ == field_of(rt@, name@, reg@),
{
    match rt {
        Type::Named(n) => match reg.record_fields(n.as_str()) {
            Some(fields) => find_field(fields, name),
            None => Type::Unknown,
        },
        Type::Record(fields) => find_field(fields, name),
        _ => Type::Unknown,
    }
}

// ----- expressions -----

/// Everything that the type of an expression depends on. `bound` are the names
/// that a `let` before the expression has taken: nothing is known of them.
pub struct Scope {
    pub params: Map<Seq<char>, TypeModel>,
    pub bound: Set<Seq<char>>,
    pub sigs: Sigs,
    pub reg: Records,
    pub builtins: Builtins,
}

impl Scope {
    /// A parameter or a `let` has taken the name, so it stands for no function
    /// and for no builtin module.
    pub open spec fn local(self, name: Seq<char>) -> bool {
        self.bound.contains(name) || self.params.dom().contains(name)
    }
}

/// Whether an operator gives a truth value.
pub open spec fn is_test(op: BinOp) -> bool {
    match op {
        BinOp::Eq => true,
        BinOp::Ne => true,
        BinOp::Lt => true,
        BinOp::Le => true,
        BinOp::Gt => true,
        BinOp::Ge => true,
        BinOp::And => true,
        BinOp::Or => true,
        _ => false,
    }
}

/// The type of an expression; `Unknown` where it cannot be told.
pub open spec fn type_of(e: Expr, sc: Scope) -> TypeModel
    decreases e,
{
    match e {
        Expr::Int(..) => TypeModel::Int,
        Expr::Float(..) => TypeModel::Float,
        Expr::Str(..) => TypeModel::Str,
        Expr::Bool(..) => TypeModel::Bool,
        Expr::Ident(name, _) => if !sc.bound.contains(name@) && sc.params.dom().contains(name@) {
            sc.params[name@]
        } else {
            TypeModel::Unknown
        },
        Expr::Unary { op, expr, .. } => match op {
            UnOp::Not => TypeModel::Bool,
            UnOp::Neg => type_of(*expr, sc),
        },
        Expr::Binary { op, lhs, .. } => if is_test(op) {
            TypeModel::Bool
        } else {
            type_of(*lhs, sc)
        },
        Expr::Field { recv, name, .. } => field_of(type_of(*recv, sc), name@, sc.reg),
        Expr::Try { expr, .. } => match type_of(*expr, sc) {
            TypeModel::Result(ok, _) => *ok,
            _ => TypeModel::Unknown,
        },
        Expr::MakeOk(inner, _) => TypeModel::Result(
            Box::new(type_of(*inner, sc)),
            Box::new(TypeModel::Unknown),
        ),
        Expr::MakeErr(inner, _) => TypeModel::Result(
            Box::new(TypeModel::Unknown),
            Box::new(type_of(*inner, sc)),
        ),
        Expr::Record { name, fields, .. } => match name {
            Some(n) => if sc.reg.dom().contains(n@) {
                TypeModel::Named(n@)
            } else {
                TypeModel::Record(types_of_fields(fields@, sc))
            },
            None => TypeModel::Record(types_of_fields(fields@, sc)),
        },
        Expr::Call { callee, .. } => match *callee {
            Expr::Ident(f, _) => if sc.local(f@) {
                TypeModel::Unknown
            } else if f@ == "to_string"@ {
                TypeModel::Str
            } else if sc.sigs.dom().contains(f@) {
                match sc.sigs[f@].ret {
                    Some(t) => t,
                    None => TypeModel::Unknown,
                }
            } else {
                TypeModel::Unknown
            },
            _ => TypeModel::Unknown,
        },
        Expr::Method { recv, name, .. } => match builtin_ret(*recv, name@, sc) {
            Some(t) => t,
            None => if name@ == "is_ok"@ || name@ == "is_err"@ {
                TypeModel::Bool
            } else {
                TypeModel::Unknown
            },
        },
    }
}

/// What a call of a builtin member returns, where `recv.name` is one.
pub open spec fn builtin_ret(recv: Expr, name: Seq<char>, sc: Scope) -> Option<TypeModel> {
    match recv {
        Expr::Ident(m, _) => if !sc.local(m@) && sc.builtins.has_module(m@) {
            match sc.builtins.member(m@, name) {
                Some(b) => Some(b.ret),
                None => None,
            }
        } else {
            None
        },
        _ => None,
    }
}

/// The types of the fields of a record expression.
pub open spec fn types_of_fields(fields: Seq<(String, Expr)>, sc: Scope) -> Seq<
    (Seq<char>, TypeModel),
>
    decreases fields,
{
    if fields.len() == 0 {
        Seq::empty()
    } else {
        types_of_fields(fields.drop_last(), sc).push(
            (fields.last().0@, type_of(fields.last().1, sc)),
        )
    }
}

/// The scope with these parameters, where a `let` has taken these names.
pub open spec fn scope_of(
    params: Seq<Param>,
    bound: Set<Seq<char>>,
    sigs: Sigs,
    reg: Records,
    cx: Builtins,
) -> Scope {
    Scope { params: params_map(params), bound, sigs, reg, builtins: cx }
}

/// The scope at the beginning of a function's body.
pub open spec fn scope_in(f: FnDecl, sigs: Sigs, reg: Records, cx: Builtins) -> Scope {
    scope_of(f.params@, Set::empty(), sigs, reg, cx)
}

/// Whether a parameter or a `let` has taken a name.
fn is_local(name: &String, params: &Vec<Param>, bound: &NameSet) -> (r: bool)
    ensures
        r == (bound@.contains(name@) || params_map(params@).dom().contains(name@)),
{
    bound.contains(name) || param_type(params, name).is_some()
}

/// Tells the type of an expression.
pub fn infer_expr(
    e: &Expr,
    params: &Vec<Param>,
    bound: &NameSet,
    sigs: &Signatures,
    reg: &TypeRegistry,
    cx: &Builtins,
) -> (r: Type)
    requires
        sigs.wf(),
    ensures
        r@ == type_of(*e, scope_of(params@, bound@, sigs@, reg@, *cx)),
    decreases e,
{
    let ghost sc = scope_of(params@, bound@, sigs@, reg@, *cx);
    assert(Type::Unknown.model() == TypeModel::Unknown);
    match e {
        Expr::Int(..) => Type::Int,
        Expr::Float(..) => Type::Float,
        Expr::Str(..) => Type::Str,
        Expr::Bool(..) => Type::Bool,
        Expr::Ident(name, _) => if bound.contains(name) {
            Type::Unknown
        } else {
            match param_type(params, name) {
                Some(t) => t,
                None => Type::Unknown,
            }
        },
        Expr::Unary { op, expr, .. } => match op {
            UnOp::Not => Type::Bool,
            UnOp::Neg => infer_expr(expr, params, bound, sigs, reg, cx),
        },
        Expr::Binary { op, lhs, .. } => match op {
            BinOp::Eq
            | BinOp::Ne
            | BinOp::Lt
            | BinOp::Le
            | BinOp::Gt
            | BinOp::Ge
            | BinOp::And
            | BinOp::Or => Type::Bool,
            _ => infer_expr(lhs, params, bound, sigs, reg, cx),
        },
        Expr::Field { recv, name, .. } => {
            let rt: Type = infer_expr(recv, params, bound, sigs, reg, cx);
            field_type(&rt, name.as_str(), reg)
        },
        Expr::Try { expr, .. } => match infer_expr(expr, params, bound, sigs, reg, cx) {
            Type::Result(ok, _) => *ok,
            _ => Type::Unknown,
        },
        Expr::MakeOk(inner, _) => Type::Result(
            Box::new(infer_expr(inner, params, bound, sigs, reg, cx)),
            Box::new(Type::Unknown),
        ),
        Expr::MakeErr(inner, _) => Type::Result(
            Box::new(Type::Unknown),
            Box::new(infer_expr(inner, params, bound, sigs, reg, cx)),
        ),
        Expr::Record { name, fields, .. } => {
            if let Some(n) = name {
                if reg.is_known(n.as_str()) {
                    return Type::Named(n.clone());
                }
            }
            let mut out: Vec<(String, Type)> = Vec::new();
            let n: usize = fields.len();
            let mut i: usize = 0;
            while i < n
                invariant
                    n == fields.len(),
                    i <= n,
                    e is Record,
                    e->fields == *fields,
                    sigs.wf(),
                    sc == scope_of(params@, bound@, sigs@, reg@, *cx),
                    types::fields_model(out@) == types_of_fields(fields@.take(i as int), sc),
                decreases n - i,
            {
                assert(decreases_to!(*fields => fields[i as int]));
                assert(decreases_to!(fields[i as int] => fields[i as int].1));
                assert(decreases_to!(*e => e->fields));
                let ghost done = out@;
                out.push((fields[i].0.clone(), infer_expr(&fields[i].1, params, bound, sigs, reg, cx)));
                i = i + 1;
                assert(out@.drop_last() =~= done);
                assert(fields@.take(i as int).drop_last() =~= fields@.take(i - 1));
            }
            assert(fields@.take(n as int) =~= fields@);
            Type::Record(out)
        },
        Expr::Call { callee, .. } => {
            if let Expr::Ident(f, _) = &**callee {
                if is_local(f, params, bound) {
                    return Type::Unknown;
                }
                if text::same(f, "to_string") {
                    return Type::Str;
                }
                if let Some(sig) = sigs.get(f) {
                    return match &sig.ret {
                        Some(t) => t.clone(),
                        None => Type::Unknown,
                    };
                }
            }
            Type::Unknown
        },
        Expr::Method { recv, name, .. } => {
            if let Expr::Ident(m, _) = &**recv {
                if !is_local(m, params, bound) && cx.is_module(m) {
                    if let Some(b) = cx.module_member(m, name) {
                        return b.ret.clone();
                    }
                }
            }
            if text::same(name, "is_ok") || text::same(name, "is_err") {
                Type::Bool
            } else {
                Type::Unknown
            }
        },
    }
}

// ----- returned values -----

/// A returned expression, with the names that a `let` has taken where it stands:
/// one before it, in its own block or in one around it.
pub struct Returned {
    pub value: Expr,
    pub taken: Set<Seq<char>>,
}

/// A returned expression, with the names that a `let` has taken where it stands.
#[derive(Debug)]
pub struct ReturnAt<'a> {
    pub value: &'a Expr,
    pub taken: NameSet,
}

impl<'a> View for ReturnAt<'a> {
    type V = Returned;

    open spec fn view(&self) -> Returned {
        Returned { value: *self.value, taken: self.taken@ }
    }
}

/// The type of a returned expression where it stands.
pub open spec fn type_at(r: Returned, sc: Scope) -> TypeModel {
    type_of(r.value, Scope { bound: r.taken, ..sc })
}

/// The names that the `let`s among some statements bind, not counting those in
/// blocks below.
pub open spec fn lets_of(stmts: Seq<Stmt>) -> Set<Seq<char>>
    decreases stmts.len(),
{
    if stmts.len() == 0 {
        Set::empty()
    } else {
        match stmts.last() {
            Stmt::Let { name, .. } => lets_of(stmts.drop_last()).insert(name@),
            _ => lets_of(stmts.drop_last()),
        }
    }
}

/// The expressions that a body returns, in the order in which they are written.
pub open spec fn returns_of(b: Block) -> Seq<Returned> {
    returns_below(b, Set::empty())
}

/// The expressions that a block returns, where some names are taken already.
pub open spec fn returns_below(b: Block, taken: Set<Seq<char>>) -> Seq<Returned>
    decreases b,
{
    returns_in(b.stmts@, taken)
}

/// The expressions that a list of statements returns. Each statement sees the
/// names bound before it.
pub open spec fn returns_in(stmts: Seq<Stmt>, taken: Set<Seq<char>>) -> Seq<Returned>
    decreases stmts,
{
    if stmts.len() == 0 {
        Seq::empty()
    } else {
        let past = stmts.drop_last();
        returns_in(past, taken) + returns_at(stmts.last(), taken.union(lets_of(past)))
    }
}

/// The expressions that a statement returns.
pub open spec fn returns_at(s: Stmt, taken: Set<Seq<char>>) -> Seq<Returned>
    decreases s,
{
    match s {
        Stmt::Return { value: Some(e), .. } => seq![Returned { value: e, taken }],
        Stmt::If { then, els, .. } => returns_below(then, taken) + match els {
            Some(b) => returns_below(b, taken),
            None => Seq::empty(),
        },
        _ => Seq::empty(),
    }
}

/// What the returned expressions of a list are.
pub open spec fn returned(list: Seq<ReturnAt<'_>>) -> Seq<Returned> {
    list.map_values(|r: ReturnAt<'_>| r@)
}

/// A copy of a set of names.
fn copy_names(names: &NameSet) -> (r: NameSet)
    ensures
        r.wf(),
        r@ == names@,
{
    let mut out: NameSet = NameSet::new();
    out.extend(names);
    assert(out@ =~= names@);
    out
}

fn returns_from<'a>(block: &'a Block, taken: &NameSet, out: &mut Vec<ReturnAt<'a>>)
    ensures
        returned(final(out)@) == returned(old(out)@) + returns_below(*block, taken@),
    decreases block,
{
    let mut now: NameSet = copy_names(taken);
    let n: usize = block.stmts.len();
    let mut i: usize = 0;
    let ghost was = returned(out@);
    assert(was + returns_in(block.stmts@.take(0), taken@) =~= was);
    assert(taken@.union(lets_of(block.stmts@.take(0))) =~= taken@);
    while i < n
        invariant
            n == block.stmts.len(),
            i <= n,
            now.wf(),
            now@ == taken@.union(lets_of(block.stmts@.take(i as int))),
            returned(out@) == was + returns_in(block.stmts@.take(i as int), taken@),
        decreases n - i,
    {
        assert(decreases_to!(block.stmts => block.stmts[i as int]));
        assert(decreases_to!(*block => block.stmts));
        let ghost before = returned(out@);
        let ghost seen = now@;
        let ghost past = block.stmts@.take(i as int);
        let s: &Stmt = &block.stmts[i];
        assert(block.stmts@.take(i + 1).drop_last() =~= past);
        assert(block.stmts@.take(i + 1).last() == *s);
        match s {
            Stmt::Return { value, .. } => {
                if let Some(e) = value {
                    out.push(ReturnAt { value: e, taken: copy_names(&now) });
                    assert(returns_at(*s, seen) == seq![Returned { value: *e, taken: seen }]);
                    assert(returned(out@) =~= before + returns_at(*s, seen));
                } else {
                    assert(returned(out@) =~= before + returns_at(*s, seen));
                }
            },
            Stmt::If { then, els, .. } => {
                assert(decreases_to!(*s => s->then));
                returns_from(then, &now, out);
                if let Some(eb) = els {
                    assert(decreases_to!(*s => s->If_els));
                    returns_from(eb, &now, out);
                }
                assert(returned(out@) =~= before + returns_at(*s, seen));
            },
            Stmt::Let { name, .. } => {
                now.insert(name);
                assert(returned(out@) =~= before + returns_at(*s, seen));
            },
            _ => {
                assert(returned(out@) =~= before + returns_at(*s, seen));
            },
        }
        assert(now@ =~= taken@.union(lets_of(block.stmts@.take(i + 1))));
        assert(returned(out@) =~= was + returns_in(block.stmts@.take(i + 1), taken@));
        i = i + 1;
    }
    assert(block.stmts@.take(n as int) =~= block.stmts@);
}

/// Collects the expressions that a body returns.
pub fn collect_returns<'a>(block: &'a Block, out: &mut Vec<ReturnAt<'a>>)
    ensures
        returned(final(out)@) == returned(old(out)@) + returns_of(*block),
{
    let none: NameSet = NameSet::new();
    returns_from(block, &none, out);
}

} // verus!
