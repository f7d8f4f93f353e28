//! What the types of expressions and the returned values of a body are.
use crate::ast::{BinOp, Block, Expr, Param, Stmt, UnOp};
use crate::builtins::Builtins;
use crate::infer::{self, Returned, Scope};
use crate::program::Sigs;
use crate::span::Span;
use crate::types::{self, Records, TypeModel};
use crate::walk::laws as places;
use vstd::prelude::*;

verus! {

// ----- names -----

/// The parameter at place `k` is the last one with a name.
pub open spec fn last_param(params: Seq<Param>, name: Seq<char>, k: int) -> bool {
    &&& 0 <= k < params.len()
    &&& params[k].name@ == name
    &&& forall|j: int| k < j < params.len() ==> (#[trigger] params[j]).name@ != name
}

/// A name is that of a parameter.
pub open spec fn has_param(params: Seq<Param>, name: Seq<char>) -> bool {
    exists|k: int| 0 <= k < params.len() && (#[trigger] params[k]).name@ == name
}

/// A name has the type of the last parameter that bears it, and is a parameter
/// iff one bears it.
pub proof fn law_last_parameter_counts(params: Seq<Param>, name: Seq<char>, k: int)
    ensures
        infer::params_map(params).dom().contains(name) <==> has_param(params, name),
        last_param(params, name, k) ==> infer::params_map(params).dom().contains(name)
            && infer::params_map(params)[name] == types::resolved(params[k].ty),
    decreases params.len(),
{
    if params.len() > 0 {
        let less = params.drop_last();
        law_last_parameter_counts(less, name, k);
        if has_param(less, name) {
            let i = choose|i: int| 0 <= i < less.len() && (#[trigger] less[i]).name@ == name;
            assert(params[i].name@ == name);
        }
        if has_param(params, name) && params.last().name@ != name {
            let i = choose|i: int| 0 <= i < params.len() && (#[trigger] params[i]).name@ == name;
            assert(less[i].name@ == name);
        }
        if params.last().name@ == name {
            assert(params[params.len() - 1].name@ == name);
        }
        if last_param(params, name, k) && k < less.len() {
            assert(less[k] == params[k]);
            assert forall|j: int| k < j < less.len() implies (#[trigger] less[j]).name@ != name by {
                assert(params[j].name@ != name);
            }
            assert(last_param(less, name, k));
            assert(params[params.len() - 1].name@ != name);
        }
    }
}

/// A name that a `let` has taken is of unknown type; one that is a parameter has
/// that parameter's type; any other is of unknown type.
pub proof fn law_identifiers_are_parameters(
    name: String,
    span: Span,
    params: Seq<Param>,
    taken: Set<Seq<char>>,
    sigs: Sigs,
    reg: Records,
    cx: Builtins,
    k: int,
)
    ensures
        ({
            let got = infer::type_of(
                Expr::Ident(name, span),
                infer::scope_of(params, taken, sigs, reg, cx),
            );
            &&& taken.contains(name@) ==> got == TypeModel::Unknown
            &&& !has_param(params, name@) ==> got == TypeModel::Unknown
            &&& !taken.contains(name@) && last_param(params, name@, k) ==> got == types::resolved(
                params[k].ty,
            )
        }),
{
    law_last_parameter_counts(params, name@, k);
}

// ----- literals and operators -----

/// A literal has the type of its kind.
pub proof fn law_literals_have_their_kind(text: String, b: bool, span: Span, sc: Scope)
    ensures
        infer::type_of(Expr::Int(text, span), sc) == TypeModel::Int,
        infer::type_of(Expr::Float(text, span), sc) == TypeModel::Float,
        infer::type_of(Expr::Str(text, span), sc) == TypeModel::Str,
        infer::type_of(Expr::Bool(b, span), sc) == TypeModel::Bool,
{
}

/// The operator compares its sides or connects two truth values.
pub open spec fn is_logical(op: BinOp) -> bool {
    ||| op == BinOp::Eq
    ||| op == BinOp::Ne
    ||| op == BinOp::Lt
    ||| op == BinOp::Le
    ||| op == BinOp::Gt
    ||| op == BinOp::Ge
    ||| op == BinOp::And
    ||| op == BinOp::Or
}

/// A comparison or a connective is a truth value, whatever its sides; any other
/// operator gives what its left side is.
pub proof fn law_comparisons_are_truth_values(
    op: BinOp,
    lhs: Box<Expr>,
    rhs: Box<Expr>,
    span: Span,
    sc: Scope,
)
    ensures
        ({
            let got = infer::type_of(Expr::Binary { op, lhs, rhs, span }, sc);
            &&& is_logical(op) ==> got == TypeModel::Bool
            &&& !is_logical(op) ==> got == infer::type_of(*lhs, sc)
        }),
{
}

/// A denial is a truth value, and a negative is what it is the negative of.
pub proof fn law_unary_operators(expr: Box<Expr>, span: Span, sc: Scope)
    ensures
        infer::type_of(Expr::Unary { op: UnOp::Not, expr, span }, sc) == TypeModel::Bool,
        infer::type_of(Expr::Unary { op: UnOp::Neg, expr, span }, sc) == infer::type_of(*expr, sc),
{
}

// ----- results -----

/// `?` undoes `Ok`, and tells nothing of an `Err` or of what is no result.
pub proof fn law_try_undoes_ok(inner: Box<Expr>, outer: Box<Expr>, span: Span, at: Span, sc: Scope)
    ensures
        *outer == Expr::MakeOk(inner, at) ==> infer::type_of(Expr::Try { expr: outer, span }, sc)
            == infer::type_of(*inner, sc),
        *outer == Expr::MakeErr(inner, at) ==> infer::type_of(Expr::Try { expr: outer, span }, sc)
            == TypeModel::Unknown,
        !(infer::type_of(*outer, sc) is Result) ==> infer::type_of(
            Expr::Try { expr: outer, span },
            sc,
        ) == TypeModel::Unknown,
        infer::type_of(*outer, sc) matches TypeModel::Result(a, b) ==> infer::type_of(
            Expr::Try { expr: outer, span },
            sc,
        ) == *a,
{
}

/// `Ok` and `Err` tell one side of a result each.
pub proof fn law_ok_and_err_tell_one_side(inner: Box<Expr>, span: Span, sc: Scope)
    ensures
        infer::type_of(Expr::MakeOk(inner, span), sc) matches TypeModel::Result(a, b) && *a
            == infer::type_of(*inner, sc) && *b == TypeModel::Unknown,
        infer::type_of(Expr::MakeErr(inner, span), sc) matches TypeModel::Result(a, b) && *b
            == infer::type_of(*inner, sc) && *a == TypeModel::Unknown,
{
}

// ----- records -----

/// The field at place `k` is the first one with a name.
pub open spec fn first_named(
    fields: Seq<(Seq<char>, TypeModel)>,
    name: Seq<char>,
    k: int,
) -> bool {
    &&& 0 <= k < fields.len()
    &&& fields[k].0 == name
    &&& forall|j: int| 0 <= j < k ==> (#[trigger] fields[j]).0 != name
}

/// Of several fields with a name the first counts; one that is not there is of
/// unknown type.
pub proof fn law_first_field_counts(
    fields: Seq<(Seq<char>, TypeModel)>,
    name: Seq<char>,
    k: int,
)
    ensures
        first_named(fields, name, k) ==> infer::first_field(fields, name) == fields[k].1,
        (forall|j: int| 0 <= j < fields.len() ==> (#[trigger] fields[j]).0 != name)
            ==> infer::first_field(fields, name) == TypeModel::Unknown,
    decreases fields.len(),
{
    if fields.len() > 0 {
        let rest = fields.drop_first();
        law_first_field_counts(rest, name, k - 1);
        if first_named(fields, name, k) && k > 0 {
            assert(fields[0].0 != name);
            assert(rest[k - 1] == fields[k]);
            assert forall|j: int| 0 <= j < k - 1 implies (#[trigger] rest[j]).0 != name by {
                assert(fields[j + 1].0 != name);
            }
        }
        if forall|j: int| 0 <= j < fields.len() ==> (#[trigger] fields[j]).0 != name {
            assert(fields[0].0 != name);
            assert forall|j: int| 0 <= j < rest.len() implies (#[trigger] rest[j]).0 != name by {
                assert(fields[j + 1].0 != name);
            }
        }
    }
}

/// A field is looked up in a record that is written out, and by name in one that
/// is declared; anything else has no field that is known.
pub proof fn law_fields_are_looked_up(t: TypeModel, name: Seq<char>, reg: Records, k: int)
    ensures
        t matches TypeModel::Record(fields) && first_named(fields, name, k) ==> infer::field_of(
            t,
            name,
            reg,
        ) == t->Record_0[k].1,
        t matches TypeModel::Named(n) && reg.dom().contains(n) && first_named(reg[n], name, k)
            ==> infer::field_of(t, name, reg) == reg[t->Named_0][k].1,
        t matches TypeModel::Named(n) && !reg.dom().contains(n) ==> infer::field_of(t, name, reg)
            == TypeModel::Unknown,
        !(t is Named) && !(t is Record) ==> infer::field_of(t, name, reg) == TypeModel::Unknown,
{
    match t {
        TypeModel::Record(fields) => {
            law_first_field_counts(fields, name, k);
        },
        TypeModel::Named(n) => {
            if reg.dom().contains(n) {
                law_first_field_counts(reg[n], name, k);
            }
        },
        _ => {},
    }
}

proof fn lemma_field_types(fields: Seq<(String, Expr)>, sc: Scope)
    ensures
        infer::types_of_fields(fields, sc).len() == fields.len(),
        forall|i: int|
            0 <= i < fields.len() ==> #[trigger] infer::types_of_fields(fields, sc)[i] == (
                fields[i].0@,
                infer::type_of(fields[i].1, sc),
            ),
    decreases fields.len(),
{
    if fields.len() > 0 {
        lemma_field_types(fields.drop_last(), sc);
    }
}

/// A record with the name of a declared one is of that name. Any other is of the
/// record type with the same fields in the same order, each of the type of its
/// expression.
pub proof fn law_records_keep_their_fields(
    name: Option<String>,
    fields: Vec<(String, Expr)>,
    span: Span,
    sc: Scope,
)
    ensures
        ({
            let got = infer::type_of(Expr::Record { name, fields, span }, sc);
            let declared = name matches Some(n) && sc.reg.dom().contains(n@);
            &&& declared ==> got == TypeModel::Named(name->Some_0@)
            &&& !declared ==> (got matches TypeModel::Record(types) && {
                &&& types.len() == fields@.len()
                &&& forall|i: int|
                    0 <= i < types.len() ==> (#[trigger] types[i]).0 == fields@[i].0@ && types[i].1
                        == infer::type_of(fields@[i].1, sc)
            })
        }),
{
    lemma_field_types(fields@, sc);
}

// ----- calls -----

/// A call of a declared function gives what the function is declared to return,
/// `to_string` gives a string, and a name that a parameter or a `let` has taken
/// stands for no function.
pub proof fn law_calls_give_what_is_declared(e: Expr, name: Seq<char>, sc: Scope)
    requires
        places::calls_name(e, name),
    ensures
        ({
            let hidden = sc.bound.contains(name) || sc.params.dom().contains(name);
            let got = infer::type_of(e, sc);
            &&& hidden ==> got == TypeModel::Unknown
            &&& !hidden && name == "to_string"@ ==> got == TypeModel::Str
            &&& !hidden && name != "to_string"@ && sc.sigs.dom().contains(name) ==> (
            match sc.sigs[name].ret {
                Some(t) => got == t,
                None => got == TypeModel::Unknown,
            })
            &&& name != "to_string"@ && !sc.sigs.dom().contains(name) ==> got == TypeModel::Unknown
        }),
{
}

/// A call of a builtin member gives what the first entry for it says, unless a
/// parameter or a `let` has taken the module's name.
pub proof fn law_builtin_calls_give_their_entry(e: Expr, sc: Scope, k: int)
    requires
        places::calls_member(e, sc.builtins, k),
        !sc.bound.contains(sc.builtins.members@[k].module@),
        !sc.params.dom().contains(sc.builtins.members@[k].module@),
    ensures
        infer::type_of(e, sc) == sc.builtins.members@[k].ret@,
{
    let members = sc.builtins.members@;
    let module = members[k].module@;
    let name = members[k].name@;
    places::law_first_entry_counts(members, module, name);
    assert(members[k].module@ == module && members[k].name@ == name);
    let b = sc.builtins.member(module, name)->Some_0;
    let q = choose|q: int|
        0 <= q < members.len() && (#[trigger] members[q])@ == b && members[q].module@ == module
            && members[q].name@ == name && forall|j: int|
            0 <= j < q ==> !(#[trigger] members[j].module@ == module && members[j].name@ == name);
    assert(q == k) by {
        if q < k {
            assert(members[q].module@ == module);
        } else if k < q {
            assert(members[k].module@ == module);
        }
    }
    assert(sc.builtins.has_module(module));
}

/// `e` calls no builtin member: its receiver is no module's name, or the module
/// has no such member.
pub open spec fn no_member(e: Expr, sc: Scope) -> bool {
    forall|k: int| !#[trigger] places::calls_member(e, sc.builtins, k)
}

/// Any other method tells whether a result is `Ok` or `Err`, or is of unknown
/// type.
pub proof fn law_other_methods(recv: Box<Expr>, name: String, args: Vec<Expr>, span: Span, sc: Scope)
    requires
        no_member(Expr::Method { recv, name, args, span }, sc),
    ensures
        ({
            let got = infer::type_of(Expr::Method { recv, name, args, span }, sc);
            &&& name@ == "is_ok"@ || name@ == "is_err"@ ==> got == TypeModel::Bool
            &&& name@ != "is_ok"@ && name@ != "is_err"@ ==> got == TypeModel::Unknown
        }),
{
    let e = Expr::Method { recv, name, args, span };
    if let Expr::Ident(m, _) = *recv {
        let members = sc.builtins.members@;
        places::law_first_entry_counts(members, m@, name@);
        if let Some(b) = sc.builtins.member(m@, name@) {
            let k = choose|k: int|
                0 <= k < members.len() && (#[trigger] members[k])@ == b && members[k].module@ == m@
                    && members[k].name@ == name@ && forall|j: int|
                    0 <= j < k ==> !(#[trigger] members[j].module@ == m@ && members[j].name@
                        == name@);
            assert(places::calls_member(e, sc.builtins, k));
        }
    }
}

// ----- returned values -----

/// The names that the `let`s among some statements bind.
pub open spec fn let_names(stmts: Seq<Stmt>) -> Set<Seq<char>> {
    Set::new(
        |n: Seq<char>|
            exists|i: int|
                0 <= i < stmts.len() && (#[trigger] stmts[i] matches Stmt::Let { name, .. } && name@
                    == n),
    )
}

proof fn lemma_lets(stmts: Seq<Stmt>)
    ensures
        infer::lets_of(stmts) == let_names(stmts),
    decreases stmts.len(),
{
    if stmts.len() > 0 {
        let less = stmts.drop_last();
        lemma_lets(less);
        assert forall|n: Seq<char>| infer::lets_of(stmts).contains(n) == let_names(stmts).contains(
            n,
        ) by {
            if let_names(less).contains(n) {
                let i = choose|i: int|
                    0 <= i < less.len() && (#[trigger] less[i] matches Stmt::Let { name, .. }
                        && name@ == n);
                assert(stmts[i] matches Stmt::Let { name, .. } && name@ == n);
            }
            if stmts.last() matches Stmt::Let { name, .. } && name@ == n {
                assert(stmts[stmts.len() - 1] matches Stmt::Let { name, .. } && name@ == n);
            }
            if let_names(stmts).contains(n) {
                let i = choose|i: int|
                    0 <= i < stmts.len() && (#[trigger] stmts[i] matches Stmt::Let { name, .. }
                        && name@ == n);
                if i < less.len() {
                    assert(less[i] matches Stmt::Let { name, .. } && name@ == n);
                }
            }
        }
        assert(infer::lets_of(stmts) =~= let_names(stmts));
    } else {
        assert(infer::lets_of(stmts) =~= let_names(stmts));
    }
}

/// A `let` takes its name from there on, to the end of its block and in the
/// blocks below, and nowhere else: what stands behind some statements sees the
/// names that they bind, and they do not see what is bound behind them.
pub proof fn law_lets_take_from_there_on(a: Seq<Stmt>, b: Seq<Stmt>, taken: Set<Seq<char>>)
    ensures
        infer::returns_in(a + b, taken) == infer::returns_in(a, taken) + infer::returns_in(
            b,
            taken.union(let_names(a)),
        ),
    decreases b.len(),
{
    if b.len() == 0 {
        assert(a + b =~= a);
        assert(infer::returns_in(a, taken) + infer::returns_in(b, taken.union(let_names(a)))
            =~= infer::returns_in(a, taken));
    } else {
        let past = b.drop_last();
        let more = taken.union(let_names(a));
        law_lets_take_from_there_on(a, past, taken);
        assert((a + b).drop_last() =~= a + past);
        lemma_lets(a + past);
        lemma_lets(past);
        assert(taken.union(let_names(a + past)) =~= more.union(let_names(past))) by {
            assert forall|n: Seq<char>| let_names(a + past).contains(n) == (let_names(a).contains(n)
                || let_names(past).contains(n)) by {
                if let_names(a).contains(n) {
                    let i = choose|i: int|
                        0 <= i < a.len() && (#[trigger] a[i] matches Stmt::Let { name, .. }
                            && name@ == n);
                    assert((a + past)[i] matches Stmt::Let { name, .. } && name@ == n);
                }
                if let_names(past).contains(n) {
                    let i = choose|i: int|
                        0 <= i < past.len() && (#[trigger] past[i] matches Stmt::Let { name, .. }
                            && name@ == n);
                    assert((a + past)[a.len() + i] matches Stmt::Let { name, .. } && name@ == n);
                }
                if let_names(a + past).contains(n) {
                    let i = choose|i: int|
                        0 <= i < (a + past).len() && (#[trigger] (a + past)[i] matches Stmt::Let {
                            name,
                            ..
                        } && name@ == n);
                    if i < a.len() {
                        assert(a[i] matches Stmt::Let { name, .. } && name@ == n);
                    } else {
                        assert(past[i - a.len()] matches Stmt::Let { name, .. } && name@ == n);
                    }
                }
            }
        }
        assert(infer::returns_in(a + b, taken) =~= infer::returns_in(a, taken)
            + infer::returns_in(b, more));
    }
}

/// What one statement returns: the value of a `return`, and what the two
/// branches of an `if` return, each with the names that were taken before it.
pub proof fn law_one_statement_returns(s: Stmt, taken: Set<Seq<char>>)
    ensures
        s matches Stmt::Return { value: Some(e), .. } ==> infer::returns_in(seq![s], taken)
            == seq![Returned { value: e, taken }],
        s matches Stmt::If { then, els, .. } ==> infer::returns_in(seq![s], taken)
            == infer::returns_in(then.stmts@, taken) + (match els {
            Some(b) => infer::returns_in(b.stmts@, taken),
            None => Seq::empty(),
        }),
        !(s is If) && !(s is Return) ==> infer::returns_in(seq![s], taken).len() == 0,
        s matches Stmt::Return { value: None, .. } ==> infer::returns_in(seq![s], taken).len() == 0,
{
    let past = seq![s].drop_last();
    assert(past =~= Seq::<Stmt>::empty());
    assert(infer::returns_in(past, taken) =~= Seq::<Returned>::empty());
    assert(taken.union(infer::lets_of(past)) =~= taken);
    assert(infer::returns_in(seq![s], taken) =~= infer::returns_at(s, taken));
    reveal_with_fuel(infer::returns_below, 2);
    if let Stmt::If { then, els, .. } = s {
        assert(infer::returns_below(then, taken) == infer::returns_in(then.stmts@, taken));
        if let Some(b) = els {
            assert(infer::returns_below(b, taken) == infer::returns_in(b.stmts@, taken));
        }
    }
}

/// Some returned value is `e`.
pub open spec fn has_value(list: Seq<Returned>, e: Expr) -> bool {
    exists|k: int| 0 <= k < list.len() && (#[trigger] list[k]).value == e
}

proof fn lemma_has_concat(a: Seq<Returned>, b: Seq<Returned>, e: Expr)
    ensures
        has_value(a + b, e) <==> has_value(a, e) || has_value(b, e),
{
    if has_value(a, e) {
        let k = choose|k: int| 0 <= k < a.len() && (#[trigger] a[k]).value == e;
        assert((a + b)[k].value == e);
    }
    if has_value(b, e) {
        let k = choose|k: int| 0 <= k < b.len() && (#[trigger] b[k]).value == e;
        assert((a + b)[a.len() + k].value == e);
    }
    if has_value(a + b, e) {
        let k = choose|k: int| 0 <= k < (a + b).len() && (#[trigger] (a + b)[k]).value == e;
        if k < a.len() {
            assert(a[k].value == e);
        } else {
            assert(b[k - a.len()].value == e);
        }
    }
}

/// A statement that returns `e`.
pub open spec fn returns_value(s: Stmt, e: Expr) -> bool {
    s matches Stmt::Return { value, .. } && value == Some(e)
}

proof fn lemma_collected(stmts: Seq<Stmt>, taken: Set<Seq<char>>, e: Expr) -> (way: Seq<Stmt>)
    requires
        has_value(infer::returns_in(stmts, taken), e),
    ensures
        way.len() > 0,
        stmts.contains(way[0]),
        places::nests(way),
        returns_value(way.last(), e),
    decreases stmts,
{
    let past = stmts.drop_last();
    let seen = taken.union(infer::lets_of(past));
    lemma_has_concat(infer::returns_in(past, taken), infer::returns_at(stmts.last(), seen), e);
    if has_value(infer::returns_in(past, taken), e) {
        let way = lemma_collected(past, taken, e);
        let i = choose|i: int| 0 <= i < past.len() && past[i] == way[0];
        assert(stmts[i] == way[0]);
        way
    } else {
        assert(stmts[stmts.len() - 1] == stmts.last());
        lemma_collected_at(stmts.last(), seen, e)
    }
}

proof fn lemma_collected_at(s: Stmt, taken: Set<Seq<char>>, e: Expr) -> (way: Seq<Stmt>)
    requires
        has_value(infer::returns_at(s, taken), e),
    ensures
        way.len() > 0,
        way[0] == s,
        places::nests(way),
        returns_value(way.last(), e),
    decreases s,
{
    match s {
        Stmt::If { then, els, .. } => {
            let other = match els {
                Some(b) => infer::returns_below(b, taken),
                None => Seq::empty(),
            };
            lemma_has_concat(infer::returns_below(then, taken), other, e);
            let rest = if has_value(infer::returns_below(then, taken), e) {
                lemma_collected(then.stmts@, taken, e)
            } else {
                lemma_collected(els->Some_0.stmts@, taken, e)
            };
            let way = seq![s] + rest;
            assert(places::branch_of(rest[0], s));
            assert forall|i: int, j: int|
                #![trigger way[i], way[j]]
                0 <= i && j == i + 1 && j < way.len() implies places::branch_of(
                way[j],
                way[i],
            ) by {
                assert(way[j] == rest[i]);
                if i > 0 {
                    assert(way[i] == rest[i - 1]);
                    assert(places::branch_of(rest[i], rest[i - 1]));
                }
            }
            assert(way.last() == rest.last());
            way
        },
        _ => {
            let way = seq![s];
            assert(way.last() == s);
            way
        },
    }
}

proof fn lemma_member_collected(stmts: Seq<Stmt>, i: int, taken: Set<Seq<char>>, e: Expr)
    requires
        0 <= i < stmts.len(),
        forall|t: Set<Seq<char>>| has_value(#[trigger] infer::returns_at(stmts[i], t), e),
    ensures
        has_value(infer::returns_in(stmts, taken), e),
    decreases stmts.len(),
{
    let past = stmts.drop_last();
    let seen = taken.union(infer::lets_of(past));
    lemma_has_concat(infer::returns_in(past, taken), infer::returns_at(stmts.last(), seen), e);
    if i < past.len() {
        assert(past[i] == stmts[i]);
        lemma_member_collected(past, i, taken, e);
    }
}

proof fn lemma_way_collected(way: Seq<Stmt>, e: Expr, taken: Set<Seq<char>>)
    requires
        way.len() > 0,
        places::nests(way),
        returns_value(way.last(), e),
    ensures
        has_value(infer::returns_at(way[0], taken), e),
    decreases way.len(),
{
    if way.len() == 1 {
        let list = infer::returns_at(way[0], taken);
        assert(list[0].value == e);
    } else {
        let rest = way.skip(1);
        assert forall|i: int, j: int|
            #![trigger rest[i], rest[j]]
            0 <= i && j == i + 1 && j < rest.len() implies places::branch_of(rest[j], rest[i]) by {
            assert(rest[j] == way[j + 1] && rest[i] == way[i + 1]);
            assert(places::branch_of(way[j + 1], way[i + 1]));
        }
        assert(places::branch_of(way[1], way[0]));
        assert forall|t: Set<Seq<char>>| has_value(
            #[trigger] infer::returns_at(way[1], t),
            e,
        ) by {
            lemma_way_collected(rest, e, t);
        }
        if let Stmt::If { then, els, .. } = way[0] {
            let other = match els {
                Some(b) => infer::returns_below(b, taken),
                None => Seq::empty(),
            };
            lemma_has_concat(infer::returns_below(then, taken), other, e);
            if then.stmts@.contains(way[1]) {
                let i = choose|i: int| 0 <= i < then.stmts@.len() && then.stmts@[i] == way[1];
                lemma_member_collected(then.stmts@, i, taken, e);
            } else if let Some(b) = els {
                let i = choose|i: int| 0 <= i < b.stmts@.len() && b.stmts@[i] == way[1];
                lemma_member_collected(b.stmts@, i, taken, e);
            }
        }
    }
}

/// The returned values of a body are those of the `return`s that stand in it, on
/// whatever branch, and no others.
pub proof fn law_every_return_is_collected(body: Block, e: Expr)
    ensures
        has_value(infer::returns_of(body), e) <==> exists|s: Stmt| #[trigger]
            places::among(s, body.stmts@) && returns_value(s, e),
{
    let stmts = body.stmts@;
    let none = Set::<Seq<char>>::empty();
    if has_value(infer::returns_of(body), e) {
        let way = lemma_collected(stmts, none, e);
        assert(places::among(way.last(), stmts));
    }
    if exists|s: Stmt| #[trigger] places::among(s, stmts) && returns_value(s, e) {
        let s = choose|s: Stmt| #[trigger] places::among(s, stmts) && returns_value(s, e);
        let way = choose|way: Seq<Stmt>|
            way.len() > 0 && stmts.contains(way[0]) && way.last() == s && #[trigger] places::nests(
                way,
            );
        let i = choose|i: int| 0 <= i < stmts.len() && stmts[i] == way[0];
        assert forall|t: Set<Seq<char>>| has_value(
            #[trigger] infer::returns_at(stmts[i], t),
            e,
        ) by {
            lemma_way_collected(way, e, t);
        }
        lemma_member_collected(stmts, i, none, e);
    }
}

/// At the beginning of a body no `let` has taken a name.
pub proof fn law_nothing_is_taken_at_first(body: Block)
    ensures
        infer::returns_of(body) == infer::returns_in(body.stmts@, Set::<Seq<char>>::empty()),
{
}

// ----- the scope -----

/// A field access is of the type of that field of its receiver.
pub proof fn law_field_access_looks_up_the_field(
    recv: Box<Expr>,
    name: String,
    span: Span,
    sc: Scope,
)
    ensures
        infer::type_of(Expr::Field { recv, name, span }, sc) == infer::field_of(
            infer::type_of(*recv, sc),
            name@,
            sc.reg,
        ),
{
}

/// A field that a record does not have is of unknown type.
pub proof fn law_missing_fields_are_unknown(
    fields: Seq<(Seq<char>, TypeModel)>,
    n: Seq<char>,
    name: Seq<char>,
    reg: Records,
)
    requires
        forall|j: int| 0 <= j < fields.len() ==> (#[trigger] fields[j]).0 != name,
    ensures
        infer::field_of(TypeModel::Record(fields), name, reg) == TypeModel::Unknown,
        reg.dom().contains(n) && reg[n] == fields ==> infer::field_of(
            TypeModel::Named(n),
            name,
            reg,
        ) == TypeModel::Unknown,
{
    law_first_field_counts(fields, name, 0);
}

/// A module whose name a parameter or a `let` has taken is not called: such a
/// method is like any other.
pub proof fn law_taken_names_are_no_modules(
    m: String,
    at: Span,
    recv: Box<Expr>,
    name: String,
    args: Vec<Expr>,
    span: Span,
    sc: Scope,
)
    requires
        *recv == Expr::Ident(m, at),
        sc.bound.contains(m@) || sc.params.dom().contains(m@),
    ensures
        ({
            let got = infer::type_of(Expr::Method { recv, name, args, span }, sc);
            &&& name@ == "is_ok"@ || name@ == "is_err"@ ==> got == TypeModel::Bool
            &&& name@ != "is_ok"@ && name@ != "is_err"@ ==> got == TypeModel::Unknown
        }),
{
}

/// The scope of a body knows the parameters, the names taken, and all that the
/// program declares and the builtin modules offer.
pub proof fn law_scope_knows_the_program(
    params: Seq<Param>,
    taken: Set<Seq<char>>,
    sigs: Sigs,
    reg: Records,
    cx: Builtins,
    name: Seq<char>,
)
    ensures
        ({
            let sc = infer::scope_of(params, taken, sigs, reg, cx);
            &&& sc.sigs == sigs
            &&& sc.reg == reg
            &&& sc.builtins == cx
            &&& sc.bound == taken
            &&& sc.params.dom().contains(name) <==> has_param(params, name)
        }),
{
    law_last_parameter_counts(params, name, 0);
}

/// A call of what is no name is of unknown type.
pub proof fn law_other_calls_are_unknown(
    callee: Box<Expr>,
    args: Vec<Expr>,
    span: Span,
    sc: Scope,
)
    requires
        !(*callee is Ident),
    ensures
        infer::type_of(Expr::Call { callee, args, span }, sc) == TypeModel::Unknown,
{
}

} // verus!
