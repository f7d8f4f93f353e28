//! What a walk of a body meets: every expression that stands in it, and no other.
use crate::ast::{Block, Expr, Stmt};
use crate::builtins::{self, Builtins};
use crate::program::Sigs;
use crate::span::Span;
use crate::walk;
use vstd::prelude::*;

verus! {

// ----- where an expression stands -----

/// `x` is written directly in `e`.
pub open spec fn part_of(x: Expr, e: Expr) -> bool {
    match e {
        Expr::Method { recv, args, .. } => x == *recv || args@.contains(x),
        Expr::Call { callee, args, .. } => x == *callee || args@.contains(x),
        Expr::Field { recv, .. } => x == *recv,
        Expr::Try { expr, .. } => x == *expr,
        Expr::Unary { expr, .. } => x == *expr,
        Expr::Binary { lhs, rhs, .. } => x == *lhs || x == *rhs,
        Expr::MakeOk(inner, _) => x == *inner,
        Expr::MakeErr(inner, _) => x == *inner,
        Expr::Record { fields, .. } => exists|i: int|
            0 <= i < fields@.len() && (#[trigger] fields@[i]).1 == x,
        _ => false,
    }
}

/// Each expression is written directly in the one before it.
pub open spec fn descends(way: Seq<Expr>) -> bool {
    forall|i: int, j: int|
        #![trigger way[i], way[j]]
        0 <= i && j == i + 1 && j < way.len() ==> part_of(way[j], way[i])
}

/// `x` is `e`, or is written somewhere in it.
pub open spec fn stands_in(x: Expr, e: Expr) -> bool {
    exists|way: Seq<Expr>|
        way.len() > 0 && way[0] == e && way.last() == x && #[trigger] descends(way)
}

/// A statement is written directly in a branch of another.
pub open spec fn branch_of(s: Stmt, outer: Stmt) -> bool {
    match outer {
        Stmt::If { then, els, .. } => then.stmts@.contains(s) || match els {
            Some(b) => b.stmts@.contains(s),
            None => false,
        },
        _ => false,
    }
}

/// Each statement is written directly in a branch of the one before it.
pub open spec fn nests(way: Seq<Stmt>) -> bool {
    forall|i: int, j: int|
        #![trigger way[i], way[j]]
        0 <= i && j == i + 1 && j < way.len() ==> branch_of(way[j], way[i])
}

/// `s` is one of some statements, or is written in a branch below one.
pub open spec fn among(s: Stmt, stmts: Seq<Stmt>) -> bool {
    exists|way: Seq<Stmt>|
        way.len() > 0 && stmts.contains(way[0]) && way.last() == s && #[trigger] nests(way)
}

/// `e` is an expression that a statement is made of.
pub open spec fn made_of(s: Stmt, e: Expr) -> bool {
    match s {
        Stmt::Let { value, .. } => e == value,
        Stmt::Return { value, .. } => value == Some(e),
        Stmt::Ensure { cond, els, .. } => e == cond || els == Some(e),
        Stmt::If { cond, .. } => e == cond,
        Stmt::Expr(x) => e == x,
    }
}

/// `x` stands somewhere in a body.
pub open spec fn occurs(x: Expr, body: Block) -> bool {
    exists|s: Stmt, e: Expr|
        #[trigger] among(s, body.stmts@) && #[trigger] made_of(s, e) && stands_in(x, e)
}

// ----- expressions -----

proof fn lemma_concat<A>(a: Seq<A>, b: Seq<A>, x: A)
    ensures
        (a + b).contains(x) <==> a.contains(x) || b.contains(x),
{
    if a.contains(x) {
        let i = choose|i: int| 0 <= i < a.len() && a[i] == x;
        assert((a + b)[i] == x);
    }
    if b.contains(x) {
        let i = choose|i: int| 0 <= i < b.len() && b[i] == x;
        assert((a + b)[a.len() + i] == x);
    }
    if (a + b).contains(x) {
        let i = choose|i: int| 0 <= i < (a + b).len() && (a + b)[i] == x;
        if i < a.len() {
            assert(a[i] == x);
        } else {
            assert(b[i - a.len()] == x);
        }
    }
}

proof fn lemma_in_args(args: Seq<Expr>, x: Expr)
    ensures
        walk::nodes_of(args).contains(x) <==> exists|i: int|
            0 <= i < args.len() && walk::nodes(#[trigger] args[i]).contains(x),
    decreases args.len(),
{
    if args.len() > 0 {
        let less = args.drop_last();
        lemma_in_args(less, x);
        lemma_concat(walk::nodes_of(less), walk::nodes(args.last()), x);
        if walk::nodes_of(less).contains(x) {
            let i = choose|i: int|
                0 <= i < less.len() && walk::nodes(#[trigger] less[i]).contains(x);
            assert(walk::nodes(args[i]).contains(x));
        }
        if walk::nodes(args.last()).contains(x) {
            assert(walk::nodes(args[args.len() - 1]).contains(x));
        }
        if exists|i: int| 0 <= i < args.len() && walk::nodes(#[trigger] args[i]).contains(x) {
            let i = choose|i: int|
                0 <= i < args.len() && walk::nodes(#[trigger] args[i]).contains(x);
            if i < less.len() {
                assert(walk::nodes(less[i]).contains(x));
            }
        }
    }
}

proof fn lemma_in_fields(fields: Seq<(String, Expr)>, x: Expr)
    ensures
        walk::field_nodes(fields).contains(x) <==> exists|i: int|
            0 <= i < fields.len() && walk::nodes((#[trigger] fields[i]).1).contains(x),
    decreases fields.len(),
{
    if fields.len() > 0 {
        let less = fields.drop_last();
        lemma_in_fields(less, x);
        lemma_concat(walk::field_nodes(less), walk::nodes(fields.last().1), x);
        if walk::field_nodes(less).contains(x) {
            let i = choose|i: int|
                0 <= i < less.len() && walk::nodes((#[trigger] less[i]).1).contains(x);
            assert(walk::nodes(fields[i].1).contains(x));
        }
        if walk::nodes(fields.last().1).contains(x) {
            assert(walk::nodes(fields[fields.len() - 1].1).contains(x));
        }
        if exists|i: int|
            0 <= i < fields.len() && walk::nodes((#[trigger] fields[i]).1).contains(x) {
            let i = choose|i: int|
                0 <= i < fields.len() && walk::nodes((#[trigger] fields[i]).1).contains(x);
            if i < less.len() {
                assert(walk::nodes(less[i].1).contains(x));
            }
        }
    }
}

/// A part that `x` stands in, where `x` is below `e`.
proof fn lemma_below(e: Expr, x: Expr) -> (p: Expr)
    requires
        walk::nodes(e).contains(x),
        x != e,
    ensures
        part_of(p, e),
        walk::nodes(p).contains(x),
        decreases_to!(e => p),
{
    let rest = walk::nodes(e).skip(1);
    assert(walk::nodes(e) =~= seq![e] + rest);
    lemma_concat(seq![e], rest, x);
    assert(rest.contains(x));
    match e {
        Expr::Method { recv, args, .. } => {
            assert(rest =~= walk::nodes(*recv) + walk::nodes_of(args@));
            lemma_concat(walk::nodes(*recv), walk::nodes_of(args@), x);
            lemma_in_args(args@, x);
            if walk::nodes(*recv).contains(x) {
                *recv
            } else {
                let i = choose|i: int|
                    0 <= i < args@.len() && walk::nodes(#[trigger] args@[i]).contains(x);
                assert(decreases_to!(args => args@[i]));
                args@[i]
            }
        },
        Expr::Call { callee, args, .. } => {
            assert(rest =~= walk::nodes(*callee) + walk::nodes_of(args@));
            lemma_concat(walk::nodes(*callee), walk::nodes_of(args@), x);
            lemma_in_args(args@, x);
            if walk::nodes(*callee).contains(x) {
                *callee
            } else {
                let i = choose|i: int|
                    0 <= i < args@.len() && walk::nodes(#[trigger] args@[i]).contains(x);
                assert(decreases_to!(args => args@[i]));
                args@[i]
            }
        },
        Expr::Field { recv, .. } => {
            assert(rest =~= walk::nodes(*recv));
            *recv
        },
        Expr::Try { expr, .. } => {
            assert(rest =~= walk::nodes(*expr));
            *expr
        },
        Expr::Unary { expr, .. } => {
            assert(rest =~= walk::nodes(*expr));
            *expr
        },
        Expr::Binary { lhs, rhs, .. } => {
            assert(rest =~= walk::nodes(*lhs) + walk::nodes(*rhs));
            lemma_concat(walk::nodes(*lhs), walk::nodes(*rhs), x);
            if walk::nodes(*lhs).contains(x) {
                *lhs
            } else {
                *rhs
            }
        },
        Expr::MakeOk(inner, _) => {
            assert(rest =~= walk::nodes(*inner));
            *inner
        },
        Expr::MakeErr(inner, _) => {
            assert(rest =~= walk::nodes(*inner));
            *inner
        },
        Expr::Record { fields, .. } => {
            assert(rest =~= walk::field_nodes(fields@));
            lemma_in_fields(fields@, x);
            let i = choose|i: int|
                0 <= i < fields@.len() && walk::nodes((#[trigger] fields@[i]).1).contains(x);
            assert(decreases_to!(fields => fields@[i]));
            fields@[i].1
        },
        _ => {
            assert(rest =~= Seq::<Expr>::empty());
            e
        },
    }
}

proof fn lemma_part(p: Expr, e: Expr, x: Expr)
    requires
        part_of(p, e),
        walk::nodes(p).contains(x),
    ensures
        walk::nodes(e).contains(x),
{
    let rest = walk::nodes(e).skip(1);
    assert(walk::nodes(e) =~= seq![e] + rest);
    lemma_concat(seq![e], rest, x);
    match e {
        Expr::Method { recv, args, .. } => {
            assert(rest =~= walk::nodes(*recv) + walk::nodes_of(args@));
            lemma_concat(walk::nodes(*recv), walk::nodes_of(args@), x);
            lemma_in_args(args@, x);
            if p != *recv {
                let i = choose|i: int| 0 <= i < args@.len() && args@[i] == p;
                assert(walk::nodes(args@[i]).contains(x));
            }
        },
        Expr::Call { callee, args, .. } => {
            assert(rest =~= walk::nodes(*callee) + walk::nodes_of(args@));
            lemma_concat(walk::nodes(*callee), walk::nodes_of(args@), x);
            lemma_in_args(args@, x);
            if p != *callee {
                let i = choose|i: int| 0 <= i < args@.len() && args@[i] == p;
                assert(walk::nodes(args@[i]).contains(x));
            }
        },
        Expr::Field { recv, .. } => {
            assert(rest =~= walk::nodes(*recv));
        },
        Expr::Try { expr, .. } => {
            assert(rest =~= walk::nodes(*expr));
        },
        Expr::Unary { expr, .. } => {
            assert(rest =~= walk::nodes(*expr));
        },
        Expr::Binary { lhs, rhs, .. } => {
            assert(rest =~= walk::nodes(*lhs) + walk::nodes(*rhs));
            lemma_concat(walk::nodes(*lhs), walk::nodes(*rhs), x);
        },
        Expr::MakeOk(inner, _) => {
            assert(rest =~= walk::nodes(*inner));
        },
        Expr::MakeErr(inner, _) => {
            assert(rest =~= walk::nodes(*inner));
        },
        Expr::Record { fields, .. } => {
            assert(rest =~= walk::field_nodes(fields@));
            lemma_in_fields(fields@, x);
            let i = choose|i: int| 0 <= i < fields@.len() && (#[trigger] fields@[i]).1 == p;
            assert(walk::nodes(fields@[i].1).contains(x));
        },
        _ => {},
    }
}

proof fn lemma_met_stands(e: Expr, x: Expr)
    requires
        walk::nodes(e).contains(x),
    ensures
        stands_in(x, e),
    decreases e,
{
    if x == e {
        let way = seq![e];
        assert(descends(way));
        assert(way[0] == e && way.last() == x);
    } else {
        let p = lemma_below(e, x);
        lemma_met_stands(p, x);
        let rest = choose|way: Seq<Expr>|
            way.len() > 0 && way[0] == p && way.last() == x && #[trigger] descends(way);
        let way = seq![e] + rest;
        assert forall|i: int, j: int|
            #![trigger way[i], way[j]]
            0 <= i && j == i + 1 && j < way.len() implies part_of(way[j], way[i]) by {
            assert(way[j] == rest[i]);
            if i > 0 {
                assert(way[i] == rest[i - 1]);
                assert(part_of(rest[i], rest[i - 1]));
            }
        }
        assert(descends(way));
        assert(way[0] == e && way.last() == x);
    }
}

proof fn lemma_way_met(way: Seq<Expr>)
    requires
        way.len() > 0,
        descends(way),
    ensures
        walk::nodes(way[0]).contains(way.last()),
    decreases way.len(),
{
    if way.len() == 1 {
        assert(walk::nodes(way[0])[0] == way[0]);
    } else {
        let rest = way.skip(1);
        assert forall|i: int, j: int|
            #![trigger rest[i], rest[j]]
            0 <= i && j == i + 1 && j < rest.len() implies part_of(rest[j], rest[i]) by {
            assert(rest[j] == way[j + 1] && rest[i] == way[i + 1]);
            assert(part_of(way[j + 1], way[i + 1]));
        }
        lemma_way_met(rest);
        assert(part_of(way[1], way[0]));
        lemma_part(way[1], way[0], way.last());
    }
}

/// A walk of an expression meets it and everything that is written in it, at any
/// depth and at any place, and nothing else.
pub proof fn law_walk_meets_every_part(e: Expr, x: Expr)
    ensures
        walk::nodes(e).contains(x) <==> stands_in(x, e),
{
    if walk::nodes(e).contains(x) {
        lemma_met_stands(e, x);
    }
    if stands_in(x, e) {
        let way = choose|way: Seq<Expr>|
            way.len() > 0 && way[0] == e && way.last() == x && #[trigger] descends(way);
        lemma_way_met(way);
    }
}

// ----- statements -----

proof fn lemma_in_stmts(stmts: Seq<Stmt>, x: Expr)
    ensures
        walk::stmts_nodes(stmts).contains(x) <==> exists|i: int|
            0 <= i < stmts.len() && walk::stmt_nodes(#[trigger] stmts[i]).contains(x),
    decreases stmts.len(),
{
    if stmts.len() > 0 {
        let less = stmts.drop_last();
        lemma_in_stmts(less, x);
        lemma_concat(walk::stmts_nodes(less), walk::stmt_nodes(stmts.last()), x);
        if walk::stmts_nodes(less).contains(x) {
            let i = choose|i: int|
                0 <= i < less.len() && walk::stmt_nodes(#[trigger] less[i]).contains(x);
            assert(walk::stmt_nodes(stmts[i]).contains(x));
        }
        if walk::stmt_nodes(stmts.last()).contains(x) {
            assert(walk::stmt_nodes(stmts[stmts.len() - 1]).contains(x));
        }
        if exists|i: int| 0 <= i < stmts.len() && walk::stmt_nodes(#[trigger] stmts[i]).contains(x) {
            let i = choose|i: int|
                0 <= i < stmts.len() && walk::stmt_nodes(#[trigger] stmts[i]).contains(x);
            if i < less.len() {
                assert(walk::stmt_nodes(less[i]).contains(x));
            }
        }
    }
}

/// What is met in a statement is met in one of its own expressions or in a
/// statement of one of its branches.
proof fn lemma_in_stmt(s: Stmt, x: Expr)
    ensures
        walk::stmt_nodes(s).contains(x) <==> (exists|e: Expr| #[trigger]
            made_of(s, e) && walk::nodes(e).contains(x)) || (exists|t: Stmt| #[trigger]
            branch_of(t, s) && walk::stmt_nodes(t).contains(x)),
{
    match s {
        Stmt::Let { value, .. } => {
            assert(made_of(s, value));
        },
        Stmt::Return { value, .. } => {
            if let Some(e) = value {
                assert(made_of(s, e));
            }
        },
        Stmt::Ensure { cond, els, .. } => {
            lemma_concat(walk::nodes(cond), walk::opt_nodes(els), x);
            assert(made_of(s, cond));
            if let Some(e) = els {
                assert(made_of(s, e));
            }
        },
        Stmt::If { cond, then, els, .. } => {
            let other = match els {
                Some(b) => walk::block_nodes(b),
                None => Seq::empty(),
            };
            lemma_concat(walk::nodes(cond) + walk::block_nodes(then), other, x);
            lemma_concat(walk::nodes(cond), walk::block_nodes(then), x);
            lemma_in_stmts(then.stmts@, x);
            assert(made_of(s, cond));
            if walk::block_nodes(then).contains(x) {
                let i = choose|i: int|
                    0 <= i < then.stmts@.len() && walk::stmt_nodes(
                        #[trigger] then.stmts@[i],
                    ).contains(x);
                assert(branch_of(then.stmts@[i], s));
            }
            if let Some(b) = els {
                lemma_in_stmts(b.stmts@, x);
                if walk::block_nodes(b).contains(x) {
                    let i = choose|i: int|
                        0 <= i < b.stmts@.len() && walk::stmt_nodes(
                            #[trigger] b.stmts@[i],
                        ).contains(x);
                    assert(branch_of(b.stmts@[i], s));
                }
            }
            if exists|t: Stmt| #[trigger] branch_of(t, s) && walk::stmt_nodes(t).contains(x) {
                let t = choose|t: Stmt| #[trigger]
                    branch_of(t, s) && walk::stmt_nodes(t).contains(x);
                if then.stmts@.contains(t) {
                    let i = choose|i: int| 0 <= i < then.stmts@.len() && then.stmts@[i] == t;
                    assert(walk::stmt_nodes(then.stmts@[i]).contains(x));
                } else if let Some(b) = els {
                    let i = choose|i: int| 0 <= i < b.stmts@.len() && b.stmts@[i] == t;
                    assert(walk::stmt_nodes(b.stmts@[i]).contains(x));
                }
            }
        },
        Stmt::Expr(e) => {
            assert(made_of(s, e));
        },
    }
}

proof fn lemma_branch_is_less(t: Stmt, s: Stmt)
    requires
        branch_of(t, s),
    ensures
        decreases_to!(s => t),
{
    if let Stmt::If { then, els, .. } = s {
        if then.stmts@.contains(t) {
            let i = choose|i: int| 0 <= i < then.stmts@.len() && then.stmts@[i] == t;
            assert(decreases_to!(then.stmts => then.stmts@[i]));
        } else if let Some(b) = els {
            let i = choose|i: int| 0 <= i < b.stmts@.len() && b.stmts@[i] == t;
            assert(decreases_to!(b.stmts => b.stmts@[i]));
        }
    }
}

/// The statement in which something is met, and the way down to it.
proof fn lemma_met_made(s: Stmt, x: Expr) -> (way: Seq<Stmt>)
    requires
        walk::stmt_nodes(s).contains(x),
    ensures
        way.len() > 0,
        way[0] == s,
        nests(way),
        exists|e: Expr| #[trigger] made_of(way.last(), e) && walk::nodes(e).contains(x),
    decreases s,
{
    lemma_in_stmt(s, x);
    if exists|e: Expr| #[trigger] made_of(s, e) && walk::nodes(e).contains(x) {
        let way = seq![s];
        assert(way.last() == s);
        way
    } else {
        let t = choose|t: Stmt| #[trigger] branch_of(t, s) && walk::stmt_nodes(t).contains(x);
        lemma_branch_is_less(t, s);
        let rest = lemma_met_made(t, x);
        let way = seq![s] + rest;
        assert forall|i: int, j: int|
            #![trigger way[i], way[j]]
            0 <= i && j == i + 1 && j < way.len() implies branch_of(way[j], way[i]) by {
            assert(way[j] == rest[i]);
            if i > 0 {
                assert(way[i] == rest[i - 1]);
                assert(branch_of(rest[i], rest[i - 1]));
            }
        }
        assert(way.last() == rest.last());
        way
    }
}

proof fn lemma_nested_met(way: Seq<Stmt>, x: Expr)
    requires
        way.len() > 0,
        nests(way),
        walk::stmt_nodes(way.last()).contains(x),
    ensures
        walk::stmt_nodes(way[0]).contains(x),
    decreases way.len(),
{
    if way.len() > 1 {
        let rest = way.skip(1);
        assert forall|i: int, j: int|
            #![trigger rest[i], rest[j]]
            0 <= i && j == i + 1 && j < rest.len() implies branch_of(rest[j], rest[i]) by {
            assert(rest[j] == way[j + 1] && rest[i] == way[i + 1]);
            assert(branch_of(way[j + 1], way[i + 1]));
        }
        lemma_nested_met(rest, x);
        assert(branch_of(way[1], way[0]));
        lemma_in_stmt(way[0], x);
    }
}

/// A walk of a body meets every expression that stands in it: in any statement,
/// on any branch, in any argument, operand or field, at any depth; and it meets
/// nothing else.
pub proof fn law_walk_meets_everything(body: Block, x: Expr)
    ensures
        walk::block_nodes(body).contains(x) <==> occurs(x, body),
{
    let stmts = body.stmts@;
    lemma_in_stmts(stmts, x);
    if walk::block_nodes(body).contains(x) {
        let i = choose|i: int|
            0 <= i < stmts.len() && walk::stmt_nodes(#[trigger] stmts[i]).contains(x);
        let way = lemma_met_made(stmts[i], x);
        let e = choose|e: Expr| #[trigger]
            made_of(way.last(), e) && walk::nodes(e).contains(x);
        law_walk_meets_every_part(e, x);
        assert(stmts.contains(way[0]));
        assert(among(way.last(), stmts));
        assert(made_of(way.last(), e));
    }
    if occurs(x, body) {
        let (s, e) = choose|s: Stmt, e: Expr|
            #[trigger] among(s, stmts) && #[trigger] made_of(s, e) && stands_in(x, e);
        law_walk_meets_every_part(e, x);
        lemma_in_stmt(s, x);
        let way = choose|way: Seq<Stmt>|
            way.len() > 0 && stmts.contains(way[0]) && way.last() == s && #[trigger] nests(way);
        lemma_nested_met(way, x);
        let i = choose|i: int| 0 <= i < stmts.len() && stmts[i] == way[0];
        assert(walk::stmt_nodes(stmts[i]).contains(x));
    }
}

// ----- what a body does -----

/// `x` calls the builtin member at place `k` of the list: the first that the
/// list has for its module and name.
pub open spec fn calls_member(x: Expr, cx: Builtins, k: int) -> bool {
    &&& 0 <= k < cx.members@.len()
    &&& x matches Expr::Method { recv, name, .. } && (*recv matches Expr::Ident(m, _) && {
        &&& cx.members@[k].module@ == m@
        &&& cx.members@[k].name@ == name@
        &&& forall|j: int|
            0 <= j < k ==> !(#[trigger] cx.members@[j].module@ == m@ && cx.members@[j].name@
                == name@)
    })
}

/// `x` is a call `name(...)`.
pub open spec fn calls_name(x: Expr, name: Seq<char>) -> bool {
    x matches Expr::Call { callee, .. } && (*callee matches Expr::Ident(f, _) && f@ == name)
}

/// `x` is a call `module.member(...)`, whatever the member.
pub open spec fn calls_into(x: Expr, module: Seq<char>) -> bool {
    x matches Expr::Method { recv, .. } && (*recv matches Expr::Ident(m, _) && m@ == module)
}

/// `x` by itself performs an effect: it calls a builtin member that has it, or a
/// function that declares it.
pub open spec fn performs(x: Expr, effect: Seq<char>, sigs: Sigs, cx: Builtins) -> bool {
    ||| exists|k: int| #[trigger]
        calls_member(x, cx, k) && (cx.members@[k].effect matches Some(f) && f@ == effect)
    ||| exists|name: Seq<char>| #[trigger]
        calls_name(x, name) && sigs.dom().contains(name) && sigs[name].effects.contains(effect)
}

/// The entry that is found for a member is the first of its module and name.
pub proof fn law_first_entry_counts(
    members: Seq<builtins::Builtin>,
    module: Seq<char>,
    name: Seq<char>,
)
    ensures
        (builtins::first_member(members, module, name) matches Some(b) ==> exists|k: int|
            0 <= k < members.len() && (#[trigger] members[k])@ == b && members[k].module@ == module
                && members[k].name@ == name && forall|j: int|
                0 <= j < k ==> !(#[trigger] members[j].module@ == module && members[j].name@
                    == name)),
        builtins::first_member(members, module, name) is None <==> forall|j: int|
            0 <= j < members.len() ==> !(#[trigger] members[j].module@ == module
                && members[j].name@ == name),
    decreases members.len(),
{
    if members.len() > 0 {
        let less = members.drop_last();
        law_first_entry_counts(less, module, name);
        if let Some(b) = builtins::first_member(less, module, name) {
            let k = choose|k: int|
                0 <= k < less.len() && (#[trigger] less[k])@ == b && less[k].module@ == module
                    && less[k].name@ == name && forall|j: int|
                    0 <= j < k ==> !(#[trigger] less[j].module@ == module && less[j].name@ == name);
            assert(members[k] == less[k]);
            assert forall|j: int| 0 <= j < k implies !(#[trigger] members[j].module@ == module
                && members[j].name@ == name) by {
                assert(less[j] == members[j]);
            }
        } else {
            assert forall|j: int| 0 <= j < less.len() implies !(#[trigger] members[j].module@
                == module && members[j].name@ == name) by {
                assert(less[j] == members[j]);
            }
            let k = members.len() - 1;
            assert(members[k] == members.last());
        }
    }
}

proof fn lemma_own_effect(x: Expr, effect: Seq<char>, sigs: Sigs, cx: Builtins)
    ensures
        walk::own_effects(x, sigs, cx).contains(effect) <==> performs(x, effect, sigs, cx),
{
    match x {
        Expr::Method { recv, name, .. } => {
            if let Expr::Ident(m, _) = *recv {
                law_first_entry_counts(cx.members@, m@, name@);
                if let Some(b) = cx.member(m@, name@) {
                    let k = choose|k: int|
                        0 <= k < cx.members@.len() && (#[trigger] cx.members@[k])@ == b
                            && cx.members@[k].module@ == m@ && cx.members@[k].name@ == name@
                            && forall|j: int|
                            0 <= j < k ==> !(#[trigger] cx.members@[j].module@ == m@
                                && cx.members@[j].name@ == name@);
                    assert(calls_member(x, cx, k));
                    assert(cx.has_module(m@));
                    if exists|q: int| #[trigger]
                        calls_member(x, cx, q) && (cx.members@[q].effect matches Some(f) && f@
                            == effect) {
                        let q = choose|q: int| #[trigger]
                            calls_member(x, cx, q) && (cx.members@[q].effect matches Some(f) && f@
                                == effect);
                        assert(q == k) by {
                            if q < k {
                                assert(cx.members@[q].module@ == m@);
                            } else if k < q {
                                assert(cx.members@[k].module@ == m@);
                            }
                        }
                    }
                } else if exists|q: int| #[trigger] calls_member(x, cx, q) {
                    let q = choose|q: int| #[trigger] calls_member(x, cx, q);
                    assert(cx.members@[q].module@ == m@);
                }
            }
        },
        Expr::Call { callee, .. } => {
            if let Expr::Ident(f, _) = *callee {
                assert(calls_name(x, f@));
            }
        },
        _ => {},
    }
}

/// A body performs an effect iff some expression that stands in it does: by a
/// builtin member that has the effect, or by a function that declares it.
pub proof fn law_effects_come_from_the_body(
    body: Block,
    effect: Seq<char>,
    sigs: Sigs,
    cx: Builtins,
)
    ensures
        walk::effects_in(walk::block_nodes(body), sigs, cx).contains(effect) <==> exists|x: Expr|
            #[trigger] occurs(x, body) && performs(x, effect, sigs, cx),
{
    let list = walk::block_nodes(body);
    if walk::effects_in(list, sigs, cx).contains(effect) {
        let k = choose|k: int|
            0 <= k < list.len() && #[trigger] walk::own_effects(list[k], sigs, cx).contains(effect);
        lemma_own_effect(list[k], effect, sigs, cx);
        assert(list.contains(list[k]));
        law_walk_meets_everything(body, list[k]);
    }
    if exists|x: Expr| #[trigger] occurs(x, body) && performs(x, effect, sigs, cx) {
        let x = choose|x: Expr| #[trigger] occurs(x, body) && performs(x, effect, sigs, cx);
        law_walk_meets_everything(body, x);
        lemma_own_effect(x, effect, sigs, cx);
        let k = choose|k: int| 0 <= k < list.len() && list[k] == x;
        assert(walk::own_effects(list[k], sigs, cx).contains(effect));
    }
}

/// The called names of a body are those of the calls `name(...)` that stand in
/// it, wherever they stand.
pub proof fn law_called_names_come_from_the_body(body: Block, name: Seq<char>)
    ensures
        walk::calls_in(walk::block_nodes(body)).contains(name) <==> exists|x: Expr| #[trigger]
            occurs(x, body) && calls_name(x, name),
{
    let list = walk::block_nodes(body);
    if walk::calls_in(list).contains(name) {
        let k = choose|k: int|
            0 <= k < list.len() && #[trigger] walk::own_call(list[k]) == Some(name);
        assert(list.contains(list[k]));
        law_walk_meets_everything(body, list[k]);
        assert(calls_name(list[k], name));
    }
    if exists|x: Expr| #[trigger] occurs(x, body) && calls_name(x, name) {
        let x = choose|x: Expr| #[trigger] occurs(x, body) && calls_name(x, name);
        law_walk_meets_everything(body, x);
        let k = choose|k: int| 0 <= k < list.len() && list[k] == x;
        assert(walk::own_call(list[k]) == Some(name));
    }
}

// ----- the uses of modules -----

/// A name is that of a builtin module.
pub open spec fn on_offer(cx: Builtins, module: Seq<char>) -> bool {
    exists|k: int| 0 <= k < cx.members@.len() && (#[trigger] cx.members@[k]).module@ == module
}

/// The module is used by an expression of a list, at this place, and by none
/// before it.
pub open spec fn used_first(
    list: Seq<Expr>,
    module: Seq<char>,
    span: Span,
    cx: Builtins,
    k: int,
) -> bool {
    &&& 0 <= k < list.len()
    &&& on_offer(cx, module)
    &&& calls_into(list[k], module)
    &&& list[k].place() == span
    &&& forall|j: int| 0 <= j < k ==> !calls_into(#[trigger] list[j], module)
}

/// The use of a module that counts is the first one; a module is listed iff it
/// is on offer and some expression calls into it.
pub proof fn law_first_use_counts(list: Seq<Expr>, module: Seq<char>, cx: Builtins)
    ensures
        walk::first_uses(list, cx).dom().contains(module) <==> on_offer(cx, module) && exists|k: int|
            0 <= k < list.len() && calls_into(#[trigger] list[k], module),
        walk::first_uses(list, cx).dom().contains(module) ==> exists|k: int| #[trigger]
            used_first(list, module, walk::first_uses(list, cx)[module], cx, k),
    decreases list.len(),
{
    if list.len() > 0 {
        let less = list.drop_last();
        law_first_use_counts(less, module, cx);
        assert(on_offer(cx, module) <==> cx.has_module(module)) by {
            if on_offer(cx, module) {
                let k = choose|k: int|
                    0 <= k < cx.members@.len() && (#[trigger] cx.members@[k]).module@ == module;
                assert(cx.members@[k].module@ == module);
            }
        }
        let span = walk::first_uses(list, cx)[module];
        let q = list.len() - 1;
        if walk::first_uses(less, cx).dom().contains(module) {
            let k = choose|k: int| #[trigger] used_first(less, module, span, cx, k);
            assert forall|j: int| 0 <= j < k implies !calls_into(#[trigger] list[j], module) by {
                assert(less[j] == list[j]);
            }
            assert(list[k] == less[k]);
            assert(used_first(list, module, span, cx, k));
        } else if walk::first_uses(list, cx).dom().contains(module) {
            assert forall|j: int| 0 <= j < q implies !calls_into(#[trigger] list[j], module) by {
                assert(less[j] == list[j]);
            }
            assert(used_first(list, module, span, cx, q));
        } else if on_offer(cx, module) {
            assert forall|j: int| 0 <= j < list.len() implies !calls_into(
                #[trigger] list[j],
                module,
            ) by {
                if j < q {
                    assert(less[j] == list[j]);
                }
            }
        }
    }
}

/// A body uses a module iff the module is on offer and some expression that
/// stands in the body calls into it.
pub proof fn law_uses_come_from_the_body(body: Block, module: Seq<char>, cx: Builtins)
    ensures
        walk::first_uses(walk::block_nodes(body), cx).dom().contains(module) <==> on_offer(
            cx,
            module,
        ) && exists|x: Expr| #[trigger] occurs(x, body) && calls_into(x, module),
{
    let list = walk::block_nodes(body);
    law_first_use_counts(list, module, cx);
    if exists|k: int| 0 <= k < list.len() && calls_into(#[trigger] list[k], module) {
        let k = choose|k: int| 0 <= k < list.len() && calls_into(#[trigger] list[k], module);
        assert(list.contains(list[k]));
        law_walk_meets_everything(body, list[k]);
    }
    if exists|x: Expr| #[trigger] occurs(x, body) && calls_into(x, module) {
        let x = choose|x: Expr| #[trigger] occurs(x, body) && calls_into(x, module);
        law_walk_meets_everything(body, x);
        let k = choose|k: int| 0 <= k < list.len() && list[k] == x;
        assert(calls_into(list[k], module));
    }
}

// ----- the order of a walk -----

/// What stands before in a body is met before: a walk of some statements and
/// then others meets first all of the former and then all of the latter.
pub proof fn law_statements_are_met_in_order(a: Seq<Stmt>, b: Seq<Stmt>)
    ensures
        walk::stmts_nodes(a + b) == walk::stmts_nodes(a) + walk::stmts_nodes(b),
    decreases b.len(),
{
    if b.len() == 0 {
        assert(a + b =~= a);
        assert(walk::stmts_nodes(a) + walk::stmts_nodes(b) =~= walk::stmts_nodes(a));
    } else {
        assert((a + b).drop_last() =~= a + b.drop_last());
        law_statements_are_met_in_order(a, b.drop_last());
        assert(walk::stmts_nodes(a + b) =~= walk::stmts_nodes(a) + walk::stmts_nodes(b));
    }
}

/// Arguments are met in order.
pub proof fn law_arguments_are_met_in_order(a: Seq<Expr>, b: Seq<Expr>)
    ensures
        walk::nodes_of(a + b) == walk::nodes_of(a) + walk::nodes_of(b),
    decreases b.len(),
{
    if b.len() == 0 {
        assert(a + b =~= a);
        assert(walk::nodes_of(a) + walk::nodes_of(b) =~= walk::nodes_of(a));
    } else {
        assert((a + b).drop_last() =~= a + b.drop_last());
        law_arguments_are_met_in_order(a, b.drop_last());
        assert(walk::nodes_of(a + b) =~= walk::nodes_of(a) + walk::nodes_of(b));
    }
}

/// An expression is met before what is written in it, and an operand, a receiver
/// or a callee before what is written to its right.
pub proof fn law_outer_and_left_come_first(e: Expr)
    ensures
        walk::nodes(e).len() > 0 && walk::nodes(e)[0] == e,
        e matches Expr::Binary { lhs, rhs, .. } ==> walk::nodes(e) == seq![e] + walk::nodes(*lhs)
            + walk::nodes(*rhs),
        e matches Expr::Method { recv, args, .. } ==> walk::nodes(e) == seq![e] + walk::nodes(
            *recv,
        ) + walk::nodes_of(args@),
        e matches Expr::Call { callee, args, .. } ==> walk::nodes(e) == seq![e] + walk::nodes(
            *callee,
        ) + walk::nodes_of(args@),
{
    match e {
        Expr::Binary { lhs, rhs, .. } => {
            assert(walk::nodes(e) =~= seq![e] + walk::nodes(*lhs) + walk::nodes(*rhs));
        },
        Expr::Method { recv, args, .. } => {
            assert(walk::nodes(e) =~= seq![e] + walk::nodes(*recv) + walk::nodes_of(args@));
        },
        Expr::Call { callee, args, .. } => {
            assert(walk::nodes(e) =~= seq![e] + walk::nodes(*callee) + walk::nodes_of(args@));
        },
        _ => {},
    }
}

/// A walk adds to what was met before: no effect is lost, and a module that was
/// used before keeps the place of its first use.
pub proof fn law_walk_adds_to_what_was_met(
    t: walk::Tally,
    list: Seq<Expr>,
    sigs: Sigs,
    cx: Builtins,
)
    ensures
        ({
            let after = walk::after(t, list, sigs, cx);
            let own = walk::first_uses(list, cx);
            &&& after.effects == t.effects.union(walk::effects_in(list, sigs, cx))
            &&& after.uses == own.union_prefer_right(t.uses)
        }),
    decreases list.len(),
{
    let after = walk::after(t, list, sigs, cx);
    let own = walk::first_uses(list, cx);
    if list.len() == 0 {
        assert(after.effects =~= t.effects.union(walk::effects_in(list, sigs, cx)));
        assert(after.uses =~= own.union_prefer_right(t.uses));
    } else {
        let less = list.drop_last();
        law_walk_adds_to_what_was_met(t, less, sigs, cx);
        assert forall|f: Seq<char>| after.effects.contains(f) == t.effects.union(
            walk::effects_in(list, sigs, cx),
        ).contains(f) by {
            if walk::effects_in(less, sigs, cx).contains(f) {
                let k = choose|k: int|
                    0 <= k < less.len() && #[trigger] walk::own_effects(less[k], sigs, cx).contains(
                        f,
                    );
                assert(walk::own_effects(list[k], sigs, cx).contains(f));
            }
            if walk::own_effects(list.last(), sigs, cx).contains(f) {
                assert(walk::own_effects(list[list.len() - 1], sigs, cx).contains(f));
            }
            if walk::effects_in(list, sigs, cx).contains(f) {
                let k = choose|k: int|
                    0 <= k < list.len() && #[trigger] walk::own_effects(list[k], sigs, cx).contains(
                        f,
                    );
                if k < less.len() {
                    assert(walk::own_effects(less[k], sigs, cx).contains(f));
                }
            }
        }
        assert(after.effects =~= t.effects.union(walk::effects_in(list, sigs, cx)));
        assert(after.uses =~= own.union_prefer_right(t.uses));
    }
}

} // verus!
