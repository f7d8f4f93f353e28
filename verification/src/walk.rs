//! Walking a body: the expressions in it, and what they use.
pub mod laws;
use crate::ast::{Block, Expr, Stmt};
use crate::builtins::Builtins;
use crate::names::NameSet;
use crate::program::{Signatures, Sigs};
use crate::span::Span;
use vstd::prelude::*;

verus! {

// ----- the expressions of a body, in the order in which they are met -----

/// An expression and everything below it, each before its parts.
pub open spec fn nodes(e: Expr) -> Seq<Expr>
    decreases e,
{
    seq![e] + match e {
        Expr::Method { recv, args, .. } => nodes(*recv) + nodes_of(args@),
        Expr::Call { callee, args, .. } => nodes(*callee) + nodes_of(args@),
        Expr::Field { recv, .. } => nodes(*recv),
        Expr::Try { expr, .. } => nodes(*expr),
        Expr::Unary { expr, .. } => nodes(*expr),
        Expr::Binary { lhs, rhs, .. } => nodes(*lhs) + nodes(*rhs),
        Expr::MakeOk(inner, _) => nodes(*inner),
        Expr::MakeErr(inner, _) => nodes(*inner),
        Expr::Record { fields, .. } => field_nodes(fields@),
        _ => Seq::empty(),
    }
}

/// The expressions of a list of arguments.
pub open spec fn nodes_of(args: Seq<Expr>) -> Seq<Expr>
    decreases args,
{
    if args.len() == 0 {
        Seq::empty()
    } else {
        nodes_of(args.drop_last()) + nodes(args.last())
    }
}

/// The expressions in the fields of a record.
pub open spec fn field_nodes(fields: Seq<(String, Expr)>) -> Seq<Expr>
    decreases fields,
{
    if fields.len() == 0 {
        Seq::empty()
    } else {
        field_nodes(fields.drop_last()) + nodes(fields.last().1)
    }
}

/// The expressions of an optional expression.
pub open spec fn opt_nodes(e: Option<Expr>) -> Seq<Expr> {
    match e {
        Some(x) => nodes(x),
        None => Seq::empty(),
    }
}

/// The expressions of a statement.
pub open spec fn stmt_nodes(s: Stmt) -> Seq<Expr>
    decreases s,
{
    match s {
        Stmt::Let { value, .. } => nodes(value),
        Stmt::Return { value, .. } => opt_nodes(value),
        Stmt::Ensure { cond, els, .. } => nodes(cond) + opt_nodes(els),
        Stmt::If { cond, then, els, .. } => nodes(cond) + block_nodes(then) + match els {
            Some(b) => block_nodes(b),
            None => Seq::empty(),
        },
        Stmt::Expr(e) => nodes(e),
    }
}

/// The expressions of a block.
pub open spec fn block_nodes(b: Block) -> Seq<Expr>
    decreases b,
{
    stmts_nodes(b.stmts@)
}

/// The expressions of a list of statements.
pub open spec fn stmts_nodes(stmts: Seq<Stmt>) -> Seq<Expr>
    decreases stmts,
{
    if stmts.len() == 0 {
        Seq::empty()
    } else {
        stmts_nodes(stmts.drop_last()) + stmt_nodes(stmts.last())
    }
}

// ----- what an expression uses by itself -----

/// The effects that one expression performs, apart from its parts: those of the
/// builtin member that it calls, or those that the called function declares.
pub open spec fn own_effects(e: Expr, sigs: Sigs, cx: Builtins) -> Set<Seq<char>> {
    match e {
        Expr::Method { recv, name, .. } => match *recv {
            Expr::Ident(m, _) => if cx.has_module(m@) {
                match cx.member(m@, name@) {
                    Some(b) => match b.effect {
                        Some(f) => Set::empty().insert(f),
                        None => Set::empty(),
                    },
                    None => Set::empty(),
                }
            } else {
                Set::empty()
            },
            _ => Set::empty(),
        },
        Expr::Call { callee, .. } => match *callee {
            Expr::Ident(f, _) => if sigs.dom().contains(f@) {
                sigs[f@].effects
            } else {
                Set::empty()
            },
            _ => Set::empty(),
        },
        _ => Set::empty(),
    }
}

/// The builtin module that one expression calls into, and where.
pub open spec fn own_site(e: Expr, cx: Builtins) -> Option<(Seq<char>, Span)> {
    match e {
        Expr::Method { recv, span, .. } => match *recv {
            Expr::Ident(m, _) => if cx.has_module(m@) {
                Some((m@, span))
            } else {
                None
            },
            _ => None,
        },
        _ => None,
    }
}

/// The name that one expression calls as a function.
pub open spec fn own_call(e: Expr) -> Option<Seq<char>> {
    match e {
        Expr::Call { callee, .. } => match *callee {
            Expr::Ident(f, _) => Some(f@),
            _ => None,
        },
        _ => None,
    }
}

// ----- what a list of expressions uses -----

/// The effects that some expression of a list performs.
pub open spec fn effects_in(list: Seq<Expr>, sigs: Sigs, cx: Builtins) -> Set<Seq<char>> {
    Set::new(
        |f: Seq<char>|
            exists|k: int|
                0 <= k < list.len() && #[trigger] own_effects(list[k], sigs, cx).contains(f),
    )
}

/// The builtin modules that a list of expressions calls into, each with the
/// place of its first use.
pub open spec fn first_uses(list: Seq<Expr>, cx: Builtins) -> Map<Seq<char>, Span>
    decreases list.len(),
{
    if list.len() == 0 {
        Map::empty()
    } else {
        with_use(first_uses(list.drop_last(), cx), list.last(), cx)
    }
}

/// The first uses, once one more expression is met.
pub open spec fn with_use(uses: Map<Seq<char>, Span>, e: Expr, cx: Builtins) -> Map<
    Seq<char>,
    Span,
> {
    match own_site(e, cx) {
        Some((m, span)) => if uses.dom().contains(m) {
            uses
        } else {
            uses.insert(m, span)
        },
        None => uses,
    }
}

/// The names that some expression of a list calls as functions.
pub open spec fn calls_in(list: Seq<Expr>) -> Set<Seq<char>> {
    Set::new(
        |f: Seq<char>|
            exists|k: int| 0 <= k < list.len() && #[trigger] own_call(list[k]) == Some(f),
    )
}

// ----- the walker -----

/// What has been met so far.
pub struct Tally {
    pub effects: Set<Seq<char>>,
    pub uses: Map<Seq<char>, Span>,
}

/// What has been met once a list of expressions is passed.
pub open spec fn after(t: Tally, list: Seq<Expr>, sigs: Sigs, cx: Builtins) -> Tally
    decreases list.len(),
{
    if list.len() == 0 {
        t
    } else {
        let u = after(t, list.drop_last(), sigs, cx);
        Tally {
            effects: u.effects.union(own_effects(list.last(), sigs, cx)),
            uses: with_use(u.uses, list.last(), cx),
        }
    }
}

/// Passing two lists is passing one after the other.
pub proof fn lemma_after_concat(t: Tally, a: Seq<Expr>, b: Seq<Expr>, sigs: Sigs, cx: Builtins)
    ensures
        after(t, a + b, sigs, cx) == after(after(t, a, sigs, cx), b, sigs, cx),
    decreases b.len(),
{
    if b.len() == 0 {
        assert(a + b =~= a);
    } else {
        assert((a + b).drop_last() =~= a + b.drop_last());
        lemma_after_concat(t, a, b.drop_last(), sigs, cx);
    }
}

/// Starting from nothing, the tally holds the effects and first uses of the list.
pub proof fn lemma_after_all(t: Tally, list: Seq<Expr>, sigs: Sigs, cx: Builtins)
    requires
        t.effects == Set::<Seq<char>>::empty(),
        t.uses == Map::<Seq<char>, Span>::empty(),
    ensures
        after(t, list, sigs, cx).effects == effects_in(list, sigs, cx),
        after(t, list, sigs, cx).uses == first_uses(list, cx),
    decreases list.len(),
{
    if list.len() == 0 {
        assert(effects_in(list, sigs, cx) =~= Set::<Seq<char>>::empty());
    } else {
        let rest = list.drop_last();
        lemma_after_all(t, rest, sigs, cx);
        assert forall|f: Seq<char>|
            after(t, list, sigs, cx).effects.contains(f) == effects_in(list, sigs, cx).contains(
                f,
            ) by {
            if effects_in(rest, sigs, cx).contains(f) {
                let k = choose|k: int|
                    0 <= k < rest.len() && #[trigger] own_effects(rest[k], sigs, cx).contains(f);
                assert(own_effects(list[k], sigs, cx).contains(f));
            }
            if own_effects(list.last(), sigs, cx).contains(f) {
                assert(own_effects(list[list.len() - 1], sigs, cx).contains(f));
            }
            if effects_in(list, sigs, cx).contains(f) {
                let k = choose|k: int|
                    0 <= k < list.len() && #[trigger] own_effects(list[k], sigs, cx).contains(f);
                if k < rest.len() {
                    assert(own_effects(rest[k], sigs, cx).contains(f));
                }
            }
        }
        assert(after(t, list, sigs, cx).effects =~= effects_in(list, sigs, cx));
    }
}

spec fn entries_map(entries: Seq<(String, Span)>) -> Map<Seq<char>, Span>
    decreases entries.len(),
{
    if entries.len() == 0 {
        Map::empty()
    } else {
        entries_map(entries.drop_last()).insert(entries.last().0@, entries.last().1)
    }
}

/// The first use of each builtin module.
#[derive(Debug)]
pub struct ModuleUses {
    entries: Vec<(String, Span)>,
}

impl View for ModuleUses {
    type V = Map<Seq<char>, Span>;

    closed spec fn view(&self) -> Map<Seq<char>, Span> {
        entries_map(self.entries@)
    }
}

impl ModuleUses {
    /// No uses.
    pub fn new() -> (r: ModuleUses)
        ensures
            r@ == Map::<Seq<char>, Span>::empty(),
    {
        ModuleUses { entries: Vec::new() }
    }

    /// Where a module is used first.
    pub fn get(&self, module: &String) -> (r: Option<Span>)
        ensures
            r == (if self@.dom().contains(module@) {
                Some(self@[module@])
            } else {
                None
            }),
    {
        let n: usize = self.entries.len();
        let mut i: usize = n;
        assert(self.entries@.take(n as int) =~= self.entries@);
        while i > 0
            invariant
                n == self.entries.len(),
                i <= n,
                entries_map(self.entries@.take(i as int)).dom().contains(module@)
                    == self@.dom().contains(module@),
                self@.dom().contains(module@) ==> entries_map(
                    self.entries@.take(i as int),
                )[module@] == self@[module@],
            decreases i,
        {
            assert(self.entries@.take(i as int).drop_last() =~= self.entries@.take(i - 1));
            if self.entries[i - 1].0 == *module {
                return Some(self.entries[i - 1].1);
            }
            i = i - 1;
        }
        None
    }

    /// Notes a use, unless the module was used before.
    pub fn note(&mut self, module: &String, span: Span)
        ensures
            final(self)@ == (if old(self)@.dom().contains(module@) {
                old(self)@
            } else {
                old(self)@.insert(module@, span)
            }),
    {
        if self.get(module).is_none() {
            let ghost was = self.entries@;
            self.entries.push((module.clone(), span));
            assert(self.entries@.drop_last() =~= was);
        }
    }

    /// The modules that are used but not on a list.
    pub fn missing_from(&self, listed: &Vec<String>) -> (r: NameSet)
        ensures
            r.wf(),
            r@ == self@.dom().difference(crate::text::texts(listed@).to_set()),
    {
        let mut out: NameSet = NameSet::new();
        let n: usize = self.entries.len();
        let mut i: usize = 0;
        let ghost have = crate::text::texts(listed@).to_set();
        assert(out@ =~= entries_map(self.entries@.take(0)).dom().difference(have));
        while i < n
            invariant
                n == self.entries.len(),
                i <= n,
                have == crate::text::texts(listed@).to_set(),
                out.wf(),
                out@ == entries_map(self.entries@.take(i as int)).dom().difference(have),
            decreases n - i,
        {
            assert(self.entries@.take(i + 1).drop_last() =~= self.entries@.take(i as int));
            if !crate::text::has_text(listed, &self.entries[i].0) {
                out.insert(&self.entries[i].0);
            }
            assert(out@ =~= entries_map(self.entries@.take(i + 1)).dom().difference(have));
            i = i + 1;
        }
        assert(self.entries@.take(n as int) =~= self.entries@);
        out
    }
}

/// What a body does, gathered by walking it.
#[derive(Debug)]
pub struct Usage {
    /// The first use of each builtin module.
    pub module_uses: ModuleUses,
    /// The effects that the body performs.
    pub effects: NameSet,
}

impl Usage {
    /// What has been met.
    pub open spec fn tally(self) -> Tally {
        Tally { effects: self.effects@, uses: self.module_uses@ }
    }

    /// The set of effects is in order.
    pub open spec fn wf(self) -> bool {
        self.effects.wf()
    }

    /// Nothing met yet.
    pub fn new() -> (r: Usage)
        ensures
            r.wf(),
            r.effects@ == Set::<Seq<char>>::empty(),
            r.module_uses@ == Map::<Seq<char>, Span>::empty(),
    {
        Usage { module_uses: ModuleUses::new(), effects: NameSet::new() }
    }
}

/// Notes what one expression uses by itself.
fn note_own(e: &Expr, sigs: &Signatures, cx: &Builtins, u: &mut Usage)
    requires
        sigs.wf(),
        old(u).wf(),
    ensures
        final(u).wf(),
        final(u).tally() == after(old(u).tally(), seq![*e], sigs@, *cx),
{
    let ghost t = u.tally();
    proof {
        assert(seq![*e].drop_last() =~= Seq::<Expr>::empty());
        assert(after(t, seq![*e].drop_last(), sigs@, *cx) == t);
    }
    match e {
        Expr::Method { recv, name, span, .. } => {
            if let Expr::Ident(m, _) = &**recv {
                if cx.is_module(m) {
                    u.module_uses.note(m, *span);
                    if let Some(b) = cx.module_member(m, name) {
                        if let Some(f) = &b.effect {
                            u.effects.insert(f);
                        }
                    }
                }
            }
        },
        Expr::Call { callee, .. } => {
            if let Expr::Ident(f, _) = &**callee {
                if let Some(sig) = sigs.get(f) {
                    u.effects.extend(&sig.effects);
                }
            }
        },
        _ => {},
    }
    proof {
        assert(u.effects@ =~= t.effects.union(own_effects(*e, sigs@, *cx)));
        assert(u.module_uses@ == with_use(t.uses, *e, *cx));
    }
}

/// Walks an expression.
pub fn walk_expr(e: &Expr, sigs: &Signatures, cx: &Builtins, u: &mut Usage)
    requires
        sigs.wf(),
        old(u).wf(),
    ensures
        final(u).wf(),
        final(u).tally() == after(old(u).tally(), nodes(*e), sigs@, *cx),
    decreases e,
{
    let ghost t = u.tally();
    note_own(e, sigs, cx, u);
    let ghost own = seq![*e];
    match e {
        Expr::Method { recv, args, .. } => {
            walk_expr(recv, sigs, cx, u);
            walk_exprs(args, sigs, cx, u);
            proof {
                lemma_after_concat(t, own, nodes(**recv), sigs@, *cx);
                lemma_after_concat(t, own + nodes(**recv), nodes_of(args@), sigs@, *cx);
                assert(nodes(*e) =~= own + nodes(**recv) + nodes_of(args@));
            }
        },
        Expr::Call { callee, args, .. } => {
            walk_expr(callee, sigs, cx, u);
            walk_exprs(args, sigs, cx, u);
            proof {
                lemma_after_concat(t, own, nodes(**callee), sigs@, *cx);
                lemma_after_concat(t, own + nodes(**callee), nodes_of(args@), sigs@, *cx);
                assert(nodes(*e) =~= own + nodes(**callee) + nodes_of(args@));
            }
        },
        Expr::Field { recv, .. } => {
            walk_expr(recv, sigs, cx, u);
            proof {
                lemma_after_concat(t, own, nodes(**recv), sigs@, *cx);
            }
        },
        Expr::Try { expr, .. } => {
            walk_expr(expr, sigs, cx, u);
            proof {
                lemma_after_concat(t, own, nodes(**expr), sigs@, *cx);
            }
        },
        Expr::Unary { expr, .. } => {
            walk_expr(expr, sigs, cx, u);
            proof {
                lemma_after_concat(t, own, nodes(**expr), sigs@, *cx);
            }
        },
        Expr::Binary { lhs, rhs, .. } => {
            walk_expr(lhs, sigs, cx, u);
            walk_expr(rhs, sigs, cx, u);
            proof {
                lemma_after_concat(t, own, nodes(**lhs), sigs@, *cx);
                lemma_after_concat(t, own + nodes(**lhs), nodes(**rhs), sigs@, *cx);
                assert(nodes(*e) =~= own + nodes(**lhs) + nodes(**rhs));
            }
        },
        Expr::MakeOk(inner, _) => {
            walk_expr(inner, sigs, cx, u);
            proof {
                lemma_after_concat(t, own, nodes(**inner), sigs@, *cx);
            }
        },
        Expr::MakeErr(inner, _) => {
            walk_expr(inner, sigs, cx, u);
            proof {
                lemma_after_concat(t, own, nodes(**inner), sigs@, *cx);
            }
        },
        Expr::Record { fields, .. } => {
            let n: usize = fields.len();
            let mut i: usize = 0;
            let ghost met = u.tally();
            while i < n
                invariant
                    n == fields.len(),
                    i <= n,
                    e is Record,
                    e->fields == *fields,
                    sigs.wf(),
                    u.wf(),
                    u.tally() == after(met, field_nodes(fields@.take(i as int)), sigs@, *cx),
                decreases n - i,
            {
                assert(decreases_to!(*fields => fields[i as int]));
                assert(decreases_to!(fields[i as int] => fields[i as int].1));
                assert(decreases_to!(*e => e->fields));
                walk_expr(&fields[i].1, sigs, cx, u);
                proof {
                    let past = fields@.take(i as int);
                    assert(fields@.take(i + 1).drop_last() =~= past);
                    lemma_after_concat(
                        met,
                        field_nodes(past),
                        nodes(fields@[i as int].1),
                        sigs@,
                        *cx,
                    );
                }
                i = i + 1;
            }
            proof {
                assert(fields@.take(n as int) =~= fields@);
                lemma_after_concat(t, own, field_nodes(fields@), sigs@, *cx);
            }
        },
        Expr::Int(..) | Expr::Float(..) | Expr::Str(..) | Expr::Bool(..) | Expr::Ident(..) => {
            assert(nodes(*e) =~= own);
        },
    }
}

fn walk_exprs(args: &Vec<Expr>, sigs: &Signatures, cx: &Builtins, u: &mut Usage)
    requires
        sigs.wf(),
        old(u).wf(),
    ensures
        final(u).wf(),
        final(u).tally() == after(old(u).tally(), nodes_of(args@), sigs@, *cx),
    decreases args,
{
    let n: usize = args.len();
    let mut i: usize = 0;
    let ghost met = u.tally();
    while i < n
        invariant
            n == args.len(),
            i <= n,
            sigs.wf(),
            u.wf(),
            u.tally() == after(met, nodes_of(args@.take(i as int)), sigs@, *cx),
        decreases n - i,
    {
        assert(decreases_to!(*args => args[i as int]));
        walk_expr(&args[i], sigs, cx, u);
        proof {
            let past = args@.take(i as int);
            assert(args@.take(i + 1).drop_last() =~= past);
            lemma_after_concat(met, nodes_of(past), nodes(args@[i as int]), sigs@, *cx);
        }
        i = i + 1;
    }
    assert(args@.take(n as int) =~= args@);
}

/// Walks a statement.
pub fn walk_stmt(s: &Stmt, sigs: &Signatures, cx: &Builtins, u: &mut Usage)
    requires
        sigs.wf(),
        old(u).wf(),
    ensures
        final(u).wf(),
        final(u).tally() == after(old(u).tally(), stmt_nodes(*s), sigs@, *cx),
    decreases s,
{
    let ghost t = u.tally();
    match s {
        Stmt::Let { value, .. } => walk_expr(value, sigs, cx, u),
        Stmt::Return { value, .. } => {
            if let Some(e) = value {
                walk_expr(e, sigs, cx, u);
            }
        },
        Stmt::Ensure { cond, els, .. } => {
            walk_expr(cond, sigs, cx, u);
            if let Some(e) = els {
                walk_expr(e, sigs, cx, u);
            }
            proof {
                lemma_after_concat(t, nodes(*cond), opt_nodes(*els), sigs@, *cx);
            }
        },
        Stmt::If { cond, then, els, .. } => {
            walk_expr(cond, sigs, cx, u);
            walk_block(then, sigs, cx, u);
            proof {
                lemma_after_concat(t, nodes(*cond), block_nodes(*then), sigs@, *cx);
            }
            if let Some(b) = els {
                walk_block(b, sigs, cx, u);
                proof {
                    lemma_after_concat(
                        t,
                        nodes(*cond) + block_nodes(*then),
                        block_nodes(*b),
                        sigs@,
                        *cx,
                    );
                }
            } else {
                assert(nodes(*cond) + block_nodes(*then) + Seq::<Expr>::empty() =~= nodes(*cond)
                    + block_nodes(*then));
            }
        },
        Stmt::Expr(e) => walk_expr(e, sigs, cx, u),
    }
}

/// Walks a block.
pub fn walk_block(b: &Block, sigs: &Signatures, cx: &Builtins, u: &mut Usage)
    requires
        sigs.wf(),
        old(u).wf(),
    ensures
        final(u).wf(),
        final(u).tally() == after(old(u).tally(), block_nodes(*b), sigs@, *cx),
    decreases b,
{
    let n: usize = b.stmts.len();
    let mut i: usize = 0;
    let ghost met = u.tally();
    while i < n
        invariant
            n == b.stmts.len(),
            i <= n,
            sigs.wf(),
            u.wf(),
            u.tally() == after(met, stmts_nodes(b.stmts@.take(i as int)), sigs@, *cx),
        decreases n - i,
    {
        assert(decreases_to!(b.stmts => b.stmts[i as int]));
        assert(decreases_to!(*b => b.stmts));
        walk_stmt(&b.stmts[i], sigs, cx, u);
        proof {
            let past = b.stmts@.take(i as int);
            assert(b.stmts@.take(i + 1).drop_last() =~= past);
            lemma_after_concat(met, stmts_nodes(past), stmt_nodes(b.stmts@[i as int]), sigs@, *cx);
        }
        i = i + 1;
    }
    assert(b.stmts@.take(n as int) =~= b.stmts@);
}

/// What a block uses: the effects that its expressions perform, and the first
/// use of each builtin module in it.
pub fn analyze_block(b: &Block, sigs: &Signatures, cx: &Builtins) -> (r: Usage)
    requires
        sigs.wf(),
    ensures
        r.wf(),
        r.effects@ == effects_in(block_nodes(*b), sigs@, *cx),
        r.module_uses@ == first_uses(block_nodes(*b), *cx),
{
    let mut u: Usage = Usage::new();
    let ghost t = u.tally();
    walk_block(b, sigs, cx, &mut u);
    proof {
        lemma_after_all(t, block_nodes(*b), sigs@, *cx);
    }
    u
}

// ----- called names -----

/// The names called in two lists are those called in either.
pub proof fn lemma_calls_concat(a: Seq<Expr>, b: Seq<Expr>)
    ensures
        calls_in(a + b) == calls_in(a).union(calls_in(b)),
{
    let ab = a + b;
    assert forall|f: Seq<char>| calls_in(ab).contains(f) == calls_in(a).union(calls_in(b)).contains(
        f,
    ) by {
        if calls_in(ab).contains(f) {
            let k = choose|k: int| 0 <= k < ab.len() && #[trigger] own_call(ab[k]) == Some(f);
            if k < a.len() {
                assert(own_call(a[k]) == Some(f));
            } else {
                assert(own_call(b[k - a.len()]) == Some(f));
            }
        }
        if calls_in(a).contains(f) {
            let k = choose|k: int| 0 <= k < a.len() && #[trigger] own_call(a[k]) == Some(f);
            assert(own_call(ab[k]) == Some(f));
        }
        if calls_in(b).contains(f) {
            let k = choose|k: int| 0 <= k < b.len() && #[trigger] own_call(b[k]) == Some(f);
            assert(own_call(ab[k + a.len()]) == Some(f));
        }
    }
    assert(calls_in(ab) =~= calls_in(a).union(calls_in(b)));
}

proof fn lemma_calls_none()
    ensures
        calls_in(Seq::<Expr>::empty()) == Set::<Seq<char>>::empty(),
{
    assert(calls_in(Seq::<Expr>::empty()) =~= Set::<Seq<char>>::empty());
}

fn note_call(e: &Expr, out: &mut NameSet)
    requires
        old(out).wf(),
    ensures
        final(out).wf(),
        final(out)@ == old(out)@.union(calls_in(seq![*e])),
{
    if let Expr::Call { callee, .. } = e {
        if let Expr::Ident(f, _) = &**callee {
            out.insert(f);
        }
    }
    proof {
        assert forall|f: Seq<char>| out@.contains(f) == old(out)@.union(
            calls_in(seq![*e]),
        ).contains(f) by {
            if own_call(*e) == Some(f) {
                assert(own_call(seq![*e][0]) == Some(f));
            }
        }
        assert(out@ =~= old(out)@.union(calls_in(seq![*e])));
    }
}

fn call_names_expr(e: &Expr, out: &mut NameSet)
    requires
        old(out).wf(),
    ensures
        final(out).wf(),
        final(out)@ == old(out)@.union(calls_in(nodes(*e))),
    decreases e,
{
    let ghost was = out@;
    let ghost own = seq![*e];
    note_call(e, out);
    match e {
        Expr::Call { callee, args, .. } => {
            call_names_expr(callee, out);
            call_names_exprs(args, out);
            proof {
                let first = own + nodes(**callee);
                lemma_calls_concat(own, nodes(**callee));
                lemma_calls_concat(first, nodes_of(args@));
                assert(nodes(*e) =~= first + nodes_of(args@));
                assert(out@ =~= was.union(calls_in(nodes(*e))));
            }
        },
        Expr::Method { recv, args, .. } => {
            call_names_expr(recv, out);
            call_names_exprs(args, out);
            proof {
                let first = own + nodes(**recv);
                lemma_calls_concat(own, nodes(**recv));
                lemma_calls_concat(first, nodes_of(args@));
                assert(nodes(*e) =~= first + nodes_of(args@));
                assert(out@ =~= was.union(calls_in(nodes(*e))));
            }
        },
        Expr::Field { recv, .. } => {
            call_names_expr(recv, out);
            proof {
                lemma_calls_concat(own, nodes(**recv));
                assert(out@ =~= was.union(calls_in(nodes(*e))));
            }
        },
        Expr::Try { expr, .. } => {
            call_names_expr(expr, out);
            proof {
                lemma_calls_concat(own, nodes(**expr));
                assert(out@ =~= was.union(calls_in(nodes(*e))));
            }
        },
        Expr::Unary { expr, .. } => {
            call_names_expr(expr, out);
            proof {
                lemma_calls_concat(own, nodes(**expr));
                assert(out@ =~= was.union(calls_in(nodes(*e))));
            }
        },
        Expr::Binary { lhs, rhs, .. } => {
            call_names_expr(lhs, out);
            call_names_expr(rhs, out);
            proof {
                let first = own + nodes(**lhs);
                lemma_calls_concat(own, nodes(**lhs));
                lemma_calls_concat(first, nodes(**rhs));
                assert(nodes(*e) =~= first + nodes(**rhs));
                assert(out@ =~= was.union(calls_in(nodes(*e))));
            }
        },
        Expr::MakeOk(inner, _) => {
            call_names_expr(inner, out);
            proof {
                lemma_calls_concat(own, nodes(**inner));
                assert(out@ =~= was.union(calls_in(nodes(*e))));
            }
        },
        Expr::MakeErr(inner, _) => {
            call_names_expr(inner, out);
            proof {
                lemma_calls_concat(own, nodes(**inner));
                assert(out@ =~= was.union(calls_in(nodes(*e))));
            }
        },
        Expr::Record { fields, .. } => {
            let n: usize = fields.len();
            let mut i: usize = 0;
            let ghost met = out@;
            proof {
                lemma_calls_none();
                assert(met.union(Set::<Seq<char>>::empty()) =~= met);
            }
            while i < n
                invariant
                    n == fields.len(),
                    i <= n,
                    e is Record,
                    e->fields == *fields,
                    out.wf(),
                    out@ == met.union(calls_in(field_nodes(fields@.take(i as int)))),
                decreases n - i,
            {
                assert(decreases_to!(*fields => fields[i as int]));
                assert(decreases_to!(fields[i as int] => fields[i as int].1));
                assert(decreases_to!(*e => e->fields));
                call_names_expr(&fields[i].1, out);
                proof {
                    let past = fields@.take(i as int);
                    assert(fields@.take(i + 1).drop_last() =~= past);
                    lemma_calls_concat(field_nodes(past), nodes(fields@[i as int].1));
                    assert(out@ =~= met.union(calls_in(field_nodes(fields@.take(i + 1)))));
                }
                i = i + 1;
            }
            proof {
                assert(fields@.take(n as int) =~= fields@);
                lemma_calls_concat(own, field_nodes(fields@));
                assert(out@ =~= was.union(calls_in(nodes(*e))));
            }
        },
        _ => {
            assert(nodes(*e) =~= own);
        },
    }
}

fn call_names_exprs(args: &Vec<Expr>, out: &mut NameSet)
    requires
        old(out).wf(),
    ensures
        final(out).wf(),
        final(out)@ == old(out)@.union(calls_in(nodes_of(args@))),
    decreases args,
{
    let n: usize = args.len();
    let mut i: usize = 0;
    let ghost met = out@;
    proof {
        lemma_calls_none();
        assert(met.union(Set::<Seq<char>>::empty()) =~= met);
    }
    while i < n
        invariant
            n == args.len(),
            i <= n,
            out.wf(),
            out@ == met.union(calls_in(nodes_of(args@.take(i as int)))),
        decreases n - i,
    {
        assert(decreases_to!(*args => args[i as int]));
        call_names_expr(&args[i], out);
        proof {
            let past = args@.take(i as int);
            assert(args@.take(i + 1).drop_last() =~= past);
            lemma_calls_concat(nodes_of(past), nodes(args@[i as int]));
            assert(out@ =~= met.union(calls_in(nodes_of(args@.take(i + 1)))));
        }
        i = i + 1;
    }
    assert(args@.take(n as int) =~= args@);
}

fn call_names_opt(e: &Option<Expr>, out: &mut NameSet)
    requires
        old(out).wf(),
    ensures
        final(out).wf(),
        final(out)@ == old(out)@.union(calls_in(opt_nodes(*e))),
{
    if let Some(x) = e {
        call_names_expr(x, out);
    } else {
        proof {
            lemma_calls_none();
            assert(out@ =~= out@.union(Set::<Seq<char>>::empty()));
        }
    }
}

fn call_names_stmt(s: &Stmt, out: &mut NameSet)
    requires
        old(out).wf(),
    ensures
        final(out).wf(),
        final(out)@ == old(out)@.union(calls_in(stmt_nodes(*s))),
    decreases s,
{
    let ghost was = out@;
    match s {
        Stmt::Let { value, .. } => call_names_expr(value, out),
        Stmt::Return { value, .. } => call_names_opt(value, out),
        Stmt::Ensure { cond, els, .. } => {
            call_names_expr(cond, out);
            call_names_opt(els, out);
            proof {
                lemma_calls_concat(nodes(*cond), opt_nodes(*els));
                assert(out@ =~= was.union(calls_in(stmt_nodes(*s))));
            }
        },
        Stmt::If { cond, then, els, .. } => {
            call_names_expr(cond, out);
            call_names_block(then, out);
            let ghost both = nodes(*cond) + block_nodes(*then);
            proof {
                lemma_calls_concat(nodes(*cond), block_nodes(*then));
                assert(out@ =~= was.union(calls_in(both)));
            }
            if let Some(b) = els {
                call_names_block(b, out);
                proof {
                    lemma_calls_concat(both, block_nodes(*b));
                    assert(out@ =~= was.union(calls_in(stmt_nodes(*s))));
                }
            } else {
                assert(both + Seq::<Expr>::empty() =~= both);
            }
        },
        Stmt::Expr(e) => call_names_expr(e, out),
    }
}

fn call_names_block(b: &Block, out: &mut NameSet)
    requires
        old(out).wf(),
    ensures
        final(out).wf(),
        final(out)@ == old(out)@.union(calls_in(block_nodes(*b))),
    decreases b,
{
    let n: usize = b.stmts.len();
    let mut i: usize = 0;
    let ghost met = out@;
    proof {
        lemma_calls_none();
        assert(met.union(Set::<Seq<char>>::empty()) =~= met);
    }
    while i < n
        invariant
            n == b.stmts.len(),
            i <= n,
            out.wf(),
            out@ == met.union(calls_in(stmts_nodes(b.stmts@.take(i as int)))),
        decreases n - i,
    {
        assert(decreases_to!(b.stmts => b.stmts[i as int]));
        assert(decreases_to!(*b => b.stmts));
        call_names_stmt(&b.stmts[i], out);
        proof {
            let past = b.stmts@.take(i as int);
            assert(b.stmts@.take(i + 1).drop_last() =~= past);
            lemma_calls_concat(stmts_nodes(past), stmt_nodes(b.stmts@[i as int]));
            assert(out@ =~= met.union(calls_in(stmts_nodes(b.stmts@.take(i + 1)))));
        }
        i = i + 1;
    }
    assert(b.stmts@.take(n as int) =~= b.stmts@);
}

/// The names that are called as `name(...)` anywhere in a block; methods do not
/// count.
pub fn called_names_in_block(b: &Block) -> (r: NameSet)
    ensures
        r.wf(),
        r@ == calls_in(block_nodes(*b)),
{
    let mut out: NameSet = NameSet::new();
    call_names_block(b, &mut out);
    assert(out@ =~= calls_in(block_nodes(*b)));
    out
}

} // verus!
