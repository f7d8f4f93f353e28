//! What a check of a whole program reports: all that is due, and nothing else.
use crate::ast::{Block, Expr, FnDecl, Item, TypeExpr};
use crate::builtins::Builtins;
use crate::check;
use crate::check::laws;
use crate::diagnostics::{DiagnosticModel, Severity};
use crate::infer;
use crate::infer::laws as typing;
use crate::names;
use crate::program::laws::declares;
use crate::program::{self, Program, Sigs, Unit};
use crate::span::Span;
use crate::text;
use crate::types::{self, Records, TypeModel};
use crate::walk;
use crate::walk::laws as places;
use vstd::prelude::*;

verus! {

// ----- findings add up -----

/// The findings of two parts, one after the other, where both are known.
pub open spec fn both(
    a: Option<Seq<DiagnosticModel>>,
    b: Option<Seq<DiagnosticModel>>,
) -> Option<Seq<DiagnosticModel>> {
    match (a, b) {
        (Some(x), Some(y)) => Some(x + y),
        _ => None,
    }
}

/// The findings of some functions and then others are the findings of the former
/// followed by those of the latter.
pub proof fn law_findings_of_items_add_up(
    a: Seq<Item>,
    b: Seq<Item>,
    unit: Unit,
    reg: Records,
    sigs: Sigs,
    cx: Builtins,
    depth: nat,
)
    ensures
        check::items_findings(a + b, unit, reg, sigs, cx, depth) == both(
            check::items_findings(a, unit, reg, sigs, cx, depth),
            check::items_findings(b, unit, reg, sigs, cx, depth),
        ),
    decreases b.len(),
{
    if b.len() == 0 {
        assert(a + b =~= a);
        if let Some(x) = check::items_findings(a, unit, reg, sigs, cx, depth) {
            assert(x + Seq::<DiagnosticModel>::empty() =~= x);
        }
    } else {
        assert((a + b).drop_last() =~= a + b.drop_last());
        law_findings_of_items_add_up(a, b.drop_last(), unit, reg, sigs, cx, depth);
        if let Some(x) = check::items_findings(a, unit, reg, sigs, cx, depth) {
            if let Some(y) = check::items_findings(b.drop_last(), unit, reg, sigs, cx, depth) {
                if let Item::Fn(f) = b.last() {
                    if let Some(z) = check::fn_findings(f, unit, reg, sigs, cx, depth) {
                        assert((x + y) + z =~= x + (y + z));
                    }
                }
            }
        }
    }
}

/// What is wrong with one file.
spec fn unit_findings(unit: Unit, reg: Records, sigs: Sigs, cx: Builtins, depth: nat) -> Option<
    Seq<DiagnosticModel>,
> {
    both(
        Some(check::import_errors(unit, cx)),
        check::items_findings(unit.module.items@, unit, reg, sigs, cx, depth),
    )
}

proof fn lemma_both(
    a: Option<Seq<DiagnosticModel>>,
    b: Option<Seq<DiagnosticModel>>,
    c: Option<Seq<DiagnosticModel>>,
)
    ensures
        both(both(a, b), c) == both(a, both(b, c)),
        both(a, Some(Seq::empty())) == a,
{
    if let (Some(x), Some(y)) = (a, b) {
        if let Some(z) = c {
            assert((x + y) + z =~= x + (y + z));
        }
    }
    if let Some(x) = a {
        assert(x + Seq::<DiagnosticModel>::empty() =~= x);
    }
}

proof fn lemma_last_file(units: Seq<Unit>, reg: Records, sigs: Sigs, cx: Builtins, depth: nat)
    requires
        units.len() > 0,
    ensures
        check::units_findings(units, reg, sigs, cx, depth) == both(
            check::units_findings(units.drop_last(), reg, sigs, cx, depth),
            unit_findings(units.last(), reg, sigs, cx, depth),
        ),
{
    let unit = units.last();
    let imports = check::import_errors(unit, cx);
    let own = check::items_findings(unit.module.items@, unit, reg, sigs, cx, depth);
    if let Some(x) = check::units_findings(units.drop_last(), reg, sigs, cx, depth) {
        if let Some(z) = own {
            assert((x + imports) + z =~= x + (imports + z));
        }
    }
}

/// The findings of some files and then others are the findings of the former
/// followed by those of the latter: nothing that was found is lost, and nothing
/// is found twice.
pub proof fn law_findings_of_files_add_up(
    a: Seq<Unit>,
    b: Seq<Unit>,
    reg: Records,
    sigs: Sigs,
    cx: Builtins,
    depth: nat,
)
    ensures
        check::units_findings(a + b, reg, sigs, cx, depth) == both(
            check::units_findings(a, reg, sigs, cx, depth),
            check::units_findings(b, reg, sigs, cx, depth),
        ),
    decreases b.len(),
{
    let fa = check::units_findings(a, reg, sigs, cx, depth);
    if b.len() == 0 {
        assert(a + b =~= a);
        lemma_both(fa, fa, fa);
    } else {
        assert((a + b).drop_last() =~= a + b.drop_last());
        law_findings_of_files_add_up(a, b.drop_last(), reg, sigs, cx, depth);
        lemma_last_file(a + b, reg, sigs, cx, depth);
        lemma_last_file(b, reg, sigs, cx, depth);
        assert((a + b).last() == b.last());
        lemma_both(
            fa,
            check::units_findings(b.drop_last(), reg, sigs, cx, depth),
            unit_findings(b.last(), reg, sigs, cx, depth),
        );
    }
}

proof fn lemma_concat(a: Seq<DiagnosticModel>, b: Seq<DiagnosticModel>, d: DiagnosticModel)
    ensures
        (a + b).contains(d) <==> a.contains(d) || b.contains(d),
{
    if a.contains(d) {
        let i = choose|i: int| 0 <= i < a.len() && a[i] == d;
        assert((a + b)[i] == d);
    }
    if b.contains(d) {
        let i = choose|i: int| 0 <= i < b.len() && b[i] == d;
        assert((a + b)[a.len() + i] == d);
    }
    if (a + b).contains(d) {
        let i = choose|i: int| 0 <= i < (a + b).len() && (a + b)[i] == d;
        if i < a.len() {
            assert(a[i] == d);
        } else {
            assert(b[i - a.len()] == d);
        }
    }
}

/// The finding is one of a function of the list.
spec fn of_fn(
    d: DiagnosticModel,
    item: Item,
    unit: Unit,
    reg: Records,
    sigs: Sigs,
    cx: Builtins,
    depth: nat,
) -> bool {
    item matches Item::Fn(f) && (check::fn_findings(f, unit, reg, sigs, cx, depth) matches Some(
        found,
    ) && found.contains(d))
}

proof fn lemma_items(
    items: Seq<Item>,
    unit: Unit,
    reg: Records,
    sigs: Sigs,
    cx: Builtins,
    depth: nat,
    d: DiagnosticModel,
)
    requires
        check::items_findings(items, unit, reg, sigs, cx, depth) is Some,
    ensures
        check::items_findings(items, unit, reg, sigs, cx, depth)->Some_0.contains(d)
            <==> exists|i: int|
            0 <= i < items.len() && of_fn(d, #[trigger] items[i], unit, reg, sigs, cx, depth),
        forall|i: int|
            0 <= i < items.len() ==> (#[trigger] items[i] matches Item::Fn(f)
                ==> check::fn_findings(f, unit, reg, sigs, cx, depth) is Some),
    decreases items.len(),
{
    if items.len() > 0 {
        let less = items.drop_last();
        let q = items.len() - 1;
        lemma_items(less, unit, reg, sigs, cx, depth, d);
        let before = check::items_findings(less, unit, reg, sigs, cx, depth)->Some_0;
        if let Item::Fn(f) = items.last() {
            let own = check::fn_findings(f, unit, reg, sigs, cx, depth)->Some_0;
            lemma_concat(before, own, d);
            if own.contains(d) {
                assert(of_fn(d, items[q], unit, reg, sigs, cx, depth));
            }
        }
        assert forall|i: int| 0 <= i < items.len() implies (#[trigger] items[i] matches Item::Fn(f)
            ==> check::fn_findings(f, unit, reg, sigs, cx, depth) is Some) by {
            if i < q {
                assert(less[i] == items[i]);
            }
        }
        if before.contains(d) {
            let i = choose|i: int|
                0 <= i < less.len() && of_fn(d, #[trigger] less[i], unit, reg, sigs, cx, depth);
            assert(of_fn(d, items[i], unit, reg, sigs, cx, depth));
        }
        if exists|i: int|
            0 <= i < items.len() && of_fn(d, #[trigger] items[i], unit, reg, sigs, cx, depth) {
            let i = choose|i: int|
                0 <= i < items.len() && of_fn(d, #[trigger] items[i], unit, reg, sigs, cx, depth);
            if i < q {
                assert(of_fn(d, less[i], unit, reg, sigs, cx, depth));
            }
        }
    }
}

/// The finding is one of this file.
spec fn of_unit(
    d: DiagnosticModel,
    unit: Unit,
    reg: Records,
    sigs: Sigs,
    cx: Builtins,
    depth: nat,
) -> bool {
    ||| check::import_errors(unit, cx).contains(d)
    ||| check::items_findings(unit.module.items@, unit, reg, sigs, cx, depth)->Some_0.contains(d)
}

proof fn lemma_units(
    units: Seq<Unit>,
    reg: Records,
    sigs: Sigs,
    cx: Builtins,
    depth: nat,
    d: DiagnosticModel,
)
    requires
        check::units_findings(units, reg, sigs, cx, depth) is Some,
    ensures
        check::units_findings(units, reg, sigs, cx, depth)->Some_0.contains(d) <==> exists|u: int|
            0 <= u < units.len() && of_unit(d, #[trigger] units[u], reg, sigs, cx, depth),
        forall|u: int|
            0 <= u < units.len() ==> check::items_findings(
                (#[trigger] units[u]).module.items@,
                units[u],
                reg,
                sigs,
                cx,
                depth,
            ) is Some,
    decreases units.len(),
{
    if units.len() > 0 {
        let less = units.drop_last();
        let q = units.len() - 1;
        let unit = units.last();
        lemma_units(less, reg, sigs, cx, depth, d);
        let before = check::units_findings(less, reg, sigs, cx, depth)->Some_0;
        let imports = check::import_errors(unit, cx);
        let own = check::items_findings(
            unit.module.items@,
            unit,
            reg,
            sigs,
            cx,
            depth,
        )->Some_0;
        lemma_concat(before + imports, own, d);
        lemma_concat(before, imports, d);
        assert forall|u: int| 0 <= u < units.len() implies check::items_findings(
            (#[trigger] units[u]).module.items@,
            units[u],
            reg,
            sigs,
            cx,
            depth,
        ) is Some by {
            if u < q {
                assert(less[u] == units[u]);
            }
        }
        if before.contains(d) {
            let u = choose|u: int|
                0 <= u < less.len() && of_unit(d, #[trigger] less[u], reg, sigs, cx, depth);
            assert(of_unit(d, units[u], reg, sigs, cx, depth));
        }
        if imports.contains(d) || own.contains(d) {
            assert(of_unit(d, units[q], reg, sigs, cx, depth));
        }
        if exists|u: int|
            0 <= u < units.len() && of_unit(d, #[trigger] units[u], reg, sigs, cx, depth) {
            let u = choose|u: int|
                0 <= u < units.len() && of_unit(d, #[trigger] units[u], reg, sigs, cx, depth);
            if u < q {
                assert(of_unit(d, less[u], reg, sigs, cx, depth));
            }
        }
    }
}

/// Of one file the imports are reported first, then its functions in order; of
/// one function the effects first, then the return type.
pub proof fn law_imports_come_before_functions(
    unit: Unit,
    item: Item,
    reg: Records,
    sigs: Sigs,
    cx: Builtins,
    depth: nat,
)
    ensures
        check::units_findings(seq![unit], reg, sigs, cx, depth) == both(
            Some(check::import_errors(unit, cx)),
            check::items_findings(unit.module.items@, unit, reg, sigs, cx, depth),
        ),
        item matches Item::Fn(f) ==> check::items_findings(
            seq![item],
            unit,
            reg,
            sigs,
            cx,
            depth,
        ) == both(
            Some(check::effect_findings(f, unit, sigs, cx)),
            check::type_findings(f, unit, reg, sigs, cx, depth),
        ),
        !(item is Fn) ==> check::items_findings(seq![item], unit, reg, sigs, cx, depth) == Some(
            Seq::<DiagnosticModel>::empty(),
        ),
{
    let none = Seq::<DiagnosticModel>::empty();
    lemma_last_file(seq![unit], reg, sigs, cx, depth);
    assert(seq![unit].drop_last() =~= Seq::<Unit>::empty());
    assert(check::units_findings(Seq::<Unit>::empty(), reg, sigs, cx, depth) == Some(none));
    if let Some(x) = unit_findings(unit, reg, sigs, cx, depth) {
        assert(none + x =~= x);
    }
    assert(seq![item].drop_last() =~= Seq::<Item>::empty());
    assert(check::items_findings(seq![item].drop_last(), unit, reg, sigs, cx, depth) == Some(none));
    if let Item::Fn(f) = item {
        if let Some(x) = check::fn_findings(f, unit, reg, sigs, cx, depth) {
            assert(none + x =~= x);
        }
    }
}

// ----- what is due of effects -----

/// The body of a function performs an effect: something that stands in it does.
pub open spec fn body_performs(f: FnDecl, effect: Seq<char>, sigs: Sigs, cx: Builtins) -> bool {
    exists|x: Expr| #[trigger] places::occurs(x, f.body) && places::performs(x, effect, sigs, cx)
}

/// The effect is performed and not declared.
pub open spec fn undeclared(f: FnDecl, effect: Seq<char>, sigs: Sigs, cx: Builtins) -> bool {
    body_performs(f, effect, sigs, cx) && !declares(f, effect)
}

/// The effect is declared and not performed.
pub open spec fn unused(f: FnDecl, effect: Seq<char>, sigs: Sigs, cx: Builtins) -> bool {
    declares(f, effect) && !body_performs(f, effect, sigs, cx)
}

/// A list in ascending order of exactly the names with some property.
pub open spec fn lists_all(list: Seq<Seq<char>>, has: spec_fn(Seq<char>) -> bool) -> bool {
    &&& names::ascending(list)
    &&& forall|n: Seq<char>| #[trigger] list.contains(n) <==> has(n)
}

/// The ending of a word that counts the names of a list.
pub open spec fn ending(list: Seq<Seq<char>>) -> Seq<char> {
    if list.len() > 1 {
        "s"@
    } else {
        Seq::empty()
    }
}

/// The finding says that a function performs the effects `missing` without
/// declaring them, and its edit declares the effects `all`.
pub open spec fn says_undeclared(
    d: DiagnosticModel,
    unit: Unit,
    f: FnDecl,
    missing: Seq<Seq<char>>,
    all: Seq<Seq<char>>,
) -> bool {
    let list = text::joined(all, ", "@);
    &&& d.severity == Severity::Error
    &&& d.code == "E0421"@
    &&& d.kind == "effect_undeclared"@
    &&& d.file == unit.source.path@
    &&& d.span == f.name_span
    &&& d.message == "function `"@ + f.name@ + "` performs undeclared effect"@ + ending(missing)
        + " "@ + text::joined(text::quoted(missing), ", "@)
    &&& d.repair_strategies == seq!["add_effect"@]
    &&& d.preferred_patch matches Some(p) && {
        &&& p.file == unit.source.path@
        &&& f.effects matches Some(c) ==> p.span == c.list_span && p.replacement == list
            && p.rationale == "declare every effect this function performs: "@ + list
        &&& f.effects is None ==> p.span.start == f.brace_offset && p.span.end == f.brace_offset
            && p.replacement == "effects ["@ + list + "] "@ && p.rationale
            == "declare the effects this function performs: "@ + list
    }
    &&& d.notes.len() == 1
}

/// The finding is the one that is due for the undeclared effects of a function.
pub open spec fn due_undeclared(
    d: DiagnosticModel,
    unit: Unit,
    f: FnDecl,
    sigs: Sigs,
    cx: Builtins,
) -> bool {
    exists|missing: Seq<Seq<char>>, all: Seq<Seq<char>>| #[trigger]
        says_undeclared(d, unit, f, missing, all) && missing.len() > 0 && lists_all(
            missing,
            |n: Seq<char>| undeclared(f, n, sigs, cx),
        ) && lists_all(all, |n: Seq<char>| declares(f, n) || body_performs(f, n, sigs, cx))
}

/// The finding says that a function declares the effects `extra` without
/// performing them, and its edit leaves the effects `left`, or no clause where
/// there are none.
pub open spec fn says_unused(
    d: DiagnosticModel,
    unit: Unit,
    f: FnDecl,
    extra: Seq<Seq<char>>,
    left: Seq<Seq<char>>,
) -> bool {
    &&& d.severity == Severity::Warning
    &&& d.code == "E0450"@
    &&& d.kind == "effect_unused"@
    &&& d.file == unit.source.path@
    &&& d.span == f.name_span
    &&& d.message == "function `"@ + f.name@ + "` declares unused effect"@ + ending(extra) + " "@
        + text::joined(text::quoted(extra), ", "@)
    &&& d.repair_strategies == seq!["remove_effect"@]
    &&& f.effects matches Some(c) && (d.preferred_patch matches Some(p) && {
        &&& p.file == unit.source.path@
        &&& left.len() == 0 ==> p.span == c.full_span && p.replacement.len() == 0
        &&& left.len() > 0 ==> p.span == c.list_span && p.replacement == text::joined(left, ", "@)
        &&& p.rationale == "remove effects the function does not actually perform"@
    })
    &&& d.notes.len() == 0
}

/// The finding is the one that is due for the unused effects of a function.
pub open spec fn due_unused(
    d: DiagnosticModel,
    unit: Unit,
    f: FnDecl,
    sigs: Sigs,
    cx: Builtins,
) -> bool {
    exists|extra: Seq<Seq<char>>, left: Seq<Seq<char>>| #[trigger]
        says_unused(d, unit, f, extra, left) && extra.len() > 0 && lists_all(
            extra,
            |n: Seq<char>| unused(f, n, sigs, cx),
        ) && lists_all(left, |n: Seq<char>| body_performs(f, n, sigs, cx))
}

/// Every declared set of effects is finite.
pub open spec fn finite_sigs(sigs: Sigs) -> bool {
    forall|name: Seq<char>| #[trigger] sigs.dom().contains(name) ==> sigs[name].effects.finite()
}

proof fn lemma_sigs_finite(items: Seq<Item>)
    ensures
        finite_sigs(program::sigs_of(items)),
    decreases items.len(),
{
    if items.len() > 0 {
        lemma_sigs_finite(items.drop_last());
        if let Item::Fn(f) = items.last() {
            vstd::seq_lib::seq_to_set_is_finite(program::clause_names(f));
        }
    }
}

proof fn lemma_effects_finite(t: walk::Tally, list: Seq<Expr>, sigs: Sigs, cx: Builtins)
    requires
        finite_sigs(sigs),
        t.effects.finite(),
    ensures
        walk::after(t, list, sigs, cx).effects.finite(),
    decreases list.len(),
{
    if list.len() > 0 {
        lemma_effects_finite(t, list.drop_last(), sigs, cx);
        assert(walk::own_effects(list.last(), sigs, cx).finite());
    }
}

proof fn lemma_performed(f: FnDecl, sigs: Sigs, cx: Builtins)
    requires
        finite_sigs(sigs),
    ensures
        check::performed(f, sigs, cx).finite(),
        program::declared_effects(f).finite(),
        forall|e: Seq<char>| #[trigger]
            check::performed(f, sigs, cx).contains(e) <==> body_performs(f, e, sigs, cx),
        forall|e: Seq<char>| #[trigger]
            program::declared_effects(f).contains(e) <==> declares(f, e),
{
    let t = walk::Tally { effects: Set::empty(), uses: Map::empty() };
    lemma_effects_finite(t, walk::block_nodes(f.body), sigs, cx);
    walk::lemma_after_all(t, walk::block_nodes(f.body), sigs, cx);
    vstd::seq_lib::seq_to_set_is_finite(program::clause_names(f));
    assert forall|e: Seq<char>| #[trigger]
        check::performed(f, sigs, cx).contains(e) <==> body_performs(f, e, sigs, cx) by {
        places::law_effects_come_from_the_body(f.body, e, sigs, cx);
    }
    assert forall|e: Seq<char>| #[trigger]
        program::declared_effects(f).contains(e) <==> declares(f, e) by {
        program::laws::law_clause_declares(f, e);
    }
}

proof fn lemma_listed(set: Set<Seq<char>>, has: spec_fn(Seq<char>) -> bool)
    requires
        set.finite(),
        forall|n: Seq<char>| #[trigger] set.contains(n) <==> has(n),
    ensures
        lists_all(names::listing(set), has),
        set != Set::<Seq<char>>::empty() <==> names::listing(set).len() > 0,
{
    names::lemma_listing_exists(set);
    let list = names::listing(set);
    if list.len() > 0 {
        assert(list.contains(list[0]));
    } else {
        assert forall|n: Seq<char>| !set.contains(n) by {
            assert(!list.contains(n));
        }
        assert(set =~= Set::<Seq<char>>::empty());
    }
}

/// A function has the findings on effects that are due, and no others: one where
/// it performs what it does not declare, and one where it declares what it does
/// not perform.
pub proof fn law_effect_findings_are_those_due(
    f: FnDecl,
    unit: Unit,
    sigs: Sigs,
    cx: Builtins,
    d: DiagnosticModel,
)
    requires
        finite_sigs(sigs),
    ensures
        check::effect_findings(f, unit, sigs, cx).contains(d) ==> due_undeclared(
            d,
            unit,
            f,
            sigs,
            cx,
        ) || due_unused(d, unit, f, sigs, cx),
        (exists|e: Seq<char>| undeclared(f, e, sigs, cx)) ==> {
            let list = check::effect_findings(f, unit, sigs, cx);
            list.len() > 0 && due_undeclared(list[0], unit, f, sigs, cx)
        },
        (exists|e: Seq<char>| unused(f, e, sigs, cx)) ==> {
            let list = check::effect_findings(f, unit, sigs, cx);
            list.len() > 0 && due_unused(list.last(), unit, f, sigs, cx)
        },
        check::effect_findings(f, unit, sigs, cx).len() == (if exists|e: Seq<char>|
            undeclared(f, e, sigs, cx) {
            1int
        } else {
            0
        }) + (if exists|e: Seq<char>| unused(f, e, sigs, cx) {
            1int
        } else {
            0
        }),
{
    let declared = program::declared_effects(f);
    let used = check::performed(f, sigs, cx);
    let none = Set::<Seq<char>>::empty();
    let list = check::effect_findings(f, unit, sigs, cx);
    lemma_performed(f, sigs, cx);
    let missing = names::listing(used.difference(declared));
    let all = names::listing(declared.union(used));
    lemma_listed(used.difference(declared), |n: Seq<char>| undeclared(f, n, sigs, cx));
    lemma_listed(
        declared.union(used),
        |n: Seq<char>| declares(f, n) || body_performs(f, n, sigs, cx),
    );
    let first = check::effect_undeclared(f, unit, declared, used);
    if used.difference(declared) != none {
        assert(says_undeclared(first, unit, f, missing, all));
        assert(due_undeclared(first, unit, f, sigs, cx));
        assert(list[0] == first);
    }
    if exists|e: Seq<char>| undeclared(f, e, sigs, cx) {
        let e = choose|e: Seq<char>| undeclared(f, e, sigs, cx);
        assert(used.difference(declared).contains(e));
    } else {
        assert(used.difference(declared) =~= none) by {
            assert forall|e: Seq<char>| !used.difference(declared).contains(e) by {
                assert(!undeclared(f, e, sigs, cx));
            }
        }
    }
    let extra = names::listing(declared.difference(used));
    let left = names::listing(used);
    lemma_listed(declared.difference(used), |n: Seq<char>| unused(f, n, sigs, cx));
    lemma_listed(used, |n: Seq<char>| body_performs(f, n, sigs, cx));
    if let Some(clause) = f.effects {
        let second = check::effect_unused(f, clause, unit, declared, used);
        if declared.difference(used) != none {
            assert(says_unused(second, unit, f, extra, left));
            assert(due_unused(second, unit, f, sigs, cx));
            assert(list.last() == second);
        }
    }
    if exists|e: Seq<char>| unused(f, e, sigs, cx) {
        let e = choose|e: Seq<char>| unused(f, e, sigs, cx);
        assert(declared.difference(used).contains(e));
    } else {
        assert(declared.difference(used) =~= none) by {
            assert forall|e: Seq<char>| !declared.difference(used).contains(e) by {
                assert(!unused(f, e, sigs, cx));
            }
        }
    }
    if list.contains(d) {
        let k = choose|k: int| 0 <= k < list.len() && list[k] == d;
        assert(k == 0 || k == 1);
    }
}

// ----- what is due of imports -----

/// The body of a function or of a test.
pub open spec fn body_of(item: Item) -> Option<Block> {
    match item {
        Item::Fn(f) => Some(f.body),
        Item::Test(t) => Some(t.body),
        Item::Type(_) => None,
    }
}

/// Something that stands in the body of an item calls into a module.
pub open spec fn item_uses(item: Item, module: Seq<char>) -> bool {
    body_of(item) matches Some(b) && exists|x: Expr| #[trigger]
        places::occurs(x, b) && places::calls_into(x, module)
}

/// A file uses a module that is on offer, in a function or in a test.
pub open spec fn file_uses(unit: Unit, module: Seq<char>, cx: Builtins) -> bool {
    places::on_offer(cx, module) && exists|i: int|
        0 <= i < unit.module.items@.len() && item_uses(#[trigger] unit.module.items@[i], module)
}

/// A file imports a module.
pub open spec fn imports(unit: Unit, module: Seq<char>) -> bool {
    exists|i: int| 0 <= i < unit.imports@.len() && (#[trigger] unit.imports@[i])@ == module
}

/// The expressions of the items of a file, item by item: those of the bodies of
/// functions and tests, and none of types.
pub proof fn law_bodies_are_met_in_order(a: Seq<Item>, b: Seq<Item>, item: Item)
    ensures
        check::body_nodes(a + b) == check::body_nodes(a) + check::body_nodes(b),
        check::body_nodes(seq![item]) == (match body_of(item) {
            Some(body) => walk::block_nodes(body),
            None => Seq::empty(),
        }),
    decreases b.len(),
{
    assert(seq![item].drop_last() =~= Seq::<Item>::empty());
    assert(check::body_nodes(Seq::<Item>::empty()) =~= Seq::<Expr>::empty());
    assert(check::body_nodes(seq![item]) =~= (match body_of(item) {
        Some(body) => walk::block_nodes(body),
        None => Seq::empty(),
    }));
    if b.len() == 0 {
        assert(a + b =~= a);
        assert(check::body_nodes(a) + check::body_nodes(b) =~= check::body_nodes(a));
    } else {
        assert((a + b).drop_last() =~= a + b.drop_last());
        law_bodies_are_met_in_order(a, b.drop_last(), item);
        assert(check::body_nodes(a + b) =~= check::body_nodes(a) + check::body_nodes(b));
    }
}

spec fn meets_use(list: Seq<Expr>, module: Seq<char>) -> bool {
    exists|k: int| 0 <= k < list.len() && places::calls_into(#[trigger] list[k], module)
}

proof fn lemma_meets_concat(a: Seq<Expr>, b: Seq<Expr>, module: Seq<char>)
    ensures
        meets_use(a + b, module) <==> meets_use(a, module) || meets_use(b, module),
{
    if meets_use(a, module) {
        let k = choose|k: int| 0 <= k < a.len() && places::calls_into(#[trigger] a[k], module);
        assert(places::calls_into((a + b)[k], module));
    }
    if meets_use(b, module) {
        let k = choose|k: int| 0 <= k < b.len() && places::calls_into(#[trigger] b[k], module);
        assert(places::calls_into((a + b)[a.len() + k], module));
    }
    if meets_use(a + b, module) {
        let k = choose|k: int|
            0 <= k < (a + b).len() && places::calls_into(#[trigger] (a + b)[k], module);
        if k < a.len() {
            assert(places::calls_into(a[k], module));
        } else {
            assert(places::calls_into(b[k - a.len()], module));
        }
    }
}

proof fn lemma_body_use(body: Block, module: Seq<char>)
    ensures
        meets_use(walk::block_nodes(body), module) <==> exists|x: Expr| #[trigger]
            places::occurs(x, body) && places::calls_into(x, module),
{
    let list = walk::block_nodes(body);
    if meets_use(list, module) {
        let k = choose|k: int| 0 <= k < list.len() && places::calls_into(#[trigger] list[k], module);
        assert(list.contains(list[k]));
        places::law_walk_meets_everything(body, list[k]);
    }
    if exists|x: Expr| #[trigger] places::occurs(x, body) && places::calls_into(x, module) {
        let x = choose|x: Expr| #[trigger]
            places::occurs(x, body) && places::calls_into(x, module);
        places::law_walk_meets_everything(body, x);
        let k = choose|k: int| 0 <= k < list.len() && list[k] == x;
        assert(places::calls_into(list[k], module));
    }
}

proof fn lemma_items_use(items: Seq<Item>, module: Seq<char>)
    ensures
        meets_use(check::body_nodes(items), module) <==> exists|i: int|
            0 <= i < items.len() && item_uses(#[trigger] items[i], module),
    decreases items.len(),
{
    if items.len() > 0 {
        let less = items.drop_last();
        let q = items.len() - 1;
        lemma_items_use(less, module);
        let own = match items.last() {
            Item::Fn(f) => walk::block_nodes(f.body),
            Item::Test(t) => walk::block_nodes(t.body),
            _ => Seq::empty(),
        };
        lemma_meets_concat(check::body_nodes(less), own, module);
        if let Some(b) = body_of(items.last()) {
            lemma_body_use(b, module);
        }
        assert(meets_use(own, module) <==> item_uses(items[q], module));
        if exists|i: int| 0 <= i < less.len() && item_uses(#[trigger] less[i], module) {
            let i = choose|i: int| 0 <= i < less.len() && item_uses(#[trigger] less[i], module);
            assert(item_uses(items[i], module));
        }
        if exists|i: int| 0 <= i < items.len() && item_uses(#[trigger] items[i], module) {
            let i = choose|i: int| 0 <= i < items.len() && item_uses(#[trigger] items[i], module);
            if i < q {
                assert(item_uses(less[i], module));
            }
        }
    }
}

/// The finding says that a file uses a module without importing it, first at
/// this place, and its edit imports it: behind the last import, or at the top of
/// a file without imports.
pub open spec fn says_unimported(
    d: DiagnosticModel,
    unit: Unit,
    module: Seq<char>,
    span: Span,
) -> bool {
    let end = unit.module.last_import_end;
    &&& d.severity == Severity::Error
    &&& d.code == "E0322"@
    &&& d.kind == "unknown_module"@
    &&& d.file == unit.source.path@
    &&& d.span == span
    &&& d.message == "use of module `"@ + module + "` which is not imported"@
    &&& d.repair_strategies == seq!["add_import"@]
    &&& d.preferred_patch matches Some(p) && {
        &&& p.file == unit.source.path@
        &&& p.span.start == end && p.span.end == end
        &&& end > 0 ==> p.replacement == "\nimport "@ + module
        &&& end == 0 ==> p.replacement == "import "@ + module + "\n"@
        &&& p.rationale == "import the `"@ + module + "` module"@
    }
    &&& d.notes == seq!["add `import "@ + module + "` at the top of the file"@]
}

/// The finding is the one that is due for a module that a file uses without
/// importing it.
pub open spec fn due_import(
    d: DiagnosticModel,
    unit: Unit,
    module: Seq<char>,
    cx: Builtins,
) -> bool {
    &&& file_uses(unit, module, cx)
    &&& !imports(unit, module)
    &&& says_unimported(d, unit, module, d.span)
    &&& exists|k: int| #[trigger]
        places::used_first(check::body_nodes(unit.module.items@), module, d.span, cx, k)
}

proof fn lemma_module_missing(unit: Unit, cx: Builtins, module: Seq<char>)
    ensures
        check::modules_missing(unit, cx).finite(),
        check::modules_missing(unit, cx).contains(module) <==> file_uses(unit, module, cx)
            && !imports(unit, module),
        check::modules_missing(unit, cx).contains(module) ==> due_import(
            check::unknown_module(unit, module, check::modules_used(unit, cx)[module]),
            unit,
            module,
            cx,
        ),
{
    let list = check::body_nodes(unit.module.items@);
    laws::lemma_uses_finite(list, cx);
    places::law_first_use_counts(list, module, cx);
    lemma_items_use(unit.module.items@, module);
    let have = text::texts(unit.imports@);
    assert(have.contains(module) <==> imports(unit, module)) by {
        if have.contains(module) {
            let i = choose|i: int| 0 <= i < have.len() && have[i] == module;
            assert(unit.imports@[i]@ == module);
        }
        if imports(unit, module) {
            let i = choose|i: int|
                0 <= i < unit.imports@.len() && (#[trigger] unit.imports@[i])@ == module;
            assert(have[i] == module);
        }
    }
    assert(have.to_set().contains(module) <==> have.contains(module));
}

/// A file has the import errors that are due, in ascending order of the modules,
/// and no others: one for each module that it uses anywhere in a function or a
/// test and does not import.
pub proof fn law_import_errors_are_those_due(unit: Unit, cx: Builtins) -> (missing: Seq<Seq<char>>)
    ensures
        lists_all(missing, |m: Seq<char>| file_uses(unit, m, cx) && !imports(unit, m)),
        check::import_errors(unit, cx).len() == missing.len(),
        forall|i: int|
            0 <= i < missing.len() ==> due_import(
                #[trigger] check::import_errors(unit, cx)[i],
                unit,
                missing[i],
                cx,
            ),
{
    let set = check::modules_missing(unit, cx);
    let missing = names::listing(set);
    let has = |m: Seq<char>| file_uses(unit, m, cx) && !imports(unit, m);
    assert forall|m: Seq<char>| #[trigger] set.contains(m) <==> has(m) by {
        lemma_module_missing(unit, cx, m);
    }
    lemma_module_missing(unit, cx, Seq::empty());
    lemma_listed(set, has);
    assert(lists_all(missing, has));
    assert forall|i: int| 0 <= i < missing.len() implies due_import(
        #[trigger] check::import_errors(unit, cx)[i],
        unit,
        missing[i],
        cx,
    ) by {
        assert(missing.contains(missing[i]));
        assert(set.contains(missing[i]));
        lemma_module_missing(unit, cx, missing[i]);
    }
    missing
}

// ----- what is due of types -----

/// The type of the returned value at place `k`, with the parameters of the
/// function and the names that are taken there.
pub open spec fn returned_type(f: FnDecl, k: int, sigs: Sigs, reg: Records, cx: Builtins) -> TypeModel {
    let r = infer::returns_of(f.body)[k];
    infer::type_of(r.value, infer::scope_of(f.params@, r.taken, sigs, reg, cx))
}

/// The returned value at place `k` compared with the declared return type.
pub open spec fn returned_goes(
    f: FnDecl,
    ret: TypeExpr,
    k: int,
    sigs: Sigs,
    reg: Records,
    cx: Builtins,
    depth: nat,
) -> Option<bool> {
    types::compare(returned_type(f, k, sigs, reg, cx), types::resolved(ret), reg, depth)
}

/// The returned value at place `k` is the first that does not go with the
/// declared return type.
pub open spec fn first_clash(
    f: FnDecl,
    ret: TypeExpr,
    k: int,
    sigs: Sigs,
    reg: Records,
    cx: Builtins,
    depth: nat,
) -> bool {
    &&& 0 <= k < infer::returns_of(f.body).len()
    &&& returned_goes(f, ret, k, sigs, reg, cx, depth) == Some(false)
    &&& forall|j: int|
        0 <= j < k ==> #[trigger] returned_goes(f, ret, j, sigs, reg, cx, depth) == Some(true)
}

/// The finding says that a function returns at a place what it is not declared
/// to return, and its edit writes a return type that can be written and that the
/// returned value goes with.
pub open spec fn says_mismatch(
    d: DiagnosticModel,
    unit: Unit,
    f: FnDecl,
    ret: TypeExpr,
    value: Expr,
    got: TypeModel,
    written: TypeModel,
    reg: Records,
) -> bool {
    &&& d.severity == Severity::Error
    &&& d.code == "E0309"@
    &&& d.kind == "type_mismatch"@
    &&& d.file == unit.source.path@
    &&& d.span == value.place()
    &&& d.message == "function `"@ + f.name@ + "` returns `"@ + types::shown(got)
        + "` but is declared to return `"@ + types::shown(types::resolved(ret)) + "`"@
    &&& d.repair_strategies == seq!["fix_annotation"@, "convert_value"@]
    &&& d.preferred_patch matches Some(p) && {
        &&& p.file == unit.source.path@
        &&& p.span == ret.place()
        &&& p.replacement == types::shown(written)
        &&& p.rationale == "the returned value is `"@ + types::shown(got) + "`, not `"@
            + types::shown(types::resolved(ret)) + "`"@
    }
    &&& d.notes == seq!["either correct the return type annotation or convert the value"@]
    &&& types::known(written)
    &&& types::known(got) ==> written == got
    &&& forall|n: nat|
        (#[trigger] types::compare(got, written, reg, n)) is Some ==> types::compare(
            got,
            written,
            reg,
            n,
        ) == Some(true)
}

/// The finding is the one that is due for what a function returns.
pub open spec fn due_mismatch(
    d: DiagnosticModel,
    unit: Unit,
    f: FnDecl,
    sigs: Sigs,
    reg: Records,
    cx: Builtins,
    depth: nat,
) -> bool {
    f.ret matches Some(ret) && exists|k: int, written: TypeModel|
        #[trigger] first_clash(f, ret, k, sigs, reg, cx, depth) && #[trigger] says_mismatch(
            d,
            unit,
            f,
            ret,
            infer::returns_of(f.body)[k].value,
            returned_type(f, k, sigs, reg, cx),
            written,
            reg,
        )
}

proof fn lemma_first_clash(
    values: Seq<infer::Returned>,
    declared: TypeModel,
    sc: infer::Scope,
    depth: nat,
) -> (k: int)
    ensures
        ({
            let goes = |j: int| types::compare(
                infer::type_at(values[j], sc),
                declared,
                sc.reg,
                depth,
            );
            let found = check::first_mismatch(values, declared, sc, depth);
            &&& 0 <= k <= values.len()
            &&& forall|j: int| 0 <= j < k ==> #[trigger] goes(j) == Some(true)
            &&& k < values.len() ==> goes(k) != Some(true)
            &&& found == (if k == values.len() {
                Some(None)
            } else if goes(k) == Some(false) {
                Some(Some(values[k]))
            } else {
                None
            })
        }),
    decreases values.len(),
{
    if values.len() == 0 {
        0
    } else {
        let less = values.drop_last();
        let q = values.len() - 1;
        let k = lemma_first_clash(less, declared, sc, depth);
        let before = |j: int| types::compare(
            infer::type_at(less[j], sc),
            declared,
            sc.reg,
            depth,
        );
        let goes = |j: int| types::compare(
            infer::type_at(values[j], sc),
            declared,
            sc.reg,
            depth,
        );
        assert forall|j: int| 0 <= j < k implies #[trigger] goes(j) == Some(true) by {
            assert(before(j) == Some(true));
            assert(less[j] == values[j]);
        }
        if k < q {
            assert(less[k] == values[k]);
            assert(before(k) == goes(k));
            k
        } else if goes(q) == Some(true) {
            assert(values[q] == values.last());
            values.len() as int
        } else {
            assert(values[q] == values.last());
            q
        }
    }
}

/// A function has the finding on its return type that is due, and no other: one
/// for the first returned value that does not go with the declared type, and
/// none where all go with it or no type is declared. A check gives up only where
/// a comparison does not come to an end before a clash is found.
pub proof fn law_type_findings_are_those_due(
    f: FnDecl,
    unit: Unit,
    reg: Records,
    sigs: Sigs,
    cx: Builtins,
    depth: nat,
) -> (k: int)
    ensures
        ({
            let found = check::type_findings(f, unit, reg, sigs, cx, depth);
            &&& f.ret is None ==> found == Some(Seq::<DiagnosticModel>::empty())
            &&& f.ret matches Some(ret) ==> {
                &&& 0 <= k <= infer::returns_of(f.body).len()
                &&& forall|j: int|
                    0 <= j < k ==> #[trigger] returned_goes(f, ret, j, sigs, reg, cx, depth)
                        == Some(true)
                &&& k == infer::returns_of(f.body).len() ==> found == Some(
                    Seq::<DiagnosticModel>::empty(),
                )
                &&& k < infer::returns_of(f.body).len() ==> match returned_goes(
                    f,
                    ret,
                    k,
                    sigs,
                    reg,
                    cx,
                    depth,
                ) {
                    Some(true) => false,
                    Some(false) => found matches Some(list) && list.len() == 1 && due_mismatch(
                        list[0],
                        unit,
                        f,
                        sigs,
                        reg,
                        cx,
                        depth,
                    ),
                    None => found is None,
                }
            }
        }),
{
    match f.ret {
        None => 0,
        Some(ret) => {
            let sc = infer::scope_in(f, sigs, reg, cx);
            let values = infer::returns_of(f.body);
            let declared = types::resolved(ret);
            let k = lemma_first_clash(values, declared, sc, depth);
            let goes = |j: int| types::compare(
                infer::type_at(values[j], sc),
                declared,
                sc.reg,
                depth,
            );
            assert forall|j: int| goes(j) == #[trigger] returned_goes(
                f,
                ret,
                j,
                sigs,
                reg,
                cx,
                depth,
            ) by {
                let r = values[j];
                assert(infer::Scope { bound: r.taken, ..sc } == infer::scope_of(
                    f.params@,
                    r.taken,
                    sigs,
                    reg,
                    cx,
                ));
            }
            assert forall|j: int| 0 <= j < k implies #[trigger] returned_goes(
                f,
                ret,
                j,
                sigs,
                reg,
                cx,
                depth,
            ) == Some(true) by {
                assert(goes(j) == Some(true));
            }
            if k < values.len() && goes(k) == Some(false) {
                let got = returned_type(f, k, sigs, reg, cx);
                let written = check::patched_type(got, declared);
                let d = check::type_mismatch(f, ret, unit, values[k].value, got);
                types::law_fitted_can_be_written(got, declared);
                assert forall|n: nat|
                    (#[trigger] types::compare(got, written, reg, n)) is Some implies types::compare(
                    got,
                    written,
                    reg,
                    n,
                ) == Some(true) by {
                    types::law_fitted_goes(got, declared, reg, n);
                }
                if types::known(got) {
                    types::laws::law_known_type_is_kept(got, declared);
                }
                assert(says_mismatch(d, unit, f, ret, values[k].value, got, written, reg));
                assert(first_clash(f, ret, k, sigs, reg, cx, depth));
                assert(infer::type_at(values[k], sc) == got);
                assert(due_mismatch(d, unit, f, sigs, reg, cx, depth));
            }
            k
        },
    }
}

// ----- whole programs -----

/// A check of a program reads the declarations of all its files.
pub proof fn law_program_reads_all_its_files(program: Program)
    ensures
        program.sigs() == program::sigs_of(program::items_of(program.units@)),
        program.records() == program::records_of(program::items_of(program.units@)),
{
}

/// A function of a file of the program.
pub open spec fn has_fn(program: Program, u: int, f: FnDecl) -> bool {
    0 <= u < program.units@.len() && program.units@[u].module.items@.contains(Item::Fn(f))
}

/// The finding is due for a file: for a module it uses without importing it, or
/// for one of its functions.
pub open spec fn due_in(d: DiagnosticModel, program: Program, u: int, depth: nat) -> bool {
    let unit = program.units@[u];
    let cx = program.builtins;
    ||| exists|module: Seq<char>| #[trigger] due_import(d, unit, module, cx)
    ||| exists|f: FnDecl| #[trigger]
        has_fn(program, u, f) && (due_undeclared(d, unit, f, program.sigs(), cx) || due_unused(
            d,
            unit,
            f,
            program.sigs(),
            cx,
        ) || due_mismatch(d, unit, f, program.sigs(), program.records(), cx, depth))
}

/// Nothing is reported that is not due: every finding is due for some file.
pub proof fn law_every_finding_is_due(program: Program, depth: nat, d: DiagnosticModel)
    requires
        check::findings(program, depth) is Some,
        check::findings(program, depth)->Some_0.contains(d),
    ensures
        exists|u: int| 0 <= u < program.units@.len() && #[trigger] due_in(d, program, u, depth),
{
    let units = program.units@;
    let reg = program.records();
    let sigs = program.sigs();
    let cx = program.builtins;
    lemma_sigs_finite(program::items_of(units));
    lemma_units(units, reg, sigs, cx, depth, d);
    let u = choose|u: int|
        0 <= u < units.len() && of_unit(d, #[trigger] units[u], reg, sigs, cx, depth);
    let unit = units[u];
    if check::import_errors(unit, cx).contains(d) {
        let list = check::import_errors(unit, cx);
        let missing = law_import_errors_are_those_due(unit, cx);
        let i = choose|i: int| 0 <= i < list.len() && list[i] == d;
        assert(due_import(d, unit, missing[i], cx));
    } else {
        lemma_items(unit.module.items@, unit, reg, sigs, cx, depth, d);
        let items = unit.module.items@;
        let i = choose|i: int|
            0 <= i < items.len() && of_fn(d, #[trigger] items[i], unit, reg, sigs, cx, depth);
        let f = items[i]->Fn_0;
        assert(items.contains(Item::Fn(f)));
        assert(has_fn(program, u, f));
        let effects = check::effect_findings(f, unit, sigs, cx);
        let types = check::type_findings(f, unit, reg, sigs, cx, depth)->Some_0;
        lemma_concat(effects, types, d);
        law_effect_findings_are_those_due(f, unit, sigs, cx, d);
        let k = law_type_findings_are_those_due(f, unit, reg, sigs, cx, depth);
    }
    assert(due_in(d, program, u, depth));
}

/// Some finding of the check is due for this.
pub open spec fn reported(
    program: Program,
    depth: nat,
    due: spec_fn(DiagnosticModel) -> bool,
) -> bool {
    exists|d: DiagnosticModel| #[trigger]
        check::findings(program, depth)->Some_0.contains(d) && due(d)
}

/// All that is due is reported, of every file and every function of it, whatever
/// stands before or behind: each module that is used without being imported,
/// each function that performs what it does not declare, declares what it does
/// not perform, or returns what it is not declared to return.
pub proof fn law_all_that_is_due_is_reported(
    program: Program,
    depth: nat,
    u: int,
    f: FnDecl,
    module: Seq<char>,
    effect: Seq<char>,
    k: int,
)
    requires
        check::findings(program, depth) is Some,
        0 <= u < program.units@.len(),
    ensures
        ({
            let unit = program.units@[u];
            let sigs = program.sigs();
            let reg = program.records();
            let cx = program.builtins;
            &&& file_uses(unit, module, cx) && !imports(unit, module) ==> reported(
                program,
                depth,
                |d: DiagnosticModel| due_import(d, unit, module, cx),
            )
            &&& has_fn(program, u, f) && undeclared(f, effect, sigs, cx) ==> reported(
                program,
                depth,
                |d: DiagnosticModel| due_undeclared(d, unit, f, sigs, cx),
            )
            &&& has_fn(program, u, f) && unused(f, effect, sigs, cx) ==> reported(
                program,
                depth,
                |d: DiagnosticModel| due_unused(d, unit, f, sigs, cx),
            )
            &&& has_fn(program, u, f) && f.ret is Some && 0 <= k < infer::returns_of(f.body).len()
                && returned_goes(f, f.ret->Some_0, k, sigs, reg, cx, depth) == Some(false)
                ==> reported(
                program,
                depth,
                |d: DiagnosticModel| due_mismatch(d, unit, f, sigs, reg, cx, depth),
            )
        }),
{
    let units = program.units@;
    let unit = units[u];
    let reg = program.records();
    let sigs = program.sigs();
    let cx = program.builtins;
    let found = check::findings(program, depth)->Some_0;
    lemma_sigs_finite(program::items_of(units));
    if file_uses(unit, module, cx) && !imports(unit, module) {
        let missing = law_import_errors_are_those_due(unit, cx);
        let has = |m: Seq<char>| file_uses(unit, m, cx) && !imports(unit, m);
        assert(has(module));
        assert(missing.contains(module));
        let i = choose|i: int| 0 <= i < missing.len() && missing[i] == module;
        let d = check::import_errors(unit, cx)[i];
        assert(check::import_errors(unit, cx).contains(d));
        lemma_units(units, reg, sigs, cx, depth, d);
        assert(of_unit(d, units[u], reg, sigs, cx, depth));
        let due = |d: DiagnosticModel| due_import(d, unit, module, cx);
        assert(found.contains(d) && due(d));
    }
    if has_fn(program, u, f) {
        let effects = check::effect_findings(f, unit, sigs, cx);
        if undeclared(f, effect, sigs, cx) {
            let d = effects[0];
            law_effect_findings_are_those_due(f, unit, sigs, cx, d);
            assert(effects.contains(d));
            lemma_fn_reported(program, depth, u, f, d);
            let due = |d: DiagnosticModel| due_undeclared(d, unit, f, sigs, cx);
            assert(found.contains(d) && due(d));
        }
        if unused(f, effect, sigs, cx) {
            let d = effects.last();
            law_effect_findings_are_those_due(f, unit, sigs, cx, d);
            assert(effects.contains(d));
            lemma_fn_reported(program, depth, u, f, d);
            let due = |d: DiagnosticModel| due_unused(d, unit, f, sigs, cx);
            assert(found.contains(d) && due(d));
        }
        if f.ret is Some && 0 <= k < infer::returns_of(f.body).len() && returned_goes(
            f,
            f.ret->Some_0,
            k,
            sigs,
            reg,
            cx,
            depth,
        ) == Some(false) {
            let q = law_type_findings_are_those_due(f, unit, reg, sigs, cx, depth);
            assert(q <= k);
            lemma_fn_reported(program, depth, u, f, effects[0]);
            let list = check::type_findings(f, unit, reg, sigs, cx, depth)->Some_0;
            let d = list[0];
            assert(list.contains(d));
            lemma_fn_reported(program, depth, u, f, d);
            let due = |d: DiagnosticModel| due_mismatch(d, unit, f, sigs, reg, cx, depth);
            assert(found.contains(d) && due(d));
        }
    }
}

proof fn lemma_fn_reported(program: Program, depth: nat, u: int, f: FnDecl, d: DiagnosticModel)
    requires
        check::findings(program, depth) is Some,
        has_fn(program, u, f),
    ensures
        check::type_findings(
            f,
            program.units@[u],
            program.records(),
            program.sigs(),
            program.builtins,
            depth,
        ) is Some,
        check::effect_findings(f, program.units@[u], program.sigs(), program.builtins).contains(d)
            || check::type_findings(
            f,
            program.units@[u],
            program.records(),
            program.sigs(),
            program.builtins,
            depth,
        )->Some_0.contains(d) ==> check::findings(program, depth)->Some_0.contains(d),
{
    let units = program.units@;
    let unit = units[u];
    let items = unit.module.items@;
    let reg = program.records();
    let sigs = program.sigs();
    let cx = program.builtins;
    lemma_units(units, reg, sigs, cx, depth, d);
    assert(check::items_findings(units[u].module.items@, units[u], reg, sigs, cx, depth) is Some);
    lemma_items(items, unit, reg, sigs, cx, depth, d);
    let i = choose|i: int| 0 <= i < items.len() && items[i] == Item::Fn(f);
    let effects = check::effect_findings(f, unit, sigs, cx);
    let found = check::type_findings(f, unit, reg, sigs, cx, depth)->Some_0;
    assert(check::fn_findings(f, unit, reg, sigs, cx, depth) is Some) by {
        assert(items[i] matches Item::Fn(g));
    }
    lemma_concat(effects, found, d);
    if effects.contains(d) || found.contains(d) {
        assert(of_fn(d, items[i], unit, reg, sigs, cx, depth));
        assert(of_unit(d, units[u], reg, sigs, cx, depth));
    }
}

/// A program has no finding iff every file imports the modules it uses, and every
/// function declares exactly what it performs and returns what it declares.
pub proof fn law_clean_programs_have_no_findings(program: Program, depth: nat)
    requires
        check::findings(program, depth) is Some,
    ensures
        check::findings(program, depth)->Some_0.len() == 0 <==> {
            &&& forall|u: int, module: Seq<char>|
                0 <= u < program.units@.len() && #[trigger] file_uses(
                    program.units@[u],
                    module,
                    program.builtins,
                ) ==> imports(program.units@[u], module)
            &&& forall|u: int, f: FnDecl, effect: Seq<char>|
                #[trigger] has_fn(program, u, f) ==> (#[trigger] declares(f, effect)
                    <==> body_performs(f, effect, program.sigs(), program.builtins))
            &&& forall|u: int, f: FnDecl, k: int|
                #[trigger] has_fn(program, u, f) && f.ret is Some && 0 <= k < infer::returns_of(
                    f.body,
                ).len() ==> #[trigger] returned_goes(
                    f,
                    f.ret->Some_0,
                    k,
                    program.sigs(),
                    program.records(),
                    program.builtins,
                    depth,
                ) != Some(false)
        },
{
    let found = check::findings(program, depth)->Some_0;
    let units = program.units@;
    let sigs = program.sigs();
    let reg = program.records();
    let cx = program.builtins;
    if found.len() == 0 {
        assert forall|u: int, module: Seq<char>|
            0 <= u < units.len() && #[trigger] file_uses(units[u], module, cx) implies imports(
            units[u],
            module,
        ) by {
            if !imports(units[u], module) {
                law_all_that_is_due_is_reported(program, depth, u, arbitrary(), module, module, 0);
            }
        }
        assert forall|u: int, f: FnDecl, effect: Seq<char>| #[trigger]
            has_fn(program, u, f) implies (#[trigger] declares(f, effect) <==> body_performs(
            f,
            effect,
            sigs,
            cx,
        )) by {
            law_all_that_is_due_is_reported(program, depth, u, f, effect, effect, 0);
        }
        assert forall|u: int, f: FnDecl, k: int|
            #[trigger] has_fn(program, u, f) && f.ret is Some && 0 <= k < infer::returns_of(
                f.body,
            ).len() implies #[trigger] returned_goes(
            f,
            f.ret->Some_0,
            k,
            sigs,
            reg,
            cx,
            depth,
        ) != Some(false) by {
            law_all_that_is_due_is_reported(program, depth, u, f, Seq::empty(), Seq::empty(), k);
        }
    } else {
        let d = found[0];
        assert(found.contains(d));
        law_every_finding_is_due(program, depth, d);
        let u = choose|u: int| 0 <= u < units.len() && #[trigger] due_in(d, program, u, depth);
        let unit = units[u];
        if exists|module: Seq<char>| #[trigger] due_import(d, unit, module, cx) {
            let module = choose|module: Seq<char>| #[trigger] due_import(d, unit, module, cx);
            assert(file_uses(units[u], module, cx));
        } else {
            let f = choose|f: FnDecl| #[trigger]
                has_fn(program, u, f) && (due_undeclared(d, unit, f, sigs, cx) || due_unused(
                    d,
                    unit,
                    f,
                    sigs,
                    cx,
                ) || due_mismatch(d, unit, f, sigs, reg, cx, depth));
            if due_undeclared(d, unit, f, sigs, cx) {
                let (missing, all) = choose|missing: Seq<Seq<char>>, all: Seq<Seq<char>>| #[trigger]
                    says_undeclared(d, unit, f, missing, all) && missing.len() > 0 && lists_all(
                        missing,
                        |n: Seq<char>| undeclared(f, n, sigs, cx),
                    ) && lists_all(
                        all,
                        |n: Seq<char>| declares(f, n) || body_performs(f, n, sigs, cx),
                    );
                assert(missing.contains(missing[0]));
                assert(undeclared(f, missing[0], sigs, cx));
            } else if due_unused(d, unit, f, sigs, cx) {
                let (extra, left) = choose|extra: Seq<Seq<char>>, left: Seq<Seq<char>>| #[trigger]
                    says_unused(d, unit, f, extra, left) && extra.len() > 0 && lists_all(
                        extra,
                        |n: Seq<char>| unused(f, n, sigs, cx),
                    ) && lists_all(left, |n: Seq<char>| body_performs(f, n, sigs, cx));
                assert(extra.contains(extra[0]));
                assert(unused(f, extra[0], sigs, cx));
            }
        }
    }
}

/// A function that is declared to return a truth value and returns nothing but
/// comparisons and connectives has no finding on its return type, whatever their
/// sides are.
pub proof fn law_comparisons_fit_a_boolean(
    f: FnDecl,
    ret: TypeExpr,
    unit: Unit,
    reg: Records,
    sigs: Sigs,
    cx: Builtins,
    depth: nat,
)
    requires
        depth > 0,
        f.ret == Some(ret),
        ret matches TypeExpr::Name { name, .. } && name@ == "Bool"@,
        forall|k: int|
            0 <= k < infer::returns_of(f.body).len() ==> ((
            #[trigger] infer::returns_of(f.body)[k]).value matches Expr::Binary { op, .. }
                && typing::is_logical(op)),
    ensures
        check::type_findings(f, unit, reg, sigs, cx, depth) == Some(
            Seq::<DiagnosticModel>::empty(),
        ),
{
    reveal_strlit("Bool");
    reveal_strlit("Int");
    reveal_strlit("Float");
    assert("Bool"@.len() == 4 && "Int"@.len() == 3 && "Float"@.len() == 5);
    assert(types::resolved(ret) == TypeModel::Bool);
    let q = law_type_findings_are_those_due(f, unit, reg, sigs, cx, depth);
    if q < infer::returns_of(f.body).len() {
        let r = infer::returns_of(f.body)[q];
        if let Expr::Binary { op, lhs, rhs, span } = r.value {
            typing::law_comparisons_are_truth_values(
                op,
                lhs,
                rhs,
                span,
                infer::scope_of(f.params@, r.taken, sigs, reg, cx),
            );
        }
    }
}

// ----- helpers of other tools -----

/// The body of a function calls a builtin member that has the effect.
pub open spec fn calls_effect(f: FnDecl, effect: Seq<char>, cx: Builtins) -> bool {
    exists|x: Expr, k: int|
        places::occurs(x, f.body) && #[trigger] places::calls_member(x, cx, k)
            && (cx.members@[k].effect matches Some(e) && e@ == effect)
}

proof fn lemma_itself(f: FnDecl, effect: Seq<char>, cx: Builtins)
    ensures
        check::performed_itself(f, cx).contains(effect) <==> calls_effect(f, effect, cx),
{
    let none = Map::<Seq<char>, program::SigModel>::empty();
    places::law_effects_come_from_the_body(f.body, effect, none, cx);
    if check::performed_itself(f, cx).contains(effect) {
        let x = choose|x: Expr| #[trigger]
            places::occurs(x, f.body) && places::performs(x, effect, none, cx);
        let k = choose|k: int| #[trigger]
            places::calls_member(x, cx, k) && (cx.members@[k].effect matches Some(e) && e@
                == effect);
        assert(places::calls_member(x, cx, k));
    }
    if calls_effect(f, effect, cx) {
        let (x, k) = choose|x: Expr, k: int|
            places::occurs(x, f.body) && #[trigger] places::calls_member(x, cx, k)
                && (cx.members@[k].effect matches Some(e) && e@ == effect);
        assert(places::performs(x, effect, none, cx));
    }
}

proof fn lemma_items_perform(items: Seq<Item>, effect: Seq<char>, cx: Builtins)
    ensures
        check::effects_of_items(items, cx).contains(effect) <==> exists|f: FnDecl|
            #[trigger] items.contains(Item::Fn(f)) && calls_effect(f, effect, cx),
    decreases items.len(),
{
    if items.len() > 0 {
        let less = items.drop_last();
        let q = items.len() - 1;
        lemma_items_perform(less, effect, cx);
        if let Item::Fn(f) = items.last() {
            lemma_itself(f, effect, cx);
            assert(items[q] == Item::Fn(f));
            assert(items.contains(Item::Fn(f)));
        }
        if check::effects_of_items(less, cx).contains(effect) {
            let f = choose|f: FnDecl|
                #[trigger] less.contains(Item::Fn(f)) && calls_effect(f, effect, cx);
            let i = choose|i: int| 0 <= i < less.len() && less[i] == Item::Fn(f);
            assert(items[i] == Item::Fn(f));
            assert(items.contains(Item::Fn(f)));
        }
        if exists|f: FnDecl|
            #[trigger] items.contains(Item::Fn(f)) && calls_effect(f, effect, cx) {
            let f = choose|f: FnDecl|
                #[trigger] items.contains(Item::Fn(f)) && calls_effect(f, effect, cx);
            let i = choose|i: int| 0 <= i < items.len() && items[i] == Item::Fn(f);
            if i < q {
                assert(less[i] == Item::Fn(f));
                assert(less.contains(Item::Fn(f)));
            }
        }
    }
}

/// A program uses an effect iff some function of some file calls, anywhere in its
/// body, a builtin member that has the effect.
pub proof fn law_used_effects_are_those_performed(program: Program, effect: Seq<char>)
    ensures
        check::effects_of_items(
            program::items_of(program.units@),
            program.builtins,
        ).contains(effect) <==> exists|u: int, f: FnDecl|
            #[trigger] has_fn(program, u, f) && calls_effect(f, effect, program.builtins),
{
    let units = program.units@;
    let items = program::items_of(units);
    let cx = program.builtins;
    lemma_items_perform(items, effect, cx);
    if check::effects_of_items(items, cx).contains(effect) {
        let f = choose|f: FnDecl|
            #[trigger] items.contains(Item::Fn(f)) && calls_effect(f, effect, cx);
        program::laws::law_every_item_counts(units, Item::Fn(f));
        let u = choose|u: int|
            0 <= u < units.len() && (#[trigger] units[u]).module.items@.contains(Item::Fn(f));
        assert(has_fn(program, u, f));
    }
    if exists|u: int, f: FnDecl|
        #[trigger] has_fn(program, u, f) && calls_effect(f, effect, cx) {
        let (u, f) = choose|u: int, f: FnDecl|
            #[trigger] has_fn(program, u, f) && calls_effect(f, effect, cx);
        program::laws::law_every_item_counts(units, Item::Fn(f));
        assert(units[u].module.items@.contains(Item::Fn(f)));
    }
}

/// The text of a signature tells the types of all parameters in order, the
/// return type, `Unit` where there is none, and, behind them, the effects of the
/// clause in ascending order, where there is a clause.
pub proof fn law_signature_tells_types_and_effects(f: FnDecl) -> (parts: (
    Seq<Seq<char>>,
    Seq<Seq<char>>,
))
    ensures
        ({
            let (params, effects) = parts;
            let plain = "("@ + text::joined(params, ", "@) + ") -> "@ + (match f.ret {
                Some(t) => types::shown(types::resolved(t)),
                None => "Unit"@,
            });
            &&& params.len() == f.params@.len()
            &&& forall|i: int|
                0 <= i < params.len() ==> #[trigger] params[i] == types::shown(
                    types::resolved(f.params@[i].ty),
                )
            &&& f.effects is None ==> check::signature_text(f) == plain
            &&& f.effects matches Some(c) ==> {
                &&& check::signature_text(f) == plain + (" effects ["@ + text::joined(
                    effects,
                    ", "@,
                ) + "]"@)
                &&& effects.to_multiset() == Seq::new(
                    c.effects@.len(),
                    |i: int| c.effects@[i].name@,
                ).to_multiset()
                &&& forall|i: int, j: int|
                    0 <= i < j < effects.len() ==> #[trigger] effects[i] == #[trigger] effects[j]
                        || text::before(effects[i], effects[j])
            }
        }),
{
    let params = check::shown_params(f.params@);
    let effects = names::sorted(program::clause_names(f));
    names::law_sorting_keeps_all(program::clause_names(f));
    if let Some(c) = f.effects {
        assert(program::clause_names(f) =~= Seq::new(
            c.effects@.len(),
            |i: int| c.effects@[i].name@,
        ));
    } else {
        let plain = "("@ + text::joined(params, ", "@) + ") -> "@ + (match f.ret {
            Some(t) => types::shown(types::resolved(t)),
            None => "Unit"@,
        });
        assert(plain + Seq::<char>::empty() =~= plain);
    }
    (params, effects)
}

/// The text of a signature does not depend on the order in which the effects of
/// the clause are written, on the function's name or on its body.
pub proof fn law_signature_is_stable(f: FnDecl, g: FnDecl)
    requires
        f.params@ == g.params@,
        f.ret == g.ret,
        f.effects is None <==> g.effects is None,
        program::clause_names(f).to_multiset() == program::clause_names(g).to_multiset(),
    ensures
        check::signature_text(f) == check::signature_text(g),
{
    names::law_sorting_forgets_the_order(program::clause_names(f), program::clause_names(g));
}

} // verus!
