//! What holds of the checker as a whole.
use crate::ast::{Expr, FnDecl, Item, TypeExpr};
use crate::builtins::Builtins;
use crate::check;
use crate::diagnostics::{DiagnosticModel, Severity};
use crate::infer::{self, Returned};
use crate::names;
use crate::program::{self, Program, Sigs, Unit};
use crate::text;
use crate::types::{self, Records, TypeModel};
use crate::walk;
use vstd::prelude::*;

verus! {

// ----- every finding can be repaired -----

/// A finding carries a patch in its own file and names a strategy; it is a
/// warning iff it is about an effect that is declared and not performed.
pub open spec fn repairable(d: DiagnosticModel) -> bool {
    &&& d.preferred_patch matches Some(p) && p.file == d.file
    &&& d.repair_strategies.len() > 0
    &&& d.severity == Severity::Warning <==> d.kind == "effect_unused"@
}

/// All findings of a list can be repaired.
pub open spec fn all_repairable(list: Seq<DiagnosticModel>) -> bool {
    forall|i: int| 0 <= i < list.len() ==> repairable(#[trigger] list[i])
}

proof fn lemma_kinds()
    ensures
        "effect_unused"@ != "effect_undeclared"@,
        "effect_unused"@ != "type_mismatch"@,
        "effect_unused"@ != "unknown_module"@,
{
    reveal_strlit("effect_unused");
    reveal_strlit("effect_undeclared");
    reveal_strlit("type_mismatch");
    reveal_strlit("unknown_module");
    assert("effect_unused"@[0] != "type_mismatch"@[0]);
    assert("effect_unused"@.len() == 13);
    assert("effect_undeclared"@.len() == 17);
    assert("unknown_module"@.len() == 14);
}

proof fn lemma_items_repairable(
    items: Seq<Item>,
    unit: Unit,
    reg: Records,
    sigs: Sigs,
    cx: Builtins,
    depth: nat,
)
    ensures
        check::items_findings(items, unit, reg, sigs, cx, depth) matches Some(found)
            ==> all_repairable(found),
    decreases items.len(),
{
    if items.len() > 0 {
        lemma_items_repairable(items.drop_last(), unit, reg, sigs, cx, depth);
        lemma_kinds();
    }
}

proof fn lemma_units_repairable(
    units: Seq<Unit>,
    reg: Records,
    sigs: Sigs,
    cx: Builtins,
    depth: nat,
)
    ensures
        check::units_findings(units, reg, sigs, cx, depth) matches Some(found) ==> all_repairable(
            found,
        ),
    decreases units.len(),
{
    if units.len() > 0 {
        let unit = units.last();
        lemma_units_repairable(units.drop_last(), reg, sigs, cx, depth);
        lemma_kinds();
        lemma_items_repairable(unit.module.items@, unit, reg, sigs, cx, depth);
    }
}

/// Every finding of a check, error or warning, carries an edit of the file it was
/// found in, and names a repair strategy. Only unused effects are warnings.
pub proof fn law_every_finding_can_be_repaired(program: Program, depth: nat)
    requires
        check::findings(program, depth) is Some,
    ensures
        all_repairable(check::findings(program, depth)->Some_0),
{
    lemma_units_repairable(
        program.units@,
        program.records(),
        program.sigs(),
        program.builtins,
        depth,
    );
}

// ----- effects -----

/// A function has no finding about effects iff it declares exactly what it
/// performs.
pub proof fn law_effects_are_settled_when_declared(
    f: FnDecl,
    unit: Unit,
    sigs: Sigs,
    cx: Builtins,
)
    ensures
        check::effect_findings(f, unit, sigs, cx).len() == 0 <==> program::declared_effects(f)
            == check::performed(f, sigs, cx),
{
    let declared = program::declared_effects(f);
    let used = check::performed(f, sigs, cx);
    let none = Set::<Seq<char>>::empty();
    if declared == used {
        assert(used.difference(declared) =~= none);
        assert(declared.difference(used) =~= none);
    }
    if check::effect_findings(f, unit, sigs, cx).len() == 0 {
        assert(used.difference(declared) == none);
        if f.effects is None {
            assert(declared =~= none);
        }
        assert(declared.difference(used) =~= none);
        assert forall|e: Seq<char>| used.contains(e) == declared.contains(e) by {
            if used.contains(e) && !declared.contains(e) {
                assert(used.difference(declared).contains(e));
            }
            if declared.contains(e) && !used.contains(e) {
                assert(declared.difference(used).contains(e));
            }
        }
        assert(declared =~= used);
    }
}

proof fn lemma_performed_after(
    body: Seq<Expr>,
    sigs: Sigs,
    name: Seq<char>,
    sig: program::SigModel,
    cx: Builtins,
    e: Seq<char>,
)
    requires
        walk::effects_in(body, sigs.insert(name, sig), cx).contains(e),
    ensures
        walk::effects_in(body, sigs, cx).contains(e) || sig.effects.contains(e),
{
    let more = sigs.insert(name, sig);
    let k = choose|k: int|
        0 <= k < body.len() && #[trigger] walk::own_effects(body[k], more, cx).contains(e);
    if !sig.effects.contains(e) {
        assert(walk::own_effects(body[k], sigs, cx).contains(e));
    }
}

/// The patch for undeclared effects settles them: where a function declares all
/// that it declared or performed before, it performs nothing undeclared, though
/// calls of it now carry more.
pub proof fn law_effect_patch_settles(
    f: FnDecl,
    patched: FnDecl,
    unit: Unit,
    sigs: Sigs,
    cx: Builtins,
)
    requires
        patched.body == f.body,
        program::declared_effects(patched) == program::declared_effects(f).union(
            check::performed(f, sigs, cx),
        ),
    ensures
        ({
            let after = sigs.insert(patched.name@, program::sig_of(patched));
            &&& check::performed(patched, after, cx).subset_of(program::declared_effects(patched))
            &&& forall|i: int|
                0 <= i < check::effect_findings(patched, unit, after, cx).len() ==> (
                #[trigger] check::effect_findings(patched, unit, after, cx)[i]).severity
                    == Severity::Warning
        }),
{
    let sig = program::sig_of(patched);
    let after = sigs.insert(patched.name@, sig);
    let declared = program::declared_effects(patched);
    let used = check::performed(patched, after, cx);
    let body = walk::block_nodes(f.body);
    assert forall|e: Seq<char>| used.contains(e) implies declared.contains(e) by {
        lemma_performed_after(body, sigs, patched.name@, sig, cx, e);
        assert(sig.effects == declared);
    }
    assert(used.difference(declared) =~= Set::<Seq<char>>::empty());
}

/// What a program performs does not depend on what its functions declare: two
/// lists of functions with the same bodies perform the same effects.
pub proof fn law_declaring_is_not_performing(a: Seq<Item>, b: Seq<Item>, cx: Builtins)
    requires
        a.len() == b.len(),
        forall|i: int|
            0 <= i < a.len() ==> match (#[trigger] a[i], b[i]) {
                (Item::Fn(f), Item::Fn(g)) => f.body == g.body,
                (Item::Fn(_), _) => false,
                (_, Item::Fn(_)) => false,
                _ => true,
            },
    ensures
        check::effects_of_items(a, cx) == check::effects_of_items(b, cx),
    decreases a.len(),
{
    if a.len() > 0 {
        assert forall|i: int| 0 <= i < a.drop_last().len() implies match (
            #[trigger] a.drop_last()[i],
            b.drop_last()[i],
        ) {
            (Item::Fn(f), Item::Fn(g)) => f.body == g.body,
            (Item::Fn(_), _) => false,
            (_, Item::Fn(_)) => false,
            _ => true,
        } by {
            assert(a.drop_last()[i] == a[i]);
        }
        law_declaring_is_not_performing(a.drop_last(), b.drop_last(), cx);
        assert(a[a.len() - 1] == a.last());
    }
}

// ----- imports -----

pub proof fn lemma_uses_finite(list: Seq<Expr>, cx: Builtins)
    ensures
        walk::first_uses(list, cx).dom().finite(),
    decreases list.len(),
{
    if list.len() > 0 {
        lemma_uses_finite(list.drop_last(), cx);
    }
}

/// A file that imports all modules it uses has no import error, and a file
/// without an import error imports all modules it uses.
pub proof fn law_imports_are_settled_when_complete(unit: Unit, cx: Builtins)
    ensures
        check::import_errors(unit, cx).len() == 0 <==> check::modules_used(unit, cx).dom().subset_of(
            text::texts(unit.imports@).to_set(),
        ),
{
    let missing = check::modules_missing(unit, cx);
    let list = names::listing(missing);
    lemma_uses_finite(check::body_nodes(unit.module.items@), cx);
    names::lemma_listing_exists(missing);
    let imported = text::texts(unit.imports@).to_set();
    assert(check::import_errors(unit, cx).len() == list.len());
    if list.len() == 0 {
        assert forall|m: Seq<char>|
            check::modules_used(unit, cx).dom().contains(m) implies imported.contains(m) by {
            if !imported.contains(m) {
                assert(missing.contains(m));
                assert(list.contains(m));
            }
        }
    } else {
        assert(list.contains(list[0]));
        assert(missing.contains(list[0]));
    }
}

/// The patch for a missing import settles it, and touches no other: a file that
/// imports one module more lacks that one no longer.
pub proof fn law_import_patch_settles(unit: Unit, patched: Unit, module: Seq<char>, cx: Builtins)
    requires
        patched.module.items == unit.module.items,
        text::texts(patched.imports@).to_set() == text::texts(unit.imports@).to_set().insert(module),
    ensures
        check::modules_missing(patched, cx) == check::modules_missing(unit, cx).remove(module),
{
    assert(check::modules_missing(patched, cx) =~= check::modules_missing(unit, cx).remove(module));
}

// ----- types -----

/// All of these values go with the declared type, at this depth.
pub open spec fn all_go(
    values: Seq<Returned>,
    declared: TypeModel,
    sc: infer::Scope,
    depth: nat,
) -> bool {
    forall|i: int|
        0 <= i < values.len() ==> types::compare(
            infer::type_at(#[trigger] values[i], sc),
            declared,
            sc.reg,
            depth,
        ) == Some(true)
}

proof fn lemma_no_mismatch(
    values: Seq<Returned>,
    declared: TypeModel,
    sc: infer::Scope,
    depth: nat,
)
    requires
        all_go(values, declared, sc, depth),
    ensures
        check::first_mismatch(values, declared, sc, depth) == Some(None::<Returned>),
    decreases values.len(),
{
    if values.len() > 0 {
        assert forall|i: int| 0 <= i < values.drop_last().len() implies types::compare(
            infer::type_at(#[trigger] values.drop_last()[i], sc),
            declared,
            sc.reg,
            depth,
        ) == Some(true) by {
            assert(values.drop_last()[i] == values[i]);
        }
        lemma_no_mismatch(values.drop_last(), declared, sc, depth);
        assert(values[values.len() - 1] == values.last());
    }
}

/// A value that is reported is returned, and does not go with the declared type.
pub proof fn law_reported_value_clashes(
    values: Seq<Returned>,
    declared: TypeModel,
    sc: infer::Scope,
    depth: nat,
)
    ensures
        check::first_mismatch(values, declared, sc, depth) matches Some(Some(value)) ==> {
            &&& values.contains(value)
            &&& types::compare(infer::type_at(value, sc), declared, sc.reg, depth) == Some(false)
        },
    decreases values.len(),
{
    if values.len() > 0 {
        let less = values.drop_last();
        law_reported_value_clashes(less, declared, sc, depth);
        if let Some(Some(value)) = check::first_mismatch(values, declared, sc, depth) {
            if check::first_mismatch(less, declared, sc, depth) == Some(None::<Returned>) {
                assert(values[values.len() - 1] == value);
            } else {
                let k = choose|k: int| 0 <= k < less.len() && less[k] == value;
                assert(values[k] == value);
            }
        }
    }
}

/// The type of an expression does not depend on the signature of a function that
/// is not called in it.
proof fn lemma_uncalled(e: Expr, sc: infer::Scope, other: infer::Scope, name: Seq<char>)
    requires
        !walk::calls_in(walk::nodes(e)).contains(name),
        other == (infer::Scope { sigs: other.sigs, ..sc }),
        other.sigs.remove(name) == sc.sigs.remove(name),
    ensures
        infer::type_of(e, other) == infer::type_of(e, sc),
    decreases e,
{
    let own = seq![e];
    match e {
        Expr::Unary { expr, .. } => {
            walk::lemma_calls_concat(own, walk::nodes(*expr));
            lemma_uncalled(*expr, sc, other, name);
        },
        Expr::Binary { lhs, rhs, .. } => {
            walk::lemma_calls_concat(own, walk::nodes(*lhs) + walk::nodes(*rhs));
            walk::lemma_calls_concat(walk::nodes(*lhs), walk::nodes(*rhs));
            lemma_uncalled(*lhs, sc, other, name);
        },
        Expr::Field { recv, .. } => {
            walk::lemma_calls_concat(own, walk::nodes(*recv));
            lemma_uncalled(*recv, sc, other, name);
        },
        Expr::Try { expr, .. } => {
            walk::lemma_calls_concat(own, walk::nodes(*expr));
            lemma_uncalled(*expr, sc, other, name);
        },
        Expr::MakeOk(inner, _) => {
            walk::lemma_calls_concat(own, walk::nodes(*inner));
            lemma_uncalled(*inner, sc, other, name);
        },
        Expr::MakeErr(inner, _) => {
            walk::lemma_calls_concat(own, walk::nodes(*inner));
            lemma_uncalled(*inner, sc, other, name);
        },
        Expr::Record { fields, .. } => {
            walk::lemma_calls_concat(own, walk::field_nodes(fields@));
            lemma_uncalled_fields(fields@, sc, other, name);
        },
        Expr::Call { callee, .. } => {
            if let Expr::Ident(f, _) = *callee {
                assert(walk::nodes(e)[0] == e);
                assert(walk::own_call(walk::nodes(e)[0]) == Some(f@));
                assert(walk::calls_in(walk::nodes(e)).contains(f@));
                assert(f@ != name);
                let less = sc.sigs.remove(name);
                assert(less.dom().contains(f@) <==> sc.sigs.dom().contains(f@));
                assert(less.dom().contains(f@) <==> other.sigs.dom().contains(f@));
                if less.dom().contains(f@) {
                    assert(less[f@] == sc.sigs[f@]);
                    assert(less[f@] == other.sigs[f@]);
                }
            }
        },
        _ => {},
    }
}

proof fn lemma_uncalled_fields(
    fields: Seq<(String, Expr)>,
    sc: infer::Scope,
    other: infer::Scope,
    name: Seq<char>,
)
    requires
        !walk::calls_in(walk::field_nodes(fields)).contains(name),
        other == (infer::Scope { sigs: other.sigs, ..sc }),
        other.sigs.remove(name) == sc.sigs.remove(name),
    ensures
        infer::types_of_fields(fields, other) == infer::types_of_fields(fields, sc),
    decreases fields,
{
    if fields.len() > 0 {
        let less = fields.drop_last();
        walk::lemma_calls_concat(walk::field_nodes(less), walk::nodes(fields.last().1));
        lemma_uncalled_fields(less, sc, other, name);
        lemma_uncalled(fields.last().1, sc, other, name);
    }
}

/// `patched` is `f` with the return type that the patch of the mismatch at
/// `value` writes.
pub open spec fn is_patched(
    f: FnDecl,
    patched: FnDecl,
    ret: TypeExpr,
    value: Returned,
    reg: Records,
    sigs: Sigs,
    cx: Builtins,
    depth: nat,
) -> bool {
    let sc = infer::scope_in(f, sigs, reg, cx);
    &&& patched.name@ == f.name@
    &&& patched.body == f.body
    &&& patched.params == f.params
    &&& patched.ret == Some(ret)
    &&& f.ret matches Some(was) && {
        &&& check::first_mismatch(
            infer::returns_of(f.body),
            types::resolved(was),
            sc,
            depth,
        ) == Some(Some(value))
        &&& types::resolved(ret) == check::patched_type(
            infer::type_at(value, sc),
            types::resolved(was),
        )
    }
}

/// The patch for a mismatch settles it: with the return type that it writes, a
/// function has no mismatch, where everything it returns goes with that type.
/// Calls of the function now give the new type.
pub proof fn law_annotation_patch_settles(
    f: FnDecl,
    patched: FnDecl,
    ret: TypeExpr,
    value: Returned,
    unit: Unit,
    reg: Records,
    sigs: Sigs,
    cx: Builtins,
    depth: nat,
)
    requires
        is_patched(f, patched, ret, value, reg, sigs, cx, depth),
        all_go(
            infer::returns_of(f.body),
            types::resolved(ret),
            infer::scope_in(
                patched,
                sigs.insert(patched.name@, program::sig_of(patched)),
                reg,
                cx,
            ),
            depth,
        ),
    ensures
        check::type_findings(
            patched,
            unit,
            reg,
            sigs.insert(patched.name@, program::sig_of(patched)),
            cx,
            depth,
        ) == Some(Seq::<DiagnosticModel>::empty()),
{
    let sc = infer::scope_in(
        patched,
        sigs.insert(patched.name@, program::sig_of(patched)),
        reg,
        cx,
    );
    lemma_no_mismatch(infer::returns_of(f.body), types::resolved(ret), sc, depth);
}

/// The value that a patch was made for is not reported again, and goes with the
/// return type that the patch writes, where that comparison comes to an end. The
/// value must not call the function itself: what it has then changes with the
/// patch.
pub proof fn law_patched_value_is_not_reported_again(
    f: FnDecl,
    patched: FnDecl,
    ret: TypeExpr,
    value: Returned,
    reg: Records,
    sigs: Sigs,
    cx: Builtins,
    depth: nat,
)
    requires
        is_patched(f, patched, ret, value, reg, sigs, cx, depth),
        !walk::calls_in(walk::nodes(value.value)).contains(f.name@),
    ensures
        ({
            let after = sigs.insert(patched.name@, program::sig_of(patched));
            let sc = infer::scope_in(patched, after, reg, cx);
            let outcome = types::compare(
                infer::type_at(value, sc),
                types::resolved(ret),
                reg,
                depth,
            );
            &&& outcome is Some ==> outcome == Some(true)
            &&& check::first_mismatch(
                infer::returns_of(patched.body),
                types::resolved(ret),
                sc,
                depth,
            ) != Some(Some(value))
            &&& types::known(types::resolved(ret))
        }),
{
    let was = types::resolved(f.ret->Some_0);
    let before = infer::scope_in(f, sigs, reg, cx);
    let after = sigs.insert(patched.name@, program::sig_of(patched));
    let sc = infer::scope_in(patched, after, reg, cx);
    let got = infer::type_at(value, before);
    assert(after.remove(f.name@) =~= sigs.remove(f.name@));
    lemma_uncalled(
        value.value,
        infer::Scope { bound: value.taken, ..before },
        infer::Scope { bound: value.taken, ..sc },
        f.name@,
    );
    types::law_fitted_can_be_written(got, was);
    if types::compare(got, types::resolved(ret), reg, depth) is Some {
        types::law_fitted_goes(got, was, reg, depth);
    }
    law_reported_value_clashes(
        infer::returns_of(patched.body),
        types::resolved(ret),
        sc,
        depth,
    );
}

/// A function without a return type has no mismatch.
pub proof fn law_no_annotation_no_mismatch(
    f: FnDecl,
    unit: Unit,
    reg: Records,
    sigs: Sigs,
    cx: Builtins,
    depth: nat,
)
    requires
        f.ret is None,
    ensures
        check::type_findings(f, unit, reg, sigs, cx, depth) == Some(
            Seq::<DiagnosticModel>::empty(),
        ),
{
}

// ----- checks that come to an end -----

/// Every comparison that checking a function takes comes to an end at this depth.
pub open spec fn comparisons_end(
    f: FnDecl,
    reg: Records,
    sigs: Sigs,
    cx: Builtins,
    depth: nat,
) -> bool {
    f.ret matches Some(ret) ==> forall|i: int|
        0 <= i < infer::returns_of(f.body).len() ==> types::compare(
            infer::type_at(
                #[trigger] infer::returns_of(f.body)[i],
                infer::scope_in(f, sigs, reg, cx),
            ),
            types::resolved(ret),
            reg,
            depth,
        ) is Some
}

proof fn lemma_mismatch_ends(
    values: Seq<Returned>,
    declared: TypeModel,
    sc: infer::Scope,
    depth: nat,
)
    requires
        forall|i: int|
            0 <= i < values.len() ==> types::compare(
                infer::type_at(#[trigger] values[i], sc),
                declared,
                sc.reg,
                depth,
            ) is Some,
    ensures
        check::first_mismatch(values, declared, sc, depth) is Some,
    decreases values.len(),
{
    if values.len() > 0 {
        assert forall|i: int| 0 <= i < values.drop_last().len() implies types::compare(
            infer::type_at(#[trigger] values.drop_last()[i], sc),
            declared,
            sc.reg,
            depth,
        ) is Some by {
            assert(values.drop_last()[i] == values[i]);
        }
        lemma_mismatch_ends(values.drop_last(), declared, sc, depth);
        assert(values[values.len() - 1] == values.last());
    }
}

proof fn lemma_items_end(
    items: Seq<Item>,
    unit: Unit,
    reg: Records,
    sigs: Sigs,
    cx: Builtins,
    depth: nat,
)
    requires
        forall|i: int|
            0 <= i < items.len() ==> (#[trigger] items[i] matches Item::Fn(f) ==> comparisons_end(
                f,
                reg,
                sigs,
                cx,
                depth,
            )),
    ensures
        check::items_findings(items, unit, reg, sigs, cx, depth) is Some,
    decreases items.len(),
{
    if items.len() > 0 {
        assert forall|i: int| 0 <= i < items.drop_last().len() implies (
        #[trigger] items.drop_last()[i] matches Item::Fn(f) ==> comparisons_end(
            f,
            reg,
            sigs,
            cx,
            depth,
        )) by {
            assert(items.drop_last()[i] == items[i]);
        }
        lemma_items_end(items.drop_last(), unit, reg, sigs, cx, depth);
        if let Item::Fn(f) = items[items.len() - 1] {
            if let Some(ret) = f.ret {
                lemma_mismatch_ends(
                    infer::returns_of(f.body),
                    types::resolved(ret),
                    infer::scope_in(f, sigs, reg, cx),
                    depth,
                );
            }
        }
    }
}

/// Every comparison that checking the files takes comes to an end at this depth.
pub open spec fn all_comparisons_end(
    units: Seq<Unit>,
    reg: Records,
    sigs: Sigs,
    cx: Builtins,
    depth: nat,
) -> bool {
    forall|u: int, i: int|
        #![trigger units[u].module.items@[i]]
        0 <= u < units.len() && 0 <= i < units[u].module.items@.len() ==> (
        units[u].module.items@[i] matches Item::Fn(f) ==> comparisons_end(
            f,
            reg,
            sigs,
            cx,
            depth,
        ))
}

/// A check comes to an end where the comparisons of types that it takes do.
pub proof fn law_check_ends_where_comparisons_do(
    units: Seq<Unit>,
    reg: Records,
    sigs: Sigs,
    cx: Builtins,
    depth: nat,
)
    requires
        all_comparisons_end(units, reg, sigs, cx, depth),
    ensures
        check::units_findings(units, reg, sigs, cx, depth) is Some,
    decreases units.len(),
{
    if units.len() > 0 {
        let less = units.drop_last();
        assert forall|u: int, i: int|
            #![trigger less[u].module.items@[i]]
            0 <= u < less.len() && 0 <= i < less[u].module.items@.len() implies (
        less[u].module.items@[i] matches Item::Fn(f) ==> comparisons_end(
            f,
            reg,
            sigs,
            cx,
            depth,
        )) by {
            assert(less[u] == units[u]);
            assert(less[u].module.items@[i] == units[u].module.items@[i]);
        }
        law_check_ends_where_comparisons_do(less, reg, sigs, cx, depth);
        let last = units.len() - 1;
        let items = units[last].module.items@;
        assert forall|i: int| 0 <= i < items.len() implies (
        #[trigger] items[i] matches Item::Fn(f) ==> comparisons_end(f, reg, sigs, cx, depth)) by {
            assert(items[i] == units[last].module.items@[i]);
        }
        lemma_items_end(items, units.last(), reg, sigs, cx, depth);
    }
}

/// The types that a function returns and declares are no larger than `bound`,
/// each pair of them measured by `size`.
pub open spec fn types_within(
    f: FnDecl,
    program: Program,
    size: spec_fn(TypeModel, TypeModel) -> nat,
    bound: nat,
) -> bool {
    f.ret matches Some(ret) ==> forall|i: int|
        0 <= i < infer::returns_of(f.body).len() ==> size(
            infer::type_at(
                #[trigger] infer::returns_of(f.body)[i],
                infer::scope_in(f, program.sigs(), program.records(), program.builtins),
            ),
            types::resolved(ret),
        ) <= bound
}

/// The types in the functions of a program are no larger than `bound`.
pub open spec fn all_types_within(
    program: Program,
    size: spec_fn(TypeModel, TypeModel) -> nat,
    bound: nat,
) -> bool {
    forall|u: int, i: int|
        #![trigger program.units@[u].module.items@[i]]
        0 <= u < program.units@.len() && 0 <= i < program.units@[u].module.items@.len() ==> (
        program.units@[u].module.items@[i] matches Item::Fn(f) ==> types_within(
            f,
            program,
            size,
            bound,
        ))
}

proof fn lemma_sized_programs_end(
    program: Program,
    size: spec_fn(TypeModel, TypeModel) -> nat,
    bound: nat,
    depth: nat,
)
    requires
        all_types_within(program, size, bound),
        forall|a: TypeModel, b: TypeModel| #[trigger]
            size(a, b) <= bound ==> types::compare(a, b, program.records(), depth) is Some,
    ensures
        check::findings(program, depth) is Some,
{
    let reg = program.records();
    let sigs = program.sigs();
    let cx = program.builtins;
    let units = program.units@;
    assert forall|u: int, i: int|
        #![trigger units[u].module.items@[i]]
        0 <= u < units.len() && 0 <= i < units[u].module.items@.len() implies (
    units[u].module.items@[i] matches Item::Fn(f) ==> comparisons_end(f, reg, sigs, cx, depth)) by {
        if let Item::Fn(f) = program.units@[u].module.items@[i] {
            assert(types_within(f, program, size, bound));
            if let Some(ret) = f.ret {
                let values = infer::returns_of(f.body);
                let sc = infer::scope_in(f, sigs, reg, cx);
                assert forall|k: int| 0 <= k < values.len() implies types::compare(
                    infer::type_at(#[trigger] values[k], sc),
                    types::resolved(ret),
                    reg,
                    depth,
                ) is Some by {
                    assert(size(infer::type_at(values[k], sc), types::resolved(ret)) <= bound);
                }
            }
        }
    }
    law_check_ends_where_comparisons_do(units, reg, sigs, cx, depth);
}

/// A program whose declared records refer to each other by name can be checked:
/// every comparison of types comes to an end, though the names go in circles.
pub proof fn law_flat_programs_are_checkable(program: Program, bound: nat)
    requires
        types::flat_records(program.records()),
        2 * bound + 1 <= u64::MAX,
        all_types_within(
            program,
            |a: TypeModel, b: TypeModel| types::weight(a) + types::weight(b),
            bound,
        ),
    ensures
        check::checkable(program),
{
    let size = |a: TypeModel, b: TypeModel| types::weight(a) + types::weight(b);
    let reg = program.records();
    let depth = u64::MAX as nat;
    assert forall|a: TypeModel, b: TypeModel| #[trigger] size(a, b) <= bound implies types::compare(
        a,
        b,
        reg,
        depth,
    ) is Some by {
        types::law_flat_records_compare(a, b, reg, depth);
    }
    lemma_sized_programs_end(program, size, bound, depth);
}

proof fn lemma_records_finite(items: Seq<Item>)
    ensures
        program::records_of(items).dom().finite(),
    decreases items.len(),
{
    if items.len() > 0 {
        lemma_records_finite(items.drop_last());
    }
}

/// A program in which no declared record reaches itself can be checked.
pub proof fn law_acyclic_programs_are_checkable(program: Program)
    requires
        types::laws::acyclic(program.records()),
        all_types_within(
            program,
            |a: TypeModel, b: TypeModel| types::laws::enough(a, b, program.records()),
            u64::MAX as nat,
        ),
    ensures
        check::checkable(program),
{
    let reg = program.records();
    let size = |a: TypeModel, b: TypeModel| types::laws::enough(a, b, reg);
    let depth = u64::MAX as nat;
    lemma_records_finite(program::items_of(program.units@));
    assert forall|a: TypeModel, b: TypeModel| #[trigger] size(a, b) <= depth implies types::compare(
        a,
        b,
        reg,
        depth,
    ) is Some by {
        types::laws::law_acyclic_records_compare(a, b, reg, depth);
    }
    lemma_sized_programs_end(program, size, depth, depth);
}

} // verus!
