//! What a program declares.
use crate::ast::{FnDecl, Item, TypeExpr};
use crate::program::{self, Unit};
use crate::types;
use vstd::prelude::*;

verus! {

/// The items of a program are those of its files, file by file.
pub proof fn law_items_are_those_of_the_files(a: Seq<Unit>, b: Seq<Unit>, unit: Unit)
    ensures
        program::items_of(a + b) == program::items_of(a) + program::items_of(b),
        program::items_of(seq![unit]) == unit.module.items@,
    decreases b.len(),
{
    assert(seq![unit].drop_last() =~= Seq::<Unit>::empty());
    assert(program::items_of(seq![unit].drop_last()) =~= Seq::<Item>::empty());
    assert(program::items_of(seq![unit]) =~= unit.module.items@);
    if b.len() == 0 {
        assert(a + b =~= a);
        assert(program::items_of(a) + program::items_of(b) =~= program::items_of(a));
    } else {
        assert((a + b).drop_last() =~= a + b.drop_last());
        law_items_are_those_of_the_files(a, b.drop_last(), unit);
        assert(program::items_of(a + b) =~= program::items_of(a) + program::items_of(b));
    }
}

/// Every item of every file is an item of the program, and there are no others.
pub proof fn law_every_item_counts(units: Seq<Unit>, item: Item)
    ensures
        program::items_of(units).contains(item) <==> exists|u: int|
            0 <= u < units.len() && (#[trigger] units[u]).module.items@.contains(item),
    decreases units.len(),
{
    if units.len() > 0 {
        let less = units.drop_last();
        law_every_item_counts(less, item);
        let before = program::items_of(less);
        let own = units.last().module.items@;
        if before.contains(item) {
            let u = choose|u: int|
                0 <= u < less.len() && (#[trigger] less[u]).module.items@.contains(item);
            assert(units[u].module.items@.contains(item));
            let i = choose|i: int| 0 <= i < before.len() && before[i] == item;
            assert((before + own)[i] == item);
        }
        if own.contains(item) {
            assert(units[units.len() - 1].module.items@.contains(item));
            let i = choose|i: int| 0 <= i < own.len() && own[i] == item;
            assert((before + own)[before.len() + i] == item);
        }
        if program::items_of(units).contains(item) {
            let i = choose|i: int| 0 <= i < (before + own).len() && (before + own)[i] == item;
            if i < before.len() {
                assert(before[i] == item);
            } else {
                assert(own[i - before.len()] == item);
            }
        }
        if exists|u: int| 0 <= u < units.len() && (#[trigger] units[u]).module.items@.contains(item) {
            let u = choose|u: int|
                0 <= u < units.len() && (#[trigger] units[u]).module.items@.contains(item);
            if u < less.len() {
                assert(less[u].module.items@.contains(item));
            }
        }
    }
}

// ----- effects -----

/// The effect clause of a function names an effect.
pub open spec fn declares(f: FnDecl, effect: Seq<char>) -> bool {
    f.effects matches Some(c) && exists|j: int|
        0 <= j < c.effects@.len() && (#[trigger] c.effects@[j]).name@ == effect
}

/// A function declares the effects that its clause names; without a clause it
/// declares none.
pub proof fn law_clause_declares(f: FnDecl, effect: Seq<char>)
    ensures
        program::declared_effects(f).contains(effect) <==> declares(f, effect),
{
    let names = program::clause_names(f);
    if let Some(c) = f.effects {
        if names.contains(effect) {
            let j = choose|j: int| 0 <= j < names.len() && names[j] == effect;
            assert(c.effects@[j].name@ == effect);
        }
        if declares(f, effect) {
            let j = choose|j: int|
                0 <= j < c.effects@.len() && (#[trigger] c.effects@[j]).name@ == effect;
            assert(names[j] == effect);
        }
    }
}

// ----- functions -----

/// The item is a function with this name.
pub open spec fn is_fn(item: Item, name: Seq<char>) -> bool {
    item matches Item::Fn(f) && f.name@ == name
}

/// The item at place `k` is the last function with a name.
pub open spec fn last_fn(items: Seq<Item>, name: Seq<char>, k: int) -> bool {
    &&& 0 <= k < items.len()
    &&& is_fn(items[k], name)
    &&& forall|j: int| k < j < items.len() ==> !is_fn(#[trigger] items[j], name)
}

/// A name has a signature iff a function bears it, and the signature is that of
/// the last such function: the effects its clause names, and its return type.
pub proof fn law_last_function_counts(items: Seq<Item>, name: Seq<char>, k: int)
    ensures
        program::sigs_of(items).dom().contains(name) <==> exists|i: int|
            0 <= i < items.len() && is_fn(#[trigger] items[i], name),
        last_fn(items, name, k) ==> {
            let sig = program::sigs_of(items)[name];
            let f = items[k]->Fn_0;
            &&& program::sigs_of(items).dom().contains(name)
            &&& forall|e: Seq<char>| #[trigger] sig.effects.contains(e) <==> declares(f, e)
            &&& f.ret is None ==> sig.ret is None
            &&& f.ret matches Some(t) ==> sig.ret == Some(types::resolved(t))
        },
    decreases items.len(),
{
    if items.len() > 0 {
        let less = items.drop_last();
        let q = items.len() - 1;
        law_last_function_counts(less, name, k);
        if exists|i: int| 0 <= i < less.len() && is_fn(#[trigger] less[i], name) {
            let i = choose|i: int| 0 <= i < less.len() && is_fn(#[trigger] less[i], name);
            assert(is_fn(items[i], name));
        }
        if exists|i: int| 0 <= i < items.len() && is_fn(#[trigger] items[i], name) {
            let i = choose|i: int| 0 <= i < items.len() && is_fn(#[trigger] items[i], name);
            if i < q {
                assert(is_fn(less[i], name));
            }
        }
        if let Item::Fn(f) = items.last() {
            assert(is_fn(items[q], f.name@));
            assert forall|e: Seq<char>| #[trigger] program::declared_effects(f).contains(e)
                <==> declares(f, e) by {
                law_clause_declares(f, e);
            }
        }
        if last_fn(items, name, k) && k < q {
            assert(less[k] == items[k]);
            assert forall|j: int| k < j < less.len() implies !is_fn(#[trigger] less[j], name) by {
                assert(!is_fn(items[j], name));
            }
            assert(last_fn(less, name, k));
            assert(!is_fn(items[q], name));
        }
    }
}

// ----- records -----

/// The item declares a record under this name.
pub open spec fn is_record(item: Item, name: Seq<char>) -> bool {
    item matches Item::Type(d) && d.name@ == name && d.ty is Record
}

/// The item at place `k` is the last one that declares a record under a name.
pub open spec fn last_record(items: Seq<Item>, name: Seq<char>, k: int) -> bool {
    &&& 0 <= k < items.len()
    &&& is_record(items[k], name)
    &&& forall|j: int| k < j < items.len() ==> !is_record(#[trigger] items[j], name)
}

/// Each written field denotes the field at its place.
pub proof fn lemma_resolved_fields(fields: Seq<(String, TypeExpr)>)
    ensures
        types::resolved_fields(fields).len() == fields.len(),
        forall|i: int|
            0 <= i < fields.len() ==> #[trigger] types::resolved_fields(fields)[i] == (
                fields[i].0@,
                types::resolved(fields[i].1),
            ),
    decreases fields.len(),
{
    if fields.len() > 0 {
        lemma_resolved_fields(fields.drop_last());
    }
}

/// A name stands for a record iff a record is declared under it, and has the
/// fields of the last such declaration, in order.
pub proof fn law_last_record_counts(items: Seq<Item>, name: Seq<char>, k: int)
    ensures
        program::records_of(items).dom().contains(name) <==> exists|i: int|
            0 <= i < items.len() && is_record(#[trigger] items[i], name),
        last_record(items, name, k) ==> {
            let found = program::records_of(items)[name];
            let fields = items[k]->Type_0.ty->Record_fields@;
            &&& program::records_of(items).dom().contains(name)
            &&& found.len() == fields.len()
            &&& forall|i: int|
                0 <= i < fields.len() ==> #[trigger] found[i] == (
                    fields[i].0@,
                    types::resolved(fields[i].1),
                )
        },
    decreases items.len(),
{
    if items.len() > 0 {
        let less = items.drop_last();
        let q = items.len() - 1;
        law_last_record_counts(less, name, k);
        if exists|i: int| 0 <= i < less.len() && is_record(#[trigger] less[i], name) {
            let i = choose|i: int| 0 <= i < less.len() && is_record(#[trigger] less[i], name);
            assert(is_record(items[i], name));
        }
        if exists|i: int| 0 <= i < items.len() && is_record(#[trigger] items[i], name) {
            let i = choose|i: int| 0 <= i < items.len() && is_record(#[trigger] items[i], name);
            if i < q {
                assert(is_record(less[i], name));
            }
        }
        if let Item::Type(d) = items.last() {
            assert(types::resolved(d.ty) is Record <==> d.ty is Record);
            if let TypeExpr::Record { fields, .. } = d.ty {
                assert(is_record(items[q], d.name@));
                lemma_resolved_fields(fields@);
            }
        }
        if last_record(items, name, k) && k < q {
            assert(less[k] == items[k]);
            assert forall|j: int| k < j < less.len() implies !is_record(
                #[trigger] less[j],
                name,
            ) by {
                assert(!is_record(items[j], name));
            }
            assert(last_record(less, name, k));
            assert(!is_record(items[q], name));
        }
    }
}

} // verus!
