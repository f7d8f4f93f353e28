//! Programs: parsed files together with the builtin modules they can import.
pub mod laws;

use crate::ast::{FnDecl, Item, Module};
use crate::builtins::Builtins;
use crate::names::NameSet;
use crate::text;
use crate::types::{self, type_from_ast, Records, Type, TypeModel, TypeRegistry};
use vstd::prelude::*;

verus! {

/// A source file, by the path that diagnostics name it with.
#[derive(Debug)]
pub struct SourceFile {
    pub path: String,
    pub text: String,
}

/// A parsed file and the names of the modules it imports.
#[derive(Debug)]
pub struct Unit {
    pub source: SourceFile,
    pub module: Module,
    pub imports: Vec<String>,
}

#[derive(Debug)]
pub struct Program {
    pub units: Vec<Unit>,
    pub builtins: Builtins,
}

/// The items of all units, one after the other.
pub open spec fn items_of(units: Seq<Unit>) -> Seq<Item>
    decreases units.len(),
{
    if units.len() == 0 {
        Seq::empty()
    } else {
        items_of(units.drop_last()) + units.last().module.items@
    }
}

/// The records that a list of items declares.
pub open spec fn records_of(items: Seq<Item>) -> Records
    decreases items.len(),
{
    if items.len() == 0 {
        Map::empty()
    } else {
        match items.last() {
            Item::Type(d) => types::with_decl(records_of(items.drop_last()), d),
            _ => records_of(items.drop_last()),
        }
    }
}

impl Program {
    /// The records that the program declares.
    pub open spec fn records(self) -> Records {
        records_of(items_of(self.units@))
    }

    /// The registry of the records that the program declares.
    pub fn type_registry(&self) -> (r: TypeRegistry)
        ensures
            r@ == self.records(),
    {
        let mut reg: TypeRegistry = TypeRegistry::new();
        let n: usize = self.units.len();
        let mut i: usize = 0;
        while i < n
            invariant
                n == self.units.len(),
                i <= n,
                reg@ == records_of(items_of(self.units@.take(i as int))),
            decreases n - i,
        {
            let items: &Vec<Item> = &self.units[i].module.items;
            let ghost past = items_of(self.units@.take(i as int));
            let m: usize = items.len();
            let mut j: usize = 0;
            assert(past + items@.take(0) =~= past);
            while j < m
                invariant
                    m == items.len(),
                    j <= m,
                    reg@ == records_of(past + items@.take(j as int)),
                decreases m - j,
            {
                let ghost now = past + items@.take(j + 1);
                assert(now.drop_last() =~= past + items@.take(j as int));
                assert(now.last() == items@[j as int]);
                if let Item::Type(d) = &items[j] {
                    reg.add_decl(d);
                }
                j = j + 1;
            }
            assert(items@.take(m as int) =~= items@);
            assert(self.units@.take(i + 1).drop_last() =~= self.units@.take(i as int));
            i = i + 1;
        }
        assert(self.units@.take(n as int) =~= self.units@);
        reg
    }
}

// ----- signatures -----

/// The declared surface of a function: its effects and what it returns.
pub struct SigModel {
    pub effects: Set<Seq<char>>,
    pub ret: Option<TypeModel>,
}

/// The signatures of functions by name.
pub type Sigs = Map<Seq<char>, SigModel>;

/// The names in an effect clause.
pub open spec fn clause_names(f: FnDecl) -> Seq<Seq<char>> {
    match f.effects {
        Some(c) => c.effects@.map_values(|e: crate::ast::EffectName| e.name@),
        None => Seq::empty(),
    }
}

/// The effects that a function declares.
pub open spec fn declared_effects(f: FnDecl) -> Set<Seq<char>> {
    clause_names(f).to_set()
}

/// The signature of a function.
pub open spec fn sig_of(f: FnDecl) -> SigModel {
    SigModel { effects: declared_effects(f), ret: types::resolved_opt(f.ret) }
}

/// The signatures of a list of items. Of two functions with the same name the
/// later one counts.
pub open spec fn sigs_of(items: Seq<Item>) -> Sigs
    decreases items.len(),
{
    if items.len() == 0 {
        Map::empty()
    } else {
        match items.last() {
            Item::Fn(f) => sigs_of(items.drop_last()).insert(f.name@, sig_of(f)),
            _ => sigs_of(items.drop_last()),
        }
    }
}

impl Program {
    /// The signatures of the program's functions.
    pub open spec fn sigs(self) -> Sigs {
        sigs_of(items_of(self.units@))
    }
}

/// The names in the effect clause of a function.
pub fn effect_names(f: &FnDecl) -> (r: Vec<String>)
    ensures
        text::texts(r@) == clause_names(*f),
{
    let mut out: Vec<String> = Vec::new();
    if let Some(c) = &f.effects {
        let n: usize = c.effects.len();
        let mut i: usize = 0;
        while i < n
            invariant
                n == c.effects.len(),
                i <= n,
                f.effects == Some(*c),
                text::texts(out@) =~= clause_names(*f).take(i as int),
            decreases n - i,
        {
            let ghost done = text::texts(out@);
            out.push(c.effects[i].name.clone());
            assert(text::texts(out@) =~= done.push(c.effects@[i as int].name@));
            i = i + 1;
        }
    }
    assert(text::texts(out@) =~= clause_names(*f));
    out
}

/// The set of effects that a function declares.
pub fn effect_set(f: &FnDecl) -> (r: NameSet)
    ensures
        r.wf(),
        r@ == declared_effects(*f),
{
    let mut out: NameSet = NameSet::new();
    out.add_all(&effect_names(f));
    assert(out@ =~= declared_effects(*f));
    out
}

/// The declared surface of one function.
#[derive(Debug)]
pub struct FnSig {
    pub name: String,
    pub effects: NameSet,
    pub ret: Option<Type>,
}

impl View for FnSig {
    type V = SigModel;

    open spec fn view(&self) -> SigModel {
        SigModel {
            effects: self.effects@,
            ret: match self.ret {
                Some(t) => Some(t@),
                None => None,
            },
        }
    }
}

spec fn listed(sigs: Seq<FnSig>) -> Sigs
    decreases sigs.len(),
{
    if sigs.len() == 0 {
        Map::empty()
    } else {
        listed(sigs.drop_last()).insert(sigs.last().name@, sigs.last()@)
    }
}

/// The signatures of the functions of a program.
#[derive(Debug)]
pub struct Signatures {
    sigs: Vec<FnSig>,
}

impl View for Signatures {
    type V = Sigs;

    closed spec fn view(&self) -> Sigs {
        listed(self.sigs@)
    }
}

impl Signatures {
    /// Every set of effects is in order.
    pub closed spec fn wf(&self) -> bool {
        forall|i: int| 0 <= i < self.sigs@.len() ==> (#[trigger] self.sigs@[i]).effects.wf()
    }

    /// No signatures.
    pub fn new() -> (r: Signatures)
        ensures
            r.wf(),
            r@ == Map::<Seq<char>, SigModel>::empty(),
    {
        Signatures { sigs: Vec::new() }
    }

    fn add_fn(&mut self, f: &FnDecl)
        requires
            old(self).wf(),
        ensures
            final(self).wf(),
            final(self)@ == old(self)@.insert(f.name@, sig_of(*f)),
    {
        let ret: Option<Type> = match &f.ret {
            Some(t) => Some(type_from_ast(t)),
            None => None,
        };
        let ghost was = self.sigs@;
        self.sigs.push(FnSig { name: f.name.clone(), effects: effect_set(f), ret });
        assert(self.sigs@.drop_last() =~= was);
    }

    /// The signature of a function.
    pub fn get(&self, name: &String) -> (r: Option<&FnSig>)
        requires
            self.wf(),
        ensures
            r is Some <==> self@.dom().contains(name@),
            r matches Some(sig) ==> sig@ == self@[name@] && sig.effects.wf(),
    {
        let n: usize = self.sigs.len();
        let mut i: usize = n;
        assert(self.sigs@.take(n as int) =~= self.sigs@);
        while i > 0
            invariant
                n == self.sigs.len(),
                i <= n,
                self.wf(),
                listed(self.sigs@.take(i as int)).dom().contains(name@) == self@.dom().contains(
                    name@,
                ),
                self@.dom().contains(name@) ==> listed(self.sigs@.take(i as int))[name@]
                    == self@[name@],
            decreases i,
        {
            assert(self.sigs@.take(i as int).drop_last() =~= self.sigs@.take(i - 1));
            if self.sigs[i - 1].name == *name {
                return Some(&self.sigs[i - 1]);
            }
            i = i - 1;
        }
        None
    }
}

/// Collects the signatures of a program.
pub fn build_sigs(program: &Program) -> (r: Signatures)
    ensures
        r.wf(),
        r@ == program.sigs(),
{
    let mut sigs: Signatures = Signatures::new();
    let n: usize = program.units.len();
    let mut i: usize = 0;
    while i < n
        invariant
            n == program.units.len(),
            i <= n,
            sigs.wf(),
            sigs@ == sigs_of(items_of(program.units@.take(i as int))),
        decreases n - i,
    {
        let items: &Vec<Item> = &program.units[i].module.items;
        let ghost past = items_of(program.units@.take(i as int));
        let m: usize = items.len();
        let mut j: usize = 0;
        assert(past + items@.take(0) =~= past);
        while j < m
            invariant
                m == items.len(),
                j <= m,
                sigs.wf(),
                sigs@ == sigs_of(past + items@.take(j as int)),
            decreases m - j,
        {
            let ghost now = past + items@.take(j + 1);
            assert(now.drop_last() =~= past + items@.take(j as int));
            assert(now.last() == items@[j as int]);
            if let Item::Fn(f) = &items[j] {
                sigs.add_fn(f);
            }
            j = j + 1;
        }
        assert(items@.take(m as int) =~= items@);
        assert(program.units@.take(i + 1).drop_last() =~= program.units@.take(i as int));
        i = i + 1;
    }
    assert(program.units@.take(n as int) =~= program.units@);
    sigs
}

} // verus!
