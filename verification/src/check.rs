//! The checker: effects, imports and return types.
//!
//! Every problem it reports carries the edit that mends it, so that a repair
//! never has to guess where or how to change the source.
pub mod laws;
pub mod whole;

use crate::ast::{EffectClause, Expr, FnDecl, Item, TypeExpr};
use crate::builtins::Builtins;
use crate::diagnostics::{self, Diagnostic, DiagnosticModel, PatchModel, PreferredPatch, Severity};
use crate::infer::{self, collect_returns, infer_expr, ReturnAt, Returned};
use crate::names::{self, NameSet};
use crate::program::{self, build_sigs, effect_names, effect_set, Program, Signatures, Sigs, Unit};
use crate::span::Span;
use crate::text;
use crate::types::{self, compatible_within, type_from_ast, Records, Type, TypeModel, TypeRegistry};
use crate::walk::{self, analyze_block, walk_block, Usage};
use vstd::prelude::*;
use vstd::string::*;

pub use crate::walk::called_names_in_block;

verus! {

/// `"s"` behind a count that is greater than one.
pub open spec fn plural(n: nat) -> Seq<char> {
    if n > 1 {
        "s"@
    } else {
        Seq::empty()
    }
}

fn plural_mark(n: usize) -> (r: String)
    ensures
        r@ == plural(n as nat),
{
    if n > 1 {
        "s".to_string()
    } else {
        String::new()
    }
}

/// The names of a set in ascending order, with commas between them.
pub open spec fn comma_list(set: Set<Seq<char>>) -> Seq<char> {
    text::joined(names::listing(set), ", "@)
}

/// The names of a set in ascending order, each between backquotes.
pub open spec fn quoted_list(set: Set<Seq<char>>) -> Seq<char> {
    text::joined(text::quoted(names::listing(set)), ", "@)
}

fn join_names(set: &NameSet) -> (r: String)
    requires
        set.wf(),
    ensures
        r@ == comma_list(set@),
{
    text::join(set.list(), ", ")
}

fn join_quoted(set: &NameSet) -> (r: String)
    requires
        set.wf(),
    ensures
        r@ == quoted_list(set@),
{
    let quoted: Vec<String> = text::quote_all(set.list());
    text::join(&quoted, ", ")
}

// ----- imports -----

/// The error for a module that is used without being imported.
pub open spec fn unknown_module(unit: Unit, module: Seq<char>, span: Span) -> DiagnosticModel {
    let end = unit.module.last_import_end;
    DiagnosticModel {
        severity: Severity::Error,
        code: "E0322"@,
        kind: "unknown_module"@,
        message: "use of module `"@ + module + "` which is not imported"@,
        file: unit.source.path@,
        span,
        repair_strategies: seq!["add_import"@],
        preferred_patch: Some(
            PatchModel {
                file: unit.source.path@,
                span: Span::point(
                    if end > 0 {
                        end
                    } else {
                        0
                    },
                ),
                replacement: if end > 0 {
                    "\nimport "@ + module
                } else {
                    "import "@ + module + "\n"@
                },
                rationale: "import the `"@ + module + "` module"@,
            },
        ),
        notes: seq!["add `import "@ + module + "` at the top of the file"@],
    }
}

/// Builds the error for a module that is used without being imported.
pub fn unknown_module_diag(unit: &Unit, module: &String, span: Span) -> (r: Diagnostic)
    ensures
        r@ == unknown_module(*unit, module@, span),
{
    let end: usize = unit.module.last_import_end;
    let (patch_span, replacement): (Span, String) = if end > 0 {
        let mut s: String = "\nimport ".to_string();
        s.append(module.as_str());
        (Span::at(end), s)
    } else {
        let mut s: String = "import ".to_string();
        s.append(module.as_str());
        s.append("\n");
        (Span::at(0), s)
    };
    let mut message: String = "use of module `".to_string();
    message.append(module.as_str());
    message.append("` which is not imported");
    let mut rationale: String = "import the `".to_string();
    rationale.append(module.as_str());
    rationale.append("` module");
    let mut note: String = "add `import ".to_string();
    note.append(module.as_str());
    note.append("` at the top of the file");
    let patch: PreferredPatch = PreferredPatch {
        file: unit.source.path.clone(),
        span: patch_span,
        replacement,
        rationale,
    };
    let d: Diagnostic = Diagnostic::error(
        "E0322",
        "unknown_module",
        message,
        &unit.source.path,
        span,
    ).with_strategy("add_import").with_patch(patch).with_note(note);
    proof {
        let want = unknown_module(*unit, module@, span);
        assert(d@.repair_strategies =~= want.repair_strategies);
        assert(d@.notes =~= want.notes);
    }
    d
}

/// The expressions in the bodies of a list of items.
pub open spec fn body_nodes(items: Seq<Item>) -> Seq<Expr>
    decreases items.len(),
{
    if items.len() == 0 {
        Seq::empty()
    } else {
        body_nodes(items.drop_last()) + match items.last() {
            Item::Fn(f) => walk::block_nodes(f.body),
            Item::Test(t) => walk::block_nodes(t.body),
            _ => Seq::empty(),
        }
    }
}

/// The modules that a file uses, each with the place of its first use.
pub open spec fn modules_used(unit: Unit, cx: Builtins) -> Map<Seq<char>, Span> {
    walk::first_uses(body_nodes(unit.module.items@), cx)
}

/// The modules that a file uses without importing them.
pub open spec fn modules_missing(unit: Unit, cx: Builtins) -> Set<Seq<char>> {
    modules_used(unit, cx).dom().difference(text::texts(unit.imports@).to_set())
}

/// The import errors of a file: one for each module that is used without being
/// imported, in ascending order, at the place of its first use.
pub open spec fn import_errors(unit: Unit, cx: Builtins) -> Seq<DiagnosticModel> {
    names::listing(modules_missing(unit, cx)).map_values(
        |m: Seq<char>| unknown_module(unit, m, modules_used(unit, cx)[m]),
    )
}

fn check_imports(unit: &Unit, sigs: &Signatures, cx: &Builtins, diags: &mut Vec<Diagnostic>)
    requires
        sigs.wf(),
    ensures
        diagnostics::models(final(diags)@) == diagnostics::models(old(diags)@) + import_errors(
            *unit,
            *cx,
        ),
{
    let mut u: Usage = Usage::new();
    let ghost t = u.tally();
    let items: &Vec<Item> = &unit.module.items;
    let n: usize = items.len();
    let mut i: usize = 0;
    while i < n
        invariant
            n == items.len(),
            *items == unit.module.items,
            i <= n,
            sigs.wf(),
            u.wf(),
            u.tally() == walk::after(t, body_nodes(items@.take(i as int)), sigs@, *cx),
        decreases n - i,
    {
        let ghost past = body_nodes(items@.take(i as int));
        let ghost was = u.tally();
        assert(items@.take(i + 1).drop_last() =~= items@.take(i as int));
        match &items[i] {
            Item::Fn(f) => {
                walk_block(&f.body, sigs, cx, &mut u);
                proof {
                    walk::lemma_after_concat(t, past, walk::block_nodes(f.body), sigs@, *cx);
                }
            },
            Item::Test(b) => {
                walk_block(&b.body, sigs, cx, &mut u);
                proof {
                    walk::lemma_after_concat(t, past, walk::block_nodes(b.body), sigs@, *cx);
                }
            },
            _ => {
                assert(past + Seq::<Expr>::empty() =~= past);
            },
        }
        i = i + 1;
    }
    proof {
        assert(items@.take(n as int) =~= items@);
        walk::lemma_after_all(t, body_nodes(items@), sigs@, *cx);
    }
    let missing: NameSet = u.module_uses.missing_from(&unit.imports);
    let list: &Vec<String> = missing.list();
    let ghost want = import_errors(*unit, *cx);
    let ghost was = diagnostics::models(diags@);
    let m: usize = list.len();
    let mut j: usize = 0;
    assert(was + want.take(0) =~= was);
    while j < m
        invariant
            m == list.len(),
            j <= m,
            want == import_errors(*unit, *cx),
            text::texts(list@) == names::listing(modules_missing(*unit, *cx)),
            names::lists(text::texts(list@), modules_missing(*unit, *cx)),
            u.module_uses@ == modules_used(*unit, *cx),
            diagnostics::models(diags@) == was + want.take(j as int),
        decreases m - j,
    {
        proof {
            assert(text::texts(list@)[j as int] == list@[j as int]@);
            assert(text::texts(list@).contains(list@[j as int]@));
        }
        if let Some(span) = u.module_uses.get(&list[j]) {
            let ghost done = diagnostics::models(diags@);
            diags.push(unknown_module_diag(unit, &list[j], span));
            proof {
                assert(diagnostics::models(diags@) =~= done.push(diags@.last()@));
                assert(want.take(j + 1) =~= want.take(j as int).push(want[j as int]));
                assert(diagnostics::models(diags@) =~= was + want.take(j + 1));
            }
        }
        j = j + 1;
    }
    assert(want.take(m as int) =~= want);
}

// ----- effects -----

/// The effects that the body of a function performs.
pub open spec fn performed(f: FnDecl, sigs: Sigs, cx: Builtins) -> Set<Seq<char>> {
    walk::effects_in(walk::block_nodes(f.body), sigs, cx)
}

/// The error for effects that are performed but not declared. The patch declares
/// everything that is declared or performed, in ascending order.
pub open spec fn effect_undeclared(
    f: FnDecl,
    unit: Unit,
    declared: Set<Seq<char>>,
    used: Set<Seq<char>>,
) -> DiagnosticModel {
    let missing = used.difference(declared);
    let all = comma_list(declared.union(used));
    DiagnosticModel {
        severity: Severity::Error,
        code: "E0421"@,
        kind: "effect_undeclared"@,
        message: "function `"@ + f.name@ + "` performs undeclared effect"@ + plural(
            names::listing(missing).len(),
        ) + " "@ + quoted_list(missing),
        file: unit.source.path@,
        span: f.name_span,
        repair_strategies: seq!["add_effect"@],
        preferred_patch: Some(
            match f.effects {
                Some(clause) => PatchModel {
                    file: unit.source.path@,
                    span: clause.list_span,
                    replacement: all,
                    rationale: "declare every effect this function performs: "@ + all,
                },
                None => PatchModel {
                    file: unit.source.path@,
                    span: Span::point(f.brace_offset),
                    replacement: "effects ["@ + all + "] "@,
                    rationale: "declare the effects this function performs: "@ + all,
                },
            },
        ),
        notes: seq![
            "effects make a function's powers explicit to callers, readers, and agents — an agent can see at a glance that this function touches the DB or the network"@,
        ],
    }
}

/// The warning for effects that are declared but not performed. The patch leaves
/// the performed ones, and no clause where there are none.
pub open spec fn effect_unused(
    f: FnDecl,
    clause: EffectClause,
    unit: Unit,
    declared: Set<Seq<char>>,
    used: Set<Seq<char>>,
) -> DiagnosticModel {
    let unused = declared.difference(used);
    DiagnosticModel {
        severity: Severity::Warning,
        code: "E0450"@,
        kind: "effect_unused"@,
        message: "function `"@ + f.name@ + "` declares unused effect"@ + plural(
            names::listing(unused).len(),
        ) + " "@ + quoted_list(unused),
        file: unit.source.path@,
        span: f.name_span,
        repair_strategies: seq!["remove_effect"@],
        preferred_patch: Some(
            PatchModel {
                file: unit.source.path@,
                span: if used == Set::<Seq<char>>::empty() {
                    clause.full_span
                } else {
                    clause.list_span
                },
                replacement: if used == Set::<Seq<char>>::empty() {
                    Seq::empty()
                } else {
                    comma_list(used)
                },
                rationale: "remove effects the function does not actually perform"@,
            },
        ),
        notes: Seq::empty(),
    }
}

/// What is wrong with the effects of a function: first what is undeclared, then
/// what is unused.
pub open spec fn effect_findings(f: FnDecl, unit: Unit, sigs: Sigs, cx: Builtins) -> Seq<
    DiagnosticModel,
> {
    let declared = program::declared_effects(f);
    let used = performed(f, sigs, cx);
    let none = Set::<Seq<char>>::empty();
    let undeclared: Seq<DiagnosticModel> = if used.difference(declared) != none {
        seq![effect_undeclared(f, unit, declared, used)]
    } else {
        Seq::empty()
    };
    let unused: Seq<DiagnosticModel> = match f.effects {
        Some(clause) => if declared.difference(used) != none {
            seq![effect_unused(f, clause, unit, declared, used)]
        } else {
            Seq::empty()
        },
        None => Seq::empty(),
    };
    undeclared + unused
}

fn undeclared_diag(f: &FnDecl, unit: &Unit, declared: &NameSet, used: &NameSet) -> (r: Diagnostic)
    requires
        declared.wf(),
        used.wf(),
    ensures
        r@ == effect_undeclared(*f, *unit, declared@, used@),
{
    let missing: NameSet = used.difference(declared);
    let all: NameSet = declared.union(used);
    let list: String = join_names(&all);
    let patch: PreferredPatch = match &f.effects {
        Some(clause) => {
            let mut rationale: String = "declare every effect this function performs: ".to_string();
            rationale.append(list.as_str());
            PreferredPatch {
                file: unit.source.path.clone(),
                span: clause.list_span,
                replacement: list.clone(),
                rationale,
            }
        },
        None => {
            let mut rationale: String = "declare the effects this function performs: ".to_string();
            rationale.append(list.as_str());
            let mut replacement: String = "effects [".to_string();
            replacement.append(list.as_str());
            replacement.append("] ");
            PreferredPatch {
                file: unit.source.path.clone(),
                span: Span::at(f.brace_offset),
                replacement,
                rationale,
            }
        },
    };
    let mut message: String = "function `".to_string();
    message.append(f.name.as_str());
    message.append("` performs undeclared effect");
    message.append(plural_mark(missing.len()).as_str());
    message.append(" ");
    message.append(join_quoted(&missing).as_str());
    let d: Diagnostic = Diagnostic::error(
        "E0421",
        "effect_undeclared",
        message,
        &unit.source.path,
        f.name_span,
    ).with_strategy("add_effect").with_patch(patch).with_note(
        "effects make a function's powers explicit to callers, readers, and agents — an agent can see at a glance that this function touches the DB or the network".to_string(),
    );
    proof {
        let want = effect_undeclared(*f, *unit, declared@, used@);
        assert(d@.repair_strategies =~= want.repair_strategies);
        assert(d@.notes =~= want.notes);
    }
    d
}

fn unused_diag(
    f: &FnDecl,
    clause: &EffectClause,
    unit: &Unit,
    declared: &NameSet,
    used: &NameSet,
) -> (r: Diagnostic)
    requires
        declared.wf(),
        used.wf(),
    ensures
        r@ == effect_unused(*f, *clause, *unit, declared@, used@),
{
    let unused: NameSet = declared.difference(used);
    let (span, replacement): (Span, String) = if used.len() == 0 {
        (clause.full_span, String::new())
    } else {
        (clause.list_span, join_names(used))
    };
    let mut message: String = "function `".to_string();
    message.append(f.name.as_str());
    message.append("` declares unused effect");
    message.append(plural_mark(unused.len()).as_str());
    message.append(" ");
    message.append(join_quoted(&unused).as_str());
    let patch: PreferredPatch = PreferredPatch {
        file: unit.source.path.clone(),
        span,
        replacement,
        rationale: "remove effects the function does not actually perform".to_string(),
    };
    let d: Diagnostic = Diagnostic::warning(
        "E0450",
        "effect_unused",
        message,
        &unit.source.path,
        f.name_span,
    ).with_strategy("remove_effect").with_patch(patch);
    proof {
        let want = effect_unused(*f, *clause, *unit, declared@, used@);
        assert(d@.repair_strategies =~= want.repair_strategies);
    }
    d
}

/// Checks the declared effects of a function against those that it performs.
pub fn check_fn_effects(
    f: &FnDecl,
    unit: &Unit,
    sigs: &Signatures,
    cx: &Builtins,
    diags: &mut Vec<Diagnostic>,
)
    requires
        sigs.wf(),
    ensures
        diagnostics::models(final(diags)@) == diagnostics::models(old(diags)@) + effect_findings(
            *f,
            *unit,
            sigs@,
            *cx,
        ),
{
    let ghost was = diagnostics::models(diags@);
    let usage: Usage = analyze_block(&f.body, sigs, cx);
    let declared: NameSet = effect_set(f);
    let missing: NameSet = usage.effects.difference(&declared);
    let ghost undeclared: Seq<DiagnosticModel> = if missing@ != Set::<Seq<char>>::empty() {
        seq![effect_undeclared(*f, *unit, declared@, usage.effects@)]
    } else {
        Seq::empty()
    };
    if missing.len() > 0 {
        diags.push(undeclared_diag(f, unit, &declared, &usage.effects));
    }
    assert(diagnostics::models(diags@) =~= was + undeclared);
    let unused: NameSet = declared.difference(&usage.effects);
    if unused.len() > 0 {
        if let Some(clause) = &f.effects {
            diags.push(unused_diag(f, clause, unit, &declared, &usage.effects));
        }
    }
    assert(diagnostics::models(diags@) =~= was + effect_findings(*f, *unit, sigs@, *cx));
}

// ----- types -----

/// The return type that the patch of a mismatch writes: one that can be written
/// and that the returned value goes with.
pub open spec fn patched_type(got: TypeModel, declared: TypeModel) -> TypeModel {
    types::fitted(got, declared)
}

/// The error for a function that returns what it is not declared to return. The
/// patch writes as the return type one that the returned value goes with.
pub open spec fn type_mismatch(
    f: FnDecl,
    ret: TypeExpr,
    unit: Unit,
    value: Expr,
    got: TypeModel,
) -> DiagnosticModel {
    let declared = types::resolved(ret);
    DiagnosticModel {
        severity: Severity::Error,
        code: "E0309"@,
        kind: "type_mismatch"@,
        message: "function `"@ + f.name@ + "` returns `"@ + types::shown(got)
            + "` but is declared to return `"@ + types::shown(declared) + "`"@,
        file: unit.source.path@,
        span: value.place(),
        repair_strategies: seq!["fix_annotation"@, "convert_value"@],
        preferred_patch: Some(
            PatchModel {
                file: unit.source.path@,
                span: ret.place(),
                replacement: types::shown(patched_type(got, declared)),
                rationale: "the returned value is `"@ + types::shown(got) + "`, not `"@
                    + types::shown(declared) + "`"@,
            },
        ),
        notes: seq!["either correct the return type annotation or convert the value"@],
    }
}

fn mismatch_diag(
    f: &FnDecl,
    ret: &TypeExpr,
    unit: &Unit,
    value: &Expr,
    got: &Type,
    declared: &Type,
) -> (r: Diagnostic)
    requires
        declared@ == types::resolved(*ret),
    ensures
        r@ == type_mismatch(*f, *ret, *unit, *value, got@),
{
    let got_text: String = got.display();
    let declared_text: String = declared.display();
    let mut rationale: String = "the returned value is `".to_string();
    rationale.append(got_text.as_str());
    rationale.append("`, not `");
    rationale.append(declared_text.as_str());
    rationale.append("`");
    let mut message: String = "function `".to_string();
    message.append(f.name.as_str());
    message.append("` returns `");
    message.append(got_text.as_str());
    message.append("` but is declared to return `");
    message.append(declared_text.as_str());
    message.append("`");
    let patch: PreferredPatch = PreferredPatch {
        file: unit.source.path.clone(),
        span: ret.span(),
        replacement: got.fitted(declared).display(),
        rationale,
    };
    let d: Diagnostic = Diagnostic::error(
        "E0309",
        "type_mismatch",
        message,
        &unit.source.path,
        value.span(),
    ).with_strategy("fix_annotation").with_strategy("convert_value").with_patch(patch).with_note(
        "either correct the return type annotation or convert the value".to_string(),
    );
    proof {
        let want = type_mismatch(*f, *ret, *unit, *value, got@);
        assert(d@.repair_strategies =~= want.repair_strategies);
        assert(d@.notes =~= want.notes);
    }
    d
}

/// The first of the returned values whose type does not go with the declared
/// one, if any; `None` where a comparison is deeper than `depth`.
pub open spec fn first_mismatch(
    values: Seq<Returned>,
    declared: TypeModel,
    sc: infer::Scope,
    depth: nat,
) -> Option<Option<Returned>>
    decreases values.len(),
{
    if values.len() == 0 {
        Some(None)
    } else {
        match first_mismatch(values.drop_last(), declared, sc, depth) {
            Some(None) => match types::compare(
                infer::type_at(values.last(), sc),
                declared,
                sc.reg,
                depth,
            ) {
                Some(true) => Some(None),
                Some(false) => Some(Some(values.last())),
                None => None,
            },
            other => other,
        }
    }
}

/// What is wrong with the return type of a function: at most one mismatch, the
/// first. `None` where a comparison is deeper than `depth`.
pub open spec fn type_findings(
    f: FnDecl,
    unit: Unit,
    reg: Records,
    sigs: Sigs,
    cx: Builtins,
    depth: nat,
) -> Option<Seq<DiagnosticModel>> {
    let sc = infer::scope_in(f, sigs, reg, cx);
    match f.ret {
        Some(ret) => match first_mismatch(
            infer::returns_of(f.body),
            types::resolved(ret),
            sc,
            depth,
        ) {
            Some(Some(value)) => Some(
                seq![type_mismatch(f, ret, unit, value.value, infer::type_at(value, sc))],
            ),
            Some(None) => Some(Seq::empty()),
            None => None,
        },
        None => Some(Seq::empty()),
    }
}

proof fn lemma_first_mismatch(
    values: Seq<Returned>,
    k: int,
    declared: TypeModel,
    sc: infer::Scope,
    depth: nat,
)
    requires
        0 <= k <= values.len(),
        first_mismatch(values.take(k), declared, sc, depth) != Some(None::<Returned>),
    ensures
        first_mismatch(values, declared, sc, depth) == first_mismatch(
            values.take(k),
            declared,
            sc,
            depth,
        ),
    decreases values.len(),
{
    if k == values.len() {
        assert(values.take(k) =~= values);
    } else {
        assert(values.drop_last().take(k) =~= values.take(k));
        lemma_first_mismatch(values.drop_last(), k, declared, sc, depth);
    }
}

/// Checks what a function returns against its return type, comparing types at
/// most `depth` levels deep. Says whether that was deep enough; where it was not,
/// no diagnostic is added.
pub fn check_fn_types(
    f: &FnDecl,
    unit: &Unit,
    reg: &TypeRegistry,
    sigs: &Signatures,
    cx: &Builtins,
    depth: u64,
    diags: &mut Vec<Diagnostic>,
) -> (r: bool)
    requires
        sigs.wf(),
    ensures
        r == type_findings(*f, *unit, reg@, sigs@, *cx, depth as nat) is Some,
        diagnostics::models(final(diags)@) == diagnostics::models(old(diags)@) + (
        match type_findings(*f, *unit, reg@, sigs@, *cx, depth as nat) {
            Some(found) => found,
            None => Seq::empty(),
        }),
{
    let ghost was = diagnostics::models(diags@);
    assert(was + Seq::<DiagnosticModel>::empty() =~= was);
    let ret: &TypeExpr = match &f.ret {
        Some(t) => t,
        None => {
            return true;
        },
    };
    let declared: Type = type_from_ast(ret);
    let mut exprs: Vec<ReturnAt> = Vec::new();
    collect_returns(&f.body, &mut exprs);
    let ghost sc = infer::scope_in(*f, sigs@, reg@, *cx);
    let ghost values = infer::returns_of(f.body);
    assert(infer::returned(exprs@) =~= values);
    let n: usize = exprs.len();
    let mut i: usize = 0;
    while i < n
        invariant
            n == exprs.len(),
            i <= n,
            sigs.wf(),
            f.ret == Some(*ret),
            declared@ == types::resolved(*ret),
            sc == infer::scope_in(*f, sigs@, reg@, *cx),
            values == infer::returns_of(f.body),
            infer::returned(exprs@) == values,
            was == diagnostics::models(diags@),
            was == diagnostics::models(old(diags)@),
            was + Seq::<DiagnosticModel>::empty() == was,
            first_mismatch(values.take(i as int), declared@, sc, depth as nat) == Some(
                None::<Returned>,
            ),
        decreases n - i,
    {
        let value: &Expr = exprs[i].value;
        proof {
            assert(infer::returned(exprs@)[i as int] == exprs@[i as int]@);
            assert(values.take(i + 1).drop_last() =~= values.take(i as int));
        }
        let got: Type = infer_expr(value, &f.params, &exprs[i].taken, sigs, reg, cx);
        match compatible_within(&got, &declared, reg, depth) {
            Some(true) => {},
            Some(false) => {
                proof {
                    lemma_first_mismatch(values, i + 1, declared@, sc, depth as nat);
                }
                diags.push(mismatch_diag(f, ret, unit, value, &got, &declared));
                proof {
                    assert(diagnostics::models(diags@) =~= was + seq![
                        type_mismatch(*f, *ret, *unit, *value, got@),
                    ]);
                }
                return true;
            },
            None => {
                proof {
                    lemma_first_mismatch(values, i + 1, declared@, sc, depth as nat);
                }
                return false;
            },
        }
        i = i + 1;
    }
    assert(values.take(n as int) =~= values);
    true
}

// ----- whole programs -----

/// What is wrong with one function.
pub open spec fn fn_findings(
    f: FnDecl,
    unit: Unit,
    reg: Records,
    sigs: Sigs,
    cx: Builtins,
    depth: nat,
) -> Option<Seq<DiagnosticModel>> {
    match type_findings(f, unit, reg, sigs, cx, depth) {
        Some(found) => Some(effect_findings(f, unit, sigs, cx) + found),
        None => None,
    }
}

/// What is wrong with the functions of a list of items, in order.
pub open spec fn items_findings(
    items: Seq<Item>,
    unit: Unit,
    reg: Records,
    sigs: Sigs,
    cx: Builtins,
    depth: nat,
) -> Option<Seq<DiagnosticModel>>
    decreases items.len(),
{
    if items.len() == 0 {
        Some(Seq::empty())
    } else {
        match items_findings(items.drop_last(), unit, reg, sigs, cx, depth) {
            Some(before) => match items.last() {
                Item::Fn(f) => match fn_findings(f, unit, reg, sigs, cx, depth) {
                    Some(found) => Some(before + found),
                    None => None,
                },
                _ => Some(before),
            },
            None => None,
        }
    }
}

/// What is wrong with the files of a program, in order: of each file first the
/// imports, then the functions.
pub open spec fn units_findings(
    units: Seq<Unit>,
    reg: Records,
    sigs: Sigs,
    cx: Builtins,
    depth: nat,
) -> Option<Seq<DiagnosticModel>>
    decreases units.len(),
{
    if units.len() == 0 {
        Some(Seq::empty())
    } else {
        let unit = units.last();
        match units_findings(units.drop_last(), reg, sigs, cx, depth) {
            Some(before) => match items_findings(unit.module.items@, unit, reg, sigs, cx, depth) {
                Some(found) => Some(before + import_errors(unit, cx) + found),
                None => None,
            },
            None => None,
        }
    }
}

/// What is wrong with a program; `None` where two types would have to be compared
/// deeper than `depth`.
pub open spec fn findings(program: Program, depth: nat) -> Option<Seq<DiagnosticModel>> {
    units_findings(program.units@, program.records(), program.sigs(), program.builtins, depth)
}

proof fn lemma_items_none(
    items: Seq<Item>,
    k: int,
    unit: Unit,
    reg: Records,
    sigs: Sigs,
    cx: Builtins,
    depth: nat,
)
    requires
        0 <= k <= items.len(),
        items_findings(items.take(k), unit, reg, sigs, cx, depth) is None,
    ensures
        items_findings(items, unit, reg, sigs, cx, depth) is None,
    decreases items.len(),
{
    if k == items.len() {
        assert(items.take(k) =~= items);
    } else {
        assert(items.drop_last().take(k) =~= items.take(k));
        lemma_items_none(items.drop_last(), k, unit, reg, sigs, cx, depth);
    }
}

proof fn lemma_units_none(
    units: Seq<Unit>,
    k: int,
    reg: Records,
    sigs: Sigs,
    cx: Builtins,
    depth: nat,
)
    requires
        0 <= k <= units.len(),
        units_findings(units.take(k), reg, sigs, cx, depth) is None,
    ensures
        units_findings(units, reg, sigs, cx, depth) is None,
    decreases units.len(),
{
    if k == units.len() {
        assert(units.take(k) =~= units);
    } else {
        assert(units.drop_last().take(k) =~= units.take(k));
        lemma_units_none(units.drop_last(), k, reg, sigs, cx, depth);
    }
}

fn check_items(
    unit: &Unit,
    reg: &TypeRegistry,
    sigs: &Signatures,
    cx: &Builtins,
    depth: u64,
    diags: &mut Vec<Diagnostic>,
) -> (r: bool)
    requires
        sigs.wf(),
    ensures
        r == items_findings(unit.module.items@, *unit, reg@, sigs@, *cx, depth as nat) is Some,
        items_findings(unit.module.items@, *unit, reg@, sigs@, *cx, depth as nat) matches Some(
            found,
        ) ==> diagnostics::models(final(diags)@) == diagnostics::models(old(diags)@) + found,
{
    let items: &Vec<Item> = &unit.module.items;
    let ghost was = diagnostics::models(diags@);
    let ghost d = depth as nat;
    let n: usize = items.len();
    let mut i: usize = 0;
    assert(was + Seq::<DiagnosticModel>::empty() =~= was);
    while i < n
        invariant
            n == items.len(),
            *items == unit.module.items,
            i <= n,
            d == depth as nat,
            sigs.wf(),
            items_findings(items@.take(i as int), *unit, reg@, sigs@, *cx, d) matches Some(found)
                && diagnostics::models(diags@) == was + found,
        decreases n - i,
    {
        assert(items@.take(i + 1).drop_last() =~= items@.take(i as int));
        let ghost found = items_findings(items@.take(i as int), *unit, reg@, sigs@, *cx, d)->0;
        if let Item::Fn(f) = &items[i] {
            check_fn_effects(f, unit, sigs, cx, diags);
            let ghost effects = effect_findings(*f, *unit, sigs@, *cx);
            assert(diagnostics::models(diags@) =~= was + (found + effects));
            if !check_fn_types(f, unit, reg, sigs, cx, depth, diags) {
                proof {
                    lemma_items_none(items@, i + 1, *unit, reg@, sigs@, *cx, d);
                }
                return false;
            }
            proof {
                let types = type_findings(*f, *unit, reg@, sigs@, *cx, d)->0;
                assert(diagnostics::models(diags@) =~= was + (found + (effects + types)));
            }
        }
        i = i + 1;
    }
    assert(items@.take(n as int) =~= items@);
    true
}

/// Checks a program, comparing types at most `depth` levels deep, and returns
/// every diagnostic. `None` where that was not deep enough.
pub fn check_program_within(program: &Program, depth: u64) -> (r: Option<Vec<Diagnostic>>)
    ensures
        r is Some <==> findings(*program, depth as nat) is Some,
        r matches Some(diags) ==> findings(*program, depth as nat) == Some(
            diagnostics::models(diags@),
        ),
{
    let reg: TypeRegistry = program.type_registry();
    let sigs: Signatures = build_sigs(program);
    let cx: &Builtins = &program.builtins;
    let ghost d = depth as nat;
    let mut diags: Vec<Diagnostic> = Vec::new();
    let n: usize = program.units.len();
    let mut i: usize = 0;
    assert(diagnostics::models(diags@) =~= Seq::<DiagnosticModel>::empty());
    while i < n
        invariant
            n == program.units.len(),
            i <= n,
            d == depth as nat,
            sigs.wf(),
            *cx == program.builtins,
            reg@ == program.records(),
            sigs@ == program.sigs(),
            units_findings(program.units@.take(i as int), reg@, sigs@, *cx, d) == Some(
                diagnostics::models(diags@),
            ),
        decreases n - i,
    {
        let unit: &Unit = &program.units[i];
        assert(program.units@.take(i + 1).drop_last() =~= program.units@.take(i as int));
        check_imports(unit, &sigs, cx, &mut diags);
        if !check_items(unit, &reg, &sigs, cx, depth, &mut diags) {
            proof {
                lemma_units_none(program.units@, i + 1, reg@, sigs@, *cx, d);
            }
            return None;
        }
        i = i + 1;
    }
    assert(program.units@.take(n as int) =~= program.units@);
    Some(diags)
}

/// Every comparison of types that checking the program takes comes to an end.
pub open spec fn checkable(program: Program) -> bool {
    findings(program, u64::MAX as nat) is Some
}

/// Checks a whole program and returns every diagnostic, errors and warnings.
pub fn check_program(program: &Program) -> (r: Vec<Diagnostic>)
    requires
        checkable(*program),
    ensures
        findings(*program, u64::MAX as nat) == Some(diagnostics::models(r@)),
{
    match check_program_within(program, u64::MAX) {
        Some(diags) => diags,
        None => Vec::new(),
    }
}

// ----- helpers of other tools -----

/// The effects that the body of a function performs by the builtin members it
/// calls itself, whatever any function declares.
pub open spec fn performed_itself(f: FnDecl, cx: Builtins) -> Set<Seq<char>> {
    performed(f, Map::empty(), cx)
}

/// The effects that the functions of a list of items perform, whatever any
/// function declares.
pub open spec fn effects_of_items(items: Seq<Item>, cx: Builtins) -> Set<Seq<char>>
    decreases items.len(),
{
    if items.len() == 0 {
        Set::empty()
    } else {
        match items.last() {
            Item::Fn(f) => effects_of_items(items.drop_last(), cx).union(performed_itself(f, cx)),
            _ => effects_of_items(items.drop_last(), cx),
        }
    }
}

/// The effects that are performed anywhere in the functions of a program:
/// inferred from the bodies, whatever is declared. A call adds nothing here, as
/// the body of the called function is counted by itself.
pub fn used_effects(program: &Program) -> (r: NameSet)
    ensures
        r.wf(),
        r@ == effects_of_items(program::items_of(program.units@), program.builtins),
{
    let undeclared: Signatures = Signatures::new();
    let cx: &Builtins = &program.builtins;
    let mut all: NameSet = NameSet::new();
    let n: usize = program.units.len();
    let mut i: usize = 0;
    while i < n
        invariant
            n == program.units.len(),
            i <= n,
            undeclared.wf(),
            undeclared@ == Map::<Seq<char>, program::SigModel>::empty(),
            all.wf(),
            all@ == effects_of_items(program::items_of(program.units@.take(i as int)), *cx),
        decreases n - i,
    {
        let items: &Vec<Item> = &program.units[i].module.items;
        let ghost past = program::items_of(program.units@.take(i as int));
        let m: usize = items.len();
        let mut j: usize = 0;
        assert(past + items@.take(0) =~= past);
        while j < m
            invariant
                m == items.len(),
                j <= m,
                undeclared.wf(),
                undeclared@ == Map::<Seq<char>, program::SigModel>::empty(),
                all.wf(),
                all@ == effects_of_items(past + items@.take(j as int), *cx),
            decreases m - j,
        {
            let ghost now = past + items@.take(j + 1);
            assert(now.drop_last() =~= past + items@.take(j as int));
            assert(now.last() == items@[j as int]);
            if let Item::Fn(f) = &items[j] {
                let usage: Usage = analyze_block(&f.body, &undeclared, cx);
                all.extend(&usage.effects);
            }
            j = j + 1;
        }
        assert(items@.take(m as int) =~= items@);
        assert(program.units@.take(i + 1).drop_last() =~= program.units@.take(i as int));
        i = i + 1;
    }
    assert(program.units@.take(n as int) =~= program.units@);
    all
}

/// The types of the parameters, as they are printed.
pub open spec fn shown_params(params: Seq<crate::ast::Param>) -> Seq<Seq<char>> {
    params.map_values(|p: crate::ast::Param| types::shown(types::resolved(p.ty)))
}

/// The signature of a function as text. The effects are in ascending order.
pub open spec fn signature_text(f: FnDecl) -> Seq<char> {
    "("@ + text::joined(shown_params(f.params@), ", "@) + ") -> "@ + (match f.ret {
        Some(t) => types::shown(types::resolved(t)),
        None => "Unit"@,
    }) + (match f.effects {
        Some(_) => " effects ["@ + text::joined(
            names::sorted(program::clause_names(f)),
            ", "@,
        ) + "]"@,
        None => Seq::empty(),
    })
}

/// A stable text for a function's signature, by which a change of the public
/// interface is noticed.
pub fn signature_string(f: &FnDecl) -> (r: String)
    ensures
        r@ == signature_text(*f),
{
    let mut params: Vec<String> = Vec::new();
    let n: usize = f.params.len();
    let mut i: usize = 0;
    while i < n
        invariant
            n == f.params.len(),
            i <= n,
            text::texts(params@) =~= shown_params(f.params@).take(i as int),
        decreases n - i,
    {
        let ghost done = text::texts(params@);
        let shown: String = type_from_ast(&f.params[i].ty).display();
        params.push(shown);
        assert(text::texts(params@) =~= done.push(shown@));
        i = i + 1;
    }
    assert(text::texts(params@) =~= shown_params(f.params@));
    let mut out: String = "(".to_string();
    out.append(text::join(&params, ", ").as_str());
    out.append(") -> ");
    match &f.ret {
        Some(t) => out.append(type_from_ast(t).display().as_str()),
        None => out.append("Unit"),
    }
    let mut effects: String = String::new();
    if f.effects.is_some() {
        let sorted: Vec<String> = names::sort_names(&effect_names(f));
        effects = " effects [".to_string();
        effects.append(text::join(&sorted, ", ").as_str());
        effects.append("]");
    }
    out.append(effects.as_str());
    out
}

} // verus!
