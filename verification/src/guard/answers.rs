//! What a session answers, told from what is in the tree and in the records.
use crate::event::{self, EventKind, EventModel};
use crate::glob;
use crate::goal::GoalModel;
use crate::guard::laws::{self, World};
use crate::guard::ledger;
use crate::guard::packets::{RejectionModel, TreeModel};
use crate::guard::plan;
use crate::guard::trace::{self, is_about, says_pass};
use crate::guard::verify::{EffectModel, ShellModel};
use crate::json::Json;
use crate::names;
use crate::snapshot;
use crate::store::{ReceiptModel, StateModel};
use crate::text;
use vstd::prelude::*;

verus! {

// ----- the write scope -----

/// Both trees hold finitely many files.
pub open spec fn finite_tree(tree: TreeModel) -> bool {
    tree.base.dom().finite() && tree.head.dom().finite()
}

/// The two trees do not say the same of a file.
pub open spec fn changed(tree: TreeModel, path: Seq<char>) -> bool {
    let was = tree.base.dom().contains(path);
    let now = tree.head.dom().contains(path);
    was != now || (was && tree.base[path] != tree.head[path])
}

/// A file is changed that the goal does not allow to be written: the goal names
/// patterns, and none of them matches.
pub open spec fn strays(goal: GoalModel, tree: TreeModel, path: Seq<char>) -> bool {
    &&& changed(tree, path)
    &&& goal.fs_write.len() > 0
    &&& forall|i: int|
        0 <= i < goal.fs_write.len() ==> !glob::matches(#[trigger] goal.fs_write[i], path)
}

/// Some file strays.
pub open spec fn any_strays(goal: GoalModel, tree: TreeModel) -> bool {
    exists|path: Seq<char>| strays(goal, tree, path)
}

/// The changes are the files of which the trees do not say the same.
pub proof fn lemma_all_changes(tree: TreeModel, path: Seq<char>)
    requires
        finite_tree(tree),
    ensures
        tree.diff().all().contains(path) <==> changed(tree, path),
{
    snapshot::law_changes_are_sorted_by_kind(tree.base, tree.head, path);
    let d = tree.diff();
    let all = d.all();
    let k = d.added.len() as int;
    let m = d.modified.len() as int;
    if d.added.contains(path) {
        let i = choose|i: int| 0 <= i < d.added.len() && d.added[i] == path;
        assert(all[i] == path);
    }
    if d.modified.contains(path) {
        let i = choose|i: int| 0 <= i < d.modified.len() && d.modified[i] == path;
        assert(all[k + i] == path);
    }
    if d.deleted.contains(path) {
        let i = choose|i: int| 0 <= i < d.deleted.len() && d.deleted[i] == path;
        assert(all[k + m + i] == path);
    }
    if all.contains(path) {
        let i = choose|i: int| 0 <= i < all.len() && all[i] == path;
        if i < k {
            assert(d.added.contains(d.added[i]));
        } else if i < k + m {
            assert(d.modified.contains(d.modified[i - k]));
        } else {
            assert(d.deleted.contains(d.deleted[i - k - m]));
        }
    }
}

/// An ascending list holds no name twice.
pub proof fn lemma_ascending_apart(list: Seq<Seq<char>>)
    requires
        names::ascending(list),
    ensures
        list.no_duplicates(),
{
    assert forall|i: int, j: int| 0 <= i < list.len() && 0 <= j < list.len() && i != j implies list[i]
        != list[j] by {
        if list[i] == list[j] {
            text::lemma_before_irreflexive(list[i]);
            if i < j {
                assert(text::before(list[i], list[j]));
            } else {
                assert(text::before(list[j], list[i]));
            }
        }
    }
}

proof fn lemma_all_once(tree: TreeModel)
    requires
        finite_tree(tree),
    ensures
        tree.diff().all().no_duplicates(),
{
    let d = tree.diff();
    let all = d.all();
    let k = d.added.len() as int;
    let m = d.modified.len() as int;
    snapshot::law_changes_are_sorted_by_kind(tree.base, tree.head, Seq::empty());
    lemma_ascending_apart(d.added);
    lemma_ascending_apart(d.modified);
    lemma_ascending_apart(d.deleted);
    assert forall|i: int, j: int| 0 <= i < all.len() && 0 <= j < all.len() && i != j implies all[i]
        != all[j] by {
        snapshot::law_changes_are_sorted_by_kind(tree.base, tree.head, all[i]);
        snapshot::law_changes_are_sorted_by_kind(tree.base, tree.head, all[j]);
        if i < k {
            assert(all[i] == d.added[i]);
            assert(d.added.contains(all[i]));
        } else if i < k + m {
            assert(all[i] == d.modified[i - k]);
            assert(d.modified.contains(all[i]));
        } else {
            assert(all[i] == d.deleted[i - k - m]);
            assert(d.deleted.contains(all[i]));
        }
        if j < k {
            assert(all[j] == d.added[j]);
            assert(d.added.contains(all[j]));
        } else if j < k + m {
            assert(all[j] == d.modified[j - k]);
            assert(d.modified.contains(all[j]));
        } else {
            assert(all[j] == d.deleted[j - k - m]);
            assert(d.deleted.contains(all[j]));
        }
    }
}

proof fn lemma_filter_once(all: Seq<Seq<char>>, keep: spec_fn(Seq<char>) -> bool)
    requires
        all.no_duplicates(),
    ensures
        all.filter(keep).no_duplicates(),
    decreases all.len(),
{
    reveal(Seq::filter);
    if all.len() > 0 {
        let less = all.drop_last();
        assert(less.no_duplicates());
        lemma_filter_once(less, keep);
        laws::lemma_filtered(less, keep, all.last());
        assert(!less.contains(all.last())) by {
            if less.contains(all.last()) {
                let i = choose|i: int| 0 <= i < less.len() && less[i] == all.last();
                assert(all[i] == all[all.len() - 1]);
            }
        }
        let more = less.filter(keep);
        assert(!more.contains(all.last()));
        assert forall|i: int, j: int|
            0 <= i < all.filter(keep).len() && 0 <= j < all.filter(keep).len() && i
                != j implies all.filter(keep)[i] != all.filter(keep)[j] by {
            if keep(all.last()) {
                assert(all.filter(keep) == more.push(all.last()));
                if i < more.len() {
                    assert(more.contains(more[i]));
                }
                if j < more.len() {
                    assert(more.contains(more[j]));
                }
            }
        }
    }
}

/// The files that are reported as out of scope are those that stray, each once;
/// those reported as in scope are the other changed ones, each once.
pub proof fn law_scope_is_told_by_the_patterns(goal: GoalModel, tree: TreeModel, path: Seq<char>)
    requires
        finite_tree(tree),
    ensures
        plan::outside(goal, tree).contains(path) <==> strays(goal, tree, path),
        plan::inside(goal, tree).contains(path) <==> changed(tree, path) && !strays(
            goal,
            tree,
            path,
        ),
        plan::outside(goal, tree).no_duplicates(),
        plan::inside(goal, tree).no_duplicates(),
        plan::outside(goal, tree).len() > 0 <==> any_strays(goal, tree),
{
    laws::law_scope_parts_the_changes(goal, tree, path);
    lemma_all_changes(tree, path);
    assert(goal.writable(path) <==> goal.fs_write.len() == 0 || exists|i: int|
        0 <= i < goal.fs_write.len() && glob::matches(#[trigger] goal.fs_write[i], path));
    lemma_all_once(tree);
    lemma_filter_once(tree.diff().all(), |p: Seq<char>| !goal.writable(p));
    lemma_filter_once(tree.diff().all(), |p: Seq<char>| goal.writable(p));
    let outs = plan::outside(goal, tree);
    if outs.len() > 0 {
        assert(outs.contains(outs[0]));
        laws::law_scope_parts_the_changes(goal, tree, outs[0]);
        lemma_all_changes(tree, outs[0]);
        assert(strays(goal, tree, outs[0]));
    }
    if any_strays(goal, tree) {
        let p = choose|p: Seq<char>| strays(goal, tree, p);
        laws::law_scope_parts_the_changes(goal, tree, p);
        lemma_all_changes(tree, p);
        assert(!goal.writable(p));
        assert(outs.contains(p));
    }
}

proof fn lemma_same_filter(
    all: Seq<Seq<char>>,
    a: spec_fn(Seq<char>) -> bool,
    b: spec_fn(Seq<char>) -> bool,
)
    requires
        forall|i: int| 0 <= i < all.len() ==> a(#[trigger] all[i]) == b(all[i]),
    ensures
        all.filter(a) == all.filter(b),
    decreases all.len(),
{
    reveal(Seq::filter);
    if all.len() > 0 {
        let less = all.drop_last();
        assert forall|i: int| 0 <= i < less.len() implies a(#[trigger] less[i]) == b(less[i]) by {
            assert(less[i] == all[i]);
        }
        lemma_same_filter(less, a, b);
        assert(a(all[all.len() - 1]) == b(all[all.len() - 1]));
    }
}

/// What is out of scope and what is in scope is reported in the order of the
/// changes: the added files, then the modified, then the deleted, each part in
/// ascending order.
pub proof fn law_scope_keeps_the_order(goal: GoalModel, tree: TreeModel)
    requires
        finite_tree(tree),
    ensures
        ({
            let d = tree.diff();
            let all = d.added + d.modified + d.deleted;
            &&& plan::outside(goal, tree) == all.filter(|p: Seq<char>| strays(goal, tree, p))
            &&& plan::inside(goal, tree) == all.filter(|p: Seq<char>| !strays(goal, tree, p))
        }),
{
    let all = tree.diff().all();
    snapshot::law_changes_are_sorted_by_kind(tree.base, tree.head, Seq::empty());
    assert forall|i: int| 0 <= i < all.len() implies !goal.writable(#[trigger] all[i]) == strays(
        goal,
        tree,
        all[i],
    ) by {
        assert(all.contains(all[i]));
        lemma_all_changes(tree, all[i]);
    }
    lemma_same_filter(
        all,
        |p: Seq<char>| !goal.writable(p),
        |p: Seq<char>| strays(goal, tree, p),
    );
    lemma_same_filter(
        all,
        |p: Seq<char>| goal.writable(p),
        |p: Seq<char>| !strays(goal, tree, p),
    );
}

// ----- refusals -----

/// A required command is not on the list of those that may be run.
pub open spec fn cannot_be_met(goal: GoalModel) -> bool {
    exists|i: int| 0 <= i < goal.required.len() && !goal.shell.contains(#[trigger] goal.required[i])
}

/// The run is committed or aborted.
pub open spec fn is_over(state: StateModel) -> bool {
    state.guard_phase == "committed"@ || state.guard_phase == "aborted"@
}

/// The rejection tells the files that stray: each is a violation, with what the
/// goal allows, and one of them is the one to revert.
pub open spec fn tells_strays(r: RejectionModel, goal: GoalModel, tree: TreeModel) -> bool {
    &&& r.kind == "scope_violation"@
    &&& r.message == text::decimal(r.violations.len())
        + " changed file(s) outside the allowed write scope."@
    &&& r.strategies == seq![
        "revert_out_of_scope_file"@,
        "move_change_into_allowed_scope"@,
        "ask_human_to_expand_goal_authority"@,
    ]
    &&& r.action == "revert_file"@
    &&& r.path matches Some(path) && strays(goal, tree, path)
    &&& forall|i: int|
        #![trigger r.violations[i]]
        0 <= i < r.violations.len() ==> strays(goal, tree, r.violations[i].path)
            && r.violations[i].allowed == goal.fs_write && r.violations[i].reason
            == "not allowed by fs.write"@
    &&& forall|path: Seq<char>|
        strays(goal, tree, path) ==> exists|i: int|
            0 <= i < r.violations.len() && (#[trigger] r.violations[i]).path == path
    &&& forall|i: int, j: int|
        0 <= i < j < r.violations.len() ==> (#[trigger] r.violations[i]).path != (
        #[trigger] r.violations[j]).path
}

/// A refusal is always explained. An open run that is not verified has a
/// rejection wherever a file strays, a required command may not be run or fewer
/// commands passed than are required, told in this order; and there is no
/// rejection elsewhere.
pub proof fn law_every_refusal_is_explained(
    goal: GoalModel,
    state: StateModel,
    tree: TreeModel,
    failure: Option<Seq<char>>,
)
    requires
        finite_tree(tree),
    ensures
        ({
            let told = plan::rejection_for(goal, state, tree, failure);
            let asked = !is_over(state) && !state.verified;
            let stray = any_strays(goal, tree);
            let unmet = cannot_be_met(goal);
            let failed = state.commands_passed < state.commands_required;
            &&& told is None <==> !asked || (!stray && !unmet && !failed)
            &&& asked && stray ==> (told matches Some(r) && tells_strays(r, goal, tree))
            &&& asked && !stray && unmet ==> (told matches Some(r) && {
                &&& r.kind == "misconfigured"@
                &&& r.message == "A required command is not allowlisted in the goal's allow.shell."@
                &&& r.violations.len() == 0
                &&& r.strategies == seq!["add_command_to_allow_shell"@, "ask_human_to_fix_tachfile"@]
                &&& r.action == "ask_human"@
                &&& r.path is None
            })
            &&& asked && !stray && !unmet && failed ==> (told matches Some(r) && {
                &&& r.kind == "command_failed"@
                &&& failure matches Some(summary) ==> r.message == summary
                &&& failure is None ==> r.message == "a required command failed"@
                &&& r.violations.len() == 0
                &&& r.strategies == seq!["edit_files_to_fix_failure"@, "rerun_verify"@]
                &&& r.action == "edit_then_verify"@
                &&& r.path is None
            })
        }),
{
    let told = plan::rejection_for(goal, state, tree, failure);
    let outs = plan::outside(goal, tree);
    law_scope_is_told_by_the_patterns(goal, tree, Seq::empty());
    assert(goal.misconfigured() <==> cannot_be_met(goal));
    if !is_over(state) && !state.verified && any_strays(goal, tree) {
        let r = told->Some_0;
        let list = plan::violations_in(goal, tree);
        assert(r.violations == list);
        assert(list.len() == outs.len());
        assert forall|i: int|
            #![trigger r.violations[i]]
            0 <= i < r.violations.len() implies strays(goal, tree, r.violations[i].path)
            && r.violations[i].allowed == goal.fs_write && r.violations[i].reason
            == "not allowed by fs.write"@ by {
            assert(outs.contains(outs[i]));
            law_scope_is_told_by_the_patterns(goal, tree, outs[i]);
        }
        assert forall|path: Seq<char>| strays(goal, tree, path) implies exists|i: int|
            0 <= i < r.violations.len() && (#[trigger] r.violations[i]).path == path by {
            law_scope_is_told_by_the_patterns(goal, tree, path);
            let i = choose|i: int| 0 <= i < outs.len() && outs[i] == path;
            assert(r.violations[i].path == path);
        }
        assert(outs.contains(outs[0]));
        law_scope_is_told_by_the_patterns(goal, tree, outs[0]);
        assert(tells_strays(r, goal, tree));
    }
}

// ----- a verification and its answer -----

/// The events among some records, in order.
pub open spec fn appended(effects: Seq<EffectModel>) -> Seq<EventModel>
    decreases effects.len(),
{
    if effects.len() == 0 {
        Seq::empty()
    } else {
        match effects.last() {
            EffectModel::Append(e) => appended(effects.drop_last()).push(e),
            _ => appended(effects.drop_last()),
        }
    }
}

/// The last two records are an event and the state, so these are the last event
/// and the saved state.
proof fn lemma_last_records(
    before: Seq<EffectModel>,
    e: EventModel,
    s: StateModel,
    history: Seq<EventModel>,
)
    ensures
        ({
            let all = before + seq![EffectModel::Append(e), EffectModel::SaveState(s)];
            &&& laws::saved(all) == Some(s)
            &&& (history + appended(all)).len() > 0
            &&& (history + appended(all)).last() == e
        }),
{
    let all = before + seq![EffectModel::Append(e), EffectModel::SaveState(s)];
    assert(all.last() == EffectModel::SaveState(s));
    let less = all.drop_last();
    assert(less.last() == EffectModel::Append(e));
    assert(appended(less) == appended(less.drop_last()).push(e));
    assert(appended(all) == appended(less));
}

proof fn lemma_summary(said: Seq<char>, reason: Seq<char>, history: Seq<EventModel>)
    requires
        history.len() > 0,
        EffectModel::Append(history.last()) == trace::event(
            EventKind::VerifyFailed,
            map!["reason"@ => Json::Str(reason), "summary"@ => Json::Str(said)],
        ),
    ensures
        event::failure(history) == Some(said),
{
    reveal_strlit("reason");
    reveal_strlit("summary");
    assert("reason"@.len() == 6 && "summary"@.len() == 7);
}

/// Every step is a pass or has something said against it.
proof fn lemma_counts(commands: Seq<Seq<char>>, steps: Seq<trace::Step>)
    requires
        commands.len() == steps.len(),
    ensures
        trace::passing(steps) + trace::complaints(commands, steps).len() == steps.len(),
        trace::complaints(commands, steps).len() == 0 <==> forall|j: int|
            0 <= j < steps.len() ==> trace::step_passes(#[trigger] steps[j]),
    decreases steps.len(),
{
    if steps.len() > 0 {
        let rest = steps.skip(1);
        lemma_counts(commands.skip(1), rest);
        if forall|j: int| 0 <= j < steps.len() ==> trace::step_passes(#[trigger] steps[j]) {
            assert(trace::step_passes(steps[0]));
            assert forall|j: int| 0 <= j < rest.len() implies trace::step_passes(
                #[trigger] rest[j],
            ) by {
                assert(trace::step_passes(steps[j + 1]));
            }
        }
        if trace::complaints(commands, steps).len() == 0 {
            assert(trace::step_passes(steps[0]));
            assert forall|j: int| 0 <= j < steps.len() implies trace::step_passes(
                #[trigger] steps[j],
            ) by {
                if j > 0 {
                    assert(rest[j - 1] == steps[j]);
                    assert(trace::step_passes(rest[j - 1]));
                }
            }
        }
    }
}

/// A right step is refused iff the goal does not allow the command.
proof fn lemma_refused(
    at: trace::Setting,
    place: nat,
    steps: Seq<trace::Step>,
    receipts: Seq<ReceiptModel>,
    created: nat,
    j: int,
)
    requires
        trace::right_steps(at, place, steps, receipts, created),
        0 <= j < steps.len(),
    ensures
        place + steps.len() == at.goal.required.len(),
        steps[j] is Refused <==> !at.goal.shell.contains(at.goal.required[place + j]),
    decreases steps.len(),
{
    let rest = steps.skip(1);
    let more: nat = created + if steps[0] is Ran {
        1nat
    } else {
        0nat
    };
    let next = trace::after_step(receipts, steps[0]);
    assert(trace::right_steps(at, place + 1, rest, next, more));
    if j > 0 {
        lemma_refused(at, place + 1, rest, next, more, j - 1);
        assert(rest[j - 1] == steps[j]);
    } else if rest.len() > 0 {
        lemma_refused(at, place + 1, rest, next, more, 0);
    } else {
        assert(place + 1 == at.goal.required.len());
    }
}

/// Files that stray end a verification before any command: an event for each of
/// them, the refusal, and a state that is open and not verified.
pub proof fn law_strays_end_a_verification(
    goal: GoalModel,
    state: StateModel,
    run_id: Seq<char>,
    tree: TreeModel,
    receipts: Seq<ReceiptModel>,
    rerun: bool,
    crash: Option<nat>,
    world: World,
)
    requires
        finite_tree(tree),
        any_strays(goal, tree),
    ensures
        ({
            let effects = laws::verification(
                goal,
                state,
                run_id,
                tree,
                receipts,
                rerun,
                crash,
                world,
            ).effects;
            let outs = plan::outside(goal, tree);
            effects == Seq::new(
                outs.len(),
                |i: int|
                    trace::event(
                        EventKind::ScopeViolation,
                        map![
                            "path"@ => Json::Str(outs[i]),
                            "allowed"@ => crate::json::strings(goal.fs_write),
                        ],
                    ),
            ) + seq![
                trace::event(
                    EventKind::VerifyFailed,
                    map![
                        "reason"@ => Json::Str("out_of_scope"@),
                        "summary"@ => Json::Str(
                            text::decimal(outs.len()) + " out-of-scope write(s): "@
                                + text::joined(outs, ", "@),
                        ),
                    ],
                ),
                EffectModel::SaveState(
                    StateModel {
                        out_of_scope: outs.len(),
                        verified: false,
                        guard_phase: "open"@,
                        ..state
                    },
                ),
            ]
        }),
{
    law_scope_is_told_by_the_patterns(goal, tree, Seq::empty());
    let outs = plan::outside(goal, tree);
    let t = crate::guard::verify::first_turn(goal, state, run_id, tree, receipts, rerun, crash);
    assert(laws::played(t.next, world).effects.len() == 0);
    assert(laws::verification(
        goal,
        state,
        run_id,
        tree,
        receipts,
        rerun,
        crash,
        world,
    ).effects =~= t.effects);
    assert(crate::guard::verify::scope_events(goal, outs) =~= Seq::new(
        outs.len(),
        |i: int|
            trace::event(
                EventKind::ScopeViolation,
                map![
                    "path"@ => Json::Str(outs[i]),
                    "allowed"@ => crate::json::strings(goal.fs_write),
                ],
            ),
    ));
}

/// A verification that ends with the run not verified is answered with a
/// rejection, and one that ends verified is not: files that stray are told, or
/// that a command may not be run, or else what is said of the commands that did
/// not pass.
pub proof fn law_refused_verification_is_explained(
    goal: GoalModel,
    state: StateModel,
    run_id: Seq<char>,
    tree: TreeModel,
    receipts: Seq<ReceiptModel>,
    rerun: bool,
    world: World,
    history: Seq<EventModel>,
) -> (steps: Seq<trace::Step>)
    requires
        finite_tree(tree),
    ensures
        ({
            let effects = laws::verification(
                goal,
                state,
                run_id,
                tree,
                receipts,
                rerun,
                None,
                world,
            ).effects;
            let stray = any_strays(goal, tree);
            let unmet = cannot_be_met(goal);
            &&& laws::saved(effects) matches Some(s) && {
                let told = plan::rejection_for(
                    goal,
                    s,
                    tree,
                    event::failure(history + appended(effects)),
                );
                &&& told is None <==> s.verified
                &&& s.verified <==> !stray && forall|j: int|
                    0 <= j < steps.len() ==> trace::step_passes(#[trigger] steps[j])
                &&& stray ==> (told matches Some(r) && tells_strays(r, goal, tree))
                &&& !stray && unmet ==> (told matches Some(r) && r.kind == "misconfigured"@)
                &&& !stray && !unmet && !s.verified ==> (told matches Some(r) && r.kind
                    == "command_failed"@ && r.message == text::joined(
                    trace::complaints(goal.required, steps),
                    "; "@,
                ) && r.strategies == seq!["edit_files_to_fix_failure"@, "rerun_verify"@])
            }
            &&& !stray ==> steps.len() == goal.required.len() && trace::right_steps(
                trace::Setting { goal, run_id, digest: tree.digest, rerun, world },
                0,
                steps,
                receipts,
                state.receipts_created,
            )
        }),
{
    let effects = laws::verification(
        goal,
        state,
        run_id,
        tree,
        receipts,
        rerun,
        None,
        world,
    ).effects;
    law_scope_is_told_by_the_patterns(goal, tree, Seq::empty());
    assert("open"@ != "committed"@ && "open"@ != "aborted"@) by {
        reveal_strlit("open");
        reveal_strlit("committed");
        reveal_strlit("aborted");
        assert("open"@.len() == 4 && "committed"@.len() == 9 && "aborted"@.len() == 7);
    }
    let seen = history + appended(effects);
    if any_strays(goal, tree) {
        law_strays_end_a_verification(goal, state, run_id, tree, receipts, rerun, None, world);
        let n = effects.len() - 2;
        let s = effects[n + 1]->SaveState_0;
        assert(effects =~= effects.take(n) + seq![
            EffectModel::Append(effects[n]->Append_0),
            EffectModel::SaveState(s),
        ]);
        lemma_last_records(effects.take(n), effects[n]->Append_0, s, history);
        law_every_refusal_is_explained(goal, s, tree, event::failure(seen));
        Seq::empty()
    } else {
        let steps = trace::law_verification_goes_through_the_commands(
            goal,
            state,
            run_id,
            tree,
            receipts,
            rerun,
            world,
        );
        let said = trace::complaints(goal.required, steps);
        let n = effects.len() - 2;
        let before = trace::all_records(goal.required, steps);
        let e = effects[n]->Append_0;
        let s = effects[n + 1]->SaveState_0;
        assert(effects =~= before + seq![EffectModel::Append(e), EffectModel::SaveState(s)]);
        lemma_last_records(before, e, s, history);
        lemma_counts(goal.required, steps);
        law_every_refusal_is_explained(goal, s, tree, event::failure(seen));
        if cannot_be_met(goal) {
            let i = choose|i: int|
                0 <= i < goal.required.len() && !goal.shell.contains(#[trigger] goal.required[i]);
            lemma_refused(
                trace::Setting { goal, run_id, digest: tree.digest, rerun, world },
                0,
                steps,
                receipts,
                state.receipts_created,
                i,
            );
            assert(!trace::step_passes(steps[i]));
        }
        if !s.verified {
            lemma_summary(text::joined(said, "; "@), "command_failed"@, seen);
        }
        steps
    }
}

// ----- replays -----

/// Some receipt is about the command and is a pass.
pub open spec fn has_pass(receipts: Seq<ReceiptModel>, command: Seq<char>) -> bool {
    exists|k: int|
        0 <= k < receipts.len() && is_about(#[trigger] receipts[k], command) && says_pass(
            receipts[k],
        )
}

/// A replay from the record finds it consistent iff the verified bit is what the
/// receipts tell: verified where nothing was out of scope and every required
/// command has a receipt that is a pass, not verified elsewhere. A record that is
/// not consistent has diverged.
pub proof fn law_replay_believes_only_passes(
    goal: GoalModel,
    state: StateModel,
    receipts: Seq<ReceiptModel>,
)
    ensures
        ({
            let found = ledger::replay_of(goal, state, receipts);
            let proof_is_complete = forall|i: int|
                0 <= i < goal.required.len() ==> has_pass(receipts, #[trigger] goal.required[i]);
            &&& found.identical <==> state.verified == (proof_is_complete && state.out_of_scope
                == 0)
            &&& found.recorded_status == state.status
            &&& found.identical ==> found.replayed_status == state.status
            &&& !found.identical ==> found.replayed_status == "diverged"@
            &&& found.steps == state.step
        }),
{
    assert forall|command: Seq<char>| #[trigger] ledger::proved(receipts, command) == has_pass(
        receipts,
        command,
    ) by {
        if ledger::proved(receipts, command) {
            let k = choose|k: int|
                0 <= k < receipts.len() && (#[trigger] receipts[k]).command() == Some(command)
                    && receipts[k].passed();
            trace::law_receipts_are_read_as_written(receipts[k], command);
            assert(is_about(receipts[k], command));
        }
        if has_pass(receipts, command) {
            let k = choose|k: int|
                0 <= k < receipts.len() && is_about(#[trigger] receipts[k], command) && says_pass(
                    receipts[k],
                );
            trace::law_receipts_are_read_as_written(receipts[k], command);
            assert(receipts[k].command() == Some(command));
        }
    }
    if ledger::derived_verified(goal, state, receipts) {
        assert forall|i: int| 0 <= i < goal.required.len() implies has_pass(
            receipts,
            #[trigger] goal.required[i],
        ) by {
            assert(ledger::proved(receipts, goal.required[i]));
        }
    }
    if forall|i: int|
        0 <= i < goal.required.len() ==> has_pass(receipts, #[trigger] goal.required[i]) {
        assert forall|i: int| 0 <= i < goal.required.len() implies ledger::proved(
            receipts,
            #[trigger] goal.required[i],
        ) by {
            assert(has_pass(receipts, goal.required[i]));
        }
    }
}

/// A verification that ends with the run not verified replays as it was recorded,
/// where some required command has no receipt that is a pass or a file strayed.
pub proof fn law_failed_verification_replays_as_recorded(
    goal: GoalModel,
    state: StateModel,
    run_id: Seq<char>,
    tree: TreeModel,
    receipts: Seq<ReceiptModel>,
    rerun: bool,
    world: World,
    i: int,
)
    requires
        finite_tree(tree),
        ({
            let effects = laws::verification(
                goal,
                state,
                run_id,
                tree,
                receipts,
                rerun,
                None,
                world,
            ).effects;
            &&& laws::saved(effects) matches Some(s) && !s.verified
            &&& any_strays(goal, tree) || (0 <= i < goal.required.len() && !has_pass(
                laws::kept(receipts, effects),
                goal.required[i],
            ))
        }),
    ensures
        ({
            let effects = laws::verification(
                goal,
                state,
                run_id,
                tree,
                receipts,
                rerun,
                None,
                world,
            ).effects;
            let found = ledger::replay_of(
                goal,
                laws::saved(effects)->Some_0,
                laws::kept(receipts, effects),
            );
            &&& found.identical
            &&& found.replayed_status == state.status
        }),
{
    let effects = laws::verification(
        goal,
        state,
        run_id,
        tree,
        receipts,
        rerun,
        None,
        world,
    ).effects;
    let s = laws::saved(effects)->Some_0;
    law_replay_believes_only_passes(goal, s, laws::kept(receipts, effects));
    law_scope_is_told_by_the_patterns(goal, tree, Seq::empty());
    if any_strays(goal, tree) {
        law_strays_end_a_verification(goal, state, run_id, tree, receipts, rerun, None, world);
        let n = effects.len() - 2;
        assert(effects =~= effects.take(n) + seq![
            EffectModel::Append(effects[n]->Append_0),
            EffectModel::SaveState(effects[n + 1]->SaveState_0),
        ]);
        lemma_last_records(
            effects.take(n),
            effects[n]->Append_0,
            effects[n + 1]->SaveState_0,
            Seq::empty(),
        );
    } else {
        let steps = trace::law_verification_goes_through_the_commands(
            goal,
            state,
            run_id,
            tree,
            receipts,
            rerun,
            world,
        );
        let n = effects.len() - 2;
        let before = trace::all_records(goal.required, steps);
        assert(effects =~= before + seq![
            EffectModel::Append(effects[n]->Append_0),
            EffectModel::SaveState(effects[n + 1]->SaveState_0),
        ]);
        lemma_last_records(
            before,
            effects[n]->Append_0,
            effects[n + 1]->SaveState_0,
            Seq::empty(),
        );
    }
}

/// A command passed: it exited 0 and did not time out.
pub open spec fn exited_well(result: ShellModel) -> bool {
    result.exit_code == Some(0i64) && !result.timed_out
}

/// A replay that runs the commands again completes iff as many commands are
/// required as were run, and all of them exited 0 in time; else it failed. It
/// finds the run as it was recorded iff that is what the verified bit says.
pub proof fn law_rerun_needs_every_command(
    goal: GoalModel,
    state: StateModel,
    results: Seq<ShellModel>,
)
    requires
        results.len() <= goal.required.len(),
    ensures
        ({
            let found = ledger::rerun_of(goal, state, results);
            let all = results.len() == goal.required.len() && forall|i: int|
                0 <= i < results.len() ==> exited_well(#[trigger] results[i]);
            &&& found.replayed_status == (if all {
                "completed"@
            } else {
                "failed"@
            })
            &&& found.identical <==> all == state.verified
            &&& found.recorded_status == state.status
            &&& found.steps == state.step
        }),
{
    laws::lemma_passes(results);
    if forall|i: int| 0 <= i < results.len() ==> exited_well(#[trigger] results[i]) {
        assert forall|i: int| 0 <= i < results.len() implies (#[trigger] results[i]).passed() by {
            assert(exited_well(results[i]));
        }
    }
    if forall|i: int| 0 <= i < results.len() ==> (#[trigger] results[i]).passed() {
        assert forall|i: int| 0 <= i < results.len() implies exited_well(#[trigger] results[i]) by {
            assert(results[i].passed());
        }
    }
}

/// The commands that a replay runs again are the required ones that the goal
/// allows, in order, each over the present tree under an action of its own.
pub proof fn law_rerun_takes_the_allowed_commands(
    goal: GoalModel,
    commands: Seq<Seq<char>>,
    more: Seq<char>,
    digest: Seq<char>,
)
    ensures
        ledger::all_again(goal, Seq::empty(), digest).len() == 0,
        !goal.shell.contains(more) ==> ledger::all_again(goal, commands.push(more), digest)
            == ledger::all_again(goal, commands, digest),
        goal.shell.contains(more) ==> {
            let list = ledger::all_again(goal, commands.push(more), digest);
            let last = list.last();
            &&& list.len() > 0 && list.drop_last() == ledger::all_again(goal, commands, digest)
            &&& last.command == more
            &&& last.action_id == "replay:"@ + more
            &&& last.input == Json::Object(
                map!["command"@ => Json::Str(more), "tree"@ => Json::Str(digest)],
            )
        },
{
    assert(commands.push(more).drop_last() =~= commands);
    let before = ledger::all_again(goal, commands, digest);
    assert(before.push(ledger::again(more, digest)).drop_last() =~= before);
}

} // verus!
