//! How a session begins, goes on and ends, told from what is in the tree and in
//! the records.
use crate::diagnostics::Severity;
use crate::event::{self, EventKind, EventModel};
use crate::goal::GoalModel;
use crate::guard::answers::{self, any_strays, cannot_be_met, changed, finite_tree};
use crate::guard::ledger;
use crate::guard::open;
use crate::guard::packets::{ErrorKind, SummaryModel, TreeModel};
use crate::guard::plan::{self, MoveModel};
use crate::guard::trace::{self, holds, is_about, says_pass};
use crate::guard::verify::{self, EffectModel, KeysModel, NextModel, ShellModel, WorkModel};
use crate::json::Json;
use crate::snapshot::Files;
use crate::store::{self, GoalRecord, ReceiptModel, StateModel};
use crate::text;
use vstd::prelude::*;

verus! {

// ----- the agent's next move -----

/// The move has this label, action, command and instructions.
pub open spec fn tells(
    m: MoveModel,
    status: Seq<char>,
    action: Seq<char>,
    command: Seq<char>,
    instructions: Seq<Seq<char>>,
) -> bool {
    &&& m.status == status
    &&& m.action == action
    &&& m.command == command
    &&& m.instructions == instructions
}

/// The run is over, by a commit.
pub open spec fn tells_finalized(m: MoveModel) -> bool {
    tells(
        m,
        "finalized"@,
        "done"@,
        Seq::empty(),
        seq!["This run is finalized in Tach's ledger. Begin a new session for more work."@],
    )
}

/// The run is over, by an abort.
pub open spec fn tells_aborted(m: MoveModel) -> bool {
    tells(
        m,
        "aborted"@,
        "aborted"@,
        Seq::empty(),
        seq!["This run was aborted. Run `tach guard begin <Goal>` to start over."@],
    )
}

/// The goal cannot be met.
pub open spec fn tells_blocked(m: MoveModel) -> bool {
    tells(
        m,
        "blocked"@,
        "blocked"@,
        Seq::empty(),
        seq![
            "A required command is not in the goal's allow.shell list, so Tach cannot run it."@,
            "This is a goal-configuration problem: a human must fix the Tachfile."@,
        ],
    )
}

/// Files are to be reverted.
pub open spec fn tells_to_revert(m: MoveModel) -> bool {
    tells(
        m,
        "blocked"@,
        "fix_scope_violation"@,
        "tach guard diff --json"@,
        seq![
            "You changed files outside allowed_files. Revert them, or move the change into scope."@,
            "Run `tach guard diff --json` to see exactly which files are out of scope."@,
            "Out-of-scope writes block verify and finalize until reverted."@,
        ],
    )
}

/// The run can be finalized.
pub open spec fn tells_to_finalize(m: MoveModel) -> bool {
    tells(
        m,
        "verified"@,
        "finalize"@,
        "tach guard finalize"@,
        seq![
            "All required commands passed and no out-of-scope files changed."@,
            "Run `tach guard finalize` to record this run in Tach's ledger (this never touches git)."@,
        ],
    )
}

/// The tree is no longer the one that was verified.
pub open spec fn tells_to_verify_again(m: MoveModel) -> bool {
    tells(
        m,
        "editing"@,
        "run_verify"@,
        "tach guard verify"@,
        seq![
            "The tree changed since the last verify. Run `tach guard verify` again before finalizing."@,
        ],
    )
}

/// A command failed.
pub open spec fn tells_to_mend(m: MoveModel) -> bool {
    tells(
        m,
        "editing"@,
        "edit_then_verify"@,
        "tach guard verify"@,
        seq![
            "A required command is still failing. Edit files within allowed_files to fix it."@,
            "Then run `tach guard verify`; do not claim done until verified=true."@,
        ],
    )
}

/// There are changes to verify.
pub open spec fn tells_to_verify(m: MoveModel) -> bool {
    tells(
        m,
        "editing"@,
        "run_verify"@,
        "tach guard verify"@,
        seq![
            "You have in-scope changes that are not yet verified."@,
            "Run `tach guard verify` to run the required commands and set the verified bit."@,
        ],
    )
}

/// Nothing has happened yet.
pub open spec fn tells_to_begin(m: MoveModel) -> bool {
    tells(
        m,
        "editing"@,
        "edit_then_verify"@,
        "tach guard verify"@,
        seq![
            "Edit only files matching allowed_files."@,
            "After editing, run `tach guard verify`. Do not claim done until verified=true."@,
        ],
    )
}

/// The move depends on what is asked first: a run that is over, a goal that
/// cannot be met, files out of scope, a verified run, a command that fails,
/// changes; in this order, whatever else holds.
pub proof fn law_first_reason_decides(
    phase: Seq<char>,
    verified: bool,
    digest_matches: bool,
    n_violations: nat,
    has_changes: bool,
    blocked: bool,
    failing: bool,
)
    ensures
        ({
            let m = plan::move_for(
                phase,
                verified,
                digest_matches,
                n_violations,
                has_changes,
                blocked,
                failing,
            );
            let open = phase != "committed"@ && phase != "aborted"@;
            let clear = open && !blocked && n_violations == 0;
            let pending = clear && !verified;
            &&& phase == "committed"@ ==> tells_finalized(m)
            &&& phase == "aborted"@ ==> tells_aborted(m)
            &&& open && blocked ==> tells_blocked(m)
            &&& open && !blocked && n_violations > 0 ==> tells_to_revert(m)
            &&& clear && verified && digest_matches ==> tells_to_finalize(m)
            &&& clear && verified && !digest_matches ==> tells_to_verify_again(m)
            &&& pending && failing ==> tells_to_mend(m)
            &&& pending && !failing && has_changes ==> tells_to_verify(m)
            &&& pending && !failing && !has_changes ==> tells_to_begin(m)
        }),
{
    reveal_strlit("committed");
    reveal_strlit("aborted");
    assert("committed"@.len() == 9 && "aborted"@.len() == 7);
}

/// What an agent is told: that the run is over; else that a human must mend the
/// goal; else to take back what strays; else, of a verified run, to finalize it,
/// or to verify again a tree that changed since; else to mend what failed, to
/// verify what changed, or to begin.
pub proof fn law_next_move_is_told(
    goal: GoalModel,
    state: StateModel,
    tree: TreeModel,
    failure: Option<Seq<char>>,
)
    requires
        finite_tree(tree),
    ensures
        ({
            let m = plan::next_move(goal, state, tree, failure);
            let blocked = cannot_be_met(goal);
            let stray = any_strays(goal, tree);
            let failed = state.commands_passed < state.commands_required && (
            failure matches Some(summary) && !text::occurs("out-of-scope"@, summary));
            if state.guard_phase == "committed"@ {
                tells_finalized(m)
            } else if state.guard_phase == "aborted"@ {
                tells_aborted(m)
            } else if blocked {
                tells_blocked(m)
            } else if stray {
                tells_to_revert(m)
            } else if state.verified {
                if tree.digest == state.verified_digest {
                    tells_to_finalize(m)
                } else {
                    tells_to_verify_again(m)
                }
            } else if failed {
                tells_to_mend(m)
            } else if exists|path: Seq<char>| changed(tree, path) {
                tells_to_verify(m)
            } else {
                tells_to_begin(m)
            }
        }),
{
    answers::law_scope_is_told_by_the_patterns(goal, tree, Seq::empty());
    assert(goal.misconfigured() <==> cannot_be_met(goal));
    let all = tree.diff().all();
    if all.len() > 0 {
        answers::lemma_all_changes(tree, all[0]);
        assert(all.contains(all[0]));
        assert(changed(tree, all[0]));
    }
    if exists|path: Seq<char>| changed(tree, path) {
        let path = choose|path: Seq<char>| changed(tree, path);
        answers::lemma_all_changes(tree, path);
        assert(all.len() > 0);
    }
}

/// The required action follows the phase of a session.
pub proof fn law_required_action_follows_the_phase(phase: Seq<char>)
    ensures
        plan::required_action("verified"@)
            == "run `tach guard commit` to finalize the verified changes"@,
        plan::required_action("committed"@) == "done — this run is committed"@,
        plan::required_action("aborted"@) == "this run was aborted; begin a new one"@,
        phase != "verified"@ && phase != "committed"@ && phase != "aborted"@
            ==> plan::required_action(phase)
            == "edit files within allowed_files, then run `tach guard verify`"@,
{
    reveal_strlit("verified");
    reveal_strlit("committed");
    reveal_strlit("aborted");
    assert("verified"@.len() == 8 && "committed"@.len() == 9 && "aborted"@.len() == 7);
}

/// A status tells what the state holds, under the run's id, and how many receipts
/// there are.
pub proof fn law_status_tells_the_state(run_id: Seq<char>, state: StateModel, receipts: nat)
    ensures
        ({
            let s = plan::status_of(run_id, state, receipts);
            &&& s.run_id == run_id
            &&& s.goal == state.goal
            &&& s.phase == state.guard_phase
            &&& s.verified == state.verified
            &&& s.commands_required == state.commands_required
            &&& s.commands_passed == state.commands_passed
            &&& s.out_of_scope == state.out_of_scope
            &&& s.receipts == receipts
            &&& s.step == state.step
        }),
{
}

/// A request on a run is answered iff the run is a guard session; any other run
/// is named in the error.
pub proof fn law_only_sessions_are_answered(record: GoalRecord, run_id: Seq<char>)
    ensures
        plan::session_error(record, run_id) is None <==> record.kind@ == "coding"@,
        plan::session_error(record, run_id) matches Some(e) ==> e.kind == ErrorKind::InvalidInput
            && e.message == "run `"@ + run_id + "` is a `"@ + record.kind@
            + "` run, not a guard session"@,
{
}

// ----- verdicts in the history -----

/// The event at place `k` is the last that ends a verification.
pub open spec fn last_verdict(events: Seq<EventModel>, k: int) -> bool {
    &&& 0 <= k < events.len()
    &&& events[k].kind == EventKind::VerifyFailed || events[k].kind == EventKind::VerifyPassed
    &&& forall|j: int|
        k < j < events.len() ==> (#[trigger] events[j]).kind != EventKind::VerifyFailed
            && events[j].kind != EventKind::VerifyPassed
}

/// The present failure is the summary of the last verification, where that one
/// failed; an earlier failure does not count, nor does anything where no
/// verification has ended.
pub proof fn law_last_verdict_counts(events: Seq<EventModel>, k: int, summary: Seq<char>)
    ensures
        last_verdict(events, k) && events[k].kind == EventKind::VerifyPassed ==> event::failure(
            events,
        ) is None,
        last_verdict(events, k) && events[k].kind == EventKind::VerifyFailed ==> (event::failure(
            events,
        ) == Some(summary) <==> holds(events[k].payload, "summary"@, Json::Str(summary))),
        (forall|j: int|
            0 <= j < events.len() ==> (#[trigger] events[j]).kind != EventKind::VerifyFailed
                && events[j].kind != EventKind::VerifyPassed) ==> event::failure(events) is None,
    decreases events.len(),
{
    if events.len() > 0 {
        let less = events.drop_last();
        let q = events.len() - 1;
        law_last_verdict_counts(less, k, summary);
        if last_verdict(events, k) && k < q {
            assert(less[k] == events[k]);
            assert(events[q].kind != EventKind::VerifyFailed);
            assert forall|j: int| k < j < less.len() implies (#[trigger] less[j]).kind
                != EventKind::VerifyFailed && less[j].kind != EventKind::VerifyPassed by {
                assert(events[j].kind != EventKind::VerifyFailed);
            }
            assert(last_verdict(less, k));
        }
        if forall|j: int|
            0 <= j < events.len() ==> (#[trigger] events[j]).kind != EventKind::VerifyFailed
                && events[j].kind != EventKind::VerifyPassed {
            assert(events[q].kind != EventKind::VerifyFailed);
            assert forall|j: int| 0 <= j < less.len() implies (#[trigger] less[j]).kind
                != EventKind::VerifyFailed && less[j].kind != EventKind::VerifyPassed by {
                assert(events[j].kind != EventKind::VerifyFailed);
            }
        }
    }
}

// ----- receipts for agents -----

/// The receipt at place `k` is the latest: none has a greater step, and none
/// behind it the same.
pub open spec fn is_latest(receipts: Seq<ReceiptModel>, k: int) -> bool {
    &&& 0 <= k < receipts.len()
    &&& forall|j: int| 0 <= j < receipts.len() ==> (#[trigger] receipts[j]).step <= receipts[k].step
    &&& forall|j: int| k < j < receipts.len() ==> (#[trigger] receipts[j]).step < receipts[k].step
}

/// The latest receipt is the one with the greatest step, the last of several;
/// there is one iff there are receipts.
pub proof fn law_latest_has_the_greatest_step(receipts: Seq<ReceiptModel>, k: int)
    ensures
        plan::latest(receipts) is None <==> receipts.len() == 0,
        is_latest(receipts, k) ==> plan::latest(receipts) == Some(receipts[k]),
        plan::latest(receipts) matches Some(r) ==> receipts.contains(r) && forall|j: int|
            0 <= j < receipts.len() ==> (#[trigger] receipts[j]).step <= r.step,
    decreases receipts.len(),
{
    if receipts.len() > 0 {
        let less = receipts.drop_last();
        let q = receipts.len() - 1;
        assert(receipts[q] == receipts.last());
        law_latest_has_the_greatest_step(less, k);
        if let Some(r) = plan::latest(less) {
            let i = choose|i: int| 0 <= i < less.len() && less[i] == r;
            assert(receipts[i] == r);
            assert forall|j: int| 0 <= j < receipts.len() implies (#[trigger] receipts[j]).step
                <= plan::latest(receipts)->Some_0.step by {
                if j < q {
                    assert(less[j] == receipts[j]);
                }
            }
        }
        if is_latest(receipts, k) {
            if k < q {
                assert(less[k] == receipts[k]);
                assert(receipts[q].step < receipts[k].step);
                assert forall|j: int| 0 <= j < less.len() implies (#[trigger] less[j]).step
                    <= less[k].step by {
                    assert(receipts[j].step <= receipts[k].step);
                }
                assert forall|j: int| k < j < less.len() implies (#[trigger] less[j]).step
                    < less[k].step by {
                    assert(receipts[j].step < receipts[k].step);
                }
                assert(is_latest(less, k));
            } else if let Some(r) = plan::latest(less) {
                let i = choose|i: int| 0 <= i < less.len() && less[i] == r;
                assert(receipts[i].step <= receipts[k].step);
            }
        }
    }
}

/// The summary tells what a receipt of the command holds.
pub open spec fn tells_receipt(s: SummaryModel, command: Seq<char>, r: ReceiptModel) -> bool {
    &&& s.command == command
    &&& s.action_id == r.action_id
    &&& s.passed <==> says_pass(r)
    &&& s.timed_out <==> holds(r.output, "timed_out"@, Json::Bool(true))
    &&& forall|code: i64|
        s.exit_code == Some(code) <==> #[trigger] holds(
            r.output,
            "exit_code"@,
            Json::Int(code as int),
        )
    &&& forall|n: u64|
        s.duration_ms == Some(n) <==> #[trigger] holds(
            r.output,
            "duration_ms"@,
            Json::Int(n as int),
        )
    &&& forall|t: Seq<char>|
        s.stdout_artifact == Some(t) <==> #[trigger] holds(
            r.output,
            "stdout_artifact"@,
            Json::Str(t),
        )
    &&& forall|t: Seq<char>|
        s.stderr_artifact == Some(t) <==> #[trigger] holds(
            r.output,
            "stderr_artifact"@,
            Json::Str(t),
        )
}

/// A required command adds the summary of the latest of its receipts behind those
/// of the commands before it, and nothing where it has no receipt.
pub proof fn law_summaries_tell_the_latest_receipts(
    receipts: Seq<ReceiptModel>,
    commands: Seq<Seq<char>>,
    more: Seq<char>,
    k: int,
)
    ensures
        plan::summaries(receipts, Seq::empty()).len() == 0,
        ({
            let own = store::about(receipts, more);
            let list = plan::summaries(receipts, commands.push(more));
            let before = plan::summaries(receipts, commands);
            &&& own.len() == 0 ==> list == before
            &&& is_latest(own, k) ==> list.len() == before.len() + 1 && list.drop_last() == before
                && tells_receipt(list.last(), more, own[k])
        }),
{
    let own = store::about(receipts, more);
    assert(commands.push(more).drop_last() =~= commands);
    law_latest_has_the_greatest_step(own, k);
    let before = plan::summaries(receipts, commands);
    if is_latest(own, k) {
        let s = plan::summary_of(more, own[k]);
        trace::law_receipts_are_read_as_written(own[k], more);
        assert(tells_receipt(s, more, own[k]));
        assert(before.push(s).drop_last() =~= before);
    }
}

/// The receipts about a command are those whose input names it, in order.
pub proof fn law_receipts_about_a_command(
    receipts: Seq<ReceiptModel>,
    more: ReceiptModel,
    command: Seq<char>,
)
    ensures
        store::about(Seq::empty(), command).len() == 0,
        store::about(receipts.push(more), command) == (if is_about(more, command) {
            store::about(receipts, command).push(more)
        } else {
            store::about(receipts, command)
        }),
{
    reveal(Seq::filter);
    trace::law_receipts_are_read_as_written(more, command);
    assert(receipts.push(more).drop_last() =~= receipts);
}

// ----- the end of a session -----

/// How a commit ends. Files that stray are told and noted; a run that is not
/// verified, or whose tree changed since, is refused and nothing is written; else
/// the run is completed and committed, and nothing else of it changes.
pub proof fn law_commit_is_told(
    goal: GoalModel,
    state: StateModel,
    run_id: Seq<char>,
    tree: TreeModel,
    receipts: nat,
)
    requires
        finite_tree(tree),
    ensures
        ({
            let end = ledger::commit_of(goal, state, run_id, tree, receipts);
            let outs = plan::outside(goal, tree);
            let stray = any_strays(goal, tree);
            let same = tree.digest == state.verified_digest;
            &&& end.outcome.run_id == run_id
            &&& end.outcome.ok <==> !stray && state.verified && same
            &&& !end.outcome.ok ==> end.outcome.status == state.status && end.outcome.phase
                == state.guard_phase
            &&& stray ==> {
                &&& end.outcome.reason == Some(
                    "out-of-scope writes present: "@ + text::joined(outs, ", "@),
                )
                &&& end.effects == Seq::new(
                    outs.len(),
                    |i: int|
                        trace::event(
                            EventKind::ScopeViolation,
                            map![
                                "path"@ => Json::Str(outs[i]),
                                "allowed"@ => crate::json::strings(goal.fs_write),
                            ],
                        ),
                ).push(
                    EffectModel::SaveState(StateModel { out_of_scope: outs.len(), ..state }),
                )
            }
            &&& !stray && !state.verified ==> end.effects.len() == 0 && end.outcome.reason == Some(
                "not verified — run `tach guard verify` first"@,
            )
            &&& !stray && state.verified && !same ==> end.effects.len() == 0 && end.outcome.reason
                == Some("tree changed since verify — run `tach guard verify` again"@)
            &&& end.outcome.ok ==> {
                &&& end.outcome.reason is None
                &&& end.outcome.status == "completed"@
                &&& end.outcome.phase == "committed"@
                &&& end.effects == seq![
                    trace::event(
                        EventKind::GuardCommitted,
                        map![
                            "commands_passed"@ => Json::Int(state.commands_passed as int),
                            "receipts"@ => Json::Int(receipts as int),
                        ],
                    ),
                    trace::event(EventKind::RunCompleted, map!["kind"@ => Json::Str("coding"@)]),
                    EffectModel::SaveState(
                        StateModel { status: "completed"@, guard_phase: "committed"@, ..state },
                    ),
                ]
            }
        }),
{
    answers::law_scope_is_told_by_the_patterns(goal, tree, Seq::empty());
    let end = ledger::commit_of(goal, state, run_id, tree, receipts);
    let outs = plan::outside(goal, tree);
    if outs.len() > 0 {
        assert(verify::scope_events(goal, outs) =~= Seq::new(
            outs.len(),
            |i: int|
                trace::event(
                    EventKind::ScopeViolation,
                    map![
                        "path"@ => Json::Str(outs[i]),
                        "allowed"@ => crate::json::strings(goal.fs_write),
                    ],
                ),
        ));
    } else if end.outcome.ok {
        assert(end.effects =~= seq![
            trace::event(
                EventKind::GuardCommitted,
                map![
                    "commands_passed"@ => Json::Int(state.commands_passed as int),
                    "receipts"@ => Json::Int(receipts as int),
                ],
            ),
            trace::event(EventKind::RunCompleted, map!["kind"@ => Json::Str("coding"@)]),
            EffectModel::SaveState(
                StateModel { status: "completed"@, guard_phase: "committed"@, ..state },
            ),
        ]);
    }
}

/// An abort cancels the run, whatever its state, and changes nothing else of it.
pub proof fn law_abort_cancels(state: StateModel, run_id: Seq<char>)
    ensures
        ({
            let end = ledger::abort_of(state, run_id);
            &&& end.outcome.run_id == run_id
            &&& end.outcome.ok
            &&& end.outcome.reason is None
            &&& end.outcome.status == "cancelled"@
            &&& end.outcome.phase == "aborted"@
            &&& end.effects == seq![
                trace::event(EventKind::GuardAborted, Map::empty()),
                trace::event(EventKind::RunCancelled, map!["kind"@ => Json::Str("coding"@)]),
                EffectModel::SaveState(
                    StateModel { status: "cancelled"@, guard_phase: "aborted"@, ..state },
                ),
            ]
        }),
{
    assert(ledger::abort_of(state, run_id).effects =~= seq![
        trace::event(EventKind::GuardAborted, Map::empty()),
        trace::event(EventKind::RunCancelled, map!["kind"@ => Json::Str("coding"@)]),
        EffectModel::SaveState(
            StateModel { status: "cancelled"@, guard_phase: "aborted"@, ..state },
        ),
    ]);
}

// ----- a verification that is cut short -----

/// A verification is cut short right behind the receipt that brings the count to
/// the given number, and nowhere else: the receipt is kept, and the run is left
/// open and not verified.
pub proof fn law_cut_comes_after_the_receipt(w: WorkModel, keys: KeysModel, result: ShellModel)
    ensures
        ({
            let t = w.ran(keys, result);
            let count = w.state.receipts_created + 1;
            let left = StateModel {
                receipts_created: count,
                verified: false,
                guard_phase: "open"@,
                ..w.state
            };
            &&& t.effects.len() >= 2
            &&& t.effects[0] matches EffectModel::SaveReceipt(r) && is_about(r, w.command())
                && r.idempotency_key == keys.key && r.step == count
            &&& w.crash == Some(count) ==> t.effects.len() == 3 && t.effects[2]
                == EffectModel::SaveState(left) && t.next == NextModel::Finished(
                plan::status_of(w.run_id, left, w.receipts.len() + 1),
            )
            &&& w.crash != Some(count) ==> t == w.recorded(
                verify::minted(w, keys, result),
            ).settled(verify::minted(w, keys, result)).resumed().after(
                seq![t.effects[0], t.effects[1]],
            )
        }),
{
    let r = verify::minted(w, keys, result);
    crate::guard::laws::law_receipt_says_how_the_command_ended(w, keys, result);
    trace::law_receipts_are_read_as_written(r, w.command());
    let written = seq![
        EffectModel::SaveReceipt(r),
        verify::created_event(keys.receipt_id, w.command(), keys.key),
    ];
    let t = w.ran(keys, result);
    assert(t.effects[0] == written[0] && t.effects[1] == written[1]);
    assert(seq![t.effects[0], t.effects[1]] =~= written);
}

// ----- the beginning of a session -----

/// The goal at place `k` is the first with a name.
pub open spec fn first_goal(goals: Seq<GoalModel>, name: Seq<char>, k: int) -> bool {
    &&& 0 <= k < goals.len()
    &&& goals[k].name == name
    &&& forall|j: int| 0 <= j < k ==> (#[trigger] goals[j]).name != name
}

proof fn lemma_named(goals: Seq<GoalModel>, name: Seq<char>, k: int)
    ensures
        first_goal(goals, name, k) ==> open::named(goals, name) == Some(goals[k]),
        open::named(goals, name) is None <==> forall|j: int|
            0 <= j < goals.len() ==> (#[trigger] goals[j]).name != name,
    decreases goals.len(),
{
    if goals.len() > 0 {
        let rest = goals.drop_first();
        lemma_named(rest, name, k - 1);
        if first_goal(goals, name, k) && k > 0 {
            assert(goals[0].name != name);
            assert(rest[k - 1] == goals[k]);
            assert forall|j: int| 0 <= j < k - 1 implies (#[trigger] rest[j]).name != name by {
                assert(goals[j + 1].name != name);
            }
        }
        if forall|j: int| 0 <= j < goals.len() ==> (#[trigger] goals[j]).name != name {
            assert(goals[0].name != name);
            assert forall|j: int| 0 <= j < rest.len() implies (#[trigger] rest[j]).name != name by {
                assert(goals[j + 1].name != name);
            }
        }
        if goals[0].name != name && forall|j: int|
            0 <= j < rest.len() ==> (#[trigger] rest[j]).name != name {
            assert forall|j: int| 0 <= j < goals.len() implies (#[trigger] goals[j]).name
                != name by {
                if j > 0 {
                    assert(rest[j - 1].name != name);
                }
            }
        }
    }
}

/// A file without goals to read is not found; one with errors is invalid.
/// Otherwise the first goal with the wanted name is taken, and without a name the
/// only one; a name that no goal has is not found, and neither is a goal in an
/// empty file; several goals without a name are an invalid request.
pub proof fn law_goal_is_chosen_by_name(
    file: open::GoalFile,
    name: Option<Seq<char>>,
    k: int,
)
    ensures
        open::chosen(None, name) matches Err(e) && e.kind == ErrorKind::NotFound && e.message
            == "no Tachfile in this repo — run `tach init --existing` first"@,
        ({
            let goals = file.goals@;
            let known = text::joined(Seq::new(goals.len(), |i: int| goals[i].name@), ", "@);
            let got = open::chosen(Some(file), name);
            let broken = exists|i: int|
                0 <= i < file.diagnostics@.len() && (#[trigger] file.diagnostics@[i]).severity
                    == Severity::Error;
            &&& broken ==> (got matches Err(e) && e.kind == ErrorKind::InvalidData && e.message
                == "Tachfile has errors — run `tach check` after fixing it"@)
            &&& !broken && name is None && goals.len() == 1 ==> (got matches Ok(g) && g
                == goals[0]@)
            &&& !broken && name is None && goals.len() == 0 ==> (got matches Err(e) && e.kind
                == ErrorKind::NotFound && e.message == "Tachfile declares no goal"@)
            &&& !broken && name is None && goals.len() > 1 ==> (got matches Err(e) && e.kind
                == ErrorKind::InvalidInput && e.message == "Tachfile has several goals; name one: "@
                + known)
            &&& !broken && (name matches Some(n) && first_goal(open::goal_models(goals), n, k))
                ==> (got matches Ok(g) && g == goals[k]@)
            &&& !broken && (name matches Some(n) && forall|j: int|
                0 <= j < goals.len() ==> (#[trigger] goals[j])@.name != n) ==> (got matches Err(e)
                && e.kind == ErrorKind::NotFound && e.message == "no goal `"@ + name->Some_0
                + "` in Tachfile (available: "@ + known + ")"@)
        }),
{
    let models = open::goal_models(file.goals@);
    assert(open::goal_names(models) =~= Seq::new(
        file.goals@.len(),
        |i: int| file.goals@[i].name@,
    ));
    if let Some(n) = name {
        lemma_named(models, n, k);
        if forall|j: int| 0 <= j < file.goals@.len() ==> (#[trigger] file.goals@[j])@.name != n {
            assert forall|j: int| 0 <= j < models.len() implies (#[trigger] models[j]).name
                != n by {
                assert(file.goals@[j]@.name != n);
            }
        }
    }
    let broken = exists|i: int|
        0 <= i < file.diagnostics@.len() && (#[trigger] file.diagnostics@[i]).severity
            == Severity::Error;
    if broken {
        let i = choose|i: int|
            0 <= i < file.diagnostics@.len() && (#[trigger] file.diagnostics@[i]).severity
                == Severity::Error;
        assert(file.diagnostics@[i].severity == Severity::Error);
    }
}

/// A new session is running and open, for its goal, with nothing verified, passed
/// or recorded yet; it keeps the goal as it was, and its history tells the goal,
/// what the goal allows and requires, and how many files the tree has.
pub proof fn law_session_begins_blank(goal: GoalModel, run_id: Seq<char>, baseline: Files)
    requires
        baseline.dom().finite(),
    ensures
        ({
            let s = open::opening_state(goal, run_id);
            &&& s.run_id == run_id
            &&& s.goal == goal.name
            &&& s.status == "running"@
            &&& s.kind == "coding"@
            &&& s.guard_phase == "open"@
            &&& !s.verified
            &&& s.verified_digest.len() == 0
            &&& s.commands_required == goal.required.len()
            &&& s.commands_passed == 0
            &&& s.out_of_scope == 0
            &&& s.receipts_created == 0
            &&& s.step == 0
        }),
        ({
            let r = open::opening_record(goal);
            r.spec == goal && r.kind == "coding"@ && r.strategy == "coding"@ && r.base_files.len()
                == 0
        }),
        ({
            let events = open::opening_events(goal, baseline);
            &&& events.len() == 3
            &&& EffectModel::Append(events[0]) == trace::event(
                EventKind::RunStarted,
                map![
                    "goal"@ => Json::Str(goal.name),
                    "kind"@ => Json::Str("coding"@),
                    "strategy"@ => Json::Str("coding"@),
                ],
            )
            &&& EffectModel::Append(events[1]) == trace::event(
                EventKind::GuardBegun,
                map![
                    "allowed_files"@ => crate::json::strings(goal.fs_write),
                    "allowed_commands"@ => crate::json::strings(goal.shell),
                    "required_commands"@ => crate::json::strings(goal.required),
                ],
            )
            &&& EffectModel::Append(events[2]) == trace::event(
                EventKind::FsSnapshotted,
                map!["files"@ => Json::Int(baseline.dom().len() as int)],
            )
        }),
{
    let list = crate::names::listing(baseline.dom());
    crate::names::lemma_listing_exists(baseline.dom());
    answers::lemma_ascending_apart(list);
    assert(list.to_set() =~= baseline.dom()) by {
        assert forall|p: Seq<char>| list.to_set().contains(p) == baseline.dom().contains(p) by {
            assert(list.contains(p) <==> baseline.dom().contains(p));
        }
    }
    list.unique_seq_to_set();
}

} // verus!
