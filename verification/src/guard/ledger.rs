//! The end of a session, and its replay.
use crate::event::{EventKind, EventModel};
use crate::goal::{GoalModel, GoalSpec};
use crate::guard::packets::{
    GuardError, GuardOutcome, OutcomeModel, ReplayModel, ReplayResult, Tree, TreeModel,
};
use crate::guard::plan::{self, ScopeDiff};
use crate::guard::verify::{self, Effect, EffectModel, ShellModel, ShellResult};
use crate::json::{self, Json};
use crate::store::{self, GoalRecord, Receipt, ReceiptModel, RunState, StateModel};
use crate::text;
use vstd::prelude::*;
use vstd::string::*;

verus! {

/// How a session ends, or that it does not, with the records to be written.
#[derive(Debug)]
pub struct Ending {
    pub effects: Vec<Effect>,
    pub outcome: GuardOutcome,
}

/// How a session ends, or that it does not, with the records to be written.
pub struct EndingModel {
    pub effects: Seq<EffectModel>,
    pub outcome: OutcomeModel,
}

impl View for Ending {
    type V = EndingModel;

    open spec fn view(&self) -> EndingModel {
        EndingModel { effects: verify::effect_models(self.effects@), outcome: self.outcome@ }
    }
}

// ----- commit -----

/// A refusal: the run stays as it is.
pub open spec fn refusal(run_id: Seq<char>, state: StateModel, reason: Seq<char>) -> OutcomeModel {
    OutcomeModel {
        run_id,
        ok: false,
        reason: Some(reason),
        status: state.status,
        phase: state.guard_phase,
    }
}

/// The state of a committed run.
pub open spec fn committed(state: StateModel) -> StateModel {
    StateModel { status: "completed"@, guard_phase: "committed"@, ..state }
}

/// The events of a commit.
pub open spec fn commit_events(passed: nat, receipts: nat) -> Seq<EffectModel> {
    seq![
        EffectModel::Append(
            EventModel {
                kind: EventKind::GuardCommitted,
                payload: Json::Object(
                    map![
                        "commands_passed"@ => Json::Int(passed as int),
                        "receipts"@ => Json::Int(receipts as int),
                    ],
                ),
            },
        ),
        EffectModel::Append(
            EventModel {
                kind: EventKind::RunCompleted,
                payload: Json::Object(map!["kind"@ => Json::Str("coding"@)]),
            },
        ),
    ]
}

/// How a commit ends: refused for files out of scope, for a run that is not
/// verified and for a tree that changed since; else the run is completed.
pub open spec fn commit_of(
    goal: GoalModel,
    state: StateModel,
    run_id: Seq<char>,
    tree: TreeModel,
    receipts: nat,
) -> EndingModel {
    let outs = plan::outside(goal, tree);
    if outs.len() > 0 {
        let noted = StateModel { out_of_scope: outs.len(), ..state };
        EndingModel {
            effects: verify::scope_events(goal, outs).push(EffectModel::SaveState(noted)),
            outcome: refusal(
                run_id,
                noted,
                "out-of-scope writes present: "@ + text::joined(outs, ", "@),
            ),
        }
    } else if !state.verified {
        EndingModel {
            effects: Seq::empty(),
            outcome: refusal(run_id, state, "not verified — run `tach guard verify` first"@),
        }
    } else if tree.digest != state.verified_digest {
        EndingModel {
            effects: Seq::empty(),
            outcome: refusal(
                run_id,
                state,
                "tree changed since verify — run `tach guard verify` again"@,
            ),
        }
    } else {
        EndingModel {
            effects: commit_events(state.commands_passed, receipts).push(
                EffectModel::SaveState(committed(state)),
            ),
            outcome: OutcomeModel {
                run_id,
                ok: true,
                reason: None,
                status: "completed"@,
                phase: "committed"@,
            },
        }
    }
}

/// A refusal: nothing terminal is recorded, the run can go on.
pub fn refuse(run_id: &String, state: &RunState, reason: String) -> (r: GuardOutcome)
    ensures
        r@ == refusal(run_id@, state@, reason@),
{
    GuardOutcome {
        run_id: run_id.clone(),
        ok: false,
        reason: Some(reason),
        status: state.status.clone(),
        phase: state.guard_phase.clone(),
    }
}

fn kind_payload() -> (r: serde_json::Value)
    ensures
        json::json_of(r) == Json::Object(map!["kind"@ => Json::Str("coding"@)]),
{
    let mut payload: serde_json::Value = json::object();
    json::set(&mut payload, "kind", json::from_text("coding"));
    payload
}

/// Commits a session: a tree that is verified and unchanged since is finalized.
pub fn commit(
    record: &GoalRecord,
    state: &RunState,
    run_id: &String,
    tree: &Tree,
    receipts: &Vec<Receipt>,
) -> (r: Result<Ending, GuardError>)
    requires
        tree.wf(),
    ensures
        r is Ok <==> plan::session_error(*record, run_id@) is None,
        r matches Err(e) ==> plan::session_error(*record, run_id@) == Some(e@),
        r matches Ok(end) ==> end@ == commit_of(
            record.spec@,
            state@,
            run_id@,
            tree@,
            receipts@.len(),
        ),
{
    if let Err(e) = plan::session(record, run_id) {
        return Err(e);
    }
    let scope: ScopeDiff = plan::scope_diff(tree, &record.spec);
    assert(text::texts(scope.out_of_scope@).len() == scope.out_of_scope@.len());
    let mut now: RunState = state.clone();
    if scope.out_of_scope.len() > 0 {
        let mut effects: Vec<Effect> = verify::scope_records(&record.spec, &scope.out_of_scope);
        now.out_of_scope = scope.out_of_scope.len();
        let mut reason: String = "out-of-scope writes present: ".to_string();
        reason.append(text::join(&scope.out_of_scope, ", ").as_str());
        let outcome: GuardOutcome = refuse(run_id, &now, reason);
        let saved: Effect = Effect::SaveState(now);
        let ghost first = verify::effect_models(effects@);
        effects.push(saved);
        assert(verify::effect_models(effects@) =~= first.push(saved@));
        return Ok(Ending { effects, outcome });
    }
    let none: Vec<Effect> = Vec::new();
    assert(verify::effect_models(none@) =~= Seq::empty());
    if !state.verified {
        let reason: String = "not verified — run `tach guard verify` first".to_string();
        return Ok(Ending { effects: none, outcome: refuse(run_id, state, reason) });
    }
    if tree.digest != state.verified_digest {
        let reason: String = "tree changed since verify — run `tach guard verify` again".to_string();
        return Ok(Ending { effects: none, outcome: refuse(run_id, state, reason) });
    }
    now.status = "completed".to_string();
    now.guard_phase = "committed".to_string();
    let mut payload: serde_json::Value = json::object();
    json::set(&mut payload, "commands_passed", json::from_u64(now.commands_passed as u64));
    json::set(&mut payload, "receipts", json::from_u64(receipts.len() as u64));
    let outcome: GuardOutcome = GuardOutcome {
        run_id: run_id.clone(),
        ok: true,
        reason: None,
        status: now.status.clone(),
        phase: now.guard_phase.clone(),
    };
    let first: Effect = verify::append(EventKind::GuardCommitted, payload);
    let second: Effect = verify::append(EventKind::RunCompleted, kind_payload());
    let saved: Effect = Effect::SaveState(now);
    let effects: Vec<Effect> = vec![first, second, saved];
    assert(verify::effect_models(effects@) =~= seq![first@, second@].push(saved@));
    Ok(Ending { effects, outcome })
}

// ----- abort -----

/// The state of an aborted run.
pub open spec fn aborted(state: StateModel) -> StateModel {
    StateModel { status: "cancelled"@, guard_phase: "aborted"@, ..state }
}

/// How an abort ends: always with the run cancelled.
pub open spec fn abort_of(state: StateModel, run_id: Seq<char>) -> EndingModel {
    EndingModel {
        effects: seq![
            EffectModel::Append(
                EventModel {
                    kind: EventKind::GuardAborted,
                    payload: Json::Object(Map::empty()),
                },
            ),
            EffectModel::Append(
                EventModel {
                    kind: EventKind::RunCancelled,
                    payload: Json::Object(map!["kind"@ => Json::Str("coding"@)]),
                },
            ),
            EffectModel::SaveState(aborted(state)),
        ],
        outcome: OutcomeModel {
            run_id,
            ok: true,
            reason: None,
            status: "cancelled"@,
            phase: "aborted"@,
        },
    }
}

/// Cancels a session.
pub fn abort(record: &GoalRecord, state: &RunState, run_id: &String) -> (r: Result<
    Ending,
    GuardError,
>)
    ensures
        r is Ok <==> plan::session_error(*record, run_id@) is None,
        r matches Err(e) ==> plan::session_error(*record, run_id@) == Some(e@),
        r matches Ok(end) ==> end@ == abort_of(state@, run_id@),
{
    if let Err(e) = plan::session(record, run_id) {
        return Err(e);
    }
    let mut now: RunState = state.clone();
    now.status = "cancelled".to_string();
    now.guard_phase = "aborted".to_string();
    let outcome: GuardOutcome = GuardOutcome {
        run_id: run_id.clone(),
        ok: true,
        reason: None,
        status: now.status.clone(),
        phase: now.guard_phase.clone(),
    };
    let first: Effect = verify::append(EventKind::GuardAborted, json::object());
    let second: Effect = verify::append(EventKind::RunCancelled, kind_payload());
    let saved: Effect = Effect::SaveState(now);
    let effects: Vec<Effect> = vec![first, second, saved];
    assert(verify::effect_models(effects@) =~= seq![first@, second@, saved@]);
    Ok(Ending { effects, outcome })
}

// ----- replay -----

/// Some receipt about the command is a pass.
pub open spec fn proved(receipts: Seq<ReceiptModel>, command: Seq<char>) -> bool {
    exists|i: int|
        0 <= i < receipts.len() && (#[trigger] receipts[i]).command() == Some(command)
            && receipts[i].passed()
}

/// The receipts say that the run is verified: every required command has a
/// receipt that is a pass, and nothing was out of scope.
pub open spec fn derived_verified(
    goal: GoalModel,
    state: StateModel,
    receipts: Seq<ReceiptModel>,
) -> bool {
    &&& forall|i: int|
        0 <= i < goal.required.len() ==> proved(receipts, #[trigger] goal.required[i])
    &&& state.out_of_scope == 0
}

/// What a replay from the record finds: whether the verified bit is what the
/// receipts say.
pub open spec fn replay_of(
    goal: GoalModel,
    state: StateModel,
    receipts: Seq<ReceiptModel>,
) -> ReplayModel {
    let consistent = derived_verified(goal, state, receipts) == state.verified;
    ReplayModel {
        recorded_status: state.status,
        replayed_status: if consistent {
            state.status
        } else {
            "diverged"@
        },
        identical: consistent,
        steps: state.step,
    }
}

/// The verdict on a run.
pub open spec fn verdict(passed: bool) -> Seq<char> {
    if passed {
        "completed"@
    } else {
        "failed"@
    }
}

/// How many commands passed.
pub open spec fn passes(results: Seq<ShellModel>) -> nat
    decreases results.len(),
{
    if results.len() == 0 {
        0
    } else {
        passes(results.drop_last()) + if results.last().passed() {
            1nat
        } else {
            0nat
        }
    }
}

/// What a replay that ran the commands again finds: whether all required
/// commands passed now as they did then.
pub open spec fn rerun_of(
    goal: GoalModel,
    state: StateModel,
    results: Seq<ShellModel>,
) -> ReplayModel {
    let passed = passes(results) == goal.required.len();
    ReplayModel {
        recorded_status: state.status,
        replayed_status: verdict(passed),
        identical: passed == state.verified,
        steps: state.step,
    }
}

/// What the results of a list say.
pub open spec fn shell_models(results: Seq<ShellResult>) -> Seq<ShellModel> {
    results.map_values(|r: ShellResult| r@)
}

fn is_proved(receipts: &Vec<Receipt>, command: &String) -> (r: bool)
    ensures
        r == proved(store::ledger(receipts@), command@),
{
    let ghost all = store::ledger(receipts@);
    let n: usize = receipts.len();
    let mut i: usize = 0;
    while i < n
        invariant
            n == receipts.len(),
            i <= n,
            all == store::ledger(receipts@),
            forall|k: int|
                0 <= k < i ==> !((#[trigger] all[k]).command() == Some(command@)
                    && all[k].passed()),
        decreases n - i,
    {
        assert(all[i as int] == receipts@[i as int]@);
        if store::receipt_is_for(&receipts[i], command) && store::receipt_passed(&receipts[i]) {
            return true;
        }
        i = i + 1;
    }
    false
}

/// A command that a replay runs again: the action and the input its key is made
/// of.
#[derive(Debug)]
pub struct ReplayCommand {
    pub command: String,
    pub action_id: String,
    pub input: serde_json::Value,
}

/// What a command that is run again says.
pub struct ReplayCommandModel {
    pub command: Seq<char>,
    pub action_id: Seq<char>,
    pub input: Json,
}

impl View for ReplayCommand {
    type V = ReplayCommandModel;

    open spec fn view(&self) -> ReplayCommandModel {
        ReplayCommandModel {
            command: self.command@,
            action_id: self.action_id@,
            input: json::json_of(self.input),
        }
    }
}

/// How a command is run again over a tree.
pub open spec fn again(command: Seq<char>, digest: Seq<char>) -> ReplayCommandModel {
    ReplayCommandModel {
        command,
        action_id: "replay:"@ + command,
        input: Json::Object(map!["command"@ => Json::Str(command), "tree"@ => Json::Str(digest)]),
    }
}

/// The required commands that may be run, as a replay runs them.
pub open spec fn all_again(
    goal: GoalModel,
    required: Seq<Seq<char>>,
    digest: Seq<char>,
) -> Seq<ReplayCommandModel>
    decreases required.len(),
{
    if required.len() == 0 {
        Seq::empty()
    } else {
        let before = all_again(goal, required.drop_last(), digest);
        if goal.permits(required.last()) {
            before.push(again(required.last(), digest))
        } else {
            before
        }
    }
}

/// What the commands of a list say.
pub open spec fn replay_models(list: Seq<ReplayCommand>) -> Seq<ReplayCommandModel> {
    list.map_values(|c: ReplayCommand| c@)
}

/// The commands that a replay runs again, in order.
pub fn replay_commands(spec: &GoalSpec, digest: &String) -> (r: Vec<ReplayCommand>)
    ensures
        replay_models(r@) == all_again(spec@, spec@.required, digest@),
{
    let ghost names = spec@.required;
    let mut out: Vec<ReplayCommand> = Vec::new();
    let n: usize = spec.required.len();
    let mut i: usize = 0;
    assert(replay_models(out@) =~= Seq::empty());
    while i < n
        invariant
            n == spec.required.len(),
            i <= n,
            names == spec@.required,
            replay_models(out@) == all_again(spec@, names.take(i as int), digest@),
        decreases n - i,
    {
        let ghost done = replay_models(out@);
        assert(names.take(i + 1).drop_last() =~= names.take(i as int));
        assert(names.take(i + 1).last() == spec.required@[i as int]@);
        if spec.command_allowed(&spec.required[i]) {
            let command: String = spec.required[i].clone();
            let mut action_id: String = "replay:".to_string();
            action_id.append(command.as_str());
            let mut input: serde_json::Value = json::object();
            json::set(&mut input, "command", json::from_text(command.as_str()));
            json::set(&mut input, "tree", json::from_text(digest.as_str()));
            let c: ReplayCommand = ReplayCommand { command, action_id, input };
            assert(c@ == again(spec.required@[i as int]@, digest@));
            out.push(c);
            assert(replay_models(out@) =~= done.push(c@));
        }
        i = i + 1;
    }
    assert(names.take(n as int) =~= names);
    out
}

/// The key under which a replay runs a command.
pub fn replay_key(key: &String) -> (r: String)
    ensures
        r@ == "replay_"@ + key@,
{
    let mut out: String = "replay_".to_string();
    out.append(key.as_str());
    out
}

/// Replays a run. Without `reran` the verified bit is held against the
/// receipts, and no command is run; with it, the verdict is held against how
/// the commands of `replay_commands` ended when they were run again.
pub fn replay(
    record: &GoalRecord,
    recorded: &RunState,
    run_id: &String,
    receipts: &Vec<Receipt>,
    reran: &Option<Vec<ShellResult>>,
) -> (r: Result<ReplayResult, GuardError>)
    ensures
        r is Ok <==> plan::session_error(*record, run_id@) is None,
        r matches Err(e) ==> plan::session_error(*record, run_id@) == Some(e@),
        r matches Ok(found) ==> found@ == (match *reran {
            Some(results) => rerun_of(record.spec@, recorded@, shell_models(results@)),
            None => replay_of(record.spec@, recorded@, store::ledger(receipts@)),
        }),
{
    if let Err(e) = plan::session(record, run_id) {
        return Err(e);
    }
    let spec: &GoalSpec = &record.spec;
    let n: usize = spec.required.len();
    if let Some(results) = reran {
        let ghost all = shell_models(results@);
        let m: usize = results.len();
        let mut passed: usize = 0;
        let mut i: usize = 0;
        while i < m
            invariant
                m == results.len(),
                i <= m,
                passed <= i,
                all == shell_models(results@),
                passed == passes(all.take(i as int)),
            decreases m - i,
        {
            assert(all.take(i + 1).drop_last() =~= all.take(i as int));
            assert(all.take(i + 1).last() == results@[i as int]@);
            let code: bool = match results[i].exit_code {
                Some(c) => c == 0,
                None => false,
            };
            if code && !results[i].timed_out {
                passed = passed + 1;
            }
            i = i + 1;
        }
        assert(all.take(m as int) =~= all);
        let ok: bool = passed == n;
        let replayed_status: String = if ok {
            "completed".to_string()
        } else {
            "failed".to_string()
        };
        return Ok(
            ReplayResult {
                recorded_status: recorded.status.clone(),
                replayed_status,
                identical: ok == recorded.verified,
                steps: recorded.step,
            },
        );
    }
    let ghost all = store::ledger(receipts@);
    let ghost names = spec@.required;
    let mut every: bool = true;
    let mut i: usize = 0;
    while i < n
        invariant
            n == spec.required.len(),
            i <= n,
            names == spec@.required,
            all == store::ledger(receipts@),
            every == (forall|k: int| 0 <= k < i ==> proved(all, #[trigger] names[k])),
        decreases n - i,
    {
        assert(names[i as int] == spec.required@[i as int]@);
        if !is_proved(receipts, &spec.required[i]) {
            every = false;
        }
        i = i + 1;
    }
    let derived: bool = every && recorded.out_of_scope == 0;
    let consistent: bool = derived == recorded.verified;
    let replayed_status: String = if consistent {
        recorded.status.clone()
    } else {
        "diverged".to_string()
    };
    Ok(
        ReplayResult {
            recorded_status: recorded.status.clone(),
            replayed_status,
            identical: consistent,
            steps: recorded.step,
        },
    )
}

} // verus!
