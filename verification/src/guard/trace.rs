//! A verification as it is written down: one step for each required command, in
//! order, and then the verdict.
use crate::event::{EventKind, EventModel};
use crate::goal::GoalModel;
use crate::guard::laws::{self, World};
use crate::guard::packets::TreeModel;
use crate::guard::plan;
use crate::guard::verify::{self, EffectModel, KeysModel, NextModel, ShellModel, WorkModel};
use crate::json::Json;
use crate::store::{self, ReceiptModel, StateModel};
use crate::text;
use vstd::prelude::*;

verus! {

// ----- what a receipt says -----

/// The document has a member with this value.
pub open spec fn holds(doc: Json, key: Seq<char>, value: Json) -> bool {
    doc matches Json::Object(members) && members.dom().contains(key) && members[key] == value
}

/// The receipt is about a command: its input says so.
pub open spec fn is_about(r: ReceiptModel, command: Seq<char>) -> bool {
    holds(r.input, "command"@, Json::Str(command))
}

/// The receipt tells that the command exited 0 and did not time out.
pub open spec fn says_pass(r: ReceiptModel) -> bool {
    holds(r.output, "exit_code"@, Json::Int(0)) && !holds(r.output, "timed_out"@, Json::Bool(true))
}

/// A receipt is about the command that its input names, and is a pass iff its
/// output has the exit code 0 and does not say that the command timed out.
pub proof fn law_receipts_are_read_as_written(r: ReceiptModel, command: Seq<char>)
    ensures
        r.command() == Some(command) <==> is_about(r, command),
        r.passed() <==> says_pass(r),
{
}

// ----- steps -----

/// What a verification does of one required command: nothing where it may not be
/// run, else a stored receipt is used or the command is run and gets one.
pub enum Step {
    Refused,
    Reused(ReceiptModel),
    Ran(ReceiptModel),
}

/// The step is a pass: its receipt is.
pub open spec fn step_passes(step: Step) -> bool {
    match step {
        Step::Refused => false,
        Step::Reused(r) => says_pass(r),
        Step::Ran(r) => says_pass(r),
    }
}

/// The event of this kind with these members.
pub open spec fn event(kind: EventKind, members: Map<Seq<char>, Json>) -> EffectModel {
    EffectModel::Append(EventModel { kind, payload: Json::Object(members) })
}

/// What is written down in a step, in order.
pub open spec fn step_records(command: Seq<char>, step: Step) -> Seq<EffectModel> {
    match step {
        Step::Refused => Seq::empty(),
        Step::Reused(r) => seq![
            event(
                EventKind::ReceiptReused,
                map!["receipt_id"@ => Json::Str(r.receipt_id), "command"@ => Json::Str(command)],
            ),
        ],
        Step::Ran(r) => seq![
            event(
                EventKind::ShellExecuted,
                map!["command"@ => Json::Str(command), "cwd"@ => Json::Str("."@)],
            ),
            EffectModel::SaveReceipt(r),
            event(
                EventKind::ReceiptCreated,
                map![
                    "receipt_id"@ => Json::Str(r.receipt_id),
                    "command"@ => Json::Str(command),
                    "idempotency_key"@ => Json::Str(r.idempotency_key),
                ],
            ),
        ],
    }
}

/// The receipts after a step.
pub open spec fn after_step(receipts: Seq<ReceiptModel>, step: Step) -> Seq<ReceiptModel> {
    match step {
        Step::Ran(r) => receipts.push(r),
        _ => receipts,
    }
}

/// What is said of a command that did not pass: that it may not be run, or how it
/// ended.
pub open spec fn complaint(command: Seq<char>, step: Step) -> Seq<char> {
    match step {
        Step::Refused => "`"@ + command + "` is required but not in allow.shell"@,
        Step::Reused(r) => command + ": exit "@ + exit_text(r),
        Step::Ran(r) => command + ": exit "@ + exit_text(r),
    }
}

/// The exit code of a receipt, as text; a receipt without one is of a command
/// that timed out.
pub open spec fn exit_text(r: ReceiptModel) -> Seq<char> {
    if exists|n: int| i64::MIN <= n <= i64::MAX && #[trigger] holds(
        r.output,
        "exit_code"@,
        Json::Int(n),
    ) {
        text::signed_decimal(
            choose|n: int| i64::MIN <= n <= i64::MAX && #[trigger] holds(
                r.output,
                "exit_code"@,
                Json::Int(n),
            ),
        )
    } else {
        "timeout"@
    }
}

/// Everything that is written down in the steps of some commands.
pub open spec fn all_records(commands: Seq<Seq<char>>, steps: Seq<Step>) -> Seq<EffectModel>
    decreases steps.len(),
{
    if steps.len() == 0 || commands.len() == 0 {
        Seq::empty()
    } else {
        step_records(commands[0], steps[0]) + all_records(commands.skip(1), steps.skip(1))
    }
}

/// How many steps are passes.
pub open spec fn passing(steps: Seq<Step>) -> nat
    decreases steps.len(),
{
    if steps.len() == 0 {
        0
    } else {
        passing(steps.skip(1)) + if step_passes(steps[0]) {
            1nat
        } else {
            0nat
        }
    }
}

/// How many commands are run.
pub open spec fn running(steps: Seq<Step>) -> nat
    decreases steps.len(),
{
    if steps.len() == 0 {
        0
    } else {
        running(steps.skip(1)) + if steps[0] is Ran {
            1nat
        } else {
            0nat
        }
    }
}

/// What is said of the commands that did not pass, in order.
pub open spec fn complaints(commands: Seq<Seq<char>>, steps: Seq<Step>) -> Seq<Seq<char>>
    decreases steps.len(),
{
    if steps.len() == 0 || commands.len() == 0 {
        Seq::empty()
    } else {
        let rest = complaints(commands.skip(1), steps.skip(1));
        if step_passes(steps[0]) {
            rest
        } else {
            seq![complaint(commands[0], steps[0])] + rest
        }
    }
}

// ----- the steps of a verification -----

/// What stays the same while a verification goes on.
pub struct Setting {
    pub goal: GoalModel,
    pub run_id: Seq<char>,
    pub digest: Seq<char>,
    pub rerun: bool,
    pub world: World,
}

/// The input that the key of a command is made of: the command, the directory
/// and the digest of the tree; for a fresh run also how many receipts the command
/// has.
pub open spec fn input_of(
    at: Setting,
    command: Seq<char>,
    receipts: Seq<ReceiptModel>,
) -> Json {
    let plain = map![
        "command"@ => Json::Str(command),
        "cwd"@ => Json::Str("."@),
        "tree"@ => Json::Str(at.digest),
    ];
    if at.rerun {
        Json::Object(
            plain.insert("rerun"@, Json::Int(store::about(receipts, command).len() as int)),
        )
    } else {
        Json::Object(plain)
    }
}

/// The keys of a command.
pub open spec fn keys_of(
    at: Setting,
    command: Seq<char>,
    receipts: Seq<ReceiptModel>,
) -> KeysModel {
    (at.world.keys)("verify:"@ + command, input_of(at, command, receipts))
}

/// No receipt is under the key.
pub open spec fn key_is_free(receipts: Seq<ReceiptModel>, key: Seq<char>) -> bool {
    forall|k: int| 0 <= k < receipts.len() ==> (#[trigger] receipts[k]).idempotency_key != key
}

/// The receipt at place `k` is the first under the key.
pub open spec fn first_under(
    receipts: Seq<ReceiptModel>,
    key: Seq<char>,
    r: ReceiptModel,
    k: int,
) -> bool {
    &&& 0 <= k < receipts.len()
    &&& receipts[k] == r
    &&& r.idempotency_key == key
    &&& key_is_free(receipts.take(k), key)
}

/// The output of a receipt tells how a command ended.
pub open spec fn output_tells(output: Json, result: ShellModel) -> bool {
    &&& result.exit_code matches Some(code) ==> holds(output, "exit_code"@, Json::Int(code as int))
    &&& result.exit_code is None ==> holds(output, "exit_code"@, Json::Null)
    &&& holds(output, "timed_out"@, Json::Bool(result.timed_out))
    &&& holds(output, "duration_ms"@, Json::Int(result.duration_ms as int))
    &&& holds(output, "argv"@, crate::json::strings(result.argv))
    &&& holds(output, "stdout_artifact"@, Json::Str(verify::slashed(result.stdout_path)))
    &&& holds(output, "stderr_artifact"@, Json::Str(verify::slashed(result.stderr_path)))
    &&& holds(output, "stdout_bytes"@, Json::Int(result.stdout_bytes as int))
    &&& holds(output, "stderr_bytes"@, Json::Int(result.stderr_bytes as int))
    &&& holds(output, "env_redacted"@, crate::json::strings(result.env_names))
}

/// The receipt is the one of a command that was run over the tree and ended so.
pub open spec fn receipt_tells(
    r: ReceiptModel,
    at: Setting,
    command: Seq<char>,
    receipts: Seq<ReceiptModel>,
    result: ShellModel,
    number: nat,
) -> bool {
    let keys = keys_of(at, command, receipts);
    &&& r.receipt_id == keys.receipt_id
    &&& r.idempotency_key == keys.key
    &&& r.input_hash == keys.input_hash
    &&& r.action_id == "verify:"@ + command
    &&& r.tool == "shell.run"@
    &&& r.effect == "shell.run"@
    &&& r.input == input_of(at, command, receipts)
    &&& output_tells(r.output, result)
    &&& r.run_id == at.run_id
    &&& r.step == number
    &&& r.approval_id is None
    &&& r.created_event_id == "evt_"@ + text::padded(result.seq, 6)
    &&& is_about(r, command)
    &&& holds(r.input, "tree"@, Json::Str(at.digest))
    &&& says_pass(r) <==> result.exit_code == Some(0i64) && !result.timed_out
}

/// A step is the right one for the command at a place: the command is refused
/// iff the goal does not allow it; the first receipt under its key is used where
/// there is one; else the command is run.
pub open spec fn right_step(
    at: Setting,
    place: nat,
    step: Step,
    receipts: Seq<ReceiptModel>,
    created: nat,
) -> bool {
    let command = at.goal.required[place as int];
    let key = keys_of(at, command, receipts).key;
    match step {
        Step::Refused => !at.goal.shell.contains(command),
        Step::Reused(r) => at.goal.shell.contains(command) && exists|k: int| #[trigger]
            first_under(receipts, key, r, k),
        Step::Ran(r) => {
            &&& at.goal.shell.contains(command)
            &&& key_is_free(receipts, key)
            &&& receipt_tells(
                r,
                at,
                command,
                receipts,
                (at.world.shell)(place),
                created + 1,
            )
        },
    }
}

/// The steps are the right ones for the commands from a place on.
pub open spec fn right_steps(
    at: Setting,
    place: nat,
    steps: Seq<Step>,
    receipts: Seq<ReceiptModel>,
    created: nat,
) -> bool
    decreases steps.len(),
{
    if steps.len() == 0 {
        place == at.goal.required.len()
    } else {
        &&& place < at.goal.required.len()
        &&& right_step(at, place, steps[0], receipts, created)
        &&& right_steps(
            at,
            place + 1,
            steps.skip(1),
            after_step(receipts, steps[0]),
            created + if steps[0] is Ran {
                1nat
            } else {
                0nat
            },
        )
    }
}

/// The event that ends a verification: so many commands passed, or this is said
/// of those that did not.
pub open spec fn verdict_event(
    commands: Seq<Seq<char>>,
    passed: nat,
    said: Seq<Seq<char>>,
) -> EffectModel {
    if said.len() == 0 {
        event(
            EventKind::VerifyPassed,
            map![
                "commands"@ => crate::json::strings(commands),
                "summary"@ => Json::Str(text::decimal(passed) + " command(s) passed"@),
            ],
        )
    } else {
        event(
            EventKind::VerifyFailed,
            map![
                "reason"@ => Json::Str("command_failed"@),
                "summary"@ => Json::Str(text::joined(said, "; "@)),
            ],
        )
    }
}

/// The state that is left once the verdict is told.
pub open spec fn verdict_state(
    state: StateModel,
    digest: Seq<char>,
    passed: nat,
    ran: nat,
    said: Seq<Seq<char>>,
) -> StateModel {
    let verified = said.len() == 0;
    StateModel {
        commands_passed: passed,
        verified,
        guard_phase: if verified {
            "verified"@
        } else {
            "open"@
        },
        verified_digest: if verified {
            digest
        } else {
            Seq::empty()
        },
        receipts_created: state.receipts_created + ran,
        ..state
    }
}

/// What stays the same while this verification goes on.
pub open spec fn setting(w: WorkModel, world: World) -> Setting {
    Setting { goal: w.goal, run_id: w.run_id, digest: w.digest, rerun: w.rerun, world }
}

spec fn counted(w: WorkModel) -> bool {
    &&& w.passed + w.failures.len() == w.index
    &&& w.index <= w.goal.required.len()
}

/// What follows from `w` on, with these steps.
spec fn follows(w: WorkModel, effects: Seq<EffectModel>, steps: Seq<Step>, world: World) -> bool {
    let commands = w.goal.required.skip(w.index as int);
    let passed = w.passed + passing(steps);
    let said = w.failures + complaints(commands, steps);
    &&& right_steps(
        setting(w, world),
        w.index,
        steps,
        w.receipts,
        w.state.receipts_created,
    )
    &&& effects == all_records(commands, steps) + seq![
        verdict_event(w.goal.required, passed, said),
        EffectModel::SaveState(
            verdict_state(w.state, w.digest, passed, running(steps), said),
        ),
    ]
}

proof fn lemma_free(receipts: Seq<ReceiptModel>, key: Seq<char>)
    ensures
        store::keyed(receipts, key) is None <==> key_is_free(receipts, key),
        store::keyed(receipts, key) matches Some(r) ==> exists|k: int| #[trigger]
            first_under(receipts, key, r, k),
    decreases receipts.len(),
{
    if receipts.len() > 0 {
        let rest = receipts.drop_first();
        lemma_free(rest, key);
        if receipts[0].idempotency_key == key {
            assert(receipts.take(0) =~= Seq::<ReceiptModel>::empty());
            assert(first_under(receipts, key, receipts[0], 0));
        } else {
            if key_is_free(receipts, key) {
                assert forall|k: int| 0 <= k < rest.len() implies (
                #[trigger] rest[k]).idempotency_key != key by {
                    assert(receipts[k + 1].idempotency_key != key);
                }
            }
            if key_is_free(rest, key) {
                assert forall|k: int| 0 <= k < receipts.len() implies (
                #[trigger] receipts[k]).idempotency_key != key by {
                    if k > 0 {
                        assert(rest[k - 1].idempotency_key != key);
                    }
                }
            }
            if let Some(r) = store::keyed(rest, key) {
                let k = choose|k: int| #[trigger] first_under(rest, key, r, k);
                assert forall|j: int| 0 <= j < k + 1 implies (
                #[trigger] receipts.take(k + 1)[j]).idempotency_key != key by {
                    if j > 0 {
                        assert(rest.take(k)[j - 1].idempotency_key != key);
                    }
                }
                assert(first_under(receipts, key, r, k + 1));
            }
        }
    }
}

proof fn lemma_receipt(w: WorkModel, world: World)
    requires
        counted(w),
        w.index < w.goal.required.len(),
    ensures
        ({
            let at = setting(w, world);
            let keys = (world.keys)(verify::action_of(w.command()), w.input());
            let result = (world.shell)(w.index);
            &&& keys == keys_of(at, w.command(), w.receipts)
            &&& receipt_tells(
                verify::minted(w, keys, result),
                at,
                w.command(),
                w.receipts,
                result,
                w.state.receipts_created + 1,
            )
        }),
{
    let at = setting(w, world);
    let keys = (world.keys)(verify::action_of(w.command()), w.input());
    let result = (world.shell)(w.index);
    let r = verify::minted(w, keys, result);
    assert(w.input() == input_of(at, w.command(), w.receipts));
    laws::law_receipt_says_how_the_command_ended(w, keys, result);
    law_receipts_are_read_as_written(r, w.command());
    lemma_output(result);
}

proof fn lemma_output(result: ShellModel)
    ensures
        output_tells(verify::output_json(result), result),
{
    reveal_strlit("exit_code");
    reveal_strlit("timed_out");
    reveal_strlit("duration_ms");
    reveal_strlit("argv");
    reveal_strlit("stdout_artifact");
    reveal_strlit("stderr_artifact");
    reveal_strlit("stdout_bytes");
    reveal_strlit("stderr_bytes");
    reveal_strlit("env_redacted");
    assert("exit_code"@.len() == 9 && "exit_code"@[0] == 'e');
    assert("timed_out"@.len() == 9 && "timed_out"@[0] == 't');
    assert("duration_ms"@.len() == 11);
    assert("argv"@.len() == 4);
    assert("stdout_artifact"@.len() == 15 && "stdout_artifact"@[3] == 'o');
    assert("stderr_artifact"@.len() == 15 && "stderr_artifact"@[3] == 'e');
    assert("stdout_bytes"@.len() == 12 && "stdout_bytes"@[3] == 'o');
    assert("stderr_bytes"@.len() == 12 && "stderr_bytes"@[3] == 'e');
    assert("env_redacted"@.len() == 12 && "env_redacted"@[0] == 'e');
    assert("stdout_bytes"@[0] == 's' && "stderr_bytes"@[0] == 's');
}

proof fn lemma_exit(command: Seq<char>, r: ReceiptModel)
    ensures
        verify::failed_line(command, r) == command + ": exit "@ + exit_text(r),
{
    match crate::json::i64_at(r.output, "exit_code"@) {
        Some(code) => {
            assert(holds(r.output, "exit_code"@, Json::Int(code as int)));
        },
        None => {},
    }
}

/// The step of one command and the steps of the rest make all steps.
proof fn lemma_one_more(
    w: WorkModel,
    v: WorkModel,
    step: Step,
    rest: Seq<EffectModel>,
    steps: Seq<Step>,
    world: World,
)
    requires
        counted(w),
        w.index < w.goal.required.len(),
        right_step(setting(w, world), w.index, step, w.receipts, w.state.receipts_created),
        v.goal == w.goal,
        v.run_id == w.run_id,
        v.digest == w.digest,
        v.rerun == w.rerun,
        v.index == w.index + 1,
        v.receipts == after_step(w.receipts, step),
        v.state == (StateModel {
            receipts_created: w.state.receipts_created + if step is Ran {
                1nat
            } else {
                0nat
            },
            ..w.state
        }),
        step_passes(step) ==> v.passed == w.passed + 1 && v.failures == w.failures,
        !step_passes(step) ==> v.passed == w.passed && v.failures == w.failures.push(
            complaint(w.command(), step),
        ),
        follows(v, rest, steps, world),
    ensures
        follows(w, step_records(w.command(), step) + rest, seq![step] + steps, world),
{
    let all = seq![step] + steps;
    let commands = w.goal.required.skip(w.index as int);
    assert(all.skip(1) =~= steps);
    assert(commands.skip(1) =~= v.goal.required.skip(v.index as int));
    assert(commands[0] == w.command());
    assert(setting(v, world) == setting(w, world));
    assert(all[0] == step);
    assert(passing(all) == passing(steps) + if step_passes(step) {
        1nat
    } else {
        0nat
    });
    let said = v.failures + complaints(commands.skip(1), steps);
    assert(w.failures + complaints(commands, all) =~= said);
    assert(w.passed + passing(all) == v.passed + passing(steps));
    let passed = v.passed + passing(steps);
    assert(verdict_state(v.state, v.digest, passed, running(steps), said) == verdict_state(
        w.state,
        w.digest,
        passed,
        running(all),
        said,
    ));
    let last = seq![
        verdict_event(w.goal.required, passed, said),
        EffectModel::SaveState(verdict_state(w.state, w.digest, passed, running(all), said)),
    ];
    assert(step_records(w.command(), step) + (all_records(commands.skip(1), steps) + last)
        =~= all_records(commands, all) + last);
}

proof fn lemma_steps(w: WorkModel, world: World) -> (steps: Seq<Step>)
    requires
        counted(w),
        w.crash is None,
    ensures
        follows(w, laws::played_out(w.resumed(), world).effects, steps, world),
        steps.len() == w.goal.required.len() - w.index,
    decreases w.goal.required.len() - w.index,
{
    let effects = laws::played_out(w.resumed(), world).effects;
    let at = setting(w, world);
    if w.index == w.goal.required.len() {
        let steps = Seq::<Step>::empty();
        let t = w.ending();
        assert(w.skipped() == w);
        assert(w.resumed() == t);
        assert(laws::played(t.next, world).effects.len() == 0);
        assert(effects =~= t.effects);
        let commands = w.goal.required.skip(w.index as int);
        assert(w.failures + complaints(commands, steps) =~= w.failures);
        assert(all_records(commands, steps) =~= Seq::<EffectModel>::empty());
        let said = w.failures;
        assert(w.concluded() == verdict_state(w.state, w.digest, w.passed, 0, said));
        assert(w.closing_event() == verdict_event(w.goal.required, w.passed, said));
        assert(effects =~= all_records(commands, steps) + seq![
            verdict_event(w.goal.required, w.passed, said),
            EffectModel::SaveState(verdict_state(w.state, w.digest, w.passed, 0, said)),
        ]);
        steps
    } else if !w.goal.permits(w.command()) {
        let v = w.refused();
        assert(w.skipped() == v.skipped());
        assert(w.resumed() == v.resumed());
        let steps = lemma_steps(v, world);
        lemma_one_more(w, v, Step::Refused, effects, steps, world);
        assert(step_records(w.command(), Step::Refused) + effects =~= effects);
        seq![Step::Refused] + steps
    } else {
        let keys = (world.keys)(verify::action_of(w.command()), w.input());
        assert(w.skipped() == w);
        let t = w.resumed();
        assert(t.next == NextModel::Key(w));
        assert(effects =~= laws::played(NextModel::Key(w), world).effects);
        lemma_receipt(w, world);
        lemma_free(w.receipts, keys.key);
        match store::keyed(w.receipts, keys.key) {
            Some(r) => {
                let step = Step::Reused(r);
                let v = w.settled(r);
                law_receipts_are_read_as_written(r, w.command());
                lemma_exit(w.command(), r);
                let rest = laws::played_out(v.resumed(), world).effects;
                let steps = lemma_steps(v, world);
                lemma_one_more(w, v, step, rest, steps, world);
                assert(effects =~= step_records(w.command(), step) + rest);
                seq![step] + steps
            },
            None => {
                let result = (world.shell)(w.index);
                let r = verify::minted(w, keys, result);
                let step = Step::Ran(r);
                let v = w.recorded(r).settled(r);
                law_receipts_are_read_as_written(r, w.command());
                lemma_exit(w.command(), r);
                let rest = laws::played_out(v.resumed(), world).effects;
                let steps = lemma_steps(v, world);
                lemma_one_more(w, v, step, rest, steps, world);
                let own = step_records(w.command(), step);
                assert(laws::played(NextModel::Run(w, keys), world).effects =~= seq![
                    own[1],
                    own[2],
                ] + rest);
                assert(effects =~= own + rest);
                seq![step] + steps
            },
        }
    }
}

/// A verification with nothing out of scope, written down from its first record
/// to its last: the required commands one after the other, each refused, settled
/// by the first receipt under its key or run; then the verdict and the state. The
/// run is verified iff nothing is said against any command.
pub proof fn law_verification_goes_through_the_commands(
    goal: GoalModel,
    state: StateModel,
    run_id: Seq<char>,
    tree: TreeModel,
    receipts: Seq<ReceiptModel>,
    rerun: bool,
    world: World,
) -> (steps: Seq<Step>)
    requires
        plan::outside(goal, tree).len() == 0,
    ensures
        ({
            let at = Setting { goal, run_id, digest: tree.digest, rerun, world };
            let said = complaints(goal.required, steps);
            &&& steps.len() == goal.required.len()
            &&& right_steps(at, 0, steps, receipts, state.receipts_created)
            &&& laws::verification(
                goal,
                state,
                run_id,
                tree,
                receipts,
                rerun,
                None,
                world,
            ).effects == all_records(goal.required, steps) + seq![
                verdict_event(goal.required, passing(steps), said),
                EffectModel::SaveState(
                    verdict_state(
                        StateModel {
                            out_of_scope: 0,
                            commands_required: goal.required.len(),
                            ..state
                        },
                        tree.digest,
                        passing(steps),
                        running(steps),
                        said,
                    ),
                ),
            ]
        }),
{
    let w = verify::opened(goal, state, run_id, tree.digest, receipts, rerun, None);
    let steps = lemma_steps(w, world);
    assert(goal.required.skip(0) =~= goal.required);
    let said = complaints(goal.required, steps);
    assert(w.failures + said =~= said);
    steps
}

// ----- a verification that is cut short -----

/// The steps are the right ones for the first commands from a place on.
pub open spec fn right_start(
    at: Setting,
    place: nat,
    steps: Seq<Step>,
    receipts: Seq<ReceiptModel>,
    created: nat,
) -> bool
    decreases steps.len(),
{
    steps.len() > 0 ==> {
        &&& place < at.goal.required.len()
        &&& right_step(at, place, steps[0], receipts, created)
        &&& right_start(
            at,
            place + 1,
            steps.skip(1),
            after_step(receipts, steps[0]),
            created + if steps[0] is Ran {
                1nat
            } else {
                0nat
            },
        )
    }
}

/// The state that is left where a verification is cut short.
pub open spec fn cut_state(state: StateModel, created: nat) -> StateModel {
    StateModel { verified: false, guard_phase: "open"@, receipts_created: created, ..state }
}

/// What follows from `w` on where it is cut short in the last of these steps.
spec fn follows_cut(w: WorkModel, effects: Seq<EffectModel>, steps: Seq<Step>, world: World) -> bool {
    let commands = w.goal.required.skip(w.index as int);
    let created = w.state.receipts_created + running(steps);
    &&& steps.len() > 0 && steps.last() is Ran
    &&& steps.len() <= commands.len()
    &&& w.crash == Some(created)
    &&& right_start(
        setting(w, world),
        w.index,
        steps,
        w.receipts,
        w.state.receipts_created,
    )
    &&& effects == all_records(commands, steps).push(
        EffectModel::SaveState(cut_state(w.state, created)),
    )
}

/// The count of receipts that a verification is to be cut short at is not reached
/// in these steps.
spec fn not_reached(w: WorkModel, steps: Seq<Step>) -> bool {
    w.crash matches Some(n) ==> n <= w.state.receipts_created || n > w.state.receipts_created
        + running(steps)
}

proof fn lemma_one_more_cut(
    w: WorkModel,
    v: WorkModel,
    step: Step,
    rest: Seq<EffectModel>,
    steps: Seq<Step>,
    world: World,
)
    requires
        counted(w),
        w.index < w.goal.required.len(),
        right_step(setting(w, world), w.index, step, w.receipts, w.state.receipts_created),
        v.goal == w.goal,
        v.run_id == w.run_id,
        v.digest == w.digest,
        v.rerun == w.rerun,
        v.crash == w.crash,
        v.index == w.index + 1,
        v.receipts == after_step(w.receipts, step),
        v.state == (StateModel {
            receipts_created: w.state.receipts_created + if step is Ran {
                1nat
            } else {
                0nat
            },
            ..w.state
        }),
        follows_cut(v, rest, steps, world),
    ensures
        follows_cut(w, step_records(w.command(), step) + rest, seq![step] + steps, world),
{
    let all = seq![step] + steps;
    let commands = w.goal.required.skip(w.index as int);
    assert(all.skip(1) =~= steps);
    assert(commands.skip(1) =~= v.goal.required.skip(v.index as int));
    assert(commands[0] == w.command());
    assert(setting(v, world) == setting(w, world));
    assert(all[0] == step);
    assert(all.last() == steps.last());
    let created = v.state.receipts_created + running(steps);
    assert(w.state.receipts_created + running(all) == created);
    let last = EffectModel::SaveState(cut_state(w.state, created));
    assert(cut_state(v.state, created) == cut_state(w.state, created));
    assert(step_records(w.command(), step) + all_records(commands.skip(1), steps).push(last)
        =~= all_records(commands, all).push(last));
}

proof fn lemma_cut(w: WorkModel, world: World) -> (r: (Seq<Step>, bool))
    requires
        counted(w),
    ensures
        ({
            let effects = laws::played_out(w.resumed(), world).effects;
            let (steps, cut) = r;
            &&& cut ==> follows_cut(w, effects, steps, world)
            &&& !cut ==> follows(w, effects, steps, world) && not_reached(w, steps) && steps.len()
                == w.goal.required.len() - w.index
        }),
    decreases w.goal.required.len() - w.index,
{
    let effects = laws::played_out(w.resumed(), world).effects;
    let at = setting(w, world);
    if w.index == w.goal.required.len() {
        let plain = WorkModel { crash: None, ..w };
        assert(w.skipped() == w && plain.skipped() == plain);
        assert(w.resumed() == w.ending() && plain.resumed() == plain.ending());
        assert(w.ending() == plain.ending());
        let steps = lemma_steps(plain, world);
        assert(setting(plain, world) == at);
        (steps, false)
    } else if !w.goal.permits(w.command()) {
        let v = w.refused();
        assert(w.skipped() == v.skipped());
        assert(w.resumed() == v.resumed());
        let (steps, cut) = lemma_cut(v, world);
        assert(step_records(w.command(), Step::Refused) + effects =~= effects);
        let all = seq![Step::Refused] + steps;
        assert(all.skip(1) =~= steps);
        if cut {
            lemma_one_more_cut(w, v, Step::Refused, effects, steps, world);
        } else {
            lemma_one_more(w, v, Step::Refused, effects, steps, world);
        }
        (all, cut)
    } else {
        let keys = (world.keys)(verify::action_of(w.command()), w.input());
        assert(w.skipped() == w);
        assert(w.resumed().next == NextModel::Key(w));
        assert(effects =~= laws::played(NextModel::Key(w), world).effects);
        lemma_receipt(w, world);
        lemma_free(w.receipts, keys.key);
        match store::keyed(w.receipts, keys.key) {
            Some(r) => {
                let step = Step::Reused(r);
                let v = w.settled(r);
                law_receipts_are_read_as_written(r, w.command());
                lemma_exit(w.command(), r);
                let rest = laws::played_out(v.resumed(), world).effects;
                let (steps, cut) = lemma_cut(v, world);
                assert(effects =~= step_records(w.command(), step) + rest);
                let all = seq![step] + steps;
                assert(all.skip(1) =~= steps);
                if cut {
                    lemma_one_more_cut(w, v, step, rest, steps, world);
                } else {
                    lemma_one_more(w, v, step, rest, steps, world);
                }
                (all, cut)
            },
            None => {
                let result = (world.shell)(w.index);
                let r = verify::minted(w, keys, result);
                let step = Step::Ran(r);
                law_receipts_are_read_as_written(r, w.command());
                lemma_exit(w.command(), r);
                let own = step_records(w.command(), step);
                let created = w.state.receipts_created + 1;
                let commands = w.goal.required.skip(w.index as int);
                if w.crash == Some(created) {
                    let steps = seq![step];
                    let none = Seq::<Step>::empty();
                    assert(steps.skip(1) =~= none);
                    assert(running(none) == 0);
                    assert(running(steps) == 1);
                    assert(all_records(commands.skip(1), none) =~= Seq::<EffectModel>::empty());
                    let last = EffectModel::SaveState(cut_state(w.state, created));
                    let v = w.recorded(r);
                    assert(v.cut() == cut_state(w.state, created));
                    let t = w.ran(keys, result);
                    assert(t.effects =~= seq![own[1], own[2], last]);
                    assert(laws::played(t.next, world).effects.len() == 0);
                    assert(laws::played(NextModel::Run(w, keys), world).effects =~= t.effects);
                    assert(effects =~= seq![own[0]] + t.effects);
                    assert(all_records(commands, steps) =~= own);
                    assert(effects =~= all_records(commands, steps).push(last));
                    assert(right_start(
                        at,
                        w.index + 1,
                        none,
                        after_step(w.receipts, step),
                        w.state.receipts_created + 1,
                    ));
                    (steps, true)
                } else {
                    let v = w.recorded(r).settled(r);
                    let rest = laws::played_out(v.resumed(), world).effects;
                    let (steps, cut) = lemma_cut(v, world);
                    assert(laws::played(NextModel::Run(w, keys), world).effects =~= seq![
                        own[1],
                        own[2],
                    ] + rest);
                    assert(effects =~= own + rest);
                    let all = seq![step] + steps;
                    assert(all.skip(1) =~= steps);
                    if cut {
                        lemma_one_more_cut(w, v, step, rest, steps, world);
                    } else {
                        lemma_one_more(w, v, step, rest, steps, world);
                    }
                    (all, cut)
                }
            },
        }
    }
}

/// A verification that is to be cut short goes through the commands as any other,
/// up to the run that brings the count of receipts to the number given: its
/// receipt is kept, and the run is left open and not verified, with no word on
/// the commands. Where the number is not reached, it ends as any other.
pub proof fn law_cut_keeps_what_was_written(
    goal: GoalModel,
    state: StateModel,
    run_id: Seq<char>,
    tree: TreeModel,
    receipts: Seq<ReceiptModel>,
    rerun: bool,
    n: nat,
    world: World,
) -> (r: (Seq<Step>, bool))
    requires
        plan::outside(goal, tree).len() == 0,
    ensures
        ({
            let (steps, cut) = r;
            let at = Setting { goal, run_id, digest: tree.digest, rerun, world };
            let begun = StateModel {
                out_of_scope: 0,
                commands_required: goal.required.len(),
                ..state
            };
            let said = complaints(goal.required, steps);
            let total = state.receipts_created + running(steps);
            let effects = laws::verification(
                goal,
                state,
                run_id,
                tree,
                receipts,
                rerun,
                Some(n),
                world,
            ).effects;
            &&& right_start(at, 0, steps, receipts, state.receipts_created)
            &&& cut ==> {
                &&& n == total
                &&& steps.len() > 0 && steps.last() is Ran
                &&& effects == all_records(goal.required, steps).push(
                    EffectModel::SaveState(cut_state(begun, n)),
                )
            }
            &&& !cut ==> {
                &&& n <= state.receipts_created || n > total
                &&& right_steps(at, 0, steps, receipts, state.receipts_created)
                &&& effects == all_records(goal.required, steps) + seq![
                    verdict_event(goal.required, passing(steps), said),
                    EffectModel::SaveState(
                        verdict_state(begun, tree.digest, passing(steps), running(steps), said),
                    ),
                ]
            }
        }),
{
    let w = verify::opened(goal, state, run_id, tree.digest, receipts, rerun, Some(n));
    let (steps, cut) = lemma_cut(w, world);
    assert(goal.required.skip(0) =~= goal.required);
    let said = complaints(goal.required, steps);
    assert(w.failures + said =~= said);
    if !cut {
        lemma_start(setting(w, world), 0, steps, receipts, state.receipts_created);
    }
    (steps, cut)
}

proof fn lemma_start(
    at: Setting,
    place: nat,
    steps: Seq<Step>,
    receipts: Seq<ReceiptModel>,
    created: nat,
)
    requires
        right_steps(at, place, steps, receipts, created),
    ensures
        right_start(at, place, steps, receipts, created),
    decreases steps.len(),
{
    if steps.len() > 0 {
        lemma_start(
            at,
            place + 1,
            steps.skip(1),
            after_step(receipts, steps[0]),
            created + if steps[0] is Ran {
                1nat
            } else {
                0nat
            },
        );
    }
}

// ----- requests -----

/// A request is for the next required command: its key is asked for under the
/// action and the input of that command over the tree, and the command that is to
/// be run is that one.
pub proof fn law_requests_are_for_the_command(
    key: verify::KeyRequest,
    run: verify::RunRequest,
    world: World,
)
    ensures
        key.wf() ==> {
            let w = key.work@;
            let command = w.goal.required[w.index as int];
            &&& w.index < w.goal.required.len()
            &&& w.goal.shell.contains(command)
            &&& key.action_id@ == "verify:"@ + command
            &&& crate::json::json_of(key.input) == input_of(setting(w, world), command, w.receipts)
        },
        run.wf() ==> {
            let w = run.work@;
            let command = w.goal.required[w.index as int];
            &&& w.index < w.goal.required.len()
            &&& w.goal.shell.contains(command)
            &&& run.command@ == command
            &&& crate::json::json_of(run.input) == input_of(setting(w, world), command, w.receipts)
        },
{
}

/// An artifact's path is kept with every backslash turned into a slash, and
/// nothing else changed.
pub proof fn law_only_backslashes_turn(path: Seq<char>, i: int)
    ensures
        verify::slashed(path).len() == path.len(),
        0 <= i < path.len() ==> verify::slashed(path)[i] == (if path[i] == '\\' {
            '/'
        } else {
            path[i]
        }),
{
}

} // verus!
