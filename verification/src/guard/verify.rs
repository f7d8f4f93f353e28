//! Verification: the write scope first, then every required command, each with
//! a receipt; a command that has a receipt for the present tree is not run again.
//!
//! The caller does the outside work. It gets a `Turn`: records to write, in
//! order, and then either a request (for the key of an action, or for a command
//! to be run) or the end. It answers a request and gets the next turn.
use crate::event::{Event, EventKind, EventModel};
use crate::goal::{GoalModel, GoalSpec};
use crate::guard::packets::{GuardCrash, GuardError, GuardStatus, StatusModel, Tree, TreeModel};
use crate::guard::plan::{self, ScopeDiff};
use crate::json::{self, Json};
use crate::store::{self, GoalRecord, Receipt, ReceiptModel, RunState, StateModel};
use crate::text;
use vstd::prelude::*;
use vstd::string::*;

verus! {

/// The longest time a command may take, in milliseconds.
pub const VERIFY_TIMEOUT_MS: u64 = 120_000;

// ----- what the caller is asked and what it answers -----

/// A record to be written.
#[derive(Debug)]
pub enum Effect {
    Append(Event),
    SaveReceipt(Receipt),
    SaveState(RunState),
}

/// What a record to be written says.
pub enum EffectModel {
    Append(EventModel),
    SaveReceipt(ReceiptModel),
    SaveState(StateModel),
}

impl View for Effect {
    type V = EffectModel;

    open spec fn view(&self) -> EffectModel {
        match self {
            Effect::Append(e) => EffectModel::Append(e@),
            Effect::SaveReceipt(r) => EffectModel::SaveReceipt(r@),
            Effect::SaveState(s) => EffectModel::SaveState(s@),
        }
    }
}

/// What the records of a list say.
pub open spec fn effect_models(list: Seq<Effect>) -> Seq<EffectModel> {
    list.map_values(|e: Effect| e@)
}

/// The key of an action, the id of the receipt under that key and the hash of
/// the action's input.
#[derive(Debug)]
pub struct Keys {
    pub key: String,
    pub receipt_id: String,
    pub input_hash: String,
}

/// What the keys say.
pub struct KeysModel {
    pub key: Seq<char>,
    pub receipt_id: Seq<char>,
    pub input_hash: Seq<char>,
}

impl View for Keys {
    type V = KeysModel;

    open spec fn view(&self) -> KeysModel {
        KeysModel { key: self.key@, receipt_id: self.receipt_id@, input_hash: self.input_hash@ }
    }
}

/// How a command ended. The two paths are relative to the repository; `seq` is
/// the number of the next event.
#[derive(Debug)]
pub struct ShellResult {
    pub exit_code: Option<i64>,
    pub timed_out: bool,
    pub duration_ms: u64,
    pub argv: Vec<String>,
    pub stdout_path: String,
    pub stderr_path: String,
    pub stdout_bytes: u64,
    pub stderr_bytes: u64,
    pub env_names: Vec<String>,
    pub seq: u64,
}

/// What the end of a command says.
pub struct ShellModel {
    pub exit_code: Option<i64>,
    pub timed_out: bool,
    pub duration_ms: u64,
    pub argv: Seq<Seq<char>>,
    pub stdout_path: Seq<char>,
    pub stderr_path: Seq<char>,
    pub stdout_bytes: u64,
    pub stderr_bytes: u64,
    pub env_names: Seq<Seq<char>>,
    pub seq: nat,
}

impl View for ShellResult {
    type V = ShellModel;

    open spec fn view(&self) -> ShellModel {
        ShellModel {
            exit_code: self.exit_code,
            timed_out: self.timed_out,
            duration_ms: self.duration_ms,
            argv: text::texts(self.argv@),
            stdout_path: self.stdout_path@,
            stderr_path: self.stderr_path@,
            stdout_bytes: self.stdout_bytes,
            stderr_bytes: self.stderr_bytes,
            env_names: text::texts(self.env_names@),
            seq: self.seq as nat,
        }
    }
}

impl ShellModel {
    /// The command exited 0 and did not time out.
    pub open spec fn passed(self) -> bool {
        self.exit_code == Some(0i64) && !self.timed_out
    }
}

// ----- the state of a verification -----

/// A verification under way: the commands before `index` are settled.
#[derive(Debug)]
pub struct Work {
    pub run_id: String,
    pub spec: GoalSpec,
    pub state: RunState,
    pub digest: String,
    pub receipts: Vec<Receipt>,
    pub rerun: bool,
    pub crash: Option<GuardCrash>,
    pub index: usize,
    pub passed: usize,
    pub failures: Vec<String>,
}

/// What a verification under way says.
pub struct WorkModel {
    pub run_id: Seq<char>,
    pub goal: GoalModel,
    pub state: StateModel,
    pub digest: Seq<char>,
    pub receipts: Seq<ReceiptModel>,
    pub rerun: bool,
    pub crash: Option<nat>,
    pub index: nat,
    pub passed: nat,
    pub failures: Seq<Seq<char>>,
}

/// The number of receipts at which a verification is to be cut short.
pub open spec fn crash_at(crash: Option<GuardCrash>) -> Option<nat> {
    match crash {
        Some(GuardCrash::AfterReceipt(n)) => Some(n as nat),
        None => None,
    }
}

impl View for Work {
    type V = WorkModel;

    open spec fn view(&self) -> WorkModel {
        WorkModel {
            run_id: self.run_id@,
            goal: self.spec@,
            state: self.state@,
            digest: self.digest@,
            receipts: store::ledger(self.receipts@),
            rerun: self.rerun,
            crash: crash_at(self.crash),
            index: self.index as nat,
            passed: self.passed as nat,
            failures: text::texts(self.failures@),
        }
    }
}

impl WorkModel {
    /// The counts are in range.
    pub open spec fn wf(self) -> bool {
        &&& self.passed <= self.index <= self.goal.required.len()
        &&& self.state.receipts_created + self.goal.required.len() - self.index <= usize::MAX
    }

    /// There is a command to settle, and it may be run.
    pub open spec fn at_command(self) -> bool {
        &&& self.wf()
        &&& self.index < self.goal.required.len()
        &&& self.goal.permits(self.command())
    }

    /// The command to settle.
    pub open spec fn command(self) -> Seq<char> {
        self.goal.required[self.index as int]
    }
}

// ----- keys, receipts and events -----

/// The input that a command's key is made of: the command over this tree, with
/// the number of earlier attempts where a fresh run is asked for.
pub open spec fn key_input(command: Seq<char>, digest: Seq<char>, attempts: Option<nat>) -> Json {
    let plain = map![
        "command"@ => Json::Str(command),
        "cwd"@ => Json::Str("."@),
        "tree"@ => Json::Str(digest),
    ];
    match attempts {
        Some(n) => Json::Object(plain.insert("rerun"@, Json::Int(n as int))),
        None => Json::Object(plain),
    }
}

/// The name of a command's action.
pub open spec fn action_of(command: Seq<char>) -> Seq<char> {
    "verify:"@ + command
}

impl WorkModel {
    /// How often the command was run before; nothing where no fresh run is
    /// asked for.
    pub open spec fn attempts(self) -> Option<nat> {
        if self.rerun {
            Some(store::about(self.receipts, self.command()).len())
        } else {
            None
        }
    }

    /// The key's input of the command to settle.
    pub open spec fn input(self) -> Json {
        key_input(self.command(), self.digest, self.attempts())
    }
}

/// A path with forward slashes.
pub open spec fn slashed(path: Seq<char>) -> Seq<char> {
    path.map_values(
        |c: char|
            if c == '\\' {
                '/'
            } else {
                c
            },
    )
}

/// The form in which a receipt keeps an artifact's path: forward slashes. The
/// path is relative to the repository already.
pub fn rel(path: &String) -> (r: String)
    ensures
        r@ == slashed(path@),
{
    let chars: Vec<char> = text::chars_of(path.as_str());
    let mut out: String = String::new();
    let n: usize = chars.len();
    let mut i: usize = 0;
    while i < n
        invariant
            n == chars.len(),
            chars@ == path@,
            i <= n,
            out@ =~= slashed(path@).take(i as int),
        decreases n - i,
    {
        if chars[i] == '\\' {
            out.push('/');
        } else {
            out.push(chars[i]);
        }
        i = i + 1;
    }
    out
}

/// What a receipt keeps of how a command ended.
pub open spec fn output_json(result: ShellModel) -> Json {
    Json::Object(
        map![
            "exit_code"@ => match result.exit_code {
                Some(code) => Json::Int(code as int),
                None => Json::Null,
            },
            "timed_out"@ => Json::Bool(result.timed_out),
            "duration_ms"@ => Json::Int(result.duration_ms as int),
            "argv"@ => json::strings(result.argv),
            "stdout_artifact"@ => Json::Str(slashed(result.stdout_path)),
            "stderr_artifact"@ => Json::Str(slashed(result.stderr_path)),
            "stdout_bytes"@ => Json::Int(result.stdout_bytes as int),
            "stderr_bytes"@ => Json::Int(result.stderr_bytes as int),
            "env_redacted"@ => json::strings(result.env_names),
        ],
    )
}

fn output_value(result: &ShellResult) -> (r: serde_json::Value)
    ensures
        json::json_of(r) == output_json(result@),
{
    let mut out: serde_json::Value = json::object();
    json::set(&mut out, "exit_code", json::from_i64(result.exit_code));
    json::set(&mut out, "timed_out", json::from_bool(result.timed_out));
    json::set(&mut out, "duration_ms", json::from_u64(result.duration_ms));
    json::set(&mut out, "argv", json::from_strings(text::copy_texts(&result.argv)));
    json::set(&mut out, "stdout_artifact", json::from_text(rel(&result.stdout_path).as_str()));
    json::set(&mut out, "stderr_artifact", json::from_text(rel(&result.stderr_path).as_str()));
    json::set(&mut out, "stdout_bytes", json::from_u64(result.stdout_bytes));
    json::set(&mut out, "stderr_bytes", json::from_u64(result.stderr_bytes));
    json::set(&mut out, "env_redacted", json::from_strings(text::copy_texts(&result.env_names)));
    out
}

/// The receipt of a command that was run.
pub open spec fn minted(w: WorkModel, keys: KeysModel, result: ShellModel) -> ReceiptModel {
    ReceiptModel {
        receipt_id: keys.receipt_id,
        idempotency_key: keys.key,
        action_id: action_of(w.command()),
        tool: "shell.run"@,
        input: w.input(),
        output: output_json(result),
        run_id: w.run_id,
        step: w.state.receipts_created + 1,
        effect: "shell.run"@,
        input_hash: keys.input_hash,
        approval_id: None,
        created_event_id: "evt_"@ + text::padded(result.seq, 6),
    }
}

/// The event that a receipt was used again.
pub open spec fn reused_event(receipt_id: Seq<char>, command: Seq<char>) -> EffectModel {
    EffectModel::Append(
        EventModel {
            kind: EventKind::ReceiptReused,
            payload: Json::Object(
                map!["receipt_id"@ => Json::Str(receipt_id), "command"@ => Json::Str(command)],
            ),
        },
    )
}

/// The event that a command is run.
pub open spec fn executed_event(command: Seq<char>) -> EffectModel {
    EffectModel::Append(
        EventModel {
            kind: EventKind::ShellExecuted,
            payload: Json::Object(
                map!["command"@ => Json::Str(command), "cwd"@ => Json::Str("."@)],
            ),
        },
    )
}

/// The event that a receipt was written.
pub open spec fn created_event(
    receipt_id: Seq<char>,
    command: Seq<char>,
    key: Seq<char>,
) -> EffectModel {
    EffectModel::Append(
        EventModel {
            kind: EventKind::ReceiptCreated,
            payload: Json::Object(
                map![
                    "receipt_id"@ => Json::Str(receipt_id),
                    "command"@ => Json::Str(command),
                    "idempotency_key"@ => Json::Str(key),
                ],
            ),
        },
    )
}

/// The event that a file is out of scope.
pub open spec fn scope_event(goal: GoalModel, path: Seq<char>) -> EffectModel {
    EffectModel::Append(
        EventModel {
            kind: EventKind::ScopeViolation,
            payload: Json::Object(
                map!["path"@ => Json::Str(path), "allowed"@ => json::strings(goal.fs_write)],
            ),
        },
    )
}

/// The events of all files out of scope.
pub open spec fn scope_events(goal: GoalModel, paths: Seq<Seq<char>>) -> Seq<EffectModel> {
    paths.map_values(|p: Seq<char>| scope_event(goal, p))
}

/// The event that a verification failed.
pub open spec fn failed_event(reason: Seq<char>, summary: Seq<char>) -> EffectModel {
    EffectModel::Append(
        EventModel {
            kind: EventKind::VerifyFailed,
            payload: Json::Object(
                map!["reason"@ => Json::Str(reason), "summary"@ => Json::Str(summary)],
            ),
        },
    )
}

/// The event that a verification passed.
pub open spec fn passed_event(required: Seq<Seq<char>>, passed: nat) -> EffectModel {
    EffectModel::Append(
        EventModel {
            kind: EventKind::VerifyPassed,
            payload: Json::Object(
                map![
                    "commands"@ => json::strings(required),
                    "summary"@ => Json::Str(text::decimal(passed) + " command(s) passed"@),
                ],
            ),
        },
    )
}

/// An event as a record to be written.
pub fn append(kind: EventKind, payload: serde_json::Value) -> (r: Effect)
    ensures
        r@ == EffectModel::Append(EventModel { kind, payload: json::json_of(payload) }),
{
    Effect::Append(Event { kind, payload })
}

/// The events of all files out of scope.
pub fn scope_records(spec: &GoalSpec, paths: &Vec<String>) -> (r: Vec<Effect>)
    ensures
        effect_models(r@) == scope_events(spec@, text::texts(paths@)),
{
    let ghost want = scope_events(spec@, text::texts(paths@));
    let mut out: Vec<Effect> = Vec::new();
    let n: usize = paths.len();
    let mut i: usize = 0;
    while i < n
        invariant
            n == paths.len(),
            i <= n,
            want == scope_events(spec@, text::texts(paths@)),
            effect_models(out@) =~= want.take(i as int),
        decreases n - i,
    {
        let ghost done = effect_models(out@);
        let mut payload: serde_json::Value = json::object();
        json::set(&mut payload, "path", json::from_text(paths[i].as_str()));
        json::set(
            &mut payload,
            "allowed",
            json::from_strings(text::copy_texts(&spec.allow.fs_write)),
        );
        let e: Effect = append(EventKind::ScopeViolation, payload);
        assert(e@ == want[i as int]) by {
            assert(text::texts(paths@)[i as int] == paths@[i as int]@);
        }
        out.push(e);
        assert(effect_models(out@) =~= done.push(e@));
        i = i + 1;
    }
    out
}

// ----- turns -----

/// A command whose key is wanted.
#[derive(Debug)]
pub struct KeyRequest {
    pub work: Work,
    pub action_id: String,
    pub input: serde_json::Value,
}

/// A command that is to be run.
#[derive(Debug)]
pub struct RunRequest {
    pub work: Work,
    pub command: String,
    pub input: serde_json::Value,
    pub keys: Keys,
}

/// What is to be done next.
#[derive(Debug)]
pub enum Next {
    Key(KeyRequest),
    Run(RunRequest),
    Finished(GuardStatus),
}

/// What is to be done next: the key of the command to settle is wanted, or that
/// command is to be run, or the verification is over.
pub enum NextModel {
    Key(WorkModel),
    Run(WorkModel, KeysModel),
    Finished(StatusModel),
}

impl KeyRequest {
    /// The request is for the command to settle.
    pub open spec fn wf(&self) -> bool {
        &&& self.work@.at_command()
        &&& self.action_id@ == action_of(self.work@.command())
        &&& json::json_of(self.input) == self.work@.input()
    }
}

impl RunRequest {
    /// The request is for the command to settle.
    pub open spec fn wf(&self) -> bool {
        &&& self.work@.at_command()
        &&& self.command@ == self.work@.command()
        &&& json::json_of(self.input) == self.work@.input()
    }
}

impl View for Next {
    type V = NextModel;

    open spec fn view(&self) -> NextModel {
        match self {
            Next::Key(k) => NextModel::Key(k.work@),
            Next::Run(r) => NextModel::Run(r.work@, r.keys@),
            Next::Finished(s) => NextModel::Finished(s@),
        }
    }
}

impl Next {
    /// A request is for the command to settle.
    pub open spec fn wf(&self) -> bool {
        match self {
            Next::Key(k) => k.wf(),
            Next::Run(r) => r.wf(),
            Next::Finished(s) => true,
        }
    }
}

/// Records to be written in order, and what is to be done after that.
#[derive(Debug)]
pub struct Turn {
    pub effects: Vec<Effect>,
    pub next: Next,
}

/// Records to be written in order, and what is to be done after that.
pub struct TurnModel {
    pub effects: Seq<EffectModel>,
    pub next: NextModel,
}

impl View for Turn {
    type V = TurnModel;

    open spec fn view(&self) -> TurnModel {
        TurnModel { effects: effect_models(self.effects@), next: self.next@ }
    }
}

impl TurnModel {
    /// The turn with other records before its own.
    pub open spec fn after(self, effects: Seq<EffectModel>) -> TurnModel {
        TurnModel { effects: effects + self.effects, next: self.next }
    }
}

// ----- the rules -----

/// What is said of a command that may not be run.
pub open spec fn refused_line(command: Seq<char>) -> Seq<char> {
    "`"@ + command + "` is required but not in allow.shell"@
}

/// What is said of a command that did not pass.
pub open spec fn failed_line(command: Seq<char>, r: ReceiptModel) -> Seq<char> {
    command + ": exit "@ + match json::i64_at(r.output, "exit_code"@) {
        Some(code) => text::signed_decimal(code as int),
        None => "timeout"@,
    }
}

impl WorkModel {
    /// The command to settle may not be run: that is a failure.
    pub open spec fn refused(self) -> WorkModel {
        WorkModel {
            index: self.index + 1,
            failures: self.failures.push(refused_line(self.command())),
            ..self
        }
    }

    /// The command to settle has this receipt.
    pub open spec fn settled(self, r: ReceiptModel) -> WorkModel {
        if r.passed() {
            WorkModel { index: self.index + 1, passed: self.passed + 1, ..self }
        } else {
            WorkModel {
                index: self.index + 1,
                failures: self.failures.push(failed_line(self.command(), r)),
                ..self
            }
        }
    }

    /// All commands that may not be run, up to the next that may, are failures.
    pub open spec fn skipped(self) -> WorkModel
        decreases self.goal.required.len() - self.index,
    {
        if self.index < self.goal.required.len() && !self.goal.permits(self.command()) {
            self.refused().skipped()
        } else {
            self
        }
    }

    /// The state of the run when all commands are settled: verified iff every
    /// command passed.
    pub open spec fn concluded(self) -> StateModel {
        let verified = self.passed == self.goal.required.len() && self.failures.len() == 0;
        StateModel {
            commands_passed: self.passed,
            verified,
            guard_phase: if verified {
                "verified"@
            } else {
                "open"@
            },
            verified_digest: if verified {
                self.digest
            } else {
                Seq::empty()
            },
            ..self.state
        }
    }

    /// The event that ends the verification.
    pub open spec fn closing_event(self) -> EffectModel {
        if self.concluded().verified {
            passed_event(self.goal.required, self.passed)
        } else {
            failed_event("command_failed"@, text::joined(self.failures, "; "@))
        }
    }

    /// The last turn.
    pub open spec fn ending(self) -> TurnModel {
        TurnModel {
            effects: seq![self.closing_event(), EffectModel::SaveState(self.concluded())],
            next: NextModel::Finished(
                plan::status_of(self.run_id, self.concluded(), self.receipts.len()),
            ),
        }
    }

    /// The turn that goes on with the next command that may be run.
    pub open spec fn resumed(self) -> TurnModel {
        let w = self.skipped();
        if w.index < w.goal.required.len() {
            TurnModel { effects: Seq::empty(), next: NextModel::Key(w) }
        } else {
            w.ending()
        }
    }

    /// The turn after the key of the command to settle is known: a receipt under
    /// that key is used again, else the command is run.
    pub open spec fn keyed(self, keys: KeysModel) -> TurnModel {
        match store::keyed(self.receipts, keys.key) {
            Some(r) => self.settled(r).resumed().after(
                seq![reused_event(r.receipt_id, self.command())],
            ),
            None => TurnModel {
                effects: seq![executed_event(self.command())],
                next: NextModel::Run(self, keys),
            },
        }
    }

    /// The receipt of the command to settle is written.
    pub open spec fn recorded(self, r: ReceiptModel) -> WorkModel {
        WorkModel {
            state: StateModel {
                receipts_created: self.state.receipts_created + 1,
                ..self.state
            },
            receipts: self.receipts.push(r),
            ..self
        }
    }

    /// The state that is left where the verification is cut short.
    pub open spec fn cut(self) -> StateModel {
        StateModel { verified: false, guard_phase: "open"@, ..self.state }
    }

    /// The turn after the command to settle was run: its receipt is written
    /// before anything else is said of it.
    pub open spec fn ran(self, keys: KeysModel, result: ShellModel) -> TurnModel {
        let r = minted(self, keys, result);
        let w = self.recorded(r);
        let written = seq![
            EffectModel::SaveReceipt(r),
            created_event(keys.receipt_id, self.command(), keys.key),
        ];
        if self.crash == Some(w.state.receipts_created) {
            TurnModel {
                effects: written.push(EffectModel::SaveState(w.cut())),
                next: NextModel::Finished(plan::status_of(w.run_id, w.cut(), w.receipts.len())),
            }
        } else {
            w.settled(r).resumed().after(written)
        }
    }
}

/// The verification at its start, with nothing out of scope.
pub open spec fn opened(
    goal: GoalModel,
    state: StateModel,
    run_id: Seq<char>,
    digest: Seq<char>,
    receipts: Seq<ReceiptModel>,
    rerun: bool,
    crash: Option<nat>,
) -> WorkModel {
    WorkModel {
        run_id,
        goal,
        state: StateModel { out_of_scope: 0, commands_required: goal.required.len(), ..state },
        digest,
        receipts,
        rerun,
        crash,
        index: 0,
        passed: 0,
        failures: Seq::empty(),
    }
}

/// The state of a run with files out of scope: not verified, and open.
pub open spec fn gated(state: StateModel, count: nat) -> StateModel {
    StateModel { out_of_scope: count, verified: false, guard_phase: "open"@, ..state }
}

/// What is said of files out of scope.
pub open spec fn gate_summary(paths: Seq<Seq<char>>) -> Seq<char> {
    text::decimal(paths.len()) + " out-of-scope write(s): "@ + text::joined(paths, ", "@)
}

/// The first turn of a verification. Files out of scope end it before any
/// command is run.
pub open spec fn first_turn(
    goal: GoalModel,
    state: StateModel,
    run_id: Seq<char>,
    tree: TreeModel,
    receipts: Seq<ReceiptModel>,
    rerun: bool,
    crash: Option<nat>,
) -> TurnModel {
    let outs = plan::outside(goal, tree);
    if outs.len() > 0 {
        TurnModel {
            effects: scope_events(goal, outs) + seq![
                failed_event("out_of_scope"@, gate_summary(outs)),
                EffectModel::SaveState(gated(state, outs.len())),
            ],
            next: NextModel::Finished(
                plan::status_of(run_id, gated(state, outs.len()), receipts.len()),
            ),
        }
    } else {
        opened(goal, state, run_id, tree.digest, receipts, rerun, crash).resumed()
    }
}

// ----- the functions -----

impl Work {
    /// The key's input of the command to settle.
    fn key_input(&self) -> (r: serde_json::Value)
        requires
            self@.at_command(),
        ensures
            json::json_of(r) == self@.input(),
    {
        assert(self@.command() == self.spec.required@[self.index as int]@);
        let command: &String = &self.spec.required[self.index];
        let mut input: serde_json::Value = json::object();
        json::set(&mut input, "command", json::from_text(command.as_str()));
        json::set(&mut input, "cwd", json::from_text("."));
        json::set(&mut input, "tree", json::from_text(self.digest.as_str()));
        if self.rerun {
            let attempts: usize = store::count_about(&self.receipts, command);
            json::set(&mut input, "rerun", json::from_u64(attempts as u64));
        }
        input
    }

    /// Takes all commands that may not be run, up to the next that may, as
    /// failures.
    fn skip(self) -> (r: Work)
        requires
            self@.wf(),
        ensures
            r@ == self@.skipped(),
            r@.wf(),
            r@.index < r@.goal.required.len() ==> r@.at_command(),
    {
        let mut work: Work = self;
        let n: usize = work.spec.required.len();
        while work.index < n && !work.spec.command_allowed(&work.spec.required[work.index])
            invariant
                n == work@.goal.required.len(),
                n == work.spec.required.len(),
                work@.wf(),
                work@.skipped() == self@.skipped(),
            decreases n - work.index,
        {
            let ghost was = work@;
            assert(was.command() == work.spec.required@[work.index as int]@);
            let mut line: String = "`".to_string();
            line.append(work.spec.required[work.index].as_str());
            line.append("` is required but not in allow.shell");
            let ghost fails = text::texts(work.failures@);
            work.failures.push(line);
            assert(text::texts(work.failures@) =~= fails.push(line@));
            work.index = work.index + 1;
            assert(work@ == was.refused());
        }
        assert(work.index < n ==> work@.command() == work.spec.required@[work.index as int]@);
        work
    }

    /// Settles the command with its receipt.
    fn settle(self, receipt: &Receipt) -> (r: Work)
        requires
            self@.passed <= self@.index < self@.goal.required.len(),
            self@.state.receipts_created + self@.goal.required.len() - self@.index
                <= usize::MAX + 1,
        ensures
            r@ == self@.settled(receipt@),
            r@.wf(),
    {
        let mut work: Work = self;
        let n: usize = work.spec.required.len();
        assert(work.passed <= work.index < n);
        if store::receipt_passed(receipt) {
            work.passed = work.passed + 1;
        } else {
            assert(self@.command() == work.spec.required@[work.index as int]@);
            let mut line: String = work.spec.required[work.index].clone();
            line.append(": exit ");
            match json::i64_member(&receipt.output, "exit_code") {
                Some(code) => {
                    line.append(text::print_i64(code).as_str());
                },
                None => {
                    line.append("timeout");
                },
            }
            let ghost fails = text::texts(work.failures@);
            work.failures.push(line);
            assert(text::texts(work.failures@) =~= fails.push(line@));
        }
        work.index = work.index + 1;
        work
    }

    /// Ends the verification, with some records before the last ones.
    fn end(self, before: Vec<Effect>) -> (r: Turn)
        requires
            self@.wf(),
        ensures
            r@ == self@.ending().after(effect_models(before@)),
            r.next.wf(),
    {
        let mut effects: Vec<Effect> = before;
        let ghost first = effect_models(effects@);
        let required: usize = self.spec.required.len();
        assert(text::texts(self.failures@).len() == self.failures@.len());
        let verified: bool = self.passed == required && self.failures.len() == 0;
        let mut state: RunState = self.state.clone();
        state.commands_passed = self.passed;
        state.verified = verified;
        let closing: Effect;
        if verified {
            state.guard_phase = "verified".to_string();
            state.verified_digest = self.digest.clone();
            let mut summary: String = text::print_u64(self.passed as u64);
            summary.append(" command(s) passed");
            let mut payload: serde_json::Value = json::object();
            json::set(
                &mut payload,
                "commands",
                json::from_strings(text::copy_texts(&self.spec.required)),
            );
            json::set(&mut payload, "summary", json::from_text(summary.as_str()));
            closing = append(EventKind::VerifyPassed, payload);
        } else {
            state.guard_phase = "open".to_string();
            state.verified_digest = String::new();
            assert(state.verified_digest@ =~= Seq::<char>::empty());
            let summary: String = text::join(&self.failures, "; ");
            closing = failed_record("command_failed", &summary);
        }
        assert(state@ == self@.concluded());
        assert(closing@ == self@.closing_event());
        let receipts: usize = self.receipts.len();
        assert(store::ledger(self.receipts@).len() == receipts);
        let status: GuardStatus = plan::status_line(&self.run_id, &state, receipts);
        let saved: Effect = Effect::SaveState(state);
        effects.push(closing);
        effects.push(saved);
        assert(effect_models(effects@) =~= first + seq![closing@, saved@]);
        Turn { effects, next: Next::Finished(status) }
    }

    /// Goes on with the next command that may be run.
    fn resume(self, before: Vec<Effect>) -> (r: Turn)
        requires
            self@.wf(),
        ensures
            r@ == self@.resumed().after(effect_models(before@)),
            r.next.wf(),
    {
        let work: Work = self.skip();
        if work.index < work.spec.required.len() {
            assert(work@.command() == work.spec.required@[work.index as int]@);
            let mut action_id: String = "verify:".to_string();
            action_id.append(work.spec.required[work.index].as_str());
            let input: serde_json::Value = work.key_input();
            assert(effect_models(before@) + Seq::<EffectModel>::empty() =~= effect_models(before@));
            Turn { effects: before, next: Next::Key(KeyRequest { work, action_id, input }) }
        } else {
            work.end(before)
        }
    }
}

fn failed_record(reason: &str, summary: &String) -> (r: Effect)
    ensures
        r@ == failed_event(reason@, summary@),
{
    let mut payload: serde_json::Value = json::object();
    json::set(&mut payload, "reason", json::from_text(reason));
    json::set(&mut payload, "summary", json::from_text(summary.as_str()));
    append(EventKind::VerifyFailed, payload)
}

impl KeyRequest {
    /// Answers the request: the key of the command is known.
    pub fn answer(self, keys: Keys) -> (r: Turn)
        requires
            self.wf(),
        ensures
            r@ == self.work@.keyed(keys@),
            r.next.wf(),
    {
        let KeyRequest { work, action_id: _, input } = self;
        assert(work@.command() == work.spec.required@[work.index as int]@);
        let command: String = work.spec.required[work.index].clone();
        match store::find_receipt_by_key(&work.receipts, &keys.key) {
            Some(existing) => {
                let mut payload: serde_json::Value = json::object();
                json::set(&mut payload, "receipt_id", json::from_text(existing.receipt_id.as_str()));
                json::set(&mut payload, "command", json::from_text(command.as_str()));
                let reused: Effect = append(EventKind::ReceiptReused, payload);
                let effects: Vec<Effect> = vec![reused];
                assert(effect_models(effects@) =~= seq![reused@]);
                work.settle(&existing).resume(effects)
            },
            None => {
                let mut payload: serde_json::Value = json::object();
                json::set(&mut payload, "command", json::from_text(command.as_str()));
                json::set(&mut payload, "cwd", json::from_text("."));
                let executed: Effect = append(EventKind::ShellExecuted, payload);
                let effects: Vec<Effect> = vec![executed];
                assert(effect_models(effects@) =~= seq![executed@]);
                Turn { effects, next: Next::Run(RunRequest { work, command, input, keys }) }
            },
        }
    }
}

impl RunRequest {
    /// Answers the request: the command was run and ended so.
    pub fn answer(self, result: ShellResult) -> (r: Turn)
        requires
            self.wf(),
        ensures
            r@ == self.work@.ran(self.keys@, result@),
            r.next.wf(),
    {
        let ghost was = self.work@;
        let ghost keyed = self.keys@;
        let RunRequest { work, command, input, keys } = self;
        let mut work: Work = work;
        let mut action_id: String = "verify:".to_string();
        action_id.append(command.as_str());
        let mut event_id: String = "evt_".to_string();
        event_id.append(text::print_padded(result.seq, 6).as_str());
        let receipt: Receipt = Receipt {
            receipt_id: keys.receipt_id.clone(),
            idempotency_key: keys.key.clone(),
            action_id,
            tool: "shell.run".to_string(),
            input,
            output: output_value(&result),
            run_id: work.run_id.clone(),
            step: (work.state.receipts_created + 1) as u64,
            effect: "shell.run".to_string(),
            input_hash: keys.input_hash.clone(),
            approval_id: None,
            created_event_id: event_id,
        };
        assert(receipt@ == minted(was, keyed, result@));
        let mut payload: serde_json::Value = json::object();
        json::set(&mut payload, "receipt_id", json::from_text(receipt.receipt_id.as_str()));
        json::set(&mut payload, "command", json::from_text(command.as_str()));
        json::set(&mut payload, "idempotency_key", json::from_text(keys.key.as_str()));
        let created: Effect = append(EventKind::ReceiptCreated, payload);
        let written: Effect = Effect::SaveReceipt(receipt.clone());
        let mut effects: Vec<Effect> = vec![written, created];
        assert(effect_models(effects@) =~= seq![written@, created@]);
        let ghost kept = store::ledger(work.receipts@);
        work.receipts.push(receipt.clone());
        assert(store::ledger(work.receipts@) =~= kept.push(receipt@));
        work.state.receipts_created = work.state.receipts_created + 1;
        assert(work@ == was.recorded(receipt@));
        let cut_short: bool = match work.crash {
            Some(GuardCrash::AfterReceipt(n)) => n == work.state.receipts_created,
            None => false,
        };
        if cut_short {
            let mut state: RunState = work.state.clone();
            state.verified = false;
            state.guard_phase = "open".to_string();
            assert(state@ == work@.cut());
            let receipts: usize = work.receipts.len();
            assert(store::ledger(work.receipts@).len() == receipts);
            let status: GuardStatus = plan::status_line(&work.run_id, &state, receipts);
            let saved: Effect = Effect::SaveState(state);
            let ghost first = effect_models(effects@);
            effects.push(saved);
            assert(effect_models(effects@) =~= first.push(saved@));
            return Turn { effects, next: Next::Finished(status) };
        }
        work.settle(&receipt).resume(effects)
    }
}

/// Begins a verification.
pub fn verify(
    record: &GoalRecord,
    state: &RunState,
    run_id: &String,
    tree: &Tree,
    receipts: &Vec<Receipt>,
    rerun: bool,
) -> (r: Result<Turn, GuardError>)
    requires
        tree.wf(),
        state.receipts_created + record.spec@.required.len() <= usize::MAX,
    ensures
        r is Ok <==> plan::session_error(*record, run_id@) is None,
        r matches Err(e) ==> plan::session_error(*record, run_id@) == Some(e@),
        r matches Ok(turn) ==> turn.next.wf() && turn@ == first_turn(
            record.spec@,
            state@,
            run_id@,
            tree@,
            store::ledger(receipts@),
            rerun,
            None,
        ),
{
    verify_inner(record, state, run_id, tree, receipts, rerun, None)
}

/// Begins a verification that may be cut short after a receipt.
pub fn verify_inner(
    record: &GoalRecord,
    state: &RunState,
    run_id: &String,
    tree: &Tree,
    receipts: &Vec<Receipt>,
    rerun: bool,
    crash: Option<GuardCrash>,
) -> (r: Result<Turn, GuardError>)
    requires
        tree.wf(),
        state.receipts_created + record.spec@.required.len() <= usize::MAX,
    ensures
        r is Ok <==> plan::session_error(*record, run_id@) is None,
        r matches Err(e) ==> plan::session_error(*record, run_id@) == Some(e@),
        r matches Ok(turn) ==> turn.next.wf() && turn@ == first_turn(
            record.spec@,
            state@,
            run_id@,
            tree@,
            store::ledger(receipts@),
            rerun,
            crash_at(crash),
        ),
{
    if let Err(e) = plan::session(record, run_id) {
        return Err(e);
    }
    let spec: &GoalSpec = &record.spec;
    let scope: ScopeDiff = plan::scope_diff(tree, spec);
    assert(text::texts(scope.out_of_scope@).len() == scope.out_of_scope@.len());
    let count: usize = scope.out_of_scope.len();
    let mut now: RunState = state.clone();
    if count > 0 {
        let mut effects: Vec<Effect> = scope_records(spec, &scope.out_of_scope);
        let mut summary: String = text::print_u64(count as u64);
        summary.append(" out-of-scope write(s): ");
        summary.append(text::join(&scope.out_of_scope, ", ").as_str());
        now.out_of_scope = count;
        now.verified = false;
        now.guard_phase = "open".to_string();
        assert(now@ == gated(state@, count as nat));
        let failed: Effect = failed_record("out_of_scope", &summary);
        assert(store::ledger(receipts@).len() == receipts@.len());
        let status: GuardStatus = plan::status_line(run_id, &now, receipts.len());
        let saved: Effect = Effect::SaveState(now);
        let ghost first = effect_models(effects@);
        effects.push(failed);
        effects.push(saved);
        assert(effect_models(effects@) =~= first + seq![failed@, saved@]);
        return Ok(Turn { effects, next: Next::Finished(status) });
    }
    now.out_of_scope = 0;
    now.commands_required = spec.required.len();
    let work: Work = Work {
        run_id: run_id.clone(),
        spec: spec.clone(),
        state: now,
        digest: tree.digest.clone(),
        receipts: store::copy_receipts(receipts),
        rerun,
        crash,
        index: 0,
        passed: 0,
        failures: Vec::new(),
    };
    assert(text::texts(work.failures@) =~= Seq::empty());
    let ghost start = opened(
        spec@,
        state@,
        run_id@,
        tree@.digest,
        store::ledger(receipts@),
        rerun,
        crash_at(crash),
    );
    assert(work@ == start);
    let none: Vec<Effect> = Vec::new();
    assert(effect_models(none@) =~= Seq::empty());
    assert(start.resumed().after(Seq::empty()) == start.resumed()) by {
        assert(Seq::empty() + start.resumed().effects =~= start.resumed().effects);
    }
    Ok(work.resume(none))
}

} // verus!
