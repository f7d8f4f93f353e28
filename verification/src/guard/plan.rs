//! What a session looks like now, and what its agent should do next.
use crate::event::{self, Event, EventModel};
use crate::goal::{GoalModel, GoalSpec};
use crate::guard::packets::{
    self, AgentContext, ChangedFiles, ErrorKind, ErrorModel, GuardContext, GuardDiff, GuardError,
    GuardNext, GuardStatus, GuardVerify, PreferredNextAction, ReceiptSummary, Rejection,
    RejectionModel, ScopeViolation, StatusModel, SummaryModel, Tree, TreeModel, ViolationModel,
};
use crate::glob;
use crate::json;
use crate::snapshot::{self, Diff};
use crate::store::{self, GoalRecord, Receipt, ReceiptModel, RunState, StateModel};
use crate::text;
use vstd::prelude::*;
use vstd::string::*;

verus! {

// ----- the session -----

/// The error of a run that is no guard session.
pub open spec fn not_a_session(run_id: Seq<char>, kind: Seq<char>) -> ErrorModel {
    ErrorModel {
        kind: ErrorKind::InvalidInput,
        message: "run `"@ + run_id + "` is a `"@ + kind + "` run, not a guard session"@,
    }
}

/// The error that every request is answered with where the run is no guard
/// session; nothing for a guard session.
pub open spec fn session_error(record: GoalRecord, run_id: Seq<char>) -> Option<ErrorModel> {
    if record.kind@ != "coding"@ {
        Some(not_a_session(run_id, record.kind@))
    } else {
        None
    }
}

/// Rejects the record of a run that is no guard session.
pub fn session(record: &GoalRecord, run_id: &String) -> (r: Result<(), GuardError>)
    ensures
        r is Ok <==> session_error(*record, run_id@) is None,
        r matches Err(e) ==> session_error(*record, run_id@) == Some(e@),
{
    if text::same(&record.kind, "coding") {
        Ok(())
    } else {
        let mut message: String = "run `".to_string();
        message.append(run_id.as_str());
        message.append("` is a `");
        message.append(record.kind.as_str());
        message.append("` run, not a guard session");
        Err(GuardError { kind: ErrorKind::InvalidInput, message })
    }
}

// ----- the write scope -----

/// The changed files that the goal allows to be written.
pub open spec fn inside(goal: GoalModel, tree: TreeModel) -> Seq<Seq<char>> {
    tree.diff().all().filter(|p: Seq<char>| goal.writable(p))
}

/// The changed files that the goal does not allow to be written.
pub open spec fn outside(goal: GoalModel, tree: TreeModel) -> Seq<Seq<char>> {
    tree.diff().all().filter(|p: Seq<char>| !goal.writable(p))
}

/// What changed, parted by the write scope.
#[derive(Debug)]
pub struct ScopeDiff {
    pub diff: Diff,
    pub in_scope: Vec<String>,
    pub out_of_scope: Vec<String>,
}

/// Whether the goal allows a file to be written.
fn may_write(spec: &GoalSpec, path: &String) -> (r: bool)
    ensures
        r == spec@.writable(path@),
{
    match spec.allowed_writes() {
        Some(globs) => glob::any_match(globs, path.as_str()),
        None => true,
    }
}

/// Compares the live tree with the one the session began with, and parts the
/// changed files by the goal's write scope.
pub fn scope_diff(tree: &Tree, spec: &GoalSpec) -> (r: ScopeDiff)
    requires
        tree.wf(),
    ensures
        r.diff@ == tree@.diff(),
        text::texts(r.in_scope@) == inside(spec@, tree@),
        text::texts(r.out_of_scope@) == outside(spec@, tree@),
{
    let diff: Diff = snapshot::diff(&tree.baseline, &tree.head);
    let changed: Vec<String> = diff.changed();
    let ghost all = tree@.diff().all();
    let ghost yes = |p: Seq<char>| spec@.writable(p);
    let ghost no = |p: Seq<char>| !spec@.writable(p);
    let mut in_scope: Vec<String> = Vec::new();
    let mut out_of_scope: Vec<String> = Vec::new();
    let n: usize = changed.len();
    let mut i: usize = 0;
    assert(all.take(0).filter(yes) =~= Seq::empty() && all.take(0).filter(no) =~= Seq::empty()) by {
        reveal(Seq::filter);
    }
    assert(text::texts(in_scope@) =~= Seq::empty());
    assert(text::texts(out_of_scope@) =~= Seq::empty());
    while i < n
        invariant
            n == changed.len(),
            i <= n,
            all == text::texts(changed@),
            yes == (|p: Seq<char>| spec@.writable(p)),
            no == (|p: Seq<char>| !spec@.writable(p)),
            text::texts(in_scope@) == all.take(i as int).filter(yes),
            text::texts(out_of_scope@) == all.take(i as int).filter(no),
        decreases n - i,
    {
        let ghost p = all[i as int];
        let ghost ins = text::texts(in_scope@);
        let ghost outs = text::texts(out_of_scope@);
        assert(all.take(i + 1).filter(yes) == (if yes(p) {
            ins.push(p)
        } else {
            ins
        }) && all.take(i + 1).filter(no) == (if no(p) {
            outs.push(p)
        } else {
            outs
        })) by {
            reveal(Seq::filter);
            assert(all.take(i + 1).drop_last() =~= all.take(i as int));
        }
        if may_write(spec, &changed[i]) {
            in_scope.push(changed[i].clone());
            assert(text::texts(in_scope@) =~= ins.push(p));
        } else {
            out_of_scope.push(changed[i].clone());
            assert(text::texts(out_of_scope@) =~= outs.push(p));
        }
        i = i + 1;
    }
    assert(all.take(n as int) =~= all);
    ScopeDiff { diff, in_scope, out_of_scope }
}

// ----- plain reads -----

/// The status line of a run.
pub open spec fn status_of(run_id: Seq<char>, state: StateModel, receipts: nat) -> StatusModel {
    StatusModel {
        run_id,
        goal: state.goal,
        phase: state.guard_phase,
        verified: state.verified,
        commands_required: state.commands_required,
        commands_passed: state.commands_passed,
        out_of_scope: state.out_of_scope,
        receipts,
        step: state.step,
    }
}

/// The status line of a run with so many receipts.
pub fn status_line(run_id: &String, state: &RunState, receipts: usize) -> (r: GuardStatus)
    ensures
        r@ == status_of(run_id@, state@, receipts as nat),
{
    GuardStatus {
        run_id: run_id.clone(),
        goal: state.goal.clone(),
        phase: state.guard_phase.clone(),
        verified: state.verified,
        commands_required: state.commands_required,
        commands_passed: state.commands_passed,
        out_of_scope: state.out_of_scope,
        receipts,
        step: state.step,
    }
}

/// The status line of a session.
pub fn status(
    record: &GoalRecord,
    state: &RunState,
    run_id: &String,
    receipts: &Vec<Receipt>,
) -> (r: Result<GuardStatus, GuardError>)
    ensures
        r is Ok <==> session_error(*record, run_id@) is None,
        r matches Ok(s) ==> s@ == status_of(run_id@, state@, receipts@.len()),
        r matches Err(e) ==> session_error(*record, run_id@) == Some(e@),
{
    match session(record, run_id) {
        Ok(_) => Ok(status_line(run_id, state, receipts.len())),
        Err(e) => Err(e),
    }
}

/// The one statement of "you are done", shared by every packet.
pub open spec fn done_text() -> Seq<char> {
    "`tach guard status --json` reports verified=true, then finalize with `tach guard finalize`"@
}

fn done_condition() -> (r: String)
    ensures
        r@ == done_text(),
{
    "`tach guard status --json` reports verified=true, then finalize with `tach guard finalize`".to_string()
}

/// The required action by the phase of a session.
pub open spec fn required_action(phase: Seq<char>) -> Seq<char> {
    if phase == "verified"@ {
        "run `tach guard commit` to finalize the verified changes"@
    } else if phase == "committed"@ {
        "done — this run is committed"@
    } else if phase == "aborted"@ {
        "this run was aborted; begin a new one"@
    } else {
        "edit files within allowed_files, then run `tach guard verify`"@
    }
}

/// What an agent must not do.
pub open spec fn forbidden_json() -> json::Json {
    json::Json::Object(
        map![
            "out_of_scope_writes"@ => json::Json::Str("edits outside allowed_files are rejected at verify and block commit"@),
            "unallowlisted_commands"@ => json::Json::Str("only allowed_commands are run by tach"@),
        ],
    )
}

/// The operating contract of a session.
pub fn context(
    record: &GoalRecord,
    state: &RunState,
    run_id: &String,
    events: &Vec<Event>,
) -> (r: Result<GuardContext, GuardError>)
    ensures
        r is Ok <==> session_error(*record, run_id@) is None,
        r matches Err(e) ==> session_error(*record, run_id@) == Some(e@),
        r matches Ok(c) ==> {
            &&& c.goal@ == state.goal@
            &&& c.run_id@ == run_id@
            &&& c.phase@ == state.guard_phase@
            &&& text::texts(c.allowed_files@) == record.spec@.fs_write
            &&& text::texts(c.allowed_commands@) == record.spec@.shell
            &&& json::json_of(c.forbidden) == forbidden_json()
            &&& text::opt_text(c.current_failure) == event::failure(event::history(events@))
            &&& c.next_required_action@ == required_action(state.guard_phase@)
            &&& c.done_condition@ == done_text()
            &&& c.verified == state.verified
        },
{
    if let Err(e) = session(record, run_id) {
        return Err(e);
    }
    let next: String = if text::same(&state.guard_phase, "verified") {
        "run `tach guard commit` to finalize the verified changes".to_string()
    } else if text::same(&state.guard_phase, "committed") {
        "done — this run is committed".to_string()
    } else if text::same(&state.guard_phase, "aborted") {
        "this run was aborted; begin a new one".to_string()
    } else {
        "edit files within allowed_files, then run `tach guard verify`".to_string()
    };
    let mut forbidden: serde_json::Value = json::object();
    json::set(
        &mut forbidden,
        "out_of_scope_writes",
        json::from_text("edits outside allowed_files are rejected at verify and block commit"),
    );
    json::set(
        &mut forbidden,
        "unallowlisted_commands",
        json::from_text("only allowed_commands are run by tach"),
    );
    Ok(
        GuardContext {
            goal: state.goal.clone(),
            run_id: run_id.clone(),
            phase: state.guard_phase.clone(),
            allowed_files: text::copy_texts(&record.spec.allow.fs_write),
            allowed_commands: text::copy_texts(&record.spec.allow.shell),
            forbidden,
            current_failure: event::last_failure(events),
            next_required_action: next,
            done_condition: done_condition(),
            verified: state.verified,
        },
    )
}

/// What changed in a session, classified by the write scope.
pub fn diff(record: &GoalRecord, run_id: &String, tree: &Tree) -> (r: Result<GuardDiff, GuardError>)
    requires
        tree.wf(),
    ensures
        r is Ok <==> session_error(*record, run_id@) is None,
        r matches Err(e) ==> session_error(*record, run_id@) == Some(e@),
        r matches Ok(d) ==> {
            &&& text::texts(d.added@) == tree@.diff().added
            &&& text::texts(d.modified@) == tree@.diff().modified
            &&& text::texts(d.deleted@) == tree@.diff().deleted
            &&& text::texts(d.in_scope@) == inside(record.spec@, tree@)
            &&& text::texts(d.out_of_scope@) == outside(record.spec@, tree@)
            &&& d.rejected == (outside(record.spec@, tree@).len() > 0)
        },
{
    if let Err(e) = session(record, run_id) {
        return Err(e);
    }
    let scope: ScopeDiff = scope_diff(tree, &record.spec);
    assert(text::texts(scope.out_of_scope@).len() == scope.out_of_scope@.len());
    let rejected: bool = scope.out_of_scope.len() > 0;
    Ok(
        GuardDiff {
            added: scope.diff.added,
            modified: scope.diff.modified,
            deleted: scope.diff.deleted,
            in_scope: scope.in_scope,
            out_of_scope: scope.out_of_scope,
            rejected,
        },
    )
}

// ----- the agent's next move -----

/// What an agent is told: a status label, the next action, the command to run
/// and instructions.
pub struct MoveModel {
    pub status: Seq<char>,
    pub action: Seq<char>,
    pub command: Seq<char>,
    pub instructions: Seq<Seq<char>>,
}

/// What an agent is told.
#[derive(Debug)]
pub struct AgentMove {
    pub status_label: &'static str,
    pub next_action: &'static str,
    pub recommended_command: String,
    pub instructions: Vec<String>,
}

impl View for AgentMove {
    type V = MoveModel;

    open spec fn view(&self) -> MoveModel {
        MoveModel {
            status: self.status_label@,
            action: self.next_action@,
            command: self.recommended_command@,
            instructions: text::texts(self.instructions@),
        }
    }
}

/// The move an agent should make. Terminal phases come first, then a goal that
/// cannot be met, then the write scope, then the state of the verification.
pub open spec fn move_for(
    phase: Seq<char>,
    verified: bool,
    digest_matches: bool,
    n_violations: nat,
    has_changes: bool,
    cmd_misconfigured: bool,
    command_failing: bool,
) -> MoveModel {
    if phase == "committed"@ {
        MoveModel {
            status: "finalized"@,
            action: "done"@,
            command: Seq::empty(),
            instructions: seq![
                "This run is finalized in Tach's ledger. Begin a new session for more work."@,
            ],
        }
    } else if phase == "aborted"@ {
        MoveModel {
            status: "aborted"@,
            action: "aborted"@,
            command: Seq::empty(),
            instructions: seq![
                "This run was aborted. Run `tach guard begin <Goal>` to start over."@,
            ],
        }
    } else if cmd_misconfigured {
        MoveModel {
            status: "blocked"@,
            action: "blocked"@,
            command: Seq::empty(),
            instructions: seq![
                "A required command is not in the goal's allow.shell list, so Tach cannot run it."@,
                "This is a goal-configuration problem: a human must fix the Tachfile."@,
            ],
        }
    } else if n_violations > 0 {
        MoveModel {
            status: "blocked"@,
            action: "fix_scope_violation"@,
            command: "tach guard diff --json"@,
            instructions: seq![
                "You changed files outside allowed_files. Revert them, or move the change into scope."@,
                "Run `tach guard diff --json` to see exactly which files are out of scope."@,
                "Out-of-scope writes block verify and finalize until reverted."@,
            ],
        }
    } else if verified && digest_matches {
        MoveModel {
            status: "verified"@,
            action: "finalize"@,
            command: "tach guard finalize"@,
            instructions: seq![
                "All required commands passed and no out-of-scope files changed."@,
                "Run `tach guard finalize` to record this run in Tach's ledger (this never touches git)."@,
            ],
        }
    } else if verified {
        MoveModel {
            status: "editing"@,
            action: "run_verify"@,
            command: "tach guard verify"@,
            instructions: seq![
                "The tree changed since the last verify. Run `tach guard verify` again before finalizing."@,
            ],
        }
    } else if command_failing {
        MoveModel {
            status: "editing"@,
            action: "edit_then_verify"@,
            command: "tach guard verify"@,
            instructions: seq![
                "A required command is still failing. Edit files within allowed_files to fix it."@,
                "Then run `tach guard verify`; do not claim done until verified=true."@,
            ],
        }
    } else if has_changes {
        MoveModel {
            status: "editing"@,
            action: "run_verify"@,
            command: "tach guard verify"@,
            instructions: seq![
                "You have in-scope changes that are not yet verified."@,
                "Run `tach guard verify` to run the required commands and set the verified bit."@,
            ],
        }
    } else {
        MoveModel {
            status: "editing"@,
            action: "edit_then_verify"@,
            command: "tach guard verify"@,
            instructions: seq![
                "Edit only files matching allowed_files."@,
                "After editing, run `tach guard verify`. Do not claim done until verified=true."@,
            ],
        }
    }
}

fn one_line(a: &str) -> (r: Vec<String>)
    ensures
        text::texts(r@) == seq![a@],
{
    let r: Vec<String> = vec![a.to_string()];
    assert(text::texts(r@) =~= seq![a@]);
    r
}

fn two_lines(a: &str, b: &str) -> (r: Vec<String>)
    ensures
        text::texts(r@) == seq![a@, b@],
{
    let r: Vec<String> = vec![a.to_string(), b.to_string()];
    assert(text::texts(r@) =~= seq![a@, b@]);
    r
}

fn three_lines(a: &str, b: &str, c: &str) -> (r: Vec<String>)
    ensures
        text::texts(r@) == seq![a@, b@, c@],
{
    let r: Vec<String> = vec![a.to_string(), b.to_string(), c.to_string()];
    assert(text::texts(r@) =~= seq![a@, b@, c@]);
    r
}

/// The state machine an agent follows.
pub fn agent_state(
    phase: &String,
    verified: bool,
    digest_matches: bool,
    n_violations: usize,
    has_changes: bool,
    cmd_misconfigured: bool,
    command_failing: bool,
) -> (r: AgentMove)
    ensures
        r@ == move_for(
            phase@,
            verified,
            digest_matches,
            n_violations as nat,
            has_changes,
            cmd_misconfigured,
            command_failing,
        ),
{
    let nothing: String = String::new();
    assert(nothing@ =~= Seq::<char>::empty());
    if text::same(phase, "committed") {
        AgentMove {
            status_label: "finalized",
            next_action: "done",
            recommended_command: nothing,
            instructions: one_line(
                "This run is finalized in Tach's ledger. Begin a new session for more work.",
            ),
        }
    } else if text::same(phase, "aborted") {
        AgentMove {
            status_label: "aborted",
            next_action: "aborted",
            recommended_command: nothing,
            instructions: one_line(
                "This run was aborted. Run `tach guard begin <Goal>` to start over.",
            ),
        }
    } else if cmd_misconfigured {
        AgentMove {
            status_label: "blocked",
            next_action: "blocked",
            recommended_command: nothing,
            instructions: two_lines(
                "A required command is not in the goal's allow.shell list, so Tach cannot run it.",
                "This is a goal-configuration problem: a human must fix the Tachfile.",
            ),
        }
    } else if n_violations > 0 {
        AgentMove {
            status_label: "blocked",
            next_action: "fix_scope_violation",
            recommended_command: "tach guard diff --json".to_string(),
            instructions: three_lines(
                "You changed files outside allowed_files. Revert them, or move the change into scope.",
                "Run `tach guard diff --json` to see exactly which files are out of scope.",
                "Out-of-scope writes block verify and finalize until reverted.",
            ),
        }
    } else if verified && digest_matches {
        AgentMove {
            status_label: "verified",
            next_action: "finalize",
            recommended_command: "tach guard finalize".to_string(),
            instructions: two_lines(
                "All required commands passed and no out-of-scope files changed.",
                "Run `tach guard finalize` to record this run in Tach's ledger (this never touches git).",
            ),
        }
    } else if verified {
        AgentMove {
            status_label: "editing",
            next_action: "run_verify",
            recommended_command: "tach guard verify".to_string(),
            instructions: one_line(
                "The tree changed since the last verify. Run `tach guard verify` again before finalizing.",
            ),
        }
    } else if command_failing {
        AgentMove {
            status_label: "editing",
            next_action: "edit_then_verify",
            recommended_command: "tach guard verify".to_string(),
            instructions: two_lines(
                "A required command is still failing. Edit files within allowed_files to fix it.",
                "Then run `tach guard verify`; do not claim done until verified=true.",
            ),
        }
    } else if has_changes {
        AgentMove {
            status_label: "editing",
            next_action: "run_verify",
            recommended_command: "tach guard verify".to_string(),
            instructions: two_lines(
                "You have in-scope changes that are not yet verified.",
                "Run `tach guard verify` to run the required commands and set the verified bit.",
            ),
        }
    } else {
        AgentMove {
            status_label: "editing",
            next_action: "edit_then_verify",
            recommended_command: "tach guard verify".to_string(),
            instructions: two_lines(
                "Edit only files matching allowed_files.",
                "After editing, run `tach guard verify`. Do not claim done until verified=true.",
            ),
        }
    }
}

// ----- the plan -----

/// The tree is the one that was verified.
pub open spec fn still_verified(state: StateModel, tree: TreeModel) -> bool {
    state.verified && tree.digest == state.verified_digest
}

/// A command failed in the last verification: nothing is out of scope, every
/// required command may be run, and it was not the write scope that failed.
pub open spec fn command_failing(
    goal: GoalModel,
    state: StateModel,
    tree: TreeModel,
    failure: Option<Seq<char>>,
) -> bool {
    &&& !state.verified
    &&& outside(goal, tree).len() == 0
    &&& !goal.misconfigured()
    &&& state.commands_required > 0
    &&& state.commands_passed < state.commands_required
    &&& failure matches Some(summary) && !text::occurs("out-of-scope"@, summary)
}

/// The move of the agent, given the goal, the state, the live tree and the last
/// failure.
pub open spec fn next_move(
    goal: GoalModel,
    state: StateModel,
    tree: TreeModel,
    failure: Option<Seq<char>>,
) -> MoveModel {
    move_for(
        state.guard_phase,
        state.verified,
        still_verified(state, tree),
        outside(goal, tree).len(),
        tree.diff().all().len() > 0,
        goal.misconfigured(),
        command_failing(goal, state, tree, failure),
    )
}

/// The violation that a file out of scope is.
pub open spec fn violation(goal: GoalModel, path: Seq<char>) -> ViolationModel {
    ViolationModel { path, reason: "not allowed by fs.write"@, allowed: goal.fs_write }
}

/// The violations in the live tree.
pub open spec fn violations_in(goal: GoalModel, tree: TreeModel) -> Seq<ViolationModel> {
    outside(goal, tree).map_values(|p: Seq<char>| violation(goal, p))
}

/// All that the packets for agents need, computed from one view of the tree.
#[derive(Debug)]
pub struct AgentPlan {
    pub moves: AgentMove,
    pub violations: Vec<ScopeViolation>,
    pub diff: Diff,
    pub in_scope: Vec<String>,
    pub out_of_scope: Vec<String>,
    pub current_failure: Option<String>,
    pub cmd_misconfigured: bool,
}

impl AgentPlan {
    /// The plan is the one for this goal, state, tree and history.
    pub open spec fn is_for(
        &self,
        goal: GoalModel,
        state: StateModel,
        tree: TreeModel,
        events: Seq<EventModel>,
    ) -> bool {
        &&& self.moves@ == next_move(goal, state, tree, event::failure(events))
        &&& packets::violation_models(self.violations@) == violations_in(goal, tree)
        &&& self.diff@ == tree.diff()
        &&& text::texts(self.in_scope@) == inside(goal, tree)
        &&& text::texts(self.out_of_scope@) == outside(goal, tree)
        &&& text::opt_text(self.current_failure) == event::failure(events)
        &&& self.cmd_misconfigured == goal.misconfigured()
    }
}

fn violations_of(spec: &GoalSpec, out_of_scope: &Vec<String>) -> (r: Vec<ScopeViolation>)
    ensures
        packets::violation_models(r@) == text::texts(out_of_scope@).map_values(
            |p: Seq<char>| violation(spec@, p),
        ),
{
    let ghost want = text::texts(out_of_scope@).map_values(|p: Seq<char>| violation(spec@, p));
    let mut out: Vec<ScopeViolation> = Vec::new();
    let n: usize = out_of_scope.len();
    let mut i: usize = 0;
    while i < n
        invariant
            n == out_of_scope.len(),
            i <= n,
            want == text::texts(out_of_scope@).map_values(|p: Seq<char>| violation(spec@, p)),
            packets::violation_models(out@) =~= want.take(i as int),
        decreases n - i,
    {
        let ghost done = packets::violation_models(out@);
        let v: ScopeViolation = ScopeViolation {
            path: out_of_scope[i].clone(),
            reason: "not allowed by fs.write".to_string(),
            allowed: text::copy_texts(&spec.allow.fs_write),
        };
        assert(v@ == want[i as int]) by {
            assert(text::texts(out_of_scope@)[i as int] == out_of_scope@[i as int]@);
        }
        out.push(v);
        assert(packets::violation_models(out@) =~= done.push(v@));
        i = i + 1;
    }
    out
}

/// Computes the plan. Reads only; runs no command.
pub fn compute_plan(spec: &GoalSpec, state: &RunState, tree: &Tree, events: &Vec<Event>) -> (r:
    AgentPlan)
    requires
        tree.wf(),
    ensures
        r.is_for(spec@, state@, tree@, event::history(events@)),
{
    let scope: ScopeDiff = scope_diff(tree, spec);
    assert(text::texts(scope.out_of_scope@).len() == scope.out_of_scope@.len());
    let digest_matches: bool = state.verified && tree.digest == state.verified_digest;
    let has_changes: bool = !scope.diff.is_empty();
    let cmd_misconfigured: bool = spec.is_misconfigured();
    let current_failure: Option<String> = event::last_failure(events);
    let failed_on_command: bool = match &current_failure {
        Some(summary) => !text::contains(summary.as_str(), "out-of-scope"),
        None => false,
    };
    let failing: bool = !state.verified && scope.out_of_scope.len() == 0 && !cmd_misconfigured
        && state.commands_required > 0 && state.commands_passed < state.commands_required
        && failed_on_command;
    assert(failing == command_failing(
        spec@,
        state@,
        tree@,
        event::failure(event::history(events@)),
    ));
    let moves: AgentMove = agent_state(
        &state.guard_phase,
        state.verified,
        digest_matches,
        scope.out_of_scope.len(),
        has_changes,
        cmd_misconfigured,
        failing,
    );
    let violations: Vec<ScopeViolation> = violations_of(spec, &scope.out_of_scope);
    AgentPlan {
        moves,
        violations,
        diff: scope.diff,
        in_scope: scope.in_scope,
        out_of_scope: scope.out_of_scope,
        current_failure,
        cmd_misconfigured,
    }
}

// ----- rejections -----

/// Why a verification is refused, from what is out of scope, the last failure
/// and whether the goal can be met. Nothing for a run that is clean, terminal or
/// verified.
pub open spec fn rejection_of(
    state: StateModel,
    out_of_scope: Seq<Seq<char>>,
    violations: Seq<ViolationModel>,
    failure: Option<Seq<char>>,
    misconfigured: bool,
) -> Option<RejectionModel> {
    if state.guard_phase == "committed"@ || state.guard_phase == "aborted"@ {
        None
    } else if state.verified {
        None
    } else if out_of_scope.len() > 0 {
        Some(
            RejectionModel {
                kind: "scope_violation"@,
                message: text::decimal(out_of_scope.len())
                    + " changed file(s) outside the allowed write scope."@,
                violations,
                strategies: seq![
                    "revert_out_of_scope_file"@,
                    "move_change_into_allowed_scope"@,
                    "ask_human_to_expand_goal_authority"@,
                ],
                action: "revert_file"@,
                path: Some(out_of_scope[0]),
            },
        )
    } else if misconfigured {
        Some(
            RejectionModel {
                kind: "misconfigured"@,
                message: "A required command is not allowlisted in the goal's allow.shell."@,
                violations: Seq::empty(),
                strategies: seq!["add_command_to_allow_shell"@, "ask_human_to_fix_tachfile"@],
                action: "ask_human"@,
                path: None,
            },
        )
    } else if state.commands_required > 0 && state.commands_passed < state.commands_required {
        Some(
            RejectionModel {
                kind: "command_failed"@,
                message: match failure {
                    Some(summary) => summary,
                    None => "a required command failed"@,
                },
                violations: Seq::empty(),
                strategies: seq!["edit_files_to_fix_failure"@, "rerun_verify"@],
                action: "edit_then_verify"@,
                path: None,
            },
        )
    } else {
        None
    }
}

/// Why a verification is refused, given the goal, the state, the live tree and
/// the last failure.
pub open spec fn rejection_for(
    goal: GoalModel,
    state: StateModel,
    tree: TreeModel,
    failure: Option<Seq<char>>,
) -> Option<RejectionModel> {
    rejection_of(
        state,
        outside(goal, tree),
        violations_in(goal, tree),
        failure,
        goal.misconfigured(),
    )
}

fn no_violations() -> (r: Vec<ScopeViolation>)
    ensures
        packets::violation_models(r@) == Seq::<ViolationModel>::empty(),
{
    let r: Vec<ScopeViolation> = Vec::new();
    assert(packets::violation_models(r@) =~= Seq::<ViolationModel>::empty());
    r
}

/// Builds the repairs of a refused verification from the plan.
pub fn rejection_from_plan(state: &RunState, plan: &AgentPlan) -> (r: Option<Rejection>)
    ensures
        packets::opt_rejection(r) == rejection_of(
            state@,
            text::texts(plan.out_of_scope@),
            packets::violation_models(plan.violations@),
            text::opt_text(plan.current_failure),
            plan.cmd_misconfigured,
        ),
{
    if text::same(&state.guard_phase, "committed") || text::same(&state.guard_phase, "aborted") {
        return None;
    }
    if state.verified {
        return None;
    }
    assert(text::texts(plan.out_of_scope@).len() == plan.out_of_scope@.len());
    if plan.out_of_scope.len() > 0 {
        let mut message: String = text::print_u64(plan.out_of_scope.len() as u64);
        message.append(" changed file(s) outside the allowed write scope.");
        assert(text::texts(plan.out_of_scope@)[0] == plan.out_of_scope@[0]@);
        return Some(
            Rejection {
                kind: "scope_violation".to_string(),
                message,
                violations: packets::copy_violations(&plan.violations),
                repair_strategies: three_lines(
                    "revert_out_of_scope_file",
                    "move_change_into_allowed_scope",
                    "ask_human_to_expand_goal_authority",
                ),
                preferred_next_action: PreferredNextAction {
                    kind: "revert_file".to_string(),
                    path: Some(plan.out_of_scope[0].clone()),
                },
            },
        );
    }
    if plan.cmd_misconfigured {
        return Some(
            Rejection {
                kind: "misconfigured".to_string(),
                message: "A required command is not allowlisted in the goal's allow.shell.".to_string(),
                violations: no_violations(),
                repair_strategies: two_lines(
                    "add_command_to_allow_shell",
                    "ask_human_to_fix_tachfile",
                ),
                preferred_next_action: PreferredNextAction {
                    kind: "ask_human".to_string(),
                    path: None,
                },
            },
        );
    }
    if state.commands_required > 0 && state.commands_passed < state.commands_required {
        let message: String = match &plan.current_failure {
            Some(summary) => summary.clone(),
            None => "a required command failed".to_string(),
        };
        return Some(
            Rejection {
                kind: "command_failed".to_string(),
                message,
                violations: no_violations(),
                repair_strategies: two_lines("edit_files_to_fix_failure", "rerun_verify"),
                preferred_next_action: PreferredNextAction {
                    kind: "edit_then_verify".to_string(),
                    path: None,
                },
            },
        );
    }
    None
}

// ----- receipts for agents -----

/// The receipt with the greatest step, the last of several.
pub open spec fn latest(receipts: Seq<ReceiptModel>) -> Option<ReceiptModel>
    decreases receipts.len(),
{
    if receipts.len() == 0 {
        None
    } else {
        match latest(receipts.drop_last()) {
            Some(best) => if receipts.last().step >= best.step {
                Some(receipts.last())
            } else {
                Some(best)
            },
            None => Some(receipts.last()),
        }
    }
}

/// What an agent is told of a command's receipt.
pub open spec fn summary_of(command: Seq<char>, r: ReceiptModel) -> SummaryModel {
    SummaryModel {
        command,
        action_id: r.action_id,
        exit_code: json::i64_at(r.output, "exit_code"@),
        timed_out: json::bool_at(r.output, "timed_out"@) == Some(true),
        duration_ms: json::u64_at(r.output, "duration_ms"@),
        passed: r.passed(),
        stdout_artifact: json::text_at(r.output, "stdout_artifact"@),
        stderr_artifact: json::text_at(r.output, "stderr_artifact"@),
    }
}

/// The latest receipt of each command that has one, in the commands' order.
pub open spec fn summaries(receipts: Seq<ReceiptModel>, required: Seq<Seq<char>>) -> Seq<
    SummaryModel,
>
    decreases required.len(),
{
    if required.len() == 0 {
        Seq::empty()
    } else {
        let before = summaries(receipts, required.drop_last());
        match latest(store::about(receipts, required.last())) {
            Some(r) => before.push(summary_of(required.last(), r)),
            None => before,
        }
    }
}

/// Where the latest receipt about a command stands.
fn latest_about(receipts: &Vec<Receipt>, command: &String) -> (r: Option<usize>)
    ensures
        r matches Some(k) ==> k < receipts@.len() && latest(
            store::about(store::ledger(receipts@), command@),
        ) == Some(receipts@[k as int]@),
        r is None ==> latest(store::about(store::ledger(receipts@), command@)) is None,
{
    let ghost all = store::ledger(receipts@);
    let ghost f = |r: ReceiptModel| r.command() == Some(command@);
    let n: usize = receipts.len();
    let mut best: Option<usize> = None;
    let mut i: usize = 0;
    assert(all.take(0).filter(f).len() == 0) by {
        reveal(Seq::filter);
    }
    while i < n
        invariant
            n == receipts.len(),
            all == store::ledger(receipts@),
            f == (|r: ReceiptModel| r.command() == Some(command@)),
            i <= n,
            best matches Some(k) ==> k < n && latest(all.take(i as int).filter(f)) == Some(
                receipts@[k as int]@,
            ),
            best is None ==> latest(all.take(i as int).filter(f)) is None,
        decreases n - i,
    {
        let ghost seen = all.take(i as int).filter(f);
        let ghost now = all.take(i + 1).filter(f);
        assert(now == if f(all[i as int]) {
            seen.push(all[i as int])
        } else {
            seen
        }) by {
            reveal(Seq::filter);
            assert(all.take(i + 1).drop_last() =~= all.take(i as int));
        }
        if store::receipt_is_for(&receipts[i], command) {
            assert(now.drop_last() =~= seen);
            let newer: bool = match best {
                Some(k) => receipts[i].step >= receipts[k].step,
                None => true,
            };
            if newer {
                best = Some(i);
            }
        }
        i = i + 1;
    }
    assert(all.take(n as int) =~= all);
    best
}

/// The latest receipt of each required command, reduced for an agent.
pub fn receipt_summaries(receipts: &Vec<Receipt>, required: &Vec<String>) -> (r: Vec<ReceiptSummary>)
    ensures
        packets::summary_models(r@) == summaries(
            store::ledger(receipts@),
            text::texts(required@),
        ),
{
    let ghost names = text::texts(required@);
    let ghost all = store::ledger(receipts@);
    let mut out: Vec<ReceiptSummary> = Vec::new();
    let n: usize = required.len();
    let mut i: usize = 0;
    assert(packets::summary_models(out@) =~= Seq::empty());
    while i < n
        invariant
            n == required.len(),
            i <= n,
            names == text::texts(required@),
            all == store::ledger(receipts@),
            packets::summary_models(out@) == summaries(all, names.take(i as int)),
        decreases n - i,
    {
        let ghost done = packets::summary_models(out@);
        assert(names.take(i + 1).drop_last() =~= names.take(i as int));
        assert(names.take(i + 1).last() == required@[i as int]@);
        if let Some(k) = latest_about(receipts, &required[i]) {
            let late: bool = match json::bool_member(&receipts[k].output, "timed_out") {
                Some(b) => b,
                None => false,
            };
            let s: ReceiptSummary = ReceiptSummary {
                command: required[i].clone(),
                action_id: receipts[k].action_id.clone(),
                exit_code: json::i64_member(&receipts[k].output, "exit_code"),
                timed_out: late,
                duration_ms: json::u64_member(&receipts[k].output, "duration_ms"),
                passed: store::receipt_passed(&receipts[k]),
                stdout_artifact: json::text_member(&receipts[k].output, "stdout_artifact"),
                stderr_artifact: json::text_member(&receipts[k].output, "stderr_artifact"),
            };
            assert(s@ == summary_of(required@[i as int]@, receipts@[k as int]@));
            out.push(s);
            assert(packets::summary_models(out@) =~= done.push(s@));
        }
        i = i + 1;
    }
    assert(names.take(n as int) =~= names);
    out
}

// ----- packets for agents -----

/// The next required action of an agent.
pub fn next(
    record: &GoalRecord,
    state: &RunState,
    run_id: &String,
    tree: &Tree,
    events: &Vec<Event>,
) -> (r: Result<GuardNext, GuardError>)
    requires
        tree.wf(),
    ensures
        r is Ok <==> session_error(*record, run_id@) is None,
        r matches Err(e) ==> session_error(*record, run_id@) == Some(e@),
        r matches Ok(n) ==> {
            let goal = record.spec@;
            let told = next_move(
                goal,
                state@,
                tree@,
                event::failure(event::history(events@)),
            );
            &&& n.run_id@ == run_id@
            &&& n.goal@ == state.goal@
            &&& n.status@ == told.status
            &&& n.next_action@ == told.action
            &&& text::texts(n.allowed_files@) == goal.fs_write
            &&& text::texts(n.allowed_commands@) == goal.shell
            &&& packets::violation_models(n.scope_violations@) == violations_in(goal, tree@)
            &&& n.done_condition@ == done_text()
            &&& n.recommended_command@ == told.command
            &&& text::texts(n.instructions@) == told.instructions
        },
{
    if let Err(e) = session(record, run_id) {
        return Err(e);
    }
    let plan: AgentPlan = compute_plan(&record.spec, state, tree, events);
    Ok(
        GuardNext {
            run_id: run_id.clone(),
            goal: state.goal.clone(),
            status: plan.moves.status_label.to_string(),
            next_action: plan.moves.next_action.to_string(),
            allowed_files: text::copy_texts(&record.spec.allow.fs_write),
            allowed_commands: text::copy_texts(&record.spec.allow.shell),
            scope_violations: plan.violations,
            done_condition: done_condition(),
            recommended_command: plan.moves.recommended_command,
            instructions: plan.moves.instructions,
        },
    )
}

/// The full operating context of an agent.
pub fn agent_context(
    record: &GoalRecord,
    state: &RunState,
    run_id: &String,
    agent: &String,
    tree: &Tree,
    events: &Vec<Event>,
    receipts: &Vec<Receipt>,
) -> (r: Result<AgentContext, GuardError>)
    requires
        tree.wf(),
    ensures
        r is Ok <==> session_error(*record, run_id@) is None,
        r matches Err(e) ==> session_error(*record, run_id@) == Some(e@),
        r matches Ok(c) ==> {
            let goal = record.spec@;
            let failure = event::failure(event::history(events@));
            let told = next_move(goal, state@, tree@, failure);
            &&& c.schema@ == "tach.agent-context.v1"@
            &&& c.agent@ == agent@
            &&& c.goal@ == state.goal@
            &&& c.run_id@ == run_id@
            &&& c.status@ == told.status
            &&& text::texts(c.allowed_files@) == goal.fs_write
            &&& text::texts(c.forbidden_files@) == outside(goal, tree@)
            &&& text::texts(c.allowed_commands@) == goal.shell
            &&& text::texts(c.required_commands@) == goal.required
            &&& text::texts(c.changed_files.added@) == tree@.diff().added
            &&& text::texts(c.changed_files.modified@) == tree@.diff().modified
            &&& text::texts(c.changed_files.deleted@) == tree@.diff().deleted
            &&& text::texts(c.changed_files.in_scope@) == inside(goal, tree@)
            &&& text::texts(c.changed_files.out_of_scope@) == outside(goal, tree@)
            &&& packets::violation_models(c.scope_violations@) == violations_in(goal, tree@)
            &&& packets::summary_models(c.latest_receipts@) == summaries(
                store::ledger(receipts@),
                goal.required,
            )
            &&& text::opt_text(c.current_failure) == failure
            &&& c.done_condition@ == done_text()
            &&& c.next_action@ == told.action
            &&& c.recommended_command@ == told.command
            &&& text::texts(c.instructions@) == told.instructions
            &&& c.verified == state.verified
        },
{
    if let Err(e) = session(record, run_id) {
        return Err(e);
    }
    let spec: &GoalSpec = &record.spec;
    let plan: AgentPlan = compute_plan(spec, state, tree, events);
    let required: Vec<String> = spec.required_commands();
    let latest_receipts: Vec<ReceiptSummary> = receipt_summaries(receipts, &required);
    Ok(
        AgentContext {
            schema: "tach.agent-context.v1".to_string(),
            agent: agent.clone(),
            goal: state.goal.clone(),
            run_id: run_id.clone(),
            status: plan.moves.status_label.to_string(),
            allowed_files: text::copy_texts(&spec.allow.fs_write),
            forbidden_files: text::copy_texts(&plan.out_of_scope),
            allowed_commands: text::copy_texts(&spec.allow.shell),
            required_commands: required,
            changed_files: ChangedFiles {
                added: plan.diff.added,
                modified: plan.diff.modified,
                deleted: plan.diff.deleted,
                in_scope: plan.in_scope,
                out_of_scope: plan.out_of_scope,
            },
            scope_violations: plan.violations,
            latest_receipts,
            current_failure: plan.current_failure,
            done_condition: done_condition(),
            next_action: plan.moves.next_action.to_string(),
            recommended_command: plan.moves.recommended_command,
            instructions: plan.moves.instructions,
            verified: state.verified,
        },
    )
}

/// The result of a verification that ended with this status: the state and the
/// history are those after it, and the repairs come from the live tree.
pub fn verify_report(
    ended: GuardStatus,
    record: &GoalRecord,
    state: &RunState,
    run_id: &String,
    tree: &Tree,
    events: &Vec<Event>,
) -> (r: Result<GuardVerify, GuardError>)
    requires
        tree.wf(),
    ensures
        r is Ok <==> session_error(*record, run_id@) is None,
        r matches Err(e) ==> session_error(*record, run_id@) == Some(e@),
        r matches Ok(v) ==> {
            let failure = event::failure(event::history(events@));
            let told = next_move(record.spec@, state@, tree@, failure);
            &&& v.status == ended
            &&& packets::opt_rejection(v.rejection) == rejection_for(
                record.spec@,
                state@,
                tree@,
                failure,
            )
            &&& v.next_action@ == told.action
            &&& v.recommended_command@ == told.command
        },
{
    if let Err(e) = session(record, run_id) {
        return Err(e);
    }
    let plan: AgentPlan = compute_plan(&record.spec, state, tree, events);
    let rejection: Option<Rejection> = rejection_from_plan(state, &plan);
    Ok(
        GuardVerify {
            status: ended,
            rejection,
            next_action: plan.moves.next_action.to_string(),
            recommended_command: plan.moves.recommended_command,
        },
    )
}

} // verus!
