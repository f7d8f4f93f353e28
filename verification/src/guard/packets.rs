//! The packets a guard session hands to people and to agents.
use crate::snapshot::{self, Files, Manifest};
use crate::text;
use vstd::prelude::*;

verus! {

/// Ends a verification right after the receipt that brings the run's count of
/// receipts to the given number is durable, before the verified bit is saved.
#[derive(Clone, Copy, Debug)]
pub enum GuardCrash {
    AfterReceipt(usize),
}

// ----- failures -----

/// What kind of failure a request ended in.
#[derive(Clone, Copy, PartialEq, Eq, Structural, Debug)]
pub enum ErrorKind {
    NotFound,
    InvalidData,
    InvalidInput,
}

/// Why a request could not be answered.
#[derive(Debug)]
pub struct GuardError {
    pub kind: ErrorKind,
    pub message: String,
}

/// What a failure says.
pub struct ErrorModel {
    pub kind: ErrorKind,
    pub message: Seq<char>,
}

impl View for GuardError {
    type V = ErrorModel;

    open spec fn view(&self) -> ErrorModel {
        ErrorModel { kind: self.kind, message: self.message@ }
    }
}

// ----- the live tree -----

/// The working tree as it is now, beside the tree the session began with.
/// `digest` is the hash of `snapshot::manifest_text` of the present tree.
#[derive(Debug)]
pub struct Tree {
    pub baseline: Manifest,
    pub head: Manifest,
    pub digest: String,
}

/// The present tree, the one the session began with, and the digest.
pub struct TreeModel {
    pub base: Files,
    pub head: Files,
    pub digest: Seq<char>,
}

impl View for Tree {
    type V = TreeModel;

    open spec fn view(&self) -> TreeModel {
        TreeModel { base: self.baseline@, head: self.head@, digest: self.digest@ }
    }
}

impl Tree {
    /// Both manifests are well-formed.
    pub open spec fn wf(&self) -> bool {
        self.baseline.wf() && self.head.wf()
    }
}

impl TreeModel {
    /// What changed since the session began.
    pub open spec fn diff(self) -> snapshot::DiffModel {
        snapshot::difference(self.base, self.head)
    }
}

// ----- packets -----

/// The operating contract that an agent reads in each round.
#[derive(Debug)]
pub struct GuardContext {
    pub goal: String,
    pub run_id: String,
    pub phase: String,
    pub allowed_files: Vec<String>,
    pub allowed_commands: Vec<String>,
    pub forbidden: serde_json::Value,
    pub current_failure: Option<String>,
    pub next_required_action: String,
    /// The one check by which an agent decides that it is finished.
    pub done_condition: String,
    pub verified: bool,
}

/// A compact status line.
#[derive(Debug)]
pub struct GuardStatus {
    pub run_id: String,
    pub goal: String,
    pub phase: String,
    pub verified: bool,
    pub commands_required: usize,
    pub commands_passed: usize,
    pub out_of_scope: usize,
    pub receipts: usize,
    pub step: u64,
}

/// What a status line says.
pub struct StatusModel {
    pub run_id: Seq<char>,
    pub goal: Seq<char>,
    pub phase: Seq<char>,
    pub verified: bool,
    pub commands_required: nat,
    pub commands_passed: nat,
    pub out_of_scope: nat,
    pub receipts: nat,
    pub step: nat,
}

impl View for GuardStatus {
    type V = StatusModel;

    open spec fn view(&self) -> StatusModel {
        StatusModel {
            run_id: self.run_id@,
            goal: self.goal@,
            phase: self.phase@,
            verified: self.verified,
            commands_required: self.commands_required as nat,
            commands_passed: self.commands_passed as nat,
            out_of_scope: self.out_of_scope as nat,
            receipts: self.receipts as nat,
            step: self.step as nat,
        }
    }
}

/// What changed, classified by the goal's write scope.
#[derive(Debug)]
pub struct GuardDiff {
    pub added: Vec<String>,
    pub modified: Vec<String>,
    pub deleted: Vec<String>,
    pub in_scope: Vec<String>,
    pub out_of_scope: Vec<String>,
    /// At least one changed file is outside the goal's write scope.
    pub rejected: bool,
}

/// How a request to commit or to abort ended.
#[derive(Debug)]
pub struct GuardOutcome {
    pub run_id: String,
    pub ok: bool,
    pub reason: Option<String>,
    pub status: String,
    pub phase: String,
}

/// What an outcome says.
pub struct OutcomeModel {
    pub run_id: Seq<char>,
    pub ok: bool,
    pub reason: Option<Seq<char>>,
    pub status: Seq<char>,
    pub phase: Seq<char>,
}

impl View for GuardOutcome {
    type V = OutcomeModel;

    open spec fn view(&self) -> OutcomeModel {
        OutcomeModel {
            run_id: self.run_id@,
            ok: self.ok,
            reason: text::opt_text(self.reason),
            status: self.status@,
            phase: self.phase@,
        }
    }
}

/// A changed file outside the write scope, with the reason and the scope that
/// would have allowed it.
#[derive(Debug)]
pub struct ScopeViolation {
    pub path: String,
    pub reason: String,
    pub allowed: Vec<String>,
}

/// What a violation says.
pub struct ViolationModel {
    pub path: Seq<char>,
    pub reason: Seq<char>,
    pub allowed: Seq<Seq<char>>,
}

impl View for ScopeViolation {
    type V = ViolationModel;

    open spec fn view(&self) -> ViolationModel {
        ViolationModel {
            path: self.path@,
            reason: self.reason@,
            allowed: text::texts(self.allowed@),
        }
    }
}

impl Clone for ScopeViolation {
    fn clone(&self) -> (r: ScopeViolation)
        ensures
            r@ == self@,
    {
        ScopeViolation {
            path: self.path.clone(),
            reason: self.reason.clone(),
            allowed: text::copy_texts(&self.allowed),
        }
    }
}

/// What the violations of a list say.
pub open spec fn violation_models(list: Seq<ScopeViolation>) -> Seq<ViolationModel> {
    list.map_values(|v: ScopeViolation| v@)
}

/// A copy of a list of violations.
pub fn copy_violations(list: &Vec<ScopeViolation>) -> (r: Vec<ScopeViolation>)
    ensures
        violation_models(r@) == violation_models(list@),
{
    let mut out: Vec<ScopeViolation> = Vec::new();
    let n: usize = list.len();
    let mut i: usize = 0;
    while i < n
        invariant
            n == list.len(),
            i <= n,
            violation_models(out@) =~= violation_models(list@).take(i as int),
        decreases n - i,
    {
        let ghost done = violation_models(out@);
        out.push(list[i].clone());
        assert(violation_models(out@) =~= done.push(list@[i as int]@));
        i = i + 1;
    }
    out
}

/// The best next move for an agent whose change was rejected.
#[derive(Debug)]
pub struct PreferredNextAction {
    /// `revert_file` | `edit_then_verify` | `ask_human`
    pub kind: String,
    /// The file to act on, where the move is about a file.
    pub path: Option<String>,
}

/// Why a verification was refused, with the repairs an agent can choose from.
#[derive(Debug)]
pub struct Rejection {
    /// `scope_violation` | `command_failed` | `misconfigured`
    pub kind: String,
    pub message: String,
    /// The offending files of a `scope_violation`; empty for the other kinds.
    pub violations: Vec<ScopeViolation>,
    /// Named strategies, the most preferred first.
    pub repair_strategies: Vec<String>,
    pub preferred_next_action: PreferredNextAction,
}

/// What a rejection says.
pub struct RejectionModel {
    pub kind: Seq<char>,
    pub message: Seq<char>,
    pub violations: Seq<ViolationModel>,
    pub strategies: Seq<Seq<char>>,
    pub action: Seq<char>,
    pub path: Option<Seq<char>>,
}

impl View for Rejection {
    type V = RejectionModel;

    open spec fn view(&self) -> RejectionModel {
        RejectionModel {
            kind: self.kind@,
            message: self.message@,
            violations: violation_models(self.violations@),
            strategies: text::texts(self.repair_strategies@),
            action: self.preferred_next_action.kind@,
            path: text::opt_text(self.preferred_next_action.path),
        }
    }
}

/// What an optional rejection says.
pub open spec fn opt_rejection(r: Option<Rejection>) -> Option<RejectionModel> {
    match r {
        Some(rejection) => Some(rejection@),
        None => None,
    }
}

/// The classified changes inside the agent context.
#[derive(Debug)]
pub struct ChangedFiles {
    pub added: Vec<String>,
    pub modified: Vec<String>,
    pub deleted: Vec<String>,
    pub in_scope: Vec<String>,
    pub out_of_scope: Vec<String>,
}

/// A receipt reduced to what an agent needs of it.
#[derive(Debug)]
pub struct ReceiptSummary {
    pub command: String,
    pub action_id: String,
    pub exit_code: Option<i64>,
    pub timed_out: bool,
    pub duration_ms: Option<u64>,
    pub passed: bool,
    pub stdout_artifact: Option<String>,
    pub stderr_artifact: Option<String>,
}

/// What a summary says.
pub struct SummaryModel {
    pub command: Seq<char>,
    pub action_id: Seq<char>,
    pub exit_code: Option<i64>,
    pub timed_out: bool,
    pub duration_ms: Option<u64>,
    pub passed: bool,
    pub stdout_artifact: Option<Seq<char>>,
    pub stderr_artifact: Option<Seq<char>>,
}

impl View for ReceiptSummary {
    type V = SummaryModel;

    open spec fn view(&self) -> SummaryModel {
        SummaryModel {
            command: self.command@,
            action_id: self.action_id@,
            exit_code: self.exit_code,
            timed_out: self.timed_out,
            duration_ms: self.duration_ms,
            passed: self.passed,
            stdout_artifact: text::opt_text(self.stdout_artifact),
            stderr_artifact: text::opt_text(self.stderr_artifact),
        }
    }
}

/// What the summaries of a list say.
pub open spec fn summary_models(list: Seq<ReceiptSummary>) -> Seq<SummaryModel> {
    list.map_values(|s: ReceiptSummary| s@)
}

/// The one answer to "what do I do now?".
#[derive(Debug)]
pub struct GuardNext {
    pub run_id: String,
    pub goal: String,
    /// `editing` | `verified` | `finalized` | `aborted` | `blocked`
    pub status: String,
    /// `edit_then_verify` | `fix_scope_violation` | `run_verify` | `finalize` |
    /// `done` | `aborted` | `blocked`
    pub next_action: String,
    pub allowed_files: Vec<String>,
    pub allowed_commands: Vec<String>,
    /// The files that are out of scope now.
    pub scope_violations: Vec<ScopeViolation>,
    pub done_condition: String,
    /// The command to run next; empty where there is none.
    pub recommended_command: String,
    pub instructions: Vec<String>,
}

/// The full operating context of an agent.
#[derive(Debug)]
pub struct AgentContext {
    /// The version of this packet's shape.
    pub schema: String,
    /// The kind of agent the packet is meant for.
    pub agent: String,
    pub goal: String,
    pub run_id: String,
    pub status: String,
    pub allowed_files: Vec<String>,
    /// The changed files outside `allowed_files`: these are to be reverted.
    pub forbidden_files: Vec<String>,
    pub allowed_commands: Vec<String>,
    pub required_commands: Vec<String>,
    pub changed_files: ChangedFiles,
    pub scope_violations: Vec<ScopeViolation>,
    pub latest_receipts: Vec<ReceiptSummary>,
    pub current_failure: Option<String>,
    pub done_condition: String,
    pub next_action: String,
    pub recommended_command: String,
    pub instructions: Vec<String>,
    pub verified: bool,
}

/// The result of a verification: the status line and, where it was refused, the
/// repairs and the next move.
#[derive(Debug)]
pub struct GuardVerify {
    pub status: GuardStatus,
    /// The repairs where the verification was refused.
    pub rejection: Option<Rejection>,
    pub next_action: String,
    pub recommended_command: String,
}

/// What a replay of a run found.
#[derive(Debug)]
pub struct ReplayResult {
    pub recorded_status: String,
    pub replayed_status: String,
    pub identical: bool,
    pub steps: u64,
}

/// What the result of a replay says.
pub struct ReplayModel {
    pub recorded_status: Seq<char>,
    pub replayed_status: Seq<char>,
    pub identical: bool,
    pub steps: nat,
}

impl View for ReplayResult {
    type V = ReplayModel;

    open spec fn view(&self) -> ReplayModel {
        ReplayModel {
            recorded_status: self.recorded_status@,
            replayed_status: self.replayed_status@,
            identical: self.identical,
            steps: self.steps as nat,
        }
    }
}

} // verus!
