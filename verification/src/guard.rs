//! The guard session: governs a repository that an outside agent edits.
//!
//! A session begins with a snapshot of the working tree. What changes is
//! classified by the goal's write scope; a verification rejects changes out of
//! scope, runs the required commands and keeps a receipt of each; a commit
//! finalizes a tree that is verified and unchanged since. The functions here
//! decide; the caller reads the tree, runs commands and writes the records.
pub mod answers;
pub mod laws;
pub mod ledger;
pub mod moves;
pub mod open;
pub mod packets;
pub mod plan;
pub mod reuse;
pub mod trace;
pub mod verify;
pub use ledger::{abort, commit, refuse, replay, replay_commands, replay_key, Ending, ReplayCommand};
pub use open::{begin, choose_goal, GoalFile, Opening};
pub use packets::{
    AgentContext, ChangedFiles, ErrorKind, GuardContext, GuardCrash, GuardDiff, GuardError,
    GuardNext, GuardOutcome, GuardStatus, GuardVerify, PreferredNextAction, ReceiptSummary,
    Rejection, ReplayResult, ScopeViolation, Tree,
};
pub use plan::{
    agent_context, agent_state, compute_plan, context, diff, next, receipt_summaries,
    rejection_from_plan, scope_diff, session, status, verify_report,
};
pub use verify::{
    rel, verify, verify_inner, Effect, KeyRequest, Keys, Next, RunRequest, ShellResult, Turn,
    VERIFY_TIMEOUT_MS,
};
