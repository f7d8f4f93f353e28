//! How records are read: the model of a record tells each of its fields as it
//! stands there, and the model of a list each of its entries in order.
use crate::builtins::Builtin;
use crate::diagnostics::{self, Diagnostic, PreferredPatch};
use crate::event::{self, Event};
use crate::goal::GoalSpec;
use crate::guard::ledger::{self, Ending, ReplayCommand};
use crate::guard::open;
use crate::guard::packets::{
    self, GuardCrash, GuardError, GuardOutcome, GuardStatus, ReceiptSummary, Rejection,
    ReplayResult, ScopeViolation, Tree,
};
use crate::guard::plan::AgentMove;
use crate::guard::verify::{
    self, Effect, EffectModel, Keys, Next, NextModel, ShellResult, Turn, Work,
};
use crate::infer::{self, ReturnAt};
use crate::json;
use crate::program::FnSig;
use crate::snapshot::Diff;
use crate::store::{self, GoalRecord, Receipt, RunState};
use crate::text;
use crate::types::{self, Type, TypeModel};
use vstd::prelude::*;

verus! {

/// `read` reads what the strings of a list read, one by one.
pub open spec fn reads(read: Seq<Seq<char>>, list: Seq<String>) -> bool {
    read.len() == list.len() && forall|i: int| 0 <= i < list.len() ==> #[trigger] read[i] == list[i]@
}

/// `read` reads what an optional string reads.
pub open spec fn reads_opt(read: Option<Seq<char>>, s: Option<String>) -> bool {
    match s {
        Some(t) => read == Some(t@),
        None => read is None,
    }
}

/// A list of strings reads as its strings do, in order, and an optional string as
/// the string.
pub proof fn law_texts_are_read_in_order(list: Seq<String>, s: Option<String>)
    ensures
        reads(text::texts(list), list),
        reads_opt(text::opt_text(s), s),
{
}

/// A goal is read whole.
pub proof fn law_goals_are_read_whole(g: GoalSpec)
    ensures
        g@.name == g.name@,
        reads(g@.fs_write, g.allow.fs_write@),
        reads(g@.shell, g.allow.shell@),
        reads(g@.required, g.required@),
{
}

/// The state of a run is read whole.
pub proof fn law_states_are_read_whole(s: RunState)
    ensures
        s@.run_id == s.run_id@,
        s@.goal == s.goal@,
        s@.status == s.status@,
        s@.kind == s.kind@,
        s@.guard_phase == s.guard_phase@,
        s@.verified == s.verified,
        s@.verified_digest == s.verified_digest@,
        s@.commands_required == s.commands_required,
        s@.commands_passed == s.commands_passed,
        s@.out_of_scope == s.out_of_scope,
        s@.receipts_created == s.receipts_created,
        s@.step == s.step,
{
}

/// The record of a goal is read whole.
pub proof fn law_records_are_read_whole(r: GoalRecord)
    ensures
        r@.spec == r.spec@,
        r@.strategy == r.strategy@,
        r@.kind == r.kind@,
        r@.base_files.len() == r.base_files@.len(),
        forall|i: int|
            0 <= i < r.base_files@.len() ==> #[trigger] r@.base_files[i] == (
                r.base_files@[i].0@,
                r.base_files@[i].1@,
            ),
{
}

/// A receipt is read whole, and so are the receipts of a run, in order.
pub proof fn law_receipts_are_read_whole(r: Receipt, list: Seq<Receipt>)
    ensures
        r@.receipt_id == r.receipt_id@,
        r@.idempotency_key == r.idempotency_key@,
        r@.action_id == r.action_id@,
        r@.tool == r.tool@,
        r@.input == json::json_of(r.input),
        r@.output == json::json_of(r.output),
        r@.run_id == r.run_id@,
        r@.step == r.step,
        r@.effect == r.effect@,
        r@.input_hash == r.input_hash@,
        reads_opt(r@.approval_id, r.approval_id),
        r@.created_event_id == r.created_event_id@,
        store::ledger(list).len() == list.len(),
        forall|i: int| 0 <= i < list.len() ==> #[trigger] store::ledger(list)[i] == list[i]@,
{
}

/// An event is read whole, and so is a history, in order.
pub proof fn law_events_are_read_whole(e: Event, list: Seq<Event>)
    ensures
        e@.kind == e.kind,
        e@.payload == json::json_of(e.payload),
        event::history(list).len() == list.len(),
        forall|i: int| 0 <= i < list.len() ==> #[trigger] event::history(list)[i] == list[i]@,
{
}

/// A patch and a diagnostic are read whole, and so are diagnostics in a list, in
/// order.
pub proof fn law_diagnostics_are_read_whole(
    p: PreferredPatch,
    d: Diagnostic,
    list: Seq<Diagnostic>,
)
    ensures
        p@.file == p.file@,
        p@.span == p.span,
        p@.replacement == p.replacement@,
        p@.rationale == p.rationale@,
        d@.severity == d.severity,
        d@.code == d.code@,
        d@.kind == d.kind@,
        d@.message == d.message@,
        d@.file == d.file@,
        d@.span == d.span,
        reads(d@.repair_strategies, d.repair_strategies@),
        d.preferred_patch is None ==> d@.preferred_patch is None,
        d.preferred_patch matches Some(q) ==> d@.preferred_patch == Some(q@),
        reads(d@.notes, d.notes@),
        diagnostics::models(list).len() == list.len(),
        forall|i: int| 0 <= i < list.len() ==> #[trigger] diagnostics::models(list)[i] == list[i]@,
{
}

/// A builtin member and a signature are read whole.
pub proof fn law_signatures_are_read_whole(b: Builtin, sig: FnSig)
    ensures
        reads_opt(b@.effect, b.effect),
        b@.ret == b.ret@,
        sig@.effects == sig.effects@,
        sig.ret is None ==> sig@.ret is None,
        sig.ret matches Some(t) ==> sig@.ret == Some(t@),
{
}

/// A type is read whole, with all its parts.
pub proof fn law_types_are_read_whole(t: Type)
    ensures
        t is Int <==> t@ is Int,
        t is Float <==> t@ is Float,
        t is Bool <==> t@ is Bool,
        t is Str <==> t@ is Str,
        t is Unit <==> t@ is Unit,
        t is Unknown <==> t@ is Unknown,
        t matches Type::Named(n) ==> t@ == TypeModel::Named(n@),
        t matches Type::Result(a, b) ==> t@ == TypeModel::Result(Box::new(a@), Box::new(b@)),
        t matches Type::Record(fields) ==> (t@ matches TypeModel::Record(read) && read.len()
            == fields@.len() && forall|i: int|
            0 <= i < read.len() ==> #[trigger] read[i] == (fields@[i].0@, fields@[i].1@)),
{
    if let Type::Record(fields) = t {
        types::lemma_fields_model(fields@);
    }
}

/// A difference of trees and a live tree are read whole.
pub proof fn law_trees_are_read_whole(d: Diff, tree: Tree)
    ensures
        reads(d@.added, d.added@),
        reads(d@.modified, d.modified@),
        reads(d@.deleted, d.deleted@),
        tree@.base == tree.baseline@,
        tree@.head == tree.head@,
        tree@.digest == tree.digest@,
        tree@.diff() == crate::snapshot::difference(tree.baseline@, tree.head@),
{
}

/// Errors, status lines, outcomes and results of replays are read whole.
pub proof fn law_answers_are_read_whole(
    e: GuardError,
    s: GuardStatus,
    o: GuardOutcome,
    r: ReplayResult,
)
    ensures
        e@.kind == e.kind,
        e@.message == e.message@,
        s@.run_id == s.run_id@,
        s@.goal == s.goal@,
        s@.phase == s.phase@,
        s@.verified == s.verified,
        s@.commands_required == s.commands_required,
        s@.commands_passed == s.commands_passed,
        s@.out_of_scope == s.out_of_scope,
        s@.receipts == s.receipts,
        s@.step == s.step,
        o@.run_id == o.run_id@,
        o@.ok == o.ok,
        reads_opt(o@.reason, o.reason),
        o@.status == o.status@,
        o@.phase == o.phase@,
        r@.recorded_status == r.recorded_status@,
        r@.replayed_status == r.replayed_status@,
        r@.identical == r.identical,
        r@.steps == r.steps,
{
}

/// Rejections, violations, summaries and moves are read whole.
pub proof fn law_repairs_are_read_whole(
    r: Rejection,
    v: ScopeViolation,
    s: ReceiptSummary,
    m: AgentMove,
    violations: Seq<ScopeViolation>,
    summaries: Seq<ReceiptSummary>,
)
    ensures
        r@.kind == r.kind@,
        r@.message == r.message@,
        r@.violations == packets::violation_models(r.violations@),
        reads(r@.strategies, r.repair_strategies@),
        r@.action == r.preferred_next_action.kind@,
        reads_opt(r@.path, r.preferred_next_action.path),
        packets::opt_rejection(Some(r)) == Some(r@),
        packets::opt_rejection(None) is None,
        v@.path == v.path@,
        v@.reason == v.reason@,
        reads(v@.allowed, v.allowed@),
        s@.command == s.command@,
        s@.action_id == s.action_id@,
        s@.exit_code == s.exit_code,
        s@.timed_out == s.timed_out,
        s@.duration_ms == s.duration_ms,
        s@.passed == s.passed,
        reads_opt(s@.stdout_artifact, s.stdout_artifact),
        reads_opt(s@.stderr_artifact, s.stderr_artifact),
        m@.status == m.status_label@,
        m@.action == m.next_action@,
        m@.command == m.recommended_command@,
        reads(m@.instructions, m.instructions@),
        packets::violation_models(violations).len() == violations.len(),
        forall|i: int|
            0 <= i < violations.len() ==> #[trigger] packets::violation_models(violations)[i]
                == violations[i]@,
        packets::summary_models(summaries).len() == summaries.len(),
        forall|i: int|
            0 <= i < summaries.len() ==> #[trigger] packets::summary_models(summaries)[i]
                == summaries[i]@,
{
}

/// Keys and the end of a command are read whole.
pub proof fn law_replies_are_read_whole(k: Keys, s: ShellResult, list: Seq<ShellResult>)
    ensures
        k@.key == k.key@,
        k@.receipt_id == k.receipt_id@,
        k@.input_hash == k.input_hash@,
        s@.exit_code == s.exit_code,
        s@.timed_out == s.timed_out,
        s@.duration_ms == s.duration_ms,
        reads(s@.argv, s.argv@),
        s@.stdout_path == s.stdout_path@,
        s@.stderr_path == s.stderr_path@,
        s@.stdout_bytes == s.stdout_bytes,
        s@.stderr_bytes == s.stderr_bytes,
        reads(s@.env_names, s.env_names@),
        s@.seq == s.seq,
        ledger::shell_models(list).len() == list.len(),
        forall|i: int| 0 <= i < list.len() ==> #[trigger] ledger::shell_models(list)[i] == list[i]@,
{
}

/// A verification under way is read whole.
pub proof fn law_work_is_read_whole(w: Work, n: usize)
    ensures
        w@.run_id == w.run_id@,
        w@.goal == w.spec@,
        w@.state == w.state@,
        w@.digest == w.digest@,
        w@.receipts == store::ledger(w.receipts@),
        w@.rerun == w.rerun,
        w@.index == w.index,
        w@.passed == w.passed,
        reads(w@.failures, w.failures@),
        w@.crash == verify::crash_at(w.crash),
        verify::crash_at(None) is None,
        verify::crash_at(Some(GuardCrash::AfterReceipt(n))) == Some(n as nat),
{
}

/// A record to be written, a turn and an ending are read whole.
pub proof fn law_turns_are_read_whole(e: Effect, list: Seq<Effect>, n: Next, t: Turn, end: Ending)
    ensures
        e matches Effect::Append(x) ==> e@ == EffectModel::Append(x@),
        e matches Effect::SaveReceipt(r) ==> e@ == EffectModel::SaveReceipt(r@),
        e matches Effect::SaveState(s) ==> e@ == EffectModel::SaveState(s@),
        verify::effect_models(list).len() == list.len(),
        forall|i: int| 0 <= i < list.len() ==> #[trigger] verify::effect_models(list)[i] == list[i]@,
        n matches Next::Key(k) ==> n@ == NextModel::Key(k.work@),
        n matches Next::Run(r) ==> n@ == NextModel::Run(r.work@, r.keys@),
        n matches Next::Finished(s) ==> n@ == NextModel::Finished(s@),
        t@.effects == verify::effect_models(t.effects@),
        t@.next == t.next@,
        end@.effects == verify::effect_models(end.effects@),
        end@.outcome == end.outcome@,
{
}

/// Commands that are run again, goals and returned values are read whole.
pub proof fn law_lists_are_read_in_order(
    c: ReplayCommand,
    commands: Seq<ReplayCommand>,
    goals: Seq<GoalSpec>,
    values: Seq<ReturnAt<'_>>,
)
    ensures
        c@.command == c.command@,
        c@.action_id == c.action_id@,
        c@.input == json::json_of(c.input),
        ledger::replay_models(commands).len() == commands.len(),
        forall|i: int|
            0 <= i < commands.len() ==> #[trigger] ledger::replay_models(commands)[i]
                == commands[i]@,
        open::goal_models(goals).len() == goals.len(),
        forall|i: int| 0 <= i < goals.len() ==> #[trigger] open::goal_models(goals)[i] == goals[i]@,
        infer::returned(values).len() == values.len(),
        forall|i: int|
            0 <= i < values.len() ==> (#[trigger] infer::returned(values)[i]).value
                == *values[i].value && infer::returned(values)[i].taken == values[i].taken@,
{
}

} // verus!
