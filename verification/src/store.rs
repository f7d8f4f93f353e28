//! What is kept of a run: its goal, its state and its receipts.
use crate::goal::{GoalModel, GoalSpec};
use crate::json::{self, Json};
use crate::text;
use vstd::prelude::*;
use vstd::string::*;

verus! {

// ----- the state of a run -----

/// The state of a run.
#[derive(Debug)]
pub struct RunState {
    pub run_id: String,
    pub goal: String,
    pub status: String,
    pub kind: String,
    pub guard_phase: String,
    pub verified: bool,
    pub verified_digest: String,
    pub commands_required: usize,
    pub commands_passed: usize,
    pub out_of_scope: usize,
    pub receipts_created: usize,
    pub step: u64,
}

/// What the state of a run says.
pub struct StateModel {
    pub run_id: Seq<char>,
    pub goal: Seq<char>,
    pub status: Seq<char>,
    pub kind: Seq<char>,
    pub guard_phase: Seq<char>,
    pub verified: bool,
    pub verified_digest: Seq<char>,
    pub commands_required: nat,
    pub commands_passed: nat,
    pub out_of_scope: nat,
    pub receipts_created: nat,
    pub step: nat,
}

impl View for RunState {
    type V = StateModel;

    open spec fn view(&self) -> StateModel {
        StateModel {
            run_id: self.run_id@,
            goal: self.goal@,
            status: self.status@,
            kind: self.kind@,
            guard_phase: self.guard_phase@,
            verified: self.verified,
            verified_digest: self.verified_digest@,
            commands_required: self.commands_required as nat,
            commands_passed: self.commands_passed as nat,
            out_of_scope: self.out_of_scope as nat,
            receipts_created: self.receipts_created as nat,
            step: self.step as nat,
        }
    }
}

/// The state in which nothing is set.
pub open spec fn blank_state() -> StateModel {
    StateModel {
        run_id: Seq::empty(),
        goal: Seq::empty(),
        status: Seq::empty(),
        kind: Seq::empty(),
        guard_phase: Seq::empty(),
        verified: false,
        verified_digest: Seq::empty(),
        commands_required: 0,
        commands_passed: 0,
        out_of_scope: 0,
        receipts_created: 0,
        step: 0,
    }
}

impl Default for RunState {
    fn default() -> (r: RunState)
        ensures
            r@ == blank_state(),
    {
        let r: RunState = RunState {
            run_id: String::new(),
            goal: String::new(),
            status: String::new(),
            kind: String::new(),
            guard_phase: String::new(),
            verified: false,
            verified_digest: String::new(),
            commands_required: 0,
            commands_passed: 0,
            out_of_scope: 0,
            receipts_created: 0,
            step: 0,
        };
        assert(r.run_id@ =~= Seq::<char>::empty());
        r
    }
}

impl Clone for RunState {
    fn clone(&self) -> (r: RunState)
        ensures
            r@ == self@,
    {
        RunState {
            run_id: self.run_id.clone(),
            goal: self.goal.clone(),
            status: self.status.clone(),
            kind: self.kind.clone(),
            guard_phase: self.guard_phase.clone(),
            verified: self.verified,
            verified_digest: self.verified_digest.clone(),
            commands_required: self.commands_required,
            commands_passed: self.commands_passed,
            out_of_scope: self.out_of_scope,
            receipts_created: self.receipts_created,
            step: self.step,
        }
    }
}

// ----- the goal of a run -----

/// The goal of a run, as it was when the run began.
#[derive(Debug)]
pub struct GoalRecord {
    pub spec: GoalSpec,
    pub strategy: String,
    /// The files a run starts from, path and text; a guard session has none.
    pub base_files: Vec<(String, String)>,
    pub kind: String,
}

/// What the record of a goal says.
pub struct RecordModel {
    pub spec: GoalModel,
    pub strategy: Seq<char>,
    pub base_files: Seq<(Seq<char>, Seq<char>)>,
    pub kind: Seq<char>,
}

impl View for GoalRecord {
    type V = RecordModel;

    open spec fn view(&self) -> RecordModel {
        RecordModel {
            spec: self.spec@,
            strategy: self.strategy@,
            base_files: self.base_files@.map_values(|f: (String, String)| (f.0@, f.1@)),
            kind: self.kind@,
        }
    }
}

// ----- receipts -----

/// The lasting record of one action and its outcome.
#[derive(Debug)]
pub struct Receipt {
    pub receipt_id: String,
    pub idempotency_key: String,
    pub action_id: String,
    pub tool: String,
    pub input: serde_json::Value,
    pub output: serde_json::Value,
    pub run_id: String,
    pub step: u64,
    pub effect: String,
    pub input_hash: String,
    pub approval_id: Option<String>,
    pub created_event_id: String,
}

/// What a receipt says.
pub struct ReceiptModel {
    pub receipt_id: Seq<char>,
    pub idempotency_key: Seq<char>,
    pub action_id: Seq<char>,
    pub tool: Seq<char>,
    pub input: Json,
    pub output: Json,
    pub run_id: Seq<char>,
    pub step: nat,
    pub effect: Seq<char>,
    pub input_hash: Seq<char>,
    pub approval_id: Option<Seq<char>>,
    pub created_event_id: Seq<char>,
}

impl View for Receipt {
    type V = ReceiptModel;

    open spec fn view(&self) -> ReceiptModel {
        ReceiptModel {
            receipt_id: self.receipt_id@,
            idempotency_key: self.idempotency_key@,
            action_id: self.action_id@,
            tool: self.tool@,
            input: json::json_of(self.input),
            output: json::json_of(self.output),
            run_id: self.run_id@,
            step: self.step as nat,
            effect: self.effect@,
            input_hash: self.input_hash@,
            approval_id: text::opt_text(self.approval_id),
            created_event_id: self.created_event_id@,
        }
    }
}

impl Clone for Receipt {
    fn clone(&self) -> (r: Receipt)
        ensures
            r@ == self@,
    {
        Receipt {
            receipt_id: self.receipt_id.clone(),
            idempotency_key: self.idempotency_key.clone(),
            action_id: self.action_id.clone(),
            tool: self.tool.clone(),
            input: self.input.clone(),
            output: self.output.clone(),
            run_id: self.run_id.clone(),
            step: self.step,
            effect: self.effect.clone(),
            input_hash: self.input_hash.clone(),
            approval_id: text::copy_opt(&self.approval_id),
            created_event_id: self.created_event_id.clone(),
        }
    }
}

/// What the receipts of a run say.
pub open spec fn ledger(receipts: Seq<Receipt>) -> Seq<ReceiptModel> {
    receipts.map_values(|r: Receipt| r@)
}

/// A copy of a list of receipts.
pub fn copy_receipts(receipts: &Vec<Receipt>) -> (r: Vec<Receipt>)
    ensures
        ledger(r@) == ledger(receipts@),
{
    let mut out: Vec<Receipt> = Vec::new();
    let n: usize = receipts.len();
    let mut i: usize = 0;
    while i < n
        invariant
            n == receipts.len(),
            i <= n,
            ledger(out@) =~= ledger(receipts@).take(i as int),
        decreases n - i,
    {
        let ghost done = ledger(out@);
        out.push(receipts[i].clone());
        assert(ledger(out@) =~= done.push(receipts@[i as int]@));
        i = i + 1;
    }
    out
}

impl ReceiptModel {
    /// The command that the receipt is about.
    pub open spec fn command(self) -> Option<Seq<char>> {
        json::text_at(self.input, "command"@)
    }

    /// The command exited 0 and did not time out.
    pub open spec fn passed(self) -> bool {
        &&& json::i64_at(self.output, "exit_code"@) == Some(0i64)
        &&& json::bool_at(self.output, "timed_out"@) != Some(true)
    }
}

/// A receipt is a pass iff its command exited 0 and did not time out.
pub fn receipt_passed(r: &Receipt) -> (ok: bool)
    ensures
        ok == r@.passed(),
{
    let exited: bool = match json::i64_member(&r.output, "exit_code") {
        Some(code) => code == 0,
        None => false,
    };
    let late: bool = match json::bool_member(&r.output, "timed_out") {
        Some(b) => b,
        None => false,
    };
    exited && !late
}

/// Whether a receipt is about a command.
pub fn receipt_is_for(r: &Receipt, command: &String) -> (ok: bool)
    ensures
        ok == (r@.command() == Some(command@)),
{
    match json::text_member(&r.input, "command") {
        Some(c) => c == *command,
        None => false,
    }
}

/// The receipts about a command, in order.
pub open spec fn about(receipts: Seq<ReceiptModel>, command: Seq<char>) -> Seq<ReceiptModel> {
    receipts.filter(|r: ReceiptModel| r.command() == Some(command))
}

/// How many receipts are about a command.
pub fn count_about(receipts: &Vec<Receipt>, command: &String) -> (n: usize)
    ensures
        n == about(ledger(receipts@), command@).len(),
{
    let ghost all = ledger(receipts@);
    let ghost f = |r: ReceiptModel| r.command() == Some(command@);
    let total: usize = receipts.len();
    let mut count: usize = 0;
    let mut i: usize = 0;
    assert(all.take(0).filter(f).len() == 0) by {
        reveal(Seq::filter);
    }
    while i < total
        invariant
            total == receipts.len(),
            all == ledger(receipts@),
            f == (|r: ReceiptModel| r.command() == Some(command@)),
            i <= total,
            count <= i,
            count == all.take(i as int).filter(f).len(),
        decreases total - i,
    {
        assert(all.take(i + 1).filter(f) == if f(all[i as int]) {
            all.take(i as int).filter(f).push(all[i as int])
        } else {
            all.take(i as int).filter(f)
        }) by {
            reveal(Seq::filter);
            assert(all.take(i + 1).drop_last() =~= all.take(i as int));
        }
        if receipt_is_for(&receipts[i], command) {
            count = count + 1;
        }
        i = i + 1;
    }
    assert(all.take(total as int) =~= all);
    count
}

/// The first receipt under a key.
pub open spec fn keyed(receipts: Seq<ReceiptModel>, key: Seq<char>) -> Option<ReceiptModel>
    decreases receipts.len(),
{
    if receipts.len() == 0 {
        None
    } else if receipts[0].idempotency_key == key {
        Some(receipts[0])
    } else {
        keyed(receipts.drop_first(), key)
    }
}

/// Finds the first receipt under a key.
pub fn find_receipt_by_key(receipts: &Vec<Receipt>, key: &String) -> (r: Option<Receipt>)
    ensures
        (match r {
            Some(found) => Some(found@),
            None => None,
        }) == keyed(ledger(receipts@), key@),
{
    let ghost all = ledger(receipts@);
    let n: usize = receipts.len();
    let mut i: usize = 0;
    assert(all.skip(0) =~= all);
    while i < n
        invariant
            n == receipts.len(),
            all == ledger(receipts@),
            i <= n,
            keyed(all.skip(i as int), key@) == keyed(all, key@),
        decreases n - i,
    {
        assert(all.skip(i as int)[0] == receipts@[i as int]@);
        assert(all.skip(i as int).drop_first() =~= all.skip(i + 1));
        if receipts[i].idempotency_key == *key {
            return Some(receipts[i].clone());
        }
        i = i + 1;
    }
    None
}

/// A receipt added under a key that was free is found again, and what was found
/// before is still found.
pub proof fn law_added_receipt_is_found(
    receipts: Seq<ReceiptModel>,
    added: ReceiptModel,
    key: Seq<char>,
)
    ensures
        keyed(receipts.push(added), key) == (match keyed(receipts, key) {
            Some(found) => Some(found),
            None => if added.idempotency_key == key {
                Some(added)
            } else {
                None
            },
        }),
    decreases receipts.len(),
{
    let more = receipts.push(added);
    if receipts.len() == 0 {
        assert(more[0] == added);
        assert(more.drop_first() =~= Seq::empty());
        assert(keyed(more.drop_first(), key) is None);
    } else {
        assert(more[0] == receipts[0]);
        assert(more.drop_first() =~= receipts.drop_first().push(added));
        law_added_receipt_is_found(receipts.drop_first(), added, key);
    }
}

/// A receipt that is found under a key is one of the receipts, and has that key.
pub proof fn law_found_receipt_is_kept(receipts: Seq<ReceiptModel>, key: Seq<char>)
    ensures
        keyed(receipts, key) matches Some(found) ==> receipts.contains(found)
            && found.idempotency_key == key,
        keyed(receipts, key) is None ==> forall|i: int|
            0 <= i < receipts.len() ==> #[trigger] receipts[i].idempotency_key != key,
    decreases receipts.len(),
{
    if receipts.len() > 0 {
        law_found_receipt_is_kept(receipts.drop_first(), key);
        if receipts[0].idempotency_key == key {
            assert(receipts.contains(receipts[0]));
        } else {
            let rest = receipts.drop_first();
            if let Some(found) = keyed(rest, key) {
                let i = choose|i: int| 0 <= i < rest.len() && rest[i] == found;
                assert(receipts[i + 1] == found);
            } else {
                assert forall|i: int| 0 <= i < receipts.len() implies #[trigger] receipts[i].idempotency_key
                    != key by {
                    if i > 0 {
                        assert(rest[i - 1] == receipts[i]);
                    }
                }
            }
        }
    }
}

/// In the state in which nothing is set every text is empty, every count is zero
/// and the run is not verified.
pub proof fn law_blank_state_is_blank()
    ensures
        ({
            let s = blank_state();
            &&& s.run_id.len() == 0 && s.goal.len() == 0 && s.status.len() == 0
            &&& s.kind.len() == 0 && s.guard_phase.len() == 0 && s.verified_digest.len() == 0
            &&& !s.verified
            &&& s.commands_required == 0 && s.commands_passed == 0 && s.out_of_scope == 0
            &&& s.receipts_created == 0 && s.step == 0
        }),
{
}

} // verus!
