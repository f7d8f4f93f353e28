//! What holds of a session as a whole.
use crate::goal::GoalModel;
use crate::guard::ledger;
use crate::guard::packets::{StatusModel, TreeModel};
use crate::guard::plan;
use crate::guard::verify::{
    self, EffectModel, KeysModel, NextModel, ShellModel, TurnModel, WorkModel,
};
use crate::json::{self, Json};
use crate::store::{self, ReceiptModel, StateModel};
use vstd::prelude::*;

verus! {

// ----- a whole verification -----

/// How the outside answers: the keys of an action with its input, and how the
/// command at a place of the required ones ends when it is run.
pub struct World {
    pub keys: spec_fn(Seq<char>, Json) -> KeysModel,
    pub shell: spec_fn(nat) -> ShellModel,
}

/// All records of a verification in order, and the status it ends with.
pub struct Played {
    pub effects: Seq<EffectModel>,
    pub status: StatusModel,
}

/// How much is left to do.
pub open spec fn size(n: NextModel) -> nat {
    match n {
        NextModel::Key(w) => if w.index <= w.goal.required.len() {
            (2 * (w.goal.required.len() - w.index) + 1) as nat
        } else {
            1
        },
        NextModel::Run(w, keys) => if w.index <= w.goal.required.len() {
            (2 * (w.goal.required.len() - w.index)) as nat
        } else {
            0
        },
        NextModel::Finished(status) => 0,
    }
}

/// Passing over commands that may not be run changes nothing but the failures.
pub proof fn lemma_skipped(w: WorkModel)
    requires
        w.index <= w.goal.required.len(),
    ensures
        w.index <= w.skipped().index <= w.goal.required.len(),
        w.skipped().index < w.goal.required.len() ==> w.goal.permits(w.skipped().command()),
        w.skipped().goal == w.goal,
        w.skipped().state == w.state,
        w.skipped().digest == w.digest,
        w.skipped().receipts == w.receipts,
        w.skipped().rerun == w.rerun,
        w.skipped().crash == w.crash,
        w.skipped().run_id == w.run_id,
        w.skipped().passed == w.passed,
        w.skipped().failures.len() == w.failures.len() + w.skipped().index - w.index,
    decreases w.goal.required.len() - w.index,
{
    if w.index < w.goal.required.len() && !w.goal.permits(w.command()) {
        lemma_skipped(w.refused());
    }
}

/// A turn that goes on leaves no more to do than the commands not yet settled.
pub proof fn lemma_resumed_size(w: WorkModel)
    requires
        w.index <= w.goal.required.len(),
    ensures
        size(w.resumed().next) <= 2 * (w.goal.required.len() - w.index) + 1,
{
    lemma_skipped(w);
}

/// Goes through a verification to its end, each request answered by the world.
pub open spec fn played(n: NextModel, world: World) -> Played
    decreases size(n),
{
    match n {
        NextModel::Finished(status) => Played { effects: Seq::empty(), status },
        NextModel::Key(w) => {
            let keys = (world.keys)(verify::action_of(w.command()), w.input());
            let t = w.keyed(keys);
            proof {
                if w.index < w.goal.required.len() {
                    if let Some(r) = store::keyed(w.receipts, keys.key) {
                        lemma_resumed_size(w.settled(r));
                    }
                }
            }
            if w.index < w.goal.required.len() {
                let rest = played(t.next, world);
                Played { effects: t.effects + rest.effects, status: rest.status }
            } else {
                Played {
                    effects: Seq::empty(),
                    status: plan::status_of(w.run_id, w.state, w.receipts.len()),
                }
            }
        },
        NextModel::Run(w, keys) => {
            let result = (world.shell)(w.index);
            let t = w.ran(keys, result);
            proof {
                if w.index < w.goal.required.len() {
                    let r = verify::minted(w, keys, result);
                    lemma_resumed_size(w.recorded(r).settled(r));
                }
            }
            if w.index < w.goal.required.len() {
                let rest = played(t.next, world);
                Played { effects: t.effects + rest.effects, status: rest.status }
            } else {
                Played {
                    effects: Seq::empty(),
                    status: plan::status_of(w.run_id, w.state, w.receipts.len()),
                }
            }
        },
    }
}

/// All of a turn and what follows it.
pub open spec fn played_out(t: TurnModel, world: World) -> Played {
    let rest = played(t.next, world);
    Played { effects: t.effects + rest.effects, status: rest.status }
}

/// A verification from its first turn to its end.
pub open spec fn verification(
    goal: GoalModel,
    state: StateModel,
    run_id: Seq<char>,
    tree: TreeModel,
    receipts: Seq<ReceiptModel>,
    rerun: bool,
    crash: Option<nat>,
    world: World,
) -> Played {
    played_out(
        verify::first_turn(goal, state, run_id, tree, receipts, rerun, crash),
        world,
    )
}

/// The receipts after some records were written.
pub open spec fn kept(receipts: Seq<ReceiptModel>, effects: Seq<EffectModel>) -> Seq<ReceiptModel>
    decreases effects.len(),
{
    if effects.len() == 0 {
        receipts
    } else {
        let before = kept(receipts, effects.drop_last());
        match effects.last() {
            EffectModel::SaveReceipt(r) => before.push(r),
            _ => before,
        }
    }
}

/// The state that was written last.
pub open spec fn saved(effects: Seq<EffectModel>) -> Option<StateModel>
    decreases effects.len(),
{
    if effects.len() == 0 {
        None
    } else {
        match effects.last() {
            EffectModel::SaveState(s) => Some(s),
            _ => saved(effects.drop_last()),
        }
    }
}

/// Records written in two parts are the records written at once.
pub proof fn lemma_kept_concat(
    receipts: Seq<ReceiptModel>,
    a: Seq<EffectModel>,
    b: Seq<EffectModel>,
)
    ensures
        kept(receipts, a + b) == kept(kept(receipts, a), b),
    decreases b.len(),
{
    if b.len() == 0 {
        assert(a + b =~= a);
    } else {
        assert((a + b).last() == b.last());
        assert((a + b).drop_last() =~= a + b.drop_last());
        lemma_kept_concat(receipts, a, b.drop_last());
    }
}

/// What one record leaves of the receipts.
pub proof fn lemma_kept_one(receipts: Seq<ReceiptModel>, e: EffectModel)
    ensures
        kept(receipts, seq![e]) == (match e {
            EffectModel::SaveReceipt(r) => receipts.push(r),
            _ => receipts,
        }),
{
    assert(seq![e].drop_last() =~= Seq::empty());
    assert(kept(receipts, seq![e].drop_last()) == receipts);
}

/// Two records are written one after the other.
pub proof fn lemma_kept_two(receipts: Seq<ReceiptModel>, d: EffectModel, e: EffectModel)
    ensures
        kept(receipts, seq![d, e]) == kept(kept(receipts, seq![d]), seq![e]),
{
    assert(seq![d, e] =~= seq![d] + seq![e]);
    lemma_kept_concat(receipts, seq![d], seq![e]);
}

/// The state that a later part writes counts.
pub proof fn lemma_saved_concat(a: Seq<EffectModel>, b: Seq<EffectModel>)
    requires
        saved(b) is Some,
    ensures
        saved(a + b) == saved(b),
    decreases b.len(),
{
    assert((a + b).last() == b.last());
    assert((a + b).drop_last() =~= a + b.drop_last());
    if !(b.last() is SaveState) {
        lemma_saved_concat(a, b.drop_last());
    }
}

// ----- names that differ -----

proof fn lemma_member_names()
    ensures
        "command"@ != "cwd"@,
        "command"@ != "tree"@,
        "command"@ != "rerun"@,
        "tree"@ != "rerun"@,
        "cwd"@ != "tree"@,
        "cwd"@ != "rerun"@,
{
    reveal_strlit("command");
    reveal_strlit("cwd");
    reveal_strlit("tree");
    reveal_strlit("rerun");
    assert("command"@.len() == 7 && "cwd"@.len() == 3 && "tree"@.len() == 4 && "rerun"@.len() == 5);
}

proof fn lemma_output_names()
    ensures
        forall|r: ShellModel| #[trigger] verify::output_json(r) matches Json::Object(m) && m["exit_code"@]
            == (match r.exit_code {
            Some(code) => Json::Int(code as int),
            None => Json::Null,
        }) && m.dom().contains("exit_code"@) && m["timed_out"@] == Json::Bool(r.timed_out)
            && m.dom().contains("timed_out"@),
{
    reveal_strlit("exit_code");
    reveal_strlit("timed_out");
    reveal_strlit("duration_ms");
    reveal_strlit("argv");
    reveal_strlit("stdout_artifact");
    reveal_strlit("stderr_artifact");
    reveal_strlit("stdout_bytes");
    reveal_strlit("stderr_bytes");
    reveal_strlit("env_redacted");
    assert("exit_code"@[0] != "timed_out"@[0]);
    assert("exit_code"@.len() == 9);
    assert("timed_out"@.len() == 9);
    assert("duration_ms"@.len() == 11);
    assert("argv"@.len() == 4);
    assert("stdout_artifact"@.len() == 15);
    assert("stderr_artifact"@.len() == 15);
    assert("stdout_bytes"@.len() == 12);
    assert("stderr_bytes"@.len() == 12);
    assert("env_redacted"@.len() == 12);
}

/// The receipt of a command that was run is about that command over that tree,
/// and is a pass iff the command passed.
pub proof fn law_receipt_says_how_the_command_ended(
    w: WorkModel,
    keys: KeysModel,
    result: ShellModel,
)
    ensures
        verify::minted(w, keys, result).command() == Some(w.command()),
        json::text_at(verify::minted(w, keys, result).input, "tree"@) == Some(w.digest),
        verify::minted(w, keys, result).passed() <==> result.passed(),
{
    lemma_member_names();
    lemma_output_names();
    let out = verify::output_json(result);
    assert(out is Object);
}

/// The inputs of two keys are the same only for the same command over the same
/// tree, asked for with the same number of earlier attempts.
pub proof fn law_key_input_tells_all(
    c1: Seq<char>,
    d1: Seq<char>,
    a1: Option<nat>,
    c2: Seq<char>,
    d2: Seq<char>,
    a2: Option<nat>,
)
    ensures
        verify::key_input(c1, d1, a1) == verify::key_input(c2, d2, a2) <==> c1 == c2 && d1 == d2
            && a1 == a2,
{
    lemma_member_names();
    let x = verify::key_input(c1, d1, a1);
    let y = verify::key_input(c2, d2, a2);
    assert(x.member("command"@) == Some(Json::Str(c1)));
    assert(y.member("command"@) == Some(Json::Str(c2)));
    assert(x.member("tree"@) == Some(Json::Str(d1)));
    assert(y.member("tree"@) == Some(Json::Str(d2)));
    assert(x.member("rerun"@) == (match a1 {
        Some(n) => Some(Json::Int(n as int)),
        None => None,
    }));
    assert(y.member("rerun"@) == (match a2 {
        Some(n) => Some(Json::Int(n as int)),
        None => None,
    }));
}

// ----- a verified run -----

/// The key of a command over a tree, asked for with so many earlier attempts.
pub open spec fn key_for(
    world: World,
    command: Seq<char>,
    digest: Seq<char>,
    attempts: Option<nat>,
) -> Seq<char> {
    (world.keys)(
        verify::action_of(command),
        verify::key_input(command, digest, attempts),
    ).key
}

/// Different inputs have different keys.
pub open spec fn faithful(world: World) -> bool {
    forall|
        c: Seq<char>,
        d: Seq<char>,
        a: Option<nat>,
        c2: Seq<char>,
        d2: Seq<char>,
        a2: Option<nat>,
    |
        #[trigger] key_for(world, c, d, a) == #[trigger] key_for(world, c2, d2, a2)
            ==> verify::key_input(c, d, a) == verify::key_input(c2, d2, a2)
}

/// A receipt under the key of an input has that input.
pub open spec fn honest(world: World, receipts: Seq<ReceiptModel>) -> bool {
    forall|k: int, c: Seq<char>, d: Seq<char>, a: Option<nat>|
        0 <= k < receipts.len() && (#[trigger] receipts[k]).idempotency_key == #[trigger] key_for(
            world,
            c,
            d,
            a,
        ) ==> receipts[k].input == verify::key_input(c, d, a)
}

/// Some receipt about the command over this tree is a pass.
pub open spec fn proved_on(
    receipts: Seq<ReceiptModel>,
    command: Seq<char>,
    digest: Seq<char>,
) -> bool {
    exists|k: int|
        0 <= k < receipts.len() && (#[trigger] receipts[k]).command() == Some(command)
            && json::text_at(receipts[k].input, "tree"@) == Some(digest) && receipts[k].passed()
}

/// Every required command may be run and has a receipt over this tree that is a
/// pass.
pub open spec fn all_proved(
    goal: GoalModel,
    receipts: Seq<ReceiptModel>,
    digest: Seq<char>,
    upto: nat,
) -> bool {
    forall|j: int|
        0 <= j < upto ==> goal.permits(#[trigger] goal.required[j]) && proved_on(
            receipts,
            goal.required[j],
            digest,
        )
}

spec fn inv(w: WorkModel, world: World) -> bool {
    &&& w.passed + w.failures.len() == w.index
    &&& w.index <= w.goal.required.len()
    &&& w.failures.len() == 0 ==> all_proved(w.goal, w.receipts, w.digest, w.index)
    &&& honest(world, w.receipts)
}

/// The state, the receipts and the status that a verification leaves.
spec fn ends_well(w: WorkModel, p: Played) -> bool {
    let effects = p.effects;
    &&& saved(effects) matches Some(s) && {
        &&& p.status == plan::status_of(w.run_id, s, kept(w.receipts, effects).len())
        &&& s.verified ==> {
            &&& all_proved(w.goal, kept(w.receipts, effects), w.digest, w.goal.required.len())
            &&& s.guard_phase == "verified"@
            &&& s.verified_digest == w.digest
            &&& s.commands_passed == w.goal.required.len()
        }
        &&& !s.verified ==> s.guard_phase == "open"@
        &&& s.out_of_scope == w.state.out_of_scope
        &&& s.commands_required == w.state.commands_required
        &&& s.run_id == w.state.run_id
        &&& s.goal == w.state.goal
        &&& s.status == w.state.status
        &&& s.kind == w.state.kind
    }
}

proof fn lemma_more_receipts(
    goal: GoalModel,
    receipts: Seq<ReceiptModel>,
    r: ReceiptModel,
    digest: Seq<char>,
    upto: nat,
)
    requires
        all_proved(goal, receipts, digest, upto),
        upto <= goal.required.len(),
    ensures
        all_proved(goal, receipts.push(r), digest, upto),
{
    assert forall|j: int| 0 <= j < upto implies goal.permits(#[trigger] goal.required[j])
        && proved_on(receipts.push(r), goal.required[j], digest) by {
        let k = choose|k: int|
            0 <= k < receipts.len() && (#[trigger] receipts[k]).command() == Some(goal.required[j])
                && json::text_at(receipts[k].input, "tree"@) == Some(digest)
                && receipts[k].passed();
        assert(receipts.push(r)[k] == receipts[k]);
    }
}

/// Settling a command with a receipt about it over this tree.
proof fn lemma_settled(w: WorkModel, world: World, r: ReceiptModel)
    requires
        inv(w, world),
        w.index < w.goal.required.len(),
        w.goal.permits(w.command()),
        w.receipts.contains(r),
        r.command() == Some(w.command()),
        json::text_at(r.input, "tree"@) == Some(w.digest),
    ensures
        inv(w.settled(r), world),
{
    let v = w.settled(r);
    if v.failures.len() == 0 {
        assert(r.passed());
        assert forall|j: int| 0 <= j < v.index implies v.goal.permits(#[trigger] v.goal.required[j])
            && proved_on(v.receipts, v.goal.required[j], v.digest) by {
            if j == w.index {
                let k = choose|k: int| 0 <= k < w.receipts.len() && w.receipts[k] == r;
                assert(v.receipts[k] == r);
            }
        }
    }
}

proof fn lemma_resumed(w: WorkModel, world: World)
    requires
        inv(w, world),
    ensures
        w.resumed().next matches NextModel::Key(v) ==> {
            &&& w.resumed().effects.len() == 0
            &&& inv(v, world)
            &&& v == w.skipped()
            &&& v.index < v.goal.required.len()
            &&& v.goal.permits(v.command())
        },
        !(w.resumed().next is Key) ==> {
            &&& w.resumed().next matches NextModel::Finished(status)
            &&& ends_well(w, Played { effects: w.resumed().effects, status })
        },
{
    lemma_skipped(w);
    let v = w.skipped();
    if v.index < v.goal.required.len() {
        assert(v.failures.len() == 0 ==> v.index == w.index);
    } else {
        let end = v.ending().effects;
        let s = v.concluded();
        assert(end.last() == EffectModel::SaveState(s));
        assert(saved(end) == Some(s));
        lemma_kept_two(w.receipts, end[0], end[1]);
        assert(end =~= seq![end[0], end[1]]);
        lemma_kept_one(w.receipts, end[0]);
        lemma_kept_one(w.receipts, end[1]);
        assert(kept(w.receipts, end) == w.receipts);
    }
}

proof fn lemma_ends_after(
    w: WorkModel,
    v: WorkModel,
    first: Seq<EffectModel>,
    rest: Played,
)
    requires
        ends_well(v, rest),
        v.run_id == w.run_id,
        v.goal == w.goal,
        v.digest == w.digest,
        v.receipts == kept(w.receipts, first),
        v.state.out_of_scope == w.state.out_of_scope,
        v.state.commands_required == w.state.commands_required,
        v.state.run_id == w.state.run_id,
        v.state.goal == w.state.goal,
        v.state.status == w.state.status,
        v.state.kind == w.state.kind,
    ensures
        ends_well(w, Played { effects: first + rest.effects, status: rest.status }),
{
    lemma_saved_concat(first, rest.effects);
    lemma_kept_concat(w.receipts, first, rest.effects);
}

/// A turn that goes on from `v`, with some records before it, is played out.
proof fn lemma_goes_on(w: WorkModel, v: WorkModel, first: Seq<EffectModel>, world: World)
    requires
        faithful(world),
        inv(v, world),
        v.run_id == w.run_id,
        v.goal == w.goal,
        v.digest == w.digest,
        v.receipts == kept(w.receipts, first),
        v.state.out_of_scope == w.state.out_of_scope,
        v.state.commands_required == w.state.commands_required,
        v.state.run_id == w.state.run_id,
        v.state.goal == w.state.goal,
        v.state.status == w.state.status,
        v.state.kind == w.state.kind,
    ensures
        ends_well(w, played_out(v.resumed().after(first), world)),
    decreases v.goal.required.len() - v.index, 1nat,
{
    lemma_resumed(v, world);
    lemma_skipped(v);
    let t = v.resumed();
    let rest = played(t.next, world);
    match t.next {
        NextModel::Key(u) => {
            lemma_key_ends(u, world);
            assert(t.after(first).effects =~= first);
            lemma_ends_after(w, u, first, rest);
        },
        _ => {
            assert(rest.effects.len() == 0);
            assert(t.after(first).effects + rest.effects =~= first + t.effects);
            lemma_ends_after(w, v, first, Played { effects: t.effects, status: rest.status });
        },
    }
}

proof fn lemma_key_ends(w: WorkModel, world: World)
    requires
        faithful(world),
        inv(w, world),
        w.index < w.goal.required.len(),
        w.goal.permits(w.command()),
    ensures
        ends_well(w, played(NextModel::Key(w), world)),
    decreases w.goal.required.len() - w.index, 0nat,
{
    let keys = (world.keys)(verify::action_of(w.command()), w.input());
    assert(keys.key == key_for(world, w.command(), w.digest, w.attempts()));
    let t = w.keyed(keys);
    lemma_member_names();
    match store::keyed(w.receipts, keys.key) {
        Some(r) => {
            store::law_found_receipt_is_kept(w.receipts, keys.key);
            let k = choose|k: int| 0 <= k < w.receipts.len() && w.receipts[k] == r;
            assert(w.receipts[k].input == w.input());
            lemma_settled(w, world, r);
            let first = seq![verify::reused_event(r.receipt_id, w.command())];
            lemma_kept_one(w.receipts, first[0]);
            lemma_goes_on(w, w.settled(r), first, world);
        },
        None => {
            lemma_run_ends(w, world);
            let first = seq![verify::executed_event(w.command())];
            lemma_kept_one(w.receipts, first[0]);
            let rest = played(NextModel::Run(w, keys), world);
            lemma_ends_after(w, w, first, rest);
        },
    }
}

proof fn lemma_run_ends(w: WorkModel, world: World)
    requires
        faithful(world),
        inv(w, world),
        w.index < w.goal.required.len(),
        w.goal.permits(w.command()),
    ensures
        ends_well(
            w,
            played(
                NextModel::Run(w, (world.keys)(verify::action_of(w.command()), w.input())),
                world,
            ),
        ),
    decreases w.goal.required.len() - w.index - 1, 2nat,
{
    let keys = (world.keys)(verify::action_of(w.command()), w.input());
    assert(keys.key == key_for(world, w.command(), w.digest, w.attempts()));
    let result = (world.shell)(w.index);
    let r = verify::minted(w, keys, result);
    let v = w.recorded(r);
    let written = seq![
        EffectModel::SaveReceipt(r),
        verify::created_event(keys.receipt_id, w.command(), keys.key),
    ];
    law_receipt_says_how_the_command_ended(w, keys, result);
    lemma_kept_two(w.receipts, written[0], written[1]);
    lemma_kept_one(w.receipts, written[0]);
    lemma_kept_one(w.receipts.push(r), written[1]);
    assert(kept(w.receipts, written) == v.receipts);
    assert(honest(world, v.receipts));
    if w.failures.len() == 0 {
        lemma_more_receipts(w.goal, w.receipts, r, w.digest, w.index);
    }
    assert(v.receipts[v.receipts.len() - 1] == r);
    assert(v.receipts.contains(r));
    if w.crash == Some(v.state.receipts_created) {
        let last = EffectModel::SaveState(v.cut());
        let t = w.ran(keys, result);
        assert(t.effects =~= written + seq![last]);
        assert(played(t.next, world).effects.len() == 0);
        assert(t.effects + played(t.next, world).effects =~= written + seq![last]);
        assert(saved(seq![last]) == Some(v.cut())) by {
            assert(seq![last].last() == last);
        }
        lemma_saved_concat(written, seq![last]);
        lemma_kept_concat(w.receipts, written, seq![last]);
        lemma_kept_one(v.receipts, last);
    } else {
        lemma_settled(v, world, r);
        lemma_goes_on(w, v.settled(r), written, world);
    }
}

/// A verification that leaves the run verified found nothing out of scope, every
/// required command may be run and has a receipt over the present tree that is a
/// pass, and the state carries the digest of that tree. One that does not leaves
/// the run open. The status tells what was saved, and the run's identity stays.
pub proof fn law_verified_means_every_command_passed(
    goal: GoalModel,
    state: StateModel,
    run_id: Seq<char>,
    tree: TreeModel,
    receipts: Seq<ReceiptModel>,
    rerun: bool,
    crash: Option<nat>,
    world: World,
)
    requires
        faithful(world),
        honest(world, receipts),
    ensures
        ({
            let p = verification(goal, state, run_id, tree, receipts, rerun, crash, world);
            let effects = p.effects;
            &&& saved(effects) matches Some(s) && {
                &&& p.status == plan::status_of(run_id, s, kept(receipts, effects).len())
                &&& s.verified ==> {
                    &&& plan::outside(goal, tree).len() == 0
                    &&& all_proved(
                        goal,
                        kept(receipts, effects),
                        tree.digest,
                        goal.required.len(),
                    )
                    &&& s.guard_phase == "verified"@
                    &&& s.verified_digest == tree.digest
                    &&& s.commands_passed == goal.required.len()
                    &&& s.commands_required == goal.required.len()
                    &&& s.out_of_scope == 0
                }
                &&& !s.verified ==> s.guard_phase == "open"@
                &&& s.out_of_scope == plan::outside(goal, tree).len()
                &&& s.run_id == state.run_id
                &&& s.goal == state.goal
                &&& s.status == state.status
                &&& s.kind == state.kind
            }
        }),
{
    let outs = plan::outside(goal, tree);
    let t = verify::first_turn(goal, state, run_id, tree, receipts, rerun, crash);
    let all = played_out(t, world).effects;
    if outs.len() > 0 {
        assert(played(t.next, world).effects.len() == 0);
        assert(all =~= t.effects);
        assert(all.last() == EffectModel::SaveState(verify::gated(state, outs.len())));
        assert forall|i: int| 0 <= i < all.len() implies !(#[trigger] all[i] is SaveReceipt) by {
            if i < outs.len() {
                assert(all[i] == verify::scope_event(goal, outs[i]));
            }
        }
        lemma_nothing_kept(receipts, all);
    } else {
        let w = verify::opened(goal, state, run_id, tree.digest, receipts, rerun, crash);
        assert(inv(w, world));
        assert(kept(receipts, Seq::empty()) == receipts);
        lemma_goes_on(w, w, Seq::empty(), world);
        assert(w.resumed().after(Seq::empty()).effects =~= w.resumed().effects);
        assert(w.resumed().after(Seq::empty()) == t);
    }
}

// ----- commands that pass -----

/// No receipt over the tree is a failure.
pub open spec fn nothing_failed(receipts: Seq<ReceiptModel>, digest: Seq<char>) -> bool {
    forall|k: int|
        0 <= k < receipts.len() && json::text_at((#[trigger] receipts[k]).input, "tree"@) == Some(
            digest,
        ) ==> receipts[k].passed()
}

spec fn clean(w: WorkModel, world: World) -> bool {
    &&& w.failures.len() == 0
    &&& w.passed == w.index
    &&& w.index <= w.goal.required.len()
    &&& w.crash is None
    &&& !w.goal.misconfigured()
    &&& honest(world, w.receipts)
    &&& nothing_failed(w.receipts, w.digest)
}

spec fn leaves_verified(effects: Seq<EffectModel>) -> bool {
    saved(effects) matches Some(s) && s.verified
}

proof fn lemma_clean_goes_on(v: WorkModel, first: Seq<EffectModel>, world: World)
    requires
        faithful(world),
        forall|i: nat| (#[trigger] (world.shell)(i)).passed(),
        clean(v, world),
    ensures
        leaves_verified(played_out(v.resumed().after(first), world).effects),
    decreases v.goal.required.len() - v.index, 1nat,
{
    let t = v.resumed();
    let rest = played(t.next, world).effects;
    if v.index < v.goal.required.len() {
        assert(v.goal.permits(v.goal.required[v.index as int]));
        assert(v.skipped() == v);
        lemma_clean_key(v, world);
        assert(t.after(first).effects =~= first);
        lemma_saved_concat(first, rest);
    } else {
        assert(v.skipped() == v);
        assert(rest.len() == 0);
        assert(t.after(first).effects + rest =~= first + t.effects);
        assert(t.effects.last() == EffectModel::SaveState(v.concluded()));
        lemma_saved_concat(first, t.effects);
    }
}

proof fn lemma_clean_key(w: WorkModel, world: World)
    requires
        faithful(world),
        forall|i: nat| (#[trigger] (world.shell)(i)).passed(),
        clean(w, world),
        w.index < w.goal.required.len(),
    ensures
        leaves_verified(played(NextModel::Key(w), world).effects),
    decreases w.goal.required.len() - w.index, 0nat,
{
    let keys = (world.keys)(verify::action_of(w.command()), w.input());
    assert(keys.key == key_for(world, w.command(), w.digest, w.attempts()));
    lemma_member_names();
    match store::keyed(w.receipts, keys.key) {
        Some(r) => {
            store::law_found_receipt_is_kept(w.receipts, keys.key);
            let k = choose|k: int| 0 <= k < w.receipts.len() && w.receipts[k] == r;
            assert(w.receipts[k].input == w.input());
            assert(json::text_at(w.receipts[k].input, "tree"@) == Some(w.digest));
            assert(r.passed());
            let first = seq![verify::reused_event(r.receipt_id, w.command())];
            lemma_clean_goes_on(w.settled(r), first, world);
        },
        None => {
            let result = (world.shell)(w.index);
            let r = verify::minted(w, keys, result);
            let v = w.recorded(r);
            law_receipt_says_how_the_command_ended(w, keys, result);
            assert(honest(world, v.receipts));
            assert(nothing_failed(v.receipts, v.digest));
            let written = seq![
                EffectModel::SaveReceipt(r),
                verify::created_event(keys.receipt_id, w.command(), keys.key),
            ];
            lemma_clean_goes_on(v.settled(r), written, world);
            let rest = played(NextModel::Run(w, keys), world).effects;
            assert(rest == played_out(v.settled(r).resumed().after(written), world).effects);
            lemma_saved_concat(seq![verify::executed_event(w.command())], rest);
        },
    }
}

/// Where nothing is out of scope, every required command may be run and passes,
/// and no receipt over the tree is a failure, the run is left verified.
pub proof fn law_passing_commands_verify(
    goal: GoalModel,
    state: StateModel,
    run_id: Seq<char>,
    tree: TreeModel,
    receipts: Seq<ReceiptModel>,
    rerun: bool,
    world: World,
)
    requires
        faithful(world),
        honest(world, receipts),
        nothing_failed(receipts, tree.digest),
        forall|i: nat| (#[trigger] (world.shell)(i)).passed(),
        plan::outside(goal, tree).len() == 0,
        !goal.misconfigured(),
    ensures
        saved(
            verification(goal, state, run_id, tree, receipts, rerun, None, world).effects,
        ) matches Some(s) && s.verified,
{
    let w = verify::opened(goal, state, run_id, tree.digest, receipts, rerun, None);
    lemma_clean_goes_on(w, Seq::empty(), world);
    assert(w.resumed().after(Seq::empty()).effects =~= w.resumed().effects);
}

// ----- which commands are run -----

/// The command is run.
pub open spec fn runs(effects: Seq<EffectModel>, command: Seq<char>) -> bool {
    effects.contains(verify::executed_event(command))
}

/// The key of a command over a tree, where no fresh run is asked for.
pub open spec fn key_over(world: World, command: Seq<char>, digest: Seq<char>) -> Seq<char> {
    key_for(world, command, digest, None)
}

/// The event that a command is run tells the command.
pub proof fn lemma_executed_event(a: Seq<char>, b: Seq<char>)
    ensures
        verify::executed_event(a) == verify::executed_event(b) <==> a == b,
{
    lemma_member_names();
    let x = verify::executed_event(a)->Append_0.payload;
    let y = verify::executed_event(b)->Append_0.payload;
    assert(x.member("command"@) == Some(Json::Str(a)));
    assert(y.member("command"@) == Some(Json::Str(b)));
}

/// A record of two lists stands in one of them.
pub proof fn lemma_contains_concat(a: Seq<EffectModel>, b: Seq<EffectModel>, e: EffectModel)
    ensures
        (a + b).contains(e) <==> a.contains(e) || b.contains(e),
{
    if a.contains(e) {
        let i = choose|i: int| 0 <= i < a.len() && a[i] == e;
        assert((a + b)[i] == e);
    }
    if b.contains(e) {
        let i = choose|i: int| 0 <= i < b.len() && b[i] == e;
        assert((a + b)[a.len() + i] == e);
    }
}

proof fn lemma_kept_finds(receipts: Seq<ReceiptModel>, effects: Seq<EffectModel>, key: Seq<char>)
    requires
        store::keyed(receipts, key) is Some,
    ensures
        store::keyed(kept(receipts, effects), key) is Some,
    decreases effects.len(),
{
    if effects.len() > 0 {
        lemma_kept_finds(receipts, effects.drop_last(), key);
        if let EffectModel::SaveReceipt(r) = effects.last() {
            store::law_added_receipt_is_found(kept(receipts, effects.drop_last()), r, key);
        }
    }
}

/// A command that is run is allowed; where no fresh run is asked for it had no
/// receipt over the tree, and has one now.
spec fn runs_rightly(
    w: WorkModel,
    effects: Seq<EffectModel>,
    world: World,
    command: Seq<char>,
) -> bool {
    runs(effects, command) ==> {
        &&& w.goal.permits(command)
        &&& !w.rerun ==> {
            &&& store::keyed(w.receipts, key_over(world, command, w.digest)) is None
            &&& store::keyed(
                kept(w.receipts, effects),
                key_over(world, command, w.digest),
            ) is Some
        }
    }
}

proof fn lemma_runs_after(
    w: WorkModel,
    v: WorkModel,
    first: Seq<EffectModel>,
    rest: Seq<EffectModel>,
    world: World,
    command: Seq<char>,
)
    requires
        runs_rightly(v, rest, world, command),
        !runs(first, command),
        v.goal == w.goal,
        v.digest == w.digest,
        v.rerun == w.rerun,
        v.receipts == kept(w.receipts, first),
    ensures
        runs_rightly(w, first + rest, world, command),
{
    lemma_contains_concat(first, rest, verify::executed_event(command));
    lemma_kept_concat(w.receipts, first, rest);
    let key = key_over(world, command, w.digest);
    if store::keyed(w.receipts, key) is Some {
        lemma_kept_finds(w.receipts, first, key);
    }
}

proof fn lemma_runs_goes_on(
    w: WorkModel,
    v: WorkModel,
    first: Seq<EffectModel>,
    world: World,
    command: Seq<char>,
)
    requires
        v.index <= v.goal.required.len(),
        !runs(first, command),
        v.goal == w.goal,
        v.digest == w.digest,
        v.rerun == w.rerun,
        v.receipts == kept(w.receipts, first),
    ensures
        runs_rightly(
            w,
            played_out(v.resumed().after(first), world).effects,
            world,
            command,
        ),
    decreases v.goal.required.len() - v.index, 1nat,
{
    lemma_skipped(v);
    let t = v.resumed();
    let rest = played(t.next, world).effects;
    match t.next {
        NextModel::Key(u) => {
            lemma_runs_key(u, world, command);
            assert(t.after(first).effects =~= first);
            lemma_runs_after(w, u, first, rest, world, command);
        },
        _ => {
            assert(rest.len() == 0);
            assert(t.after(first).effects + rest =~= first + t.effects);
            assert(!runs(t.effects, command));
            lemma_runs_after(w, v, first, t.effects, world, command);
        },
    }
}

proof fn lemma_runs_key(w: WorkModel, world: World, command: Seq<char>)
    requires
        w.index < w.goal.required.len(),
        w.goal.permits(w.command()),
    ensures
        runs_rightly(w, played(NextModel::Key(w), world).effects, world, command),
    decreases w.goal.required.len() - w.index, 0nat,
{
    let keys = (world.keys)(verify::action_of(w.command()), w.input());
    assert(keys.key == key_for(world, w.command(), w.digest, w.attempts()));
    match store::keyed(w.receipts, keys.key) {
        Some(r) => {
            let first = seq![verify::reused_event(r.receipt_id, w.command())];
            assert(!runs(first, command));
            lemma_kept_one(w.receipts, first[0]);
            lemma_runs_goes_on(w, w.settled(r), first, world, command);
        },
        None => {
            let result = (world.shell)(w.index);
            let r = verify::minted(w, keys, result);
            let v = w.recorded(r);
            let written = seq![
                EffectModel::SaveReceipt(r),
                verify::created_event(keys.receipt_id, w.command(), keys.key),
            ];
            lemma_kept_two(w.receipts, written[0], written[1]);
            lemma_kept_one(w.receipts, written[0]);
            lemma_kept_one(w.receipts.push(r), written[1]);
            assert(kept(w.receipts, written) == v.receipts);
            assert(!runs(written, command));
            let t = w.ran(keys, result);
            let rest = played(NextModel::Run(w, keys), world).effects;
            if w.crash == Some(v.state.receipts_created) {
                let last = seq![EffectModel::SaveState(v.cut())];
                assert(t.effects =~= written + last);
                assert(played(t.next, world).effects.len() == 0);
                assert(rest == t.effects + played(t.next, world).effects);
                assert(rest =~= written + last);
                assert(!runs(last, command));
                lemma_runs_after(w, v, written, last, world, command);
            } else {
                lemma_runs_goes_on(w, v.settled(r), written, world, command);
                assert(rest == played_out(v.settled(r).resumed().after(written), world).effects);
            }
            let first = seq![verify::executed_event(w.command())];
            let all = first + rest;
            assert(played(NextModel::Key(w), world).effects =~= all);
            lemma_contains_concat(first, rest, verify::executed_event(command));
            lemma_kept_one(w.receipts, first[0]);
            lemma_kept_concat(w.receipts, first, rest);
            if first.contains(verify::executed_event(command)) {
                lemma_executed_event(w.command(), command);
                assert(first[0] == verify::executed_event(command));
                if !w.rerun {
                    // The receipt of this run is the first record of the rest.
                    assert(rest[0] == EffectModel::SaveReceipt(r));
                    assert(rest =~= seq![rest[0]] + rest.skip(1));
                    lemma_kept_one(w.receipts, rest[0]);
                    lemma_kept_concat(w.receipts, seq![rest[0]], rest.skip(1));
                    store::law_added_receipt_is_found(w.receipts, r, keys.key);
                    lemma_kept_finds(w.receipts.push(r), rest.skip(1), keys.key);
                }
            }
        },
    }
}

proof fn lemma_runs(
    goal: GoalModel,
    state: StateModel,
    run_id: Seq<char>,
    tree: TreeModel,
    receipts: Seq<ReceiptModel>,
    rerun: bool,
    crash: Option<nat>,
    world: World,
    command: Seq<char>,
)
    ensures
        runs_rightly(
            verify::opened(goal, state, run_id, tree.digest, receipts, rerun, crash),
            verification(goal, state, run_id, tree, receipts, rerun, crash, world).effects,
            world,
            command,
        ),
{
    let outs = plan::outside(goal, tree);
    let w = verify::opened(goal, state, run_id, tree.digest, receipts, rerun, crash);
    let t = verify::first_turn(goal, state, run_id, tree, receipts, rerun, crash);
    if outs.len() > 0 {
        assert(played(t.next, world).effects.len() == 0);
        assert(played_out(t, world).effects =~= t.effects);
        assert(!runs(t.effects, command)) by {
            if runs(t.effects, command) {
                let i = choose|i: int|
                    0 <= i < t.effects.len() && t.effects[i] == verify::executed_event(command);
                if i < outs.len() {
                    assert(t.effects[i] == verify::scope_event(goal, outs[i]));
                }
            }
        }
    } else {
        assert(kept(receipts, Seq::empty()) == receipts);
        assert(!runs(Seq::empty(), command));
        lemma_runs_goes_on(w, w, Seq::empty(), world, command);
        assert(w.resumed().after(Seq::empty()).effects =~= w.resumed().effects);
    }
}

/// A verification runs no command that the goal does not allow.
pub proof fn law_only_allowed_commands_are_run(
    goal: GoalModel,
    state: StateModel,
    run_id: Seq<char>,
    tree: TreeModel,
    receipts: Seq<ReceiptModel>,
    rerun: bool,
    crash: Option<nat>,
    world: World,
    command: Seq<char>,
)
    requires
        runs(
            verification(goal, state, run_id, tree, receipts, rerun, crash, world).effects,
            command,
        ),
    ensures
        goal.permits(command),
{
    lemma_runs(goal, state, run_id, tree, receipts, rerun, crash, world, command);
}

/// A command that has a receipt over the present tree is not run again, unless
/// a fresh run is asked for.
pub proof fn law_receipt_is_used_again(
    goal: GoalModel,
    state: StateModel,
    run_id: Seq<char>,
    tree: TreeModel,
    receipts: Seq<ReceiptModel>,
    crash: Option<nat>,
    world: World,
    command: Seq<char>,
)
    requires
        store::keyed(receipts, key_over(world, command, tree.digest)) is Some,
    ensures
        !runs(
            verification(goal, state, run_id, tree, receipts, false, crash, world).effects,
            command,
        ),
{
    lemma_runs(goal, state, run_id, tree, receipts, false, crash, world, command);
}

/// Over one tree no command is run twice: a verification that was cut short
/// after a receipt, or ended, and is begun again over the same tree runs none of
/// the commands that it ran before.
pub proof fn law_no_command_runs_twice_over_a_tree(
    goal: GoalModel,
    first_state: StateModel,
    next_state: StateModel,
    run_id: Seq<char>,
    tree: TreeModel,
    receipts: Seq<ReceiptModel>,
    first_crash: Option<nat>,
    next_crash: Option<nat>,
    first_world: World,
    next_world: World,
    command: Seq<char>,
)
    requires
        first_world.keys == next_world.keys,
        runs(
            verification(
                goal,
                first_state,
                run_id,
                tree,
                receipts,
                false,
                first_crash,
                first_world,
            ).effects,
            command,
        ),
    ensures
        ({
            let left = kept(
                receipts,
                verification(
                    goal,
                    first_state,
                    run_id,
                    tree,
                    receipts,
                    false,
                    first_crash,
                    first_world,
                ).effects,
            );
            !runs(
                verification(
                    goal,
                    next_state,
                    run_id,
                    tree,
                    left,
                    false,
                    next_crash,
                    next_world,
                ).effects,
                command,
            )
        }),
{
    lemma_runs(
        goal,
        first_state,
        run_id,
        tree,
        receipts,
        false,
        first_crash,
        first_world,
        command,
    );
    let left = kept(
        receipts,
        verification(
            goal,
            first_state,
            run_id,
            tree,
            receipts,
            false,
            first_crash,
            first_world,
        ).effects,
    );
    lemma_runs(goal, next_state, run_id, tree, left, false, next_crash, next_world, command);
}

/// A changed tree is verified afresh: a command with no receipt over the present
/// tree is run.
pub proof fn law_changed_tree_is_run_afresh(w: WorkModel, world: World)
    requires
        honest(world, w.receipts),
        forall|k: int|
            0 <= k < w.receipts.len() ==> json::text_at(
                (#[trigger] w.receipts[k]).input,
                "tree"@,
            ) != Some(w.digest),
    ensures
        w.keyed((world.keys)(verify::action_of(w.command()), w.input())).next is Run,
{
    let keys = (world.keys)(verify::action_of(w.command()), w.input());
    assert(keys.key == key_for(world, w.command(), w.digest, w.attempts()));
    lemma_member_names();
    store::law_found_receipt_is_kept(w.receipts, keys.key);
    if let Some(r) = store::keyed(w.receipts, keys.key) {
        let k = choose|k: int| 0 <= k < w.receipts.len() && w.receipts[k] == r;
        assert(w.receipts[k].input == w.input());
    }
}

/// The receipts of fresh runs carry numbers below the count of their command's
/// receipts.
pub open spec fn numbered(receipts: Seq<ReceiptModel>) -> bool {
    forall|k: int, c: Seq<char>, d: Seq<char>, n: nat|
        0 <= k < receipts.len() && (#[trigger] receipts[k]).input == #[trigger] verify::key_input(
            c,
            d,
            Some(n),
        ) ==> n < store::about(receipts, c).len()
}

/// One more receipt about a command is counted.
pub proof fn lemma_about_push(receipts: Seq<ReceiptModel>, r: ReceiptModel, command: Seq<char>)
    ensures
        store::about(receipts.push(r), command).len() == store::about(receipts, command).len()
            + if r.command() == Some(command) {
            1nat
        } else {
            0nat
        },
{
    reveal(Seq::filter);
    assert(receipts.push(r).drop_last() =~= receipts);
}

/// Every receipt that a verification writes keeps the numbering.
pub proof fn law_numbering_is_kept(w: WorkModel, keys: KeysModel, result: ShellModel)
    requires
        numbered(w.receipts),
    ensures
        numbered(w.recorded(verify::minted(w, keys, result)).receipts),
{
    let r = verify::minted(w, keys, result);
    let more = w.receipts.push(r);
    law_receipt_says_how_the_command_ended(w, keys, result);
    assert forall|k: int, c: Seq<char>, d: Seq<char>, n: nat|
        0 <= k < more.len() && (#[trigger] more[k]).input == #[trigger] verify::key_input(
            c,
            d,
            Some(n),
        ) implies n < store::about(more, c).len() by {
        lemma_about_push(w.receipts, r, c);
        if k == w.receipts.len() {
            law_key_input_tells_all(w.command(), w.digest, w.attempts(), c, d, Some(n));
        } else {
            assert(more[k] == w.receipts[k]);
        }
    }
}

/// Where a fresh run is asked for, the command is run, whatever receipts there
/// are; and the receipt of that run keeps the numbering, so the next fresh run
/// is run too.
pub proof fn law_fresh_run_is_run(w: WorkModel, world: World, result: ShellModel)
    requires
        w.rerun,
        honest(world, w.receipts),
        numbered(w.receipts),
    ensures
        ({
            let keys = (world.keys)(verify::action_of(w.command()), w.input());
            &&& w.keyed(keys).next == NextModel::Run(w, keys)
            &&& numbered(w.recorded(verify::minted(w, keys, result)).receipts)
        }),
{
    let keys = (world.keys)(verify::action_of(w.command()), w.input());
    assert(keys.key == key_for(world, w.command(), w.digest, w.attempts()));
    store::law_found_receipt_is_kept(w.receipts, keys.key);
    if let Some(r) = store::keyed(w.receipts, keys.key) {
        let k = choose|k: int| 0 <= k < w.receipts.len() && w.receipts[k] == r;
        assert(w.receipts[k].input == w.input());
    }
    law_numbering_is_kept(w, keys, result);
}

// ----- the write scope -----

/// A change out of scope blocks a verification before any command is run: no
/// command, no receipt, and the run is left open and not verified.
pub proof fn law_out_of_scope_blocks_verify(
    goal: GoalModel,
    state: StateModel,
    run_id: Seq<char>,
    tree: TreeModel,
    receipts: Seq<ReceiptModel>,
    rerun: bool,
    crash: Option<nat>,
    world: World,
    path: Seq<char>,
)
    requires
        tree.diff().all().contains(path),
        !goal.writable(path),
    ensures
        ({
            let p = verification(goal, state, run_id, tree, receipts, rerun, crash, world);
            &&& !p.status.verified
            &&& p.status.phase == "open"@
            &&& p.status.out_of_scope > 0
            &&& saved(p.effects) matches Some(s) && !s.verified && s.guard_phase == "open"@
            &&& kept(receipts, p.effects) == receipts
            &&& forall|c: Seq<char>| !#[trigger] runs(p.effects, c)
            &&& p.effects.contains(verify::scope_event(goal, path))
        }),
{
    lemma_path_outside(goal, tree, path);
    let outs = plan::outside(goal, tree);
    let t = verify::first_turn(goal, state, run_id, tree, receipts, rerun, crash);
    let p = played_out(t, world);
    assert(played(t.next, world).effects.len() == 0);
    assert(p.effects =~= t.effects);
    assert(t.effects.last() == EffectModel::SaveState(verify::gated(state, outs.len())));
    assert forall|c: Seq<char>| !#[trigger] runs(p.effects, c) by {
        if runs(p.effects, c) {
            let i = choose|i: int|
                0 <= i < t.effects.len() && t.effects[i] == verify::executed_event(c);
            if i < outs.len() {
                assert(t.effects[i] == verify::scope_event(goal, outs[i]));
            }
        }
    }
    assert forall|i: int| 0 <= i < t.effects.len() implies !(#[trigger] t.effects[i] is SaveReceipt) by {
        if i < outs.len() {
            assert(t.effects[i] == verify::scope_event(goal, outs[i]));
        }
    }
    lemma_nothing_kept(receipts, t.effects);
    let k = choose|k: int| 0 <= k < outs.len() && outs[k] == path;
    assert(t.effects[k] == verify::scope_event(goal, outs[k]));
}

proof fn lemma_path_outside(goal: GoalModel, tree: TreeModel, path: Seq<char>)
    requires
        tree.diff().all().contains(path),
        !goal.writable(path),
    ensures
        plan::outside(goal, tree).contains(path),
{
    lemma_filtered(tree.diff().all(), |p: Seq<char>| !goal.writable(p), path);
}

/// What a filter keeps.
pub proof fn lemma_filtered(all: Seq<Seq<char>>, keep: spec_fn(Seq<char>) -> bool, path: Seq<char>)
    ensures
        all.filter(keep).contains(path) <==> all.contains(path) && keep(path),
    decreases all.len(),
{
    reveal(Seq::filter);
    if all.len() > 0 {
        let less = all.drop_last();
        lemma_filtered(less, keep, path);
        if less.contains(path) {
            let k = choose|k: int| 0 <= k < less.len() && less[k] == path;
            assert(all[k] == path);
        }
        if all.contains(path) && path != all.last() {
            let k = choose|k: int| 0 <= k < all.len() && all[k] == path;
            assert(less[k] == path);
        }
        if keep(all.last()) {
            let more = less.filter(keep);
            assert(all.filter(keep) == more.push(all.last()));
            if more.contains(path) {
                let k = choose|k: int| 0 <= k < more.len() && more[k] == path;
                assert(more.push(all.last())[k] == path);
            }
            if path == all.last() {
                assert(more.push(all.last())[more.len() as int] == path);
            }
        }
    }
}

proof fn lemma_nothing_kept(receipts: Seq<ReceiptModel>, effects: Seq<EffectModel>)
    requires
        forall|i: int| 0 <= i < effects.len() ==> !(#[trigger] effects[i] is SaveReceipt),
    ensures
        kept(receipts, effects) == receipts,
    decreases effects.len(),
{
    if effects.len() > 0 {
        assert(!(effects[effects.len() - 1] is SaveReceipt));
        assert forall|i: int| 0 <= i < effects.drop_last().len() implies !(
        #[trigger] effects.drop_last()[i] is SaveReceipt) by {
            assert(!(effects[i] is SaveReceipt));
        }
        lemma_nothing_kept(receipts, effects.drop_last());
    }
}

/// A change out of scope blocks the commit, verified or not, and nothing of the
/// run changes but the count of such files.
pub proof fn law_out_of_scope_blocks_commit(
    goal: GoalModel,
    state: StateModel,
    run_id: Seq<char>,
    tree: TreeModel,
    receipts: nat,
    path: Seq<char>,
)
    requires
        tree.diff().all().contains(path),
        !goal.writable(path),
    ensures
        ({
            let end = ledger::commit_of(goal, state, run_id, tree, receipts);
            &&& !end.outcome.ok
            &&& end.effects.contains(verify::scope_event(goal, path))
            &&& saved(end.effects) == Some(
                StateModel { out_of_scope: plan::outside(goal, tree).len(), ..state },
            )
        }),
{
    lemma_path_outside(goal, tree, path);
    let outs = plan::outside(goal, tree);
    let end = ledger::commit_of(goal, state, run_id, tree, receipts);
    let k = choose|k: int| 0 <= k < outs.len() && outs[k] == path;
    assert(end.effects[k] == verify::scope_event(goal, outs[k]));
}

/// Where the goal restricts no writing, nothing is ever out of scope.
pub proof fn law_no_restriction_nothing_outside(goal: GoalModel, tree: TreeModel)
    requires
        goal.fs_write.len() == 0,
    ensures
        plan::outside(goal, tree).len() == 0,
{
    let outs = plan::outside(goal, tree);
    if outs.len() > 0 {
        lemma_filtered(tree.diff().all(), |p: Seq<char>| !goal.writable(p), outs[0]);
        assert(outs.contains(outs[0]));
    }
}

/// Every changed file is either in scope or out of scope, never both.
pub proof fn law_scope_parts_the_changes(goal: GoalModel, tree: TreeModel, path: Seq<char>)
    ensures
        plan::inside(goal, tree).contains(path) <==> tree.diff().all().contains(path)
            && goal.writable(path),
        plan::outside(goal, tree).contains(path) <==> tree.diff().all().contains(path)
            && !goal.writable(path),
{
    lemma_filtered(tree.diff().all(), |p: Seq<char>| goal.writable(p), path);
    lemma_filtered(tree.diff().all(), |p: Seq<char>| !goal.writable(p), path);
}

// ----- commit and abort -----

/// A commit succeeds iff nothing is out of scope, the run is verified and the
/// tree is the one that was verified; then the run is completed.
pub proof fn law_commit_needs_the_verified_tree(
    goal: GoalModel,
    state: StateModel,
    run_id: Seq<char>,
    tree: TreeModel,
    receipts: nat,
)
    ensures
        ({
            let end = ledger::commit_of(goal, state, run_id, tree, receipts);
            &&& end.outcome.ok <==> plan::outside(goal, tree).len() == 0 && state.verified
                && tree.digest == state.verified_digest
            &&& end.outcome.ok <==> end.outcome.reason is None
            &&& end.outcome.ok ==> saved(end.effects) == Some(ledger::committed(state))
            &&& !end.outcome.ok ==> (saved(end.effects) is None || saved(end.effects) == Some(
                StateModel { out_of_scope: plan::outside(goal, tree).len(), ..state },
            ))
        }),
{
    let end = ledger::commit_of(goal, state, run_id, tree, receipts);
    if end.outcome.ok {
        assert(end.effects.last() == EffectModel::SaveState(ledger::committed(state)));
    } else if plan::outside(goal, tree).len() > 0 {
        assert(end.effects.last() is SaveState);
    } else {
        assert(saved(end.effects) is None);
    }
}

/// After a verification that left the run verified, a commit over the same tree
/// succeeds.
pub proof fn law_verified_run_commits(
    goal: GoalModel,
    state: StateModel,
    run_id: Seq<char>,
    tree: TreeModel,
    receipts: Seq<ReceiptModel>,
    rerun: bool,
    crash: Option<nat>,
    world: World,
)
    requires
        faithful(world),
        honest(world, receipts),
        saved(
            verification(goal, state, run_id, tree, receipts, rerun, crash, world).effects,
        ) matches Some(s) && s.verified,
    ensures
        ({
            let effects = verification(
                goal,
                state,
                run_id,
                tree,
                receipts,
                rerun,
                crash,
                world,
            ).effects;
            let s = saved(effects)->Some_0;
            ledger::commit_of(goal, s, run_id, tree, kept(receipts, effects).len()).outcome.ok
        }),
{
    law_verified_means_every_command_passed(
        goal,
        state,
        run_id,
        tree,
        receipts,
        rerun,
        crash,
        world,
    );
}

/// After a verification that left the run verified, a commit over a tree with
/// another digest is refused.
pub proof fn law_editing_after_verify_blocks_commit(
    goal: GoalModel,
    state: StateModel,
    run_id: Seq<char>,
    tree: TreeModel,
    receipts: Seq<ReceiptModel>,
    rerun: bool,
    crash: Option<nat>,
    world: World,
    edited: TreeModel,
    count: nat,
)
    requires
        faithful(world),
        honest(world, receipts),
        saved(
            verification(goal, state, run_id, tree, receipts, rerun, crash, world).effects,
        ) matches Some(s) && s.verified,
        edited.digest != tree.digest,
    ensures
        ({
            let effects = verification(
                goal,
                state,
                run_id,
                tree,
                receipts,
                rerun,
                crash,
                world,
            ).effects;
            let s = saved(effects)->Some_0;
            let end = ledger::commit_of(goal, s, run_id, edited, count);
            &&& !end.outcome.ok
            &&& plan::outside(goal, edited).len() == 0 ==> end.outcome.reason == Some(
                "tree changed since verify — run `tach guard verify` again"@,
            )
        }),
{
    law_verified_means_every_command_passed(
        goal,
        state,
        run_id,
        tree,
        receipts,
        rerun,
        crash,
        world,
    );
}

/// A verified and committed run replays as it was recorded: the receipts say
/// what the verified bit says, and the status is that of a completed run.
pub proof fn law_replay_is_consistent_after_commit(
    goal: GoalModel,
    state: StateModel,
    run_id: Seq<char>,
    tree: TreeModel,
    receipts: Seq<ReceiptModel>,
    rerun: bool,
    crash: Option<nat>,
    world: World,
)
    requires
        faithful(world),
        honest(world, receipts),
        saved(
            verification(goal, state, run_id, tree, receipts, rerun, crash, world).effects,
        ) matches Some(s) && s.verified,
    ensures
        ({
            let effects = verification(
                goal,
                state,
                run_id,
                tree,
                receipts,
                rerun,
                crash,
                world,
            ).effects;
            let end = ledger::committed(saved(effects)->Some_0);
            let found = ledger::replay_of(goal, end, kept(receipts, effects));
            &&& found.identical
            &&& found.replayed_status == "completed"@
            &&& found.recorded_status == "completed"@
        }),
{
    law_verified_means_every_command_passed(
        goal,
        state,
        run_id,
        tree,
        receipts,
        rerun,
        crash,
        world,
    );
    let effects = verification(
        goal,
        state,
        run_id,
        tree,
        receipts,
        rerun,
        crash,
        world,
    ).effects;
    let left = kept(receipts, effects);
    assert forall|i: int| 0 <= i < goal.required.len() implies ledger::proved(
        left,
        #[trigger] goal.required[i],
    ) by {
        assert(proved_on(left, goal.required[i], tree.digest));
    }
}

/// As many commands passed as there are iff each did.
pub proof fn lemma_passes(results: Seq<ShellModel>)
    ensures
        ledger::passes(results) <= results.len(),
        ledger::passes(results) == results.len() <==> forall|i: int|
            0 <= i < results.len() ==> (#[trigger] results[i]).passed(),
    decreases results.len(),
{
    if results.len() > 0 {
        let less = results.drop_last();
        lemma_passes(less);
        if ledger::passes(results) == results.len() {
            assert forall|i: int| 0 <= i < results.len() implies (#[trigger] results[i]).passed() by {
                if i < less.len() {
                    assert(less[i].passed());
                }
            }
        }
        if forall|i: int| 0 <= i < results.len() ==> (#[trigger] results[i]).passed() {
            assert(results[results.len() - 1].passed());
            assert forall|i: int| 0 <= i < less.len() implies (#[trigger] less[i]).passed() by {
                assert(results[i].passed());
            }
        }
    }
}

/// A replay runs again each required command that may be run: all of them, in
/// order, iff none is forbidden.
proof fn lemma_all_again(goal: GoalModel, required: Seq<Seq<char>>, digest: Seq<char>)
    ensures
        ledger::all_again(goal, required, digest).len() <= required.len(),
        ledger::all_again(goal, required, digest).len() == required.len() <==> forall|i: int|
            0 <= i < required.len() ==> goal.permits(#[trigger] required[i]),
        ledger::all_again(goal, required, digest).len() == required.len() ==> forall|i: int|
            0 <= i < required.len() ==> #[trigger] ledger::all_again(goal, required, digest)[i]
                == ledger::again(required[i], digest),
    decreases required.len(),
{
    if required.len() > 0 {
        let less = required.drop_last();
        let list = ledger::all_again(goal, required, digest);
        lemma_all_again(goal, less, digest);
        if list.len() == required.len() {
            assert(goal.permits(required.last()));
            assert forall|i: int| 0 <= i < required.len() implies goal.permits(
                #[trigger] required[i],
            ) by {
                if i < less.len() {
                    assert(goal.permits(less[i]));
                }
            }
            assert forall|i: int| 0 <= i < required.len() implies #[trigger] list[i]
                == ledger::again(required[i], digest) by {
                if i < less.len() {
                    assert(list[i] == ledger::all_again(goal, less, digest)[i]);
                    assert(less[i] == required[i]);
                }
            }
        }
        if forall|i: int| 0 <= i < required.len() ==> goal.permits(#[trigger] required[i]) {
            assert(goal.permits(required[required.len() - 1]));
            assert forall|i: int| 0 <= i < less.len() implies goal.permits(#[trigger] less[i]) by {
                assert(goal.permits(required[i]));
            }
        }
    }
}

/// A replay that runs the commands again says "completed" iff every required
/// command may be run and passes, and finds the run as it was recorded iff that
/// is what the verified bit says. `results` are how the commands of the replay
/// ended, in order; where all may be run, they are the required ones.
pub proof fn law_rerun_completes_iff_every_command_passes(
    goal: GoalModel,
    state: StateModel,
    digest: Seq<char>,
    results: Seq<ShellModel>,
)
    requires
        results.len() == ledger::all_again(goal, goal.required, digest).len(),
    ensures
        ({
            let every = !goal.misconfigured() && forall|i: int|
                0 <= i < results.len() ==> (#[trigger] results[i]).passed();
            let found = ledger::rerun_of(goal, state, results);
            &&& found.replayed_status == "completed"@ <==> every
            &&& found.identical <==> every == state.verified
        }),
        !goal.misconfigured() ==> results.len() == goal.required.len() && forall|i: int|
            0 <= i < goal.required.len() ==> #[trigger] ledger::all_again(
                goal,
                goal.required,
                digest,
            )[i] == ledger::again(goal.required[i], digest),
{
    reveal_strlit("completed");
    reveal_strlit("failed");
    assert("completed"@.len() == 9 && "failed"@.len() == 6);
    lemma_passes(results);
    lemma_all_again(goal, goal.required, digest);
}

// ----- the agent's next move -----

proof fn lemma_actions()
    ensures
        "finalize"@ != "done"@,
        "finalize"@ != "aborted"@,
        "finalize"@ != "blocked"@,
        "finalize"@ != "fix_scope_violation"@,
        "finalize"@ != "run_verify"@,
        "finalize"@ != "edit_then_verify"@,
        "done"@ != "aborted"@,
        "done"@ != "blocked"@,
        "done"@ != "fix_scope_violation"@,
        "done"@ != "run_verify"@,
        "done"@ != "edit_then_verify"@,
        "fix_scope_violation"@ != "aborted"@,
        "fix_scope_violation"@ != "blocked"@,
        "fix_scope_violation"@ != "run_verify"@,
        "fix_scope_violation"@ != "edit_then_verify"@,
{
    reveal_strlit("finalize");
    reveal_strlit("done");
    reveal_strlit("aborted");
    reveal_strlit("blocked");
    reveal_strlit("fix_scope_violation");
    reveal_strlit("run_verify");
    reveal_strlit("edit_then_verify");
    assert("finalize"@.len() == 8);
    assert("done"@.len() == 4);
    assert("aborted"@.len() == 7);
    assert("blocked"@.len() == 7);
    assert("fix_scope_violation"@.len() == 19);
    assert("run_verify"@.len() == 10);
    assert("edit_then_verify"@.len() == 16);
}

/// An agent is told to finalize only where a commit succeeds; and where a commit
/// of an open session would succeed, it is told so, unless a required command
/// may not be run.
pub proof fn law_finalize_is_told_where_commit_succeeds(
    goal: GoalModel,
    state: StateModel,
    run_id: Seq<char>,
    tree: TreeModel,
    failure: Option<Seq<char>>,
    receipts: nat,
)
    ensures
        ({
            let told = plan::next_move(goal, state, tree, failure);
            let end = ledger::commit_of(goal, state, run_id, tree, receipts);
            let terminal = state.guard_phase == "committed"@ || state.guard_phase == "aborted"@;
            told.action == "finalize"@ <==> end.outcome.ok && !terminal && !goal.misconfigured()
        }),
{
    lemma_actions();
}

/// An agent is told to mend the scope iff the session is open, every required
/// command may be run and some change is out of scope.
pub proof fn law_scope_is_to_be_mended(
    goal: GoalModel,
    state: StateModel,
    tree: TreeModel,
    failure: Option<Seq<char>>,
)
    ensures
        plan::next_move(goal, state, tree, failure).action == "fix_scope_violation"@ <==> (
        state.guard_phase != "committed"@ && state.guard_phase != "aborted"@
            && !goal.misconfigured() && plan::outside(goal, tree).len() > 0),
{
    lemma_actions();
}

/// A committed run tells its agent that it is done, an aborted one that it was
/// aborted, and neither names a command to run.
pub proof fn law_terminal_runs_are_over(
    goal: GoalModel,
    state: StateModel,
    tree: TreeModel,
    failure: Option<Seq<char>>,
)
    ensures
        ({
            let done = plan::next_move(goal, ledger::committed(state), tree, failure);
            &&& done.status == "finalized"@
            &&& done.action == "done"@
            &&& done.command.len() == 0
            &&& plan::rejection_for(goal, ledger::committed(state), tree, failure) is None
        }),
        ({
            let over = plan::next_move(goal, ledger::aborted(state), tree, failure);
            &&& over.status == "aborted"@
            &&& over.action == "aborted"@
            &&& over.command.len() == 0
            &&& plan::rejection_for(goal, ledger::aborted(state), tree, failure) is None
        }),
{
    reveal_strlit("committed");
    reveal_strlit("aborted");
    assert("committed"@.len() == 9 && "aborted"@.len() == 7);
}

/// A session that was just opened is open, not verified, and cannot be
/// committed.
pub proof fn law_new_session_cannot_commit(
    goal: GoalModel,
    run_id: Seq<char>,
    tree: TreeModel,
    receipts: nat,
)
    ensures
        crate::guard::open::opening_state(goal, run_id).guard_phase == "open"@,
        !crate::guard::open::opening_state(goal, run_id).verified,
        !ledger::commit_of(
            goal,
            crate::guard::open::opening_state(goal, run_id),
            run_id,
            tree,
            receipts,
        ).outcome.ok,
{
}

/// A verified run has no rejection.
pub proof fn law_verified_run_has_no_rejection(
    goal: GoalModel,
    state: StateModel,
    tree: TreeModel,
    failure: Option<Seq<char>>,
)
    requires
        state.verified,
    ensures
        plan::rejection_for(goal, state, tree, failure) is None,
{
}

} // verus!
