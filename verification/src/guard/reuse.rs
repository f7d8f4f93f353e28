//! What a verification over an unchanged tree does as a whole.
use crate::goal::GoalModel;
use crate::guard::laws::{self, World};
use crate::guard::packets::TreeModel;
use crate::guard::plan;
use crate::guard::verify::{self, EffectModel, NextModel, WorkModel};
use crate::store::{self, ReceiptModel, StateModel};
use vstd::prelude::*;

verus! {

// ----- the verdict of the receipts -----

/// The receipt of a command over a tree.
pub open spec fn receipt_of(
    receipts: Seq<ReceiptModel>,
    world: World,
    command: Seq<char>,
    digest: Seq<char>,
) -> Option<ReceiptModel> {
    store::keyed(receipts, laws::key_over(world, command, digest))
}

/// Every required command from a place on that may be run has a receipt over the
/// tree.
pub open spec fn all_stored(
    goal: GoalModel,
    receipts: Seq<ReceiptModel>,
    world: World,
    digest: Seq<char>,
    from: nat,
) -> bool {
    forall|j: int|
        from <= j < goal.required.len() && goal.permits(#[trigger] goal.required[j])
            ==> receipt_of(receipts, world, goal.required[j], digest) is Some
}

/// The verdict of the receipts: every required command from a place on may be
/// run, and its receipt over the tree is a pass.
pub open spec fn all_passed(
    goal: GoalModel,
    receipts: Seq<ReceiptModel>,
    world: World,
    digest: Seq<char>,
    from: nat,
) -> bool {
    forall|j: int|
        from <= j < goal.required.len() ==> goal.permits(#[trigger] goal.required[j]) && (
        receipt_of(receipts, world, goal.required[j], digest) matches Some(r) && r.passed())
}

/// No command is run.
pub open spec fn quiet(effects: Seq<EffectModel>) -> bool {
    forall|c: Seq<char>| !#[trigger] laws::runs(effects, c)
}

proof fn lemma_quiet_concat(a: Seq<EffectModel>, b: Seq<EffectModel>)
    requires
        quiet(a),
        quiet(b),
    ensures
        quiet(a + b),
{
    assert forall|c: Seq<char>| !#[trigger] laws::runs(a + b, c) by {
        laws::lemma_contains_concat(a, b, verify::executed_event(c));
        assert(!laws::runs(a, c) && !laws::runs(b, c));
    }
}

/// What is found under a key stays found.
proof fn lemma_found_stays(
    receipts: Seq<ReceiptModel>,
    effects: Seq<EffectModel>,
    key: Seq<char>,
)
    requires
        store::keyed(receipts, key) is Some,
    ensures
        store::keyed(laws::kept(receipts, effects), key) == store::keyed(receipts, key),
    decreases effects.len(),
{
    if effects.len() > 0 {
        lemma_found_stays(receipts, effects.drop_last(), key);
        if let EffectModel::SaveReceipt(r) = effects.last() {
            store::law_added_receipt_is_found(laws::kept(receipts, effects.drop_last()), r, key);
        }
    }
}

/// The commands that are passed over may not be run.
proof fn lemma_passed_over(w: WorkModel, j: int)
    requires
        w.index <= j < w.skipped().index,
        w.index <= w.goal.required.len(),
    ensures
        j < w.goal.required.len(),
        !w.goal.permits(w.goal.required[j]),
    decreases w.goal.required.len() - w.index,
{
    laws::lemma_skipped(w);
    if w.index < w.goal.required.len() && !w.goal.permits(w.command()) {
        if j > w.index {
            lemma_passed_over(w.refused(), j);
        }
    }
}

spec fn ordinary(w: WorkModel) -> bool {
    &&& !w.rerun
    &&& w.crash is None
    &&& w.passed + w.failures.len() == w.index
    &&& w.index <= w.goal.required.len()
}

/// What a verification from `w` on leaves.
spec fn judged(w: WorkModel, effects: Seq<EffectModel>, world: World) -> bool {
    let left = laws::kept(w.receipts, effects);
    &&& all_stored(w.goal, left, world, w.digest, w.index)
    &&& laws::saved(effects) matches Some(s) && (s.verified <==> w.failures.len() == 0
        && all_passed(w.goal, left, world, w.digest, w.index))
    &&& all_stored(w.goal, w.receipts, world, w.digest, w.index) ==> left == w.receipts && quiet(
        effects,
    )
}

proof fn lemma_judged_rest(v: WorkModel, world: World)
    requires
        ordinary(v),
    ensures
        judged(v, laws::played_out(v.resumed(), world).effects, world),
    decreases v.goal.required.len() - v.index, 1nat,
{
    laws::lemma_skipped(v);
    let u = v.skipped();
    let t = v.resumed();
    let all = laws::played_out(t, world).effects;
    assert forall|j: int| v.index <= j < u.index implies !v.goal.permits(
        #[trigger] v.goal.required[j],
    ) by {
        lemma_passed_over(v, j);
    }
    if u.index < u.goal.required.len() {
        lemma_judged_key(u, world);
        let rest = laws::played(NextModel::Key(u), world).effects;
        assert(all =~= rest);
        let left = laws::kept(v.receipts, all);
        assert forall|j: int|
            v.index <= j < v.goal.required.len() && v.goal.permits(
                #[trigger] v.goal.required[j],
            ) implies receipt_of(left, world, v.goal.required[j], v.digest) is Some by {
            assert(j >= u.index);
        }
        if u.index > v.index {
            assert(!v.goal.permits(v.goal.required[v.index as int]));
            assert(!all_passed(v.goal, left, world, v.digest, v.index));
        }
    } else {
        assert(laws::played(t.next, world).effects.len() == 0);
        assert(all =~= t.effects);
        let end = u.ending().effects;
        assert(end.last() == EffectModel::SaveState(u.concluded()));
        assert(end =~= seq![end[0], end[1]]);
        laws::lemma_kept_two(v.receipts, end[0], end[1]);
        laws::lemma_kept_one(v.receipts, end[0]);
        laws::lemma_kept_one(v.receipts, end[1]);
        assert(quiet(end));
        if u.index > v.index {
            assert(!v.goal.permits(v.goal.required[v.index as int]));
            assert(!all_passed(v.goal, v.receipts, world, v.digest, v.index));
        }
    }
}

/// The verdict of one command and that of the rest make that of all.
proof fn lemma_judged_step(
    w: WorkModel,
    v: WorkModel,
    r: ReceiptModel,
    first: Seq<EffectModel>,
    rest: Seq<EffectModel>,
    world: World,
)
    requires
        ordinary(w),
        w.index < w.goal.required.len(),
        w.goal.permits(w.command()),
        v.goal == w.goal,
        v.digest == w.digest,
        v.index == w.index + 1,
        v.failures.len() == 0 <==> w.failures.len() == 0 && r.passed(),
        v.receipts == laws::kept(w.receipts, first),
        receipt_of(v.receipts, world, w.command(), w.digest) == Some(r),
        judged(v, rest, world),
        receipt_of(w.receipts, world, w.command(), w.digest) is Some ==> v.receipts == w.receipts
            && quiet(first),
    ensures
        judged(w, first + rest, world),
{
    let all = first + rest;
    let left = laws::kept(w.receipts, all);
    laws::lemma_kept_concat(w.receipts, first, rest);
    laws::lemma_saved_concat(first, rest);
    lemma_found_stays(v.receipts, rest, laws::key_over(world, w.command(), w.digest));
    assert(receipt_of(left, world, w.command(), w.digest) == Some(r));
    assert forall|j: int|
        w.index <= j < w.goal.required.len() && w.goal.permits(
            #[trigger] w.goal.required[j],
        ) implies receipt_of(left, world, w.goal.required[j], w.digest) is Some by {
        if j > w.index {
            assert(v.goal.permits(v.goal.required[j]));
        }
    }
    let s = laws::saved(all)->Some_0;
    if all_passed(w.goal, left, world, w.digest, w.index) {
        assert(w.goal.permits(w.goal.required[w.index as int]));
        assert(r.passed());
        assert(all_passed(v.goal, left, world, v.digest, v.index));
    }
    if v.failures.len() == 0 && all_passed(v.goal, left, world, v.digest, v.index) {
        assert forall|j: int| w.index <= j < w.goal.required.len() implies w.goal.permits(
            #[trigger] w.goal.required[j],
        ) && (receipt_of(left, world, w.goal.required[j], w.digest) matches Some(x)
            && x.passed()) by {
            if j > w.index {
                assert(v.goal.permits(v.goal.required[j]));
            }
        }
    }
    if all_stored(w.goal, w.receipts, world, w.digest, w.index) {
        assert(w.goal.permits(w.goal.required[w.index as int]));
        assert(all_stored(v.goal, v.receipts, world, v.digest, v.index));
        lemma_quiet_concat(first, rest);
    }
}

proof fn lemma_judged_key(w: WorkModel, world: World)
    requires
        ordinary(w),
        w.index < w.goal.required.len(),
        w.goal.permits(w.command()),
    ensures
        judged(w, laws::played(NextModel::Key(w), world).effects, world),
    decreases w.goal.required.len() - w.index, 0nat,
{
    let keys = (world.keys)(verify::action_of(w.command()), w.input());
    let all = laws::played(NextModel::Key(w), world).effects;
    assert(keys.key == laws::key_over(world, w.command(), w.digest));
    match store::keyed(w.receipts, keys.key) {
        Some(r) => {
            let v = w.settled(r);
            let first = seq![verify::reused_event(r.receipt_id, w.command())];
            let rest = laws::played_out(v.resumed(), world).effects;
            laws::lemma_kept_one(w.receipts, first[0]);
            assert(quiet(first));
            lemma_judged_rest(v, world);
            assert(all =~= first + rest);
            lemma_judged_step(w, v, r, first, rest, world);
        },
        None => {
            let result = (world.shell)(w.index);
            let r = verify::minted(w, keys, result);
            let v = w.recorded(r).settled(r);
            let first = seq![
                verify::executed_event(w.command()),
                EffectModel::SaveReceipt(r),
                verify::created_event(keys.receipt_id, w.command(), keys.key),
            ];
            let rest = laws::played_out(v.resumed(), world).effects;
            assert(first =~= seq![first[0]] + seq![first[1], first[2]]);
            laws::lemma_kept_concat(w.receipts, seq![first[0]], seq![first[1], first[2]]);
            laws::lemma_kept_one(w.receipts, first[0]);
            laws::lemma_kept_two(w.receipts, first[1], first[2]);
            laws::lemma_kept_one(w.receipts, first[1]);
            laws::lemma_kept_one(w.receipts.push(r), first[2]);
            store::law_added_receipt_is_found(w.receipts, r, keys.key);
            lemma_judged_rest(v, world);
            assert(laws::played(NextModel::Run(w, keys), world).effects =~= seq![
                first[1],
                first[2],
            ] + rest);
            assert(all =~= first + rest);
            lemma_judged_step(w, v, r, first, rest, world);
        },
    }
}

proof fn lemma_judged(
    goal: GoalModel,
    state: StateModel,
    run_id: Seq<char>,
    tree: TreeModel,
    receipts: Seq<ReceiptModel>,
    world: World,
)
    requires
        plan::outside(goal, tree).len() == 0,
    ensures
        judged(
            verify::opened(goal, state, run_id, tree.digest, receipts, false, None),
            laws::verification(goal, state, run_id, tree, receipts, false, None, world).effects,
            world,
        ),
{
    lemma_judged_rest(
        verify::opened(goal, state, run_id, tree.digest, receipts, false, None),
        world,
    );
}

/// A verification that is not cut short leaves a receipt over the tree for every
/// required command that may be run, and the run is verified iff all required
/// commands may be run and those receipts are passes.
pub proof fn law_verdict_is_that_of_the_receipts(
    goal: GoalModel,
    state: StateModel,
    run_id: Seq<char>,
    tree: TreeModel,
    receipts: Seq<ReceiptModel>,
    world: World,
)
    requires
        plan::outside(goal, tree).len() == 0,
    ensures
        ({
            let effects = laws::verification(
                goal,
                state,
                run_id,
                tree,
                receipts,
                false,
                None,
                world,
            ).effects;
            let left = laws::kept(receipts, effects);
            &&& all_stored(goal, left, world, tree.digest, 0)
            &&& laws::saved(effects) matches Some(s) && (s.verified <==> all_passed(
                goal,
                left,
                world,
                tree.digest,
                0,
            ))
        }),
{
    lemma_judged(goal, state, run_id, tree, receipts, world);
}

/// Where every required command that may be run has a receipt over the tree, a
/// verification runs no command and adds no receipt; the run is verified iff all
/// required commands may be run and their receipts are passes.
pub proof fn law_stored_receipts_are_enough(
    goal: GoalModel,
    state: StateModel,
    run_id: Seq<char>,
    tree: TreeModel,
    receipts: Seq<ReceiptModel>,
    world: World,
)
    requires
        plan::outside(goal, tree).len() == 0,
        all_stored(goal, receipts, world, tree.digest, 0),
    ensures
        ({
            let effects = laws::verification(
                goal,
                state,
                run_id,
                tree,
                receipts,
                false,
                None,
                world,
            ).effects;
            &&& quiet(effects)
            &&& laws::kept(receipts, effects) == receipts
            &&& laws::saved(effects) matches Some(s) && (s.verified <==> all_passed(
                goal,
                receipts,
                world,
                tree.digest,
                0,
            ))
        }),
{
    lemma_judged(goal, state, run_id, tree, receipts, world);
}

/// A second verification over an unchanged tree runs no command, adds no receipt
/// and repeats the verdict of the first.
pub proof fn law_second_verification_repeats_the_first(
    goal: GoalModel,
    first_state: StateModel,
    next_state: StateModel,
    run_id: Seq<char>,
    tree: TreeModel,
    receipts: Seq<ReceiptModel>,
    first_world: World,
    next_world: World,
)
    requires
        first_world.keys == next_world.keys,
        plan::outside(goal, tree).len() == 0,
    ensures
        ({
            let first = laws::verification(
                goal,
                first_state,
                run_id,
                tree,
                receipts,
                false,
                None,
                first_world,
            ).effects;
            let left = laws::kept(receipts, first);
            let second = laws::verification(
                goal,
                next_state,
                run_id,
                tree,
                left,
                false,
                None,
                next_world,
            ).effects;
            &&& quiet(second)
            &&& laws::kept(left, second) == left
            &&& laws::saved(first) matches Some(s) && laws::saved(second) matches Some(t)
                && s.verified == t.verified
        }),
{
    let first = laws::verification(
        goal,
        first_state,
        run_id,
        tree,
        receipts,
        false,
        None,
        first_world,
    ).effects;
    let left = laws::kept(receipts, first);
    law_verdict_is_that_of_the_receipts(
        goal,
        first_state,
        run_id,
        tree,
        receipts,
        first_world,
    );
    assert forall|c: Seq<char>| #[trigger] laws::key_over(first_world, c, tree.digest)
        == laws::key_over(next_world, c, tree.digest) by {}
    assert forall|j: int|
        0 <= j < goal.required.len() && goal.permits(#[trigger] goal.required[j]) implies receipt_of(
        left,
        next_world,
        goal.required[j],
        tree.digest,
    ) is Some by {
        assert(receipt_of(left, first_world, goal.required[j], tree.digest) is Some);
        assert(laws::key_over(first_world, goal.required[j], tree.digest) == laws::key_over(
            next_world,
            goal.required[j],
            tree.digest,
        ));
    }
    law_stored_receipts_are_enough(goal, next_state, run_id, tree, left, next_world);
    assert(all_passed(goal, left, first_world, tree.digest, 0) == all_passed(
        goal,
        left,
        next_world,
        tree.digest,
        0,
    )) by {
        assert forall|j: int| 0 <= j < goal.required.len() implies receipt_of(
            left,
            first_world,
            #[trigger] goal.required[j],
            tree.digest,
        ) == receipt_of(left, next_world, goal.required[j], tree.digest) by {
            assert(laws::key_over(first_world, goal.required[j], tree.digest) == laws::key_over(
                next_world,
                goal.required[j],
                tree.digest,
            ));
        }
    }
}

// ----- fresh runs -----

/// How often a command stands among the required ones from a place on, where it
/// may be run.
pub open spec fn demands(goal: GoalModel, command: Seq<char>, from: nat) -> nat
    decreases goal.required.len() - from,
{
    if from >= goal.required.len() {
        0
    } else {
        demands(goal, command, from + 1) + if goal.required[from as int] == command
            && goal.permits(command) {
            1nat
        } else {
            0nat
        }
    }
}

spec fn fresh(w: WorkModel, world: World) -> bool {
    &&& w.rerun
    &&& w.crash is None
    &&& w.index <= w.goal.required.len()
    &&& laws::honest(world, w.receipts)
    &&& laws::numbered(w.receipts)
}

/// What a verification with fresh runs from `w` on does of a command.
spec fn all_fresh(w: WorkModel, effects: Seq<EffectModel>, c: Seq<char>) -> bool {
    &&& store::about(laws::kept(w.receipts, effects), c).len() == store::about(
        w.receipts,
        c,
    ).len() + demands(w.goal, c, w.index)
    &&& demands(w.goal, c, w.index) > 0 ==> laws::runs(effects, c)
}

proof fn lemma_no_demand(w: WorkModel, c: Seq<char>)
    requires
        w.index <= w.goal.required.len(),
    ensures
        demands(w.goal, c, w.skipped().index) == demands(w.goal, c, w.index),
    decreases w.goal.required.len() - w.index,
{
    laws::lemma_skipped(w);
    if w.index < w.goal.required.len() && !w.goal.permits(w.command()) {
        lemma_no_demand(w.refused(), c);
    }
}

proof fn lemma_fresh_rest(v: WorkModel, world: World, c: Seq<char>)
    requires
        laws::faithful(world),
        fresh(v, world),
    ensures
        all_fresh(v, laws::played_out(v.resumed(), world).effects, c),
    decreases v.goal.required.len() - v.index, 1nat,
{
    laws::lemma_skipped(v);
    lemma_no_demand(v, c);
    let u = v.skipped();
    let t = v.resumed();
    let all = laws::played_out(t, world).effects;
    if u.index < u.goal.required.len() {
        lemma_fresh_key(u, world, c);
        assert(all =~= laws::played(NextModel::Key(u), world).effects);
    } else {
        assert(laws::played(t.next, world).effects.len() == 0);
        assert(all =~= t.effects);
        let end = u.ending().effects;
        assert(end =~= seq![end[0], end[1]]);
        laws::lemma_kept_two(v.receipts, end[0], end[1]);
        laws::lemma_kept_one(v.receipts, end[0]);
        laws::lemma_kept_one(v.receipts, end[1]);
    }
}

proof fn lemma_fresh_key(w: WorkModel, world: World, c: Seq<char>)
    requires
        laws::faithful(world),
        fresh(w, world),
        w.index < w.goal.required.len(),
        w.goal.permits(w.command()),
    ensures
        all_fresh(w, laws::played(NextModel::Key(w), world).effects, c),
    decreases w.goal.required.len() - w.index, 0nat,
{
    let keys = (world.keys)(verify::action_of(w.command()), w.input());
    let all = laws::played(NextModel::Key(w), world).effects;
    let result = (world.shell)(w.index);
    let r = verify::minted(w, keys, result);
    let v = w.recorded(r).settled(r);
    assert(keys.key == laws::key_for(world, w.command(), w.digest, w.attempts()));
    laws::law_fresh_run_is_run(w, world, result);
    laws::law_receipt_says_how_the_command_ended(w, keys, result);
    assert(store::keyed(w.receipts, keys.key) is None);
    assert(laws::honest(world, v.receipts));
    let first = seq![
        verify::executed_event(w.command()),
        EffectModel::SaveReceipt(r),
        verify::created_event(keys.receipt_id, w.command(), keys.key),
    ];
    let rest = laws::played_out(v.resumed(), world).effects;
    assert(first =~= seq![first[0]] + seq![first[1], first[2]]);
    laws::lemma_kept_concat(w.receipts, seq![first[0]], seq![first[1], first[2]]);
    laws::lemma_kept_one(w.receipts, first[0]);
    laws::lemma_kept_two(w.receipts, first[1], first[2]);
    laws::lemma_kept_one(w.receipts, first[1]);
    laws::lemma_kept_one(w.receipts.push(r), first[2]);
    lemma_fresh_rest(v, world, c);
    assert(laws::played(NextModel::Run(w, keys), world).effects =~= seq![first[1], first[2]]
        + rest);
    assert(all =~= first + rest);
    laws::lemma_kept_concat(w.receipts, first, rest);
    laws::lemma_about_push(w.receipts, r, c);
    laws::lemma_contains_concat(first, rest, verify::executed_event(c));
    assert(first[0] == verify::executed_event(w.command()));
    if w.command() == c {
        assert(first.contains(first[0]));
    }
}

/// Where a fresh run is asked for, every required command that may be run is run,
/// whatever receipts there are, and each gets one new receipt every time it is
/// required.
pub proof fn law_fresh_verification_runs_everything(
    goal: GoalModel,
    state: StateModel,
    run_id: Seq<char>,
    tree: TreeModel,
    receipts: Seq<ReceiptModel>,
    world: World,
    command: Seq<char>,
)
    requires
        laws::faithful(world),
        laws::honest(world, receipts),
        laws::numbered(receipts),
        plan::outside(goal, tree).len() == 0,
    ensures
        ({
            let effects = laws::verification(
                goal,
                state,
                run_id,
                tree,
                receipts,
                true,
                None,
                world,
            ).effects;
            &&& store::about(laws::kept(receipts, effects), command).len() == store::about(
                receipts,
                command,
            ).len() + demands(goal, command, 0)
            &&& goal.required.contains(command) && goal.permits(command) ==> laws::runs(
                effects,
                command,
            )
        }),
{
    let w = verify::opened(goal, state, run_id, tree.digest, receipts, true, None);
    lemma_fresh_rest(w, world, command);
    if goal.required.contains(command) && goal.permits(command) {
        let k = choose|k: int| 0 <= k < goal.required.len() && goal.required[k] == command;
        lemma_demanded(goal, command, 0, k);
    }
}

proof fn lemma_demanded(goal: GoalModel, command: Seq<char>, from: nat, k: int)
    requires
        from <= k < goal.required.len(),
        goal.required[k] == command,
        goal.permits(command),
    ensures
        demands(goal, command, from) > 0,
    decreases k - from,
{
    if from < k {
        lemma_demanded(goal, command, from + 1, k);
    }
}

} // verus!
