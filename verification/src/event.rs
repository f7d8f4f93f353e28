//! The events of a run's history.
use crate::json::{self, Json};
use vstd::prelude::*;

verus! {

/// What happened.
#[derive(Clone, Copy, PartialEq, Eq, Structural, Debug)]
pub enum EventKind {
    RunStarted,
    GuardBegun,
    FsSnapshotted,
    ScopeViolation,
    VerifyFailed,
    VerifyPassed,
    ReceiptReused,
    ShellExecuted,
    ReceiptCreated,
    GuardCommitted,
    RunCompleted,
    GuardAborted,
    RunCancelled,
}

/// One entry of a run's history.
#[derive(Debug)]
pub struct Event {
    pub kind: EventKind,
    pub payload: serde_json::Value,
}

/// What an event says.
pub struct EventModel {
    pub kind: EventKind,
    pub payload: Json,
}

impl View for Event {
    type V = EventModel;

    open spec fn view(&self) -> EventModel {
        EventModel { kind: self.kind, payload: json::json_of(self.payload) }
    }
}

/// What the events of a history say.
pub open spec fn history(events: Seq<Event>) -> Seq<EventModel> {
    events.map_values(|e: Event| e@)
}

/// Whether an event ends a verification.
pub open spec fn ends_verify(kind: EventKind) -> bool {
    kind == EventKind::VerifyFailed || kind == EventKind::VerifyPassed
}

/// The summary of the last event that ends a verification, if that event is a
/// failure.
pub open spec fn failure(events: Seq<EventModel>) -> Option<Seq<char>>
    decreases events.len(),
{
    if events.len() == 0 {
        None
    } else if ends_verify(events.last().kind) {
        if events.last().kind == EventKind::VerifyFailed {
            json::text_at(events.last().payload, "summary"@)
        } else {
            None
        }
    } else {
        failure(events.drop_last())
    }
}

/// The summary of the most recent failed verification, if the last one failed.
pub fn last_failure(events: &Vec<Event>) -> (r: Option<String>)
    ensures
        crate::text::opt_text(r) == failure(history(events@)),
{
    let ghost all = history(events@);
    let mut i: usize = events.len();
    assert(all.take(i as int) =~= all);
    while i > 0
        invariant
            all == history(events@),
            i <= events.len(),
            failure(all.take(i as int)) == failure(all),
        decreases i,
    {
        i = i - 1;
        let kind: EventKind = events[i].kind;
        assert(all.take(i + 1).last() == events@[i as int]@);
        assert(all.take(i + 1).drop_last() =~= all.take(i as int));
        if kind == EventKind::VerifyFailed {
            return json::text_member(&events[i].payload, "summary");
        }
        if kind == EventKind::VerifyPassed {
            return None;
        }
    }
    None
}

/// Later events that end no verification leave the last failure as it is.
pub proof fn law_other_events_keep_the_failure(events: Seq<EventModel>, more: Seq<EventModel>)
    requires
        forall|i: int| 0 <= i < more.len() ==> !ends_verify(#[trigger] more[i].kind),
    ensures
        failure(events + more) == failure(events),
    decreases more.len(),
{
    if more.len() == 0 {
        assert(events + more =~= events);
    } else {
        assert((events + more).last() == more.last());
        assert((events + more).drop_last() =~= events + more.drop_last());
        assert(!ends_verify(more[more.len() - 1].kind));
        assert forall|i: int| 0 <= i < more.drop_last().len() implies !ends_verify(
            #[trigger] more.drop_last()[i].kind,
        ) by {
            assert(!ends_verify(more[i].kind));
        }
        law_other_events_keep_the_failure(events, more.drop_last());
    }
}

} // verus!
