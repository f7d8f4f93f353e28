//! The beginning of a session.
use crate::diagnostics::{Diagnostic, Severity};
use crate::event::{self, Event, EventKind, EventModel};
use crate::goal::{GoalModel, GoalSpec};
use crate::guard::packets::{ErrorKind, ErrorModel, GuardError};
use crate::json::{self, Json};
use crate::names;
use crate::snapshot::{Files, Manifest};
use crate::store::{self, GoalRecord, RecordModel, RunState, StateModel};
use crate::text;
use vstd::prelude::*;
use vstd::string::*;

verus! {

/// The goals a repository declares, and what was found while reading them.
#[derive(Debug)]
pub struct GoalFile {
    pub goals: Vec<GoalSpec>,
    pub diagnostics: Vec<Diagnostic>,
}

/// What the goals of a list say.
pub open spec fn goal_models(goals: Seq<GoalSpec>) -> Seq<GoalModel> {
    goals.map_values(|g: GoalSpec| g@)
}

/// The names of the goals.
pub open spec fn goal_names(goals: Seq<GoalModel>) -> Seq<Seq<char>> {
    goals.map_values(|g: GoalModel| g.name)
}

/// Reading the goals found an error.
pub open spec fn has_errors(diagnostics: Seq<Diagnostic>) -> bool {
    exists|i: int|
        0 <= i < diagnostics.len() && #[trigger] diagnostics[i].severity == Severity::Error
}

/// The first goal with a name.
pub open spec fn named(goals: Seq<GoalModel>, name: Seq<char>) -> Option<GoalModel>
    decreases goals.len(),
{
    if goals.len() == 0 {
        None
    } else if goals[0].name == name {
        Some(goals[0])
    } else {
        named(goals.drop_first(), name)
    }
}

/// The goal that a session is for: the one that is named, or the only one.
pub open spec fn chosen(file: Option<GoalFile>, name: Option<Seq<char>>) -> Result<
    GoalModel,
    ErrorModel,
> {
    match file {
        None => Err(
            ErrorModel {
                kind: ErrorKind::NotFound,
                message: "no Tachfile in this repo — run `tach init --existing` first"@,
            },
        ),
        Some(f) => {
            let goals = goal_models(f.goals@);
            let all = text::joined(goal_names(goals), ", "@);
            if has_errors(f.diagnostics@) {
                Err(
                    ErrorModel {
                        kind: ErrorKind::InvalidData,
                        message: "Tachfile has errors — run `tach check` after fixing it"@,
                    },
                )
            } else {
                match name {
                    Some(n) => match named(goals, n) {
                        Some(g) => Ok(g),
                        None => Err(
                            ErrorModel {
                                kind: ErrorKind::NotFound,
                                message: "no goal `"@ + n + "` in Tachfile (available: "@ + all
                                    + ")"@,
                            },
                        ),
                    },
                    None => if goals.len() == 1 {
                        Ok(goals[0])
                    } else if goals.len() == 0 {
                        Err(
                            ErrorModel {
                                kind: ErrorKind::NotFound,
                                message: "Tachfile declares no goal"@,
                            },
                        )
                    } else {
                        Err(
                            ErrorModel {
                                kind: ErrorKind::InvalidInput,
                                message: "Tachfile has several goals; name one: "@ + all,
                            },
                        )
                    },
                }
            }
        },
    }
}

fn any_error(diagnostics: &Vec<Diagnostic>) -> (r: bool)
    ensures
        r == has_errors(diagnostics@),
{
    let n: usize = diagnostics.len();
    let mut i: usize = 0;
    while i < n
        invariant
            n == diagnostics.len(),
            i <= n,
            forall|k: int| 0 <= k < i ==> #[trigger] diagnostics@[k].severity != Severity::Error,
        decreases n - i,
    {
        if diagnostics[i].is_error() {
            return true;
        }
        i = i + 1;
    }
    false
}

/// The names of all goals, separated by commas.
fn all_names(goals: &Vec<GoalSpec>) -> (r: String)
    ensures
        r@ == text::joined(goal_names(goal_models(goals@)), ", "@),
{
    let ghost want = goal_names(goal_models(goals@));
    let mut list: Vec<String> = Vec::new();
    let n: usize = goals.len();
    let mut i: usize = 0;
    while i < n
        invariant
            n == goals.len(),
            i <= n,
            want == goal_names(goal_models(goals@)),
            text::texts(list@) =~= want.take(i as int),
        decreases n - i,
    {
        let ghost done = text::texts(list@);
        list.push(goals[i].name.clone());
        assert(text::texts(list@) =~= done.push(goals@[i as int].name@));
        assert(want[i as int] == goal_models(goals@)[i as int].name);
        i = i + 1;
    }
    assert(text::texts(list@) =~= want);
    text::join(&list, ", ")
}

fn find_goal<'a>(goals: &'a Vec<GoalSpec>, name: &String) -> (r: Option<&'a GoalSpec>)
    ensures
        (match r {
            Some(g) => Some(g@),
            None => None,
        }) == named(goal_models(goals@), name@),
{
    let ghost all = goal_models(goals@);
    let n: usize = goals.len();
    let mut i: usize = 0;
    assert(all.skip(0) =~= all);
    while i < n
        invariant
            n == goals.len(),
            all == goal_models(goals@),
            i <= n,
            named(all.skip(i as int), name@) == named(all, name@),
        decreases n - i,
    {
        assert(all.skip(i as int)[0] == goals@[i as int]@);
        assert(all.skip(i as int).drop_first() =~= all.skip(i + 1));
        if goals[i].name == *name {
            return Some(&goals[i]);
        }
        i = i + 1;
    }
    None
}

/// The goal that a session is for. `None` stands for goals that could not be
/// read.
pub fn choose_goal(file: &Option<GoalFile>, name: &Option<String>) -> (r: Result<
    GoalSpec,
    GuardError,
>)
    ensures
        r matches Ok(g) ==> chosen(*file, text::opt_text(*name)) == Ok::<_, ErrorModel>(g@),
        r matches Err(e) ==> chosen(*file, text::opt_text(*name)) == Err::<GoalModel, _>(e@),
{
    let f: &GoalFile = match file {
        Some(f) => f,
        None => {
            return Err(
                GuardError {
                    kind: ErrorKind::NotFound,
                    message: "no Tachfile in this repo — run `tach init --existing` first".to_string(),
                },
            );
        },
    };
    assert(goal_models(f.goals@).len() == f.goals@.len());
    if any_error(&f.diagnostics) {
        return Err(
            GuardError {
                kind: ErrorKind::InvalidData,
                message: "Tachfile has errors — run `tach check` after fixing it".to_string(),
            },
        );
    }
    match name {
        Some(n) => match find_goal(&f.goals, n) {
            Some(g) => Ok(g.clone()),
            None => {
                let mut message: String = "no goal `".to_string();
                message.append(n.as_str());
                message.append("` in Tachfile (available: ");
                message.append(all_names(&f.goals).as_str());
                message.append(")");
                Err(GuardError { kind: ErrorKind::NotFound, message })
            },
        },
        None => if f.goals.len() == 1 {
            assert(goal_models(f.goals@)[0] == f.goals@[0]@);
            Ok(f.goals[0].clone())
        } else if f.goals.len() == 0 {
            Err(
                GuardError {
                    kind: ErrorKind::NotFound,
                    message: "Tachfile declares no goal".to_string(),
                },
            )
        } else {
            let mut message: String = "Tachfile has several goals; name one: ".to_string();
            message.append(all_names(&f.goals).as_str());
            Err(GuardError { kind: ErrorKind::InvalidInput, message })
        },
    }
}

// ----- the first records -----

/// The records of a new session: the goal is written first, then the events,
/// then the state.
#[derive(Debug)]
pub struct Opening {
    pub record: GoalRecord,
    pub events: Vec<Event>,
    pub state: RunState,
}

/// The record of the goal.
pub open spec fn opening_record(goal: GoalModel) -> RecordModel {
    RecordModel { spec: goal, strategy: "coding"@, base_files: Seq::empty(), kind: "coding"@ }
}

/// The first events.
pub open spec fn opening_events(goal: GoalModel, baseline: Files) -> Seq<EventModel> {
    seq![
        EventModel {
            kind: EventKind::RunStarted,
            payload: Json::Object(
                map![
                    "goal"@ => Json::Str(goal.name),
                    "kind"@ => Json::Str("coding"@),
                    "strategy"@ => Json::Str("coding"@),
                ],
            ),
        },
        EventModel {
            kind: EventKind::GuardBegun,
            payload: Json::Object(
                map![
                    "allowed_files"@ => json::strings(goal.fs_write),
                    "allowed_commands"@ => json::strings(goal.shell),
                    "required_commands"@ => json::strings(goal.required),
                ],
            ),
        },
        EventModel {
            kind: EventKind::FsSnapshotted,
            payload: Json::Object(
                map!["files"@ => Json::Int(names::listing(baseline.dom()).len() as int)],
            ),
        },
    ]
}

/// The first state: running, open and not verified.
pub open spec fn opening_state(goal: GoalModel, run_id: Seq<char>) -> StateModel {
    StateModel {
        run_id,
        goal: goal.name,
        status: "running"@,
        kind: "coding"@,
        guard_phase: "open"@,
        commands_required: goal.required.len(),
        ..store::blank_state()
    }
}

/// Opens a session over a tree: chooses the goal and gives the first records.
pub fn begin(
    file: &Option<GoalFile>,
    name: &Option<String>,
    run_id: &String,
    baseline: &Manifest,
) -> (r: Result<Opening, GuardError>)
    requires
        baseline.wf(),
    ensures
        r is Ok <==> chosen(*file, text::opt_text(*name)) is Ok,
        r matches Err(e) ==> chosen(*file, text::opt_text(*name)) == Err::<GoalModel, _>(e@),
        r matches Ok(o) ==> {
            let goal = chosen(*file, text::opt_text(*name))->Ok_0;
            &&& o.record@ == opening_record(goal)
            &&& event::history(o.events@) == opening_events(goal, baseline@)
            &&& o.state@ == opening_state(goal, run_id@)
        },
{
    let spec: GoalSpec = match choose_goal(file, name) {
        Ok(g) => g,
        Err(e) => {
            return Err(e);
        },
    };
    let mut started: serde_json::Value = json::object();
    json::set(&mut started, "goal", json::from_text(spec.name.as_str()));
    json::set(&mut started, "kind", json::from_text("coding"));
    json::set(&mut started, "strategy", json::from_text("coding"));
    let mut begun: serde_json::Value = json::object();
    json::set(
        &mut begun,
        "allowed_files",
        json::from_strings(text::copy_texts(&spec.allow.fs_write)),
    );
    json::set(
        &mut begun,
        "allowed_commands",
        json::from_strings(text::copy_texts(&spec.allow.shell)),
    );
    json::set(&mut begun, "required_commands", json::from_strings(spec.required_commands()));
    let mut snapped: serde_json::Value = json::object();
    json::set(&mut snapped, "files", json::from_u64(baseline.len() as u64));
    let events: Vec<Event> = vec![
        Event { kind: EventKind::RunStarted, payload: started },
        Event { kind: EventKind::GuardBegun, payload: begun },
        Event { kind: EventKind::FsSnapshotted, payload: snapped },
    ];
    assert(event::history(events@) =~= opening_events(spec@, baseline@));
    let mut state: RunState = RunState::default();
    state.run_id = run_id.clone();
    state.goal = spec.name.clone();
    state.status = "running".to_string();
    state.kind = "coding".to_string();
    state.guard_phase = "open".to_string();
    state.commands_required = spec.required.len();
    let record: GoalRecord = GoalRecord {
        spec,
        strategy: "coding".to_string(),
        base_files: Vec::new(),
        kind: "coding".to_string(),
    };
    assert(record@.base_files =~= Seq::empty());
    Ok(Opening { record, events, state })
}

} // verus!
