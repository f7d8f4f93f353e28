use serde_json::Value;
use std::collections::{BTreeMap, BTreeSet};
use tach::diagnostics::Diagnostic;
use tach::event::{Event, EventKind};
use tach::goal::{Allow, GoalSpec};
use tach::guard::{
    self, Effect, ErrorKind, GoalFile, GuardCrash, GuardStatus, GuardVerify, Keys, Next,
    ShellResult, Tree,
};
use tach::snapshot::{manifest_text, Manifest};
use tach::span::Span;
use tach::store::{GoalRecord, Receipt, RunState};

/// A repository in memory, with the records of one session. The digest of a tree
/// is the text that it would be taken of, and a key is the text of its input, so
/// both tell their arguments apart.
struct Repo {
    tag: String,
    files: BTreeMap<String, String>,
    goals: Option<GoalFile>,
    baseline: Option<BTreeMap<String, String>>,
    record: Option<GoalRecord>,
    state: RunState,
    events: Vec<Event>,
    receipts: Vec<Receipt>,
    artifacts: BTreeSet<String>,
    ran: Vec<String>,
    /// How commands end; by the tree where nothing is set.
    exit: Option<Option<i64>>,
}

fn strings(items: &[&str]) -> Vec<String> {
    items.iter().map(|s| s.to_string()).collect()
}

fn goal(name: &str, command: &str, writes: &[&str]) -> GoalSpec {
    GoalSpec {
        name: name.to_string(),
        allow: Allow {
            fs_write: strings(writes),
            shell: strings(&[command]),
        },
        required: strings(&[command]),
    }
}

fn manifest(files: &BTreeMap<String, String>) -> Manifest {
    let mut m = Manifest::new();
    for (path, text) in files {
        m.insert(path, text);
    }
    m
}

impl Repo {
    fn new(tag: &str) -> Repo {
        Repo {
            tag: tag.to_string(),
            files: BTreeMap::new(),
            goals: None,
            baseline: None,
            record: None,
            state: RunState::default(),
            events: Vec::new(),
            receipts: Vec::new(),
            artifacts: BTreeSet::new(),
            ran: Vec::new(),
            exit: None,
        }
    }

    fn write(&mut self, path: &str, text: &str) {
        self.files.insert(path.to_string(), text.to_string());
    }

    fn tree(&self) -> Tree {
        let head = manifest(&self.files);
        let digest = manifest_text(&head);
        Tree {
            baseline: manifest(self.baseline.as_ref().expect("a session is open")),
            head,
            digest,
        }
    }

    fn record(&self) -> &GoalRecord {
        self.record.as_ref().expect("a session is open")
    }

    fn keys(&self, action: &str, input: &Value) -> Keys {
        let key = format!("{}|{}|shell.run|{}", self.state.run_id, action, input);
        Keys {
            receipt_id: format!("rcpt:{key}"),
            input_hash: format!("hash:{input}"),
            key,
        }
    }

    /// `sh test.sh` passes iff src/lib.rs has FIXED.
    fn run(&mut self, command: &str, key: &str) -> ShellResult {
        self.ran.push(command.to_string());
        let fixed = self
            .files
            .get("src/lib.rs")
            .map(|t| t.contains("FIXED"))
            .unwrap_or(false);
        let code = match self.exit {
            None => Some(if command == "sh test.sh" && fixed { 0 } else { 1 }),
            Some(code) => code,
        };
        let stdout_path = format!(".tach\\artifacts\\{}.out", self.ran.len());
        let stderr_path = format!(".tach\\artifacts\\{}.err", self.ran.len());
        self.artifacts.insert(stdout_path.replace('\\', "/"));
        self.artifacts.insert(stderr_path.replace('\\', "/"));
        assert!(!key.is_empty());
        ShellResult {
            exit_code: code,
            timed_out: code.is_none(),
            duration_ms: 7,
            argv: command.split(' ').map(String::from).collect(),
            stdout_path,
            stderr_path,
            stdout_bytes: 3,
            stderr_bytes: 4,
            env_names: strings(&["PATH"]),
            seq: self.events.len() as u64,
        }
    }

    fn apply(&mut self, effects: Vec<Effect>) {
        for e in effects {
            match e {
                Effect::Append(event) => self.events.push(event),
                Effect::SaveReceipt(receipt) => self.receipts.push(receipt),
                Effect::SaveState(state) => self.state = state,
            }
        }
    }

    fn count(&self, kind: EventKind) -> usize {
        self.events.iter().filter(|e| e.kind == kind).count()
    }

    fn id(&self) -> String {
        self.state.run_id.clone()
    }
}

/// A repo whose "test command" passes iff src/lib has FIXED.
fn scaffold(r: &mut Repo, fixed: bool) {
    r.write("Cargo.toml", "[package]\nname=\"x\"\n");
    r.write("Tachfile", "goal FixFailingTests\n");
    r.write("test.sh", "grep -q FIXED src/lib.rs && exit 0 || exit 1\n");
    r.write(
        "src/lib.rs",
        if fixed { "// FIXED\n" } else { "// broken\n" },
    );
    r.goals = Some(GoalFile {
        goals: vec![goal(
            "FixFailingTests",
            "sh test.sh",
            &["src/**", "tests/**"],
        )],
        diagnostics: vec![],
    });
}

fn begin(r: &mut Repo, name: Option<&str>) -> String {
    let run_id = format!("run_{}", r.tag);
    let opening = guard::begin(
        &r.goals,
        &name.map(String::from),
        &run_id,
        &manifest(&r.files),
    )
    .unwrap();
    r.baseline = Some(r.files.clone());
    r.record = Some(opening.record);
    r.events = opening.events;
    r.state = opening.state;
    run_id
}

fn verify_inner(r: &mut Repo, rerun: bool, crash: Option<GuardCrash>) -> GuardStatus {
    let mut turn = guard::verify_inner(
        r.record(),
        &r.state,
        &r.id(),
        &r.tree(),
        &r.receipts,
        rerun,
        crash,
    )
    .unwrap();
    loop {
        r.apply(turn.effects);
        match turn.next {
            Next::Finished(status) => return status,
            Next::Key(request) => {
                let keys = r.keys(&request.action_id, &request.input);
                turn = request.answer(keys);
            }
            Next::Run(request) => {
                let result = r.run(&request.command, &request.keys.key);
                turn = request.answer(result);
            }
        }
    }
}

fn verify(r: &mut Repo, rerun: bool) -> GuardStatus {
    verify_inner(r, rerun, None)
}

fn verify_report(r: &mut Repo, rerun: bool) -> GuardVerify {
    let status = verify(r, rerun);
    guard::verify_report(status, r.record(), &r.state, &r.id(), &r.tree(), &r.events).unwrap()
}

fn commit(r: &mut Repo) -> guard::GuardOutcome {
    let end = guard::commit(r.record(), &r.state, &r.id(), &r.tree(), &r.receipts).unwrap();
    r.apply(end.effects);
    end.outcome
}

fn abort(r: &mut Repo) -> guard::GuardOutcome {
    let end = guard::abort(r.record(), &r.state, &r.id()).unwrap();
    r.apply(end.effects);
    end.outcome
}

fn next(r: &Repo) -> guard::GuardNext {
    guard::next(r.record(), &r.state, &r.id(), &r.tree(), &r.events).unwrap()
}

fn diff(r: &Repo) -> guard::GuardDiff {
    guard::diff(r.record(), &r.id(), &r.tree()).unwrap()
}

fn agent_context(r: &Repo, agent: &str) -> guard::AgentContext {
    guard::agent_context(
        r.record(),
        &r.state,
        &r.id(),
        &agent.to_string(),
        &r.tree(),
        &r.events,
        &r.receipts,
    )
    .unwrap()
}

#[test]
fn full_flow_begin_verify_commit() {
    let mut r = Repo::new("flow");
    scaffold(&mut r, false);
    begin(&mut r, Some("FixFailingTests"));
    assert_eq!(r.state.kind, "coding");
    assert_eq!(r.state.guard_phase, "open");
    assert!(r.baseline.is_some());

    // Broken tree → verify fails.
    let s = verify(&mut r, false);
    assert!(!s.verified, "broken tree should not verify");

    // Agent fixes the in-scope file → verify passes; a receipt exists.
    r.write("src/lib.rs", "// FIXED\n");
    let s = verify(&mut r, false);
    assert!(s.verified, "fixed tree should verify");
    assert_eq!(s.commands_passed, 1);
    assert!(!r.receipts.is_empty());
    let art = r.receipts[0]
        .output
        .get("stdout_artifact")
        .and_then(|v| v.as_str())
        .unwrap();
    assert!(r.artifacts.contains(art), "artifact captured");

    // Commit finalizes into the ledger.
    let out = commit(&mut r);
    assert!(out.ok, "commit should succeed: {:?}", out.reason);
    assert_eq!(r.state.status, "completed");
}

#[test]
fn out_of_scope_edit_is_rejected() {
    let mut r = Repo::new("scope");
    scaffold(&mut r, true);
    begin(&mut r, None);
    r.write("README.md", "out of scope edit\n"); // outside src/**, tests/**
    let d = diff(&r);
    assert_eq!(d.out_of_scope, vec!["README.md"]);
    assert!(d.rejected);
    // verify refuses without running the command; commit refuses too.
    let s = verify(&mut r, false);
    assert!(!s.verified);
    assert!(r.ran.is_empty());
    let out = commit(&mut r);
    assert!(!out.ok);
    assert!(r.events.iter().any(|e| e.kind == EventKind::ScopeViolation));
}

#[test]
fn github_workflow_edit_is_out_of_scope_and_blocks_commit() {
    let mut r = Repo::new("ghscope");
    scaffold(&mut r, true);
    begin(&mut r, None);
    r.write(".github/workflows/ci.yml", "on: push\njobs: {}\n");
    let d = diff(&r);
    assert_eq!(d.out_of_scope, vec![".github/workflows/ci.yml"]);
    assert!(d.rejected, "CI-config edit must be rejected at verify");
    let s = verify(&mut r, false);
    assert!(!s.verified);
    let out = commit(&mut r);
    assert!(!out.ok, "out-of-scope CI edit must block commit");
    assert!(r.events.iter().any(|e| e.kind == EventKind::ScopeViolation));
}

#[test]
fn crash_after_receipt_reuses_on_resume() {
    let mut r = Repo::new("crash");
    scaffold(&mut r, true);
    begin(&mut r, None);

    // Crash right after the receipt is durable but before `verified` is saved.
    let _ = verify_inner(&mut r, false, Some(GuardCrash::AfterReceipt(1)));
    assert!(!r.state.verified, "verified not yet saved at crash");
    assert_eq!(r.receipts.len(), 1);

    // Resume verify (same tree): the receipt is reused, command not re-run.
    let s = verify(&mut r, false);
    assert!(s.verified);
    assert_eq!(r.receipts.len(), 1, "no new receipt");
    assert_eq!(
        r.count(EventKind::ShellExecuted),
        1,
        "command executed exactly once across crash+resume"
    );
    assert!(r.events.iter().any(|e| e.kind == EventKind::ReceiptReused));
    assert_eq!(r.ran.len(), 1);
}

#[test]
fn replay_is_consistent_after_commit() {
    let mut r = Repo::new("replay");
    scaffold(&mut r, true);
    begin(&mut r, None);
    verify(&mut r, false);
    commit(&mut r);
    let rr = guard::replay(r.record(), &r.state, &r.id(), &r.receipts, &None).unwrap();
    assert!(rr.identical, "recorded run should be self-consistent");
    assert_eq!(rr.replayed_status, "completed");
}

#[test]
fn editing_after_verify_blocks_commit() {
    let mut r = Repo::new("staleverify");
    scaffold(&mut r, true);
    begin(&mut r, None);
    verify(&mut r, false);
    // Edit an in-scope file after the green verify → commit must refuse.
    r.write("src/lib.rs", "// FIXED but changed\n");
    let out = commit(&mut r);
    assert!(!out.ok, "stale verify must not commit");
    assert!(out.reason.unwrap().contains("tree changed"));
}

#[test]
fn next_action_walks_editing_to_done() {
    let mut r = Repo::new("next");
    scaffold(&mut r, false); // broken tree
    begin(&mut r, None);

    // Fresh session, nothing edited yet → edit then verify.
    let n = next(&r);
    assert_eq!(n.status, "editing");
    assert_eq!(n.next_action, "edit_then_verify");
    assert_eq!(n.recommended_command, "tach guard verify");
    assert!(n.scope_violations.is_empty());
    assert!(n.done_condition.contains("verified=true"));

    // An in-scope edit that isn't yet verified → run verify.
    r.write("src/lib.rs", "// FIXED\n");
    let n = next(&r);
    assert_eq!(n.next_action, "run_verify");

    // After a green verify → finalize.
    verify(&mut r, false);
    let n = next(&r);
    assert_eq!(n.status, "verified");
    assert_eq!(n.next_action, "finalize");
    assert_eq!(n.recommended_command, "tach guard finalize");

    // After finalize → done, with no further command.
    commit(&mut r);
    let n = next(&r);
    assert_eq!(n.status, "finalized");
    assert_eq!(n.next_action, "done");
    assert!(n.recommended_command.is_empty());
}

#[test]
fn next_and_verify_report_surface_scope_repair_hints() {
    let mut r = Repo::new("nextscope");
    scaffold(&mut r, true);
    begin(&mut r, None);
    r.write(".github/workflows/ci.yml", "on: push\n"); // out of src/**, tests/**

    let n = next(&r);
    assert_eq!(n.status, "blocked");
    assert_eq!(n.next_action, "fix_scope_violation");
    assert_eq!(n.scope_violations.len(), 1);
    assert_eq!(n.scope_violations[0].path, ".github/workflows/ci.yml");
    assert!(!n.scope_violations[0].allowed.is_empty());

    // `verify --json` carries the structured rejection + the preferred move.
    let v = verify_report(&mut r, false);
    assert!(!v.status.verified);
    assert_eq!(v.next_action, "fix_scope_violation");
    let rej = v.rejection.expect("scope rejection present");
    assert_eq!(rej.kind, "scope_violation");
    assert_eq!(rej.violations.len(), 1);
    assert_eq!(rej.preferred_next_action.kind, "revert_file");
    assert_eq!(
        rej.preferred_next_action.path.as_deref(),
        Some(".github/workflows/ci.yml")
    );
    assert!(rej
        .repair_strategies
        .contains(&"revert_out_of_scope_file".to_string()));
}

#[test]
fn verify_report_flags_a_command_failure() {
    let mut r = Repo::new("cmdfail");
    scaffold(&mut r, false); // test.sh will exit 1
    begin(&mut r, None);
    r.write("src/lib.rs", "// still broken\n"); // in-scope edit, still failing

    let v = verify_report(&mut r, false);
    assert!(!v.status.verified);
    assert_eq!(v.next_action, "edit_then_verify");
    let rej = v.rejection.expect("command rejection present");
    assert_eq!(rej.kind, "command_failed");
    assert!(rej.violations.is_empty());
    assert_eq!(rej.preferred_next_action.kind, "edit_then_verify");
}

#[test]
fn agent_context_exposes_the_full_contract() {
    let mut r = Repo::new("agentctx");
    scaffold(&mut r, true);
    begin(&mut r, None);
    verify(&mut r, false);

    let c = agent_context(&r, "generic");
    assert_eq!(c.agent, "generic");
    assert_eq!(c.schema, "tach.agent-context.v1");
    assert!(c.allowed_files.iter().any(|g| g.contains("src")));
    assert!(c
        .allowed_commands
        .iter()
        .any(|cmd| cmd.contains("test.sh")));
    assert_eq!(c.required_commands, vec!["sh test.sh".to_string()]);
    assert!(c.verified);
    assert_eq!(c.next_action, "finalize");
    assert!(c.scope_violations.is_empty());
    assert!(c.forbidden_files.is_empty());
    // The verified command minted a receipt with a captured stdout artifact.
    assert_eq!(c.latest_receipts.len(), 1);
    assert!(c.latest_receipts[0].passed);
    assert!(c.latest_receipts[0].stdout_artifact.is_some());
}

// ----- beginning -----

fn refused(goals: Option<GoalFile>, name: Option<&str>) -> guard::GuardError {
    guard::begin(
        &goals,
        &name.map(String::from),
        &"run_1".to_string(),
        &Manifest::new(),
    )
    .unwrap_err()
}

#[test]
fn begin_needs_a_goal_file() {
    let e = refused(None, None);
    assert_eq!(e.kind, ErrorKind::NotFound);
    assert_eq!(
        e.message,
        "no Tachfile in this repo — run `tach init --existing` first"
    );
}

#[test]
fn begin_needs_a_goal_file_without_errors() {
    let broken = Diagnostic::error(
        "E0001",
        "syntax",
        "bad".to_string(),
        &"Tachfile".to_string(),
        Span { start: 0, end: 1 },
    );
    let e = refused(
        Some(GoalFile {
            goals: vec![goal("A", "make", &[])],
            diagnostics: vec![broken],
        }),
        None,
    );
    assert_eq!(e.kind, ErrorKind::InvalidData);
    assert_eq!(
        e.message,
        "Tachfile has errors — run `tach check` after fixing it"
    );
    // A warning alone is no hindrance.
    let lint = Diagnostic::warning(
        "E0002",
        "lint",
        "odd".to_string(),
        &"Tachfile".to_string(),
        Span { start: 0, end: 1 },
    );
    let file = GoalFile {
        goals: vec![goal("A", "make", &[])],
        diagnostics: vec![lint],
    };
    assert!(guard::begin(&Some(file), &None, &"r".to_string(), &Manifest::new()).is_ok());
}

#[test]
fn begin_names_the_goals_on_offer() {
    let two = || {
        Some(GoalFile {
            goals: vec![goal("A", "make", &[]), goal("B", "make", &[])],
            diagnostics: vec![],
        })
    };
    let e = refused(two(), Some("C"));
    assert_eq!(e.kind, ErrorKind::NotFound);
    assert_eq!(e.message, "no goal `C` in Tachfile (available: A, B)");
    let e = refused(two(), None);
    assert_eq!(e.kind, ErrorKind::InvalidInput);
    assert_eq!(e.message, "Tachfile has several goals; name one: A, B");
    let e = refused(
        Some(GoalFile {
            goals: vec![],
            diagnostics: vec![],
        }),
        None,
    );
    assert_eq!(e.kind, ErrorKind::NotFound);
    assert_eq!(e.message, "Tachfile declares no goal");
    assert_eq!(
        guard::choose_goal(&two(), &Some("B".to_string())).unwrap().name,
        "B"
    );
}

#[test]
fn begin_writes_the_first_records() {
    let mut r = Repo::new("records");
    scaffold(&mut r, true);
    begin(&mut r, None);
    let record = r.record();
    assert_eq!(record.kind, "coding");
    assert_eq!(record.strategy, "coding");
    assert!(record.base_files.is_empty());
    assert_eq!(record.spec.name, "FixFailingTests");
    assert_eq!(r.state.status, "running");
    assert_eq!(r.state.goal, "FixFailingTests");
    assert_eq!(r.state.commands_required, 1);
    assert_eq!(r.state.commands_passed, 0);
    assert!(!r.state.verified);
    let kinds: Vec<EventKind> = r.events.iter().map(|e| e.kind).collect();
    assert_eq!(
        kinds,
        vec![
            EventKind::RunStarted,
            EventKind::GuardBegun,
            EventKind::FsSnapshotted
        ]
    );
    assert_eq!(
        r.events[0].payload.to_string(),
        r#"{"goal":"FixFailingTests","kind":"coding","strategy":"coding"}"#
    );
    assert_eq!(
        r.events[1].payload.get("allowed_files").unwrap().to_string(),
        r#"["src/**","tests/**"]"#
    );
    assert_eq!(
        r.events[1].payload.get("required_commands").unwrap().to_string(),
        r#"["sh test.sh"]"#
    );
    assert_eq!(r.events[2].payload.to_string(), r#"{"files":4}"#);
}

// ----- sessions of other kinds -----

#[test]
fn other_runs_are_no_sessions() {
    let mut r = Repo::new("other");
    scaffold(&mut r, true);
    let id = begin(&mut r, None);
    r.record.as_mut().unwrap().kind = "repair".to_string();
    let want = "run `run_other` is a `repair` run, not a guard session";
    let tree = r.tree();
    let e = guard::status(r.record(), &r.state, &id, &r.receipts).unwrap_err();
    assert_eq!(e.kind, ErrorKind::InvalidInput);
    assert_eq!(e.message, want);
    let e = guard::context(r.record(), &r.state, &id, &r.events).unwrap_err();
    assert_eq!(e.message, want);
    let e = guard::diff(r.record(), &id, &tree).unwrap_err();
    assert_eq!(e.message, want);
    let e = guard::next(r.record(), &r.state, &id, &tree, &r.events).unwrap_err();
    assert_eq!(e.message, want);
    let e = guard::verify(r.record(), &r.state, &id, &tree, &r.receipts, false).unwrap_err();
    assert_eq!(e.message, want);
    let e = guard::commit(r.record(), &r.state, &id, &tree, &r.receipts).unwrap_err();
    assert_eq!(e.message, want);
    let e = guard::abort(r.record(), &r.state, &id).unwrap_err();
    assert_eq!(e.message, want);
    let e = guard::replay(r.record(), &r.state, &id, &r.receipts, &None).unwrap_err();
    assert_eq!(e.message, want);
}

// ----- verification -----

#[test]
fn a_passing_verify_writes_everything_down() {
    let mut r = Repo::new("passing");
    scaffold(&mut r, true);
    let id = begin(&mut r, None);
    let s = verify(&mut r, false);
    assert_eq!(s.run_id, id);
    assert_eq!(s.phase, "verified");
    assert_eq!((s.commands_required, s.commands_passed), (1, 1));
    assert_eq!((s.out_of_scope, s.receipts, s.step), (0, 1, 0));
    assert_eq!(r.state.verified_digest, r.tree().digest);

    let receipt = &r.receipts[0];
    assert_eq!(receipt.action_id, "verify:sh test.sh");
    assert_eq!(receipt.tool, "shell.run");
    assert_eq!(receipt.effect, "shell.run");
    assert_eq!(receipt.run_id, id);
    assert_eq!(receipt.step, 1);
    assert_eq!(receipt.approval_id, None);
    // Three events open the session, the fourth says that the command is run.
    assert_eq!(receipt.created_event_id, "evt_000004");
    assert_eq!(receipt.input.get("command").unwrap(), "sh test.sh");
    assert_eq!(receipt.input.get("cwd").unwrap(), ".");
    assert_eq!(
        receipt.input.get("tree").unwrap().as_str().unwrap(),
        r.tree().digest
    );
    assert!(receipt.input.get("rerun").is_none());
    assert_eq!(receipt.output.get("exit_code").unwrap().as_i64(), Some(0));
    assert_eq!(receipt.output.get("timed_out").unwrap().as_bool(), Some(false));
    assert_eq!(receipt.output.get("duration_ms").unwrap().as_u64(), Some(7));
    assert_eq!(
        receipt.output.get("argv").unwrap().to_string(),
        r#"["sh","test.sh"]"#
    );
    assert_eq!(
        receipt.output.get("stdout_artifact").unwrap(),
        ".tach/artifacts/1.out"
    );
    assert_eq!(
        receipt.output.get("stderr_artifact").unwrap(),
        ".tach/artifacts/1.err"
    );
    assert_eq!(receipt.output.get("stdout_bytes").unwrap().as_u64(), Some(3));
    assert_eq!(receipt.output.get("stderr_bytes").unwrap().as_u64(), Some(4));
    assert_eq!(
        receipt.output.get("env_redacted").unwrap().to_string(),
        r#"["PATH"]"#
    );
    assert_eq!(
        receipt.idempotency_key,
        format!("run_passing|verify:sh test.sh|shell.run|{}", receipt.input)
    );
    assert_eq!(receipt.receipt_id, format!("rcpt:{}", receipt.idempotency_key));
    assert_eq!(receipt.input_hash, format!("hash:{}", receipt.input));

    let kinds: Vec<EventKind> = r.events[3..].iter().map(|e| e.kind).collect();
    assert_eq!(
        kinds,
        vec![
            EventKind::ShellExecuted,
            EventKind::ReceiptCreated,
            EventKind::VerifyPassed
        ]
    );
    assert_eq!(
        r.events[3].payload.to_string(),
        r#"{"command":"sh test.sh","cwd":"."}"#
    );
    assert_eq!(r.events[4].payload.get("command").unwrap(), "sh test.sh");
    assert_eq!(
        r.events[4].payload.get("idempotency_key").unwrap().as_str().unwrap(),
        r.receipts[0].idempotency_key
    );
    assert_eq!(
        r.events[5].payload.to_string(),
        r#"{"commands":["sh test.sh"],"summary":"1 command(s) passed"}"#
    );
}

#[test]
fn a_failing_verify_says_why() {
    let mut r = Repo::new("failing");
    scaffold(&mut r, false);
    begin(&mut r, None);
    let s = verify(&mut r, false);
    assert_eq!(s.phase, "open");
    assert_eq!(s.commands_passed, 0);
    assert!(r.state.verified_digest.is_empty());
    let last = r.events.last().unwrap();
    assert_eq!(last.kind, EventKind::VerifyFailed);
    assert_eq!(
        last.payload.to_string(),
        r#"{"reason":"command_failed","summary":"sh test.sh: exit 1"}"#
    );
    let id = r.id();
    let c = guard::context(r.record(), &r.state, &id, &r.events).unwrap();
    assert_eq!(c.current_failure.as_deref(), Some("sh test.sh: exit 1"));
}

#[test]
fn a_command_that_times_out_fails() {
    let mut r = Repo::new("late");
    scaffold(&mut r, true);
    begin(&mut r, None);
    r.exit = Some(None);
    let s = verify(&mut r, false);
    assert!(!s.verified);
    assert!(r.receipts[0].output.get("exit_code").unwrap().is_null());
    assert_eq!(
        r.events.last().unwrap().payload.get("summary").unwrap(),
        "sh test.sh: exit timeout"
    );
    let c = agent_context(&r, "generic");
    assert_eq!(c.latest_receipts[0].exit_code, None);
    assert!(c.latest_receipts[0].timed_out);
    assert!(!c.latest_receipts[0].passed);
    assert_eq!(c.latest_receipts[0].duration_ms, Some(7));
    // A negative exit code is written with its sign.
    r.exit = Some(Some(-9));
    verify(&mut r, true);
    assert_eq!(
        r.events.last().unwrap().payload.get("summary").unwrap(),
        "sh test.sh: exit -9"
    );
}

#[test]
fn a_scope_violation_is_written_down() {
    let mut r = Repo::new("gate");
    scaffold(&mut r, true);
    begin(&mut r, None);
    verify(&mut r, false);
    assert!(r.state.verified);
    r.write("README.md", "x\n");
    r.write("docs/a.md", "x\n");
    let s = verify(&mut r, false);
    assert!(!s.verified);
    assert_eq!(s.phase, "open");
    assert_eq!(s.out_of_scope, 2);
    assert_eq!(r.ran.len(), 1);
    let n = r.events.len();
    assert_eq!(
        r.events[n - 3].payload.to_string(),
        r#"{"allowed":["src/**","tests/**"],"path":"README.md"}"#
    );
    assert_eq!(
        r.events[n - 2].payload.get("path").unwrap(),
        "docs/a.md"
    );
    assert_eq!(
        r.events[n - 1].payload.to_string(),
        r#"{"reason":"out_of_scope","summary":"2 out-of-scope write(s): README.md, docs/a.md"}"#
    );
    let out = commit(&mut r);
    assert_eq!(
        out.reason.as_deref(),
        Some("out-of-scope writes present: README.md, docs/a.md")
    );
    assert_eq!(r.state.out_of_scope, 2);
}

#[test]
fn a_required_command_must_be_allowed() {
    let mut r = Repo::new("misconf");
    scaffold(&mut r, true);
    let file = r.goals.as_mut().unwrap();
    file.goals[0].required = strings(&["make", "sh test.sh"]);
    begin(&mut r, None);
    let v = verify_report(&mut r, false);
    assert!(!v.status.verified);
    assert_eq!(v.status.commands_required, 2);
    assert_eq!(v.status.commands_passed, 1);
    assert_eq!(r.ran, vec!["sh test.sh"]);
    assert_eq!(
        r.events.last().unwrap().payload.get("summary").unwrap(),
        "`make` is required but not in allow.shell"
    );
    assert_eq!(v.next_action, "blocked");
    assert_eq!(v.recommended_command, "");
    let rej = v.rejection.unwrap();
    assert_eq!(rej.kind, "misconfigured");
    assert_eq!(
        rej.message,
        "A required command is not allowlisted in the goal's allow.shell."
    );
    assert_eq!(
        rej.repair_strategies,
        vec!["add_command_to_allow_shell", "ask_human_to_fix_tachfile"]
    );
    assert_eq!(rej.preferred_next_action.kind, "ask_human");
    assert_eq!(rej.preferred_next_action.path, None);
}

#[test]
fn several_commands_are_all_run() {
    let mut r = Repo::new("several");
    scaffold(&mut r, true);
    let file = r.goals.as_mut().unwrap();
    file.goals[0].required = strings(&["sh test.sh", "make"]);
    file.goals[0].allow.shell = strings(&["make", "sh test.sh"]);
    begin(&mut r, None);
    let s = verify(&mut r, false);
    assert_eq!(r.ran, vec!["sh test.sh", "make"]);
    assert_eq!((s.commands_passed, s.receipts), (1, 2));
    assert_eq!(
        r.events.last().unwrap().payload.get("summary").unwrap(),
        "make: exit 1"
    );
    assert_eq!(r.receipts[1].step, 2);
}

#[test]
fn no_required_command_verifies_at_once() {
    let mut r = Repo::new("none");
    scaffold(&mut r, false);
    r.goals.as_mut().unwrap().goals[0].required = vec![];
    begin(&mut r, None);
    let s = verify(&mut r, false);
    assert!(s.verified);
    assert_eq!(
        r.events.last().unwrap().payload.to_string(),
        r#"{"commands":[],"summary":"0 command(s) passed"}"#
    );
}

#[test]
fn a_rerun_runs_again_and_an_edit_too() {
    let mut r = Repo::new("rerun");
    scaffold(&mut r, true);
    begin(&mut r, None);
    verify(&mut r, false);
    verify(&mut r, false);
    assert_eq!(r.ran.len(), 1);
    // A fresh run is asked for, twice.
    verify(&mut r, true);
    verify(&mut r, true);
    assert_eq!(r.ran.len(), 3);
    assert_eq!(r.receipts[1].input.get("rerun").unwrap().as_u64(), Some(1));
    assert_eq!(r.receipts[2].input.get("rerun").unwrap().as_u64(), Some(2));
    // An edited tree yields a fresh run; going back uses the first receipt.
    r.write("src/lib.rs", "// FIXED again\n");
    verify(&mut r, false);
    assert_eq!(r.ran.len(), 4);
    r.write("src/lib.rs", "// FIXED\n");
    verify(&mut r, false);
    assert_eq!(r.ran.len(), 4);
    assert!(r.state.verified);
}

// ----- packets -----

#[test]
fn context_tells_the_phase() {
    let mut r = Repo::new("context");
    scaffold(&mut r, true);
    let id = begin(&mut r, None);
    let c = guard::context(r.record(), &r.state, &id, &r.events).unwrap();
    assert_eq!(
        c.next_required_action,
        "edit files within allowed_files, then run `tach guard verify`"
    );
    assert_eq!(
        c.done_condition,
        "`tach guard status --json` reports verified=true, then finalize with `tach guard finalize`"
    );
    assert_eq!(
        c.forbidden.to_string(),
        r#"{"out_of_scope_writes":"edits outside allowed_files are rejected at verify and block commit","unallowlisted_commands":"only allowed_commands are run by tach"}"#
    );
    assert_eq!(c.current_failure, None);
    assert_eq!(c.allowed_files, vec!["src/**", "tests/**"]);
    assert_eq!(c.allowed_commands, vec!["sh test.sh"]);
    verify(&mut r, false);
    let c = guard::context(r.record(), &r.state, &id, &r.events).unwrap();
    assert_eq!(c.phase, "verified");
    assert!(c.verified);
    assert_eq!(
        c.next_required_action,
        "run `tach guard commit` to finalize the verified changes"
    );
    commit(&mut r);
    let c = guard::context(r.record(), &r.state, &id, &r.events).unwrap();
    assert_eq!(c.next_required_action, "done — this run is committed");
    abort(&mut r);
    let c = guard::context(r.record(), &r.state, &id, &r.events).unwrap();
    assert_eq!(
        c.next_required_action,
        "this run was aborted; begin a new one"
    );
}

#[test]
fn diff_classifies_all_changes() {
    let mut r = Repo::new("diff");
    scaffold(&mut r, true);
    begin(&mut r, None);
    let d = diff(&r);
    assert!(!d.rejected);
    assert!(d.in_scope.is_empty());
    r.write("src/new.rs", "n\n");
    r.write("src/lib.rs", "// FIXED more\n");
    r.files.remove("test.sh");
    let d = diff(&r);
    assert_eq!(d.added, vec!["src/new.rs"]);
    assert_eq!(d.modified, vec!["src/lib.rs"]);
    assert_eq!(d.deleted, vec!["test.sh"]);
    assert_eq!(d.in_scope, vec!["src/new.rs", "src/lib.rs"]);
    assert_eq!(d.out_of_scope, vec!["test.sh"]);
    assert!(d.rejected);
    let c = agent_context(&r, "generic");
    assert_eq!(c.forbidden_files, vec!["test.sh"]);
    assert_eq!(c.changed_files.added, vec!["src/new.rs"]);
    assert_eq!(c.changed_files.modified, vec!["src/lib.rs"]);
    assert_eq!(c.changed_files.deleted, vec!["test.sh"]);
    assert_eq!(c.changed_files.in_scope, vec!["src/new.rs", "src/lib.rs"]);
    assert_eq!(c.changed_files.out_of_scope, vec!["test.sh"]);
}

#[test]
fn without_patterns_nothing_is_out_of_scope() {
    let mut r = Repo::new("free");
    scaffold(&mut r, true);
    r.goals.as_mut().unwrap().goals[0].allow.fs_write = vec![];
    begin(&mut r, None);
    r.write("README.md", "x\n");
    let d = diff(&r);
    assert_eq!(d.in_scope, vec!["README.md"]);
    assert!(!d.rejected);
}

#[test]
fn an_edit_after_verify_asks_for_another() {
    let mut r = Repo::new("again");
    scaffold(&mut r, true);
    begin(&mut r, None);
    verify(&mut r, false);
    r.write("src/lib.rs", "// FIXED but changed\n");
    let n = next(&r);
    assert_eq!(n.status, "editing");
    assert_eq!(n.next_action, "run_verify");
    assert_eq!(
        n.instructions,
        vec!["The tree changed since the last verify. Run `tach guard verify` again before finalizing."]
    );
}

#[test]
fn agent_state_takes_every_branch() {
    let at = |phase: &str, verified, matches, n, changes, misconf, failing| {
        let m = guard::agent_state(
            &phase.to_string(),
            verified,
            matches,
            n,
            changes,
            misconf,
            failing,
        );
        (m.status_label, m.next_action, m.instructions.len())
    };
    assert_eq!(at("committed", true, true, 1, true, true, true), ("finalized", "done", 1));
    assert_eq!(at("aborted", true, true, 1, true, true, true), ("aborted", "aborted", 1));
    assert_eq!(at("open", true, true, 1, true, true, true), ("blocked", "blocked", 2));
    assert_eq!(
        at("open", true, true, 1, true, false, true),
        ("blocked", "fix_scope_violation", 3)
    );
    assert_eq!(at("verified", true, true, 0, true, false, true), ("verified", "finalize", 2));
    assert_eq!(at("verified", true, false, 0, true, false, true), ("editing", "run_verify", 1));
    assert_eq!(
        at("open", false, false, 0, true, false, true),
        ("editing", "edit_then_verify", 2)
    );
    assert_eq!(at("open", false, false, 0, true, false, false), ("editing", "run_verify", 2));
    assert_eq!(
        at("open", false, false, 0, false, false, false),
        ("editing", "edit_then_verify", 2)
    );
}

#[test]
fn rejections_tell_the_repairs() {
    let mut r = Repo::new("repairs");
    scaffold(&mut r, true);
    begin(&mut r, None);
    let clean = verify_report(&mut r, false);
    assert!(clean.rejection.is_none());
    assert_eq!(clean.next_action, "finalize");
    r.write("README.md", "x\n");
    let rej = verify_report(&mut r, false).rejection.unwrap();
    assert_eq!(
        rej.message,
        "1 changed file(s) outside the allowed write scope."
    );
    assert_eq!(
        rej.repair_strategies,
        vec![
            "revert_out_of_scope_file",
            "move_change_into_allowed_scope",
            "ask_human_to_expand_goal_authority"
        ]
    );
    assert_eq!(rej.violations[0].reason, "not allowed by fs.write");
    r.files.remove("README.md");
    r.write("src/lib.rs", "// broken\n");
    let rej = verify_report(&mut r, false).rejection.unwrap();
    assert_eq!(rej.message, "sh test.sh: exit 1");
    assert_eq!(
        rej.repair_strategies,
        vec!["edit_files_to_fix_failure", "rerun_verify"]
    );
    abort(&mut r);
    assert!(guard::rejection_from_plan(
        &r.state,
        &guard::compute_plan(&r.record().spec, &r.state, &r.tree(), &r.events)
    )
    .is_none());
}

#[test]
fn a_command_failure_without_a_summary_has_a_plain_message() {
    let mut r = Repo::new("plain");
    scaffold(&mut r, false);
    begin(&mut r, None);
    let plan = guard::compute_plan(&r.record().spec, &r.state, &r.tree(), &r.events);
    let rej = guard::rejection_from_plan(&r.state, &plan).unwrap();
    assert_eq!(rej.kind, "command_failed");
    assert_eq!(rej.message, "a required command failed");
}

#[test]
fn summaries_take_the_latest_receipt() {
    let mut r = Repo::new("latest");
    scaffold(&mut r, false);
    begin(&mut r, None);
    verify(&mut r, false);
    r.write("src/lib.rs", "// FIXED\n");
    verify(&mut r, false);
    let list = guard::receipt_summaries(&r.receipts, &strings(&["other", "sh test.sh"]));
    assert_eq!(list.len(), 1);
    assert_eq!(list[0].command, "sh test.sh");
    assert_eq!(list[0].action_id, "verify:sh test.sh");
    assert_eq!(list[0].exit_code, Some(0));
    assert!(list[0].passed);
    assert_eq!(list[0].stdout_artifact.as_deref(), Some(".tach/artifacts/2.out"));
    // Of equal steps the last one counts.
    r.receipts[0].step = 5;
    r.receipts[1].step = 5;
    let list = guard::receipt_summaries(&r.receipts, &strings(&["sh test.sh"]));
    assert_eq!(list[0].stderr_artifact.as_deref(), Some(".tach/artifacts/2.err"));
    r.receipts[0].step = 6;
    let list = guard::receipt_summaries(&r.receipts, &strings(&["sh test.sh"]));
    assert_eq!(list[0].stdout_artifact.as_deref(), Some(".tach/artifacts/1.out"));
}

// ----- ends and replays -----

#[test]
fn commit_without_verify_is_refused() {
    let mut r = Repo::new("unverified");
    scaffold(&mut r, true);
    begin(&mut r, None);
    let out = commit(&mut r);
    assert!(!out.ok);
    assert_eq!(
        out.reason.as_deref(),
        Some("not verified — run `tach guard verify` first")
    );
    assert_eq!(out.status, "running");
    assert_eq!(out.phase, "open");
    assert_eq!(r.events.len(), 3);
}

#[test]
fn commit_and_abort_write_the_end() {
    let mut r = Repo::new("ends");
    scaffold(&mut r, true);
    let id = begin(&mut r, None);
    verify(&mut r, false);
    let out = commit(&mut r);
    assert_eq!(out.run_id, id);
    assert_eq!(out.status, "completed");
    assert_eq!(out.phase, "committed");
    let n = r.events.len();
    assert_eq!(r.events[n - 2].kind, EventKind::GuardCommitted);
    assert_eq!(
        r.events[n - 2].payload.to_string(),
        r#"{"commands_passed":1,"receipts":1}"#
    );
    assert_eq!(r.events[n - 1].kind, EventKind::RunCompleted);
    assert_eq!(r.events[n - 1].payload.to_string(), r#"{"kind":"coding"}"#);
    let out = abort(&mut r);
    assert!(out.ok);
    assert_eq!(out.status, "cancelled");
    assert_eq!(out.phase, "aborted");
    assert_eq!(r.state.status, "cancelled");
    let n = r.events.len();
    assert_eq!(r.events[n - 2].kind, EventKind::GuardAborted);
    assert_eq!(r.events[n - 2].payload.to_string(), "{}");
    assert_eq!(r.events[n - 1].kind, EventKind::RunCancelled);
    assert_eq!(next(&r).next_action, "aborted");
}

#[test]
fn replay_finds_a_divergence() {
    let mut r = Repo::new("diverged");
    scaffold(&mut r, true);
    let id = begin(&mut r, None);
    verify(&mut r, false);
    let lost: Vec<Receipt> = Vec::new();
    let rr = guard::replay(r.record(), &r.state, &id, &lost, &None).unwrap();
    assert!(!rr.identical);
    assert_eq!(rr.replayed_status, "diverged");
    assert_eq!(rr.recorded_status, "running");
    assert_eq!(rr.steps, 0);
}

#[test]
fn replay_runs_the_commands_again() {
    let mut r = Repo::new("reproduce");
    scaffold(&mut r, true);
    r.goals.as_mut().unwrap().goals[0].required = strings(&["sh test.sh", "make"]);
    let id = begin(&mut r, None);
    let list = guard::replay_commands(&r.record().spec, &"d1".to_string());
    // `make` is required but may not be run.
    assert_eq!(list.len(), 1);
    assert_eq!(list[0].command, "sh test.sh");
    assert_eq!(list[0].action_id, "replay:sh test.sh");
    assert_eq!(
        list[0].input.to_string(),
        r#"{"command":"sh test.sh","tree":"d1"}"#
    );
    assert_eq!(guard::replay_key(&"k".to_string()), "replay_k");
    let ended = vec![r.run("sh test.sh", "replay_k")];
    let rr = guard::replay(r.record(), &r.state, &id, &r.receipts, &Some(ended)).unwrap();
    assert_eq!(rr.replayed_status, "failed");
    assert!(rr.identical, "not verified then, and not now");

    r.record.as_mut().unwrap().spec.required = strings(&["sh test.sh"]);
    verify(&mut r, false);
    let ended = vec![r.run("sh test.sh", "replay_k")];
    let rr = guard::replay(r.record(), &r.state, &id, &r.receipts, &Some(ended)).unwrap();
    assert_eq!(rr.replayed_status, "completed");
    assert!(rr.identical);
    r.exit = Some(None);
    let ended = vec![r.run("sh test.sh", "replay_k")];
    let rr = guard::replay(r.record(), &r.state, &id, &r.receipts, &Some(ended)).unwrap();
    assert_eq!(rr.replayed_status, "failed");
    assert!(!rr.identical);
}

#[test]
fn artifact_paths_have_forward_slashes() {
    assert_eq!(guard::rel(&"a\\b/c\\d".to_string()), "a/b/c/d");
    assert_eq!(guard::VERIFY_TIMEOUT_MS, 120_000);
}

#[test]
fn a_verified_run_has_no_rejection() {
    let mut r = Repo::new("verified");
    scaffold(&mut r, true);
    begin(&mut r, None);
    verify(&mut r, false);
    r.write("README.md", "x\n");
    let plan = guard::compute_plan(&r.record().spec, &r.state, &r.tree(), &r.events);
    assert_eq!(plan.out_of_scope, vec!["README.md"]);
    assert!(guard::rejection_from_plan(&r.state, &plan).is_none());
    // The next move still tells of the file, and a verification refuses it.
    assert_eq!(next(&r).next_action, "fix_scope_violation");
    let v = verify_report(&mut r, false);
    assert_eq!(v.rejection.unwrap().kind, "scope_violation");
}

#[test]
fn a_second_verify_repeats_the_first() {
    for fixed in [true, false] {
        let mut r = Repo::new("second");
        scaffold(&mut r, fixed);
        let file = r.goals.as_mut().unwrap();
        file.goals[0].required = strings(&["sh test.sh", "true"]);
        file.goals[0].allow.shell = strings(&["true", "sh test.sh"]);
        begin(&mut r, None);
        r.exit = if fixed { Some(Some(0)) } else { None };
        let first = verify(&mut r, false);
        assert_eq!(first.verified, fixed);
        let ran = r.ran.len();
        assert_eq!((ran, r.receipts.len()), (2, 2));
        // The commands would end otherwise now, but none is run.
        r.exit = Some(Some(7));
        let second = verify(&mut r, false);
        assert_eq!(second.verified, first.verified);
        assert_eq!(second.commands_passed, first.commands_passed);
        assert_eq!((r.ran.len(), r.receipts.len()), (2, 2));
        // A fresh run runs every command, and each gets one new receipt.
        let third = verify(&mut r, true);
        assert!(!third.verified);
        assert_eq!((r.ran.len(), r.receipts.len()), (4, 4));
    }
}
