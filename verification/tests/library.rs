use serde_json::Value;
use tach::event::{last_failure, Event, EventKind};
use tach::glob::{any_match, glob_match};
use tach::json::{bool_member, i64_member, text_member, u64_member};
use tach::names::{sort_names, NameSet};
use tach::snapshot::{diff, manifest_text, Manifest};
use tach::store::{
    count_about, find_receipt_by_key, receipt_is_for, receipt_passed, Receipt, RunState,
};
use tach::term;
use tach::text;

fn strings(items: &[&str]) -> Vec<String> {
    items.iter().map(|s| s.to_string()).collect()
}

// ----- colours -----

#[test]
fn colours_are_escape_sequences() {
    type Style = fn(&str, bool) -> String;
    let all: Vec<(Style, &str)> = vec![
        (term::bold, "\u{1b}[1mx\u{1b}[0m"),
        (term::dim, "\u{1b}[2mx\u{1b}[0m"),
        (term::red, "\u{1b}[31mx\u{1b}[0m"),
        (term::green, "\u{1b}[32mx\u{1b}[0m"),
        (term::yellow, "\u{1b}[33mx\u{1b}[0m"),
        (term::blue, "\u{1b}[34mx\u{1b}[0m"),
        (term::magenta, "\u{1b}[35mx\u{1b}[0m"),
        (term::cyan, "\u{1b}[36mx\u{1b}[0m"),
        (term::bold_red, "\u{1b}[1;31mx\u{1b}[0m"),
        (term::bold_green, "\u{1b}[1;32mx\u{1b}[0m"),
        (term::bold_yellow, "\u{1b}[1;33mx\u{1b}[0m"),
        (term::bold_cyan, "\u{1b}[1;36mx\u{1b}[0m"),
    ];
    for (style, shown) in all {
        assert_eq!(style("x", true), shown);
        assert_eq!(style("x", false), "x");
    }
}

#[test]
fn colours_need_a_terminal() {
    assert!(term::enabled(false, true));
    assert!(!term::enabled(true, true));
    assert!(!term::enabled(false, false));
}

// ----- text -----

#[test]
fn numbers_are_printed() {
    assert_eq!(text::print_u64(0), "0");
    assert_eq!(text::print_u64(u64::MAX), "18446744073709551615");
    assert_eq!(text::print_i64(-42), "-42");
    assert_eq!(text::print_i64(i64::MIN), "-9223372036854775808");
    assert_eq!(text::print_padded(7, 6), "000007");
    assert_eq!(text::print_padded(1234567, 6), "1234567");
}

#[test]
fn texts_are_searched_and_joined() {
    assert!(text::contains("1 out-of-scope write(s)", "out-of-scope"));
    assert!(!text::contains("out-of", "out-of-scope"));
    assert!(text::contains("x", ""));
    assert_eq!(text::join(&strings(&["a", "b", "c"]), ", "), "a, b, c");
    assert_eq!(text::join(&strings(&[]), ", "), "");
    assert_eq!(text::quote_all(&strings(&["a"])), vec!["`a`"]);
}

#[test]
fn names_are_ordered_by_bytes() {
    let mut set = NameSet::new();
    for n in ["b", "é", "a", "B", "ab", "a"] {
        set.insert(&n.to_string());
    }
    assert_eq!(*set.list(), strings(&["B", "a", "ab", "b", "é"]));
    assert_eq!(set.len(), 5);
    assert!(set.contains(&"ab".to_string()));
    assert_eq!(
        sort_names(&strings(&["b", "a", "b"])),
        strings(&["a", "b", "b"])
    );
}

// ----- patterns -----

#[test]
fn patterns_match_paths() {
    assert!(glob_match("src/**", "src/lib.rs"));
    assert!(glob_match("src/**", "src/a/b.rs"));
    assert!(!glob_match("src/**", "tests/a.rs"));
    assert!(!glob_match("src/**", "src"));
    assert!(!glob_match("src/**", ".github/workflows/ci.yml"));
    assert!(glob_match("*.md", "README.md"));
    assert!(!glob_match("*.md", "docs/README.md"));
    assert!(glob_match("**/*.md", "docs/a/README.md"));
    assert!(glob_match("a*c", "abbc"));
    assert!(glob_match("", ""));
    assert!(!glob_match("", "a"));
    assert!(any_match(&strings(&["a", "b/**"]), "b/c"));
    assert!(!any_match(&strings(&[]), "b/c"));
}

// ----- snapshots -----

fn tree(files: &[(&str, &str)]) -> Manifest {
    let mut m = Manifest::new();
    for (p, s) in files {
        m.insert(&p.to_string(), &s.to_string());
    }
    m
}

#[test]
fn trees_are_compared() {
    let a = tree(&[("b", "1"), ("a", "1"), ("c", "1")]);
    let b = tree(&[("d", "1"), ("a", "1"), ("c", "2")]);
    let d = diff(&a, &b);
    assert_eq!(d.added, strings(&["d"]));
    assert_eq!(d.modified, strings(&["c"]));
    assert_eq!(d.deleted, strings(&["b"]));
    assert_eq!(d.changed(), strings(&["d", "c", "b"]));
    assert!(!d.is_empty());
    assert!(diff(&a, &a).is_empty());
}

#[test]
fn the_text_of_a_tree_tells_it_apart() {
    let a = tree(&[("b", "2"), ("a", "1")]);
    assert_eq!(manifest_text(&a), "a\u{0}1\nb\u{0}2\n");
    let mut b = tree(&[("a", "1"), ("b", "2")]);
    assert_eq!(manifest_text(&a), manifest_text(&b));
    b.insert(&"b".to_string(), &"2x".to_string());
    assert_ne!(manifest_text(&a), manifest_text(&b));
    assert_eq!(b.len(), 2);
    assert_eq!(b.get(&"b".to_string()), Some(&"2x".to_string()));
    assert_eq!(b.get(&"z".to_string()), None);
}

// ----- documents -----

fn json(text: &str) -> Value {
    serde_json::from_str(text).unwrap()
}

#[test]
fn members_are_read_as_plain_values() {
    let v = json(r#"{"n": -3, "big": 18446744073709551615, "b": true, "s": "x", "f": 1.5}"#);
    assert_eq!(i64_member(&v, "n"), Some(-3));
    assert_eq!(i64_member(&v, "big"), None);
    assert_eq!(i64_member(&v, "f"), None);
    assert_eq!(i64_member(&v, "absent"), None);
    assert_eq!(u64_member(&v, "big"), Some(u64::MAX));
    assert_eq!(u64_member(&v, "n"), None);
    assert_eq!(bool_member(&v, "b"), Some(true));
    assert_eq!(bool_member(&v, "s"), None);
    assert_eq!(text_member(&v, "s"), Some("x".to_string()));
    assert_eq!(text_member(&v, "n"), None);
    assert_eq!(text_member(&json("[1]"), "s"), None);
}

// ----- events -----

#[test]
fn the_last_failure_is_found() {
    let event = |kind: EventKind, payload: &str| Event {
        kind,
        payload: json(payload),
    };
    let mut log = vec![event(EventKind::RunStarted, "{}")];
    assert_eq!(last_failure(&log), None);
    log.push(event(EventKind::VerifyFailed, r#"{"summary": "one"}"#));
    log.push(event(EventKind::ScopeViolation, "{}"));
    assert_eq!(last_failure(&log), Some("one".to_string()));
    log.push(event(EventKind::VerifyFailed, r#"{"summary": "two"}"#));
    assert_eq!(last_failure(&log), Some("two".to_string()));
    log.push(event(EventKind::VerifyPassed, r#"{"summary": "three"}"#));
    assert_eq!(last_failure(&log), None);
    log.push(event(EventKind::VerifyFailed, "{}"));
    assert_eq!(last_failure(&log), None);
}

// ----- receipts -----

fn receipt(key: &str, input: &str, output: &str) -> Receipt {
    Receipt {
        receipt_id: format!("id_{key}"),
        idempotency_key: key.to_string(),
        action_id: String::new(),
        tool: String::new(),
        input: json(input),
        output: json(output),
        run_id: String::new(),
        step: 0,
        effect: String::new(),
        input_hash: String::new(),
        approval_id: Some("a".to_string()),
        created_event_id: String::new(),
    }
}

#[test]
fn receipts_pass_or_fail() {
    let passed = |output: &str| receipt_passed(&receipt("k", "{}", output));
    assert!(passed(r#"{"exit_code": 0, "timed_out": false}"#));
    assert!(passed(r#"{"exit_code": 0}"#));
    assert!(!passed(r#"{"exit_code": 0, "timed_out": true}"#));
    assert!(!passed(r#"{"exit_code": 1}"#));
    assert!(!passed(r#"{"exit_code": null}"#));
    assert!(!passed("{}"));
}

#[test]
fn receipts_are_found_by_key_and_command() {
    let all = vec![
        receipt("k1", r#"{"command": "a"}"#, "{}"),
        receipt("k2", r#"{"command": "b"}"#, "{}"),
        receipt("k1", r#"{"command": "b"}"#, "{}"),
    ];
    let found = find_receipt_by_key(&all, &"k1".to_string()).unwrap();
    assert_eq!(found.receipt_id, "id_k1");
    assert_eq!(found.input, json(r#"{"command": "a"}"#));
    assert_eq!(found.approval_id.as_deref(), Some("a"));
    assert!(find_receipt_by_key(&all, &"k3".to_string()).is_none());
    assert_eq!(count_about(&all, &"b".to_string()), 2);
    assert_eq!(count_about(&all, &"c".to_string()), 0);
    assert!(receipt_is_for(&all[0], &"a".to_string()));
    assert!(!receipt_is_for(&receipt("k", "{}", "{}"), &"a".to_string()));
}

#[test]
fn a_blank_state_has_nothing_set() {
    let s = RunState::default();
    assert!(s.run_id.is_empty() && s.goal.is_empty() && s.status.is_empty());
    assert!(!s.verified);
    assert_eq!(s.receipts_created, 0);
    assert_eq!(s.clone().step, 0);
}
