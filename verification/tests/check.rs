use std::collections::BTreeSet;
use tach::ast::{
    BinOp, Block, EffectClause, EffectName, Expr, FnDecl, Item, Module, Param, Stmt, TestDecl,
    TypeDecl, TypeExpr, UnOp,
};
use tach::builtins::{Builtin, Builtins};
use tach::check::{
    called_names_in_block, check_fn_effects, check_program, check_program_within,
    signature_string, used_effects,
};
use tach::diagnostics::{Diagnostic, Severity};
use tach::names::NameSet;
use tach::program::{build_sigs, Program, SourceFile, Unit};
use tach::span::Span;
use tach::types::{compatible, compatible_within, type_from_ast, Type, TypeRegistry};

const BROKEN: &str = r#"
import db
import time

type Session = {
  token: String
  user_id: Int
  expires_at: Int
}

fn load_session(token: String) -> Result<Session, AuthError> {
  let row = db.query("select * from sessions where token = ?", token)?
  ensure row.expires_at > time.now()
  log.info("session loaded")
  return Ok(Session { token: row.token, user_id: row.user_id, expires_at: row.expires_at })
}

fn session_summary(s: Session) -> String {
  return s.user_id
}
"#;

/// The `n`th place where a text stands in the source.
fn nth(source: &str, part: &str, n: usize) -> Span {
    let start = source
        .match_indices(part)
        .nth(n)
        .map(|(i, _)| i)
        .expect("the text stands in the source");
    Span {
        start,
        end: start + part.len(),
    }
}

fn at(part: &str) -> Span {
    nth(BROKEN, part, 0)
}

fn nowhere() -> Span {
    Span { start: 0, end: 0 }
}

fn named(name: &str, span: Span) -> TypeExpr {
    TypeExpr::Name {
        name: name.to_string(),
        args: vec![],
        span,
    }
}

fn ty(name: &str) -> TypeExpr {
    named(name, nowhere())
}

fn ident(name: &str) -> Expr {
    Expr::Ident(name.to_string(), nowhere())
}

fn integer(text: &str) -> Expr {
    Expr::Int(text.to_string(), nowhere())
}

fn string(text: &str) -> Expr {
    Expr::Str(text.to_string(), nowhere())
}

fn field(recv: Expr, name: &str, span: Span) -> Expr {
    Expr::Field {
        recv: Box::new(recv),
        name: name.to_string(),
        span,
    }
}

fn method(module: &str, name: &str, args: Vec<Expr>, span: Span) -> Expr {
    Expr::Method {
        recv: Box::new(ident(module)),
        name: name.to_string(),
        args,
        span,
    }
}

fn call(name: &str, args: Vec<Expr>) -> Expr {
    Expr::Call {
        callee: Box::new(ident(name)),
        args,
        span: nowhere(),
    }
}

fn ret(value: Expr) -> Stmt {
    Stmt::Return {
        value: Some(value),
        span: nowhere(),
    }
}

fn param(name: &str, t: TypeExpr) -> Param {
    Param {
        name: name.to_string(),
        ty: t,
    }
}

fn clause(effects: &[&str]) -> EffectClause {
    EffectClause {
        effects: effects
            .iter()
            .map(|e| EffectName {
                name: e.to_string(),
                span: nowhere(),
            })
            .collect(),
        list_span: Span { start: 41, end: 50 },
        full_span: Span { start: 32, end: 51 },
    }
}

fn function(name: &str, ret: Option<TypeExpr>, stmts: Vec<Stmt>) -> FnDecl {
    FnDecl {
        name: name.to_string(),
        name_span: Span { start: 3, end: 4 },
        params: vec![],
        ret,
        effects: None,
        brace_offset: 9,
        body: Block { stmts },
    }
}

fn builtins() -> Builtins {
    let entry = |module: &str, name: &str, effect: Option<&str>, ret: Type| Builtin {
        module: module.to_string(),
        name: name.to_string(),
        effect: effect.map(String::from),
        ret,
    };
    Builtins {
        members: vec![
            entry(
                "db",
                "query",
                Some("db.read"),
                Type::Result(Box::new(Type::Unknown), Box::new(Type::Unknown)),
            ),
            entry("time", "now", Some("time.read"), Type::Int),
            entry("log", "info", Some("log.write"), Type::Unit),
            entry("math", "abs", None, Type::Int),
        ],
    }
}

fn unit(items: Vec<Item>, imports: &[&str], last_import_end: usize) -> Unit {
    Unit {
        source: SourceFile {
            path: "a.tach".to_string(),
            text: String::new(),
        },
        module: Module {
            items,
            last_import_end,
        },
        imports: imports.iter().map(|s| s.to_string()).collect(),
    }
}

fn program(units: Vec<Unit>) -> Program {
    Program {
        units,
        builtins: builtins(),
    }
}

fn one(items: Vec<Item>) -> Program {
    program(vec![unit(items, &["db", "time", "log", "math"], 30)])
}

fn check(p: &Program) -> Vec<Diagnostic> {
    check_program_within(p, 1000).expect("deep enough")
}

/// The tree of `BROKEN`.
fn broken() -> Program {
    let session = TypeDecl {
        name: "Session".to_string(),
        ty: TypeExpr::Record {
            fields: vec![
                ("token".to_string(), ty("String")),
                ("user_id".to_string(), ty("Int")),
                ("expires_at".to_string(), ty("Int")),
            ],
            span: nowhere(),
        },
    };
    let row = |name: &str| field(ident("row"), name, nowhere());
    let load = FnDecl {
        name: "load_session".to_string(),
        name_span: at("load_session"),
        params: vec![param("token", ty("String"))],
        ret: Some(TypeExpr::Name {
            name: "Result".to_string(),
            args: vec![ty("Session"), ty("AuthError")],
            span: at("Result<Session, AuthError>"),
        }),
        effects: None,
        brace_offset: at("{\n  let row").start,
        body: Block {
            stmts: vec![
                Stmt::Let {
                    name: "row".to_string(),
                    value: Expr::Try {
                        expr: Box::new(method(
                            "db",
                            "query",
                            vec![
                                string("select * from sessions where token = ?"),
                                ident("token"),
                            ],
                            at("db.query"),
                        )),
                        span: nowhere(),
                    },
                    span: nowhere(),
                },
                Stmt::Ensure {
                    cond: Expr::Binary {
                        op: BinOp::Gt,
                        lhs: Box::new(row("expires_at")),
                        rhs: Box::new(method("time", "now", vec![], at("time.now()"))),
                        span: nowhere(),
                    },
                    els: None,
                    span: nowhere(),
                },
                Stmt::Expr(method(
                    "log",
                    "info",
                    vec![string("session loaded")],
                    at("log.info(\"session loaded\")"),
                )),
                ret(Expr::MakeOk(
                    Box::new(Expr::Record {
                        name: Some("Session".to_string()),
                        fields: vec![
                            ("token".to_string(), row("token")),
                            ("user_id".to_string(), row("user_id")),
                            ("expires_at".to_string(), row("expires_at")),
                        ],
                        span: nowhere(),
                    }),
                    nowhere(),
                )),
            ],
        },
    };
    let summary = FnDecl {
        name: "session_summary".to_string(),
        name_span: at("session_summary"),
        params: vec![param("s", ty("Session"))],
        ret: Some(named("String", nth(BROKEN, "String", 2))),
        effects: None,
        brace_offset: at("{\n  return s.user_id").start,
        body: Block {
            stmts: vec![ret(field(ident("s"), "user_id", at("s.user_id")))],
        },
    };
    let import = at("import time");
    program(vec![Unit {
        source: SourceFile {
            path: "auth.tach".to_string(),
            text: BROKEN.to_string(),
        },
        module: Module {
            items: vec![Item::Type(session), Item::Fn(load), Item::Fn(summary)],
            last_import_end: import.end,
        },
        imports: vec!["db".to_string(), "time".to_string()],
    }])
}

#[test]
fn finds_the_three_planted_bugs() {
    let prog = broken();
    // Every comparison of types comes to an end here.
    assert!(check_program_within(&prog, 100).is_some());
    let diags = check_program(&prog);
    let errors: Vec<_> = diags.iter().filter(|d| d.is_error()).collect();
    let kinds: BTreeSet<&str> = errors.iter().map(|d| d.kind.as_str()).collect();
    assert!(kinds.contains("unknown_module"), "diags: {:?}", errors);
    assert!(kinds.contains("effect_undeclared"), "diags: {:?}", errors);
    assert!(kinds.contains("type_mismatch"), "diags: {:?}", errors);
    assert_eq!(errors.len(), 3, "expected exactly 3 errors: {:?}", errors);

    // every error must carry a machine-applicable patch
    for d in &errors {
        assert!(d.preferred_patch.is_some(), "no patch on {:?}", d);
    }

    // the effect patch should declare all three effects in sorted order
    let eff = errors
        .iter()
        .find(|d| d.kind == "effect_undeclared")
        .unwrap();
    let patch = eff.preferred_patch.as_ref().unwrap();
    assert_eq!(
        patch.replacement,
        "effects [db.read, log.write, time.read] "
    );

    // the type patch should correct String -> Int
    let ty = errors.iter().find(|d| d.kind == "type_mismatch").unwrap();
    assert_eq!(ty.preferred_patch.as_ref().unwrap().replacement, "Int");
}

#[test]
fn the_planted_bugs_are_told_in_full() {
    let diags = check_program(&broken());
    let import = &diags[0];
    assert_eq!(import.code, "E0322");
    assert_eq!(
        import.message,
        "use of module `log` which is not imported"
    );
    assert_eq!(import.file, "auth.tach");
    assert_eq!(import.span, at("log.info(\"session loaded\")"));
    assert_eq!(import.repair_strategies, vec!["add_import"]);
    assert_eq!(
        import.notes,
        vec!["add `import log` at the top of the file"]
    );
    let patch = import.preferred_patch.as_ref().unwrap();
    assert_eq!(patch.replacement, "\nimport log");
    assert_eq!(patch.span, Span::at(at("import time").end));
    assert_eq!(patch.rationale, "import the `log` module");

    let effect = &diags[1];
    assert_eq!(effect.code, "E0421");
    assert_eq!(
        effect.message,
        "function `load_session` performs undeclared effects `db.read`, `log.write`, `time.read`"
    );
    assert_eq!(effect.span, at("load_session"));
    let patch = effect.preferred_patch.as_ref().unwrap();
    assert_eq!(patch.span, Span::at(at("{\n  let row").start));
    assert_eq!(
        patch.rationale,
        "declare the effects this function performs: db.read, log.write, time.read"
    );

    let mismatch = &diags[2];
    assert_eq!(mismatch.code, "E0309");
    assert_eq!(
        mismatch.message,
        "function `session_summary` returns `Int` but is declared to return `String`"
    );
    assert_eq!(mismatch.span, at("s.user_id"));
    assert_eq!(
        mismatch.repair_strategies,
        vec!["fix_annotation", "convert_value"]
    );
    let patch = mismatch.preferred_patch.as_ref().unwrap();
    assert_eq!(patch.span, nth(BROKEN, "String", 2));
    assert_eq!(patch.rationale, "the returned value is `Int`, not `String`");
    assert_eq!(diags.len(), 3);
}

// ----- imports -----

#[test]
fn a_first_import_goes_to_the_top() {
    let f = function(
        "f",
        None,
        vec![
            Stmt::Expr(method("time", "now", vec![], Span { start: 20, end: 30 })),
            Stmt::Expr(method("time", "now", vec![], Span { start: 40, end: 50 })),
            Stmt::Expr(method("math", "abs", vec![], Span { start: 60, end: 70 })),
        ],
    );
    let diags = check(&program(vec![unit(vec![Item::Fn(f)], &[], 0)]));
    let missing: Vec<&Diagnostic> = diags
        .iter()
        .filter(|d| d.kind == "unknown_module")
        .collect();
    // One for each module, in order, at its first use.
    assert_eq!(missing.len(), 2);
    assert_eq!(missing[0].span, Span { start: 60, end: 70 });
    assert_eq!(missing[1].span, Span { start: 20, end: 30 });
    let patch = missing[1].preferred_patch.as_ref().unwrap();
    assert_eq!(patch.span, Span { start: 0, end: 0 });
    assert_eq!(patch.replacement, "import time\n");
}

#[test]
fn a_test_needs_its_imports_and_no_effects() {
    let t = TestDecl {
        name: "t".to_string(),
        body: Block {
            stmts: vec![Stmt::Expr(method("log", "info", vec![], nowhere()))],
        },
    };
    let diags = check(&program(vec![unit(vec![Item::Test(t)], &["db"], 9)]));
    assert_eq!(diags.len(), 1);
    assert_eq!(diags[0].kind, "unknown_module");
    // Importing the module settles it.
    let t = TestDecl {
        name: "t".to_string(),
        body: Block {
            stmts: vec![Stmt::Expr(method("log", "info", vec![], nowhere()))],
        },
    };
    let diags = check(&program(vec![unit(vec![Item::Test(t)], &["db", "log"], 9)]));
    assert!(diags.is_empty());
}

// ----- effects -----

#[test]
fn a_declared_list_is_replaced_whole() {
    let mut f = function(
        "f",
        None,
        vec![Stmt::Expr(method("time", "now", vec![], nowhere()))],
    );
    f.effects = Some(clause(&["net.post"]));
    let diags = check(&one(vec![Item::Fn(f)]));
    assert_eq!(diags.len(), 2);
    assert_eq!(
        diags[0].message,
        "function `f` performs undeclared effect `time.read`"
    );
    let patch = diags[0].preferred_patch.as_ref().unwrap();
    assert_eq!(patch.span, Span { start: 41, end: 50 });
    assert_eq!(patch.replacement, "net.post, time.read");
    assert_eq!(
        patch.rationale,
        "declare every effect this function performs: net.post, time.read"
    );
    assert_eq!(diags[1].severity, Severity::Warning);
    assert!(!diags[1].is_error());
    assert_eq!(diags[1].code, "E0450");
    assert_eq!(
        diags[1].message,
        "function `f` declares unused effect `net.post`"
    );
    let patch = diags[1].preferred_patch.as_ref().unwrap();
    assert_eq!(patch.span, Span { start: 41, end: 50 });
    assert_eq!(patch.replacement, "time.read");
}

#[test]
fn an_idle_clause_is_removed_whole() {
    let mut f = function("f", None, vec![]);
    f.effects = Some(clause(&["db.read", "net.post"]));
    let diags = check(&one(vec![Item::Fn(f)]));
    assert_eq!(diags.len(), 1);
    assert_eq!(diags[0].kind, "effect_unused");
    assert_eq!(
        diags[0].message,
        "function `f` declares unused effects `db.read`, `net.post`"
    );
    assert_eq!(diags[0].repair_strategies, vec!["remove_effect"]);
    assert!(diags[0].notes.is_empty());
    let patch = diags[0].preferred_patch.as_ref().unwrap();
    assert_eq!(patch.span, Span { start: 32, end: 51 });
    assert_eq!(patch.replacement, "");
}

#[test]
fn calling_carries_the_declared_effects() {
    let mut g = function("g", None, vec![]);
    g.effects = Some(clause(&["net.post"]));
    let f = function("f", None, vec![Stmt::Expr(call("g", vec![]))]);
    let p = one(vec![Item::Fn(g), Item::Fn(f)]);
    let diags = check(&p);
    let kinds: Vec<&str> = diags.iter().map(|d| d.kind.as_str()).collect();
    assert_eq!(kinds, vec!["effect_unused", "effect_undeclared"]);
    assert_eq!(
        diags[1].preferred_patch.as_ref().unwrap().replacement,
        "effects [net.post] "
    );
    // The patch settles it.
    let mut g = function("g", None, vec![]);
    g.effects = Some(clause(&["net.post"]));
    let mut f = function("f", None, vec![Stmt::Expr(call("g", vec![]))]);
    f.effects = Some(clause(&["net.post"]));
    let p = one(vec![Item::Fn(g), Item::Fn(f)]);
    let sigs = build_sigs(&p);
    let mut found: Vec<Diagnostic> = Vec::new();
    if let Item::Fn(patched) = &p.units[0].module.items[1] {
        check_fn_effects(patched, &p.units[0], &sigs, &p.builtins, &mut found);
    }
    assert!(found.is_empty());
}

fn list(set: &NameSet) -> Vec<String> {
    set.list().clone()
}

#[test]
fn used_effects_come_from_bodies_alone() {
    let mut g = function("g", None, vec![]);
    g.effects = Some(clause(&["net.post"]));
    let f = function(
        "f",
        None,
        vec![
            Stmt::Expr(call("g", vec![])),
            Stmt::Expr(method("time", "now", vec![], nowhere())),
            Stmt::Expr(method("math", "abs", vec![], nowhere())),
        ],
    );
    let t = TestDecl {
        name: "t".to_string(),
        body: Block {
            stmts: vec![Stmt::Expr(method("log", "info", vec![], nowhere()))],
        },
    };
    let p = one(vec![Item::Fn(g), Item::Fn(f), Item::Test(t)]);
    // A declaration introduces nothing, and a test is no function.
    assert_eq!(list(&used_effects(&p)), vec!["time.read"]);
    // A call of a builtin member does.
    assert_eq!(
        list(&used_effects(&broken())),
        vec!["db.read", "log.write", "time.read"]
    );
}

// ----- walking -----

#[test]
fn called_names_are_found_everywhere() {
    let deep = Expr::Unary {
        op: UnOp::Not,
        expr: Box::new(Expr::Binary {
            op: BinOp::And,
            lhs: Box::new(call("a", vec![call("b", vec![])])),
            rhs: Box::new(Expr::Try {
                expr: Box::new(method("db", "query", vec![call("c", vec![])], nowhere())),
                span: nowhere(),
            }),
            span: nowhere(),
        }),
        span: nowhere(),
    };
    let block = Block {
        stmts: vec![
            Stmt::Let {
                name: "x".to_string(),
                value: deep,
                span: nowhere(),
            },
            Stmt::Ensure {
                cond: call("d", vec![]),
                els: Some(Expr::MakeErr(Box::new(call("e", vec![])), nowhere())),
                span: nowhere(),
            },
            Stmt::If {
                cond: field(call("f", vec![]), "y", nowhere()),
                then: Block {
                    stmts: vec![ret(Expr::MakeOk(Box::new(call("g", vec![])), nowhere()))],
                },
                els: Some(Block {
                    stmts: vec![Stmt::Expr(Expr::Record {
                        name: None,
                        fields: vec![("z".to_string(), call("h", vec![]))],
                        span: nowhere(),
                    })],
                }),
                span: nowhere(),
            },
            Stmt::Return {
                value: None,
                span: nowhere(),
            },
            Stmt::Expr(call("a", vec![])),
        ],
    };
    assert_eq!(
        list(&called_names_in_block(&block)),
        vec!["a", "b", "c", "d", "e", "f", "g", "h"]
    );
}

#[test]
fn signatures_are_written_out() {
    let mut f = function("f", None, vec![]);
    assert_eq!(signature_string(&f), "() -> Unit");
    f.params = vec![param("a", ty("Int")), param("b", ty("Session"))];
    f.ret = Some(TypeExpr::Name {
        name: "Result".to_string(),
        args: vec![ty("Bool"), ty("E")],
        span: nowhere(),
    });
    f.effects = Some(clause(&["time.read", "db.read", "time.read"]));
    assert_eq!(
        signature_string(&f),
        "(Int, Session) -> Result<Bool, E> effects [db.read, time.read, time.read]"
    );
    f.effects = Some(clause(&[]));
    assert_eq!(signature_string(&f), "(Int, Session) -> Result<Bool, E> effects []");
}

// ----- types -----

fn record(fields: &[(&str, Type)]) -> Type {
    Type::Record(
        fields
            .iter()
            .map(|(n, t)| (n.to_string(), t.clone()))
            .collect(),
    )
}

fn name(n: &str) -> Type {
    Type::Named(n.to_string())
}

#[test]
fn types_are_displayed() {
    let all = vec![
        (Type::Int, "Int"),
        (Type::Float, "Float"),
        (Type::Bool, "Bool"),
        (Type::Str, "String"),
        (Type::Unit, "Unit"),
        (Type::Unknown, "?"),
        (name("UserId"), "UserId"),
        (
            Type::Result(Box::new(Type::Int), Box::new(name("E"))),
            "Result<Int, E>",
        ),
        (
            record(&[("a", Type::Int), ("b", record(&[("c", Type::Str)]))]),
            "{ a: Int, b: { c: String } }",
        ),
        (record(&[]), "{  }"),
    ];
    for (t, shown) in all {
        assert_eq!(t.display(), shown);
    }
}

#[test]
fn types_are_resolved() {
    for n in ["Int", "Float", "Bool", "String", "Unit", "Whatever"] {
        assert_eq!(type_from_ast(&ty(n)).display(), n);
    }
    let result = |args: Vec<TypeExpr>| {
        type_from_ast(&TypeExpr::Name {
            name: "Result".to_string(),
            args,
            span: nowhere(),
        })
        .display()
    };
    assert_eq!(result(vec![ty("Int"), ty("E")]), "Result<Int, E>");
    assert_eq!(result(vec![ty("Int")]), "Result<Int, ?>");
    assert_eq!(result(vec![]), "Result<?, ?>");
}

#[test]
fn the_registry_keeps_records() {
    let decl = |n: &str, t: TypeExpr| TypeDecl {
        name: n.to_string(),
        ty: t,
    };
    let fields = |f: &str| TypeExpr::Record {
        fields: vec![(f.to_string(), ty("Int"))],
        span: nowhere(),
    };
    let mut reg = TypeRegistry::new();
    assert!(!reg.is_known("A"));
    reg.add_decl(&decl("A", fields("x")));
    reg.add_decl(&decl("B", ty("Int")));
    assert!(reg.is_known("A"));
    assert!(!reg.is_known("B"));
    assert_eq!(reg.record_fields("A").unwrap()[0].0, "x");
    // The later declaration counts.
    reg.add_decl(&decl("A", fields("y")));
    assert_eq!(reg.record_fields("A").unwrap()[0].0, "y");
    assert!(TypeRegistry::default().record_fields("A").is_none());
}

#[test]
fn compatibility_is_structural_and_lenient() {
    let mut reg = TypeRegistry::new();
    reg.add_decl(&TypeDecl {
        name: "P".to_string(),
        ty: TypeExpr::Record {
            fields: vec![
                ("x".to_string(), ty("Int")),
                ("next".to_string(), ty("P")),
            ],
            span: nowhere(),
        },
    });
    let ok = |a: &Type, b: &Type| compatible(a, b, &reg);
    assert!(ok(&Type::Unknown, &Type::Int));
    assert!(ok(&Type::Int, &Type::Unknown));
    assert!(ok(&Type::Int, &Type::Int));
    assert!(!ok(&Type::Int, &Type::Float));
    assert!(ok(&name("P"), &name("P")));
    assert!(!ok(&name("P"), &name("Q")));
    assert!(!ok(&name("Q"), &Type::Int));
    let written = record(&[("next", name("P")), ("x", Type::Int)]);
    assert!(ok(&name("P"), &written));
    assert!(ok(&written, &name("P")));
    let deeper = record(&[("x", Type::Int), ("next", written.clone())]);
    assert!(ok(&name("P"), &deeper));
    assert!(!ok(&name("P"), &record(&[("x", Type::Int)])));
    assert!(!ok(
        &record(&[("x", Type::Int), ("y", Type::Int)]),
        &record(&[("x", Type::Int), ("z", Type::Int)])
    ));
    let result = |a: Type, b: Type| Type::Result(Box::new(a), Box::new(b));
    assert!(ok(
        &result(name("P"), Type::Unknown),
        &result(written.clone(), name("E"))
    ));
    assert!(!ok(
        &result(Type::Int, Type::Int),
        &result(Type::Int, Type::Str)
    ));
    assert!(!ok(&result(Type::Int, Type::Int), &Type::Int));
}

#[test]
fn a_record_written_out_in_itself_is_never_deep_enough() {
    let mut reg = TypeRegistry::new();
    reg.add_decl(&TypeDecl {
        name: "X".to_string(),
        ty: TypeExpr::Record {
            fields: vec![(
                "f".to_string(),
                TypeExpr::Record {
                    fields: vec![("f".to_string(), ty("X"))],
                    span: nowhere(),
                },
            )],
            span: nowhere(),
        },
    });
    let facing = record(&[("f", name("X"))]);
    assert!(compatible_within(&name("X"), &facing, &reg, 50).is_none());
    assert!(compatible_within(&name("X"), &facing, &reg, 200).is_none());
    assert_eq!(compatible_within(&name("X"), &name("X"), &reg, 1), Some(true));
    // Where a comparison ends, no greater depth changes its outcome.
    assert_eq!(compatible_within(&name("X"), &name("X"), &reg, 90), Some(true));
    assert_eq!(compatible_within(&facing, &facing, &reg, 1), None);
    assert_eq!(compatible_within(&facing, &facing, &reg, 2), Some(true));
    assert_eq!(compatible_within(&facing, &facing, &reg, 9), Some(true));
}

#[test]
fn only_the_first_mismatch_is_told() {
    let f = function(
        "f",
        Some(named("Int", Span { start: 5, end: 8 })),
        vec![
            ret(integer("1")),
            Stmt::If {
                cond: Expr::Bool(true, nowhere()),
                then: Block {
                    stmts: vec![ret(string("x"))],
                },
                els: None,
                span: nowhere(),
            },
            ret(Expr::Bool(true, nowhere())),
        ],
    );
    let diags = check(&one(vec![Item::Fn(f)]));
    assert_eq!(diags.len(), 1);
    assert_eq!(
        diags[0].message,
        "function `f` returns `String` but is declared to return `Int`"
    );
    // Written as the patch says, the mismatch is gone.
    let f = function("f", Some(ty("String")), vec![ret(string("x"))]);
    assert!(check(&one(vec![Item::Fn(f)])).is_empty());
    // Without a return type nothing is compared.
    let f = function("f", None, vec![ret(string("x"))]);
    assert!(check(&one(vec![Item::Fn(f)])).is_empty());
}

// ----- only what is certain is reported -----

fn let_name(name: &str, value: Expr) -> Stmt {
    Stmt::Let {
        name: name.to_string(),
        value,
        span: nowhere(),
    }
}

#[test]
fn a_let_hides_a_parameter() {
    let mut f = function(
        "f",
        Some(ty("String")),
        vec![let_name("x", string("a")), ret(ident("x"))],
    );
    f.params = vec![param("x", ty("Int"))];
    assert!(check(&one(vec![Item::Fn(f)])).is_empty());
    // Bound in a branch, the name is uncertain as well.
    let mut f = function(
        "f",
        Some(ty("String")),
        vec![
            Stmt::If {
                cond: Expr::Bool(true, nowhere()),
                then: Block { stmts: vec![] },
                els: Some(Block {
                    stmts: vec![let_name("x", string("a")), ret(ident("x"))],
                }),
                span: nowhere(),
            },
        ],
    );
    f.params = vec![param("x", ty("Int"))];
    assert!(check(&one(vec![Item::Fn(f)])).is_empty());
    // Without the `let` it is a mismatch.
    let mut f = function("f", Some(ty("String")), vec![ret(ident("x"))]);
    f.params = vec![param("x", ty("Int"))];
    assert_eq!(check(&one(vec![Item::Fn(f)]))[0].kind, "type_mismatch");
}

#[test]
fn a_local_name_is_no_module_and_no_function() {
    let mismatches = |p: &Program| {
        check(p)
            .iter()
            .filter(|d| d.kind == "type_mismatch")
            .count()
    };
    let now = || ret(method("time", "now", vec![], nowhere()));
    let plain = function("f", Some(ty("String")), vec![now()]);
    assert_eq!(mismatches(&one(vec![Item::Fn(plain)])), 1);
    let hidden = function("f", Some(ty("String")), vec![let_name("time", string("a")), now()]);
    assert_eq!(mismatches(&one(vec![Item::Fn(hidden)])), 0);
    let mut taken = function("f", Some(ty("String")), vec![now()]);
    taken.params = vec![param("time", ty("Clock"))];
    assert_eq!(mismatches(&one(vec![Item::Fn(taken)])), 0);
    let g = || Item::Fn(function("g", Some(ty("Int")), vec![ret(integer("1"))]));
    let calls = function("f", Some(ty("String")), vec![ret(call("g", vec![]))]);
    assert_eq!(mismatches(&one(vec![g(), Item::Fn(calls)])), 1);
    let hidden = function(
        "f",
        Some(ty("String")),
        vec![let_name("g", string("a")), ret(call("g", vec![]))],
    );
    assert_eq!(mismatches(&one(vec![g(), Item::Fn(hidden)])), 0);
}

fn result_of(a: &str, b: &str) -> TypeExpr {
    TypeExpr::Name {
        name: "Result".to_string(),
        args: vec![ty(a), ty(b)],
        span: nowhere(),
    }
}

fn ok(e: Expr) -> Expr {
    Expr::MakeOk(Box::new(e), nowhere())
}

#[test]
fn the_patch_of_a_mismatch_can_be_written() {
    let replacement = |declared: TypeExpr, value: Expr| {
        let f = function("f", Some(declared), vec![ret(value)]);
        let diags = check(&one(vec![Item::Fn(f)]));
        assert_eq!(diags.len(), 1);
        assert_eq!(diags[0].kind, "type_mismatch");
        diags[0].preferred_patch.as_ref().unwrap().replacement.clone()
    };
    assert_eq!(replacement(ty("Int"), ok(integer("1"))), "Result<Int, Unit>");
    // What the declaration says of the unknown part is kept.
    assert_eq!(
        replacement(result_of("String", "E"), ok(integer("1"))),
        "Result<Int, E>"
    );
    assert_eq!(
        replacement(
            result_of("Int", "E"),
            Expr::MakeErr(Box::new(integer("1")), nowhere())
        ),
        "Result<Int, Int>"
    );
    assert_eq!(
        replacement(
            ty("Int"),
            Expr::Record {
                name: None,
                fields: vec![
                    ("a".to_string(), ident("who_knows")),
                    ("b".to_string(), integer("1")),
                ],
                span: nowhere(),
            }
        ),
        "{ a: Unit, b: Int }"
    );
    // The message still tells what is unknown.
    let f = function("f", Some(ty("Int")), vec![ret(ok(integer("1")))]);
    assert_eq!(
        check(&one(vec![Item::Fn(f)]))[0].message,
        "function `f` returns `Result<Int, ?>` but is declared to return `Int`"
    );
}

#[test]
fn the_patch_of_a_mismatch_settles_it() {
    let f = function("f", Some(result_of("Int", "Unit")), vec![ret(ok(integer("1")))]);
    assert!(check(&one(vec![Item::Fn(f)])).is_empty());
    // Beside a value of unknown type the patch settles the other one.
    let values = || vec![ret(string("a")), ret(ident("who_knows"))];
    let f = function("f", Some(ty("Int")), values());
    let diags = check(&one(vec![Item::Fn(f)]));
    assert_eq!(diags[0].preferred_patch.as_ref().unwrap().replacement, "String");
    let f = function("f", Some(ty("String")), values());
    assert!(check(&one(vec![Item::Fn(f)])).is_empty());
}

#[test]
fn the_order_of_two_types_does_not_matter() {
    let mut reg = TypeRegistry::new();
    reg.add_decl(&TypeDecl {
        name: "P".to_string(),
        ty: TypeExpr::Record {
            fields: vec![("x".to_string(), ty("Int")), ("y".to_string(), ty("Q"))],
            span: nowhere(),
        },
    });
    let result = |a: Type, b: Type| Type::Result(Box::new(a), Box::new(b));
    let all = vec![
        Type::Int,
        Type::Unknown,
        name("P"),
        name("Q"),
        record(&[("y", name("Q")), ("x", Type::Int)]),
        record(&[("y", Type::Unknown), ("x", Type::Int)]),
        record(&[("x", Type::Str), ("y", name("Q"))]),
        result(name("P"), Type::Int),
        result(record(&[("x", Type::Int), ("y", name("Q"))]), Type::Int),
    ];
    for a in &all {
        for b in &all {
            assert_eq!(compatible(a, b, &reg), compatible(b, a, &reg));
        }
        assert!(compatible(a, a, &reg));
    }
}

#[test]
fn knowing_less_makes_no_error() {
    let mut reg = TypeRegistry::new();
    reg.add_decl(&TypeDecl {
        name: "P".to_string(),
        ty: TypeExpr::Record {
            fields: vec![("x".to_string(), ty("Int")), ("y".to_string(), ty("Q"))],
            span: nowhere(),
        },
    });
    let full = record(&[("x", Type::Int), ("y", name("Q"))]);
    let less = record(&[("x", Type::Unknown), ("y", name("Q"))]);
    assert!(compatible(&full, &name("P"), &reg));
    assert!(compatible(&less, &name("P"), &reg));
    assert!(compatible(&name("P"), &less, &reg));
    assert!(compatible(&less, &full, &reg));
}

#[test]
fn effects_are_settled_exactly_when_declared() {
    let body = || vec![Stmt::Expr(method("time", "now", vec![], nowhere()))];
    let count = |effects: Option<EffectClause>| {
        let mut f = function("f", None, body());
        f.effects = effects;
        check(&one(vec![Item::Fn(f)])).len()
    };
    assert_eq!(count(Some(clause(&["time.read"]))), 0);
    assert_eq!(count(None), 1);
    assert_eq!(count(Some(clause(&[]))), 1);
    assert_eq!(count(Some(clause(&["time.read", "db.read"]))), 1);
}

#[test]
fn a_let_hides_a_parameter_only_from_there_on() {
    let branch = |stmts: Vec<Stmt>| Stmt::If {
        cond: ident("c"),
        then: Block { stmts },
        els: None,
        span: nowhere(),
    };
    let placed = |start: usize| {
        ret(Expr::Ident(
            "x".to_string(),
            Span {
                start,
                end: start + 1,
            },
        ))
    };
    let mismatches = |stmts: Vec<Stmt>| {
        let mut f = function("f", Some(ty("String")), stmts);
        f.params = vec![param("x", ty("Int")), param("c", ty("Bool"))];
        check(&one(vec![Item::Fn(f)]))
            .iter()
            .map(|d| d.span.start)
            .collect::<Vec<usize>>()
    };
    // Before the `let`, the name is the parameter: that is certain.
    assert_eq!(
        mismatches(vec![
            branch(vec![placed(10)]),
            let_name("x", string("a")),
            placed(20),
        ]),
        vec![10]
    );
    // A `let` in one branch does not reach another, nor what follows.
    assert_eq!(
        mismatches(vec![
            Stmt::If {
                cond: ident("c"),
                then: Block {
                    stmts: vec![let_name("x", string("a")), placed(10)],
                },
                els: Some(Block {
                    stmts: vec![placed(20)],
                }),
                span: nowhere(),
            },
            placed(30),
        ]),
        vec![20]
    );
    assert_eq!(
        mismatches(vec![branch(vec![let_name("x", string("a"))]), placed(30)]),
        vec![30]
    );
    // A `let` of an enclosing block reaches into it.
    assert!(mismatches(vec![
        let_name("x", string("a")),
        branch(vec![branch(vec![placed(10)])]),
    ])
    .is_empty());
}
