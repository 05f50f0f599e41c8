use proc_assertions::ast::{AssignOp, Block, Expr, FnDecl, Member, Param, Pat, Stmt, Type};
use proc_assertions::calls::check_calls;
use proc_assertions::guard::GuardSpec;
use proc_assertions::mutation::{check_mutations, mutated_fields};
use proc_assertions::policy::{
    check_whitelist, CallMode, CallPolicy, FieldMode, FieldPolicy, Violation, ViolationKind,
};
use proc_assertions::report::render_report;

fn strings(v: &[&str]) -> Vec<String> {
    v.iter().map(|s| s.to_string()).collect()
}

fn path(segs: &[&str]) -> Expr {
    Expr::Path(strings(segs))
}

fn call(name: &str) -> Expr {
    Expr::Call { callee: Box::new(path(&[name])), args: vec![] }
}

fn method_call(recv: &str, m: &str) -> Expr {
    Expr::MethodCall { receiver: Box::new(path(&[recv])), method: m.to_string(), args: vec![] }
}

fn field(base: &str, name: &str) -> Expr {
    Expr::Field { base: Box::new(path(&[base])), member: Member::Named(name.to_string()) }
}

fn assign(base: &str, name: &str) -> Expr {
    Expr::Assign { target: Box::new(field(base, name)), value: Box::new(Expr::Other) }
}

fn block(es: Vec<Expr>) -> Block {
    Block { stmts: es.into_iter().map(Stmt::Expr).collect() }
}

fn policy(list: &[&str], mode: CallMode) -> CallPolicy {
    CallPolicy { names: strings(list), mode }
}

fn fields(list: &[&str], mode: FieldMode) -> FieldPolicy {
    FieldPolicy { struct_name: "MyStruct".to_string(), fields: strings(list), mode }
}

fn view(vs: &[Violation]) -> Vec<(ViolationKind, String)> {
    vs.iter().map(|v| (v.kind, v.subject.clone())).collect()
}

fn self_method(stmts: Vec<Stmt>) -> FnDecl {
    FnDecl {
        name: "m".to_string(),
        params: vec![Param::Receiver { reference: true, mutable: true }],
        body: Block { stmts },
    }
}

#[test]
fn scenario_allow_self_call() {
    let body = block(vec![method_call("self", "target_function")]);
    assert!(check_calls(&body, &policy(&["target_function"], CallMode::Allow)).is_empty());
}

#[test]
fn scenario_allow_reports_unlisted_call() {
    let body = block(vec![call("disallowed_function")]);
    let r = check_calls(&body, &policy(&["allowed_function"], CallMode::Allow));
    assert_eq!(view(&r), vec![(ViolationKind::CallNotWhitelisted, "disallowed_function".to_string())]);
}

#[test]
fn scenario_deny_without_denied_call() {
    let body = block(vec![call("other"), method_call("x", "helper")]);
    assert!(check_calls(&body, &policy(&["target_function"], CallMode::Deny)).is_empty());
}

#[test]
fn scenario_field_allow_list() {
    let ok = self_method(vec![Stmt::Expr(Expr::CompoundAssign {
        target: Box::new(field("self", "field")),
        op: AssignOp::Add,
        value: Box::new(Expr::Other),
    })]);
    assert!(check_mutations(&ok, &fields(&["field"], FieldMode::Allow)).ok().unwrap().is_empty());
    let bad = self_method(vec![Stmt::Expr(assign("self", "other"))]);
    let r = check_mutations(&bad, &fields(&["field"], FieldMode::Allow)).ok().unwrap();
    assert_eq!(view(&r), vec![(ViolationKind::MutationNotWhitelisted, "other".to_string())]);
}

#[test]
fn scenario_guard_passes_and_rejects() {
    let g = GuardSpec::for_function("T".to_string(), "f".to_string(), strings(&["a", "b"]));
    assert!(g.check(&"a".to_string()).is_ok());
    let e = g.check(&"c".to_string()).err().unwrap();
    assert_eq!(e.caller, "c");
    assert_eq!(e.message(), "Unauthorized function trying to call f: c");
    let m = GuardSpec::for_fields("T".to_string(), strings(&["a"]));
    assert_eq!(
        m.check(&"c".to_string()).err().unwrap().message(),
        "Unauthorized function trying to mutate fields in T: c"
    );
}

#[test]
fn allow_list_reports_each_unlisted_call_once() {
    // f(); g(); x.h(); g(); if .. { k() } else { f() }
    let iff = Expr::If { then_branch: block(vec![call("k")]), else_branch: Some(Box::new(Expr::Block(block(vec![call("f")])))) };
    let body = block(vec![call("f"), call("g"), method_call("x", "h"), call("g"), iff]);
    let r = check_calls(&body, &policy(&["f", "h"], CallMode::Allow));
    assert_eq!(
        view(&r),
        vec![(ViolationKind::CallNotWhitelisted, "g".to_string()), (ViolationKind::CallNotWhitelisted, "k".to_string())]
    );
    assert!(check_calls(&body, &policy(&["f", "g", "h", "k"], CallMode::Allow)).is_empty());
}

#[test]
fn deny_list_reports_repeated_call_once() {
    let body = block(vec![call("bad"), call("bad"), method_call("s", "bad"), call("ok")]);
    let r = check_calls(&body, &policy(&["bad"], CallMode::Deny));
    assert_eq!(view(&r), vec![(ViolationKind::CallNotAllowed, "bad".to_string())]);
}

#[test]
fn must_call_all_reports_missing_name() {
    let body = block(vec![call("a"), call("c")]);
    let r = check_calls(&body, &policy(&["a", "b"], CallMode::MustCallAll));
    assert_eq!(view(&r), vec![(ViolationKind::CallMissing, "b".to_string())]);
}

#[test]
fn must_call_all_with_empty_list_passes() {
    let body = block(vec![call("a")]);
    assert!(check_calls(&body, &policy(&[], CallMode::MustCallAll)).is_empty());
    assert!(check_calls(&Block { stmts: vec![] }, &policy(&[], CallMode::Allow)).is_empty());
}

#[test]
fn calls_are_found_in_arguments_closures_and_else_if() {
    let arg_call = Expr::Call { callee: Box::new(path(&["outer"])), args: vec![call("inner")] };
    let closure = Expr::Closure { body: Box::new(call("in_closure")) };
    let else_if = Expr::If {
        then_branch: block(vec![]),
        else_branch: Some(Box::new(Expr::If { then_branch: block(vec![call("deep")]), else_branch: None })),
    };
    let body = Block { stmts: vec![Stmt::Expr(arg_call), Stmt::Local { pat: Pat::Other, init: Some(closure) }, Stmt::Expr(else_if), Stmt::Item] };
    let r = check_calls(&body, &policy(&[], CallMode::Allow));
    let subjects: Vec<String> = r.iter().map(|v| v.subject.clone()).collect();
    assert_eq!(subjects, strings(&["outer", "inner", "in_closure", "deep"]));
}

#[test]
fn field_reads_and_unbound_writes_are_not_reported() {
    let body = vec![
        Stmt::Expr(field("self", "a")),
        Stmt::Expr(assign("stranger", "b")),
        Stmt::Expr(assign("self", "c")),
    ];
    let d = self_method(body);
    assert_eq!(mutated_fields(&d, &"MyStruct".to_string()).ok().unwrap(), strings(&["c"]));
    let r = check_mutations(&d, &fields(&[], FieldMode::Allow)).ok().unwrap();
    assert_eq!(view(&r), vec![(ViolationKind::MutationNotWhitelisted, "c".to_string())]);
}

#[test]
fn receiver_by_value_is_not_bound() {
    let d = FnDecl {
        name: "m".to_string(),
        params: vec![Param::Receiver { reference: false, mutable: false }],
        body: block(vec![assign("self", "a")]),
    };
    assert!(mutated_fields(&d, &"MyStruct".to_string()).ok().unwrap().is_empty());
}

#[test]
fn constructor_binding_reaches_closure_and_ends_with_block() {
    let ctor = Expr::Call { callee: Box::new(path(&["MyStruct", "new"])), args: vec![] };
    let inner = Block {
        stmts: vec![
            Stmt::Local { pat: Pat::Ident("x".to_string()), init: Some(ctor) },
            Stmt::Local {
                pat: Pat::Ident("c".to_string()),
                init: Some(Expr::Closure { body: Box::new(assign("x", "f")) }),
            },
        ],
    };
    let d = FnDecl {
        name: "g".to_string(),
        params: vec![],
        body: Block { stmts: vec![Stmt::Expr(assign("x", "before")), Stmt::Expr(Expr::Block(inner)), Stmt::Expr(assign("x", "after"))] },
    };
    assert_eq!(mutated_fields(&d, &"MyStruct".to_string()).ok().unwrap(), strings(&["f"]));
    let r = check_mutations(&d, &fields(&["f"], FieldMode::Deny)).ok().unwrap();
    assert_eq!(view(&r), vec![(ViolationKind::MutationNotAllowed, "f".to_string())]);
}

#[test]
fn other_constructors_do_not_bind() {
    let made = Expr::Call { callee: Box::new(path(&["MyStruct", "build"])), args: vec![] };
    let other = Expr::Call { callee: Box::new(path(&["Other", "new"])), args: vec![] };
    let d = FnDecl {
        name: "g".to_string(),
        params: vec![],
        body: Block {
            stmts: vec![
                Stmt::Local { pat: Pat::Ident("x".to_string()), init: Some(made) },
                Stmt::Local { pat: Pat::Ident("y".to_string()), init: Some(other) },
                Stmt::Expr(assign("x", "a")),
                Stmt::Expr(assign("y", "b")),
            ],
        },
    };
    assert!(mutated_fields(&d, &"MyStruct".to_string()).ok().unwrap().is_empty());
}

#[test]
fn typed_parameters_bind_through_references() {
    let d = FnDecl {
        name: "g".to_string(),
        params: vec![
            Param::Typed { pat: Pat::Ident("p".to_string()), ty: Type::Reference { mutable: true, elem: Box::new(Type::Path(strings(&["MyStruct"]))) }, text: "& mut MyStruct".to_string() },
            Param::Typed { pat: Pat::Ident("q".to_string()), ty: Type::Path(strings(&["Other"])), text: "Other".to_string() },
        ],
        body: block(vec![assign("p", "a"), assign("q", "b")]),
    };
    assert_eq!(mutated_fields(&d, &"MyStruct".to_string()).ok().unwrap(), strings(&["a"]));
}

#[test]
fn unsupported_parameter_pattern_is_refused() {
    let d = FnDecl {
        name: "g".to_string(),
        params: vec![
            Param::Receiver { reference: true, mutable: false },
            Param::Typed { pat: Pat::Other, ty: Type::Other, text: "(u8, u8)".to_string() },
        ],
        body: block(vec![]),
    };
    let e = check_mutations(&d, &fields(&[], FieldMode::Allow)).err().unwrap();
    assert_eq!(e.param_index, 1);
    let g = GuardSpec::for_fields("MyStruct".to_string(), vec![]);
    assert_eq!(g.registration(&d).err().unwrap().param_index, 1);
}

#[test]
fn analysis_is_idempotent() {
    let body = block(vec![call("a"), call("b"), call("a")]);
    let p = policy(&["a"], CallMode::Allow);
    assert_eq!(view(&check_calls(&body, &p)), view(&check_calls(&body, &p)));
    let d = self_method(vec![Stmt::Expr(assign("self", "x")), Stmt::Expr(assign("self", "x"))]);
    let fp = fields(&[], FieldMode::Allow);
    let r1 = check_mutations(&d, &fp).ok().unwrap();
    let r2 = check_mutations(&d, &fp).ok().unwrap();
    assert_eq!(view(&r1), view(&r2));
    assert_eq!(r1.len(), 1);
}

#[test]
fn guard_registration_depends_on_the_body() {
    let g = GuardSpec::for_function("T".to_string(), "target".to_string(), strings(&["a"]));
    let calls_it = FnDecl { name: "c".to_string(), params: vec![], body: block(vec![method_call("t", "target")]) };
    let does_not = FnDecl { name: "d".to_string(), params: vec![], body: block(vec![call("other")]) };
    assert_eq!(g.registration(&calls_it).ok().unwrap().unwrap().caller, "c");
    assert!(g.registration(&does_not).ok().unwrap().is_none());
    let listed = FnDecl { name: "a".to_string(), params: vec![], body: block(vec![method_call("t", "target")]) };
    assert!(g.registration(&listed).ok().unwrap().is_none());
    let m = GuardSpec::for_fields("MyStruct".to_string(), strings(&["a"]));
    let reads = self_method(vec![Stmt::Expr(field("self", "x"))]);
    assert!(m.registration(&reads).ok().unwrap().is_none());
}

#[test]
fn report_lists_every_violation() {
    assert!(render_report(&vec![]).is_none());
    let vs = vec![
        Violation { kind: ViolationKind::CallNotWhitelisted, subject: "g".to_string() },
        Violation { kind: ViolationKind::CallMissing, subject: "b".to_string() },
        Violation { kind: ViolationKind::CallNotAllowed, subject: "d".to_string() },
        Violation { kind: ViolationKind::MutationNotAllowed, subject: "x".to_string() },
        Violation { kind: ViolationKind::MutationNotWhitelisted, subject: "y".to_string() },
    ];
    let e = render_report(&vs).unwrap();
    assert_eq!(
        e.message,
        "Function violates its policy:\n - call to a function that is not whitelisted: `g`\n - whitelisted function that is never called: `b`\n - call to a denied function: `d`\n - mutation of a denied field: `x`\n - mutation of a field that is not whitelisted: `y`\n"
    );
}

#[test]
fn check_whitelist_flags_once() {
    let list = strings(&["a"]);
    let mut flagged: Vec<String> = vec![];
    check_whitelist(&"b".to_string(), &list, false, &mut flagged);
    check_whitelist(&"b".to_string(), &list, false, &mut flagged);
    check_whitelist(&"a".to_string(), &list, false, &mut flagged);
    assert_eq!(flagged, strings(&["b"]));
    check_whitelist(&"a".to_string(), &list, true, &mut flagged);
    assert_eq!(flagged, strings(&["b", "a"]));
}

#[test]
fn shadowing_let_unbinds_instance() {
    // fn g(s: MyStruct) { let s = other(); s.f = v; { let s = MyStruct::new(); s.g = v; } s.h = v; }
    let ctor = Expr::Call { callee: Box::new(path(&["MyStruct", "new"])), args: vec![] };
    let inner = Block {
        stmts: vec![Stmt::Local { pat: Pat::Ident("s".to_string()), init: Some(ctor) }, Stmt::Expr(assign("s", "g"))],
    };
    let d = FnDecl {
        name: "g".to_string(),
        params: vec![Param::Typed {
            pat: Pat::Ident("s".to_string()),
            ty: Type::Path(strings(&["MyStruct"])),
            text: "MyStruct".to_string(),
        }],
        body: Block {
            stmts: vec![
                Stmt::Expr(assign("s", "before")),
                Stmt::Local { pat: Pat::Ident("s".to_string()), init: Some(call("other")) },
                Stmt::Expr(assign("s", "f")),
                Stmt::Expr(Expr::Block(inner)),
                Stmt::Expr(assign("s", "h")),
            ],
        },
    };
    assert_eq!(mutated_fields(&d, &"MyStruct".to_string()).ok().unwrap(), strings(&["before", "g"]));
}

#[test]
fn shadowing_ends_with_its_block() {
    // fn m(&mut self) { { let self_copy; } { let s = 1; } s.x = 1 } with s bound by a parameter
    let d = FnDecl {
        name: "g".to_string(),
        params: vec![Param::Typed {
            pat: Pat::Ident("s".to_string()),
            ty: Type::Reference { mutable: true, elem: Box::new(Type::Path(strings(&["MyStruct"]))) },
            text: "& mut MyStruct".to_string(),
        }],
        body: Block {
            stmts: vec![
                Stmt::Expr(Expr::Block(Block {
                    stmts: vec![Stmt::Local { pat: Pat::Ident("s".to_string()), init: None }, Stmt::Expr(assign("s", "inner"))],
                })),
                Stmt::Expr(assign("s", "outer")),
            ],
        },
    };
    assert_eq!(mutated_fields(&d, &"MyStruct".to_string()).ok().unwrap(), strings(&["outer"]));
}
