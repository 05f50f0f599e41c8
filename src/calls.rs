//! The call policy analyzer: which functions and methods a body calls, and
//! how those names stand against an allow-list, a deny-list or a list of
//! names that must all be called.

use vstd::prelude::*;
use crate::ast::{Block, Expr, Stmt, names, lemma_names_push};
use crate::policy::{
    CallMode, CallPolicy, Violation, ViolationKind, call_violations, flag_names, flagged,
    lemma_flagged_contains, lemma_flagged_no_duplicates, lemma_tagged, tag_names, violations,
};

verus! {

/// The name that a call records: the last segment of a path callee.
pub open spec fn callee_name(callee: Expr) -> Seq<Seq<char>> {
    match callee {
        Expr::Path(segs) => if segs@.len() > 0 {
            seq![segs@.last()@]
        } else {
            Seq::empty()
        },
        _ => Seq::empty(),
    }
}

/// Every call and method-call name in an expression, in source order,
/// depth first, each node before its children.
pub open spec fn calls_in_expr(e: Expr) -> Seq<Seq<char>>
    decreases e,
{
    match e {
        Expr::Call { callee, args } => callee_name(*callee) + calls_in_expr(*callee)
            + calls_in_exprs(args@),
        Expr::MethodCall { receiver, method, args } => seq![method@] + calls_in_expr(*receiver)
            + calls_in_exprs(args@),
        Expr::Block(b) => calls_in_stmts(b.stmts@),
        Expr::If { then_branch, else_branch } => calls_in_stmts(then_branch.stmts@) + match else_branch {
            Some(el) => calls_in_expr(*el),
            None => Seq::empty(),
        },
        Expr::While { body } => calls_in_stmts(body.stmts@),
        Expr::ForLoop { body } => calls_in_stmts(body.stmts@),
        Expr::Closure { body } => calls_in_expr(*body),
        Expr::Assign { target, value } => calls_in_expr(*target) + calls_in_expr(*value),
        Expr::CompoundAssign { target, op, value } => calls_in_expr(*target) + calls_in_expr(
            *value,
        ),
        Expr::Field { base, member } => calls_in_expr(*base),
        Expr::Path(_) => Seq::empty(),
        Expr::Other => Seq::empty(),
    }
}

pub open spec fn calls_in_exprs(es: Seq<Expr>) -> Seq<Seq<char>>
    decreases es,
{
    if es.len() == 0 {
        Seq::empty()
    } else {
        calls_in_exprs(es.subrange(0, es.len() - 1)) + calls_in_expr(es[es.len() - 1])
    }
}

pub open spec fn calls_in_stmt(s: Stmt) -> Seq<Seq<char>>
    decreases s,
{
    match s {
        Stmt::Local { pat, init } => match init {
            Some(e) => calls_in_expr(e),
            None => Seq::empty(),
        },
        Stmt::Expr(e) => calls_in_expr(e),
        Stmt::Item => Seq::empty(),
    }
}

pub open spec fn calls_in_stmts(ss: Seq<Stmt>) -> Seq<Seq<char>>
    decreases ss,
{
    if ss.len() == 0 {
        Seq::empty()
    } else {
        calls_in_stmts(ss.subrange(0, ss.len() - 1)) + calls_in_stmt(ss[ss.len() - 1])
    }
}

/// Every call and method-call name in a block.
pub open spec fn calls_in_block(b: Block) -> Seq<Seq<char>> {
    calls_in_stmts(b.stmts@)
}

fn record_callee(callee: &Expr, out: &mut Vec<String>)
    ensures
        names(final(out)@) == names(old(out)@) + callee_name(*callee),
{
    if let Expr::Path(segs) = callee {
        if segs.len() > 0 {
            let last = segs[segs.len() - 1].clone();
            proof {
                lemma_names_push(out@, last);
            }
            out.push(last);
            return ;
        }
    }
    assert(names(out@) =~= names(out@) + callee_name(*callee));
}

/// Appends to `out` every call name in `e`.
fn collect_calls_expr(e: &Expr, out: &mut Vec<String>)
    ensures
        names(final(out)@) == names(old(out)@) + calls_in_expr(*e),
    decreases e,
{
    let ghost start = names(out@);
    match e {
        Expr::Call { callee, args } => {
            record_callee(callee, out);
            collect_calls_expr(callee, out);
            collect_calls_exprs(args, out);
            assert(names(out@) =~= start + calls_in_expr(*e));
        },
        Expr::MethodCall { receiver, method, args } => {
            let m = method.clone();
            proof {
                lemma_names_push(out@, m);
            }
            out.push(m);
            collect_calls_expr(receiver, out);
            collect_calls_exprs(args, out);
            assert(names(out@) =~= start + calls_in_expr(*e));
        },
        Expr::Block(b) => {
            collect_calls_stmts(&b.stmts, out);
        },
        Expr::If { then_branch, else_branch } => {
            collect_calls_stmts(&then_branch.stmts, out);
            if let Some(el) = else_branch {
                collect_calls_expr(el, out);
            }
            assert(names(out@) =~= start + calls_in_expr(*e));
        },
        Expr::While { body } => {
            collect_calls_stmts(&body.stmts, out);
        },
        Expr::ForLoop { body } => {
            collect_calls_stmts(&body.stmts, out);
        },
        Expr::Closure { body } => {
            collect_calls_expr(body, out);
        },
        Expr::Assign { target, value } => {
            collect_calls_expr(target, out);
            collect_calls_expr(value, out);
            assert(names(out@) =~= start + calls_in_expr(*e));
        },
        Expr::CompoundAssign { target, op, value } => {
            collect_calls_expr(target, out);
            collect_calls_expr(value, out);
            assert(names(out@) =~= start + calls_in_expr(*e));
        },
        Expr::Field { base, member } => {
            collect_calls_expr(base, out);
        },
        Expr::Path(_) => {
            assert(names(out@) =~= start + calls_in_expr(*e));
        },
        Expr::Other => {
            assert(names(out@) =~= start + calls_in_expr(*e));
        },
    }
}

fn collect_calls_exprs(es: &Vec<Expr>, out: &mut Vec<String>)
    ensures
        names(final(out)@) == names(old(out)@) + calls_in_exprs(es@),
    decreases es,
{
    let ghost start = names(out@);
    let mut i: usize = 0;
    assert(es@.subrange(0, 0) =~= Seq::<Expr>::empty());
    assert(names(out@) =~= start + calls_in_exprs(es@.subrange(0, 0)));
    while i < es.len()
        invariant
            i <= es@.len(),
            names(out@) == start + calls_in_exprs(es@.subrange(0, i as int)),
        decreases es@.len() - i,
    {
        collect_calls_expr(&es[i], out);
        proof {
            let pre = es@.subrange(0, i as int + 1);
            assert(pre.subrange(0, pre.len() - 1) =~= es@.subrange(0, i as int));
            assert(pre[pre.len() - 1] == es@[i as int]);
        }
        i = i + 1;
        assert(names(out@) =~= start + calls_in_exprs(es@.subrange(0, i as int)));
    }
    assert(es@.subrange(0, es@.len() as int) =~= es@);
}

fn collect_calls_stmts(ss: &Vec<Stmt>, out: &mut Vec<String>)
    ensures
        names(final(out)@) == names(old(out)@) + calls_in_stmts(ss@),
    decreases ss,
{
    let ghost start = names(out@);
    let mut i: usize = 0;
    assert(ss@.subrange(0, 0) =~= Seq::<Stmt>::empty());
    assert(names(out@) =~= start + calls_in_stmts(ss@.subrange(0, 0)));
    while i < ss.len()
        invariant
            i <= ss@.len(),
            names(out@) == start + calls_in_stmts(ss@.subrange(0, i as int)),
        decreases ss@.len() - i,
    {
        let ghost before = names(out@);
        match &ss[i] {
            Stmt::Local { pat, init } => {
                if let Some(e) = init {
                    collect_calls_expr(e, out);
                }
            },
            Stmt::Expr(e) => {
                collect_calls_expr(e, out);
            },
            Stmt::Item => {},
        }
        assert(names(out@) =~= before + calls_in_stmt(ss@[i as int]));
        proof {
            let pre = ss@.subrange(0, i as int + 1);
            assert(pre.subrange(0, pre.len() - 1) =~= ss@.subrange(0, i as int));
            assert(pre[pre.len() - 1] == ss@[i as int]);
        }
        i = i + 1;
        assert(names(out@) =~= start + calls_in_stmts(ss@.subrange(0, i as int)));
    }
    assert(ss@.subrange(0, ss@.len() as int) =~= ss@);
}

/// Every call and method-call name in `body`, in source order. Nested item
/// definitions are not entered.
pub fn called_names(body: &Block) -> (r: Vec<String>)
    ensures
        names(r@) == calls_in_block(*body),
{
    let mut out: Vec<String> = Vec::new();
    assert(names(out@) =~= Seq::<Seq<char>>::empty());
    collect_calls_stmts(&body.stmts, &mut out);
    assert(names(out@) =~= calls_in_block(*body));
    out
}

/// The violations of `policy` by `body`: in allow mode each called name
/// that the list lacks, in deny mode each called name that it holds, in
/// must-call-all mode each listed name that is never called. Each name is
/// reported once.
pub fn check_calls(body: &Block, policy: &CallPolicy) -> (r: Vec<Violation>)
    ensures
        violations(r@) == call_violations(calls_in_block(*body), policy.mode, names(policy.names@)),
{
    let found = called_names(body);
    match policy.mode {
        CallMode::Allow => tag_names(
            ViolationKind::CallNotWhitelisted,
            flag_names(&found, &policy.names, false),
        ),
        CallMode::Deny => tag_names(ViolationKind::CallNotAllowed, flag_names(&found, &policy.names, true)),
        CallMode::MustCallAll => tag_names(
            ViolationKind::CallMissing,
            flag_names(&policy.names, &found, false),
        ),
    }
}

/// The violations of a call policy by a body, over the names it calls.
pub open spec fn call_check(body: Block, policy: CallPolicy) -> Seq<(ViolationKind, Seq<char>)> {
    call_violations(calls_in_block(body), policy.mode, names(policy.names@))
}

/// Under an allow-list, a body whose every call is listed has no violation,
/// and each call that is not listed is reported as not whitelisted.
pub proof fn law_allow_list_sound(body: Block, policy: CallPolicy)
    requires
        policy.mode == CallMode::Allow,
    ensures
        (forall|n: Seq<char>| #[trigger]
            calls_in_block(body).contains(n) ==> names(policy.names@).contains(n)) ==> call_check(
            body,
            policy,
        ).len() == 0,
        forall|n: Seq<char>| #[trigger]
            calls_in_block(body).contains(n) && !names(policy.names@).contains(n) ==> call_check(
                body,
                policy,
            ).contains((ViolationKind::CallNotWhitelisted, n)),
{
    let calls = calls_in_block(body);
    let list = names(policy.names@);
    let f = flagged(calls, list, false);
    lemma_tagged(ViolationKind::CallNotWhitelisted, f);
    assert forall|n: Seq<char>| #[trigger] f.contains(n) <==> (calls.contains(n) && !list.contains(n)) by {
        lemma_flagged_contains(calls, list, false, n);
    }
    if forall|n: Seq<char>| #[trigger] calls.contains(n) ==> list.contains(n) {
        if f.len() > 0 {
            assert(f.contains(f[0]));
        }
    }
}

/// Under a deny-list, the violations are exactly the listed names that the
/// body calls, each reported once however often it is called.
pub proof fn law_deny_list_sound(body: Block, policy: CallPolicy)
    requires
        policy.mode == CallMode::Deny,
    ensures
        forall|k: ViolationKind, n: Seq<char>| #[trigger]
            call_check(body, policy).contains((k, n)) <==> (k == ViolationKind::CallNotAllowed
                && calls_in_block(body).contains(n) && names(policy.names@).contains(n)),
        call_check(body, policy).no_duplicates(),
{
    let calls = calls_in_block(body);
    let list = names(policy.names@);
    let f = flagged(calls, list, true);
    lemma_flagged_no_duplicates(calls, list, true);
    lemma_tagged(ViolationKind::CallNotAllowed, f);
    assert forall|n: Seq<char>| #[trigger] f.contains(n) <==> (calls.contains(n) && list.contains(n)) by {
        lemma_flagged_contains(calls, list, true, n);
    }
}

/// Under a must-call-all list, the violations are exactly the listed names
/// that the body never calls, each reported once.
pub proof fn law_must_call_all_complete(body: Block, policy: CallPolicy)
    requires
        policy.mode == CallMode::MustCallAll,
    ensures
        forall|k: ViolationKind, n: Seq<char>| #[trigger]
            call_check(body, policy).contains((k, n)) <==> (k == ViolationKind::CallMissing
                && names(policy.names@).contains(n) && !calls_in_block(body).contains(n)),
        call_check(body, policy).no_duplicates(),
{
    let calls = calls_in_block(body);
    let list = names(policy.names@);
    let f = flagged(list, calls, false);
    lemma_flagged_no_duplicates(list, calls, false);
    lemma_tagged(ViolationKind::CallMissing, f);
    assert forall|n: Seq<char>| #[trigger] f.contains(n) <==> (list.contains(n) && !calls.contains(n)) by {
        lemma_flagged_contains(list, calls, false, n);
    }
}

/// With the must-call-all list `[a, b]` and a body that calls `a` but not
/// `b`, the one violation is that `b` is missing.
pub proof fn law_must_call_all_pair(body: Block, policy: CallPolicy, a: Seq<char>, b: Seq<char>)
    requires
        policy.mode == CallMode::MustCallAll,
        names(policy.names@) == seq![a, b],
        calls_in_block(body).contains(a),
        !calls_in_block(body).contains(b),
    ensures
        call_check(body, policy) == seq![(ViolationKind::CallMissing, b)],
{
    let calls = calls_in_block(body);
    let list = seq![a, b];
    assert(list.drop_last() =~= seq![a]);
    assert(seq![a].drop_last() =~= Seq::<Seq<char>>::empty());
    assert(flagged(Seq::<Seq<char>>::empty(), calls, false) =~= Seq::<Seq<char>>::empty());
    assert(seq![a].last() == a);
    assert(flagged(seq![a], calls, false) =~= Seq::<Seq<char>>::empty());
    assert(list.last() == b);
    assert(!Seq::<Seq<char>>::empty().contains(b));
    assert(flagged(list, calls, false) =~= seq![b]);
    assert(call_check(body, policy) =~= seq![(ViolationKind::CallMissing, b)]);
}

/// The check keeps no state between runs: the same body under the same
/// policy gives the same violations.
pub proof fn law_call_check_idempotent(b1: Block, b2: Block, p1: CallPolicy, p2: CallPolicy)
    requires
        b1 == b2,
        p1.mode == p2.mode,
        names(p1.names@) == names(p2.names@),
    ensures
        call_check(b1, p1) == call_check(b2, p2),
{
}

} // verus!
