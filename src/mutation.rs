//! The instance binding tracker and the mutation policy analyzer: which
//! names denote an instance of a type, and which of its fields a body
//! writes through them.

use vstd::prelude::*;
use vstd::string::StringExecFns;
use crate::ast::{Block, Expr, FnDecl, Member, Param, Pat, Stmt, Type, names, lemma_names_push};
use crate::policy::{
    FieldMode, FieldPolicy, Violation, ViolationKind, contains_name, field_violations, flag_names,
    flagged, lemma_flagged_contains, lemma_tagged, tag_names, violations,
};

verus! {

/// Whether a declared type, with its references stripped, is the plain
/// name `ty_name`.
pub open spec fn names_type(ty: Type, ty_name: Seq<char>) -> bool
    decreases ty,
{
    match ty {
        Type::Path(segs) => segs@.len() == 1 && segs@[0]@ == ty_name,
        Type::Reference { mutable, elem } => names_type(*elem, ty_name),
        Type::Other => false,
    }
}

/// Whether the analyzer can read a parameter: a receiver, or a typed
/// parameter bound to a plain name.
pub open spec fn param_supported(p: Param) -> bool {
    match p {
        Param::Receiver { .. } => true,
        Param::Typed { pat, .. } => pat is Ident,
    }
}

/// The instance name that a parameter binds: the receiver when it is taken
/// by reference or as mutable, a typed parameter when its type is the
/// target type.
pub open spec fn param_binding(p: Param, ty_name: Seq<char>) -> Seq<Seq<char>> {
    match p {
        Param::Receiver { reference, mutable } => if reference || mutable {
            seq!["self"@]
        } else {
            Seq::empty()
        },
        Param::Typed { pat, ty, text } => match pat {
            Pat::Ident(n) => if names_type(ty, ty_name) {
                seq![n@]
            } else {
                Seq::empty()
            },
            Pat::Other => Seq::empty(),
        },
    }
}

/// The instance names bound by a parameter list.
pub open spec fn params_binding(ps: Seq<Param>, ty_name: Seq<char>) -> Seq<Seq<char>>
    decreases ps.len(),
{
    if ps.len() == 0 {
        Seq::empty()
    } else {
        params_binding(ps.drop_last(), ty_name) + param_binding(ps.last(), ty_name)
    }
}

/// Whether an initializer is `ty_name::new(..)` or `ty_name::default(..)`.
pub open spec fn is_constructor(init: Expr, ty_name: Seq<char>) -> bool {
    match init {
        Expr::Call { callee, args } => match *callee {
            Expr::Path(segs) => segs@.len() > 1 && segs@[0]@ == ty_name && (segs@[1]@ == "new"@
                || segs@[1]@ == "default"@),
            _ => false,
        },
        _ => false,
    }
}

/// The instance name that a statement binds: a plain `let` name whose
/// initializer is a constructor of the target type.
pub open spec fn stmt_binding(s: Stmt, ty_name: Seq<char>) -> Seq<Seq<char>> {
    match s {
        Stmt::Local { pat, init } => match (pat, init) {
            (Pat::Ident(n), Some(e)) => if is_constructor(e, ty_name) {
                seq![n@]
            } else {
                Seq::empty()
            },
            _ => Seq::empty(),
        },
        _ => Seq::empty(),
    }
}

/// `bound` without any occurrence of `n`.
pub open spec fn remove_name(bound: Seq<Seq<char>>, n: Seq<char>) -> Seq<Seq<char>>
    decreases bound.len(),
{
    if bound.len() == 0 {
        bound
    } else if bound.last() == n {
        remove_name(bound.drop_last(), n)
    } else {
        remove_name(bound.drop_last(), n).push(bound.last())
    }
}

/// The name that a `let` introduces, when its pattern is a plain name.
pub open spec fn let_name(s: Stmt) -> Option<Seq<char>> {
    match s {
        Stmt::Local { pat: Pat::Ident(n), .. } => Some(n@),
        _ => None,
    }
}

/// The instance names in scope after one statement: a `let` of a plain
/// name binds it when its initializer is a constructor of the target type,
/// and otherwise shadows it, so that it no longer denotes an instance.
pub open spec fn bound_after_stmt(s: Stmt, bound: Seq<Seq<char>>, ty_name: Seq<char>) -> Seq<
    Seq<char>,
> {
    match let_name(s) {
        Some(n) => if stmt_binding(s, ty_name).len() > 0 {
            bound.push(n)
        } else {
            remove_name(bound, n)
        },
        None => bound,
    }
}

/// The instance names in scope after a run of statements.
pub open spec fn bound_after(ss: Seq<Stmt>, bound: Seq<Seq<char>>, ty_name: Seq<char>) -> Seq<
    Seq<char>,
>
    decreases ss.len(),
{
    if ss.len() == 0 {
        bound
    } else {
        bound_after_stmt(ss.last(), bound_after(ss.drop_last(), bound, ty_name), ty_name)
    }
}

/// The field that an assignment target writes through a bound instance:
/// `name.field` with `name` in `bound`.
pub open spec fn field_written(target: Expr, bound: Seq<Seq<char>>) -> Seq<Seq<char>> {
    match target {
        Expr::Field { base, member } => match (*base, member) {
            (Expr::Path(segs), Member::Named(f)) => if segs@.len() == 1 && bound.contains(
                segs@[0]@,
            ) {
                seq![f@]
            } else {
                Seq::empty()
            },
            _ => Seq::empty(),
        },
        _ => Seq::empty(),
    }
}

/// Every field written through a bound instance in an expression, in
/// source order.
pub open spec fn writes_in_expr(e: Expr, bound: Seq<Seq<char>>, ty_name: Seq<char>) -> Seq<
    Seq<char>,
>
    decreases e,
{
    match e {
        Expr::Call { callee, args } => writes_in_expr(*callee, bound, ty_name) + writes_in_exprs(
            args@,
            bound,
            ty_name,
        ),
        Expr::MethodCall { receiver, method, args } => writes_in_expr(*receiver, bound, ty_name)
            + writes_in_exprs(args@, bound, ty_name),
        Expr::Block(b) => writes_in_stmts(b.stmts@, bound, ty_name),
        Expr::If { then_branch, else_branch } => writes_in_stmts(then_branch.stmts@, bound, ty_name)
            + match else_branch {
            Some(el) => writes_in_expr(*el, bound, ty_name),
            None => Seq::empty(),
        },
        Expr::While { body } => writes_in_stmts(body.stmts@, bound, ty_name),
        Expr::ForLoop { body } => writes_in_stmts(body.stmts@, bound, ty_name),
        Expr::Closure { body } => writes_in_expr(*body, bound, ty_name),
        Expr::Assign { target, value } => field_written(*target, bound) + writes_in_expr(
            *target,
            bound,
            ty_name,
        ) + writes_in_expr(*value, bound, ty_name),
        Expr::CompoundAssign { target, op, value } => field_written(*target, bound)
            + writes_in_expr(*target, bound, ty_name) + writes_in_expr(*value, bound, ty_name),
        Expr::Field { base, member } => writes_in_expr(*base, bound, ty_name),
        Expr::Path(_) => Seq::empty(),
        Expr::Other => Seq::empty(),
    }
}

pub open spec fn writes_in_exprs(es: Seq<Expr>, bound: Seq<Seq<char>>, ty_name: Seq<char>) -> Seq<
    Seq<char>,
>
    decreases es,
{
    if es.len() == 0 {
        Seq::empty()
    } else {
        writes_in_exprs(es.subrange(0, es.len() - 1), bound, ty_name) + writes_in_expr(
            es[es.len() - 1],
            bound,
            ty_name,
        )
    }
}

/// The writes of one statement; a `let` binds its name before its
/// initializer is read.
pub open spec fn writes_in_stmt(s: Stmt, bound: Seq<Seq<char>>, ty_name: Seq<char>) -> Seq<
    Seq<char>,
>
    decreases s,
{
    match s {
        Stmt::Local { pat, init } => match init {
            Some(e) => writes_in_expr(e, bound + stmt_binding(s, ty_name), ty_name),
            None => Seq::empty(),
        },
        Stmt::Expr(e) => writes_in_expr(e, bound, ty_name),
        Stmt::Item => Seq::empty(),
    }
}

/// The writes of a run of statements; each statement sees the names bound
/// or shadowed by those before it, and no such change outlives the run.
pub open spec fn writes_in_stmts(ss: Seq<Stmt>, bound: Seq<Seq<char>>, ty_name: Seq<char>) -> Seq<
    Seq<char>,
>
    decreases ss,
{
    if ss.len() == 0 {
        Seq::empty()
    } else {
        let pre = ss.subrange(0, ss.len() - 1);
        writes_in_stmts(pre, bound, ty_name) + writes_in_stmt(
            ss[ss.len() - 1],
            bound_after(pre, bound, ty_name),
            ty_name,
        )
    }
}

/// Whether `ty`, with its references stripped, is the plain name `ty_name`.
pub fn type_is(ty: &Type, ty_name: &String) -> (r: bool)
    ensures
        r == names_type(*ty, ty_name@),
    decreases ty,
{
    match ty {
        Type::Path(segs) => segs.len() == 1 && segs[0] == *ty_name,
        Type::Reference { mutable, elem } => type_is(elem, ty_name),
        Type::Other => false,
    }
}

/// Whether `init` is a constructor call `ty_name::new(..)` or
/// `ty_name::default(..)`.
pub fn constructs(init: &Expr, ty_name: &String) -> (r: bool)
    ensures
        r == is_constructor(*init, ty_name@),
{
    if let Expr::Call { callee, args } = init {
        if let Expr::Path(segs) = &**callee {
            if segs.len() > 1 && segs[0] == *ty_name {
                let new_name = String::from_str("new");
                let default_name = String::from_str("default");
                return segs[1] == new_name || segs[1] == default_name;
            }
        }
    }
    false
}

fn record_field_write(target: &Expr, bound: &Vec<String>, out: &mut Vec<String>)
    ensures
        names(final(out)@) == names(old(out)@) + field_written(*target, names(bound@)),
{
    if let Expr::Field { base, member } = target {
        if let (Expr::Path(segs), Member::Named(f)) = (&**base, member) {
            if segs.len() == 1 && contains_name(bound, &segs[0]) {
                let c = f.clone();
                proof {
                    lemma_names_push(out@, c);
                }
                out.push(c);
                return ;
            }
        }
    }
    assert(names(out@) =~= names(out@) + field_written(*target, names(bound@)));
}

fn collect_writes_expr(e: &Expr, bound: &Vec<String>, ty_name: &String, out: &mut Vec<String>)
    ensures
        names(final(out)@) == names(old(out)@) + writes_in_expr(*e, names(bound@), ty_name@),
    decreases e,
{
    let ghost start = names(out@);
    let ghost b = names(bound@);
    match e {
        Expr::Call { callee, args } => {
            collect_writes_expr(callee, bound, ty_name, out);
            collect_writes_exprs(args, bound, ty_name, out);
            assert(names(out@) =~= start + writes_in_expr(*e, b, ty_name@));
        },
        Expr::MethodCall { receiver, method, args } => {
            collect_writes_expr(receiver, bound, ty_name, out);
            collect_writes_exprs(args, bound, ty_name, out);
            assert(names(out@) =~= start + writes_in_expr(*e, b, ty_name@));
        },
        Expr::Block(blk) => {
            collect_writes_stmts(&blk.stmts, bound, ty_name, out);
        },
        Expr::If { then_branch, else_branch } => {
            collect_writes_stmts(&then_branch.stmts, bound, ty_name, out);
            if let Some(el) = else_branch {
                collect_writes_expr(el, bound, ty_name, out);
            }
            assert(names(out@) =~= start + writes_in_expr(*e, b, ty_name@));
        },
        Expr::While { body } => {
            collect_writes_stmts(&body.stmts, bound, ty_name, out);
        },
        Expr::ForLoop { body } => {
            collect_writes_stmts(&body.stmts, bound, ty_name, out);
        },
        Expr::Closure { body } => {
            collect_writes_expr(body, bound, ty_name, out);
        },
        Expr::Assign { target, value } => {
            record_field_write(target, bound, out);
            collect_writes_expr(target, bound, ty_name, out);
            collect_writes_expr(value, bound, ty_name, out);
            assert(names(out@) =~= start + writes_in_expr(*e, b, ty_name@));
        },
        Expr::CompoundAssign { target, op, value } => {
            record_field_write(target, bound, out);
            collect_writes_expr(target, bound, ty_name, out);
            collect_writes_expr(value, bound, ty_name, out);
            assert(names(out@) =~= start + writes_in_expr(*e, b, ty_name@));
        },
        Expr::Field { base, member } => {
            collect_writes_expr(base, bound, ty_name, out);
        },
        Expr::Path(_) => {
            assert(names(out@) =~= start + writes_in_expr(*e, b, ty_name@));
        },
        Expr::Other => {
            assert(names(out@) =~= start + writes_in_expr(*e, b, ty_name@));
        },
    }
}

fn collect_writes_exprs(es: &Vec<Expr>, bound: &Vec<String>, ty_name: &String, out: &mut Vec<String>)
    ensures
        names(final(out)@) == names(old(out)@) + writes_in_exprs(es@, names(bound@), ty_name@),
    decreases es,
{
    let ghost start = names(out@);
    let ghost b = names(bound@);
    let mut i: usize = 0;
    assert(es@.subrange(0, 0) =~= Seq::<Expr>::empty());
    assert(names(out@) =~= start + writes_in_exprs(es@.subrange(0, 0), b, ty_name@));
    while i < es.len()
        invariant
            i <= es@.len(),
            b == names(bound@),
            names(out@) == start + writes_in_exprs(es@.subrange(0, i as int), b, ty_name@),
        decreases es@.len() - i,
    {
        collect_writes_expr(&es[i], bound, ty_name, out);
        proof {
            let pre = es@.subrange(0, i as int + 1);
            assert(pre.subrange(0, pre.len() - 1) =~= es@.subrange(0, i as int));
            assert(pre[pre.len() - 1] == es@[i as int]);
        }
        i = i + 1;
        assert(names(out@) =~= start + writes_in_exprs(es@.subrange(0, i as int), b, ty_name@));
    }
    assert(es@.subrange(0, es@.len() as int) =~= es@);
}

/// The name that a `let` binds to a new instance, if its initializer is a
/// constructor of the target type.
fn local_binding(pat: &Pat, init: &Option<Expr>, ty_name: &String) -> (r: Option<String>)
    ensures
        match r {
            Some(n) => stmt_binding(Stmt::Local { pat: *pat, init: *init }, ty_name@) == seq![n@],
            None => stmt_binding(Stmt::Local { pat: *pat, init: *init }, ty_name@) == Seq::<
                Seq<char>,
            >::empty(),
        },
{
    if let (Pat::Ident(n), Some(e)) = (pat, init) {
        if constructs(e, ty_name) {
            return Some(n.clone());
        }
    }
    None
}

/// A copy of a list of names.
fn copy_names(v: &Vec<String>) -> (r: Vec<String>)
    ensures
        names(r@) == names(v@),
{
    let mut r: Vec<String> = Vec::new();
    let mut i: usize = 0;
    assert(names(r@) =~= names(v@).subrange(0, 0));
    while i < v.len()
        invariant
            i <= v@.len(),
            names(r@) == names(v@).subrange(0, i as int),
        decreases v@.len() - i,
    {
        let c = v[i].clone();
        proof {
            lemma_names_push(r@, c);
        }
        r.push(c);
        i = i + 1;
        assert(names(r@) =~= names(v@).subrange(0, i as int));
    }
    assert(names(v@).subrange(0, v@.len() as int) =~= names(v@));
    r
}

/// The names of `v` other than `n`, in order.
fn without_name(v: &Vec<String>, n: &String) -> (r: Vec<String>)
    ensures
        names(r@) == remove_name(names(v@), n@),
{
    let mut r: Vec<String> = Vec::new();
    let mut i: usize = 0;
    assert(names(v@).subrange(0, 0) =~= Seq::<Seq<char>>::empty());
    assert(names(r@) =~= Seq::<Seq<char>>::empty());
    while i < v.len()
        invariant
            i <= v@.len(),
            names(r@) == remove_name(names(v@).subrange(0, i as int), n@),
        decreases v@.len() - i,
    {
        let ghost pre = names(v@).subrange(0, i as int + 1);
        assert(pre.drop_last() =~= names(v@).subrange(0, i as int));
        assert(pre.last() == v@[i as int]@);
        if v[i] != *n {
            let c = v[i].clone();
            proof {
                lemma_names_push(r@, c);
            }
            r.push(c);
        }
        i = i + 1;
    }
    assert(names(v@).subrange(0, v@.len() as int) =~= names(v@));
    r
}

fn collect_writes_stmts(ss: &Vec<Stmt>, bound: &Vec<String>, ty_name: &String, out: &mut Vec<String>)
    ensures
        names(final(out)@) == names(old(out)@) + writes_in_stmts(ss@, names(bound@), ty_name@),
    decreases ss,
{
    let ghost start = names(out@);
    let ghost b = names(bound@);
    let mut scope = copy_names(bound);
    let mut i: usize = 0;
    assert(ss@.subrange(0, 0) =~= Seq::<Stmt>::empty());
    assert(names(out@) =~= start + writes_in_stmts(ss@.subrange(0, 0), b, ty_name@));
    while i < ss.len()
        invariant
            i <= ss@.len(),
            b == names(bound@),
            names(scope@) == bound_after(ss@.subrange(0, i as int), b, ty_name@),
            names(out@) == start + writes_in_stmts(ss@.subrange(0, i as int), b, ty_name@),
        decreases ss@.len() - i,
    {
        let ghost before = names(out@);
        let ghost scope_before = names(scope@);
        let ghost pre = ss@.subrange(0, i as int + 1);
        assert(pre.subrange(0, pre.len() - 1) =~= ss@.subrange(0, i as int));
        assert(pre.drop_last() =~= ss@.subrange(0, i as int));
        assert(pre[pre.len() - 1] == ss@[i as int]);
        assert(pre.last() == ss@[i as int]);
        match &ss[i] {
            Stmt::Local { pat, init } => {
                let ghost st = ss@[i as int];
                assert(st == Stmt::Local { pat: *pat, init: *init });
                match local_binding(pat, init, ty_name) {
                    Some(n) => {
                        proof {
                            lemma_names_push(scope@, n);
                            let sb = stmt_binding(st, ty_name@);
                            assert(sb[0] == n@);
                            assert(let_name(st) == Some(n@));
                            assert(scope_before + sb =~= scope_before.push(n@));
                        }
                        scope.push(n);
                        if let Some(e) = init {
                            collect_writes_expr(e, &scope, ty_name, out);
                        }
                    },
                    None => {
                        assert(scope_before + stmt_binding(st, ty_name@) =~= scope_before);
                        if let Some(e) = init {
                            collect_writes_expr(e, &scope, ty_name, out);
                        }
                        if let Pat::Ident(n) = pat {
                            assert(let_name(st) == Some(n@));
                            scope = without_name(&scope, n);
                        }
                    },
                }
                assert(names(scope@) =~= bound_after_stmt(st, scope_before, ty_name@));
                assert(names(out@) =~= before + writes_in_stmt(st, scope_before, ty_name@));
            },
            Stmt::Expr(e) => {
                collect_writes_expr(e, &scope, ty_name, out);
            },
            Stmt::Item => {},
        }
        assert(names(scope@) =~= bound_after_stmt(ss@[i as int], scope_before, ty_name@));
        assert(names(out@) =~= before + writes_in_stmt(ss@[i as int], scope_before, ty_name@));
        i = i + 1;
        assert(names(out@) =~= start + writes_in_stmts(ss@.subrange(0, i as int), b, ty_name@));
    }
    assert(ss@.subrange(0, ss@.len() as int) =~= ss@);
}

/// A parameter whose pattern is not a plain name: the analyzer cannot tell
/// which name it binds, and refuses the function rather than skip it.
#[derive(PartialEq, Eq, Structural, Clone, Copy, Debug)]
pub struct UnsupportedConstruct {
    /// The position of the first such parameter.
    pub param_index: usize,
}

/// Whether every parameter of a list can be read.
pub open spec fn params_supported(ps: Seq<Param>) -> bool {
    forall|i: int| 0 <= i < ps.len() ==> #[trigger] param_supported(ps[i])
}

/// Whether `i` is the first parameter that cannot be read.
pub open spec fn first_unsupported(ps: Seq<Param>, i: int) -> bool {
    &&& 0 <= i < ps.len()
    &&& !param_supported(ps[i])
    &&& forall|j: int| 0 <= j < i ==> #[trigger] param_supported(ps[j])
}

/// The fields that a function writes through instances of `ty_name`.
pub open spec fn fn_writes(f: FnDecl, ty_name: Seq<char>) -> Seq<Seq<char>> {
    writes_in_stmts(f.body.stmts@, params_binding(f.params@, ty_name), ty_name)
}

/// The instance names that the parameters bind, or the first parameter
/// that cannot be read.
pub fn bind_params(params: &Vec<Param>, ty_name: &String) -> (r: Result<
    Vec<String>,
    UnsupportedConstruct,
>)
    ensures
        match r {
            Ok(v) => params_supported(params@) && names(v@) == params_binding(params@, ty_name@),
            Err(e) => first_unsupported(params@, e.param_index as int),
        },
{
    let mut v: Vec<String> = Vec::new();
    let mut i: usize = 0;
    assert(params@.subrange(0, 0) =~= Seq::<Param>::empty());
    assert(names(v@) =~= Seq::<Seq<char>>::empty());
    while i < params.len()
        invariant
            i <= params@.len(),
            forall|j: int| 0 <= j < i ==> #[trigger] param_supported(params@[j]),
            names(v@) == params_binding(params@.subrange(0, i as int), ty_name@),
        decreases params@.len() - i,
    {
        let ghost pre = params@.subrange(0, i as int + 1);
        assert(pre.drop_last() =~= params@.subrange(0, i as int));
        assert(pre.last() == params@[i as int]);
        let ghost before = names(v@);
        match &params[i] {
            Param::Receiver { reference, mutable } => {
                if *reference || *mutable {
                    let s = String::from_str("self");
                    proof {
                        lemma_names_push(v@, s);
                    }
                    v.push(s);
                }
            },
            Param::Typed { pat, ty, text } => {
                match pat {
                    Pat::Ident(n) => {
                        if type_is(ty, ty_name) {
                            let c = n.clone();
                            proof {
                                lemma_names_push(v@, c);
                            }
                            v.push(c);
                        }
                    },
                    Pat::Other => {
                        return Err(UnsupportedConstruct { param_index: i });
                    },
                }
            },
        }
        assert(names(v@) =~= before + param_binding(params@[i as int], ty_name@));
        i = i + 1;
    }
    assert(params@.subrange(0, params@.len() as int) =~= params@);
    Ok(v)
}

/// The fields of `ty_name` that `func` writes, in source order: through its
/// bound parameters, and through the names that its `let`s bind to new
/// instances from their statement to the end of their block. Any other
/// `let` of a plain name shadows that name until the end of its block.
pub fn mutated_fields(func: &FnDecl, ty_name: &String) -> (r: Result<
    Vec<String>,
    UnsupportedConstruct,
>)
    ensures
        match r {
            Ok(v) => params_supported(func.params@) && names(v@) == fn_writes(*func, ty_name@),
            Err(e) => first_unsupported(func.params@, e.param_index as int),
        },
{
    let bound = match bind_params(&func.params, ty_name) {
        Ok(b) => b,
        Err(e) => {
            return Err(e);
        },
    };
    let mut out: Vec<String> = Vec::new();
    assert(names(out@) =~= Seq::<Seq<char>>::empty());
    collect_writes_stmts(&func.body.stmts, &bound, ty_name, &mut out);
    assert(names(out@) =~= fn_writes(*func, ty_name@));
    Ok(out)
}

/// The violations of `policy` by `func`: in allow mode each written field
/// that the list lacks, in deny mode each written field that it holds, each
/// reported once.
pub fn check_mutations(func: &FnDecl, policy: &FieldPolicy) -> (r: Result<
    Vec<Violation>,
    UnsupportedConstruct,
>)
    ensures
        match r {
            Ok(v) => params_supported(func.params@) && violations(v@) == field_violations(
                fn_writes(*func, policy.struct_name@),
                policy.mode,
                names(policy.fields@),
            ),
            Err(e) => first_unsupported(func.params@, e.param_index as int),
        },
{
    let written = match mutated_fields(func, &policy.struct_name) {
        Ok(w) => w,
        Err(e) => {
            return Err(e);
        },
    };
    match policy.mode {
        FieldMode::Allow => Ok(
            tag_names(
                ViolationKind::MutationNotWhitelisted,
                flag_names(&written, &policy.fields, false),
            ),
        ),
        FieldMode::Deny => Ok(
            tag_names(ViolationKind::MutationNotAllowed, flag_names(&written, &policy.fields, true)),
        ),
    }
}

/// The violations of a field policy by a function, over the fields it writes.
pub open spec fn mutation_check(func: FnDecl, policy: FieldPolicy) -> Seq<(ViolationKind, Seq<char>)> {
    field_violations(fn_writes(func, policy.struct_name@), policy.mode, names(policy.fields@))
}

/// The check keeps no state between runs: the same function under the same
/// policy gives the same violations.
pub proof fn law_mutation_check_idempotent(f1: FnDecl, f2: FnDecl, p1: FieldPolicy, p2: FieldPolicy)
    requires
        f1 == f2,
        p1.struct_name@ == p2.struct_name@,
        p1.mode == p2.mode,
        names(p1.fields@) == names(p2.fields@),
    ensures
        mutation_check(f1, p1) == mutation_check(f2, p2),
{
}

/// A write `n.f = v` or `n.f op= v` reports `f` when `n` is a bound instance
/// and nothing of its own otherwise; a read `n.f` reports nothing.
pub proof fn law_mutation_scoping(
    e: Expr,
    segs: Vec<String>,
    f: String,
    bound: Seq<Seq<char>>,
    ty_name: Seq<char>,
)
    requires
        segs@.len() == 1,
    ensures
        ({
            let access = Expr::Field { base: Box::new(Expr::Path(segs)), member: Member::Named(f) };
            &&& writes_in_expr(access, bound, ty_name).len() == 0
            &&& match e {
                Expr::Assign { target, value } => *target == access ==> writes_in_expr(
                    e,
                    bound,
                    ty_name,
                ) == (if bound.contains(segs@[0]@) {
                    seq![f@]
                } else {
                    Seq::empty()
                }) + writes_in_expr(*value, bound, ty_name),
                Expr::CompoundAssign { target, op, value } => *target == access ==> writes_in_expr(
                    e,
                    bound,
                    ty_name,
                ) == (if bound.contains(segs@[0]@) {
                    seq![f@]
                } else {
                    Seq::empty()
                }) + writes_in_expr(*value, bound, ty_name),
                _ => true,
            }
        }),
{
    let access = Expr::Field { base: Box::new(Expr::Path(segs)), member: Member::Named(f) };
    assert(writes_in_expr(Expr::Path(segs), bound, ty_name) == Seq::<Seq<char>>::empty());
    assert(writes_in_expr(access, bound, ty_name) == Seq::<Seq<char>>::empty());
    match e {
        Expr::Assign { target, value } => {
            if *target == access {
                assert(writes_in_expr(e, bound, ty_name) =~= field_written(access, bound)
                    + writes_in_expr(*value, bound, ty_name));
            }
        },
        Expr::CompoundAssign { target, op, value } => {
            if *target == access {
                assert(writes_in_expr(e, bound, ty_name) =~= field_written(access, bound)
                    + writes_in_expr(*value, bound, ty_name));
            }
        },
        _ => {},
    }
}

/// Whether a statement is a `let` of the plain name `n`, which binds or
/// shadows it.
pub open spec fn rebinds(s: Stmt, n: Seq<char>) -> bool {
    let_name(s) == Some(n)
}

/// Removing `n` keeps every other name and drops `n`.
pub proof fn lemma_remove_name(bound: Seq<Seq<char>>, n: Seq<char>, x: Seq<char>)
    ensures
        remove_name(bound, n).contains(x) <==> (bound.contains(x) && x != n),
    decreases bound.len(),
{
    if bound.len() > 0 {
        let rest = bound.drop_last();
        lemma_remove_name(rest, n, x);
        let r = remove_name(rest, n);
        if bound.contains(x) && bound.last() != x {
            let j = choose|j: int| 0 <= j < bound.len() && bound[j] == x;
            assert(rest[j] == x);
        }
        if rest.contains(x) {
            let j = choose|j: int| 0 <= j < rest.len() && rest[j] == x;
            assert(bound[j] == x);
        }
        assert(bound[bound.len() - 1] == bound.last());
        if bound.last() != n {
            let r2 = r.push(bound.last());
            assert(r2[r2.len() - 1] == bound.last());
            if r2.contains(x) && x != bound.last() {
                let j = choose|j: int| 0 <= j < r2.len() && r2[j] == x;
                assert(r[j] == x);
            }
            if r.contains(x) {
                let j = choose|j: int| 0 <= j < r.len() && r[j] == x;
                assert(r2[j] == x);
            }
        }
    }
}

/// A statement that is no `let` of `x` leaves whether `x` is bound as it
/// was.
proof fn lemma_bound_after_stmt_keeps(s: Stmt, bound: Seq<Seq<char>>, ty_name: Seq<char>, x: Seq<char>)
    requires
        !rebinds(s, x),
    ensures
        bound_after_stmt(s, bound, ty_name).contains(x) <==> bound.contains(x),
{
    if let Some(n) = let_name(s) {
        if stmt_binding(s, ty_name).len() > 0 {
            let r = bound.push(n);
            if r.contains(x) {
                let j = choose|j: int| 0 <= j < r.len() && r[j] == x;
                assert(j < bound.len());
                assert(bound[j] == x);
            }
            if bound.contains(x) {
                let j = choose|j: int| 0 <= j < bound.len() && bound[j] == x;
                assert(r[j] == x);
            }
        } else {
            lemma_remove_name(bound, n, x);
        }
    }
}

/// Between statement `i` and statement `j`, with no `let` of `x` after `i`,
/// whether `x` is bound stays what statement `i` made it.
proof fn lemma_bound_after_tracks(
    ss: Seq<Stmt>,
    i: int,
    j: int,
    bound: Seq<Seq<char>>,
    ty_name: Seq<char>,
    x: Seq<char>,
)
    requires
        0 <= i < j <= ss.len(),
        forall|k: int| i < k < j ==> !#[trigger] rebinds(ss[k], x),
    ensures
        bound_after(ss.subrange(0, j), bound, ty_name).contains(x) <==> bound_after(
            ss.subrange(0, i + 1),
            bound,
            ty_name,
        ).contains(x),
    decreases j - i,
{
    if j > i + 1 {
        lemma_bound_after_tracks(ss, i, j - 1, bound, ty_name, x);
        let pre = ss.subrange(0, j);
        assert(pre.drop_last() =~= ss.subrange(0, j - 1));
        assert(pre.last() == ss[j - 1]);
        assert(!rebinds(ss[j - 1], x));
        lemma_bound_after_stmt_keeps(
            ss[j - 1],
            bound_after(ss.subrange(0, j - 1), bound, ty_name),
            ty_name,
            x,
        );
    }
}

/// A name bound by `let x = T::new(..)` or `let x = T::default(..)` stays an
/// instance for every later statement of its block, up to the next `let`
/// of the same name.
pub proof fn law_constructor_binds(
    ss: Seq<Stmt>,
    i: int,
    bound: Seq<Seq<char>>,
    ty_name: Seq<char>,
    x: String,
    init: Expr,
)
    requires
        0 <= i < ss.len(),
        ss[i] == (Stmt::Local { pat: Pat::Ident(x), init: Some(init) }),
        is_constructor(init, ty_name),
    ensures
        forall|j: int|
            i < j <= ss.len() && (forall|k: int| i < k < j ==> !#[trigger] rebinds(ss[k], x@))
                ==> #[trigger] bound_after(ss.subrange(0, j), bound, ty_name).contains(x@),
{
    let pre = ss.subrange(0, i + 1);
    assert(pre.drop_last() =~= ss.subrange(0, i));
    assert(pre.last() == ss[i]);
    let r = bound_after(pre, bound, ty_name);
    assert(r[r.len() - 1] == x@);
    assert forall|j: int|
        i < j <= ss.len() && (forall|k: int| i < k < j ==> !#[trigger] rebinds(ss[k], x@)) implies #[trigger] bound_after(
        ss.subrange(0, j),
        bound,
        ty_name,
    ).contains(x@) by {
        lemma_bound_after_tracks(ss, i, j, bound, ty_name, x@);
    }
}

/// A `let x = e;` (or `let x;`) whose initializer is not a constructor of
/// the target type shadows `x`: from there to the end of its block, or to
/// the next `let` of `x`, `x` is no instance, so no write `x.f = v` is
/// reported.
pub proof fn law_shadowing_unbinds(
    ss: Seq<Stmt>,
    i: int,
    bound: Seq<Seq<char>>,
    ty_name: Seq<char>,
    x: String,
    init: Option<Expr>,
)
    requires
        0 <= i < ss.len(),
        ss[i] == (Stmt::Local { pat: Pat::Ident(x), init }),
        !(init matches Some(e) && is_constructor(e, ty_name)),
    ensures
        forall|j: int|
            i < j <= ss.len() && (forall|k: int| i < k < j ==> !#[trigger] rebinds(ss[k], x@))
                ==> !(#[trigger] bound_after(ss.subrange(0, j), bound, ty_name).contains(x@)),
{
    let pre = ss.subrange(0, i + 1);
    assert(pre.drop_last() =~= ss.subrange(0, i));
    assert(pre.last() == ss[i]);
    assert(stmt_binding(ss[i], ty_name).len() == 0);
    lemma_remove_name(bound_after(ss.subrange(0, i), bound, ty_name), x@, x@);
    assert forall|j: int|
        i < j <= ss.len() && (forall|k: int| i < k < j ==> !#[trigger] rebinds(ss[k], x@)) implies !(#[trigger] bound_after(
        ss.subrange(0, j),
        bound,
        ty_name,
    ).contains(x@)) by {
        lemma_bound_after_tracks(ss, i, j, bound, ty_name, x@);
    }
}

/// A closure stored right after `let x = T::new(..)` is read with `x`
/// bound, whatever its body: `let x = T::new(); let c = || body;` writes
/// what the constructor call and `body` write with `x` an instance.
pub proof fn law_constructor_then_closure(
    s0: Stmt,
    s1: Stmt,
    bound: Seq<Seq<char>>,
    ty_name: Seq<char>,
    x: String,
    init: Expr,
    c: Pat,
    body: Box<Expr>,
)
    requires
        s0 == (Stmt::Local { pat: Pat::Ident(x), init: Some(init) }),
        is_constructor(init, ty_name),
        s1 == (Stmt::Local { pat: c, init: Some(Expr::Closure { body }) }),
    ensures
        writes_in_stmts(seq![s0, s1], bound, ty_name) == writes_in_expr(
            init,
            bound.push(x@),
            ty_name,
        ) + writes_in_expr(*body, bound.push(x@), ty_name),
{
    let ss = seq![s0, s1];
    let first = ss.subrange(0, 1);
    assert(first =~= seq![s0]);
    assert(first.drop_last() =~= Seq::<Stmt>::empty());
    assert(first.last() == s0);
    assert(first[0] == s0);
    assert(first.subrange(0, 0) =~= Seq::<Stmt>::empty());
    assert(bound_after(Seq::<Stmt>::empty(), bound, ty_name) == bound);
    assert(stmt_binding(s0, ty_name) == seq![x@]);
    let b1 = bound_after(first, bound, ty_name);
    assert(b1 == bound.push(x@));
    assert(bound + seq![x@] =~= bound.push(x@));
    assert(writes_in_stmts(Seq::<Stmt>::empty(), bound, ty_name) == Seq::<Seq<char>>::empty());
    assert(bound_after(first.subrange(0, 0), bound, ty_name) == bound);
    assert(writes_in_stmt(s0, bound, ty_name) == writes_in_expr(init, bound + seq![x@], ty_name));
    assert(writes_in_stmts(first, bound, ty_name) == Seq::<Seq<char>>::empty() + writes_in_stmt(
        s0,
        bound,
        ty_name,
    ));
    assert(writes_in_stmts(first, bound, ty_name) =~= writes_in_expr(init, bound.push(x@), ty_name));
    assert(writes_in_stmt(s1, b1, ty_name) == writes_in_expr(
        Expr::Closure { body },
        b1 + stmt_binding(s1, ty_name),
        ty_name,
    ));
    assert(stmt_binding(s1, ty_name) =~= Seq::<Seq<char>>::empty());
    assert(b1 + stmt_binding(s1, ty_name) =~= b1);
    assert(ss[1] == s1);
    assert(ss.subrange(0, ss.len() - 1) == first);
}

/// Whether an expression holds an assignment or a compound assignment
/// anywhere the analyzer looks.
pub open spec fn assigns_in_expr(e: Expr) -> bool
    decreases e,
{
    match e {
        Expr::Call { callee, args } => assigns_in_expr(*callee) || assigns_in_exprs(args@),
        Expr::MethodCall { receiver, method, args } => assigns_in_expr(*receiver)
            || assigns_in_exprs(args@),
        Expr::Block(b) => assigns_in_stmts(b.stmts@),
        Expr::If { then_branch, else_branch } => assigns_in_stmts(then_branch.stmts@)
            || match else_branch {
            Some(el) => assigns_in_expr(*el),
            None => false,
        },
        Expr::While { body } => assigns_in_stmts(body.stmts@),
        Expr::ForLoop { body } => assigns_in_stmts(body.stmts@),
        Expr::Closure { body } => assigns_in_expr(*body),
        Expr::Assign { .. } => true,
        Expr::CompoundAssign { .. } => true,
        Expr::Field { base, member } => assigns_in_expr(*base),
        Expr::Path(_) => false,
        Expr::Other => false,
    }
}

pub open spec fn assigns_in_exprs(es: Seq<Expr>) -> bool
    decreases es,
{
    es.len() > 0 && (assigns_in_exprs(es.subrange(0, es.len() - 1)) || assigns_in_expr(
        es[es.len() - 1],
    ))
}

pub open spec fn assigns_in_stmt(s: Stmt) -> bool
    decreases s,
{
    match s {
        Stmt::Local { pat, init } => match init {
            Some(e) => assigns_in_expr(e),
            None => false,
        },
        Stmt::Expr(e) => assigns_in_expr(e),
        Stmt::Item => false,
    }
}

pub open spec fn assigns_in_stmts(ss: Seq<Stmt>) -> bool
    decreases ss,
{
    ss.len() > 0 && (assigns_in_stmts(ss.subrange(0, ss.len() - 1)) || assigns_in_stmt(
        ss[ss.len() - 1],
    ))
}

proof fn lemma_no_assign_expr(e: Expr, bound: Seq<Seq<char>>, ty_name: Seq<char>)
    requires
        !assigns_in_expr(e),
    ensures
        writes_in_expr(e, bound, ty_name) == Seq::<Seq<char>>::empty(),
    decreases e,
{
    match e {
        Expr::Call { callee, args } => {
            lemma_no_assign_expr(*callee, bound, ty_name);
            lemma_no_assign_exprs(args@, bound, ty_name);
            assert(writes_in_expr(e, bound, ty_name) =~= Seq::<Seq<char>>::empty());
        },
        Expr::MethodCall { receiver, method, args } => {
            lemma_no_assign_expr(*receiver, bound, ty_name);
            lemma_no_assign_exprs(args@, bound, ty_name);
            assert(writes_in_expr(e, bound, ty_name) =~= Seq::<Seq<char>>::empty());
        },
        Expr::Block(b) => {
            lemma_no_assign_stmts(b.stmts@, bound, ty_name);
        },
        Expr::If { then_branch, else_branch } => {
            lemma_no_assign_stmts(then_branch.stmts@, bound, ty_name);
            if let Some(el) = else_branch {
                lemma_no_assign_expr(*el, bound, ty_name);
            }
            assert(writes_in_expr(e, bound, ty_name) =~= Seq::<Seq<char>>::empty());
        },
        Expr::While { body } => {
            lemma_no_assign_stmts(body.stmts@, bound, ty_name);
        },
        Expr::ForLoop { body } => {
            lemma_no_assign_stmts(body.stmts@, bound, ty_name);
        },
        Expr::Closure { body } => {
            lemma_no_assign_expr(*body, bound, ty_name);
        },
        Expr::Field { base, member } => {
            lemma_no_assign_expr(*base, bound, ty_name);
        },
        _ => {},
    }
}

proof fn lemma_no_assign_exprs(es: Seq<Expr>, bound: Seq<Seq<char>>, ty_name: Seq<char>)
    requires
        !assigns_in_exprs(es),
    ensures
        writes_in_exprs(es, bound, ty_name) == Seq::<Seq<char>>::empty(),
    decreases es,
{
    if es.len() > 0 {
        lemma_no_assign_exprs(es.subrange(0, es.len() - 1), bound, ty_name);
        lemma_no_assign_expr(es[es.len() - 1], bound, ty_name);
        assert(writes_in_exprs(es, bound, ty_name) =~= Seq::<Seq<char>>::empty());
    }
}

proof fn lemma_no_assign_stmt(s: Stmt, bound: Seq<Seq<char>>, ty_name: Seq<char>)
    requires
        !assigns_in_stmt(s),
    ensures
        writes_in_stmt(s, bound, ty_name) == Seq::<Seq<char>>::empty(),
    decreases s,
{
    match s {
        Stmt::Local { pat, init } => {
            if let Some(e) = init {
                lemma_no_assign_expr(e, bound + stmt_binding(s, ty_name), ty_name);
            }
        },
        Stmt::Expr(e) => {
            lemma_no_assign_expr(e, bound, ty_name);
        },
        Stmt::Item => {},
    }
}

proof fn lemma_no_assign_stmts(ss: Seq<Stmt>, bound: Seq<Seq<char>>, ty_name: Seq<char>)
    requires
        !assigns_in_stmts(ss),
    ensures
        writes_in_stmts(ss, bound, ty_name) == Seq::<Seq<char>>::empty(),
    decreases ss,
{
    if ss.len() > 0 {
        let pre = ss.subrange(0, ss.len() - 1);
        lemma_no_assign_stmts(pre, bound, ty_name);
        lemma_no_assign_stmt(ss[ss.len() - 1], bound_after(pre, bound, ty_name), ty_name);
        assert(writes_in_stmts(ss, bound, ty_name) =~= Seq::<Seq<char>>::empty());
    }
}

/// Reading fields never counts as writing them: a function whose body
/// holds no assignment anywhere, only reads such as `x.f`, writes no field
/// and breaks no field policy, whatever its parameters bind.
pub proof fn law_reads_never_reported(func: FnDecl, policy: FieldPolicy)
    requires
        !assigns_in_stmts(func.body.stmts@),
    ensures
        fn_writes(func, policy.struct_name@).len() == 0,
        mutation_check(func, policy).len() == 0,
{
    let ty = policy.struct_name@;
    lemma_no_assign_stmts(func.body.stmts@, params_binding(func.params@, ty), ty);
    let w = fn_writes(func, ty);
    assert(w =~= Seq::<Seq<char>>::empty());
    let list = names(policy.fields@);
    assert(flagged(w, list, false) =~= Seq::<Seq<char>>::empty());
    assert(flagged(w, list, true) =~= Seq::<Seq<char>>::empty());
}

/// Whether an assignment target is `x.f` with `x` one of `xs`.
pub open spec fn target_through(target: Expr, xs: Seq<Seq<char>>) -> bool {
    match target {
        Expr::Field { base, member } => match (*base, member) {
            (Expr::Path(segs), Member::Named(_)) => segs@.len() == 1 && xs.contains(segs@[0]@),
            _ => false,
        },
        _ => false,
    }
}

/// Whether an expression, anywhere the analyzer looks, assigns to a field
/// through one of `xs`, or holds a `let` that constructs an instance of
/// `ty_name`.
pub open spec fn touches_expr(e: Expr, xs: Seq<Seq<char>>, ty_name: Seq<char>) -> bool
    decreases e,
{
    match e {
        Expr::Call { callee, args } => touches_expr(*callee, xs, ty_name) || touches_exprs(
            args@,
            xs,
            ty_name,
        ),
        Expr::MethodCall { receiver, method, args } => touches_expr(*receiver, xs, ty_name)
            || touches_exprs(args@, xs, ty_name),
        Expr::Block(b) => touches_stmts(b.stmts@, xs, ty_name),
        Expr::If { then_branch, else_branch } => touches_stmts(then_branch.stmts@, xs, ty_name)
            || match else_branch {
            Some(el) => touches_expr(*el, xs, ty_name),
            None => false,
        },
        Expr::While { body } => touches_stmts(body.stmts@, xs, ty_name),
        Expr::ForLoop { body } => touches_stmts(body.stmts@, xs, ty_name),
        Expr::Closure { body } => touches_expr(*body, xs, ty_name),
        Expr::Assign { target, value } => target_through(*target, xs) || touches_expr(
            *target,
            xs,
            ty_name,
        ) || touches_expr(*value, xs, ty_name),
        Expr::CompoundAssign { target, op, value } => target_through(*target, xs) || touches_expr(
            *target,
            xs,
            ty_name,
        ) || touches_expr(*value, xs, ty_name),
        Expr::Field { base, member } => touches_expr(*base, xs, ty_name),
        Expr::Path(_) => false,
        Expr::Other => false,
    }
}

pub open spec fn touches_exprs(es: Seq<Expr>, xs: Seq<Seq<char>>, ty_name: Seq<char>) -> bool
    decreases es,
{
    es.len() > 0 && (touches_exprs(es.subrange(0, es.len() - 1), xs, ty_name) || touches_expr(
        es[es.len() - 1],
        xs,
        ty_name,
    ))
}

pub open spec fn touches_stmt(s: Stmt, xs: Seq<Seq<char>>, ty_name: Seq<char>) -> bool
    decreases s,
{
    match s {
        Stmt::Local { pat, init } => stmt_binding(s, ty_name).len() > 0 || match init {
            Some(e) => touches_expr(e, xs, ty_name),
            None => false,
        },
        Stmt::Expr(e) => touches_expr(e, xs, ty_name),
        Stmt::Item => false,
    }
}

pub open spec fn touches_stmts(ss: Seq<Stmt>, xs: Seq<Seq<char>>, ty_name: Seq<char>) -> bool
    decreases ss,
{
    ss.len() > 0 && (touches_stmts(ss.subrange(0, ss.len() - 1), xs, ty_name) || touches_stmt(
        ss[ss.len() - 1],
        xs,
        ty_name,
    ))
}

/// Whether every name of `a` is one of `b`.
pub open spec fn names_within(a: Seq<Seq<char>>, b: Seq<Seq<char>>) -> bool {
    forall|x: Seq<char>| #[trigger] a.contains(x) ==> b.contains(x)
}

proof fn lemma_untouched_expr(e: Expr, bound: Seq<Seq<char>>, xs: Seq<Seq<char>>, ty_name: Seq<char>)
    requires
        !touches_expr(e, xs, ty_name),
        names_within(bound, xs),
    ensures
        writes_in_expr(e, bound, ty_name) == Seq::<Seq<char>>::empty(),
    decreases e,
{
    match e {
        Expr::Call { callee, args } => {
            lemma_untouched_expr(*callee, bound, xs, ty_name);
            lemma_untouched_exprs(args@, bound, xs, ty_name);
            assert(writes_in_expr(e, bound, ty_name) =~= Seq::<Seq<char>>::empty());
        },
        Expr::MethodCall { receiver, method, args } => {
            lemma_untouched_expr(*receiver, bound, xs, ty_name);
            lemma_untouched_exprs(args@, bound, xs, ty_name);
            assert(writes_in_expr(e, bound, ty_name) =~= Seq::<Seq<char>>::empty());
        },
        Expr::Block(b) => {
            lemma_untouched_stmts(b.stmts@, bound, xs, ty_name);
        },
        Expr::If { then_branch, else_branch } => {
            lemma_untouched_stmts(then_branch.stmts@, bound, xs, ty_name);
            if let Some(el) = else_branch {
                lemma_untouched_expr(*el, bound, xs, ty_name);
            }
            assert(writes_in_expr(e, bound, ty_name) =~= Seq::<Seq<char>>::empty());
        },
        Expr::While { body } => {
            lemma_untouched_stmts(body.stmts@, bound, xs, ty_name);
        },
        Expr::ForLoop { body } => {
            lemma_untouched_stmts(body.stmts@, bound, xs, ty_name);
        },
        Expr::Closure { body } => {
            lemma_untouched_expr(*body, bound, xs, ty_name);
        },
        Expr::Assign { target, value } => {
            lemma_untouched_expr(*target, bound, xs, ty_name);
            lemma_untouched_expr(*value, bound, xs, ty_name);
            assert(field_written(*target, bound) =~= Seq::<Seq<char>>::empty());
            assert(writes_in_expr(e, bound, ty_name) =~= Seq::<Seq<char>>::empty());
        },
        Expr::CompoundAssign { target, op, value } => {
            lemma_untouched_expr(*target, bound, xs, ty_name);
            lemma_untouched_expr(*value, bound, xs, ty_name);
            assert(field_written(*target, bound) =~= Seq::<Seq<char>>::empty());
            assert(writes_in_expr(e, bound, ty_name) =~= Seq::<Seq<char>>::empty());
        },
        Expr::Field { base, member } => {
            lemma_untouched_expr(*base, bound, xs, ty_name);
        },
        _ => {},
    }
}

proof fn lemma_untouched_exprs(
    es: Seq<Expr>,
    bound: Seq<Seq<char>>,
    xs: Seq<Seq<char>>,
    ty_name: Seq<char>,
)
    requires
        !touches_exprs(es, xs, ty_name),
        names_within(bound, xs),
    ensures
        writes_in_exprs(es, bound, ty_name) == Seq::<Seq<char>>::empty(),
    decreases es,
{
    if es.len() > 0 {
        lemma_untouched_exprs(es.subrange(0, es.len() - 1), bound, xs, ty_name);
        lemma_untouched_expr(es[es.len() - 1], bound, xs, ty_name);
        assert(writes_in_exprs(es, bound, ty_name) =~= Seq::<Seq<char>>::empty());
    }
}

proof fn lemma_untouched_stmt(s: Stmt, bound: Seq<Seq<char>>, xs: Seq<Seq<char>>, ty_name: Seq<char>)
    requires
        !touches_stmt(s, xs, ty_name),
        names_within(bound, xs),
    ensures
        writes_in_stmt(s, bound, ty_name) == Seq::<Seq<char>>::empty(),
        names_within(bound_after_stmt(s, bound, ty_name), xs),
    decreases s,
{
    match s {
        Stmt::Local { pat, init } => {
            assert(bound + stmt_binding(s, ty_name) =~= bound);
            if let Some(e) = init {
                lemma_untouched_expr(e, bound, xs, ty_name);
            }
            if let Some(n) = let_name(s) {
                assert forall|x: Seq<char>| #[trigger]
                    remove_name(bound, n).contains(x) implies xs.contains(x) by {
                    lemma_remove_name(bound, n, x);
                }
            }
        },
        Stmt::Expr(e) => {
            lemma_untouched_expr(e, bound, xs, ty_name);
        },
        Stmt::Item => {},
    }
}

proof fn lemma_untouched_stmts(
    ss: Seq<Stmt>,
    bound: Seq<Seq<char>>,
    xs: Seq<Seq<char>>,
    ty_name: Seq<char>,
)
    requires
        !touches_stmts(ss, xs, ty_name),
        names_within(bound, xs),
    ensures
        writes_in_stmts(ss, bound, ty_name) == Seq::<Seq<char>>::empty(),
        names_within(bound_after(ss, bound, ty_name), xs),
    decreases ss,
{
    if ss.len() > 0 {
        let pre = ss.subrange(0, ss.len() - 1);
        assert(ss.drop_last() == pre);
        assert(ss.last() == ss[ss.len() - 1]);
        lemma_untouched_stmts(pre, bound, xs, ty_name);
        lemma_untouched_stmt(ss[ss.len() - 1], bound_after(pre, bound, ty_name), xs, ty_name);
        assert(writes_in_stmts(ss, bound, ty_name) =~= Seq::<Seq<char>>::empty());
    }
}

/// Writes through names that are not instances are never reported: when no
/// `let` in the body constructs an instance and no assignment writes
/// through a name that a parameter binds, the function writes no field and
/// breaks no field policy, whatever other names it writes through.
pub proof fn law_unbound_writes_never_reported(func: FnDecl, policy: FieldPolicy)
    requires
        !touches_stmts(
            func.body.stmts@,
            params_binding(func.params@, policy.struct_name@),
            policy.struct_name@,
        ),
    ensures
        fn_writes(func, policy.struct_name@).len() == 0,
        mutation_check(func, policy).len() == 0,
{
    let ty = policy.struct_name@;
    let b = params_binding(func.params@, ty);
    lemma_untouched_stmts(func.body.stmts@, b, b, ty);
    let w = fn_writes(func, ty);
    assert(w =~= Seq::<Seq<char>>::empty());
    let list = names(policy.fields@);
    assert(flagged(w, list, false) =~= Seq::<Seq<char>>::empty());
    assert(flagged(w, list, true) =~= Seq::<Seq<char>>::empty());
}

/// A field reported by the first statements of a run is reported by the
/// whole run.
proof fn lemma_writes_prefix(ss: Seq<Stmt>, j: int, bound: Seq<Seq<char>>, ty_name: Seq<char>, f: Seq<char>)
    requires
        0 <= j <= ss.len(),
        writes_in_stmts(ss.subrange(0, j), bound, ty_name).contains(f),
    ensures
        writes_in_stmts(ss, bound, ty_name).contains(f),
    decreases ss.len() - j,
{
    if j < ss.len() {
        let pre = ss.subrange(0, j + 1);
        assert(pre.subrange(0, pre.len() - 1) =~= ss.subrange(0, j));
        let w = writes_in_stmts(ss.subrange(0, j), bound, ty_name);
        let k = choose|k: int| 0 <= k < w.len() && w[k] == f;
        assert(writes_in_stmts(pre, bound, ty_name)[k] == f);
        lemma_writes_prefix(ss, j + 1, bound, ty_name, f);
    } else {
        assert(ss.subrange(0, j) =~= ss);
    }
}

/// A write `x.f = v` or `x.f op= v` that stands as a statement of the body,
/// where `x` is an instance at that point (bound by a parameter or by an
/// earlier constructor `let`, and not shadowed since), is reported: `f`
/// breaks an allow-list that lacks it and a deny-list that holds it.
pub proof fn law_bound_write_reported(func: FnDecl, policy: FieldPolicy, i: int, e: Expr, target: Expr)
    requires
        0 <= i < func.body.stmts@.len(),
        func.body.stmts@[i] == Stmt::Expr(e),
        (e matches Expr::Assign { target: t, .. } && *t == target) || (e matches Expr::CompoundAssign {
            target: t,
            ..
        } && *t == target),
        field_written(
            target,
            bound_after(
                func.body.stmts@.subrange(0, i),
                params_binding(func.params@, policy.struct_name@),
                policy.struct_name@,
            ),
        ).len() > 0,
    ensures
        ({
            let f = field_written(
                target,
                bound_after(
                    func.body.stmts@.subrange(0, i),
                    params_binding(func.params@, policy.struct_name@),
                    policy.struct_name@,
                ),
            )[0];
            &&& fn_writes(func, policy.struct_name@).contains(f)
            &&& policy.mode == FieldMode::Allow && !names(policy.fields@).contains(f)
                ==> mutation_check(func, policy).contains((ViolationKind::MutationNotWhitelisted, f))
            &&& policy.mode == FieldMode::Deny && names(policy.fields@).contains(f)
                ==> mutation_check(func, policy).contains((ViolationKind::MutationNotAllowed, f))
        }),
{
    let ty = policy.struct_name@;
    let ss = func.body.stmts@;
    let b0 = params_binding(func.params@, ty);
    let bi = bound_after(ss.subrange(0, i), b0, ty);
    let fw = field_written(target, bi);
    let f = fw[0];
    let pre = ss.subrange(0, i + 1);
    assert(pre.subrange(0, pre.len() - 1) =~= ss.subrange(0, i));
    assert(pre[pre.len() - 1] == Stmt::Expr(e));
    let we = writes_in_expr(e, bi, ty);
    assert(we[0] == f);
    let wp = writes_in_stmts(pre, b0, ty);
    let w0 = writes_in_stmts(ss.subrange(0, i), b0, ty);
    assert(pre.len() - 1 == i);
    assert(bound_after(pre.subrange(0, pre.len() - 1), b0, ty) == bi);
    assert(writes_in_stmt(Stmt::Expr(e), bi, ty) == we);
    assert(wp == w0 + we);
    assert(wp[w0.len() as int] == f);
    lemma_writes_prefix(ss, i + 1, b0, ty, f);
    let w = fn_writes(func, ty);
    let list = names(policy.fields@);
    lemma_flagged_contains(w, list, false, f);
    lemma_flagged_contains(w, list, true, f);
    lemma_tagged(ViolationKind::MutationNotWhitelisted, flagged(w, list, false));
    lemma_tagged(ViolationKind::MutationNotAllowed, flagged(w, list, true));
}

} // verus!
