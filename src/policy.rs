//! Policies, violations, and how a list of found names stands against a
//! list of subject names.

use vstd::prelude::*;
use crate::ast::{names, lemma_names_push};

verus! {

/// How a call policy reads its list of names.
#[derive(PartialEq, Eq, Structural, Clone, Copy, Debug)]
pub enum CallMode {
    /// Only the listed names may be called.
    Allow,
    /// None of the listed names may be called.
    Deny,
    /// Every listed name must be called; other calls are free.
    MustCallAll,
}

/// How a field policy reads its list of field names.
#[derive(PartialEq, Eq, Structural, Clone, Copy, Debug)]
pub enum FieldMode {
    /// Only the listed fields may be written.
    Allow,
    /// None of the listed fields may be written.
    Deny,
}

/// Which functions a body may, must or must not call.
pub struct CallPolicy {
    pub names: Vec<String>,
    pub mode: CallMode,
}

/// Which fields of one type a body may or may not write.
pub struct FieldPolicy {
    pub struct_name: String,
    pub fields: Vec<String>,
    pub mode: FieldMode,
}

/// What a violation is about.
#[derive(PartialEq, Eq, Structural, Clone, Copy, Debug)]
pub enum ViolationKind {
    /// A call to a name on a deny-list.
    CallNotAllowed,
    /// A call to a name missing from an allow-list.
    CallNotWhitelisted,
    /// A name of a must-call list that the body never calls.
    CallMissing,
    /// A write to a field on a deny-list.
    MutationNotAllowed,
    /// A write to a field missing from an allow-list.
    MutationNotWhitelisted,
}

/// One breach of a policy: its kind and the name it is about.
pub struct Violation {
    pub kind: ViolationKind,
    pub subject: String,
}

impl Violation {
    pub open spec fn view(&self) -> (ViolationKind, Seq<char>) {
        (self.kind, self.subject@)
    }
}

/// The violations of a vector, as kinds and names.
pub open spec fn violations(v: Seq<Violation>) -> Seq<(ViolationKind, Seq<char>)> {
    v.map_values(|x: Violation| x.view())
}

/// The names of `found` whose presence in `list` equals `flag_listed`, each
/// once, in the order in which they first appear in `found`.
pub open spec fn flagged(found: Seq<Seq<char>>, list: Seq<Seq<char>>, flag_listed: bool) -> Seq<
    Seq<char>,
>
    decreases found.len(),
{
    if found.len() == 0 {
        Seq::empty()
    } else {
        let prev = flagged(found.drop_last(), list, flag_listed);
        let n = found.last();
        if list.contains(n) == flag_listed && !prev.contains(n) {
            prev.push(n)
        } else {
            prev
        }
    }
}

/// Each name paired with one kind.
pub open spec fn tagged(kind: ViolationKind, ns: Seq<Seq<char>>) -> Seq<(ViolationKind, Seq<char>)> {
    ns.map_values(|n: Seq<char>| (kind, n))
}

/// The violations of a call policy, given the names that a body calls.
pub open spec fn call_violations(calls: Seq<Seq<char>>, mode: CallMode, list: Seq<Seq<char>>) -> Seq<
    (ViolationKind, Seq<char>),
> {
    match mode {
        CallMode::Allow => tagged(ViolationKind::CallNotWhitelisted, flagged(calls, list, false)),
        CallMode::Deny => tagged(ViolationKind::CallNotAllowed, flagged(calls, list, true)),
        CallMode::MustCallAll => tagged(ViolationKind::CallMissing, flagged(list, calls, false)),
    }
}

/// The violations of a field policy, given the fields that a body writes.
pub open spec fn field_violations(writes: Seq<Seq<char>>, mode: FieldMode, list: Seq<Seq<char>>) -> Seq<
    (ViolationKind, Seq<char>),
> {
    match mode {
        FieldMode::Allow => tagged(ViolationKind::MutationNotWhitelisted, flagged(writes, list, false)),
        FieldMode::Deny => tagged(ViolationKind::MutationNotAllowed, flagged(writes, list, true)),
    }
}

/// Whether `list` holds `n`.
pub fn contains_name(list: &Vec<String>, n: &String) -> (r: bool)
    ensures
        r == names(list@).contains(n@),
{
    let mut i: usize = 0;
    while i < list.len()
        invariant
            i <= list@.len(),
            forall|j: int| 0 <= j < i ==> list@[j]@ != n@,
        decreases list@.len() - i,
    {
        if list[i] == *n {
            assert(names(list@)[i as int] == n@);
            return true;
        }
        i = i + 1;
    }
    proof {
        if names(list@).contains(n@) {
            let j = choose|j: int| 0 <= j < names(list@).len() && names(list@)[j] == n@;
            assert(list@[j]@ == n@);
        }
    }
    false
}

/// Checks one found name against `list`: it is flagged, and appended to
/// `flagged_names` unless already there, when its presence in `list` equals
/// `flag_listed`.
pub fn check_whitelist(
    name: &String,
    list: &Vec<String>,
    flag_listed: bool,
    flagged_names: &mut Vec<String>,
)
    ensures
        names(final(flagged_names)@) == if names(list@).contains(name@) == flag_listed && !names(
            old(flagged_names)@,
        ).contains(name@) {
            names(old(flagged_names)@).push(name@)
        } else {
            names(old(flagged_names)@)
        },
{
    let listed = contains_name(list, name);
    let seen = contains_name(flagged_names, name);
    if listed == flag_listed && !seen {
        let c = name.clone();
        proof {
            lemma_names_push(flagged_names@, c);
        }
        flagged_names.push(c);
    }
}

/// The names of `found` whose presence in `list` equals `flag_listed`, each
/// once, in the order of their first appearance.
pub fn flag_names(found: &Vec<String>, list: &Vec<String>, flag_listed: bool) -> (r: Vec<String>)
    ensures
        names(r@) == flagged(names(found@), names(list@), flag_listed),
{
    let mut r: Vec<String> = Vec::new();
    let mut i: usize = 0;
    assert(names(found@).subrange(0, 0) =~= Seq::<Seq<char>>::empty());
    assert(names(r@) =~= Seq::<Seq<char>>::empty());
    while i < found.len()
        invariant
            i <= found@.len(),
            names(r@) == flagged(names(found@).subrange(0, i as int), names(list@), flag_listed),
        decreases found@.len() - i,
    {
        let ghost pre = names(found@).subrange(0, i as int + 1);
        assert(pre.drop_last() =~= names(found@).subrange(0, i as int));
        assert(pre.last() == found@[i as int]@);
        check_whitelist(&found[i], list, flag_listed, &mut r);
        i = i + 1;
    }
    assert(names(found@).subrange(0, found@.len() as int) =~= names(found@));
    r
}

/// Each name of `ns` as a violation of kind `kind`.
pub fn tag_names(kind: ViolationKind, ns: Vec<String>) -> (r: Vec<Violation>)
    ensures
        violations(r@) == tagged(kind, names(ns@)),
{
    let mut r: Vec<Violation> = Vec::new();
    let mut i: usize = 0;
    while i < ns.len()
        invariant
            i <= ns@.len(),
            violations(r@) =~= tagged(kind, names(ns@.subrange(0, i as int))),
        decreases ns@.len() - i,
    {
        let v = Violation { kind, subject: ns[i].clone() };
        let ghost prev = r@;
        r.push(v);
        proof {
            let next = ns@.subrange(0, i as int + 1);
            assert(next.drop_last() =~= ns@.subrange(0, i as int));
            assert(names(next) =~= names(next.drop_last()).push(ns@[i as int]@));
            assert(r@ == prev.push(v));
            assert(violations(r@) =~= violations(prev).push(v.view()));
            assert(tagged(kind, names(next)) =~= tagged(kind, names(next.drop_last())).push(
                (kind, ns@[i as int]@),
            ));
        }
        i = i + 1;
    }
    assert(ns@.subrange(0, ns@.len() as int) =~= ns@);
    r
}

/// A name is flagged exactly when it was found and its presence in the list
/// is the one flagged.
pub proof fn lemma_flagged_contains(
    found: Seq<Seq<char>>,
    list: Seq<Seq<char>>,
    flag_listed: bool,
    n: Seq<char>,
)
    ensures
        flagged(found, list, flag_listed).contains(n) <==> (found.contains(n) && list.contains(n)
            == flag_listed),
    decreases found.len(),
{
    if found.len() > 0 {
        let rest = found.drop_last();
        lemma_flagged_contains(rest, list, flag_listed, n);
        if found.contains(n) && found.last() != n {
            let j = choose|j: int| 0 <= j < found.len() && found[j] == n;
            assert(rest[j] == n);
        }
        if rest.contains(n) {
            let j = choose|j: int| 0 <= j < rest.len() && rest[j] == n;
            assert(found[j] == n);
        }
        assert(found[found.len() - 1] == found.last());
        let prev = flagged(rest, list, flag_listed);
        if list.contains(found.last()) == flag_listed && !prev.contains(found.last()) {
            let r = prev.push(found.last());
            assert(r[r.len() - 1] == found.last());
            if r.contains(n) && n != found.last() {
                let j = choose|j: int| 0 <= j < r.len() && r[j] == n;
                assert(prev[j] == n);
            }
            if prev.contains(n) {
                let j = choose|j: int| 0 <= j < prev.len() && prev[j] == n;
                assert(r[j] == n);
            }
        }
    }
}

/// No name is flagged twice.
pub proof fn lemma_flagged_no_duplicates(
    found: Seq<Seq<char>>,
    list: Seq<Seq<char>>,
    flag_listed: bool,
)
    ensures
        flagged(found, list, flag_listed).no_duplicates(),
    decreases found.len(),
{
    if found.len() > 0 {
        let rest = found.drop_last();
        lemma_flagged_no_duplicates(rest, list, flag_listed);
        let prev = flagged(rest, list, flag_listed);
        if list.contains(found.last()) == flag_listed && !prev.contains(found.last()) {
            let r = prev.push(found.last());
            assert forall|i: int, j: int| 0 <= i < r.len() && 0 <= j < r.len() && i != j implies r[i]
                != r[j] by {
                if i < prev.len() && j < prev.len() {
                    assert(r[i] == prev[i] && r[j] == prev[j]);
                } else if i < prev.len() {
                    assert(r[i] == prev[i]);
                } else if j < prev.len() {
                    assert(r[j] == prev[j]);
                }
            }
        }
    }
}

/// A tagged sequence holds exactly its names under its kind, and repeats
/// none if the names repeat none.
pub proof fn lemma_tagged(kind: ViolationKind, ns: Seq<Seq<char>>)
    ensures
        forall|k: ViolationKind, n: Seq<char>| #[trigger]
            tagged(kind, ns).contains((k, n)) <==> (k == kind && ns.contains(n)),
        ns.no_duplicates() ==> tagged(kind, ns).no_duplicates(),
{
    let t = tagged(kind, ns);
    assert forall|k: ViolationKind, n: Seq<char>| #[trigger] t.contains((k, n)) <==> (k == kind
        && ns.contains(n)) by {
        if t.contains((k, n)) {
            let j = choose|j: int| 0 <= j < t.len() && t[j] == (k, n);
            assert(ns[j] == n);
        }
        if k == kind && ns.contains(n) {
            let j = choose|j: int| 0 <= j < ns.len() && ns[j] == n;
            assert(t[j] == (k, n));
        }
    }
    if ns.no_duplicates() {
        assert forall|i: int, j: int| 0 <= i < t.len() && 0 <= j < t.len() && i != j implies t[i]
            != t[j] by {
            assert(t[i].1 == ns[i] && t[j].1 == ns[j]);
        }
    }
}

} // verus!
