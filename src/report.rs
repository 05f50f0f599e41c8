//! The violation reporter: no violation lets the declaration through, and
//! any violation becomes one diagnostic that lists them all.

use vstd::prelude::*;
use vstd::string::StringExecFns;
use crate::guard::CallerRejected;
use crate::policy::{Violation, ViolationKind, violations};

verus! {

/// How a diagnostic line names a kind of violation.
pub open spec fn kind_text(k: ViolationKind) -> Seq<char> {
    match k {
        ViolationKind::CallNotAllowed => "call to a denied function"@,
        ViolationKind::CallNotWhitelisted => "call to a function that is not whitelisted"@,
        ViolationKind::CallMissing => "whitelisted function that is never called"@,
        ViolationKind::MutationNotAllowed => "mutation of a denied field"@,
        ViolationKind::MutationNotWhitelisted => "mutation of a field that is not whitelisted"@,
    }
}

/// The first line of every diagnostic.
pub open spec fn report_header() -> Seq<char> {
    "Function violates its policy:\n"@
}

/// One line of a diagnostic: ` - kind: `name``.
pub open spec fn violation_line(v: (ViolationKind, Seq<char>)) -> Seq<char> {
    " - "@ + kind_text(v.0) + ": `"@ + v.1 + "`\n"@
}

/// The lines of a run of violations, in order.
pub open spec fn violation_lines(vs: Seq<(ViolationKind, Seq<char>)>) -> Seq<char>
    decreases vs.len(),
{
    if vs.len() == 0 {
        Seq::empty()
    } else {
        violation_lines(vs.drop_last()) + violation_line(vs.last())
    }
}

/// The text of a rejection by a guard.
pub open spec fn rejection_text(function: Option<Seq<char>>, owner: Seq<char>, caller: Seq<char>) -> Seq<
    char,
> {
    match function {
        Some(f) => "Unauthorized function trying to call "@ + f + ": "@ + caller,
        None => "Unauthorized function trying to mutate fields in "@ + owner + ": "@ + caller,
    }
}

fn kind_label(k: ViolationKind) -> (r: &'static str)
    ensures
        r@ == kind_text(k),
{
    match k {
        ViolationKind::CallNotAllowed => "call to a denied function",
        ViolationKind::CallNotWhitelisted => "call to a function that is not whitelisted",
        ViolationKind::CallMissing => "whitelisted function that is never called",
        ViolationKind::MutationNotAllowed => "mutation of a denied field",
        ViolationKind::MutationNotWhitelisted => "mutation of a field that is not whitelisted",
    }
}

/// A diagnostic that stops the build.
pub struct Error {
    pub message: String,
}

impl Error {
    pub fn new(message: String) -> (r: Error)
        ensures
            r.message@ == message@,
    {
        Error { message }
    }
}

/// The outcome of a check: `None` when there is no violation, so that the
/// declaration passes unchanged; otherwise one diagnostic with a line for
/// each violation, in order.
pub fn render_report(vs: &Vec<Violation>) -> (r: Option<Error>)
    ensures
        r is None <==> vs@.len() == 0,
        r matches Some(e) ==> e.message@ == report_header() + violation_lines(violations(vs@)),
{
    if vs.len() == 0 {
        return None;
    }
    let mut m = String::from_str("Function violates its policy:\n");
    let mut i: usize = 0;
    assert(violations(vs@).subrange(0, 0) =~= Seq::<(ViolationKind, Seq<char>)>::empty());
    while i < vs.len()
        invariant
            i <= vs@.len(),
            m@ == report_header() + violation_lines(violations(vs@).subrange(0, i as int)),
        decreases vs@.len() - i,
    {
        let v = &vs[i];
        m.append(" - ");
        m.append(kind_label(v.kind));
        m.append(": `");
        m.append(v.subject.as_str());
        m.append("`\n");
        proof {
            let pre = violations(vs@).subrange(0, i as int + 1);
            assert(pre.drop_last() =~= violations(vs@).subrange(0, i as int));
            assert(pre.last() == v.view());
        }
        i = i + 1;
        assert(m@ =~= report_header() + violation_lines(violations(vs@).subrange(0, i as int)));
    }
    assert(violations(vs@).subrange(0, vs@.len() as int) =~= violations(vs@));
    Some(Error::new(m))
}

impl CallerRejected {
    /// The message with which a rejected caller is stopped.
    pub fn message(&self) -> (r: String)
        ensures
            r@ == rejection_text(
                match self.function {
                    Some(f) => Some(f@),
                    None => None,
                },
                self.owner_type@,
                self.caller@,
            ),
    {
        let mut m = match &self.function {
            Some(f) => {
                let mut m = String::from_str("Unauthorized function trying to call ");
                m.append(f.as_str());
                m
            },
            None => {
                let mut m = String::from_str("Unauthorized function trying to mutate fields in ");
                m.append(self.owner_type.as_str());
                m
            },
        };
        m.append(": ");
        m.append(self.caller.as_str());
        assert(m@ =~= rejection_text(
            match self.function {
                Some(f) => Some(f@),
                None => None,
            },
            self.owner_type@,
            self.caller@,
        ));
        m
    }
}

} // verus!
