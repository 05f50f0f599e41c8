//! Run-time guards for what one body cannot see: who calls a function, and
//! who writes the fields of a type. A guard holds the names of the callers
//! it lets through; every function that reaches the protected operation
//! registers itself by calling the guard with its own name.

use vstd::prelude::*;
use vstd::string::StringExecFns;
use crate::ast::{FnDecl, names};
use crate::calls::{called_names, calls_in_block};
use crate::mutation::{UnsupportedConstruct, first_unsupported, fn_writes, mutated_fields, params_supported};
use crate::policy::contains_name;

verus! {

/// What a guard protects.
pub enum Protected {
    /// Every call of the named function.
    Function(String),
    /// Every write to a field of the owner type.
    Fields,
}

/// A guard: the type it is attached to, the name of its routine, the
/// callers it lets through and what it protects.
pub struct GuardSpec {
    pub owner_type: String,
    pub guard_name: String,
    pub allowed_callers: Vec<String>,
    pub protected: Protected,
}

/// Where a registration goes in the caller's body.
#[derive(PartialEq, Eq, Structural, Clone, Copy, Debug)]
pub enum Placement {
    /// Before the first statement.
    Entry,
    /// After the last statement.
    Exit,
}

/// The statement `owner_type::guard_name("caller")` that a function must
/// run to announce itself to a guard.
pub struct Registration {
    pub owner_type: String,
    pub guard_name: String,
    pub caller: String,
    pub placement: Placement,
}

/// A caller that a guard turned away.
pub struct CallerRejected {
    pub caller: String,
    pub owner_type: String,
    /// The guarded function; `None` when the guard protects fields.
    pub function: Option<String>,
}

/// The name of the routine that guards calls of a function.
pub open spec fn callsite_guard() -> Seq<char> {
    "__callsite"@
}

/// The name of the routine that guards writes to a type.
pub open spec fn mutation_guard() -> Seq<char> {
    "__mutates"@
}

impl GuardSpec {
    /// A guard on calls of `function`, a function of `owner_type`, that lets
    /// `allowed_callers` through.
    pub fn for_function(owner_type: String, function: String, allowed_callers: Vec<String>) -> (r:
        GuardSpec)
        ensures
            r.owner_type@ == owner_type@,
            r.guard_name@ == callsite_guard(),
            names(r.allowed_callers@) == names(allowed_callers@),
            r.protected matches Protected::Function(f) && f@ == function@,
    {
        GuardSpec {
            owner_type,
            guard_name: String::from_str("__callsite"),
            allowed_callers,
            protected: Protected::Function(function),
        }
    }

    /// A guard on writes to the fields of `owner_type` that lets
    /// `allowed_callers` through.
    pub fn for_fields(owner_type: String, allowed_callers: Vec<String>) -> (r: GuardSpec)
        ensures
            r.owner_type@ == owner_type@,
            r.guard_name@ == mutation_guard(),
            names(r.allowed_callers@) == names(allowed_callers@),
            r.protected is Fields,
    {
        GuardSpec {
            owner_type,
            guard_name: String::from_str("__mutates"),
            allowed_callers,
            protected: Protected::Fields,
        }
    }

    /// The guard routine: it passes a caller on its list and rejects any
    /// other, naming it.
    pub fn check(&self, caller: &String) -> (r: Result<(), CallerRejected>)
        ensures
            r is Ok <==> names(self.allowed_callers@).contains(caller@),
            r matches Err(e) ==> {
                &&& e.caller@ == caller@
                &&& e.owner_type@ == self.owner_type@
                &&& match self.protected {
                    Protected::Function(f) => e.function matches Some(g) && g@ == f@,
                    Protected::Fields => e.function is None,
                }
            },
    {
        if contains_name(&self.allowed_callers, caller) {
            Ok(())
        } else {
            let function = match &self.protected {
                Protected::Function(f) => Some(f.clone()),
                Protected::Fields => None,
            };
            Err(CallerRejected { caller: caller.clone(), owner_type: self.owner_type.clone(), function })
        }
    }

    /// The registration that `func` needs, if any. Only a function whose own
    /// name is not on the guard's list registers: on entry when it calls the
    /// guarded function, on exit when it writes a field of the owner type.
    /// A listed caller would pass the guard anyway.
    pub fn registration(&self, func: &FnDecl) -> (r: Result<
        Option<Registration>,
        UnsupportedConstruct,
    >)
        ensures
            match self.protected {
                Protected::Function(f) => r matches Ok(o) && (o is Some <==> (calls_in_block(
                    func.body,
                ).contains(f@) && !names(self.allowed_callers@).contains(func.name@))),
                Protected::Fields => match r {
                    Ok(o) => params_supported(func.params@) && (o is Some <==> (fn_writes(
                        *func,
                        self.owner_type@,
                    ).len() > 0 && !names(self.allowed_callers@).contains(func.name@))),
                    Err(e) => first_unsupported(func.params@, e.param_index as int),
                },
            },
            r matches Ok(Some(reg)) ==> {
                &&& reg.owner_type@ == self.owner_type@
                &&& reg.guard_name@ == self.guard_name@
                &&& reg.caller@ == func.name@
                &&& reg.placement == (if self.protected is Fields {
                    Placement::Exit
                } else {
                    Placement::Entry
                })
            },
    {
        let (needed, placement) = match &self.protected {
            Protected::Function(f) => {
                let found = called_names(&func.body);
                (contains_name(&found, f), Placement::Entry)
            },
            Protected::Fields => {
                match mutated_fields(func, &self.owner_type) {
                    Ok(w) => (w.len() > 0, Placement::Exit),
                    Err(e) => {
                        return Err(e);
                    },
                }
            },
        };
        if needed && !contains_name(&self.allowed_callers, &func.name) {
            Ok(
                Some(
                    Registration {
                        owner_type: self.owner_type.clone(),
                        guard_name: self.guard_name.clone(),
                        caller: func.name.clone(),
                        placement,
                    },
                ),
            )
        } else {
            Ok(None)
        }
    }
}

} // verus!
