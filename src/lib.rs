//! Static policy checks over a function body: which functions it may call,
//! which fields of a type it may write, and the run-time guards that stand
//! in for what a single body cannot see (who calls it, who mutates a type).

pub mod ast;
pub mod calls;
pub mod consumes;
pub mod guard;
pub mod mutation;
pub mod parser;
pub mod policy;
pub mod private_fields;
pub mod report;
pub mod size_align;
