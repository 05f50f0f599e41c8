//! The syntax tree that the analyzers read: the statements and expressions
//! of one function body, and the parameters of its signature.

use vstd::prelude::*;

verus! {

/// A pattern on the left of a `let` or of a parameter.
pub enum Pat {
    /// A plain name, as in `let x` or `mut x: T`.
    Ident(String),
    /// Any other pattern (a tuple, a wildcard, a struct pattern).
    Other,
}

/// The field named in a field access.
pub enum Member {
    /// `base.name`
    Named(String),
    /// `base.0`
    Unnamed(usize),
}

/// The operator of a compound assignment.
pub enum AssignOp {
    Add,
    Sub,
    Mul,
    Div,
    Rem,
    BitAnd,
    BitOr,
    BitXor,
    Shl,
    Shr,
}

/// An expression of a function body.
#[allow(inconsistent_fields)]
pub enum Expr {
    /// `callee(args)`
    Call { callee: Box<Expr>, args: Vec<Expr> },
    /// `receiver.method(args)`
    MethodCall { receiver: Box<Expr>, method: String, args: Vec<Expr> },
    /// `{ stmts }`
    Block(Block),
    /// `if .. { then_branch } else else_branch`
    If { then_branch: Block, else_branch: Option<Box<Expr>> },
    /// `while .. { body }`
    While { body: Block },
    /// `for .. in .. { body }`
    ForLoop { body: Block },
    /// `|..| body`
    Closure { body: Box<Expr> },
    /// `target = value`
    Assign { target: Box<Expr>, value: Box<Expr> },
    /// `target op= value`
    CompoundAssign { target: Box<Expr>, op: AssignOp, value: Box<Expr> },
    /// `base.member`
    Field { base: Box<Expr>, member: Member },
    /// A path, one identifier per segment: `x`, `Type::new`.
    Path(Vec<String>),
    /// Any expression that no policy looks into.
    Other,
}

/// A statement of a block.
pub enum Stmt {
    /// `let pat = init;` or `let pat;`
    Local { pat: Pat, init: Option<Expr> },
    /// An expression, with or without a trailing semicolon.
    Expr(Expr),
    /// A nested item (a function, a struct) or a macro: never entered.
    Item,
}

/// A `{ ... }` block.
pub struct Block {
    pub stmts: Vec<Stmt>,
}

/// The declared type of a parameter.
pub enum Type {
    /// A path type: `MyStruct`, `std::vec::Vec`.
    Path(Vec<String>),
    /// `&T` or `&mut T`.
    Reference { mutable: bool, elem: Box<Type> },
    /// Any other type.
    Other,
}

/// A parameter of a function signature.
pub enum Param {
    /// `self`, `mut self`, `&self` or `&mut self`.
    Receiver { reference: bool, mutable: bool },
    /// `pat: ty`; `text` is the type as its tokens read, such as `& mut T`.
    Typed { pat: Pat, ty: Type, text: String },
}

/// A function: its name, its parameters and its body.
pub struct FnDecl {
    pub name: String,
    pub params: Vec<Param>,
    pub body: Block,
}

/// The names held by a vector of strings.
pub open spec fn names(v: Seq<String>) -> Seq<Seq<char>> {
    v.map_values(|s: String| s@)
}

pub proof fn lemma_names_push(v: Seq<String>, s: String)
    ensures
        names(v.push(s)) == names(v).push(s@),
{
    assert(names(v.push(s)) =~= names(v).push(s@));
}

} // verus!
