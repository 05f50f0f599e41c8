use proc_assertions::ast::{AssignOp, Block, Expr, FnDecl, Member, Param, Pat, Stmt, Type};
use proc_assertions::mutation::{check_mutations, mutated_fields};
use proc_assertions::policy::{FieldMode, FieldPolicy};

fn strings(v: &[&str]) -> Vec<String> {
    v.iter().map(|s| s.to_string()).collect()
}

fn path(segs: &[&str]) -> Expr {
    Expr::Path(strings(segs))
}

fn field(base: &str, name: &str) -> Expr {
    Expr::Field { base: Box::new(path(&[base])), member: Member::Named(name.to_string()) }
}

fn local(name: &str, init: Expr) -> Stmt {
    Stmt::Local { pat: Pat::Ident(name.to_string()), init: Some(init) }
}

fn default_call() -> Expr {
    Expr::Call { callee: Box::new(path(&["MyStruct", "default"])), args: vec![] }
}

fn policy() -> FieldPolicy {
    FieldPolicy { struct_name: "MyStruct".to_string(), fields: strings(&["field"]), mode: FieldMode::Allow }
}

fn assert_passes(decl: &FnDecl) {
    assert!(check_mutations(decl, &policy()).ok().unwrap().is_empty());
}

#[derive(Default)]
pub struct MyStruct {
    pub field: i32,
}

impl MyStruct {
    pub fn allowed_mutate(&mut self) {
        self.field += 1;
    }

    pub fn allowed_mutate_multiple(&mut self) {
        self.field -= 1;
    }

    pub fn unauthorized_mutate(&mut self) {
        self.field = 0;
    }
}

#[test]
fn mutates_test_allowed_mutate_inner() {
    let decl = FnDecl {
        name: "test_allowed_mutate_inner".to_string(),
        params: vec![],
        body: Block {
            stmts: vec![
                local("instance", default_call()),
                Stmt::Expr(Expr::Assign { target: Box::new(field("instance", "field")), value: Box::new(Expr::Other) }),
                Stmt::Item,
            ],
        },
    };
    assert_passes(&decl);
    assert_eq!(mutated_fields(&decl, &"MyStruct".to_string()).ok().unwrap(), strings(&["field"]));

    let mut instance = MyStruct::default();
    instance.field = 1;
    assert_eq!(instance.field, 1);
}

#[test]
fn mutates_test_allowed_mutate_args() {
    let decl = FnDecl {
        name: "test_allowed_mutate_args_impl".to_string(),
        params: vec![Param::Typed {
            pat: Pat::Ident("instance".to_string()),
            ty: Type::Reference { mutable: true, elem: Box::new(Type::Path(strings(&["MyStruct"]))) },
            text: "& mut MyStruct".to_string(),
        }],
        body: Block {
            stmts: vec![
                Stmt::Expr(Expr::CompoundAssign {
                    target: Box::new(field("instance", "field")),
                    op: AssignOp::Add,
                    value: Box::new(Expr::Other),
                }),
                Stmt::Item,
            ],
        },
    };
    assert_passes(&decl);
    assert_eq!(mutated_fields(&decl, &"MyStruct".to_string()).ok().unwrap(), strings(&["field"]));

    let mut instance = MyStruct::default();
    test_allowed_mutate_args_impl(&mut instance);
}

fn test_allowed_mutate_args_impl(instance: &mut MyStruct) {
    instance.field += 1;
    assert_eq!(instance.field, 1);
}

#[test]
fn mutates_test_nested_mutate() {
    // while false { for _ in 0..5 { instance.field; } }
    let inner_for = Expr::ForLoop { body: Block { stmts: vec![Stmt::Expr(field("instance", "field"))] } };
    let inner_while = Expr::While { body: Block { stmts: vec![Stmt::Expr(inner_for)] } };
    let closure = Expr::Closure { body: Box::new(Expr::Block(Block { stmts: vec![Stmt::Expr(inner_while)] })) };
    let decl = FnDecl {
        name: "test_nested_mutate".to_string(),
        params: vec![],
        body: Block {
            stmts: vec![
                local("instance", default_call()),
                local("name", closure),
                Stmt::Expr(Expr::Call { callee: Box::new(path(&["name"])), args: vec![] }),
            ],
        },
    };
    assert_passes(&decl);
    assert!(mutated_fields(&decl, &"MyStruct".to_string()).ok().unwrap().is_empty());

    #[allow(unused_mut)]
    let mut instance = MyStruct::default();
    #[allow(unused_mut)]
    let mut name = || {
        while false {
            for _ in 0..5 {
                let _ = instance.field;
            }
        }
    };
    name();
}

#[test]
fn mutates_methods_pass() {
    let mut instance = MyStruct::default();
    instance.allowed_mutate();
    instance.allowed_mutate_multiple();
    instance.unauthorized_mutate();
    assert_eq!(instance.field, 0);
}
