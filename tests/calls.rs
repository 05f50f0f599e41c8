use proc_assertions::ast::{Block, Expr, Pat, Stmt};
use proc_assertions::calls::{called_names, check_calls};
use proc_assertions::policy::{CallMode, CallPolicy};

fn strings(v: &[&str]) -> Vec<String> {
    v.iter().map(|s| s.to_string()).collect()
}

fn call(name: &str) -> Stmt {
    Stmt::Expr(Expr::Call { callee: Box::new(Expr::Path(strings(&[name]))), args: vec![] })
}

fn self_call(method: &str) -> Stmt {
    Stmt::Expr(Expr::MethodCall {
        receiver: Box::new(Expr::Path(strings(&["self"]))),
        method: method.to_string(),
        args: vec![],
    })
}

fn must_call(list: &[&str]) -> CallPolicy {
    CallPolicy { names: strings(list), mode: CallMode::MustCallAll }
}

pub fn allowed_function() {}
pub fn disallowed_function() {}
pub fn allowed_function_not_checked() {}

pub struct MyStruct;

impl MyStruct {
    pub fn target_function(&self) {}
    pub fn target_function2(&self) {}

    pub fn allowed_caller(&self) {
        self.target_function();
    }

    pub fn allowed_caller_multiple(&self) {
        allowed_function();
        self.target_function2();
    }
}

#[test]
fn test_allowed_function_calls() {
    let body = Block { stmts: vec![call("allowed_function"), call("allowed_function_not_checked")] };
    // although not listed, no error is raised
    assert!(check_calls(&body, &must_call(&["allowed_function"])).is_empty());
    allowed_function();
    allowed_function_not_checked();
}

#[test]
fn test_nested_calls() {
    let for_loop = Expr::ForLoop { body: Block { stmts: vec![call("allowed_function")] } };
    let while_loop = Expr::While { body: Block { stmts: vec![Stmt::Expr(for_loop)] } };
    let closure = Expr::Closure { body: Box::new(Expr::Block(Block { stmts: vec![Stmt::Expr(while_loop)] })) };
    let body = Block {
        stmts: vec![
            Stmt::Local { pat: Pat::Ident("name".to_string()), init: Some(closure) },
            call("name"),
            call("allowed_function"),
        ],
    };
    assert!(check_calls(&body, &must_call(&["allowed_function", "name"])).is_empty());
    assert_eq!(called_names(&body), strings(&["allowed_function", "name", "allowed_function"]));
    let name = || {
        while false {
            for _ in 0..5 {
                allowed_function();
            }
        }
    };
    name();
    allowed_function();
}

#[test]
fn calls_methods_of_my_struct() {
    let one = Block { stmts: vec![self_call("target_function")] };
    assert!(check_calls(&one, &must_call(&["target_function"])).is_empty());
    let two = Block { stmts: vec![call("allowed_function"), self_call("target_function2")] };
    assert!(check_calls(&two, &must_call(&["allowed_function", "target_function2"])).is_empty());
    let s = MyStruct;
    s.allowed_caller();
    s.allowed_caller_multiple();
    disallowed_function();
}
