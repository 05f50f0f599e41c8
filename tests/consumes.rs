use proc_assertions::ast::{Param, Pat, Type};
use proc_assertions::consumes::{clean_type_string, is_type_compatible, unconsumed_types};

fn strings(v: &[&str]) -> Vec<String> {
    v.iter().map(|s| s.to_string()).collect()
}

fn typed(name: &str, text: &str) -> Param {
    Param::Typed { pat: Pat::Ident(name.to_string()), ty: Type::Other, text: text.to_string() }
}

#[allow(dead_code)]
pub struct ConsumedStruct;

pub struct StructWithSelf;

impl StructWithSelf {
    pub fn into_allocated_frames(self) -> i32 {
        10
    }
}

fn test_function(_arg1: i32, _arg2: u8, _arg3: &ConsumedStruct) -> i32 {
    5
}

#[test]
fn test_consumes_list() {
    let params = vec![typed("_arg1", "i32"), typed("_arg2", "u8"), typed("_arg3", "ConsumedStruct")];
    assert!(unconsumed_types(&strings(&["u8", "ConsumedStruct"]), &params).is_empty());
}

#[test]
fn test_consumes_list_reference() {
    let params = vec![typed("_arg1", "i32"), typed("_arg2", "u8"), typed("_arg3", "& ConsumedStruct")];
    assert!(unconsumed_types(&strings(&["u8", "& ConsumedStruct"]), &params).is_empty());
    let a = ConsumedStruct;
    assert_eq!(test_function(0, 0, &a), 5);
}

#[test]
fn test_consumes_list_mutable() {
    let params = vec![typed("_arg1", "i32"), typed("_arg2", "u8"), typed("_arg3", "& mut ConsumedStruct")];
    assert!(unconsumed_types(&strings(&["u8", "& mut ConsumedStruct"]), &params).is_empty());
}

#[test]
fn test_self_consumption() {
    let params = vec![Param::Receiver { reference: false, mutable: false }];
    assert!(unconsumed_types(&strings(&["self"]), &params).is_empty());
    let s = StructWithSelf;
    assert_eq!(s.into_allocated_frames(), 10);
}

#[test]
fn consumes_reports_missing_types() {
    let params = vec![typed("a", "i32"), Param::Receiver { reference: true, mutable: false }];
    assert_eq!(
        unconsumed_types(&strings(&["u8", "&self", "i32", "self", "&mut self"]), &params),
        strings(&["u8", "self", "&mut self"])
    );
}

#[test]
fn consumes_trims_type_text() {
    assert!(is_type_compatible(&"  u8 ".to_string(), &"u8".to_string()));
    assert!(!is_type_compatible(&"u16".to_string(), &"u8".to_string()));
}

#[test]
fn consumes_trims_unicode_white_space() {
    assert!(is_type_compatible(&"\u{3000}\tu8\n\u{a0}".to_string(), &"u8".to_string()));
    assert!(!is_type_compatible(&"u 8".to_string(), &"u8".to_string()));
}

#[test]
fn clean_type_string_removes_layout() {
    assert_eq!(clean_type_string(&"& mut\n\tConsumed Struct ".to_string()), "&mutConsumedStruct");
    assert_eq!(clean_type_string(&"".to_string()), "");
}
