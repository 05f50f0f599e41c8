use proc_assertions::parser::Token;
use proc_assertions::size_align::SizeAlign;

fn args(size: &str, align: &str) -> Vec<Token> {
    vec![
        Token::Ident("size".to_string()),
        Token::Punct(':'),
        Token::Int(size.to_string()),
        Token::Punct(','),
        Token::Ident("align".to_string()),
        Token::Punct(':'),
        Token::Int(align.to_string()),
    ]
}

fn assert_layout<T>(size: &str, align: &str) {
    let sa = SizeAlign::parse(&args(size, align)).ok().unwrap();
    assert_eq!(core::mem::size_of::<T>(), sa.size);
    assert_eq!(core::mem::align_of::<T>(), sa.align);
}

// Basic struct with a single i32 field
#[allow(dead_code)]
struct Bar {
    value: i32,
}

// Struct with larger size and alignment
#[allow(dead_code)]
struct LargeStruct {
    a: i64,
    b: i32,
    c: u16,
}

#[allow(dead_code)]
struct PackedStruct {
    a: u8,
    b: u16,
    c: u32,
}

#[allow(dead_code)]
struct DefaultAlign {
    a: u8,
    b: u8,
}

// Aligned to 16 by an empty array of `u128`, which takes no room.
#[allow(dead_code)]
struct CustomAlignStruct {
    a: u64,
    b: u64,
    align: [u128; 0],
}

#[allow(dead_code)]
struct EmptyStruct;

#[allow(dead_code)]
struct NoFieldsStruct {}

#[test]
fn test_assert_align_size() {
    assert_layout::<Bar>("4", "4");
    assert_layout::<LargeStruct>("16", "8");
    assert_layout::<PackedStruct>("8", "4");
    assert_layout::<DefaultAlign>("2", "1");
    assert_layout::<CustomAlignStruct>("16", "16");
    assert_layout::<EmptyStruct>("0", "1");
    assert_layout::<NoFieldsStruct>("0", "1");
}
