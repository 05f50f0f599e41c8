//! Attribute arguments, as tokens, and the grammars that read them.

pub mod field_whitelist;
pub mod whitelist;

use vstd::prelude::*;
use vstd::string::StrSliceExecFns;

verus! {

/// The brackets around a group of tokens.
#[derive(PartialEq, Eq, Structural, Clone, Copy, Debug)]
pub enum Delimiter {
    /// `( .. )`
    Parenthesis,
    /// `[ .. ]`
    Bracket,
    /// `{ .. }`
    Brace,
    /// A group without visible brackets.
    Invisible,
}

/// One token of an attribute's arguments.
pub enum Token {
    /// An identifier or keyword.
    Ident(String),
    /// One punctuation character, such as `,` or `:`.
    Punct(char),
    /// A string literal, by its value.
    Str(String),
    /// An integer literal, by its value in decimal digits.
    Int(String),
    /// Tokens between brackets.
    Group { delimiter: Delimiter, tokens: Vec<Token> },
    /// Any other literal.
    Other,
}

/// A list of arguments that does not follow its grammar.
#[derive(PartialEq, Eq, Structural, Clone, Copy, Debug)]
pub struct MalformedPolicySpec {
    /// The position of the token where reading failed; the number of tokens
    /// when more were expected.
    pub position: usize,
}

/// Whether a token is the punctuation `c`.
pub open spec fn is_punct(t: Token, c: char) -> bool {
    t matches Token::Punct(p) && p == c
}

pub fn punct_is(t: &Token, c: char) -> (r: bool)
    ensures
        r == is_punct(*t, c),
{
    match t {
        Token::Punct(p) => *p == c,
        _ => false,
    }
}

/// Whether every character is a decimal digit.
pub open spec fn all_digits(s: Seq<char>) -> bool {
    forall|i: int| 0 <= i < s.len() ==> '0' <= #[trigger] s[i] <= '9'
}

/// The number that a string of decimal digits writes.
pub open spec fn digits_value(s: Seq<char>) -> nat
    decreases s.len(),
{
    if s.len() == 0 {
        0
    } else {
        digits_value(s.drop_last()) * 10 + (s.last() as nat - '0' as nat) as nat
    }
}

/// The value of an integer literal: its digits read in base ten, when there
/// is at least one digit, there are only digits, and the value fits a
/// `usize`.
pub open spec fn int_value(s: Seq<char>) -> Option<usize> {
    if s.len() > 0 && all_digits(s) && digits_value(s) <= usize::MAX {
        Some(digits_value(s) as usize)
    } else {
        None
    }
}

/// Reads a string of decimal digits as a `usize`.
pub fn parse_usize(s: &String) -> (r: Option<usize>)
    ensures
        r == int_value(s@),
{
    let st = s.as_str();
    let n = st.unicode_len();
    if n == 0 {
        return None;
    }
    let mut acc: usize = 0;
    let mut i: usize = 0;
    while i < n
        invariant
            n == s@.len(),
            st@ == s@,
            i <= n,
            all_digits(s@.subrange(0, i as int)),
            acc as nat == digits_value(s@.subrange(0, i as int)),
        decreases n - i,
    {
        let c = st.get_char(i);
        let ghost pre = s@.subrange(0, i as int + 1);
        assert(pre.drop_last() =~= s@.subrange(0, i as int));
        assert(pre.last() == c);
        if c < '0' || c > '9' {
            assert(!all_digits(s@)) by {
                assert(s@[i as int] == c);
            }
            return None;
        }
        let d = (c as u32 - '0' as u32) as usize;
        let next = match acc.checked_mul(10) {
            Some(m) => m.checked_add(d),
            None => None,
        };
        match next {
            Some(v) => {
                acc = v;
            },
            None => {
                proof {
                    lemma_digits_value_grows(s@, i as int + 1);
                }
                return None;
            },
        }
        i = i + 1;
    }
    assert(s@.subrange(0, n as int) =~= s@);
    Some(acc)
}

/// A longer string of digits is worth at least as much as its prefix.
proof fn lemma_digits_value_grows(s: Seq<char>, k: int)
    requires
        0 <= k <= s.len(),
    ensures
        digits_value(s.subrange(0, k)) <= digits_value(s),
    decreases s.len() - k,
{
    if k < s.len() {
        lemma_digits_value_grows(s, k + 1);
        let pre = s.subrange(0, k + 1);
        assert(pre.drop_last() =~= s.subrange(0, k));
    } else {
        assert(s.subrange(0, k) =~= s);
    }
}

} // verus!
