//! A type and a list of its fields: `MyStruct: ("a", "b")`.

use vstd::prelude::*;
use crate::ast::{names, lemma_names_push};
use crate::parser::{Delimiter, MalformedPolicySpec, Token, is_punct, punct_is};
use crate::parser::whitelist::prefixed;

verus! {

/// A type name and the names of some of its fields.
pub struct WhitelistArgs {
    pub struct_name: String,
    pub values: Vec<String>,
}

/// The values of string literals separated by commas, with at most one
/// comma after the last; `None` when anything else is found.
pub open spec fn separated_strings(ts: Seq<Token>) -> Option<Seq<Seq<char>>>
    decreases ts.len(),
{
    if ts.len() == 0 {
        Some(Seq::empty())
    } else {
        match ts[0] {
            Token::Str(s) => if ts.len() == 1 {
                Some(seq![s@])
            } else if is_punct(ts[1], ',') {
                prefixed(seq![s@], separated_strings(ts.subrange(2, ts.len() as int)))
            } else {
                None
            },
            _ => None,
        }
    }
}

/// The type name and the field names of `Name: ("f1", "f2", ..)`.
pub open spec fn field_list(ts: Seq<Token>) -> Option<(Seq<char>, Seq<Seq<char>>)> {
    if ts.len() == 3 && is_punct(ts[1], ':') {
        match (ts[0], ts[2]) {
            (Token::Ident(n), Token::Group { delimiter: Delimiter::Parenthesis, tokens }) => match separated_strings(
                tokens@,
            ) {
                Some(fs) => Some((n@, fs)),
                None => None,
            },
            _ => None,
        }
    } else {
        None
    }
}

/// Reads string literals separated by commas.
fn parse_separated(ts: &Vec<Token>) -> (r: Option<Vec<String>>)
    ensures
        match r {
            Some(v) => separated_strings(ts@) == Some(names(v@)),
            None => separated_strings(ts@) is None,
        },
{
    let n = ts.len();
    let mut values: Vec<String> = Vec::new();
    let mut i: usize = 0;
    assert(ts@.subrange(0, n as int) =~= ts@);
    assert(names(values@) + separated_strings(ts@)->0 =~= separated_strings(ts@)->0);
    while i < n
        invariant
            n == ts@.len(),
            i <= n,
            separated_strings(ts@) == prefixed(
                names(values@),
                separated_strings(ts@.subrange(i as int, n as int)),
            ),
        decreases n - i,
    {
        let ghost rest = ts@.subrange(i as int, n as int);
        assert(rest[0] == ts@[i as int]);
        match &ts[i] {
            Token::Str(s) => {
                proof {
                    lemma_names_push(values@, *s);
                    assert(names(values@).push(s@) =~= names(values@) + seq![s@]);
                }
                if i + 1 == n {
                    values.push(s.clone());
                    assert(names(values@) + Seq::<Seq<char>>::empty() =~= names(values@));
                    return Some(values);
                }
                assert(rest[1] == ts@[i + 1]);
                if !punct_is(&ts[i + 1], ',') {
                    return None;
                }
                assert(rest.subrange(2, rest.len() as int) =~= ts@.subrange(i + 2, n as int));
                values.push(s.clone());
                i = i + 2;
            },
            _ => {
                return None;
            },
        }
    }
    assert(ts@.subrange(n as int, n as int) =~= Seq::<Token>::empty());
    assert(names(values@) + Seq::<Seq<char>>::empty() =~= names(values@));
    Some(values)
}

impl WhitelistArgs {
    /// Reads `Name: ("f1", "f2", ..)`.
    pub fn parse(ts: &Vec<Token>) -> (r: Result<WhitelistArgs, MalformedPolicySpec>)
        ensures
            match r {
                Ok(a) => field_list(ts@) == Some((a.struct_name@, names(a.values@))),
                Err(e) => field_list(ts@) is None && e.position <= ts@.len(),
            },
    {
        let n = ts.len();
        let struct_name = match ts.get(0) {
            Some(Token::Ident(s)) => s.clone(),
            _ => {
                return Err(MalformedPolicySpec { position: 0 });
            },
        };
        if n < 2 || !punct_is(&ts[1], ':') {
            return Err(MalformedPolicySpec { position: if n < 2 { n } else { 1 } });
        }
        let values = match ts.get(2) {
            Some(Token::Group { delimiter: Delimiter::Parenthesis, tokens }) => match parse_separated(
                tokens,
            ) {
                Some(v) => v,
                None => {
                    return Err(MalformedPolicySpec { position: 2 });
                },
            },
            _ => {
                return Err(MalformedPolicySpec { position: if n < 3 { n } else { 2 } });
            },
        };
        if n > 3 {
            return Err(MalformedPolicySpec { position: 3 });
        }
        Ok(WhitelistArgs { struct_name, values })
    }
}

} // verus!
