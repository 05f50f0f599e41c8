//! A list of names: `"a", "b", "c"`.

use vstd::prelude::*;
use crate::ast::{names, lemma_names_push};
use crate::parser::{MalformedPolicySpec, Token, is_punct, punct_is};

verus! {

/// The names of a call list or of a caller list.
pub struct WhitelistArgs {
    pub values: Vec<String>,
}

/// `p` before the list that `o` holds, if it holds one.
pub open spec fn prefixed(p: Seq<Seq<char>>, o: Option<Seq<Seq<char>>>) -> Option<Seq<Seq<char>>> {
    match o {
        Some(r) => Some(p + r),
        None => None,
    }
}

/// The values of a list of string literals, each followed by at most one
/// comma; `None` when another token stands where a string is due.
pub open spec fn string_list(ts: Seq<Token>) -> Option<Seq<Seq<char>>>
    decreases ts.len(),
{
    if ts.len() == 0 {
        Some(Seq::empty())
    } else {
        match ts[0] {
            Token::Str(s) => {
                let next = if ts.len() > 1 && is_punct(ts[1], ',') {
                    2
                } else {
                    1
                };
                prefixed(seq![s@], string_list(ts.subrange(next, ts.len() as int)))
            },
            _ => None,
        }
    }
}

impl WhitelistArgs {
    /// Reads a list of string literals separated by commas.
    pub fn parse(ts: &Vec<Token>) -> (r: Result<WhitelistArgs, MalformedPolicySpec>)
        ensures
            match r {
                Ok(a) => string_list(ts@) == Some(names(a.values@)),
                Err(e) => string_list(ts@) is None && e.position <= ts@.len(),
            },
    {
        let n = ts.len();
        let mut values: Vec<String> = Vec::new();
        let mut i: usize = 0;
        assert(ts@.subrange(0, n as int) =~= ts@);
        assert(names(values@) =~= Seq::<Seq<char>>::empty());
        while i < n
            invariant
                n == ts@.len(),
                i <= n,
                string_list(ts@) == prefixed(names(values@), string_list(ts@.subrange(i as int, n as int))),
            decreases n - i,
        {
            let ghost rest = ts@.subrange(i as int, n as int);
            assert(rest[0] == ts@[i as int]);
            match &ts[i] {
                Token::Str(s) => {
                    let next: usize = if i + 1 < n && punct_is(&ts[i + 1], ',') {
                        i + 2
                    } else {
                        i + 1
                    };
                    proof {
                        if rest.len() > 1 {
                            assert(rest[1] == ts@[i + 1]);
                        }
                        assert(rest.subrange(next - i, rest.len() as int) =~= ts@.subrange(
                            next as int,
                            n as int,
                        ));
                        lemma_names_push(values@, *s);
                        assert(names(values@).push(s@) =~= names(values@) + seq![s@]);
                    }
                    values.push(s.clone());
                    i = next;
                },
                _ => {
                    return Err(MalformedPolicySpec { position: i });
                },
            }
        }
        assert(ts@.subrange(n as int, n as int) =~= Seq::<Token>::empty());
        assert(names(values@) + Seq::<Seq<char>>::empty() =~= names(values@));
        Ok(WhitelistArgs { values })
    }
}

} // verus!
