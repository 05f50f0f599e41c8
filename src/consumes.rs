//! Which of a list of types a function takes as an argument.

use vstd::prelude::*;
use vstd::string::{StrSliceExecFns, StringExecFns};
use crate::ast::{Param, names, lemma_names_push};

verus! {

/// Whether a character has the Unicode property White_Space.
pub open spec fn is_white_space(c: char) -> bool {
    ||| '\u{9}' <= c <= '\u{d}'
    ||| c == ' '
    ||| c == '\u{85}'
    ||| c == '\u{a0}'
    ||| c == '\u{1680}'
    ||| '\u{2000}' <= c <= '\u{200a}'
    ||| c == '\u{2028}'
    ||| c == '\u{2029}'
    ||| c == '\u{202f}'
    ||| c == '\u{205f}'
    ||| c == '\u{3000}'
}

/// A text without its leading white space.
pub open spec fn trim_start(s: Seq<char>) -> Seq<char>
    decreases s.len(),
{
    if s.len() > 0 && is_white_space(s[0]) {
        trim_start(s.subrange(1, s.len() as int))
    } else {
        s
    }
}

/// A text without its trailing white space.
pub open spec fn trim_end(s: Seq<char>) -> Seq<char>
    decreases s.len(),
{
    if s.len() > 0 && is_white_space(s.last()) {
        trim_end(s.drop_last())
    } else {
        s
    }
}

/// A text without its leading and trailing white space.
pub open spec fn trimmed(s: Seq<char>) -> Seq<char> {
    trim_end(trim_start(s))
}

/// Relies on `str::trim`: the text without its leading and trailing
/// characters of the Unicode property White_Space.
#[verifier::external_body]
fn trim_text(s: &String) -> (r: String)
    ensures
        r@ == trimmed(s@),
{
    s.trim().to_string()
}

/// Whether a receiver is written as `wanted`: `self`, `mut self`, `&self`
/// or `&mut self`.
pub open spec fn receiver_written(reference: bool, mutable: bool, wanted: Seq<char>) -> bool {
    if reference {
        if mutable {
            wanted == "&mut self"@
        } else {
            wanted == "&self"@
        }
    } else {
        if mutable {
            wanted == "mut self"@
        } else {
            wanted == "self"@
        }
    }
}

/// Whether a parameter has the type `wanted`: a typed parameter whose
/// trimmed type text is `wanted`, or a receiver written as `wanted`.
pub open spec fn param_has_type(p: Param, wanted: Seq<char>) -> bool {
    match p {
        Param::Receiver { reference, mutable } => receiver_written(reference, mutable, wanted),
        Param::Typed { pat, ty, text } => trimmed(text@) == wanted,
    }
}

/// Whether some parameter has the type `wanted`.
pub open spec fn consumed(ps: Seq<Param>, wanted: Seq<char>) -> bool {
    exists|i: int| 0 <= i < ps.len() && #[trigger] param_has_type(ps[i], wanted)
}

/// The types of `ws` that no parameter has, in order.
pub open spec fn unconsumed(ws: Seq<Seq<char>>, ps: Seq<Param>) -> Seq<Seq<char>>
    decreases ws.len(),
{
    if ws.len() == 0 {
        Seq::empty()
    } else if consumed(ps, ws.last()) {
        unconsumed(ws.drop_last(), ps)
    } else {
        unconsumed(ws.drop_last(), ps).push(ws.last())
    }
}

/// A type text without its spaces, tabs and line breaks.
pub open spec fn cleaned(s: Seq<char>) -> Seq<char> {
    s.filter(|c: char| c != ' ' && c != '\n' && c != '\t')
}

/// Removes every space, tab and line break from a type text, so that texts
/// that differ only in layout compare equal.
pub fn clean_type_string(type_str: &String) -> (r: String)
    ensures
        r@ == cleaned(type_str@),
{
    let st = type_str.as_str();
    let n = st.unicode_len();
    let mut r = String::new();
    let mut i: usize = 0;
    proof {
        reveal(Seq::filter);
        assert(type_str@.subrange(0, 0) =~= Seq::<char>::empty());
    }
    while i < n
        invariant
            n == type_str@.len(),
            st@ == type_str@,
            i <= n,
            r@ == cleaned(type_str@.subrange(0, i as int)),
        decreases n - i,
    {
        let c = st.get_char(i);
        let ghost pre = type_str@.subrange(0, i as int + 1);
        proof {
            reveal(Seq::filter);
            assert(pre.drop_last() =~= type_str@.subrange(0, i as int));
            assert(pre.last() == c);
        }
        if c != ' ' && c != '\n' && c != '\t' {
            r.append(st.substring_char(i, i + 1));
            proof {
                assert(type_str@.subrange(i as int, i as int + 1) =~= seq![c]);
                assert(cleaned(pre) == cleaned(type_str@.subrange(0, i as int)).push(c));
                assert(r@ =~= cleaned(pre));
            }
        } else {
            assert(cleaned(pre) == cleaned(type_str@.subrange(0, i as int)));
        }
        i = i + 1;
    }
    assert(type_str@.subrange(0, n as int) =~= type_str@);
    r
}

/// Whether a receiver is written as `wanted`.
pub fn receiver_is(reference: bool, mutable: bool, wanted: &String) -> (r: bool)
    ensures
        r == receiver_written(reference, mutable, wanted@),
{
    let text = if reference {
        if mutable {
            String::from_str("&mut self")
        } else {
            String::from_str("&self")
        }
    } else {
        if mutable {
            String::from_str("mut self")
        } else {
            String::from_str("self")
        }
    };
    text == *wanted
}

/// Whether a parameter's type text, trimmed, is the listed type.
pub fn is_type_compatible(arg_type_str: &String, whitelist_type: &String) -> (r: bool)
    ensures
        r == (trimmed(arg_type_str@) == whitelist_type@),
{
    let t = trim_text(arg_type_str);
    t == *whitelist_type
}

/// Whether a parameter has the type `wanted`.
pub fn has_type(p: &Param, wanted: &String) -> (r: bool)
    ensures
        r == param_has_type(*p, wanted@),
{
    match p {
        Param::Receiver { reference, mutable } => receiver_is(*reference, *mutable, wanted),
        Param::Typed { pat, ty, text } => is_type_compatible(text, wanted),
    }
}

/// The types of `whitelist` that no parameter of `params` has, in order.
pub fn unconsumed_types(whitelist: &Vec<String>, params: &Vec<Param>) -> (r: Vec<String>)
    ensures
        names(r@) == unconsumed(names(whitelist@), params@),
{
    let mut r: Vec<String> = Vec::new();
    let mut i: usize = 0;
    assert(names(whitelist@).subrange(0, 0) =~= Seq::<Seq<char>>::empty());
    assert(names(r@) =~= Seq::<Seq<char>>::empty());
    while i < whitelist.len()
        invariant
            i <= whitelist@.len(),
            names(r@) == unconsumed(names(whitelist@).subrange(0, i as int), params@),
        decreases whitelist@.len() - i,
    {
        let w = &whitelist[i];
        let ghost pre = names(whitelist@).subrange(0, i as int + 1);
        assert(pre.drop_last() =~= names(whitelist@).subrange(0, i as int));
        assert(pre.last() == w@);
        let mut found = false;
        let mut j: usize = 0;
        while j < params.len() && !found
            invariant
                j <= params@.len(),
                found ==> consumed(params@, w@),
                !found ==> forall|k: int| 0 <= k < j ==> !#[trigger] param_has_type(params@[k], w@),
            decreases params@.len() - j,
        {
            if has_type(&params[j], w) {
                found = true;
            }
            j = j + 1;
        }
        if !found {
            assert(!consumed(params@, w@));
            let c = w.clone();
            proof {
                lemma_names_push(r@, c);
            }
            r.push(c);
        }
        i = i + 1;
    }
    assert(names(whitelist@).subrange(0, whitelist@.len() as int) =~= names(whitelist@));
    r
}

} // verus!
