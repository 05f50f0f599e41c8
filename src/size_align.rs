//! The arguments of a layout assertion: `size: 16, align: 8`.

use vstd::prelude::*;
use vstd::string::StringExecFns;
use crate::parser::{MalformedPolicySpec, Token, int_value, is_punct, parse_usize, punct_is};

verus! {

/// The size and the alignment that a type must have, in bytes.
pub struct SizeAlign {
    pub size: usize,
    pub align: usize,
}

/// The values set by a run of entries `size: N` and `align: N`, separated by
/// commas, starting from `size` and `align`; a later entry overrides an
/// earlier one. `None` on any other name, a missing colon or comma, or a
/// value that is not an integer fitting a `usize`.
pub open spec fn layout_entries(ts: Seq<Token>, size: Option<usize>, align: Option<usize>) -> Option<
    (Option<usize>, Option<usize>),
>
    decreases ts.len(),
{
    if ts.len() == 0 {
        Some((size, align))
    } else if ts.len() >= 3 && is_punct(ts[1], ':') {
        match (ts[0], ts[2]) {
            (Token::Ident(name), Token::Int(digits)) => match int_value(digits@) {
                Some(v) => if name@ == "size"@ || name@ == "align"@ {
                    let s2 = if name@ == "size"@ {
                        Some(v)
                    } else {
                        size
                    };
                    let a2 = if name@ == "size"@ {
                        align
                    } else {
                        Some(v)
                    };
                    if ts.len() == 3 {
                        Some((s2, a2))
                    } else if is_punct(ts[3], ',') {
                        layout_entries(ts.subrange(4, ts.len() as int), s2, a2)
                    } else {
                        None
                    }
                } else {
                    None
                },
                None => None,
            },
            _ => None,
        }
    } else {
        None
    }
}

/// The size and alignment of a complete argument list: both must be given.
pub open spec fn layout_args(ts: Seq<Token>) -> Option<(usize, usize)> {
    match layout_entries(ts, None, None) {
        Some((Some(s), Some(a))) => Some((s, a)),
        _ => None,
    }
}

impl SizeAlign {
    /// Reads `size: N, align: M`, in either order.
    pub fn parse(ts: &Vec<Token>) -> (r: Result<SizeAlign, MalformedPolicySpec>)
        ensures
            match r {
                Ok(sa) => layout_args(ts@) == Some((sa.size, sa.align)),
                Err(e) => layout_args(ts@) is None && e.position <= ts@.len(),
            },
    {
        let n = ts.len();
        let size_name = String::from_str("size");
        let align_name = String::from_str("align");
        let mut size: Option<usize> = None;
        let mut align: Option<usize> = None;
        let mut i: usize = 0;
        assert(ts@.subrange(0, n as int) =~= ts@);
        while i < n
            invariant
                n == ts@.len(),
                i <= n,
                size_name@ == "size"@,
                align_name@ == "align"@,
                layout_entries(ts@, None, None) == layout_entries(
                    ts@.subrange(i as int, n as int),
                    size,
                    align,
                ),
            decreases n - i,
        {
            let ghost rest = ts@.subrange(i as int, n as int);
            if n - i < 3 || !punct_is(&ts[i + 1], ':') {
                proof {
                    if n - i >= 3 {
                        assert(rest[1] == ts@[i + 1]);
                    }
                }
                return Err(MalformedPolicySpec { position: if n - i < 3 { n } else { i + 1 } });
            }
            assert(rest[0] == ts@[i as int] && rest[1] == ts@[i + 1] && rest[2] == ts@[i + 2]);
            let (name, digits) = match (&ts[i], &ts[i + 2]) {
                (Token::Ident(name), Token::Int(digits)) => (name, digits),
                _ => {
                    return Err(MalformedPolicySpec { position: i });
                },
            };
            let v = match parse_usize(digits) {
                Some(v) => v,
                None => {
                    return Err(MalformedPolicySpec { position: i + 2 });
                },
            };
            if *name == size_name {
                size = Some(v);
            } else if *name == align_name {
                align = Some(v);
            } else {
                return Err(MalformedPolicySpec { position: i });
            }
            if n - i == 3 {
                i = n;
                assert(ts@.subrange(n as int, n as int) =~= Seq::<Token>::empty());
            } else {
                assert(rest[3] == ts@[i + 3]);
                if !punct_is(&ts[i + 3], ',') {
                    return Err(MalformedPolicySpec { position: i + 3 });
                }
                assert(rest.subrange(4, rest.len() as int) =~= ts@.subrange(i + 4, n as int));
                i = i + 4;
            }
        }
        assert(ts@.subrange(i as int, n as int) =~= Seq::<Token>::empty());
        match (size, align) {
            (Some(s), Some(a)) => Ok(SizeAlign { size: s, align: a }),
            _ => Err(MalformedPolicySpec { position: n }),
        }
    }
}

} // verus!
