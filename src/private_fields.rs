//! Which fields of a struct that must stay private are public.

use vstd::prelude::*;
use crate::ast::{names, lemma_names_push};
use crate::policy::contains_name;

verus! {

/// A named field of a struct, and whether it is declared `pub`.
pub struct FieldDecl {
    pub name: String,
    pub is_pub: bool,
}

/// The names of the fields that are `pub` and listed, in declaration order.
pub open spec fn public_listed(fs: Seq<FieldDecl>, list: Seq<Seq<char>>) -> Seq<Seq<char>>
    decreases fs.len(),
{
    if fs.len() == 0 {
        Seq::empty()
    } else if fs.last().is_pub && list.contains(fs.last().name@) {
        public_listed(fs.drop_last(), list).push(fs.last().name@)
    } else {
        public_listed(fs.drop_last(), list)
    }
}

/// The fields of `fields` that `private_list` names and that are public.
pub fn public_listed_fields(private_list: &Vec<String>, fields: &Vec<FieldDecl>) -> (r: Vec<String>)
    ensures
        names(r@) == public_listed(fields@, names(private_list@)),
{
    let mut r: Vec<String> = Vec::new();
    let mut i: usize = 0;
    assert(fields@.subrange(0, 0) =~= Seq::<FieldDecl>::empty());
    assert(names(r@) =~= Seq::<Seq<char>>::empty());
    while i < fields.len()
        invariant
            i <= fields@.len(),
            names(r@) == public_listed(fields@.subrange(0, i as int), names(private_list@)),
        decreases fields@.len() - i,
    {
        let f = &fields[i];
        let ghost pre = fields@.subrange(0, i as int + 1);
        assert(pre.drop_last() =~= fields@.subrange(0, i as int));
        assert(pre.last() == *f);
        if f.is_pub && contains_name(private_list, &f.name) {
            let c = f.name.clone();
            proof {
                lemma_names_push(r@, c);
            }
            r.push(c);
        }
        i = i + 1;
    }
    assert(fields@.subrange(0, fields@.len() as int) =~= fields@);
    r
}

} // verus!
