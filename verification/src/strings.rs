//! Joining, copying, comparing and reading strings.

use vstd::prelude::*;
use vstd::string::*;
use crate::text::{is_u64_text, parse_u64, str_lt, text_lt, u64_value};

verus! {

/// `s1` followed by `s2`, as a new string.
pub fn str_concat(s1: &str, s2: &str) -> (s: String)
    ensures
        s@ == s1@ + s2@,
{
    let mut s = String::from_str(s1);
    s.append(s2);
    s
}

/// `s1` followed by `s2`, as a new string.
pub fn string_concat(s1: &String, s2: &String) -> (s: String)
    ensures
        s@ == s1@ + s2@,
{
    let mut s = s1.clone();
    s.append(s2.as_str());
    s
}

fn parse_each(v: &Vec<String>) -> (us: Vec<u64>)
    requires
        forall|i: int| 0 <= i < v@.len() ==> is_u64_text(#[trigger] v@[i]@),
    ensures
        us@.len() == v@.len(),
        forall|i: int| 0 <= i < v@.len() ==> #[trigger] us@[i] == u64_value(v@[i]@),
{
    let mut us: Vec<u64> = Vec::new();
    let mut i: usize = 0;
    while i < v.len()
        invariant
            i <= v.len(),
            us@.len() == i,
            forall|j: int| 0 <= j < v@.len() ==> is_u64_text(#[trigger] v@[j]@),
            forall|j: int| 0 <= j < i ==> #[trigger] us@[j] == u64_value(v@[j]@),
        decreases v.len() - i,
    {
        assert(is_u64_text(v@[i as int]@));
        if let Some(number) = parse_u64(v[i].as_str()) {
            us.push(number);
        }
        i += 1;
    }
    us
}

/// The numbers that the strings write in decimal, in order. Every string
/// must write a number that fits `u64`.
pub fn concat_all(v: Vec<String>) -> (us: Vec<u64>)
    requires
        forall|i: int| 0 <= i < v@.len() ==> is_u64_text(#[trigger] v@[i]@),
    ensures
        us@.len() == v@.len(),
        forall|i: int| 0 <= i < v@.len() ==> #[trigger] us@[i] == u64_value(v@[i]@),
{
    parse_each(&v)
}

/// The numbers that the strings write in decimal, in order: the same as
/// [`concat_all`].
pub fn concat_all_with_map(v: Vec<String>) -> (us: Vec<u64>)
    requires
        forall|i: int| 0 <= i < v@.len() ==> is_u64_text(#[trigger] v@[i]@),
    ensures
        us@.len() == v@.len(),
        forall|i: int| 0 <= i < v@.len() ==> #[trigger] us@[i] == u64_value(v@[i]@),
{
    parse_each(&v)
}

/// A copy of `string`.
pub fn copy_me(string: &String) -> (copy: String)
    ensures
        copy@ == string@,
{
    string.clone()
}

/// The longer of the two strings by the number of bytes, the first where
/// they are equally long.
pub fn pick_longest2<'a>(s1: &'a str, s2: &'a str) -> (longest: &'a str)
    ensures
        longest == if s1.spec_bytes().len() >= s2.spec_bytes().len() {
            s1
        } else {
            s2
        },
{
    if s1.as_bytes().len() >= s2.as_bytes().len() {
        s1
    } else {
        s2
    }
}

/// The strings of `v` that are less than `s` in the order of strings, in
/// the order in which `v` holds them.
pub fn find_lesser_values<'a>(v: &Vec<&'a str>, s: &str) -> (ls: Vec<&'a str>)
    ensures
        ls@ == v@.filter(|c: &'a str| text_lt(c@, s@)),
{
    let mut ls: Vec<&'a str> = Vec::new();
    let ghost less = |c: &'a str| text_lt(c@, s@);
    let mut i: usize = 0;
    proof {
        reveal(Seq::filter);
        assert(v@.take(0) =~= Seq::<&'a str>::empty());
    }
    while i < v.len()
        invariant
            i <= v.len(),
            less == |c: &'a str| text_lt(c@, s@),
            ls@ == v@.take(i as int).filter(less),
        decreases v.len() - i,
    {
        proof {
            reveal(Seq::filter);
            assert(v@.take(i + 1).drop_last() =~= v@.take(i as int));
            assert(v@.take(i + 1).last() == v@[i as int]);
        }
        if str_lt(v[i], s) {
            ls.push(v[i]);
        }
        i += 1;
    }
    proof {
        assert(v@.take(v@.len() as int) =~= v@);
    }
    ls
}

} // verus!
