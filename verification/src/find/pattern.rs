//! Regular expressions and the paths that they match.

use regex::Regex;
use vstd::prelude::*;
use crate::text::texts;

verus! {

/// A compiled regular expression of the `regex` crate.
#[verifier::external_type_specification]
#[verifier::external_body]
pub struct ExRegex(Regex);

/// The error of the `regex` crate for a pattern that it cannot compile.
#[verifier::external_type_specification]
#[verifier::external_body]
pub struct ExRegexError(regex::Error);

/// Whether `Regex::new` compiles `pattern`.
pub uninterp spec fn regex_compiles(pattern: Seq<char>) -> bool;

/// What `Regex::as_str` gives for `re`: the pattern that it was made from.
pub uninterp spec fn regex_source(re: Regex) -> Seq<char>;

/// What `Regex::is_match` gives for `re` and `haystack`: whether the
/// regular expression matches anywhere in the text.
pub uninterp spec fn regex_is_match(re: Regex, haystack: Seq<char>) -> bool;

/// `Regex::new`: compiles `pattern` with the crate's default options, or
/// says why it cannot. The regular expression that comes out remembers
/// the pattern.
#[verifier::external_body]
pub(crate) fn compile(pattern: &str) -> (made: Result<Regex, regex::Error>)
    ensures
        made is Ok <==> regex_compiles(pattern@),
        made matches Ok(re) ==> regex_source(re) == pattern@,
{
    Regex::new(pattern)
}

/// `Regex::as_str`: the pattern that `re` was made from.
#[verifier::external_body]
pub(crate) fn source_of(re: &Regex) -> (pattern: &str)
    ensures
        pattern@ == regex_source(*re),
{
    re.as_str()
}

/// `Regex::is_match`: whether `re` matches anywhere in `haystack`.
#[verifier::external_body]
fn is_match(re: &Regex, haystack: &str) -> (found: bool)
    ensures
        found == regex_is_match(*re, haystack@),
{
    re.is_match(haystack)
}

/// The strings of `paths` at the places where `marks` says so, in order.
pub open spec fn marked(paths: Seq<Seq<char>>, marks: Seq<bool>) -> Seq<Seq<char>>
    decreases paths.len(),
{
    if paths.len() == 0 || marks.len() != paths.len() {
        Seq::empty()
    } else {
        let before = marked(paths.drop_last(), marks.drop_last());
        if marks.last() {
            before.push(paths.last())
        } else {
            before
        }
    }
}

/// For each of `paths`, whether `pattern` matches it.
pub open spec fn match_marks(paths: Seq<Seq<char>>, pattern: Regex) -> Seq<bool> {
    Seq::new(paths.len(), |i: int| regex_is_match(pattern, paths[i]))
}

/// The paths among `paths` that are marked, in order. `marks` holds one
/// mark for each path; where it does not, no path is kept.
pub fn keep_marked(paths: &Vec<String>, marks: &Vec<bool>) -> (kept: Vec<String>)
    ensures
        texts(kept@) == marked(texts(paths@), marks@),
{
    let mut kept: Vec<String> = Vec::new();
    let ghost all = texts(paths@);
    let mut i: usize = 0;
    proof {
        assert(texts(kept@) =~= Seq::<Seq<char>>::empty());
    }
    if marks.len() != paths.len() {
        return kept;
    }
    while i < paths.len()
        invariant
            i <= paths.len(),
            marks@.len() == paths@.len(),
            all == texts(paths@),
            texts(kept@) == marked(all.take(i as int), marks@.take(i as int)),
        decreases paths.len() - i,
    {
        let ghost before = texts(kept@);
        proof {
            assert(all.take(i + 1).drop_last() =~= all.take(i as int));
            assert(marks@.take(i + 1).drop_last() =~= marks@.take(i as int));
            assert(all.take(i + 1).last() == paths@[i as int]@);
        }
        if marks[i] {
            kept.push(paths[i].clone());
            proof {
                assert(texts(kept@) =~= before.push(paths@[i as int]@));
            }
        }
        i += 1;
    }
    proof {
        assert(all.take(paths@.len() as int) =~= all);
        assert(marks@.take(paths@.len() as int) =~= marks@);
    }
    kept
}

/// The paths among `paths` that `pattern` matches, in order.
pub fn get_matches(paths: &Vec<String>, pattern: &Regex) -> (found: Vec<String>)
    ensures
        texts(found@) == marked(texts(paths@), match_marks(texts(paths@), *pattern)),
{
    let mut marks: Vec<bool> = Vec::new();
    let mut i: usize = 0;
    while i < paths.len()
        invariant
            i <= paths.len(),
            marks@.len() == i,
            forall|j: int| 0 <= j < i ==> marks@[j] == regex_is_match(*pattern, paths@[j]@),
        decreases paths.len() - i,
    {
        marks.push(is_match(pattern, paths[i].as_str()));
        i += 1;
    }
    proof {
        assert(marks@ =~= match_marks(texts(paths@), *pattern));
    }
    keep_marked(paths, &marks)
}

} // verus!
