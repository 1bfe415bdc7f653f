//! What the finder makes of its options: the patterns to look for and the
//! directories to look in.

use regex::Regex;
use vstd::prelude::*;
use vstd::string::*;
use crate::find::pattern::{compile, regex_compiles, regex_source, source_of};
use crate::text::texts;

verus! {

/// The values that `items` holds, in order, the missing ones left out.
pub open spec fn present<T>(items: Seq<Option<T>>) -> Seq<T>
    decreases items.len(),
{
    if items.len() == 0 {
        Seq::empty()
    } else {
        let before = present(items.drop_last());
        match items.last() {
            Some(value) => before.push(value),
            None => before,
        }
    }
}

/// Whether none of `items` is missing.
pub open spec fn all_present<T>(items: Seq<Option<T>>) -> bool {
    forall|i: int| 0 <= i < items.len() ==> (#[trigger] items[i]) is Some
}

/// How many of `items` are missing.
pub open spec fn missing<T>(items: Seq<Option<T>>) -> nat {
    (items.len() - present(items).len()) as nat
}

/// As many values are present as there are items, at most.
pub proof fn lemma_present_len<T>(items: Seq<Option<T>>)
    ensures
        present(items).len() <= items.len(),
        present(items).len() == items.len() <==> all_present(items),
    decreases items.len(),
{
    if items.len() > 0 {
        let head = items.drop_last();
        lemma_present_len(head);
        if all_present(items) {
            assert forall|i: int| 0 <= i < head.len() implies (#[trigger] head[i]) is Some by {
                assert(head[i] == items[i]);
            }
            assert(items[items.len() - 1] is Some);
        }
        if present(items).len() == items.len() {
            assert(all_present(head));
            assert forall|i: int| 0 <= i < items.len() implies (#[trigger] items[i]) is Some by {
                if i < head.len() {
                    assert(head[i] == items[i]);
                }
            }
        }
    }
}

/// The values gathered from the items, and how many items were missing.
pub struct Gathered<T> {
    /// The values that were present, in order.
    pub values: Vec<T>,
    /// How many items were missing.
    pub skipped: usize,
}

/// Gathers the values of `items`, in order. A missing item is passed
/// over where `robust` is set, and makes the whole fail where it is not.
pub fn gather<T>(items: Vec<Option<T>>, robust: bool) -> (gathered: Option<Gathered<T>>)
    ensures
        gathered is Some <==> robust || all_present(items@),
        gathered matches Some(g) ==> g.values@ == present(items@) && g.skipped == missing(items@),
{
    let mut values: Vec<T> = Vec::new();
    let mut skipped: usize = 0;
    let ghost all = items@;
    let count = items.len();
    for item in it: items
        invariant
            it.seq() == all,
            all.len() == count,
            values@ == present(all.take(it.index() as int)),
            skipped == missing(all.take(it.index() as int)),
            !robust ==> all_present(all.take(it.index() as int)),
    {
        proof {
            assert(all.take(it.index() + 1).drop_last() =~= all.take(it.index() as int));
            assert(all.take(it.index() + 1).last() == item);
            lemma_present_len(all.take(it.index() as int));
            lemma_present_len(all.take(it.index() + 1));
        }
        match item {
            Some(value) => {
                values.push(value);
            },
            None => {
                if !robust {
                    proof {
                        assert(all[it.index() as int] is None);
                    }
                    return None;
                }
                skipped = skipped + 1;
            },
        }
    }
    proof {
        assert(all.take(all.len() as int) =~= all);
    }
    Some(Gathered { values, skipped })
}

/// The patterns that regular expressions were made from.
pub open spec fn sources(patterns: Seq<Regex>) -> Seq<Seq<char>> {
    Seq::new(patterns.len(), |i: int| regex_source(patterns[i]))
}

/// The patterns among `lines` that compile, in order, and after them
/// `extra` where it is given.
pub open spec fn wanted_patterns(lines: Seq<Seq<char>>, extra: Option<Seq<char>>) -> Seq<Seq<char>> {
    let compiling = lines.filter(|line: Seq<char>| regex_compiles(line));
    match extra {
        Some(pattern) => compiling.push(pattern),
        None => compiling,
    }
}

/// How many of `lines` do not compile.
pub open spec fn malformed_lines(lines: Seq<Seq<char>>) -> nat {
    (lines.len() - lines.filter(|line: Seq<char>| regex_compiles(line)).len()) as nat
}

/// Whether the patterns given make a search: every line compiles unless
/// `robust` is set, `extra` compiles if it is given, and at least one
/// pattern is left.
pub open spec fn patterns_accepted(
    lines: Seq<Seq<char>>,
    extra: Option<Seq<char>>,
    robust: bool,
) -> bool {
    &&& robust || forall|i: int| 0 <= i < lines.len() ==> regex_compiles(#[trigger] lines[i])
    &&& extra matches Some(pattern) ==> regex_compiles(pattern)
    &&& wanted_patterns(lines, extra).len() > 0
}

/// The text of an optional string.
pub open spec fn optional_text(s: Option<&String>) -> Option<Seq<char>> {
    match s {
        Some(s) => Some(s@),
        None => None,
    }
}

/// The compiled lines hold a regular expression where the line compiles.
spec fn compiled_from(compiled: Seq<Option<Regex>>, lines: Seq<Seq<char>>) -> bool {
    &&& compiled.len() == lines.len()
    &&& forall|i: int|
        0 <= i < lines.len() ==> ((#[trigger] compiled[i]) is Some <==> regex_compiles(lines[i]))
    &&& forall|i: int|
        0 <= i < lines.len() && (#[trigger] compiled[i]) is Some ==> regex_source(
            compiled[i]->Some_0,
        ) == lines[i]
}

proof fn lemma_compiled_sources(compiled: Seq<Option<Regex>>, lines: Seq<Seq<char>>)
    requires
        compiled_from(compiled, lines),
    ensures
        sources(present(compiled)) == lines.filter(|line: Seq<char>| regex_compiles(line)),
        all_present(compiled) <==> forall|i: int|
            0 <= i < lines.len() ==> regex_compiles(#[trigger] lines[i]),
    decreases lines.len(),
{
    reveal(Seq::filter);
    let compiles = |line: Seq<char>| regex_compiles(line);
    if lines.len() > 0 {
        let head_c = compiled.drop_last();
        let head_l = lines.drop_last();
        assert forall|i: int| 0 <= i < head_l.len() implies ((#[trigger] head_c[i]) is Some
            <==> regex_compiles(head_l[i])) by {
            assert(head_c[i] == compiled[i]);
        }
        assert forall|i: int| 0 <= i < head_l.len() && (#[trigger] head_c[i]) is Some implies regex_source(
            head_c[i]->Some_0,
        ) == head_l[i] by {
            assert(head_c[i] == compiled[i]);
        }
        lemma_compiled_sources(head_c, head_l);
        assert(compiled[compiled.len() - 1] == compiled.last());
        match compiled.last() {
            Some(re) => {
                assert(sources(present(compiled)) =~= sources(present(head_c)).push(
                    regex_source(re),
                ));
            },
            None => {},
        }
        if all_present(compiled) {
            assert forall|i: int| 0 <= i < lines.len() implies regex_compiles(
                #[trigger] lines[i],
            ) by {
                assert(compiled[i] is Some);
            }
        }
        if forall|i: int| 0 <= i < lines.len() ==> regex_compiles(#[trigger] lines[i]) {
            assert forall|i: int| 0 <= i < compiled.len() implies (#[trigger] compiled[i]) is Some by {
                assert(regex_compiles(lines[i]));
            }
        }
    } else {
        assert(sources(present(compiled)) =~= Seq::<Seq<char>>::empty());
    }
}

/// What the finder searches for.
pub struct Patterns {
    /// The regular expressions, in the order of their patterns.
    pub patterns: Vec<Regex>,
    /// How many lines were passed over because they do not compile.
    pub malformed: usize,
}

impl Patterns {
    /// The patterns that the regular expressions were made from, in order.
    pub fn sources(&self) -> (found: Vec<String>)
        ensures
            texts(found@) == sources(self.patterns@),
    {
        let mut found: Vec<String> = Vec::new();
        let mut i: usize = 0;
        while i < self.patterns.len()
            invariant
                i <= self.patterns.len(),
                found@.len() == i,
                forall|j: int| 0 <= j < i ==> found@[j]@ == regex_source(self.patterns@[j]),
            decreases self.patterns.len() - i,
        {
            found.push(String::from_str(source_of(&self.patterns[i])));
            i += 1;
        }
        assert(texts(found@) =~= sources(self.patterns@));
        found
    }
}

/// Compiles the patterns to search for: each of `lines`, then `extra`
/// if it is given. A line that does not compile is passed over where
/// `robust` is set and makes the whole fail where it is not; `extra` has
/// to compile in either case; and without any pattern there is nothing
/// to search for.
pub fn parse_patterns(lines: &Vec<String>, extra: Option<&String>, robust: bool) -> (parsed: Option<
    Patterns,
>)
    ensures
        parsed is Some <==> patterns_accepted(texts(lines@), optional_text(extra), robust),
        parsed matches Some(p) ==> {
            &&& sources(p.patterns@) == wanted_patterns(texts(lines@), optional_text(extra))
            &&& p.malformed == malformed_lines(texts(lines@))
        },
{
    let ghost all = texts(lines@);
    let mut compiled: Vec<Option<Regex>> = Vec::new();
    let mut i: usize = 0;
    while i < lines.len()
        invariant
            i <= lines.len(),
            all == texts(lines@),
            compiled_from(compiled@, all.take(i as int)),
        decreases lines.len() - i,
    {
        let made = match compile(lines[i].as_str()) {
            Ok(re) => Some(re),
            Err(_) => None,
        };
        compiled.push(made);
        i += 1;
    }
    proof {
        assert(all.take(lines@.len() as int) =~= all);
        lemma_compiled_sources(compiled@, all);
        lemma_present_len(compiled@);
        assert(sources(present(compiled@)).len() == present(compiled@).len());
    }
    let ghost results = compiled@;
    let gathered = match gather(compiled, robust) {
        Some(g) => g,
        None => {
            return None;
        },
    };
    let mut patterns = gathered.values;
    match extra {
        Some(pattern) => match compile(pattern.as_str()) {
            Ok(re) => {
                let ghost before = sources(patterns@);
                patterns.push(re);
                proof {
                    assert(sources(patterns@) =~= before.push(pattern@));
                }
            },
            Err(_) => {
                return None;
            },
        },
        None => {},
    }
    if patterns.len() == 0 {
        return None;
    }
    Some(Patterns { patterns, malformed: gathered.skipped })
}

/// The paths among `candidates` that are directories, in order; each
/// candidate is a path and whether it is a directory.
pub open spec fn directories(candidates: Seq<(String, bool)>) -> Seq<Seq<char>>
    decreases candidates.len(),
{
    if candidates.len() == 0 {
        Seq::empty()
    } else {
        let before = directories(candidates.drop_last());
        if candidates.last().1 {
            before.push(candidates.last().0@)
        } else {
            before
        }
    }
}

/// The directories to search: those among `lines`, in order, and after
/// them `extra` where it is given and is a directory.
pub open spec fn wanted_dirs(lines: Seq<(String, bool)>, extra: Option<(String, bool)>) -> Seq<
    Seq<char>,
> {
    match extra {
        Some(entry) => if entry.1 {
            directories(lines).push(entry.0@)
        } else {
            directories(lines)
        },
        None => directories(lines),
    }
}

/// Whether the directories given make a search: every line is a
/// directory unless `robust` is set, and at least one directory is left.
pub open spec fn dirs_accepted(
    lines: Seq<(String, bool)>,
    extra: Option<(String, bool)>,
    robust: bool,
) -> bool {
    &&& robust || forall|i: int| 0 <= i < lines.len() ==> (#[trigger] lines[i]).1
    &&& wanted_dirs(lines, extra).len() > 0
}

/// Where the finder searches.
pub struct Directories {
    /// The directories, in order.
    pub dirs: Vec<String>,
    /// How many lines were passed over because they name no directory.
    pub invalid: usize,
}

/// No more paths are directories than there are candidates.
pub proof fn lemma_directories_len(candidates: Seq<(String, bool)>)
    ensures
        directories(candidates).len() <= candidates.len(),
    decreases candidates.len(),
{
    if candidates.len() > 0 {
        lemma_directories_len(candidates.drop_last());
    }
}

/// Chooses the directories to search in. Each of `lines` and `extra`
/// is a path with the answer to whether it is a directory. A line that
/// is none is passed over where `robust` is set and makes the whole fail
/// where it is not; `extra` is passed over if it is none; and without
/// any directory there is nowhere to search.
pub fn parse_dirs(lines: &Vec<(String, bool)>, extra: Option<&(String, bool)>, robust: bool) -> (parsed:
    Option<Directories>)
    ensures
        parsed is Some <==> dirs_accepted(
            lines@,
            match extra {
                Some(e) => Some(*e),
                None => None,
            },
            robust,
        ),
        parsed matches Some(d) ==> {
            &&& texts(d.dirs@) == wanted_dirs(
                lines@,
                match extra {
                    Some(e) => Some(*e),
                    None => None,
                },
            )
            &&& d.invalid == lines@.len() - directories(lines@).len()
        },
{
    let mut dirs: Vec<String> = Vec::new();
    let mut invalid: usize = 0;
    let mut i: usize = 0;
    proof {
        assert(texts(dirs@) =~= Seq::<Seq<char>>::empty());
    }
    while i < lines.len()
        invariant
            i <= lines.len(),
            texts(dirs@) == directories(lines@.take(i as int)),
            invalid == i - directories(lines@.take(i as int)).len(),
            !robust ==> forall|j: int| 0 <= j < i ==> (#[trigger] lines@[j]).1,
        decreases lines.len() - i,
    {
        let ghost before = texts(dirs@);
        proof {
            assert(lines@.take(i + 1).drop_last() =~= lines@.take(i as int));
            assert(lines@.take(i + 1).last() == lines@[i as int]);
            lemma_directories_len(lines@.take(i as int));
        }
        if lines[i].1 {
            dirs.push(lines[i].0.clone());
            proof {
                assert(texts(dirs@) =~= before.push(lines@[i as int].0@));
            }
        } else if robust {
            invalid = invalid + 1;
        } else {
            return None;
        }
        i += 1;
    }
    proof {
        assert(lines@.take(lines@.len() as int) =~= lines@);
    }
    match extra {
        Some(entry) => {
            if entry.1 {
                let ghost before = texts(dirs@);
                dirs.push(entry.0.clone());
                proof {
                    assert(texts(dirs@) =~= before.push(entry.0@));
                }
            }
        },
        None => {},
    }
    if dirs.len() == 0 {
        return None;
    }
    Some(Directories { dirs, invalid })
}

} // verus!
