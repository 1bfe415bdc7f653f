//! Walking a directory tree: which directory to list next and which
//! files have been found, in the order of a walk that goes into each
//! directory where it meets it.

use std::collections::VecDeque;
use vstd::prelude::*;
use crate::text::texts;

verus! {

/// The entries as plain values: each a path and whether it is a directory.
pub open spec fn entry_views(entries: Seq<(String, bool)>) -> Seq<(Seq<char>, bool)> {
    Seq::new(entries.len(), |i: int| (entries[i].0@, entries[i].1))
}

/// A walk as plain values.
pub struct WalkModel {
    /// The entries still to visit, the next one first.
    pub pending: Seq<(Seq<char>, bool)>,
    /// The files found so far, in order.
    pub files: Seq<Seq<char>>,
    /// The directory whose entries were asked for, until they are given.
    pub listing: Option<Seq<char>>,
}

/// How many entries at the front of `pending` are files.
pub open spec fn leading_files(pending: Seq<(Seq<char>, bool)>) -> nat
    decreases pending.len(),
{
    if pending.len() > 0 && !pending[0].1 {
        1 + leading_files(pending.drop_first())
    } else {
        0
    }
}

/// The paths of the entries.
pub open spec fn paths(entries: Seq<(Seq<char>, bool)>) -> Seq<Seq<char>> {
    Seq::new(entries.len(), |i: int| entries[i].0)
}

impl WalkModel {
    /// The walk that begins with the entries of the directory to search.
    pub open spec fn start(entries: Seq<(Seq<char>, bool)>) -> WalkModel {
        WalkModel { pending: entries, files: Seq::empty(), listing: None }
    }

    /// The walk after it has gone on to the next directory: the files
    /// before that directory are found, and the directory is the one to
    /// list. Where no directory is left, all that was pending is found.
    /// A walk that waits for a listing stays as it is.
    pub open spec fn advanced(self) -> WalkModel {
        if self.listing is Some {
            self
        } else {
            let n = leading_files(self.pending) as int;
            let files = self.files + paths(self.pending.take(n));
            if n < self.pending.len() {
                WalkModel {
                    pending: self.pending.skip(n + 1),
                    files,
                    listing: Some(self.pending[n].0),
                }
            } else {
                WalkModel { pending: Seq::empty(), files, listing: None }
            }
        }
    }

    /// The walk after the entries of the directory asked for were given:
    /// they are visited before what was pending.
    pub open spec fn supplied(self, entries: Seq<(Seq<char>, bool)>) -> WalkModel {
        WalkModel { pending: entries + self.pending, listing: None, ..self }
    }

    /// Whether the walk is over: nothing is pending or asked for.
    pub open spec fn done(self) -> bool {
        self.pending.len() == 0 && self.listing is None
    }
}

/// A walk over a directory tree. It is given the entries of each
/// directory it asks for and collects the files; it never reads a
/// directory itself.
pub struct Walker {
    pending: VecDeque<(String, bool)>,
    files: Vec<String>,
    listing: Option<String>,
}

impl View for Walker {
    type V = WalkModel;

    closed spec fn view(&self) -> WalkModel {
        WalkModel {
            pending: entry_views(self.pending@),
            files: texts(self.files@),
            listing: match self.listing {
                Some(path) => Some(path@),
                None => None,
            },
        }
    }
}

/// A sequence whose first `n` entries are files and whose next one, if
/// there is one, is a directory begins with just `n` files.
pub proof fn lemma_leading_files(pending: Seq<(Seq<char>, bool)>, n: int)
    requires
        0 <= n <= pending.len(),
        forall|j: int| 0 <= j < n ==> !(#[trigger] pending[j]).1,
        n < pending.len() ==> pending[n].1,
    ensures
        leading_files(pending) == n,
    decreases n,
{
    if n > 0 {
        assert(!pending[0].1);
        let rest = pending.drop_first();
        assert forall|j: int| 0 <= j < n - 1 implies !(#[trigger] rest[j]).1 by {
            assert(rest[j] == pending[j + 1]);
        }
        lemma_leading_files(rest, n - 1);
    }
}

impl Walker {
    /// The walk that begins with `entries`, the entries of the directory
    /// to search, in the order of its listing.
    pub fn new(entries: Vec<(String, bool)>) -> (walker: Walker)
        ensures
            walker@ == WalkModel::start(entry_views(entries@)),
    {
        let mut walker = Walker { pending: VecDeque::new(), files: Vec::new(), listing: None };
        proof {
            assert(walker@.files =~= Seq::<Seq<char>>::empty());
            assert(walker@.pending =~= Seq::<(Seq<char>, bool)>::empty());
        }
        walker.supply(entries);
        proof {
            assert(entry_views(entries@) + Seq::<(Seq<char>, bool)>::empty() =~= entry_views(
                entries@,
            ));
        }
        walker
    }

    /// Goes on to the next directory and gives its path: the directory
    /// to list and to hand to [`Walker::supply`]. `None` once nothing is
    /// left to visit, and so in a walk that waits for a listing.
    pub fn next(&mut self) -> (directory: Option<String>)
        ensures
            final(self)@ == old(self)@.advanced(),
            match directory {
                Some(path) => old(self)@.listing is None && final(self)@.listing == Some(path@),
                None => old(self)@.listing is Some || final(self)@.done(),
            },
    {
        if self.listing.is_some() {
            return None;
        }
        let ghost start = self@;
        let ghost mut taken: int = 0;
        proof {
            assert(start.pending.skip(0) =~= start.pending);
            assert(start.files + paths(start.pending.take(0)) =~= start.files);
        }
        loop
            invariant
                self.listing is None,
                0 <= taken <= start.pending.len(),
                forall|j: int| 0 <= j < taken ==> !(#[trigger] start.pending[j]).1,
                self@.pending == start.pending.skip(taken),
                self@.files == start.files + paths(start.pending.take(taken)),
                start.listing is None,
                start == old(self)@,
            decreases start.pending.len() - taken,
        {
            let ghost before = self@;
            let ghost queue = self.pending@;
            match self.pending.pop_front() {
                None => {
                    proof {
                        assert(before.pending.len() == queue.len());
                        assert(start.pending.skip(taken).len() == 0);
                        lemma_leading_files(start.pending, taken);
                        assert(start.pending.take(taken) =~= start.pending);
                        assert(self@.pending =~= Seq::<(Seq<char>, bool)>::empty());
                    }
                    return None;
                },
                Some(entry) => {
                    proof {
                        assert(before.pending.len() == queue.len());
                        assert(before.pending[0] == (entry.0@, entry.1));
                        assert(start.pending.skip(taken)[0] == start.pending[taken]);
                        assert(entry_views(self.pending@) =~= before.pending.skip(1));
                        assert(before.pending.skip(1) =~= start.pending.skip(taken + 1));
                    }
                    if entry.1 {
                        proof {
                            lemma_leading_files(start.pending, taken);
                        }
                        self.listing = Some(entry.0.clone());
                        return Some(entry.0);
                    }
                    let ghost found = texts(self.files@);
                    self.files.push(entry.0);
                    proof {
                        assert(texts(self.files@) =~= found.push(entry.0@));
                        assert(paths(start.pending.take(taken + 1)) =~= paths(
                            start.pending.take(taken),
                        ).push(entry.0@));
                        assert(self@.files =~= start.files + paths(
                            start.pending.take(taken + 1),
                        ));
                    }
                    proof {
                        taken = taken + 1;
                    }
                },
            }
        }
    }

    /// Takes the entries of the directory that was asked for, in the
    /// order of its listing: they are visited before what was pending.
    pub fn supply(&mut self, entries: Vec<(String, bool)>)
        ensures
            final(self)@ == old(self)@.supplied(entry_views(entries@)),
    {
        let ghost given = entry_views(entries@);
        let ghost start = self@;
        let mut rest = entries;
        self.listing = None;
        proof {
            assert(given.take(given.len() as int) =~= given);
        }
        proof {
            assert(given.skip(given.len() as int) + start.pending =~= start.pending);
        }
        loop
            invariant
                rest@.len() <= given.len(),
                start == old(self)@,
                given == entry_views(entries@),
                entry_views(rest@) == given.take(rest@.len() as int),
                self@.pending == given.skip(rest@.len() as int) + start.pending,
                self@.files == start.files,
                self.listing is None,
            decreases rest@.len(),
        {
            let ghost left = rest@;
            let ghost queue = self.pending@;
            match rest.pop() {
                Some(entry) => {
                    self.pending.push_front(entry);
                    proof {
                        let k = rest@.len() as int;
                        assert(left.len() == k + 1);
                        assert(entry == left[k]);
                        assert(entry_views(left)[k] == given.take(k + 1)[k]);
                        assert(given[k] == (entry.0@, entry.1));
                        assert(entry_views(rest@) =~= given.take(k));
                        assert(entry_views(self.pending@) =~= seq![(entry.0@, entry.1)]
                            + entry_views(queue));
                        assert(given.skip(k) =~= seq![given[k]] + given.skip(k + 1));
                        assert(self@.pending =~= given.skip(k) + start.pending);
                    }
                },
                None => {
                    proof {
                        assert(given.skip(0) =~= given);
                    }
                    return ;
                },
            }
        }
    }

    /// The files found so far, in the order of the walk.
    pub fn files(&self) -> (found: &Vec<String>)
        ensures
            texts(found@) == self@.files,
    {
        &self.files
    }

    /// The files found, in the order of the walk.
    pub fn into_files(self) -> (found: Vec<String>)
        ensures
            texts(found@) == self@.files,
    {
        self.files
    }
}

} // verus!
