//! The tracer's options as the command line gives them.

use vstd::prelude::*;
use crate::text::{clone_strings, texts};
use crate::trace::error::ConfigError;
use crate::trace::filter::{name_set, FilterModel, TraceOption};

verus! {

/// The parsed command line: which calls to show and what to run.
#[derive(Clone, Debug, PartialEq, Eq)]
pub struct Opt {
    /// Names of calls to leave out.
    pub dont_trace: Option<Vec<String>>,
    /// Names of the only calls to show.
    pub to_trace: Option<Vec<String>>,
    /// The program to run under trace.
    pub exe: String,
    /// The arguments to hand to it.
    pub exe_args: Vec<String>,
}

impl Opt {
    /// The filter that the two lists ask for, where they agree.
    pub open spec fn filter_model(self) -> FilterModel {
        match self.to_trace {
            Some(names) => FilterModel::Allow(name_set(names@)),
            None => match self.dont_trace {
                Some(names) => FilterModel::Deny(name_set(names@)),
                None => FilterModel::Deny(Set::empty()),
            },
        }
    }

    /// The filter that the options ask for. To name both calls to show
    /// and calls to leave out is an error; with neither, every call is
    /// shown.
    pub fn filter(&self) -> (made: Result<TraceOption, ConfigError>)
        ensures
            made is Err <==> self.to_trace is Some && self.dont_trace is Some,
            made matches Ok(filter) ==> filter@ == self.filter_model(),
    {
        let to_trace = match &self.to_trace {
            Some(names) => {
                let copy = clone_strings(names);
                proof {
                    lemma_name_set_of_texts(copy@, names@);
                }
                Some(copy)
            },
            None => None,
        };
        let dont_trace = match &self.dont_trace {
            Some(names) => {
                let copy = clone_strings(names);
                proof {
                    lemma_name_set_of_texts(copy@, names@);
                }
                Some(copy)
            },
            None => None,
        };
        TraceOption::new(to_trace, dont_trace)
    }

    /// The argument vector of the program: its own name first, then its
    /// arguments.
    pub fn argv(&self) -> (argv: Vec<String>)
        ensures
            texts(argv@) == seq![self.exe@] + texts(self.exe_args@),
    {
        let mut argv: Vec<String> = Vec::new();
        argv.push(self.exe.clone());
        let mut i: usize = 0;
        while i < self.exe_args.len()
            invariant
                i <= self.exe_args.len(),
                argv@.len() == i + 1,
                argv@[0]@ == self.exe@,
                forall|j: int| 0 <= j < i ==> argv@[j + 1]@ == self.exe_args@[j]@,
            decreases self.exe_args.len() - i,
        {
            argv.push(self.exe_args[i].clone());
            i += 1;
        }
        assert(texts(argv@) =~= seq![self.exe@] + texts(self.exe_args@));
        argv
    }
}

/// Lists that hold the same texts name the same set.
pub proof fn lemma_name_set_of_texts(a: Seq<String>, b: Seq<String>)
    requires
        texts(a) == texts(b),
    ensures
        name_set(a) == name_set(b),
{
    assert(a.len() == texts(a).len());
    assert(b.len() == texts(b).len());
    assert forall|name: Seq<char>| name_set(a).contains(name) <==> name_set(b).contains(name) by {
        if name_set(a).contains(name) {
            let i = choose|i: int| 0 <= i < a.len() && a[i]@ == name;
            assert(texts(a)[i] == a[i]@);
            assert(texts(b)[i] == b[i]@);
        }
        if name_set(b).contains(name) {
            let i = choose|i: int| 0 <= i < b.len() && b[i]@ == name;
            assert(texts(a)[i] == a[i]@);
            assert(texts(b)[i] == b[i]@);
        }
    }
    assert(name_set(a) =~= name_set(b));
}

} // verus!
