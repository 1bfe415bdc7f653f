//! Which calls the trace shows.

use vstd::prelude::*;
use crate::text::str_eq;
use crate::trace::error::ConfigError;

verus! {

/// The choice of calls to show, by name: all but some, or only some.
#[derive(Clone, Debug, PartialEq, Eq)]
pub enum TraceOption {
    /// Calls with these names are left out; all others are shown.
    Ignore(Vec<String>),
    /// Only calls with these names are shown.
    Trace(Vec<String>),
}

/// A filter as a set of names and the side of it that is shown.
pub enum FilterModel {
    /// Shown are the calls whose name is in the set.
    Allow(Set<Seq<char>>),
    /// Shown are the calls whose name is not in the set.
    Deny(Set<Seq<char>>),
}

impl FilterModel {
    /// Whether a call named `name` is shown.
    pub open spec fn admits(self, name: Seq<char>) -> bool {
        match self {
            FilterModel::Allow(names) => names.contains(name),
            FilterModel::Deny(names) => !names.contains(name),
        }
    }
}

/// The names that a list holds, as a set.
pub open spec fn name_set(names: Seq<String>) -> Set<Seq<char>> {
    Set::new(|name: Seq<char>| exists|i: int| 0 <= i < names.len() && names[i]@ == name)
}

impl View for TraceOption {
    type V = FilterModel;

    open spec fn view(&self) -> FilterModel {
        match self {
            TraceOption::Ignore(names) => FilterModel::Deny(name_set(names@)),
            TraceOption::Trace(names) => FilterModel::Allow(name_set(names@)),
        }
    }
}

fn holds_name(names: &Vec<String>, name: &str) -> (found: bool)
    ensures
        found == name_set(names@).contains(name@),
{
    let mut i: usize = 0;
    while i < names.len()
        invariant
            i <= names.len(),
            forall|j: int| 0 <= j < i ==> names[j]@ != name@,
        decreases names.len() - i,
    {
        if str_eq(names[i].as_str(), name) {
            return true;
        }
        i += 1;
    }
    false
}

impl TraceOption {
    /// The filter that shows every call.
    pub fn all() -> (filter: TraceOption)
        ensures
            filter@ == FilterModel::Deny(Set::<Seq<char>>::empty()),
            forall|name: Seq<char>| filter@.admits(name),
    {
        let filter = TraceOption::Ignore(Vec::new());
        assert(name_set(Seq::<String>::empty()) =~= Set::<Seq<char>>::empty());
        filter
    }

    /// Makes the filter from the two lists that a user may give. Both at
    /// once is an error; with neither, every call is shown.
    pub fn new(to_trace: Option<Vec<String>>, dont_trace: Option<Vec<String>>) -> (made: Result<
        TraceOption,
        ConfigError,
    >)
        ensures
            made is Err <==> to_trace is Some && dont_trace is Some,
            made is Ok && to_trace is Some ==> made->Ok_0@ == FilterModel::Allow(
                name_set(to_trace->Some_0@),
            ),
            made is Ok && dont_trace is Some ==> made->Ok_0@ == FilterModel::Deny(
                name_set(dont_trace->Some_0@),
            ),
            to_trace is None && dont_trace is None ==> made->Ok_0@ == FilterModel::Deny(
                Set::<Seq<char>>::empty(),
            ),
    {
        match (to_trace, dont_trace) {
            (Some(_), Some(_)) => Err(ConfigError),
            (Some(names), None) => Ok(TraceOption::Trace(names)),
            (None, Some(names)) => Ok(TraceOption::Ignore(names)),
            (None, None) => Ok(TraceOption::all()),
        }
    }

    /// Whether a call named `name` is shown.
    pub fn admits(&self, name: &str) -> (shown: bool)
        ensures
            shown == self@.admits(name@),
    {
        match self {
            TraceOption::Ignore(names) => !holds_name(names, name),
            TraceOption::Trace(names) => holds_name(names, name),
        }
    }
}

} // verus!
