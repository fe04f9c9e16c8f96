//! Functions that the host program registers on a connection, by name and
//! number of arguments; -1 takes any number.

use vstd::prelude::*;
use vstd::string::StringExecFns;
use crate::error::{Error, Fault, Result};
use crate::text::{dec_int, push_dec_int};
use crate::utf8::same_text;

verus! {

/// What kind of function it is.
#[derive(Debug, Clone, Copy, PartialEq, Eq, Structural)]
pub enum HostKind {
    Scalar,
    Aggregate,
}

/// The registered names of one kind. The functions themselves are kept by
/// the caller, in the same order.
#[derive(Debug)]
pub struct HostNames {
    names: Vec<(String, i32)>,
}

/// The place of the first entry of that name and number of arguments from
/// `i` on.
pub open spec fn host_at(names: Seq<(String, i32)>, name: Seq<char>, n: int, i: int) -> Option<int>
    decreases names.len() - i,
{
    if i < 0 || i >= names.len() {
        None
    } else if names[i].0@ == name && names[i].1 == n {
        Some(i)
    } else {
        host_at(names, name, n, i + 1)
    }
}

/// The entry that a call means: the one with its number of arguments, else
/// the one that takes any number.
pub open spec fn host_called(names: Seq<(String, i32)>, name: Seq<char>, argc: int) -> Option<int> {
    match host_at(names, name, argc, 0) {
        Some(i) => Some(i),
        None => host_at(names, name, -1, 0),
    }
}

pub open spec fn kind_text(kind: HostKind) -> Seq<char> {
    match kind {
        HostKind::Scalar => "host function "@,
        HostKind::Aggregate => "host aggregate "@,
    }
}

fn kind_label(kind: HostKind) -> (s: &'static str)
    ensures
        s@ == kind_text(kind),
{
    match kind {
        HostKind::Scalar => "host function ",
        HostKind::Aggregate => "host aggregate ",
    }
}

impl HostNames {
    /// The registered names with their numbers of arguments.
    pub closed spec fn listed(&self) -> Seq<(String, i32)> {
        self.names@
    }

    /// No two entries have one name and number of arguments.
    pub open spec fn wf(&self) -> bool {
        forall|i: int, j: int|
            0 <= i < j < self.listed().len() ==> !((#[trigger] self.listed()[i]).0@ == (#[trigger] self.listed()[j]).0@ && self.listed()[i].1
                == self.listed()[j].1)
    }

    /// Nothing registered.
    pub fn new() -> (h: HostNames)
        ensures
            h.wf(),
            h.listed().len() == 0,
    {
        HostNames { names: Vec::new() }
    }

    fn find(&self, name: &str, n: i32) -> (r: Option<usize>)
        ensures
            match r {
                Some(i) => i < self.listed().len() && host_at(self.listed(), name@, n as int, 0) == Some(i as int),
                None => host_at(self.listed(), name@, n as int, 0) is None,
            },
    {
        let mut i: usize = 0;
        while i < self.names.len()
            invariant
                i <= self.listed().len(),
                host_at(self.listed(), name@, n as int, 0) == host_at(self.listed(), name@, n as int, i as int),
            decreases self.listed().len() - i,
        {
            if self.names[i].1 == n && same_text(self.names[i].0.as_str(), name) {
                return Some(i);
            }
            i += 1;
        }
        None
    }

    /// Register a function. Gives its place; one registered before under the
    /// same name and number of arguments is replaced there.
    pub fn register(&mut self, name: String, n_arg: i32) -> (at: usize)
        requires
            old(self).wf(),
        ensures
            final(self).wf(),
            match host_at(old(self).listed(), name@, n_arg as int, 0) {
                Some(i) => at == i && *final(self) == *old(self),
                None => at == old(self).listed().len() && final(self).listed() == old(self).listed().push((name, n_arg)),
            },
    {
        match self.find(name.as_str(), n_arg) {
            Some(i) => i,
            None => {
                let at: usize = self.names.len();
                let ghost before = self.listed();
                let ghost label = name@;
                self.names.push((name, n_arg));
                proof {
                    assert forall|i: int, j: int| 0 <= i < j < self.listed().len() implies !((#[trigger] self.listed()[i]).0@ == (
                    #[trigger] self.listed()[j]).0@ && self.listed()[i].1 == self.listed()[j].1) by {
                        lemma_host_absent(before, label, n_arg as int, 0, i);
                    }
                }
                at
            },
        }
    }

    /// Remove a function. Gives the place that it had.
    pub fn unregister(&mut self, name: &str, n_arg: i32) -> (at: Option<usize>)
        requires
            old(self).wf(),
        ensures
            final(self).wf(),
            match at {
                Some(i) => host_at(old(self).listed(), name@, n_arg as int, 0) == Some(i as int) && i < old(self).listed().len()
                    && final(self).listed() == old(self).listed().remove(i as int),
                None => host_at(old(self).listed(), name@, n_arg as int, 0) is None && *final(self) == *old(self),
            },
    {
        match self.find(name, n_arg) {
            Some(i) => {
                self.names.remove(i);
                Some(i)
            },
            None => None,
        }
    }

    /// The function that a call means.
    pub fn resolve(&self, kind: HostKind, name: &str, argc: i32) -> (r: Result<usize>)
        ensures
            match r {
                Ok(i) => i < self.listed().len() && host_called(self.listed(), name@, argc as int) == Some(i as int),
                Err(e) => host_called(self.listed(), name@, argc as int) is None && e@ == Fault::Unsupported(
                    kind_text(kind) + name@ + "/"@ + dec_int(argc as int) + " is not registered"@,
                ),
            },
    {
        match self.find(name, argc) {
            Some(i) => Ok(i),
            None => match self.find(name, -1) {
                Some(i) => Ok(i),
                None => {
                    let mut m = String::from_str(kind_label(kind));
                    m.append(name);
                    m.append("/");
                    push_dec_int(&mut m, argc as i64);
                    m.append(" is not registered");
                    Err(Error::Unsupported(m))
                },
            },
        }
    }
}

/// A call of host code that panicked is an ordinary error of its statement.
pub fn panicked(what: &str, message: Option<&str>) -> (e: Error)
    ensures
        e@ == Fault::Unsupported(
            what@ + " panicked: "@ + match message {
                Some(m) => m@,
                None => "panic"@,
            },
        ),
{
    let mut m = String::from_str(what);
    m.append(" panicked: ");
    match message {
        Some(s) => {
            m.append(s);
        },
        None => {
            m.append("panic");
        },
    }
    Error::Unsupported(m)
}

proof fn lemma_host_absent(names: Seq<(String, i32)>, name: Seq<char>, n: int, from: int, i: int)
    requires
        host_at(names, name, n, from) is None,
        0 <= from <= i < names.len(),
    ensures
        !(names[i].0@ == name && names[i].1 == n),
    decreases i - from,
{
    if from < i {
        lemma_host_absent(names, name, n, from + 1, i);
    }
}

proof fn lemma_host_pushed(names: Seq<(String, i32)>, e: (String, i32), from: int)
    requires
        0 <= from <= names.len(),
        host_at(names, e.0@, e.1 as int, from) is None,
    ensures
        host_at(names.push(e), e.0@, e.1 as int, from) == Some(names.len() as int),
    decreases names.len() - from,
{
    if from < names.len() {
        lemma_host_pushed(names, e, from + 1);
    }
}

/// A registered function is the one that a call with its number of arguments
/// means, whatever else is registered under the name.
pub proof fn law_exact_arity_wins(names: Seq<(String, i32)>, e: (String, i32))
    requires
        host_at(names, e.0@, e.1 as int, 0) is None,
    ensures
        host_called(names.push(e), e.0@, e.1 as int) == Some(names.len() as int),
{
    lemma_host_pushed(names, e, 0);
}

/// A function that takes any number of arguments answers every call that no
/// exact one does.
pub proof fn law_variadic_is_fallback(names: Seq<(String, i32)>, name: Seq<char>, argc: int)
    requires
        host_at(names, name, -1, 0) is Some,
    ensures
        host_called(names, name, argc) is Some,
        host_at(names, name, argc, 0) is None ==> host_called(names, name, argc) == host_at(names, name, -1, 0),
{
}

/// A name and a number of arguments find what was registered under both, and
/// find it wherever it is.
pub proof fn law_host_found(names: Seq<(String, i32)>, name: Seq<char>, n: int, from: int)
    requires
        0 <= from <= names.len(),
    ensures
        match host_at(names, name, n, from) {
            Some(i) => from <= i < names.len() && names[i].0@ == name && names[i].1 == n && forall|j: int|
                from <= j < i ==> !((#[trigger] names[j]).0@ == name && names[j].1 == n),
            None => forall|j: int| from <= j < names.len() ==> !((#[trigger] names[j]).0@ == name && names[j].1 == n),
        },
    decreases names.len() - from,
{
    if from < names.len() {
        law_host_found(names, name, n, from + 1);
    }
}

/// A call means what was registered under its name for its number of arguments;
/// failing that, what was registered for any number; else nothing.
pub proof fn law_call_means(names: Seq<(String, i32)>, name: Seq<char>, argc: int)
    ensures
        match host_called(names, name, argc) {
            Some(i) => 0 <= i < names.len() && names[i].0@ == name && (names[i].1 == argc || (names[i].1 == -1 && forall|j: int|
                0 <= j < names.len() ==> !((#[trigger] names[j]).0@ == name && names[j].1 == argc))),
            None => forall|j: int| 0 <= j < names.len() ==> !((#[trigger] names[j]).0@ == name && (names[j].1 == argc || names[j].1 == -1)),
        },
{
    law_host_found(names, name, argc, 0);
    law_host_found(names, name, -1, 0);
}

} // verus!
