use vstd::prelude::*;
use crate::tipo::Type;

verus! {

/// One step of a structural path from the subject to a sub-value.
#[derive(Debug, PartialEq, Eq)]
pub enum Path {
    /// A component of a pair: 0 for the first, 1 for the second.
    Pair(usize),
    /// An element of a tuple.
    Tuple(usize),
    /// A field of a constructor of the given type.
    Constr(Type, usize),
    /// An element of a list.
    List(usize),
    /// What is left of a list after dropping that many elements.
    ListTail(usize),
}

impl Clone for Path {
    fn clone(&self) -> (step: Path)
        ensures
            step == *self,
    {
        match self {
            Path::Pair(i) => Path::Pair(*i),
            Path::Tuple(i) => Path::Tuple(*i),
            Path::Constr(tipo, i) => Path::Constr(tipo.clone(), *i),
            Path::List(i) => Path::List(*i),
            Path::ListTail(i) => Path::ListTail(*i),
        }
    }
}

/// What a decision tree tests at one of its nodes.
#[derive(Debug, Clone, PartialEq, Eq)]
pub enum CaseTest {
    Constr(usize),
    Int(String),
    Bytes(Vec<u8>),
    /// A list of exactly that many elements.
    List(usize),
    /// A list of at least that many elements.
    ListWithTail(usize),
    Wild,
}

impl CaseTest {
    /// Whether the test is on the length of a list.
    pub open spec fn is_list_case(&self) -> bool {
        self is List || self is ListWithTail
    }

    /// The number of elements that a list-length test counts.
    pub open spec fn list_count(&self) -> nat {
        match *self {
            CaseTest::List(i) => i as nat,
            CaseTest::ListWithTail(i) => i as nat,
            _ => 0,
        }
    }
}

} // verus!
