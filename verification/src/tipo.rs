use vstd::prelude::*;

verus! {

/// The semantic type of a value, as far as accessors need to know it.
#[derive(Debug, PartialEq, Eq)]
pub enum Type {
    Void,
    Bool,
    Int,
    ByteArray,
    String,
    Data,
    List(Box<Type>),
    Pair(Box<Type>, Box<Type>),
}

impl Type {
    /// The type of opaque data.
    pub fn data() -> (t: Type)
        ensures
            t == Type::Data,
    {
        Type::Data
    }

    /// The unit type.
    pub fn void() -> (t: Type)
        ensures
            t == Type::Void,
    {
        Type::Void
    }

    /// The type of lists whose elements have type `inner`.
    pub fn list(inner: Type) -> (t: Type)
        ensures
            t == Type::List(Box::new(inner)),
    {
        Type::List(Box::new(inner))
    }

    /// The type of pairs of a `fst` and a `snd`.
    pub fn pair(fst: Type, snd: Type) -> (t: Type)
        ensures
            t == Type::Pair(Box::new(fst), Box::new(snd)),
    {
        Type::Pair(Box::new(fst), Box::new(snd))
    }

    /// The result type of the accessors that hand back a list: list of data.
    pub open spec fn list_of_data() -> Type {
        Type::List(Box::new(Type::Data))
    }
}

impl Clone for Type {
    fn clone(&self) -> (t: Type)
        ensures
            t == *self,
        decreases *self,
    {
        match self {
            Type::Void => Type::Void,
            Type::Bool => Type::Bool,
            Type::Int => Type::Int,
            Type::ByteArray => Type::ByteArray,
            Type::String => Type::String,
            Type::Data => Type::Data,
            Type::List(inner) => {
                let inner_copy: Type = (**inner).clone();
                Type::List(Box::new(inner_copy))
            },
            Type::Pair(fst, snd) => {
                let fst_copy: Type = (**fst).clone();
                let snd_copy: Type = (**snd).clone();
                Type::Pair(Box::new(fst_copy), Box::new(snd_copy))
            },
        }
    }
}

} // verus!
