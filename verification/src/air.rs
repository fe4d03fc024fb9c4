use vstd::prelude::*;
use crate::tipo::Type;

verus! {

/// The primitive functions of the target machine that accessors call.
#[derive(Debug, Clone, Copy, PartialEq, Eq, Structural)]
pub enum BuiltinFn {
    HeadList,
    TailList,
    FstPair,
    SndPair,
}

/// An expression of the intermediate representation.
#[derive(Debug, PartialEq, Eq)]
pub enum AirTree {
    /// A reference to a bound variable.
    LocalVar { name: String, tipo: Type },
    /// A primitive function applied to one argument.
    Builtin { func: BuiltinFn, tipo: Type, arg: Box<AirTree> },
    /// A function applied to one argument.
    Call { func: Box<AirTree>, tipo: Type, arg: Box<AirTree> },
    /// `let name = value in body`.
    Let { name: String, value: Box<AirTree>, body: Box<AirTree> },
}

/// What an expression is, with names as sequences of characters.
pub enum AirModel {
    LocalVar { name: Seq<char>, tipo: Type },
    Builtin { func: BuiltinFn, tipo: Type, arg: Box<AirModel> },
    Call { func: Box<AirModel>, tipo: Type, arg: Box<AirModel> },
    Let { name: Seq<char>, value: Box<AirModel>, body: Box<AirModel> },
}

impl View for AirTree {
    type V = AirModel;

    open spec fn view(&self) -> AirModel
        decreases *self,
    {
        match *self {
            AirTree::LocalVar { name, tipo } => AirModel::LocalVar { name: name@, tipo },
            AirTree::Builtin { func, tipo, arg } => AirModel::Builtin {
                func,
                tipo,
                arg: Box::new((*arg)@),
            },
            AirTree::Call { func, tipo, arg } => AirModel::Call {
                func: Box::new((*func)@),
                tipo,
                arg: Box::new((*arg)@),
            },
            AirTree::Let { name, value, body } => AirModel::Let {
                name: name@,
                value: Box::new((*value)@),
                body: Box::new((*body)@),
            },
        }
    }
}

impl Clone for AirTree {
    fn clone(&self) -> (tree: AirTree)
        ensures
            tree == *self,
        decreases *self,
    {
        match self {
            AirTree::LocalVar { name, tipo } => AirTree::LocalVar {
                name: name.clone(),
                tipo: tipo.clone(),
            },
            AirTree::Builtin { func, tipo, arg } => {
                let arg_copy: AirTree = (**arg).clone();
                AirTree::Builtin { func: *func, tipo: tipo.clone(), arg: Box::new(arg_copy) }
            },
            AirTree::Call { func, tipo, arg } => {
                let func_copy: AirTree = (**func).clone();
                let arg_copy: AirTree = (**arg).clone();
                AirTree::Call {
                    func: Box::new(func_copy),
                    tipo: tipo.clone(),
                    arg: Box::new(arg_copy),
                }
            },
            AirTree::Let { name, value, body } => {
                let value_copy: AirTree = (**value).clone();
                let body_copy: AirTree = (**body).clone();
                AirTree::Let {
                    name: name.clone(),
                    value: Box::new(value_copy),
                    body: Box::new(body_copy),
                }
            },
        }
    }
}

impl AirTree {
    /// A reference to the variable `name` of type `tipo`.
    pub fn local_var(name: String, tipo: Type) -> (tree: AirTree)
        ensures
            tree@ == (AirModel::LocalVar { name: name@, tipo }),
    {
        AirTree::LocalVar { name, tipo }
    }

    /// The primitive `func`, with result type `tipo`, applied to `arg`.
    pub fn builtin(func: BuiltinFn, tipo: Type, arg: AirTree) -> (tree: AirTree)
        ensures
            tree@ == (AirModel::Builtin { func, tipo, arg: Box::new(arg@) }),
    {
        AirTree::Builtin { func, tipo, arg: Box::new(arg) }
    }

    /// The function `func`, with result type `tipo`, applied to `arg`.
    pub fn call(func: AirTree, tipo: Type, arg: AirTree) -> (tree: AirTree)
        ensures
            tree@ == (AirModel::Call { func: Box::new(func@), tipo, arg: Box::new(arg@) }),
    {
        AirTree::Call { func: Box::new(func), tipo, arg: Box::new(arg) }
    }

    /// The binding of `name` to `value` around `body`.
    pub fn let_assignment(name: String, value: AirTree, body: AirTree) -> (tree: AirTree)
        ensures
            tree@ == (AirModel::Let {
                name: name@,
                value: Box::new(value@),
                body: Box::new(body@),
            }),
    {
        AirTree::Let { name, value: Box::new(value), body: Box::new(body) }
    }
}

/// The name under which the helper that exposes a constructor's fields is
/// registered.
pub open spec fn constr_fields_exposer_name() -> Seq<char> {
    "__constr_fields_exposer"@
}

/// `names` with `name` registered: appended, unless it is there already.
pub open spec fn registered(names: Seq<Seq<char>>, name: Seq<char>) -> Seq<Seq<char>> {
    if names.contains(name) {
        names
    } else {
        names.push(name)
    }
}

/// The registry of the helper functions that generated code refers to.
#[derive(Debug, Clone)]
pub struct CodeGenSpecialFuncs {
    pub used_funcs: Vec<String>,
}

impl CodeGenSpecialFuncs {
    /// The names registered so far, in the order in which they came.
    pub open spec fn names(&self) -> Seq<Seq<char>> {
        Seq::new(self.used_funcs@.len(), |i: int| self.used_funcs@[i]@)
    }

    /// A registry without any name.
    pub fn new() -> (funcs: CodeGenSpecialFuncs)
        ensures
            funcs.names() == Seq::<Seq<char>>::empty(),
    {
        let funcs = CodeGenSpecialFuncs { used_funcs: Vec::new() };
        assert(funcs.names() =~= Seq::<Seq<char>>::empty());
        funcs
    }

    /// Whether `func_name` is registered.
    pub fn is_used(&self, func_name: &String) -> (found: bool)
        ensures
            found == self.names().contains(func_name@),
    {
        let mut i: usize = 0;
        while i < self.used_funcs.len()
            invariant
                i <= self.used_funcs@.len(),
                forall|j: int| 0 <= j < i ==> self.names()[j] != func_name@,
            decreases self.used_funcs@.len() - i,
        {
            if self.used_funcs[i] == *func_name {
                assert(self.names()[i as int] == func_name@);
                return true;
            }
            i += 1;
        }
        false
    }

    /// Registers `func_name` and hands back a reference to the helper.
    pub fn use_function_tree(&mut self, func_name: String) -> (tree: AirTree)
        ensures
            final(self).names() == registered(old(self).names(), func_name@),
            tree@ == (AirModel::LocalVar { name: func_name@, tipo: Type::Void }),
    {
        if !self.is_used(&func_name) {
            self.used_funcs.push(func_name.clone());
            assert(self.names() =~= old(self).names().push(func_name@));
        }
        AirTree::local_var(func_name, Type::void())
    }
}

/// The name of the helper that exposes a constructor's fields, as
/// `uplc::builder::CONSTR_FIELDS_EXPOSER` holds it: the constant's text,
/// unchanged.
#[verifier::external_body]
pub(crate) fn constr_fields_exposer() -> (name: String)
    ensures
        name@ == constr_fields_exposer_name(),
{
    uplc::builder::CONSTR_FIELDS_EXPOSER.to_string()
}

} // verus!
