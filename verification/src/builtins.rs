use vstd::prelude::*;
use vstd::std_specs::cmp::PartialEqSpecImpl;
use vstd::string::StringExecFns;
use itertools::Itertools;
use crate::air::{
    constr_fields_exposer, constr_fields_exposer_name, registered, AirModel, AirTree, BuiltinFn,
    CodeGenSpecialFuncs,
};
use crate::path::{CaseTest, Path};
use crate::tipo::Type;

verus! {

/// One primitive accessor of the target machine.
#[derive(Debug)]
pub enum Builtin {
    /// The first element of a list, of the type carried.
    HeadList(Type),
    /// A list without its first element.
    TailList,
    /// The fields of a constructor, as a list.
    UnConstrFields,
    /// The first component of a pair, of the type carried.
    FstPair(Type),
    /// The second component of a pair, of the type carried.
    SndPair(Type),
}

/// Whether two accessors count as the same for sharing: they are of the same
/// kind, whatever type they carry, and that kind is not `FstPair`.
pub open spec fn same_op(a: Builtin, b: Builtin) -> bool {
    ||| (a is HeadList && b is HeadList)
    ||| (a is TailList && b is TailList)
    ||| (a is UnConstrFields && b is UnConstrFields)
    ||| (a is SndPair && b is SndPair)
}

impl PartialEq for Builtin {
    fn eq(&self, other: &Self) -> (r: bool) {
        match (self, other) {
            (Builtin::HeadList(_), Builtin::HeadList(_)) => true,
            (Builtin::TailList, Builtin::TailList) => true,
            (Builtin::UnConstrFields, Builtin::UnConstrFields) => true,
            (Builtin::SndPair(_), Builtin::SndPair(_)) => true,
            _ => false,
        }
    }
}

impl PartialEqSpecImpl for Builtin {
    open spec fn obeys_eq_spec() -> bool {
        true
    }

    open spec fn eq_spec(&self, other: &Builtin) -> bool {
        same_op(*self, *other)
    }
}

impl Eq for Builtin {

}

impl Clone for Builtin {
    fn clone(&self) -> (r: Builtin)
        ensures
            r == *self,
    {
        match self {
            Builtin::HeadList(t) => Builtin::HeadList(t.clone()),
            Builtin::TailList => Builtin::TailList,
            Builtin::UnConstrFields => Builtin::UnConstrFields,
            Builtin::FstPair(t) => Builtin::FstPair(t.clone()),
            Builtin::SndPair(t) => Builtin::SndPair(t.clone()),
        }
    }
}

impl Builtin {
    /// The type of what the accessor yields.
    pub open spec fn result_type(&self) -> Type {
        match *self {
            Builtin::HeadList(t) => t,
            Builtin::TailList => Type::list_of_data(),
            Builtin::UnConstrFields => Type::list_of_data(),
            Builtin::FstPair(t) => t,
            Builtin::SndPair(t) => t,
        }
    }

    /// The accessor's fixed textual tag.
    pub open spec fn tag(&self) -> Seq<char> {
        match *self {
            Builtin::HeadList(_) => "head"@,
            Builtin::TailList => "tail"@,
            Builtin::UnConstrFields => "unconstrfields"@,
            Builtin::FstPair(_) => "fst"@,
            Builtin::SndPair(_) => "snd"@,
        }
    }

    /// The expression that applies the accessor to `arg`.
    pub open spec fn call_model(&self, arg: AirModel) -> AirModel {
        match *self {
            Builtin::HeadList(t) => AirModel::Builtin {
                func: BuiltinFn::HeadList,
                tipo: t,
                arg: Box::new(arg),
            },
            Builtin::TailList => AirModel::Builtin {
                func: BuiltinFn::TailList,
                tipo: Type::list_of_data(),
                arg: Box::new(arg),
            },
            Builtin::UnConstrFields => AirModel::Call {
                func: Box::new(
                    AirModel::LocalVar { name: constr_fields_exposer_name(), tipo: Type::Void },
                ),
                tipo: Type::list_of_data(),
                arg: Box::new(arg),
            },
            Builtin::FstPair(t) => AirModel::Builtin {
                func: BuiltinFn::FstPair,
                tipo: t,
                arg: Box::new(arg),
            },
            Builtin::SndPair(t) => AirModel::Builtin {
                func: BuiltinFn::SndPair,
                tipo: t,
                arg: Box::new(arg),
            },
        }
    }

    /// The names registered once the accessor's call has been built.
    pub open spec fn names_after_call(&self, names: Seq<Seq<char>>) -> Seq<Seq<char>> {
        if *self is UnConstrFields {
            registered(names, constr_fields_exposer_name())
        } else {
            names
        }
    }

    /// Builds the call of the accessor on `arg`. Exposing a constructor's
    /// fields goes through a helper function, which is registered.
    pub fn to_air_call(self, special_funcs: &mut CodeGenSpecialFuncs, arg: AirTree) -> (tree:
        AirTree)
        ensures
            tree@ == self.call_model(arg@),
            final(special_funcs).names() == self.names_after_call(old(special_funcs).names()),
    {
        match self {
            Builtin::HeadList(t) => AirTree::builtin(BuiltinFn::HeadList, t, arg),
            Builtin::TailList => AirTree::builtin(
                BuiltinFn::TailList,
                Type::list(Type::data()),
                arg,
            ),
            Builtin::UnConstrFields => {
                let helper = special_funcs.use_function_tree(constr_fields_exposer());
                AirTree::call(helper, Type::list(Type::data()), arg)
            },
            Builtin::FstPair(t) => AirTree::builtin(BuiltinFn::FstPair, t, arg),
            Builtin::SndPair(t) => AirTree::builtin(BuiltinFn::SndPair, t, arg),
        }
    }

    /// The type of what the accessor yields.
    pub fn tipo(&self) -> (t: Type)
        ensures
            t == self.result_type(),
    {
        match self {
            Builtin::HeadList(t) => t.clone(),
            Builtin::TailList => Type::list(Type::data()),
            Builtin::UnConstrFields => Type::list(Type::data()),
            Builtin::FstPair(t) => t.clone(),
            Builtin::SndPair(t) => t.clone(),
        }
    }

    /// The accessor's tag, as text.
    pub fn to_string(&self) -> (s: String)
        ensures
            s@ == self.tag(),
    {
        match self {
            Builtin::HeadList(_) => String::from_str("head"),
            Builtin::TailList => String::from_str("tail"),
            Builtin::UnConstrFields => String::from_str("unconstrfields"),
            Builtin::FstPair(_) => String::from_str("fst"),
            Builtin::SndPair(_) => String::from_str("snd"),
        }
    }
}

/// An ordered chain of accessors, applied from left to right to a subject.
#[derive(Debug)]
pub struct Builtins {
    pub vec: Vec<Builtin>,
}

impl View for Builtins {
    type V = Seq<Builtin>;

    open spec fn view(&self) -> Seq<Builtin> {
        self.vec@
    }
}

/// `n` times `TailList`.
pub open spec fn tails(n: nat) -> Seq<Builtin> {
    Seq::new(n, |i: int| Builtin::TailList)
}

/// Whether a path step is one that a well-typed decision tree can hold: a
/// pair has two components.
pub open spec fn valid_step(step: Path) -> bool {
    step is Pair ==> step->Pair_0 <= 1
}

/// The accessors that one path step stands for, where `tipo` is the type of
/// the value that the path reaches with this step.
pub open spec fn step_ops(step: Path, tipo: Type) -> Seq<Builtin> {
    match step {
        Path::Pair(i) => if i == 0 {
            seq![Builtin::HeadList(tipo)]
        } else {
            seq![Builtin::SndPair(tipo)]
        },
        Path::List(i) => tails(i as nat).push(Builtin::HeadList(tipo)),
        Path::Tuple(i) => tails(i as nat).push(Builtin::HeadList(tipo)),
        Path::Constr(_, i) => seq![Builtin::UnConstrFields] + tails(i as nat).push(
            Builtin::HeadList(tipo),
        ),
        Path::ListTail(i) => tails(i as nat),
    }
}

/// The accessors that a path stands for: those of its steps, in order. Each
/// step comes with the type of the value reached by the path up to and
/// including it.
pub open spec fn path_ops(path: Seq<(Path, Type)>) -> Seq<Builtin>
    decreases path.len(),
{
    if path.len() == 0 {
        Seq::empty()
    } else {
        path_ops(path.drop_last()) + step_ops(path.last().0, path.last().1)
    }
}

/// Whether the accessors of a step carry a type: those of every step but one
/// that only drops list elements.
pub open spec fn yields_element(step: Path) -> bool {
    !(step is ListTail)
}

/// `path` with each step's type beside it.
pub open spec fn annotated(path: Seq<Path>, tipos: Seq<Type>) -> Seq<(Path, Type)> {
    Seq::new(path.len(), |k: int| (path[k], tipos[k]))
}

/// Whether `prefix` is what the lookup is asked about for step `k` of `path`:
/// the path up to and including that step, which yields an element.
pub open spec fn asked_at(prefix: Vec<Path>, path: Seq<Path>, k: int) -> bool {
    &&& 0 <= k < path.len()
    &&& yields_element(path[k])
    &&& prefix@ == path.take(k + 1)
}

/// Whether `tipo` is an answer of the lookup for step `k` of `path` below a
/// subject of type `subject`.
pub open spec fn looked_up_at<F: Fn(&Type, &Vec<Path>) -> Type>(
    lookup: F,
    subject: Type,
    path: Seq<Path>,
    k: int,
    tipo: Type,
) -> bool {
    exists|prefix: Vec<Path>|
        prefix@ == path.take(k + 1) && #[trigger] call_ensures(lookup, (&subject, &prefix), tipo)
}

/// Whether `tipos` holds, for each step of `path` that yields an element, an
/// answer of the lookup for it.
pub open spec fn looked_up<F: Fn(&Type, &Vec<Path>) -> Type>(
    lookup: F,
    subject: Type,
    path: Seq<Path>,
    tipos: Seq<Type>,
) -> bool {
    &&& tipos.len() == path.len()
    &&& forall|k: int|
        0 <= k < path.len() && yields_element(path[k]) ==> #[trigger] looked_up_at(
            lookup,
            subject,
            path,
            k,
            tipos[k],
        )
}

/// `parts` with `sep` between each two neighbours.
pub open spec fn joined(parts: Seq<Seq<char>>, sep: Seq<char>) -> Seq<char>
    decreases parts.len(),
{
    if parts.len() == 0 {
        Seq::empty()
    } else if parts.len() == 1 {
        parts[0]
    } else {
        joined(parts.drop_last(), sep) + sep + parts.last()
    }
}

/// The tags of a chain's accessors, in order.
pub open spec fn tags(ops: Seq<Builtin>) -> Seq<Seq<char>> {
    Seq::new(ops.len(), |i: int| ops[i].tag())
}

/// The name bound by an accessor applied to the variable `name`.
pub open spec fn next_name(name: Seq<char>, op: Builtin) -> Seq<char> {
    name + "_"@ + op.tag()
}

/// The chain `ops` lowered around `body`, starting from the variable `name`
/// of type `tipo`: one binding for each accessor, the first outermost, each
/// applying its accessor to the variable bound just outside it.
pub open spec fn lowered(ops: Seq<Builtin>, name: Seq<char>, tipo: Type, body: AirModel) -> AirModel
    decreases ops.len(),
{
    if ops.len() == 0 {
        body
    } else {
        AirModel::Let {
            name: next_name(name, ops[0]),
            value: Box::new(ops[0].call_model(AirModel::LocalVar { name, tipo })),
            body: Box::new(
                lowered(ops.drop_first(), next_name(name, ops[0]), ops[0].result_type(), body),
            ),
        }
    }
}

/// Whether a chain exposes the fields of a constructor somewhere.
pub open spec fn exposes_fields(ops: Seq<Builtin>) -> bool {
    exists|k: int| 0 <= k < ops.len() && #[trigger] ops[k] is UnConstrFields
}

/// The names registered once the chain `ops` has been lowered.
pub open spec fn names_after_lowering(ops: Seq<Builtin>, names: Seq<Seq<char>>) -> Seq<Seq<char>> {
    if exposes_fields(ops) {
        registered(names, constr_fields_exposer_name())
    } else {
        names
    }
}

/// The variable that the first `k` accessors of `ops` have bound.
spec fn name_at(ops: Seq<Builtin>, name: Seq<char>, k: int) -> Seq<char>
    decreases k,
{
    if k <= 0 || k > ops.len() {
        name
    } else {
        next_name(name_at(ops, name, k - 1), ops[k - 1])
    }
}

/// The type of that variable.
spec fn tipo_at(ops: Seq<Builtin>, tipo: Type, k: int) -> Type {
    if k <= 0 || k > ops.len() {
        tipo
    } else {
        ops[k - 1].result_type()
    }
}

/// The chain of a path that continues another is the chain of the first
/// followed by the chain of the continuation.
pub proof fn lemma_path_ops_concat(first: Seq<(Path, Type)>, second: Seq<(Path, Type)>)
    ensures
        path_ops(first + second) == path_ops(first) + path_ops(second),
    decreases second.len(),
{
    if second.len() == 0 {
        assert(first + second =~= first);
        assert(path_ops(first) + path_ops(second) =~= path_ops(first));
    } else {
        let whole = first + second;
        lemma_path_ops_concat(first, second.drop_last());
        assert(whole.drop_last() =~= first + second.drop_last());
        assert(whole.last() == second.last());
        let step = step_ops(second.last().0, second.last().1);
        assert((path_ops(first) + path_ops(second.drop_last())) + step =~= path_ops(first) + (
        path_ops(second.drop_last()) + step));
    }
}

/// A chain that is not empty is what is left when its last accessor is
/// removed, followed by the chain of that accessor alone.
pub proof fn lemma_pop_merge(ops: Seq<Builtin>)
    requires
        ops.len() > 0,
    ensures
        ops.drop_last() + seq![ops.last()] == ops,
{
    assert(ops.drop_last() + seq![ops.last()] =~= ops);
}

/// Lowering the empty chain leaves the body as it is.
pub proof fn lemma_lowered_empty(name: Seq<char>, tipo: Type, body: AirModel)
    ensures
        lowered(Seq::<Builtin>::empty(), name, tipo, body) == body,
{
}

/// The variable that the last accessor of `ops` binds when the chain is
/// lowered from the variable `name`; `name` itself for the empty chain.
pub open spec fn bound_name(ops: Seq<Builtin>, name: Seq<char>) -> Seq<char>
    decreases ops.len(),
{
    if ops.len() == 0 {
        name
    } else {
        bound_name(ops.drop_first(), next_name(name, ops[0]))
    }
}

/// The type of that variable.
pub open spec fn bound_type(ops: Seq<Builtin>, tipo: Type) -> Type {
    if ops.len() == 0 {
        tipo
    } else {
        ops.last().result_type()
    }
}

/// Lowering a chain followed by another is lowering the first around the
/// lowering of the second, which starts from the variable that the first
/// chain bound last. So the bindings of a common prefix are the same in
/// every chain that starts with it.
pub proof fn lemma_lowered_concat(
    first: Seq<Builtin>,
    second: Seq<Builtin>,
    name: Seq<char>,
    tipo: Type,
    body: AirModel,
)
    ensures
        lowered(first + second, name, tipo, body) == lowered(
            first,
            name,
            tipo,
            lowered(second, bound_name(first, name), bound_type(first, tipo), body),
        ),
    decreases first.len(),
{
    if first.len() == 0 {
        assert(first + second =~= second);
    } else {
        let whole = first + second;
        let tail = first.drop_first();
        assert(whole[0] == first[0]);
        assert(whole.drop_first() =~= tail + second);
        lemma_lowered_concat(tail, second, next_name(name, first[0]), first[0].result_type(), body);
        if tail.len() > 0 {
            assert(tail.last() == first.last());
        }
    }
}

/// Registering a name twice is registering it once.
pub proof fn lemma_registered_twice(names: Seq<Seq<char>>, name: Seq<char>)
    ensures
        registered(names, name).contains(name),
        registered(registered(names, name), name) == registered(names, name),
{
    if !names.contains(name) {
        assert(names.push(name)[names.len() as int] == name);
    }
}

/// The names registered after lowering `ops` from position `k` are those after
/// lowering it from `k + 1`, with what the accessor at `k` registers.
proof fn lemma_names_after_lowering_step(ops: Seq<Builtin>, k: int, names: Seq<Seq<char>>)
    requires
        0 <= k < ops.len(),
    ensures
        names_after_lowering(ops.skip(k), names) == ops[k].names_after_call(
            names_after_lowering(ops.skip(k + 1), names),
        ),
{
    let here = ops.skip(k);
    let rest = ops.skip(k + 1);
    lemma_registered_twice(names, constr_fields_exposer_name());
    assert(here[0] == ops[k]);
    if exposes_fields(rest) {
        let j = choose|j: int| 0 <= j < rest.len() && #[trigger] rest[j] is UnConstrFields;
        assert(here[j + 1] == rest[j]);
    } else if ops[k] is UnConstrFields {
    } else {
        if exposes_fields(here) {
            let j = choose|j: int| 0 <= j < here.len() && #[trigger] here[j] is UnConstrFields;
            assert(j > 0);
            assert(rest[j - 1] == here[j]);
        }
    }
}

/// One step of a lowering, as the forward pass records it.
struct Binding {
    prev_name: String,
    prev_tipo: Type,
    next_name: String,
    builtin: Builtin,
}

/// The texts in `parts`, with `sep` between each two neighbours, as
/// `itertools::Itertools::join` builds it from the items' `Display`: the
/// first item, then for every further item the separator and the item.
#[verifier::external_body]
fn join_tags(parts: &Vec<String>, sep: &str) -> (s: String)
    ensures
        s@ == joined(Seq::new(parts@.len(), |i: int| parts@[i]@), sep@),
{
    parts.iter().join(sep)
}

impl PartialEq for Builtins {
    fn eq(&self, other: &Self) -> (r: bool) {
        self.vec == other.vec
    }
}

impl PartialEqSpecImpl for Builtins {
    open spec fn obeys_eq_spec() -> bool {
        true
    }

    open spec fn eq_spec(&self, other: &Builtins) -> bool {
        &&& self@.len() == other@.len()
        &&& forall|i: int| 0 <= i < self@.len() ==> same_op(#[trigger] self@[i], other@[i])
    }
}

impl Eq for Builtins {

}

impl Clone for Builtins {
    fn clone(&self) -> (r: Builtins)
        ensures
            r@ == self@,
    {
        let mut vec: Vec<Builtin> = Vec::new();
        let mut i: usize = 0;
        while i < self.vec.len()
            invariant
                i <= self.vec@.len(),
                vec@ == self.vec@.take(i as int),
            decreases self.vec@.len() - i,
        {
            vec.push(self.vec[i].clone());
            assert(vec@ =~= self.vec@.take(i + 1));
            i += 1;
        }
        assert(self.vec@.take(i as int) =~= self.vec@);
        Builtins { vec }
    }
}

impl Builtins {
    /// The empty chain: the subject itself.
    pub fn new() -> (r: Builtins)
        ensures
            r@ == Seq::<Builtin>::empty(),
    {
        Builtins { vec: Vec::new() }
    }

    /// Appends `count` times `TailList`.
    fn push_tails(&mut self, count: usize)
        ensures
            final(self)@ == old(self)@ + tails(count as nat),
    {
        let mut j: usize = 0;
        assert(self@ =~= old(self)@ + tails(0));
        while j < count
            invariant
                j <= count,
                self@ == old(self)@ + tails(j as nat),
            decreases count - j,
        {
            self.vec.push(Builtin::TailList);
            assert(self@ =~= old(self)@ + tails((j + 1) as nat));
            j += 1;
        }
    }

    /// The chain for a test on a list's length: one `TailList` for each
    /// element that the test counts.
    pub fn new_from_list_case(case: CaseTest) -> (r: Builtins)
        requires
            case.is_list_case(),
        ensures
            r@ == tails(case.list_count()),
    {
        let mut r = Builtins::new();
        match case {
            CaseTest::List(i) => {
                r.push_tails(i);
            },
            CaseTest::ListWithTail(i) => {
                r.push_tails(i);
            },
            _ => {},
        }
        assert(r@ =~= tails(case.list_count()));
        r
    }

    /// The chain that reaches the value at `path` below a subject of type
    /// `subject_tipo`. The type that an accessor carries is asked of
    /// `get_tipo_by_path`, with the subject's type and the path up to and
    /// including the step that the accessor belongs to. A step that only
    /// drops list elements asks for none.
    pub fn new_from_path<F: Fn(&Type, &Vec<Path>) -> Type>(
        subject_tipo: Type,
        path: Vec<Path>,
        get_tipo_by_path: F,
    ) -> (r: Builtins)
        requires
            forall|k: int| 0 <= k < path@.len() ==> valid_step(#[trigger] path@[k]),
            forall|k: int, prefix: Vec<Path>| #[trigger]
                asked_at(prefix, path@, k) ==> call_requires(
                    get_tipo_by_path,
                    (&subject_tipo, &prefix),
                ),
        ensures
            exists|tipos: Seq<Type>| #[trigger]
                looked_up(get_tipo_by_path, subject_tipo, path@, tipos) && r@ == path_ops(
                    annotated(path@, tipos),
                ),
    {
        let mut typed: Vec<(Path, Type)> = Vec::new();
        let mut rebuilt_path: Vec<Path> = Vec::new();
        let ghost mut tipos: Seq<Type> = Seq::empty();
        let mut k: usize = 0;
        assert(typed@ =~= annotated(path@.take(0), tipos));
        assert(rebuilt_path@ =~= path@.take(0));
        while k < path.len()
            invariant
                k <= path@.len(),
                forall|k: int, prefix: Vec<Path>| #[trigger]
                    asked_at(prefix, path@, k) ==> call_requires(
                        get_tipo_by_path,
                        (&subject_tipo, &prefix),
                    ),
                rebuilt_path@ == path@.take(k as int),
                tipos.len() == k,
                typed@ == annotated(path@.take(k as int), tipos),
                forall|j: int|
                    0 <= j < k && yields_element(path@[j]) ==> #[trigger] looked_up_at(
                        get_tipo_by_path,
                        subject_tipo,
                        path@,
                        j,
                        tipos[j],
                    ),
            decreases path@.len() - k,
        {
            let step = path[k].clone();
            rebuilt_path.push(path[k].clone());
            assert(rebuilt_path@ =~= path@.take(k + 1));
            let tipo = match step {
                Path::ListTail(_) => Type::list(Type::data()),
                _ => {
                    assert(asked_at(rebuilt_path, path@, k as int));
                    get_tipo_by_path(&subject_tipo, &rebuilt_path)
                },
            };
            proof {
                let ghost before = tipos;
                tipos = tipos.push(tipo);
                assert(annotated(path@.take(k + 1), tipos) =~= typed@.push((step, tipo)));
                assert forall|j: int|
                    0 <= j < k + 1 && yields_element(path@[j]) implies #[trigger] looked_up_at(
                    get_tipo_by_path,
                    subject_tipo,
                    path@,
                    j,
                    tipos[j],
                ) by {
                    if j < k {
                        assert(tipos[j] == before[j]);
                        assert(looked_up_at(get_tipo_by_path, subject_tipo, path@, j, before[j]));
                    }
                }
            }
            typed.push((step, tipo));
            k += 1;
        }
        proof {
            assert(path@.take(k as int) =~= path@);
            assert(looked_up(get_tipo_by_path, subject_tipo, path@, tipos));
            assert forall|j: int| 0 <= j < typed@.len() implies valid_step(
                #[trigger] typed@[j].0,
            ) by {
                assert(typed@[j].0 == path@[j]);
            }
        }
        Builtins::new_from_typed_path(typed)
    }

    /// The chain that reaches the value at `path`. Each step comes with the
    /// type of the value reached by the path up to and including it; that of
    /// a `ListTail` step is not read.
    pub fn new_from_typed_path(path: Vec<(Path, Type)>) -> (r: Builtins)
        requires
            forall|k: int| 0 <= k < path@.len() ==> valid_step(#[trigger] path@[k].0),
        ensures
            r@ == path_ops(path@),
    {
        let mut r = Builtins::new();
        let mut k: usize = 0;
        while k < path.len()
            invariant
                k <= path@.len(),
                forall|k: int| 0 <= k < path@.len() ==> valid_step(#[trigger] path@[k].0),
                r@ == path_ops(path@.take(k as int)),
            decreases path@.len() - k,
        {
            let ghost before = r@;
            let step = &path[k];
            let tipo = step.1.clone();
            match &step.0 {
                Path::Pair(i) => {
                    assert(valid_step(path@[k as int].0));
                    if *i == 0 {
                        r.vec.push(Builtin::HeadList(tipo));
                    } else {
                        r.vec.push(Builtin::SndPair(tipo));
                    }
                },
                Path::List(i) => {
                    r.push_tails(*i);
                    r.vec.push(Builtin::HeadList(tipo));
                },
                Path::Tuple(i) => {
                    r.push_tails(*i);
                    r.vec.push(Builtin::HeadList(tipo));
                },
                Path::Constr(_, i) => {
                    r.vec.push(Builtin::UnConstrFields);
                    r.push_tails(*i);
                    r.vec.push(Builtin::HeadList(tipo));
                },
                Path::ListTail(i) => {
                    r.push_tails(*i);
                },
            }
            proof {
                assert(r@ =~= before + step_ops(path@[k as int].0, path@[k as int].1));
                assert(path@.take(k + 1).drop_last() =~= path@.take(k as int));
            }
            k += 1;
        }
        assert(path@.take(k as int) =~= path@);
        r
    }

    /// The chain without its first accessor.
    pub fn rest(&self) -> (r: Builtins)
        requires
            self@.len() > 0,
        ensures
            r@ == self@.drop_first(),
    {
        let mut vec: Vec<Builtin> = Vec::new();
        let mut i: usize = 1;
        while i < self.vec.len()
            invariant
                1 <= i <= self.vec@.len(),
                vec@ == self.vec@.subrange(1, i as int),
            decreases self.vec@.len() - i,
        {
            vec.push(self.vec[i].clone());
            assert(vec@ =~= self.vec@.subrange(1, i + 1));
            i += 1;
        }
        assert(self.vec@.subrange(1, i as int) =~= self@.drop_first());
        Builtins { vec }
    }

    /// Removes the last accessor, if there is one.
    pub fn pop(&mut self)
        ensures
            final(self)@ == if old(self)@.len() > 0 {
                old(self)@.drop_last()
            } else {
                old(self)@
            },
    {
        self.vec.pop();
    }

    /// The number of accessors.
    pub fn len(&self) -> (n: usize)
        ensures
            n == self@.len(),
    {
        self.vec.len()
    }

    /// Whether the chain is the empty one.
    pub fn is_empty(&self) -> (b: bool)
        ensures
            b == (self@.len() == 0),
    {
        self.vec.len() == 0
    }

    /// `self` followed by `other`.
    pub fn merge(self, other: Builtins) -> (r: Builtins)
        ensures
            r@ == self@ + other@,
    {
        let mut merged = self;
        let mut rest = other;
        merged.vec.append(&mut rest.vec);
        merged
    }

    /// Lowers the chain around `body`: one binding for each accessor, the
    /// first outermost. The names bound follow from `prev_name` and the tags
    /// alone, so two chains with a common prefix bind the same names for it.
    /// The empty chain hands `body` back as it is.
    pub fn to_air(
        self,
        special_funcs: &mut CodeGenSpecialFuncs,
        prev_name: String,
        subject_tipo: Type,
        body: AirTree,
    ) -> (tree: AirTree)
        ensures
            tree@ == lowered(self@, prev_name@, subject_tipo, body@),
            self@.len() == 0 ==> tree == body,
            final(special_funcs).names() == names_after_lowering(
                self@,
                old(special_funcs).names(),
            ),
    {
        let ghost ops = self@;
        let ghost start_name = prev_name@;
        let ghost start_names = special_funcs.names();
        let mut name_builtins: Vec<Binding> = Vec::new();
        let mut name = prev_name;
        let mut tipo = subject_tipo;
        let mut k: usize = 0;
        while k < self.vec.len()
            invariant
                ops == self@,
                k <= ops.len(),
                name@ == name_at(ops, start_name, k as int),
                tipo == tipo_at(ops, subject_tipo, k as int),
                name_builtins@.len() == k,
                forall|j: int|
                    0 <= j < k ==> {
                        let b = #[trigger] name_builtins@[j];
                        &&& b.prev_name@ == name_at(ops, start_name, j)
                        &&& b.prev_tipo == tipo_at(ops, subject_tipo, j)
                        &&& b.next_name@ == name_at(ops, start_name, j + 1)
                        &&& b.builtin == ops[j]
                    },
            decreases ops.len() - k,
        {
            let item = self.vec[k].clone();
            let tag = item.to_string();
            let mut bound = name.clone();
            bound.append("_");
            bound.append(tag.as_str());
            let next_tipo = item.tipo();
            name_builtins.push(
                Binding {
                    prev_name: name,
                    prev_tipo: tipo,
                    next_name: bound.clone(),
                    builtin: item,
                },
            );
            name = bound;
            tipo = next_tipo;
            k += 1;
        }
        let mut tree = body;
        let mut i: usize = name_builtins.len();
        assert(ops.skip(i as int) =~= Seq::<Builtin>::empty());
        while i > 0
            invariant
                i <= ops.len(),
                name_builtins@.len() == i,
                forall|j: int|
                    0 <= j < i ==> {
                        let b = #[trigger] name_builtins@[j];
                        &&& b.prev_name@ == name_at(ops, start_name, j)
                        &&& b.prev_tipo == tipo_at(ops, subject_tipo, j)
                        &&& b.next_name@ == name_at(ops, start_name, j + 1)
                        &&& b.builtin == ops[j]
                    },
                tree@ == lowered(
                    ops.skip(i as int),
                    name_at(ops, start_name, i as int),
                    tipo_at(ops, subject_tipo, i as int),
                    body@,
                ),
                ops.len() == 0 ==> tree == body,
                special_funcs.names() == names_after_lowering(ops.skip(i as int), start_names),
            decreases i,
        {
            let ghost inner = tree@;
            let ghost names_before = special_funcs.names();
            let ghost last = name_builtins@[i - 1];
            let binding = name_builtins.pop().unwrap();
            assert(binding == last);
            let Binding { prev_name, prev_tipo, next_name, builtin } = binding;
            let value = builtin.to_air_call(special_funcs, AirTree::local_var(prev_name, prev_tipo));
            tree = AirTree::let_assignment(next_name, value, tree);
            proof {
                let rest = ops.skip(i - 1);
                assert(rest.len() > 0);
                assert(rest[0] == ops[i - 1]);
                assert(rest.drop_first() =~= ops.skip(i as int));
                lemma_names_after_lowering_step(ops, i - 1, start_names);
            }
            i -= 1;
        }
        assert(ops.skip(0) =~= ops);
        tree
    }

    /// The chain's canonical name: its accessors' tags, joined by `_`.
    pub fn to_string(&self) -> (s: String)
        ensures
            s@ == joined(tags(self@), "_"@),
    {
        let mut parts: Vec<String> = Vec::new();
        let mut i: usize = 0;
        while i < self.vec.len()
            invariant
                i <= self.vec@.len(),
                parts@.len() == i,
                forall|j: int| 0 <= j < i ==> (#[trigger] parts@[j])@ == self@[j].tag(),
            decreases self.vec@.len() - i,
        {
            parts.push(self.vec[i].to_string());
            i += 1;
        }
        assert(Seq::new(parts@.len(), |i: int| parts@[i]@) =~= tags(self@));
        join_tags(&parts, "_")
    }
}

} // verus!
