use accessor_paths::builtins::{Builtin, Builtins};
use accessor_paths::path::Path;
use accessor_paths::tipo::Type;
use std::cell::RefCell;

fn element_of(tipo: &Type) -> Type {
    match tipo {
        Type::List(inner) => (**inner).clone(),
        Type::Pair(_, snd) => (**snd).clone(),
        _ => Type::Data,
    }
}

fn walk(subject: &Type, prefix: &Vec<Path>) -> Type {
    let mut tipo = subject.clone();
    for step in prefix {
        tipo = match step {
            Path::ListTail(_) => tipo,
            _ => element_of(&tipo),
        };
    }
    tipo
}

fn debug_text(ops: &Builtins) -> String {
    format!("{:?}", ops)
}

#[test]
fn translating_constructor_index_two() {
    let ops = Builtins::new_from_path(
        Type::Data,
        vec![Path::Constr(Type::Data, 2)],
        |_: &Type, _: &Vec<Path>| Type::Int,
    );
    assert_eq!(
        debug_text(&ops),
        debug_text(&Builtins {
            vec: vec![
                Builtin::UnConstrFields,
                Builtin::TailList,
                Builtin::TailList,
                Builtin::HeadList(Type::Int),
            ]
        })
    );
}

#[test]
fn translating_list_tail_index_three() {
    let asked = RefCell::new(0usize);
    let ops = Builtins::new_from_path(
        Type::list(Type::Int),
        vec![Path::ListTail(3)],
        |_: &Type, _: &Vec<Path>| {
            *asked.borrow_mut() += 1;
            Type::Int
        },
    );
    assert_eq!(ops.len(), 3);
    assert!(ops.vec.iter().all(|op| matches!(op, Builtin::TailList)));
    assert_eq!(*asked.borrow(), 0);
}

#[test]
fn translating_pair_indices() {
    let ops = Builtins::new_from_path(
        Type::pair(Type::Int, Type::Bool),
        vec![Path::Pair(0)],
        |_: &Type, _: &Vec<Path>| Type::Int,
    );
    assert_eq!(debug_text(&ops), debug_text(&Builtins { vec: vec![Builtin::HeadList(Type::Int)] }));
    let ops = Builtins::new_from_path(
        Type::pair(Type::Int, Type::Bool),
        vec![Path::Pair(1)],
        |_: &Type, _: &Vec<Path>| Type::Bool,
    );
    assert_eq!(debug_text(&ops), debug_text(&Builtins { vec: vec![Builtin::SndPair(Type::Bool)] }));
}

#[test]
fn the_lookup_is_asked_with_each_prefix_up_to_its_step() {
    let asked: RefCell<Vec<(Type, Vec<Path>)>> = RefCell::new(vec![]);
    let path = vec![Path::Tuple(1), Path::ListTail(2), Path::List(0)];
    let ops = Builtins::new_from_path(Type::Data, path.clone(), |subject: &Type, prefix: &Vec<Path>| {
        asked.borrow_mut().push((subject.clone(), prefix.clone()));
        if prefix.len() == 1 {
            Type::list(Type::Int)
        } else {
            Type::Int
        }
    });
    assert_eq!(
        *asked.borrow(),
        vec![(Type::Data, path[..1].to_vec()), (Type::Data, path.clone())]
    );
    assert_eq!(
        debug_text(&ops),
        debug_text(&Builtins {
            vec: vec![
                Builtin::TailList,
                Builtin::HeadList(Type::list(Type::Int)),
                Builtin::TailList,
                Builtin::TailList,
                Builtin::HeadList(Type::Int),
            ]
        })
    );
}

#[test]
fn translating_a_continued_path_is_merging_the_chains() {
    let subject = Type::list(Type::list(Type::pair(Type::Int, Type::Bool)));
    let first = vec![Path::List(1)];
    let second = vec![Path::List(0), Path::Pair(1)];
    let mut whole = first.clone();
    whole.extend(second.clone());
    let direct = Builtins::new_from_path(subject.clone(), whole, walk);
    let inner = walk(&subject, &first);
    let merged = Builtins::new_from_path(subject, first, walk)
        .merge(Builtins::new_from_path(inner, second, walk));
    assert_eq!(debug_text(&merged), debug_text(&direct));
    assert_eq!(direct.to_string(), "tail_head_head_snd");
    assert!(matches!(direct.vec[3], Builtin::SndPair(Type::Bool)));
}

#[test]
fn translating_the_empty_path() {
    let ops = Builtins::new_from_path(Type::Data, vec![], |_: &Type, _: &Vec<Path>| Type::Int);
    assert!(ops.is_empty());
}
