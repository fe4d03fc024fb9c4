use accessor_paths::air::{AirTree, BuiltinFn, CodeGenSpecialFuncs};
use accessor_paths::builtins::{Builtin, Builtins};
use accessor_paths::path::{CaseTest, Path};
use accessor_paths::tipo::Type;

fn chain_of(ops: Vec<Builtin>) -> Builtins {
    Builtins { vec: ops }
}

fn shown(ops: &Builtins) -> String {
    format!("{:?}", ops)
}

fn local(name: &str, tipo: Type) -> AirTree {
    AirTree::LocalVar { name: name.to_string(), tipo }
}

#[test]
fn constructor_index_two_gives_fields_two_tails_and_head() {
    let ops = Builtins::new_from_typed_path(vec![(Path::Constr(Type::Data, 2), Type::Int)]);
    assert_eq!(ops.len(), 4);
    assert!(matches!(ops.vec[0], Builtin::UnConstrFields));
    assert!(matches!(ops.vec[1], Builtin::TailList));
    assert!(matches!(ops.vec[2], Builtin::TailList));
    assert!(matches!(ops.vec[3], Builtin::HeadList(Type::Int)));
}

#[test]
fn list_tail_index_three_gives_three_tails_and_no_head() {
    let ops = Builtins::new_from_typed_path(vec![(Path::ListTail(3), Type::list(Type::Int))]);
    assert_eq!(ops.len(), 3);
    assert!(ops.vec.iter().all(|op| matches!(op, Builtin::TailList)));
}

#[test]
fn pair_index_zero_gives_head_and_one_gives_second() {
    let first = Builtins::new_from_typed_path(vec![(Path::Pair(0), Type::Int)]);
    assert_eq!(first.len(), 1);
    assert!(matches!(first.vec[0], Builtin::HeadList(Type::Int)));
    let second = Builtins::new_from_typed_path(vec![(Path::Pair(1), Type::Bool)]);
    assert_eq!(second.len(), 1);
    assert!(matches!(second.vec[0], Builtin::SndPair(Type::Bool)));
}

#[test]
fn list_and_tuple_index_give_tails_then_head() {
    let list = Builtins::new_from_typed_path(vec![(Path::List(2), Type::ByteArray)]);
    assert_eq!(
        shown(&list),
        shown(&chain_of(vec![
            Builtin::TailList,
            Builtin::TailList,
            Builtin::HeadList(Type::ByteArray)
        ]))
    );
    let tuple = Builtins::new_from_typed_path(vec![(Path::Tuple(0), Type::String)]);
    assert_eq!(shown(&tuple), shown(&chain_of(vec![Builtin::HeadList(Type::String)])));
}

#[test]
fn empty_path_gives_empty_chain() {
    let ops = Builtins::new_from_typed_path(vec![]);
    assert!(ops.is_empty());
    assert_eq!(ops.len(), 0);
}

#[test]
fn each_step_carries_its_own_type() {
    let ops = Builtins::new_from_typed_path(vec![
        (Path::Constr(Type::Data, 1), Type::list(Type::Int)),
        (Path::List(0), Type::Int),
    ]);
    assert_eq!(
        shown(&ops),
        shown(&chain_of(vec![
            Builtin::UnConstrFields,
            Builtin::TailList,
            Builtin::HeadList(Type::list(Type::Int)),
            Builtin::HeadList(Type::Int),
        ]))
    );
}

#[test]
fn chain_of_a_continued_path_is_the_merge_of_the_chains() {
    let first = vec![(Path::Constr(Type::Data, 1), Type::pair(Type::Int, Type::Bool))];
    let second = vec![(Path::Pair(1), Type::Bool), (Path::ListTail(2), Type::Data)];
    let mut whole = first.clone();
    whole.extend(second.clone());
    let merged = Builtins::new_from_typed_path(first).merge(Builtins::new_from_typed_path(second));
    let direct = Builtins::new_from_typed_path(whole);
    assert_eq!(shown(&merged), shown(&direct));
    assert_eq!(merged.len(), 6);
}

#[test]
fn pop_then_merge_of_the_last_gives_the_chain_back() {
    let whole = chain_of(vec![
        Builtin::UnConstrFields,
        Builtin::TailList,
        Builtin::HeadList(Type::Int),
    ]);
    let mut shorter = whole.clone();
    shorter.pop();
    assert_eq!(shorter.len(), 2);
    let again = shorter.merge(chain_of(vec![Builtin::HeadList(Type::Int)]));
    assert_eq!(shown(&again), shown(&whole));
}

#[test]
fn pop_on_empty_chain_leaves_it_empty() {
    let mut ops = Builtins::new();
    ops.pop();
    assert!(ops.is_empty());
}

#[test]
fn merge_keeps_order() {
    let merged = chain_of(vec![Builtin::TailList])
        .merge(chain_of(vec![Builtin::SndPair(Type::Int), Builtin::FstPair(Type::Bool)]));
    assert_eq!(merged.to_string(), "tail_snd_fst");
    assert_eq!(merged.len(), 3);
}

#[test]
fn rest_drops_the_first() {
    let ops = chain_of(vec![Builtin::UnConstrFields, Builtin::TailList, Builtin::HeadList(Type::Int)]);
    assert_eq!(
        shown(&ops.rest()),
        shown(&chain_of(vec![Builtin::TailList, Builtin::HeadList(Type::Int)]))
    );
}

#[test]
fn list_case_gives_that_many_tails() {
    let two = Builtins::new_from_list_case(CaseTest::List(2));
    assert_eq!(shown(&two), shown(&chain_of(vec![Builtin::TailList, Builtin::TailList])));
    let with_tail = Builtins::new_from_list_case(CaseTest::ListWithTail(1));
    assert_eq!(shown(&with_tail), shown(&chain_of(vec![Builtin::TailList])));
    assert!(Builtins::new_from_list_case(CaseTest::List(0)).is_empty());
}

#[test]
fn tags_are_fixed() {
    assert_eq!(Builtin::HeadList(Type::Int).to_string(), "head");
    assert_eq!(Builtin::TailList.to_string(), "tail");
    assert_eq!(Builtin::UnConstrFields.to_string(), "unconstrfields");
    assert_eq!(Builtin::FstPair(Type::Int).to_string(), "fst");
    assert_eq!(Builtin::SndPair(Type::Int).to_string(), "snd");
}

#[test]
fn chain_name_joins_tags_with_underscores() {
    let ops = chain_of(vec![
        Builtin::UnConstrFields,
        Builtin::TailList,
        Builtin::TailList,
        Builtin::HeadList(Type::Int),
    ]);
    assert_eq!(ops.to_string(), "unconstrfields_tail_tail_head");
    assert_eq!(chain_of(vec![Builtin::TailList]).to_string(), "tail");
    assert_eq!(Builtins::new().to_string(), "");
}

#[test]
fn result_types() {
    assert_eq!(Builtin::HeadList(Type::Int).tipo(), Type::Int);
    assert_eq!(Builtin::TailList.tipo(), Type::list(Type::data()));
    assert_eq!(Builtin::UnConstrFields.tipo(), Type::List(Box::new(Type::Data)));
    assert_eq!(Builtin::FstPair(Type::Bool).tipo(), Type::Bool);
    assert_eq!(Builtin::SndPair(Type::ByteArray).tipo(), Type::ByteArray);
}

#[test]
fn equality_goes_by_kind_and_first_of_pair_equals_nothing() {
    assert!(Builtin::HeadList(Type::Int) == Builtin::HeadList(Type::Bool));
    assert!(Builtin::TailList == Builtin::TailList);
    assert!(Builtin::UnConstrFields == Builtin::UnConstrFields);
    assert!(Builtin::SndPair(Type::Int) == Builtin::SndPair(Type::Data));
    assert!(Builtin::FstPair(Type::Int) != Builtin::FstPair(Type::Int));
    assert!(Builtin::HeadList(Type::Int) != Builtin::TailList);
    assert!(Builtin::SndPair(Type::Int) != Builtin::FstPair(Type::Int));
}

#[test]
fn chains_are_equal_element_by_element() {
    let a = chain_of(vec![Builtin::TailList, Builtin::HeadList(Type::Int)]);
    let b = chain_of(vec![Builtin::TailList, Builtin::HeadList(Type::Bool)]);
    let c = chain_of(vec![Builtin::TailList]);
    assert!(a == b);
    assert!(a != c);
    assert!(Builtins::new() == Builtins::new());
    assert!(chain_of(vec![Builtin::FstPair(Type::Int)]) != chain_of(vec![Builtin::FstPair(Type::Int)]));
}

#[test]
fn clone_keeps_the_types() {
    let a = chain_of(vec![Builtin::HeadList(Type::pair(Type::Int, Type::list(Type::Bool)))]);
    assert_eq!(shown(&a.clone()), shown(&a));
    let t = Type::pair(Type::list(Type::Data), Type::Void);
    assert_eq!(t.clone(), t);
}

#[test]
fn lowering_the_empty_chain_gives_the_body_back() {
    let mut funcs = CodeGenSpecialFuncs::new();
    let body = local("result", Type::Int);
    let tree = Builtins::new().to_air(&mut funcs, "x".to_string(), Type::Data, local("result", Type::Int));
    assert_eq!(tree, body);
    assert!(funcs.used_funcs.is_empty());
}

#[test]
fn lowering_two_accessors_binds_two_names_outermost_first() {
    let mut funcs = CodeGenSpecialFuncs::new();
    let ops = chain_of(vec![Builtin::TailList, Builtin::HeadList(Type::Int)]);
    let subject = Type::list(Type::Int);
    let tree = ops.to_air(&mut funcs, "x".to_string(), subject.clone(), local("k", Type::Int));
    let expected = AirTree::Let {
        name: "x_tail".to_string(),
        value: Box::new(AirTree::Builtin {
            func: BuiltinFn::TailList,
            tipo: Type::list(Type::data()),
            arg: Box::new(local("x", subject)),
        }),
        body: Box::new(AirTree::Let {
            name: "x_tail_head".to_string(),
            value: Box::new(AirTree::Builtin {
                func: BuiltinFn::HeadList,
                tipo: Type::Int,
                arg: Box::new(local("x_tail", Type::list(Type::data()))),
            }),
            body: Box::new(local("k", Type::Int)),
        }),
    };
    assert_eq!(tree, expected);
    assert!(funcs.used_funcs.is_empty());
}

#[test]
fn lowering_a_constructor_access_calls_the_registered_helper() {
    let mut funcs = CodeGenSpecialFuncs::new();
    let ops = chain_of(vec![Builtin::UnConstrFields, Builtin::HeadList(Type::Bool)]);
    let tree = ops.to_air(&mut funcs, "subject".to_string(), Type::Data, local("k", Type::Bool));
    let expected = AirTree::Let {
        name: "subject_unconstrfields".to_string(),
        value: Box::new(AirTree::Call {
            func: Box::new(local("__constr_fields_exposer", Type::Void)),
            tipo: Type::list(Type::data()),
            arg: Box::new(local("subject", Type::Data)),
        }),
        body: Box::new(AirTree::Let {
            name: "subject_unconstrfields_head".to_string(),
            value: Box::new(AirTree::Builtin {
                func: BuiltinFn::HeadList,
                tipo: Type::Bool,
                arg: Box::new(local("subject_unconstrfields", Type::list(Type::data()))),
            }),
            body: Box::new(local("k", Type::Bool)),
        }),
    };
    assert_eq!(tree, expected);
    assert_eq!(funcs.used_funcs, vec!["__constr_fields_exposer".to_string()]);
}

#[test]
fn lowering_pair_accessors_calls_the_pair_primitives() {
    let mut funcs = CodeGenSpecialFuncs::new();
    let pair = Type::pair(Type::Int, Type::Bool);
    let fst = chain_of(vec![Builtin::FstPair(Type::Int)]).to_air(
        &mut funcs,
        "p".to_string(),
        pair.clone(),
        local("k", Type::Int),
    );
    assert_eq!(
        fst,
        AirTree::Let {
            name: "p_fst".to_string(),
            value: Box::new(AirTree::Builtin {
                func: BuiltinFn::FstPair,
                tipo: Type::Int,
                arg: Box::new(local("p", pair.clone())),
            }),
            body: Box::new(local("k", Type::Int)),
        }
    );
    let snd = chain_of(vec![Builtin::SndPair(Type::Bool)]).to_air(
        &mut funcs,
        "p".to_string(),
        pair.clone(),
        local("k", Type::Int),
    );
    assert_eq!(
        snd,
        AirTree::Let {
            name: "p_snd".to_string(),
            value: Box::new(AirTree::Builtin {
                func: BuiltinFn::SndPair,
                tipo: Type::Bool,
                arg: Box::new(local("p", pair)),
            }),
            body: Box::new(local("k", Type::Int)),
        }
    );
}

#[test]
fn chains_with_a_common_prefix_bind_the_same_names() {
    let mut funcs = CodeGenSpecialFuncs::new();
    let a = chain_of(vec![Builtin::UnConstrFields, Builtin::HeadList(Type::Int)]);
    let b = chain_of(vec![Builtin::UnConstrFields, Builtin::TailList]);
    let ta = a.to_air(&mut funcs, "s".to_string(), Type::Data, local("k", Type::Int));
    let tb = b.to_air(&mut funcs, "s".to_string(), Type::Data, local("k", Type::Int));
    match (ta, tb) {
        (AirTree::Let { name: na, value: va, .. }, AirTree::Let { name: nb, value: vb, .. }) => {
            assert_eq!(na, "s_unconstrfields");
            assert_eq!(na, nb);
            assert_eq!(va, vb);
        }
        _ => panic!("a binding was expected"),
    }
    assert_eq!(funcs.used_funcs.len(), 1);
}

#[test]
fn a_helper_is_registered_once() {
    let mut funcs = CodeGenSpecialFuncs::new();
    let first = funcs.use_function_tree("helper".to_string());
    let second = funcs.use_function_tree("helper".to_string());
    funcs.use_function_tree("other".to_string());
    assert_eq!(first, local("helper", Type::Void));
    assert_eq!(second, local("helper", Type::Void));
    assert_eq!(funcs.used_funcs, vec!["helper".to_string(), "other".to_string()]);
    assert!(funcs.is_used(&"other".to_string()));
    assert!(!funcs.is_used(&"missing".to_string()));
}

#[test]
fn one_accessor_call() {
    let mut funcs = CodeGenSpecialFuncs::new();
    let call = Builtin::TailList.to_air_call(&mut funcs, local("xs", Type::list(Type::Int)));
    assert_eq!(
        call,
        AirTree::builtin(BuiltinFn::TailList, Type::list(Type::data()), local("xs", Type::list(Type::Int)))
    );
    assert!(funcs.used_funcs.is_empty());
    let exposed = Builtin::UnConstrFields.to_air_call(&mut funcs, local("c", Type::Data));
    assert_eq!(
        exposed,
        AirTree::call(
            AirTree::local_var("__constr_fields_exposer".to_string(), Type::void()),
            Type::list(Type::data()),
            local("c", Type::Data)
        )
    );
    assert_eq!(funcs.used_funcs.len(), 1);
}

#[test]
fn bindings_are_built_as_written() {
    let tree = AirTree::let_assignment("a".to_string(), local("b", Type::Int), local("a", Type::Int));
    assert_eq!(
        tree,
        AirTree::Let {
            name: "a".to_string(),
            value: Box::new(local("b", Type::Int)),
            body: Box::new(local("a", Type::Int)),
        }
    );
}

#[test]
fn a_copy_of_an_expression_equals_it() {
    let tree = AirTree::let_assignment(
        "a".to_string(),
        AirTree::call(
            local("f", Type::Void),
            Type::Int,
            AirTree::builtin(BuiltinFn::SndPair, Type::Int, local("p", Type::pair(Type::Bool, Type::Int))),
        ),
        local("a", Type::Int),
    );
    assert_eq!(tree.clone(), tree);
}

#[test]
fn lowering_a_merged_chain_nests_the_second_in_the_first() {
    let first = chain_of(vec![Builtin::UnConstrFields, Builtin::TailList]);
    let second = chain_of(vec![Builtin::HeadList(Type::Int)]);
    let mut funcs = CodeGenSpecialFuncs::new();
    let inner = second.clone().to_air(
        &mut funcs,
        "s_unconstrfields_tail".to_string(),
        Type::list(Type::data()),
        local("k", Type::Int),
    );
    let nested = first.clone().to_air(&mut funcs, "s".to_string(), Type::Data, inner);
    let whole = first.merge(second).to_air(&mut funcs, "s".to_string(), Type::Data, local("k", Type::Int));
    assert_eq!(whole, nested);
}
