use ty_infer::body::BindingAnnotation;
use ty_infer::db::GenericParams;
use ty_infer::defs::{ExprId, ExprOrPatId, Function, PatId};
use ty_infer::error::InferError;
use ty_infer::maps::{ArenaMap, NodeMap};
use ty_infer::name::Name;
use ty_infer::pat::BindingMode;
use ty_infer::primitive::{IntTy, UncertainIntTy};
use ty_infer::ty::{Mutability, Substs, Ty, TypeCtor};

fn bool_ty() -> Ty {
    Ty::simple(TypeCtor::Bool)
}

fn str_ty() -> Ty {
    Ty::simple(TypeCtor::Str)
}

fn param(idx: u32) -> Ty {
    Ty::Param { idx, name: Name::new("T") }
}

#[test]
fn convert_maps_each_annotation() {
    assert_eq!(BindingMode::convert(&BindingAnnotation::Unannotated), BindingMode::Move);
    assert_eq!(BindingMode::convert(&BindingAnnotation::Mutable), BindingMode::Move);
    assert_eq!(
        BindingMode::convert(&BindingAnnotation::Ref),
        BindingMode::Ref(Mutability::Shared)
    );
    assert_eq!(
        BindingMode::convert(&BindingAnnotation::RefMut),
        BindingMode::Ref(Mutability::Mut)
    );
}

#[test]
fn the_default_binding_mode_is_move() {
    assert_eq!(BindingMode::default(), BindingMode::Move);
}

#[test]
fn tuple_field_names_are_numerals() {
    assert_eq!(Name::tuple_field_name(0), Name::new("0"));
    assert_eq!(Name::tuple_field_name(10), Name::new("10"));
    assert_eq!(Name::tuple_field_name(907), Name::new("907"));
}

#[test]
fn tuple_field_names_are_read_back() {
    for i in [0usize, 1, 9, 10, 99, 100, 12345, usize::MAX] {
        assert_eq!(Name::tuple_field_name(i).as_tuple_index(), Some(i));
    }
}

#[test]
fn names_are_read_as_numbers_like_the_standard_library_does() {
    for text in [
        "0", "7", "007", "+7", "+", "", "-1", "1_0", "x", " 1", "1 ", "18446744073709551615",
        "18446744073709551616", "99999999999999999999", "+0", "++1",
    ] {
        assert_eq!(Name::new(text).as_tuple_index(), text.parse::<usize>().ok(), "{}", text);
    }
}

#[test]
fn only_self_is_the_self_type() {
    assert!(Name::new("Self").is_self_type());
    assert!(!Name::new("self").is_self_type());
    assert!(!Name::new("Selfie").is_self_type());
    assert!(!Name::new("").is_self_type());
}

#[test]
fn prefix_takes_the_first_types() {
    let substs = Substs(vec![bool_ty(), str_ty(), Ty::Unknown]);
    assert_eq!(substs.prefix(0).0, Vec::<Ty>::new());
    assert_eq!(substs.prefix(2).0, vec![bool_ty(), str_ty()]);
    assert_eq!(substs.prefix(9).0, vec![bool_ty(), str_ty(), Ty::Unknown]);
}

#[test]
fn as_single_wants_one_type() {
    assert_eq!(Substs(vec![bool_ty()]).as_single(), Ok(&bool_ty()));
    assert_eq!(Substs(vec![]).as_single(), Err(InferError::NotSingleParameter));
    assert_eq!(
        Substs(vec![bool_ty(), bool_ty()]).as_single(),
        Err(InferError::NotSingleParameter)
    );
}

#[test]
fn references_and_pointers_are_dereferenced() {
    let r = Ty::apply_one(TypeCtor::Ref(Mutability::Mut), bool_ty());
    let p = Ty::apply_one(TypeCtor::RawPtr(Mutability::Shared), str_ty());
    assert_eq!(r.as_reference(), Ok(Some((&bool_ty(), Mutability::Mut))));
    assert_eq!(p.as_reference(), Ok(None));
    assert_eq!(r.builtin_deref(), Ok(Some(bool_ty())));
    assert_eq!(p.builtin_deref(), Ok(Some(str_ty())));
    assert_eq!(bool_ty().builtin_deref(), Ok(None));
    let broken = Ty::simple(TypeCtor::Ref(Mutability::Shared));
    assert_eq!(broken.as_reference(), Err(InferError::NotSingleParameter));
}

#[test]
fn subst_replaces_parameters_in_range() {
    let ty = Ty::apply(TypeCtor::Tuple, Substs(vec![param(1), param(0), param(5)]));
    let substs = Substs(vec![bool_ty(), str_ty()]);
    assert_eq!(
        ty.subst(&substs),
        Ty::apply(TypeCtor::Tuple, Substs(vec![str_ty(), bool_ty(), param(5)]))
    );
    assert_eq!(
        ty.apply_substs(Substs(vec![Ty::Unknown])),
        Ty::apply(TypeCtor::Tuple, Substs(vec![Ty::Unknown]))
    );
    assert_eq!(Ty::Unknown.apply_substs(substs), Ty::Unknown);
}

#[test]
fn types_are_compared_in_full() {
    let a = Ty::apply(TypeCtor::Tuple, Substs(vec![param(0), bool_ty()]));
    let b = Ty::apply(TypeCtor::Tuple, Substs(vec![param(0), bool_ty()]));
    let c = Ty::apply(TypeCtor::Tuple, Substs(vec![param(0)]));
    let d = Ty::apply(
        TypeCtor::Tuple,
        Substs(vec![Ty::Param { idx: 0, name: Name::new("U") }, bool_ty()]),
    );
    assert_eq!(a, b);
    assert_ne!(a, c);
    assert_ne!(a, d);
    assert_ne!(
        Ty::simple(TypeCtor::Int(UncertainIntTy::Unknown)),
        Ty::simple(TypeCtor::Int(UncertainIntTy::Known(IntTy::u8())))
    );
}

#[test]
fn generic_parameters_are_counted_with_those_around() {
    let outer = GenericParams { parent_params: None, params: vec![Name::new("Self")] };
    let middle = GenericParams {
        parent_params: Some(Box::new(outer)),
        params: vec![Name::new("T"), Name::new("U")],
    };
    let inner =
        GenericParams { parent_params: Some(Box::new(middle)), params: vec![Name::new("V")] };
    assert_eq!(inner.count_params_including_parent(), Ok(4));
    assert_eq!(inner.count_parent_params(), Ok(3));
}

#[test]
fn expressions_and_patterns_do_not_share_entries() {
    let mut map: NodeMap<Function> = NodeMap::new();
    map.insert(ExprOrPatId::ExprId(ExprId(1)), Function(10));
    map.insert(ExprOrPatId::PatId(PatId(1)), Function(20));
    map.insert(ExprOrPatId::ExprId(ExprId(u32::MAX)), Function(30));
    assert_eq!(map.get(ExprOrPatId::ExprId(ExprId(1))), Some(Function(10)));
    assert_eq!(map.get(ExprOrPatId::PatId(PatId(1))), Some(Function(20)));
    assert_eq!(map.get(ExprOrPatId::ExprId(ExprId(u32::MAX))), Some(Function(30)));
    assert_eq!(map.get(ExprOrPatId::PatId(PatId(u32::MAX))), None);
    assert_eq!(map.get(ExprOrPatId::ExprId(ExprId(2))), None);
    map.insert(ExprOrPatId::ExprId(ExprId(1)), Function(11));
    assert_eq!(map.get(ExprOrPatId::ExprId(ExprId(1))), Some(Function(11)));
}

#[test]
fn recorded_types_are_found_by_number() {
    let mut map = ArenaMap::new();
    map.insert(3, bool_ty());
    assert_eq!(map.get(3), Some(&bool_ty()));
    assert_eq!(map.get(0), None);
    assert_eq!(map.get(4), None);
    map.insert(3, str_ty());
    map.insert(0, bool_ty());
    assert_eq!(map.get(3), Some(&str_ty()));
    assert_eq!(map.get(0), Some(&bool_ty()));
}
