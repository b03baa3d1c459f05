use ena::unify::UnifyKey;
use ty_infer::error::InferError;
use ty_infer::name::Name;
use ty_infer::primitive::{
    FloatTy, IntBitness, IntTy, Signedness, UncertainFloatTy, UncertainIntTy,
};
use ty_infer::table::{TypeVarValue, VarTable};
use ty_infer::ty::{InferTy, Mutability, Substs, Ty, TypeCtor, TypeVarId};

fn i32_ty() -> Ty {
    Ty::simple(TypeCtor::Int(UncertainIntTy::Known(IntTy::i32())))
}

fn u8_ty() -> Ty {
    Ty::simple(TypeCtor::Int(UncertainIntTy::Known(IntTy::u8())))
}

fn double_ty() -> Ty {
    Ty::simple(TypeCtor::Float(UncertainFloatTy::Known(FloatTy::double())))
}

fn bool_ty() -> Ty {
    Ty::simple(TypeCtor::Bool)
}

fn slice(ty: &Ty) -> Ty {
    Ty::apply_one(TypeCtor::Slice, ty.clone())
}

fn pair(a: &Ty, b: &Ty) -> Ty {
    Ty::apply(TypeCtor::Tuple, Substs(vec![a.clone(), b.clone()]))
}

fn param(idx: u32) -> Ty {
    Ty::Param { idx, name: Name::new("T") }
}

fn completely(table: &mut VarTable, ty: &Ty) -> Ty {
    let mut stack: Vec<TypeVarId> = Vec::new();
    let r = table.resolve_ty_completely(&mut stack, ty).unwrap();
    assert!(stack.is_empty());
    r
}

#[test]
fn new_keys_are_numbered_and_unknown() {
    let mut table = VarTable::new();
    let a = table.new_key().unwrap();
    let b = table.new_key().unwrap();
    assert_eq!(a, TypeVarId(0));
    assert_eq!(b, TypeVarId(1));
    assert!(table.probe_value(a).unwrap().known().is_none());
    assert!(table.probe_value(b).unwrap().known().is_none());
}

#[test]
fn a_value_is_found_through_every_variable_of_its_class() {
    let mut table = VarTable::new();
    let a = table.new_key().unwrap();
    let b = table.new_key().unwrap();
    let c = table.new_key().unwrap();
    table.union(a, b).unwrap();
    table.union_value(b, bool_ty()).unwrap();
    assert_eq!(table.probe_value(a).unwrap().known(), Some(&bool_ty()));
    assert_eq!(table.probe_value(b).unwrap().known(), Some(&bool_ty()));
    assert!(table.probe_value(c).unwrap().known().is_none());
    table.union(c, a).unwrap();
    assert_eq!(table.probe_value(c).unwrap().known(), Some(&bool_ty()));
}

#[test]
fn a_missing_variable_is_an_error() {
    let mut table = VarTable::new();
    let a = table.new_key().unwrap();
    let missing = TypeVarId(7);
    assert_eq!(table.probe_value(missing).err(), Some(InferError::NoSuchVariable));
    assert_eq!(table.union(a, missing), Err(InferError::NoSuchVariable));
    assert_eq!(table.union_value(missing, bool_ty()), Err(InferError::NoSuchVariable));
    let ty = Ty::Infer(InferTy::TypeVar(missing));
    assert_eq!(table.unify(&ty, &bool_ty()), Err(InferError::NoSuchVariable));
    let mut stack: Vec<TypeVarId> = Vec::new();
    assert_eq!(
        table.resolve_ty_completely(&mut stack, &ty).err(),
        Some(InferError::NoSuchVariable)
    );
}

#[test]
fn two_known_variables_are_not_merged() {
    let mut table = VarTable::new();
    let a = table.new_key().unwrap();
    let b = table.new_key().unwrap();
    table.union_value(a, bool_ty()).unwrap();
    table.union_value(b, i32_ty()).unwrap();
    assert_eq!(table.union(a, b), Err(InferError::BothKnown));
    assert_eq!(table.union_value(a, i32_ty()), Err(InferError::BothKnown));
    // nothing has changed
    assert_eq!(table.probe_value(a).unwrap().known(), Some(&bool_ty()));
    assert_eq!(table.probe_value(b).unwrap().known(), Some(&i32_ty()));
    // those of one class are left alone
    assert_eq!(table.union(a, a), Ok(()));
}

#[test]
fn unified_types_are_one_type_in_the_end() {
    let mut table = VarTable::new();
    let a = table.new_type_var().unwrap();
    let b = table.new_type_var().unwrap();
    let n = table.new_integer_var().unwrap();
    let (x, y) = (pair(&a, &slice(&b)), pair(&slice(&n), &a));
    assert_eq!(table.unify(&x, &y), Ok(true));
    let whole = pair(&slice(&i32_ty()), &slice(&i32_ty()));
    assert_eq!(completely(&mut table, &x), whole);
    assert_eq!(completely(&mut table, &y), whole);
    // what is unknown stays so
    assert_eq!(table.unify(&Ty::Unknown, &bool_ty()), Ok(true));
    assert_eq!(completely(&mut table, &Ty::Unknown), Ty::Unknown);
}

#[test]
fn type_variables_are_keys_of_the_table() {
    assert_eq!(<TypeVarId as UnifyKey>::tag(), "TypeVarId");
    assert_eq!(TypeVarId(5).index(), 5);
    assert_eq!(<TypeVarId as UnifyKey>::from_index(5), TypeVarId(5));
}

#[test]
fn known_is_the_type_of_a_known_value() {
    assert_eq!(TypeVarValue::Known(bool_ty()).known(), Some(&bool_ty()));
    assert!(TypeVarValue::Unknown.known().is_none());
}

#[test]
fn to_inner_is_the_variable_of_any_kind() {
    let v = TypeVarId(3);
    assert_eq!(InferTy::TypeVar(v).to_inner(), v);
    assert_eq!(InferTy::IntVar(v).to_inner(), v);
    assert_eq!(InferTy::FloatVar(v).to_inner(), v);
}

#[test]
fn fallback_value_depends_on_the_kind() {
    let v = TypeVarId(0);
    assert_eq!(InferTy::TypeVar(v).fallback_value(), Ty::Unknown);
    assert_eq!(InferTy::IntVar(v).fallback_value(), i32_ty());
    assert_eq!(InferTy::FloatVar(v).fallback_value(), double_ty());
    assert_eq!(
        IntTy::i32(),
        IntTy { signedness: Signedness::Signed, bitness: IntBitness::X32 }
    );
}

#[test]
fn unify_gives_variables_their_types() {
    let mut table = VarTable::new();
    let x = table.new_type_var().unwrap();
    let y = table.new_type_var().unwrap();
    assert_eq!(table.unify(&pair(&x, &i32_ty()), &pair(&bool_ty(), &y)), Ok(true));
    assert_eq!(completely(&mut table, &x), bool_ty());
    assert_eq!(completely(&mut table, &y), i32_ty());
}

#[test]
fn unify_joins_variables_of_one_kind() {
    let mut table = VarTable::new();
    let x = table.new_type_var().unwrap();
    let y = table.new_type_var().unwrap();
    assert_eq!(table.unify(&x, &y), Ok(true));
    assert_eq!(table.unify(&y, &slice(&bool_ty())), Ok(true));
    assert_eq!(completely(&mut table, &x), slice(&bool_ty()));
}

#[test]
fn unify_of_a_type_with_itself_learns_nothing() {
    let mut table = VarTable::new();
    let x = table.new_type_var().unwrap();
    assert_eq!(table.unify(&slice(&x), &slice(&x)), Ok(true));
    assert_eq!(completely(&mut table, &x), Ty::Unknown);
    assert_eq!(table.unify(&param(0), &param(0)), Ok(true));
}

#[test]
fn unify_is_symmetric_on_int_and_float_variables() {
    for swap in [false, true] {
        let mut table = VarTable::new();
        let i = table.new_integer_var().unwrap();
        let f = table.new_float_var().unwrap();
        let r = if swap { table.unify(&f, &i) } else { table.unify(&i, &f) };
        assert_eq!(r, Ok(true));
        // the integer variable stands for the float variable
        assert_eq!(table.resolve_ty_shallow(&i), Ok(f.clone()));
        assert_eq!(table.resolve_ty_shallow(&f), Ok(f.clone()));
        assert_eq!(completely(&mut table, &i), double_ty());
    }
}

#[test]
fn unify_of_different_constructors_fails() {
    let mut table = VarTable::new();
    assert_eq!(table.unify(&bool_ty(), &i32_ty()), Ok(false));
    assert_eq!(table.unify(&slice(&bool_ty()), &slice(&i32_ty())), Ok(false));
    let shared = Ty::apply_one(TypeCtor::Ref(Mutability::Shared), bool_ty());
    let unique = Ty::apply_one(TypeCtor::Ref(Mutability::Mut), bool_ty());
    assert_eq!(table.unify(&shared, &unique), Ok(false));
    assert_eq!(table.unify(&param(0), &param(1)), Ok(false));
}

#[test]
fn unify_stops_at_the_first_difference() {
    let mut table = VarTable::new();
    let x = table.new_type_var().unwrap();
    let y = table.new_type_var().unwrap();
    let a = Ty::apply(TypeCtor::Tuple, Substs(vec![x.clone(), bool_ty(), y.clone()]));
    let b = Ty::apply(TypeCtor::Tuple, Substs(vec![u8_ty(), i32_ty(), u8_ty()]));
    assert_eq!(table.unify(&a, &b), Ok(false));
    assert_eq!(completely(&mut table, &x), u8_ty());
    assert_eq!(completely(&mut table, &y), Ty::Unknown);
}

#[test]
fn unify_compares_up_to_the_shorter_list() {
    let mut table = VarTable::new();
    let x = table.new_type_var().unwrap();
    let longer = pair(&x, &bool_ty());
    let shorter = Ty::apply(TypeCtor::Tuple, Substs(vec![i32_ty()]));
    assert_eq!(table.unify(&longer, &shorter), Ok(true));
    assert_eq!(completely(&mut table, &longer), pair(&i32_ty(), &bool_ty()));
}

#[test]
fn unify_accepts_what_is_unknown() {
    let mut table = VarTable::new();
    let x = table.new_type_var().unwrap();
    assert_eq!(table.unify(&x, &Ty::Unknown), Ok(true));
    assert_eq!(completely(&mut table, &x), Ty::Unknown);
    assert_eq!(table.unify(&slice(&Ty::Unknown), &slice(&bool_ty())), Ok(true));
    assert_eq!(table.unify(&x, &slice(&Ty::Unknown)), Ok(true));
    assert_eq!(table.unify(&slice(&bool_ty()), &x), Ok(true));
    assert_eq!(completely(&mut table, &x), slice(&Ty::Unknown));
}

#[test]
fn a_known_parameter_does_not_unify_with_itself() {
    let mut table = VarTable::new();
    let x = table.new_type_var().unwrap();
    assert_eq!(table.unify(&x, &param(0)), Ok(true));
    assert_eq!(table.unify(&x, &param(0)), Ok(false));
    assert_eq!(completely(&mut table, &x), param(0));
}

#[test]
fn unify_again_changes_nothing() {
    let mut table = VarTable::new();
    let x = table.new_type_var().unwrap();
    let y = table.new_type_var().unwrap();
    let a = pair(&x, &slice(&y));
    let b = pair(&y, &slice(&i32_ty()));
    assert_eq!(table.unify(&a, &b), Ok(true));
    assert_eq!(completely(&mut table, &a), pair(&i32_ty(), &slice(&i32_ty())));
    assert_eq!(table.unify(&a, &b), Ok(true));
    assert_eq!(completely(&mut table, &a), pair(&i32_ty(), &slice(&i32_ty())));
    assert_eq!(completely(&mut table, &b), pair(&i32_ty(), &slice(&i32_ty())));
}

#[test]
fn unify_gives_up_on_infinite_types() {
    let mut table = VarTable::new();
    let x = table.new_type_var().unwrap();
    let y = table.new_type_var().unwrap();
    assert_eq!(table.unify(&x, &slice(&y)), Ok(true));
    assert_eq!(table.unify(&y, &slice(&x)), Ok(true));
    assert_eq!(table.unify(&x, &y), Err(InferError::UnificationDepth));
}

#[test]
fn a_variable_in_its_own_type_falls_back() {
    let mut table = VarTable::new();
    let x = table.new_type_var().unwrap();
    assert_eq!(table.unify(&x, &slice(&x)), Ok(true));
    assert_eq!(completely(&mut table, &x), slice(&Ty::Unknown));
    // an integer variable falls back to an integer type
    let i = table.new_integer_var().unwrap();
    assert_eq!(table.unify(&i, &slice(&i)), Ok(true));
    assert_eq!(completely(&mut table, &i), slice(&i32_ty()));
}

#[test]
fn look_up_goes_through_all_three_kinds() {
    let mut table = VarTable::new();
    let x = table.new_type_var().unwrap();
    let i = table.new_integer_var().unwrap();
    let f = table.new_float_var().unwrap();
    assert_eq!(table.unify(&x, &i), Ok(true));
    assert_eq!(table.resolve_ty_shallow(&x), Ok(i.clone()));
    assert_eq!(table.unify(&i, &f), Ok(true));
    assert_eq!(table.resolve_ty_shallow(&x), Ok(f.clone()));
    assert_eq!(table.unify(&f, &double_ty()), Ok(true));
    assert_eq!(table.resolve_ty_shallow(&x), Ok(double_ty()));
    assert_eq!(table.resolve_ty_shallow(&bool_ty()), Ok(bool_ty()));
}

#[test]
fn unify_inner_counts_the_depth() {
    let mut table = VarTable::new();
    assert_eq!(table.unify_inner(&bool_ty(), &bool_ty(), 1000), Ok(true));
    assert_eq!(
        table.unify_inner(&bool_ty(), &bool_ty(), 1001),
        Err(InferError::UnificationDepth)
    );
    let xs = Substs(vec![slice(&bool_ty())]);
    let ys = Substs(vec![slice(&Ty::Unknown)]);
    assert_eq!(table.unify_substs(&xs, &ys, 999), Ok(true));
    assert_eq!(table.unify_substs(&xs, &ys, 1000), Err(InferError::UnificationDepth));
    // any depth above the limit is too deep, unless there is nothing to compare
    let deepest = usize::max_value();
    assert_eq!(
        table.unify_inner(&bool_ty(), &bool_ty(), deepest),
        Err(InferError::UnificationDepth)
    );
    assert_eq!(table.unify_substs(&xs, &ys, deepest), Err(InferError::UnificationDepth));
    assert_eq!(table.unify_substs(&xs, &Substs::empty(), deepest), Ok(true));
}

#[test]
fn insertion_fills_what_is_open() {
    let mut table = VarTable::new();
    let open_int = Ty::simple(TypeCtor::Int(UncertainIntTy::Unknown));
    let open_float = Ty::simple(TypeCtor::Float(UncertainFloatTy::Unknown));
    let ty = Ty::apply(
        TypeCtor::Tuple,
        Substs(vec![Ty::Unknown, open_int, slice(&open_float), bool_ty(), param(2)]),
    );
    let full = table.insert_type_vars(&ty).unwrap();
    assert_eq!(
        full,
        Ty::apply(
            TypeCtor::Tuple,
            Substs(vec![
                Ty::Infer(InferTy::TypeVar(TypeVarId(0))),
                Ty::Infer(InferTy::IntVar(TypeVarId(1))),
                slice(&Ty::Infer(InferTy::FloatVar(TypeVarId(2)))),
                bool_ty(),
                param(2),
            ])
        )
    );
    // a second insertion finds nothing open
    assert_eq!(table.insert_type_vars(&full), Ok(full.clone()));
    assert_eq!(table.new_key(), Ok(TypeVarId(3)));
}

#[test]
fn shallow_insertion_looks_at_the_top_only() {
    let mut table = VarTable::new();
    let ty = slice(&Ty::Unknown);
    assert_eq!(table.insert_type_vars_shallow(ty.clone()), Ok(ty));
    assert_eq!(
        table.insert_type_vars_shallow(Ty::Unknown),
        Ok(Ty::Infer(InferTy::TypeVar(TypeVarId(0))))
    );
    let open_int = Ty::simple(TypeCtor::Int(UncertainIntTy::Unknown));
    assert_eq!(
        table.insert_type_vars_shallow(open_int),
        Ok(Ty::Infer(InferTy::IntVar(TypeVarId(1))))
    );
}

#[test]
fn complete_resolution_keeps_types_without_variables() {
    let mut table = VarTable::new();
    let ty = pair(&slice(&bool_ty()), &param(1));
    assert_eq!(completely(&mut table, &ty), ty);
}

#[test]
fn complete_resolution_follows_known_types() {
    let mut table = VarTable::new();
    let x = table.new_type_var().unwrap();
    let y = table.new_type_var().unwrap();
    let z = table.new_type_var().unwrap();
    assert_eq!(table.unify(&x, &pair(&y, &z)), Ok(true));
    assert_eq!(table.unify(&y, &slice(&z)), Ok(true));
    assert_eq!(
        completely(&mut table, &x),
        pair(&slice(&Ty::Unknown), &Ty::Unknown)
    );
    assert_eq!(table.unify(&z, &u8_ty()), Ok(true));
    assert_eq!(completely(&mut table, &x), pair(&slice(&u8_ty()), &u8_ty()));
}
