//! The type variables of an inference, with what is known of them.

use ena::unify::{InPlaceUnificationTable, UnifyKey, UnifyValue};
use vstd::prelude::*;

use crate::error::InferError;
use crate::ty::{Ty, TyModel, TypeVarId};

verus! {

/// The value of a type variable: either its type is known already, or it is not
/// known yet.
#[derive(PartialEq, Eq, Debug)]
pub enum TypeVarValue {
    Known(Ty),
    Unknown,
}

impl View for TypeVarValue {
    type V = Option<TyModel>;

    open spec fn view(&self) -> Option<TyModel> {
        match self {
            TypeVarValue::Known(ty) => Some(ty@),
            TypeVarValue::Unknown => None,
        }
    }
}

impl TypeVarValue {
    /// The type, if it is known.
    pub fn known(&self) -> (r: Option<&Ty>)
        ensures
            match r {
                Some(ty) => self@ == Some(ty@),
                None => self@ is None,
            },
    {
        match self {
            TypeVarValue::Known(ty) => Some(ty),
            TypeVarValue::Unknown => None,
        }
    }
}

impl Clone for TypeVarValue {
    fn clone(&self) -> (r: TypeVarValue)
        ensures
            r@ == self@,
    {
        match self {
            TypeVarValue::Known(ty) => TypeVarValue::Known(ty.clone()),
            TypeVarValue::Unknown => TypeVarValue::Unknown,
        }
    }
}

/// Two values were to be merged, both of which are known types.
#[derive(Copy, Clone, PartialEq, Eq, Debug, Structural)]
pub struct BothKnown;

/// The value of two variables that are made equal. Two known types are never
/// merged here: they have to be unified instead.
pub open spec fn merged_value(a: Option<TyModel>, b: Option<TyModel>) -> Result<
    Option<TyModel>,
    BothKnown,
> {
    match (a, b) {
        (Some(_), Some(_)) => Err(BothKnown),
        (Some(_), None) => Ok(a),
        (None, _) => Ok(b),
    }
}

impl UnifyKey for TypeVarId {
    type Value = TypeVarValue;

    fn index(&self) -> (r: u32)
        ensures
            r == self.0,
    {
        self.0
    }

    fn from_index(i: u32) -> (r: TypeVarId)
        ensures
            r == TypeVarId(i),
    {
        TypeVarId(i)
    }

    fn tag() -> (r: &'static str)
        ensures
            r@ == "TypeVarId"@,
    {
        "TypeVarId"
    }
}

impl UnifyValue for TypeVarValue {
    type Error = BothKnown;

    /// If one side is known, prefers that one.
    fn unify_values(value1: &TypeVarValue, value2: &TypeVarValue) -> (r: Result<
        TypeVarValue,
        BothKnown,
    >)
        ensures
            match r {
                Ok(v) => merged_value(value1@, value2@) == Ok::<_, BothKnown>(v@),
                Err(e) => merged_value(value1@, value2@) == Err::<Option<TyModel>, _>(e),
            },
    {
        match (value1, value2) {
            (TypeVarValue::Known(_), TypeVarValue::Known(_)) => Err(BothKnown),
            (TypeVarValue::Known(_), TypeVarValue::Unknown) => Ok(value1.clone()),
            (TypeVarValue::Unknown, _) => Ok(value2.clone()),
        }
    }
}

/// What is known of one variable: the variables that it has been made equal to,
/// itself among them, and the type that they share, if it is known.
#[verifier::ext_equal]
pub struct VarModel {
    pub class: Set<int>,
    pub value: Option<TyModel>,
}

/// Whether the variable has been created.
pub open spec fn has_var(vars: Seq<VarModel>, v: TypeVarId) -> bool {
    (v.0 as int) < vars.len()
}

/// What is known of a variable that has just been created.
pub open spec fn fresh_var(vars: Seq<VarModel>, value: Option<TyModel>) -> VarModel {
    VarModel { class: set![vars.len() as int], value }
}

/// The variables when those of one set share a class and a value.
pub open spec fn with_class(vars: Seq<VarModel>, class: Set<int>, value: Option<TyModel>) -> Seq<
    VarModel,
> {
    Seq::new(
        vars.len(),
        |i: int|
            if class.contains(i) {
                VarModel { class, value }
            } else {
                vars[i]
            },
    )
}

/// The variables after two of them have been made equal.
pub open spec fn joined(vars: Seq<VarModel>, a: TypeVarId, b: TypeVarId) -> Result<
    Seq<VarModel>,
    BothKnown,
> {
    let (x, y) = (vars[a.0 as int], vars[b.0 as int]);
    if x.class.contains(b.0 as int) {
        Ok(vars)
    } else {
        match merged_value(x.value, y.value) {
            Ok(value) => Ok(with_class(vars, x.class.union(y.class), value)),
            Err(e) => Err(e),
        }
    }
}

/// The variables after one of them, and those equal to it, have been given a
/// value.
pub open spec fn assigned(vars: Seq<VarModel>, v: TypeVarId, value: Option<TyModel>) -> Result<
    Seq<VarModel>,
    BothKnown,
> {
    let x = vars[v.0 as int];
    match merged_value(x.value, value) {
        Ok(value) => Ok(with_class(vars, x.class, value)),
        Err(e) => Err(e),
    }
}

/// The unification table of the `ena` crate, with type variables as its keys.
/// Verus does not take the table's type, whose store is bound by a trait of that
/// crate; so the table is held in a field that Verus does not see.
#[verifier::external_body]
pub struct VarTable {
    table: InPlaceUnificationTable<TypeVarId>,
}

/// What a table holds: one entry for each key, in the order of their creation.
pub uninterp spec fn var_contents(table: VarTable) -> Seq<VarModel>;

impl View for VarTable {
    type V = Seq<VarModel>;

    open spec fn view(&self) -> Seq<VarModel> {
        var_contents(*self)
    }
}

/// `UnificationTable::new`: a table without keys.
#[verifier::external_body]
fn ena_new() -> (r: VarTable)
    ensures
        var_contents(r).len() == 0,
{
    VarTable { table: InPlaceUnificationTable::new() }
}

/// `UnificationTable::len`: the number of keys created so far.
#[verifier::external_body]
fn ena_len(table: &VarTable) -> (r: usize)
    ensures
        r == var_contents(*table).len(),
{
    table.table.len()
}

/// `UnificationTable::new_key`: appends a key that is equal to itself alone and
/// has the given value. The key's index is the number of keys before the call,
/// which must fit in the index.
#[verifier::external_body]
fn ena_new_key(table: &mut VarTable, value: TypeVarValue) -> (r: TypeVarId)
    requires
        var_contents(*old(table)).len() <= u32::MAX,
    ensures
        r.0 == var_contents(*old(table)).len(),
        var_contents(*final(table)) == var_contents(*old(table)).push(
            fresh_var(var_contents(*old(table)), value@),
        ),
{
    table.table.new_key(value)
}

/// `UnificationTable::probe_value`: the value at the root of the key, cloned. The
/// paths that the look-up shortens are no part of the contents.
#[verifier::external_body]
fn ena_probe_value(table: &mut VarTable, key: TypeVarId) -> (r: TypeVarValue)
    requires
        has_var(var_contents(*old(table)), key),
    ensures
        r@ == var_contents(*old(table))[key.0 as int].value,
        var_contents(*final(table)) == var_contents(*old(table)),
{
    table.table.probe_value(key)
}

/// `UnificationTable::unify_var_var`: joins the classes of two keys under their
/// merged value. Keys that have one root are left alone; so is the table when
/// `unify_values` gives an error, which is handed on.
#[verifier::external_body]
fn ena_unify_var_var(table: &mut VarTable, a: TypeVarId, b: TypeVarId) -> (r: Result<(), BothKnown>)
    requires
        has_var(var_contents(*old(table)), a),
        has_var(var_contents(*old(table)), b),
    ensures
        match joined(var_contents(*old(table)), a, b) {
            Ok(vars) => r is Ok && var_contents(*final(table)) == vars,
            Err(e) => r == Err::<(), BothKnown>(e) && var_contents(*final(table)) == var_contents(
                *old(table),
            ),
        },
{
    table.table.unify_var_var(a, b)
}

/// `UnificationTable::unify_var_value`: merges a value into that of the key's
/// root. The table is left alone when `unify_values` gives an error, which is
/// handed on.
#[verifier::external_body]
fn ena_unify_var_value(table: &mut VarTable, key: TypeVarId, value: TypeVarValue) -> (r: Result<
    (),
    BothKnown,
>)
    requires
        has_var(var_contents(*old(table)), key),
    ensures
        match assigned(var_contents(*old(table)), key, value@) {
            Ok(vars) => r is Ok && var_contents(*final(table)) == vars,
            Err(e) => r == Err::<(), BothKnown>(e) && var_contents(*final(table)) == var_contents(
                *old(table),
            ),
        },
{
    table.table.unify_var_value(key, value)
}

/// What is known of a variable's type.
pub open spec fn probe(vars: Seq<VarModel>, v: TypeVarId) -> Result<Option<TyModel>, InferError> {
    if has_var(vars, v) {
        Ok(vars[v.0 as int].value)
    } else {
        Err(InferError::NoSuchVariable)
    }
}

/// The variables after two of them have been made equal, if both exist and not
/// both have known types.
pub open spec fn union(vars: Seq<VarModel>, a: TypeVarId, b: TypeVarId) -> Result<
    Seq<VarModel>,
    InferError,
> {
    if has_var(vars, a) && has_var(vars, b) {
        match joined(vars, a, b) {
            Ok(vars) => Ok(vars),
            Err(_) => Err(InferError::BothKnown),
        }
    } else {
        Err(InferError::NoSuchVariable)
    }
}

/// The variables after one of them has got its type, if it exists and had none.
pub open spec fn union_value(vars: Seq<VarModel>, v: TypeVarId, ty: TyModel) -> Result<
    Seq<VarModel>,
    InferError,
> {
    if has_var(vars, v) {
        match assigned(vars, v, Some(ty)) {
            Ok(vars) => Ok(vars),
            Err(_) => Err(InferError::BothKnown),
        }
    } else {
        Err(InferError::NoSuchVariable)
    }
}

impl VarTable {
    pub fn new() -> (r: VarTable)
        ensures
            r@ == Seq::<VarModel>::empty(),
    {
        let r = ena_new();
        assert(r@ =~= Seq::<VarModel>::empty());
        r
    }

    /// Creates a variable of which nothing is known.
    pub fn new_key(&mut self) -> (r: Result<TypeVarId, InferError>)
        ensures
            match r {
                Ok(v) => {
                    &&& v.0 == old(self)@.len()
                    &&& final(self)@ == old(self)@.push(fresh_var(old(self)@, None))
                },
                Err(e) => {
                    &&& e == InferError::TooManyVariables
                    &&& old(self)@.len() > u32::MAX
                    &&& final(self)@ == old(self)@
                },
            },
    {
        if ena_len(self) > u32::MAX as usize {
            return Err(InferError::TooManyVariables);
        }
        Ok(ena_new_key(self, TypeVarValue::Unknown))
    }

    /// What is known of the variable's type.
    pub fn probe_value(&mut self, v: TypeVarId) -> (r: Result<TypeVarValue, InferError>)
        ensures
            final(self)@ == old(self)@,
            match r {
                Ok(value) => probe(old(self)@, v) == Ok::<_, InferError>(value@),
                Err(e) => probe(old(self)@, v) == Err::<Option<TyModel>, _>(e),
            },
    {
        if (v.0 as usize) < ena_len(self) {
            Ok(ena_probe_value(self, v))
        } else {
            Err(InferError::NoSuchVariable)
        }
    }

    /// Makes two variables equal.
    pub fn union(&mut self, a: TypeVarId, b: TypeVarId) -> (r: Result<(), InferError>)
        ensures
            match union(old(self)@, a, b) {
                Ok(vars) => r is Ok && final(self)@ == vars,
                Err(e) => r == Err::<(), InferError>(e) && final(self)@ == old(self)@,
            },
    {
        let len = ena_len(self);
        if (a.0 as usize) < len && (b.0 as usize) < len {
            match ena_unify_var_var(self, a, b) {
                Ok(_) => Ok(()),
                Err(_) => Err(InferError::BothKnown),
            }
        } else {
            Err(InferError::NoSuchVariable)
        }
    }

    /// Gives a variable its type.
    pub fn union_value(&mut self, v: TypeVarId, ty: Ty) -> (r: Result<(), InferError>)
        ensures
            match union_value(old(self)@, v, ty@) {
                Ok(vars) => r is Ok && final(self)@ == vars,
                Err(e) => r == Err::<(), InferError>(e) && final(self)@ == old(self)@,
            },
    {
        if (v.0 as usize) < ena_len(self) {
            match ena_unify_var_value(self, v, TypeVarValue::Known(ty)) {
                Ok(_) => Ok(()),
                Err(_) => Err(InferError::BothKnown),
            }
        } else {
            Err(InferError::NoSuchVariable)
        }
    }
}

} // verus!
