//! New variables, and putting them where a type is not known.

use vstd::prelude::*;

use crate::error::InferError;
use crate::primitive::{UncertainFloatTy, UncertainIntTy};
use crate::table::{VarModel, VarTable};
use crate::ty::{InferTy, Substs, Ty, TyModel, TypeCtor, TypeVarId};
use crate::{table, ty};

verus! {

/// The variables with a new one, and the new one.
pub open spec fn new_var(vars: Seq<VarModel>) -> Result<(Seq<VarModel>, TypeVarId), InferError> {
    if vars.len() > u32::MAX {
        Err(InferError::TooManyVariables)
    } else {
        Ok((vars.push(table::fresh_var(vars, None)), TypeVarId(vars.len() as u32)))
    }
}

/// The variables after a step, and a type that it gave.
pub type WithTy = Result<(Seq<VarModel>, TyModel), InferError>;

/// A new general variable.
pub open spec fn new_type_var(vars: Seq<VarModel>) -> WithTy {
    match new_var(vars) {
        Ok((vars, v)) => Ok((vars, TyModel::Infer(InferTy::TypeVar(v)))),
        Err(e) => Err(e),
    }
}

/// A new integer variable.
pub open spec fn new_integer_var(vars: Seq<VarModel>) -> WithTy {
    match new_var(vars) {
        Ok((vars, v)) => Ok((vars, TyModel::Infer(InferTy::IntVar(v)))),
        Err(e) => Err(e),
    }
}

/// A new float variable.
pub open spec fn new_float_var(vars: Seq<VarModel>) -> WithTy {
    match new_var(vars) {
        Ok((vars, v)) => Ok((vars, TyModel::Infer(InferTy::FloatVar(v)))),
        Err(e) => Err(e),
    }
}

/// A new variable in place of a type that is not known, or of a number type that
/// a literal leaves open; any other type as it is.
pub open spec fn insert_shallow(vars: Seq<VarModel>, ty: TyModel) -> WithTy {
    match ty {
        TyModel::Unknown => new_type_var(vars),
        TyModel::Apply { ctor: TypeCtor::Int(UncertainIntTy::Unknown), .. } => new_integer_var(vars),
        TyModel::Apply { ctor: TypeCtor::Float(UncertainFloatTy::Unknown), .. } => new_float_var(
            vars,
        ),
        _ => Ok((vars, ty)),
    }
}

/// The type with new variables put into its parameters, and then in place of the
/// type itself.
pub open spec fn insert(vars: Seq<VarModel>, ty: TyModel) -> WithTy
    decreases ty,
{
    match ty {
        TyModel::Apply { ctor, params } => match insert_all(vars, params) {
            Ok((vars, params)) => insert_shallow(vars, TyModel::Apply { ctor, params }),
            Err(e) => Err(e),
        },
        _ => insert_shallow(vars, ty),
    }
}

/// The types of a list with new variables put into them, from the first to the
/// last.
pub open spec fn insert_all(vars: Seq<VarModel>, tys: Seq<TyModel>) -> Result<
    (Seq<VarModel>, Seq<TyModel>),
    InferError,
>
    decreases tys,
{
    if tys.len() == 0 {
        Ok((vars, Seq::empty()))
    } else {
        match insert(vars, tys[0]) {
            Err(e) => Err(e),
            Ok((vars, t)) => match insert_all(vars, tys.skip(1)) {
                Err(e) => Err(e),
                Ok((vars, ts)) => Ok((vars, seq![t] + ts)),
            },
        }
    }
}

/// Whether a call had the outcome.
pub open spec fn gave_ty(r: Result<Ty, InferError>, vars: Seq<VarModel>, m: WithTy) -> bool {
    match m {
        Ok((after, t)) => r is Ok && r->Ok_0@ == t && vars == after,
        Err(e) => r == Err::<Ty, InferError>(e),
    }
}

spec fn after_front(
    front: Seq<TyModel>,
    rest: Result<(Seq<VarModel>, Seq<TyModel>), InferError>,
) -> Result<(Seq<VarModel>, Seq<TyModel>), InferError> {
    match rest {
        Ok((vars, tys)) => Ok((vars, front + tys)),
        Err(e) => Err(e),
    }
}

impl VarTable {
    pub fn new_type_var(&mut self) -> (r: Result<Ty, InferError>)
        ensures
            gave_ty(r, final(self)@, new_type_var(old(self)@)),
    {
        let v = self.new_key()?;
        Ok(Ty::Infer(InferTy::TypeVar(v)))
    }

    pub fn new_integer_var(&mut self) -> (r: Result<Ty, InferError>)
        ensures
            gave_ty(r, final(self)@, new_integer_var(old(self)@)),
    {
        let v = self.new_key()?;
        Ok(Ty::Infer(InferTy::IntVar(v)))
    }

    pub fn new_float_var(&mut self) -> (r: Result<Ty, InferError>)
        ensures
            gave_ty(r, final(self)@, new_float_var(old(self)@)),
    {
        let v = self.new_key()?;
        Ok(Ty::Infer(InferTy::FloatVar(v)))
    }

    /// Replaces an unknown type by a new variable, so that it can maybe still be
    /// inferred.
    pub fn insert_type_vars_shallow(&mut self, ty: Ty) -> (r: Result<Ty, InferError>)
        ensures
            gave_ty(r, final(self)@, insert_shallow(old(self)@, ty@)),
    {
        match &ty {
            Ty::Unknown => self.new_type_var(),
            Ty::Apply(a) => match a.ctor {
                TypeCtor::Int(UncertainIntTy::Unknown) => self.new_integer_var(),
                TypeCtor::Float(UncertainFloatTy::Unknown) => self.new_float_var(),
                _ => Ok(ty),
            },
            _ => Ok(ty),
        }
    }

    /// Replaces each unknown type in a type by a new variable.
    pub fn insert_type_vars(&mut self, ty: &Ty) -> (r: Result<Ty, InferError>)
        ensures
            gave_ty(r, final(self)@, insert(old(self)@, ty@)),
        decreases ty,
    {
        match ty {
            Ty::Apply(a) => {
                proof {
                    ty::lemma_apply_model(*a);
                }
                let params = &a.parameters;
                let ghost total = insert_all(self@, params@);
                let mut tys: Vec<Ty> = Vec::new();
                let mut i: usize = 0;
                proof {
                    assert(params@.skip(0) =~= params@);
                    if let Ok((_, ts)) = total {
                        assert(ty::models(tys@) + ts =~= ts);
                    }
                }
                while i < params.0.len()
                    invariant
                        i <= params.0.len(),
                        decreases_to!(*ty => params.0@),
                        ty@ == (TyModel::Apply { ctor: a.ctor, params: params@ }),
                        total == insert_all(old(self)@, params@),
                        after_front(ty::models(tys@), insert_all(self@, params@.skip(i as int)))
                            == total,
                    decreases params.0.len() - i,
                {
                    assert(params@.skip(i as int)[0] == params.0@[i as int]@);
                    assert(params@.skip(i as int).skip(1) =~= params@.skip(i + 1));
                    let t = self.insert_type_vars(&params.0[i])?;
                    let ghost before = ty::models(tys@);
                    tys.push(t);
                    proof {
                        assert(ty::models(tys@) =~= before.push(t@));
                        if let Ok((_, ts)) = insert_all(self@, params@.skip(i + 1)) {
                            assert(before + (seq![t@] + ts) =~= before.push(t@) + ts);
                        }
                    }
                    i += 1;
                }
                assert(ty::models(tys@) + Seq::<TyModel>::empty() =~= ty::models(tys@));
                self.insert_type_vars_shallow(Ty::apply(a.ctor, Substs(tys)))
            },
            _ => self.insert_type_vars_shallow(ty.clone()),
        }
    }
}

} // verus!
