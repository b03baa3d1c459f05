//! Making two types equal by finding out about the variables in them.

use vstd::prelude::*;

use crate::error::InferError;
use crate::table::{VarModel, VarTable};
use crate::ty::{InferTy, Substs, Ty, TyModel, TypeVarId};
use crate::{table, ty};

verus! {

/// How deep unification may go into two types before it gives up.
pub const UNIFICATION_LIMIT: usize = 1000;

/// How often a variable is looked up to find the type behind it: a general
/// variable can stand for an integer variable, and that for a float variable.
pub const SHALLOW_STEPS: usize = 3;

/// The type that a variable stands for, after at most `steps` look-ups; any
/// other type as it is.
pub open spec fn shallow(vars: Seq<VarModel>, ty: TyModel, steps: nat) -> Result<TyModel, InferError>
    decreases steps,
{
    match ty {
        TyModel::Infer(tv) if steps > 0 => match table::probe(vars, ty::inner_var(tv)) {
            Ok(Some(known)) => shallow(vars, known, (steps - 1) as nat),
            Ok(None) => Ok(ty),
            Err(e) => Err(e),
        },
        _ => Ok(ty),
    }
}

/// What has to be done to make two types equal whose variables have been looked
/// up.
pub enum UnifyStep {
    /// Nothing: one of them is unknown.
    Accept,
    /// They cannot be made equal.
    Reject,
    /// Make their parameters equal.
    Params(Seq<TyModel>, Seq<TyModel>),
    /// Make two variables equal.
    Join(TypeVarId, TypeVarId),
    /// Give a variable its type.
    Assign(TypeVarId, TyModel),
}

/// Whether two variables are of one kind.
pub open spec fn same_kind(a: InferTy, b: InferTy) -> bool {
    match (a, b) {
        (InferTy::TypeVar(_), InferTy::TypeVar(_)) => true,
        (InferTy::IntVar(_), InferTy::IntVar(_)) => true,
        (InferTy::FloatVar(_), InferTy::FloatVar(_)) => true,
        _ => false,
    }
}

/// Of a general variable and another type, the variable gets the type; without
/// one, an integer variable does, and else a float variable.
pub open spec fn unify_step(a: TyModel, b: TyModel) -> UnifyStep {
    match (a, b) {
        (TyModel::Unknown, _) => UnifyStep::Accept,
        (_, TyModel::Unknown) => UnifyStep::Accept,
        (
            TyModel::Apply { ctor: c, params: xs },
            TyModel::Apply { ctor: d, params: ys },
        ) => if c == d {
            UnifyStep::Params(xs, ys)
        } else {
            UnifyStep::Reject
        },
        (TyModel::Infer(v), TyModel::Infer(w)) if same_kind(v, w) => UnifyStep::Join(
            ty::inner_var(v),
            ty::inner_var(w),
        ),
        (TyModel::Infer(InferTy::TypeVar(v)), _) => UnifyStep::Assign(v, b),
        (_, TyModel::Infer(InferTy::TypeVar(v))) => UnifyStep::Assign(v, a),
        (TyModel::Infer(InferTy::IntVar(v)), _) => UnifyStep::Assign(v, b),
        (_, TyModel::Infer(InferTy::IntVar(v))) => UnifyStep::Assign(v, a),
        (TyModel::Infer(InferTy::FloatVar(v)), _) => UnifyStep::Assign(v, b),
        (_, TyModel::Infer(InferTy::FloatVar(v))) => UnifyStep::Assign(v, a),
        _ => UnifyStep::Reject,
    }
}

/// The outcome of unification: the variables after it, and whether the two types
/// could be made equal.
pub type Unified = Result<(Seq<VarModel>, bool), InferError>;

/// The outcome of unifying two types at some depth.
pub open spec fn unify_at(vars: Seq<VarModel>, a: TyModel, b: TyModel, depth: nat) -> Unified
    decreases UNIFICATION_LIMIT + 1 - depth, 0nat,
{
    if depth > UNIFICATION_LIMIT {
        Err(InferError::UnificationDepth)
    } else if a == b {
        Ok((vars, true))
    } else {
        match (
            shallow(vars, a, SHALLOW_STEPS as nat),
            shallow(vars, b, SHALLOW_STEPS as nat),
        ) {
            (Err(e), _) => Err(e),
            (_, Err(e)) => Err(e),
            (Ok(x), Ok(y)) => match unify_step(x, y) {
                UnifyStep::Accept => Ok((vars, true)),
                UnifyStep::Reject => Ok((vars, false)),
                UnifyStep::Params(xs, ys) => unify_all_at(vars, xs, ys, depth + 1),
                UnifyStep::Join(v, w) => match table::union(vars, v, w) {
                    Ok(vars) => Ok((vars, true)),
                    Err(e) => Err(e),
                },
                UnifyStep::Assign(v, ty) => match table::union_value(vars, v, ty) {
                    Ok(vars) => Ok((vars, true)),
                    Err(e) => Err(e),
                },
            },
        }
    }
}

/// The outcome of unifying two lists of types one by one, up to the end of the
/// shorter list or the first two types that cannot be made equal.
pub open spec fn unify_all_at(
    vars: Seq<VarModel>,
    xs: Seq<TyModel>,
    ys: Seq<TyModel>,
    depth: nat,
) -> Unified
    decreases UNIFICATION_LIMIT + 1 - depth, xs.len() + 1,
{
    if xs.len() == 0 || ys.len() == 0 {
        Ok((vars, true))
    } else {
        match unify_at(vars, xs[0], ys[0], depth) {
            Ok((vars, true)) => unify_all_at(vars, xs.skip(1), ys.skip(1), depth),
            other => other,
        }
    }
}

/// The outcome of unifying two types.
pub open spec fn unify(vars: Seq<VarModel>, a: TyModel, b: TyModel) -> Unified {
    unify_at(vars, a, b, 0)
}

/// Whether a call had the outcome.
pub open spec fn has_outcome(r: Result<bool, InferError>, vars: Seq<VarModel>, m: Unified) -> bool {
    match m {
        Ok((after, b)) => r == Ok::<bool, InferError>(b) && vars == after,
        Err(e) => r == Err::<bool, InferError>(e),
    }
}

impl VarTable {
    /// If the type is a variable with known type, returns that type; otherwise
    /// returns the type.
    pub fn resolve_ty_shallow(&mut self, ty: &Ty) -> (r: Result<Ty, InferError>)
        ensures
            final(self)@ == old(self)@,
            match r {
                Ok(t) => shallow(old(self)@, ty@, SHALLOW_STEPS as nat) == Ok::<_, InferError>(t@),
                Err(e) => shallow(old(self)@, ty@, SHALLOW_STEPS as nat) == Err::<TyModel, _>(e),
            },
    {
        let mut cur = ty.clone();
        let mut i: usize = 0;
        while i < SHALLOW_STEPS
            invariant
                i <= SHALLOW_STEPS,
                self@ == old(self)@,
                shallow(self@, cur@, (SHALLOW_STEPS - i) as nat) == shallow(
                    self@,
                    ty@,
                    SHALLOW_STEPS as nat,
                ),
            decreases SHALLOW_STEPS - i,
        {
            let tv = match &cur {
                Ty::Infer(tv) => *tv,
                _ => {
                    return Ok(cur);
                },
            };
            let value = self.probe_value(tv.to_inner())?;
            match value.known() {
                Some(known) => {
                    cur = known.clone();
                },
                None => {
                    return Ok(cur);
                },
            }
            i += 1;
        }
        Ok(cur)
    }

    /// Makes the types of two lists equal one by one, up to the end of the shorter
    /// list; stops at the first two that cannot be made equal.
    pub fn unify_substs(&mut self, substs1: &Substs, substs2: &Substs, depth: usize) -> (r: Result<
        bool,
        InferError,
    >)
        ensures
            has_outcome(
                r,
                final(self)@,
                unify_all_at(old(self)@, substs1@, substs2@, depth as nat),
            ),
        decreases UNIFICATION_LIMIT + 1 - depth, 1nat,
    {
        let ghost total = unify_all_at(self@, substs1@, substs2@, depth as nat);
        let mut i: usize = 0;
        assert(substs1@.skip(0) =~= substs1@);
        assert(substs2@.skip(0) =~= substs2@);
        while i < substs1.0.len() && i < substs2.0.len()
            invariant
                i <= substs1.0.len(),
                i <= substs2.0.len(),
                unify_all_at(
                    self@,
                    substs1@.skip(i as int),
                    substs2@.skip(i as int),
                    depth as nat,
                ) == total,
                total == unify_all_at(old(self)@, substs1@, substs2@, depth as nat),
            decreases substs1.0.len() - i,
        {
            assert(substs1@.skip(i as int)[0] == substs1.0@[i as int]@);
            assert(substs2@.skip(i as int)[0] == substs2.0@[i as int]@);
            assert(substs1@.skip(i as int).skip(1) =~= substs1@.skip(i + 1));
            assert(substs2@.skip(i as int).skip(1) =~= substs2@.skip(i + 1));
            if !self.unify_inner(&substs1.0[i], &substs2.0[i], depth)? {
                return Ok(false);
            }
            i += 1;
        }
        Ok(true)
    }

    /// Makes two types equal, if that is possible, by finding out about the
    /// variables in them.
    pub fn unify(&mut self, ty1: &Ty, ty2: &Ty) -> (r: Result<bool, InferError>)
        ensures
            has_outcome(r, final(self)@, unify(old(self)@, ty1@, ty2@)),
    {
        self.unify_inner(ty1, ty2, 0)
    }

    /// The same for types at some depth in others; above the limit it gives up.
    pub fn unify_inner(&mut self, ty1: &Ty, ty2: &Ty, depth: usize) -> (r: Result<bool, InferError>)
        ensures
            has_outcome(r, final(self)@, unify_at(old(self)@, ty1@, ty2@, depth as nat)),
        decreases UNIFICATION_LIMIT + 1 - depth, 0nat,
    {
        if depth > UNIFICATION_LIMIT {
            return Err(InferError::UnificationDepth);
        }
        if *ty1 == *ty2 {
            return Ok(true);
        }
        // try to resolve variables first
        let ty1 = self.resolve_ty_shallow(ty1)?;
        let ty2 = self.resolve_ty_shallow(ty2)?;
        match (&ty1, &ty2) {
            (Ty::Unknown, _) => Ok(true),
            (_, Ty::Unknown) => Ok(true),
            (Ty::Apply(a), Ty::Apply(b)) => {
                proof {
                    ty::lemma_apply_model(*a);
                    ty::lemma_apply_model(*b);
                }
                if a.ctor == b.ctor {
                    self.unify_substs(&a.parameters, &b.parameters, depth + 1)
                } else {
                    Ok(false)
                }
            },
            (Ty::Infer(InferTy::TypeVar(v)), Ty::Infer(InferTy::TypeVar(w)))
            | (Ty::Infer(InferTy::IntVar(v)), Ty::Infer(InferTy::IntVar(w)))
            | (Ty::Infer(InferTy::FloatVar(v)), Ty::Infer(InferTy::FloatVar(w))) => {
                self.union(*v, *w)?;
                Ok(true)
            },
            (Ty::Infer(InferTy::TypeVar(v)), other)
            | (other, Ty::Infer(InferTy::TypeVar(v)))
            | (Ty::Infer(InferTy::IntVar(v)), other)
            | (other, Ty::Infer(InferTy::IntVar(v)))
            | (Ty::Infer(InferTy::FloatVar(v)), other)
            | (other, Ty::Infer(InferTy::FloatVar(v))) => {
                self.union_value(*v, other.clone())?;
                Ok(true)
            },
            _ => Ok(false),
        }
    }
}

} // verus!
