//! Replacing variables by the types they stand for.

use vstd::prelude::*;

use crate::error::InferError;
use crate::table::{VarModel, VarTable};
use crate::ty::{Substs, Ty, TyModel, TypeVarId};
use crate::{table, ty};

verus! {

/// The variables below `n` that are not on the stack.
pub open spec fn unvisited(n: nat, stack: Seq<TypeVarId>) -> Set<int> {
    Set::new(
        |i: int|
            0 <= i < n && !exists|k: int| 0 <= k < stack.len() && (#[trigger] stack[k]).0 == i,
    )
}

pub proof fn lemma_unvisited_finite(n: nat, stack: Seq<TypeVarId>)
    ensures
        unvisited(n, stack).finite(),
{
    let all = vstd::set_lib::set_int_range(0, n as int);
    vstd::set_lib::lemma_int_range(0, n as int);
    vstd::set_lib::lemma_len_subset(unvisited(n, stack), all);
}

/// To put a variable on the stack leaves fewer that can still be put there.
pub proof fn lemma_unvisited_shrinks(n: nat, stack: Seq<TypeVarId>, v: TypeVarId)
    requires
        v.0 < n,
        !stack.contains(v),
    ensures
        unvisited(n, stack.push(v)).len() < unvisited(n, stack).len(),
{
    lemma_unvisited_finite(n, stack);
    let after = stack.push(v);
    assert(unvisited(n, after) =~= unvisited(n, stack).remove(v.0 as int)) by {
        assert(after[stack.len() as int] == v);
        assert forall|i: int| unvisited(n, stack).remove(v.0 as int).contains(i) implies unvisited(
            n,
            after,
        ).contains(i) by {
            assert forall|k: int| 0 <= k < after.len() implies (#[trigger] after[k]).0 != i by {
                if k < stack.len() {
                    assert(after[k] == stack[k]);
                }
            }
        }
        assert forall|i: int| unvisited(n, after).contains(i) implies unvisited(
            n,
            stack,
        ).contains(i) && i != v.0 by {
            assert forall|k: int| 0 <= k < stack.len() implies (#[trigger] stack[k]).0 != i by {
                assert(after[k] == stack[k]);
            }
        }
    }
    assert(unvisited(n, stack).contains(v.0 as int)) by {
        assert forall|k: int| 0 <= k < stack.len() implies (#[trigger] stack[k]).0 != v.0 by {
            if stack[k].0 == v.0 {
                assert(stack[k] == v);
            }
        }
    }
}

/// The type with each variable replaced by the type it stands for, and that type
/// resolved in turn. A variable of which nothing is known, and one that occurs
/// in the type it stands for, are replaced by their fallback. The stack holds the
/// variables whose types are being resolved.
pub open spec fn completely(vars: Seq<VarModel>, stack: Seq<TypeVarId>, ty: TyModel) -> Result<
    TyModel,
    InferError,
>
    decreases unvisited(vars.len(), stack).len(), ty,
{
    match ty {
        TyModel::Apply { ctor, params } => match completely_all(vars, stack, params) {
            Ok(params) => Ok(TyModel::Apply { ctor, params }),
            Err(e) => Err(e),
        },
        TyModel::Infer(tv) => {
            let v = ty::inner_var(tv);
            if stack.contains(v) {
                Ok(ty::fallback(tv))
            } else if !table::has_var(vars, v) {
                Err(InferError::NoSuchVariable)
            } else {
                match vars[v.0 as int].value {
                    Some(known) => {
                        proof {
                            lemma_unvisited_shrinks(vars.len(), stack, v);
                        }
                        completely(vars, stack.push(v), known)
                    },
                    None => Ok(ty::fallback(tv)),
                }
            }
        },
        _ => Ok(ty),
    }
}

/// The types of a list, each resolved completely.
pub open spec fn completely_all(
    vars: Seq<VarModel>,
    stack: Seq<TypeVarId>,
    tys: Seq<TyModel>,
) -> Result<Seq<TyModel>, InferError>
    decreases unvisited(vars.len(), stack).len(), tys,
{
    if tys.len() == 0 {
        Ok(Seq::empty())
    } else {
        match completely(vars, stack, tys[0]) {
            Err(e) => Err(e),
            Ok(t) => match completely_all(vars, stack, tys.skip(1)) {
                Err(e) => Err(e),
                Ok(ts) => Ok(seq![t] + ts),
            },
        }
    }
}

/// A list with some types in front.
pub open spec fn after_types(front: Seq<TyModel>, rest: Result<Seq<TyModel>, InferError>) -> Result<
    Seq<TyModel>,
    InferError,
> {
    match rest {
        Ok(tys) => Ok(front + tys),
        Err(e) => Err(e),
    }
}

/// Whether a variable is on the stack.
pub fn on_stack(stack: &Vec<TypeVarId>, v: TypeVarId) -> (r: bool)
    ensures
        r == stack@.contains(v),
{
    let mut i: usize = 0;
    while i < stack.len()
        invariant
            i <= stack.len(),
            forall|j: int| 0 <= j < i ==> stack@[j] != v,
        decreases stack.len() - i,
    {
        if stack[i] == v {
            return true;
        }
        i += 1;
    }
    false
}

impl VarTable {
    /// Resolves the type completely; variables without known type are replaced by
    /// their fallback.
    pub fn resolve_ty_completely(&mut self, tv_stack: &mut Vec<TypeVarId>, ty: &Ty) -> (r: Result<
        Ty,
        InferError,
    >)
        ensures
            final(self)@ == old(self)@,
            match completely(old(self)@, old(tv_stack)@, ty@) {
                Ok(m) => r is Ok && r->Ok_0@ == m && final(tv_stack)@ == old(tv_stack)@,
                Err(e) => r == Err::<Ty, InferError>(e),
            },
        decreases unvisited(old(self)@.len(), old(tv_stack)@).len(), ty,
    {
        match ty {
            Ty::Apply(a) => {
                proof {
                    ty::lemma_apply_model(*a);
                }
                let params = &a.parameters;
                let mut tys: Vec<Ty> = Vec::new();
                let mut i: usize = 0;
                assert(params@.skip(0) =~= params@);
                assert(ty::models(tys@) =~= Seq::empty());
                assert(after_types(
                    ty::models(tys@),
                    completely_all(self@, tv_stack@, params@),
                ) == completely_all(self@, tv_stack@, params@)) by {
                    if let Ok(ts) = completely_all(self@, tv_stack@, params@) {
                        assert(ty::models(tys@) + ts =~= ts);
                    }
                }
                while i < params.0.len()
                    invariant
                        i <= params.0.len(),
                        self@ == old(self)@,
                        tv_stack@ == old(tv_stack)@,
                        decreases_to!(*ty => params.0@),
                        ty@ == (TyModel::Apply { ctor: a.ctor, params: params@ }),
                        after_types(
                            ty::models(tys@),
                            completely_all(self@, tv_stack@, params@.skip(i as int)),
                        ) == completely_all(self@, tv_stack@, params@),
                    decreases params.0.len() - i,
                {
                    assert(params@.skip(i as int)[0] == params.0@[i as int]@);
                    assert(params@.skip(i as int).skip(1) =~= params@.skip(i + 1));
                    let t = self.resolve_ty_completely(tv_stack, &params.0[i])?;
                    let ghost before = ty::models(tys@);
                    tys.push(t);
                    proof {
                        assert(ty::models(tys@) =~= before.push(t@));
                        if let Ok(ts) = completely_all(self@, tv_stack@, params@.skip(i + 1)) {
                            assert(before + (seq![t@] + ts) =~= before.push(t@) + ts);
                        }
                    }
                    i += 1;
                }
                assert(ty::models(tys@) + Seq::<TyModel>::empty() =~= ty::models(tys@));
                Ok(Ty::apply(a.ctor, Substs(tys)))
            },
            Ty::Infer(tv) => {
                let inner = tv.to_inner();
                if on_stack(tv_stack, inner) {
                    // recursive type
                    return Ok(tv.fallback_value());
                }
                let value = self.probe_value(inner)?;
                match value.known() {
                    Some(known) => {
                        // the known type may contain variables that are known by now
                        proof {
                            lemma_unvisited_shrinks(self@.len(), tv_stack@, inner);
                        }
                        tv_stack.push(inner);
                        let result = self.resolve_ty_completely(tv_stack, known)?;
                        tv_stack.pop();
                        assert(tv_stack@ =~= old(tv_stack)@);
                        Ok(result)
                    },
                    None => Ok(tv.fallback_value()),
                }
            },
            _ => Ok(ty.clone()),
        }
    }
}

} // verus!
