//! What unification means: which types the variables can stand for.

use vstd::prelude::*;

use crate::table::VarModel;
use crate::ty::{TyModel, TypeVarId};
use crate::unify::UnifyStep;
use crate::{table, ty, unify};

verus! {

/// A type for each variable, by its number.
pub type Assignment = spec_fn(int) -> TyModel;

/// The type with each variable replaced by the type that it is assigned.
pub open spec fn apply(f: Assignment, ty: TyModel) -> TyModel
    decreases ty,
{
    match ty {
        TyModel::Apply { ctor, params } => TyModel::Apply {
            ctor,
            params: Seq::new(
                params.len(),
                |i: int|
                    if 0 <= i < params.len() {
                        apply(f, params[i])
                    } else {
                        TyModel::Unknown
                    },
            ),
        },
        TyModel::Infer(tv) => f(ty::inner_var(tv).0 as int),
        _ => ty,
    }
}

/// Whether each variable is in its own class, and the variables of a class share
/// what is known of them.
pub open spec fn partitioned(vars: Seq<VarModel>) -> bool {
    forall|i: int|
        0 <= i < vars.len() ==> {
            &&& (#[trigger] vars[i]).class.contains(i)
            &&& forall|j: int| #[trigger]
                vars[i].class.contains(j) ==> 0 <= j < vars.len() && vars[j] == vars[i]
        }
}

/// Whether an assignment gives a variable what is known of it: the type of those
/// that it is equal to, and its own type.
pub open spec fn solves_var(f: Assignment, vars: Seq<VarModel>, i: int) -> bool {
    &&& forall|j: int| #[trigger] vars[i].class.contains(j) ==> f(j) == f(i)
    &&& vars[i].value matches Some(t) ==> f(i) == apply(f, t)
}

/// Whether an assignment gives every variable what is known of it.
pub open spec fn solves(f: Assignment, vars: Seq<VarModel>) -> bool {
    forall|i: int| 0 <= i < vars.len() ==> #[trigger] solves_var(f, vars, i)
}

/// Whether two types are equal up to what is unknown in them, and up to parameters
/// that only one of them has.
pub open spec fn agree(a: TyModel, b: TyModel) -> bool
    decreases a,
{
    match (a, b) {
        (TyModel::Unknown, _) => true,
        (_, TyModel::Unknown) => true,
        (TyModel::Apply { ctor: c, params: xs }, TyModel::Apply { ctor: d, params: ys }) => {
            c == d && forall|i: int|
                0 <= i < xs.len() && i < ys.len() ==> agree(#[trigger] xs[i], ys[i])
        },
        _ => a == b,
    }
}

/// Whether no type parameter occurs in the type.
pub open spec fn param_free(ty: TyModel) -> bool
    decreases ty,
{
    match ty {
        TyModel::Apply { params, .. } => forall|i: int|
            0 <= i < params.len() ==> param_free(#[trigger] params[i]),
        TyModel::Param { .. } => false,
        _ => true,
    }
}

/// Whether no type parameter occurs in what the variables of the type stand for.
pub open spec fn images_param_free(f: Assignment, ty: TyModel) -> bool
    decreases ty,
{
    match ty {
        TyModel::Apply { params, .. } => forall|i: int|
            0 <= i < params.len() ==> images_param_free(f, #[trigger] params[i]),
        TyModel::Infer(tv) => param_free(f(ty::inner_var(tv).0 as int)),
        _ => true,
    }
}

pub proof fn lemma_images_param_free(f: Assignment, ty: TyModel)
    requires
        param_free(apply(f, ty)),
    ensures
        images_param_free(f, ty),
    decreases ty,
{
    if let TyModel::Apply { params, .. } = ty {
        let image = apply(f, ty)->params;
        assert forall|i: int| 0 <= i < params.len() implies images_param_free(
            f,
            #[trigger] params[i],
        ) by {
            assert(param_free(image[i]));
            lemma_images_param_free(f, params[i]);
        }
    }
}

proof fn lemma_agree_same(a: TyModel)
    ensures
        agree(a, a),
    decreases a,
{
    if let TyModel::Apply { params, .. } = a {
        assert forall|i: int| 0 <= i < params.len() implies agree(#[trigger] params[i], params[i]) by {
            lemma_agree_same(params[i]);
        }
    }
}

pub proof fn lemma_shallow(f: Assignment, vars: Seq<VarModel>, ty: TyModel, steps: nat)
    requires
        solves(f, vars),
    ensures
        unify::shallow(vars, ty, steps) matches Ok(t) ==> {
            &&& apply(f, t) == apply(f, ty)
            &&& images_param_free(f, ty) ==> images_param_free(f, t)
            &&& !(ty is Infer) ==> t == ty
        },
    decreases steps,
{
    if let TyModel::Infer(tv) = ty {
        let v = ty::inner_var(tv);
        if steps > 0 && (v.0 as int) < vars.len() {
            assert(solves_var(f, vars, v.0 as int));
            if let Some(known) = vars[v.0 as int].value {
                if images_param_free(f, ty) {
                    lemma_images_param_free(f, known);
                }
                lemma_shallow(f, vars, known, (steps - 1) as nat);
            }
        }
    }
}

/// To make two variables equal keeps the classes apart, and asks of an assignment
/// that it gives them one type, and nothing else.
pub proof fn lemma_joined(f: Assignment, vars: Seq<VarModel>, a: TypeVarId, b: TypeVarId)
    requires
        partitioned(vars),
        table::has_var(vars, a),
        table::has_var(vars, b),
    ensures
        table::joined(vars, a, b) matches Ok(after) ==> {
            &&& partitioned(after)
            &&& after.len() == vars.len()
            &&& solves(f, after) <==> solves(f, vars) && f(a.0 as int) == f(b.0 as int)
        },
{
    let (i, j) = (a.0 as int, b.0 as int);
    let (x, y) = (vars[i], vars[j]);
    if x.class.contains(j) {
        if solves(f, vars) {
            assert(solves_var(f, vars, i));
        }
    } else if let Ok(value) = table::merged_value(x.value, y.value) {
        let class = x.class.union(y.class);
        let after = table::with_class(vars, class, value);
        assert forall|k: int| 0 <= k < after.len() implies {
            &&& (#[trigger] after[k]).class.contains(k)
            &&& forall|l: int| #[trigger]
                after[k].class.contains(l) ==> 0 <= l < after.len() && after[l] == after[k]
        } by {
            assert(vars[k].class.contains(k));
            if !class.contains(k) {
                assert forall|l: int| #[trigger] after[k].class.contains(l) implies 0 <= l
                    < after.len() && after[l] == after[k] by {
                    assert(vars[k].class.contains(l));
                    assert(vars[l] == vars[k]);
                    if class.contains(l) {
                        if x.class.contains(l) {
                            assert(vars[l] == x);
                        } else {
                            assert(vars[l] == y);
                        }
                        assert(false);
                    }
                }
            }
        }
        if solves(f, after) {
            assert(x.class.contains(i) && y.class.contains(j));
            assert(solves_var(f, after, i));
            assert(after[i].class.contains(j));
            assert forall|k: int| 0 <= k < vars.len() implies #[trigger] solves_var(f, vars, k) by {
                assert(solves_var(f, after, k));
                assert(vars[k].class.contains(k));
                if class.contains(k) {
                    assert(vars[k] == x || vars[k] == y);
                    assert forall|l: int| #[trigger] vars[k].class.contains(l) implies f(l)
                        == f(k) by {
                        assert(after[k].class.contains(l));
                    }
                }
            }
        }
        if solves(f, vars) && f(i) == f(j) {
            assert(solves_var(f, vars, i));
            assert(solves_var(f, vars, j));
            assert forall|k: int| 0 <= k < after.len() implies #[trigger] solves_var(
                f,
                after,
                k,
            ) by {
                assert(solves_var(f, vars, k));
                if class.contains(k) {
                    assert(f(k) == f(i));
                    assert forall|l: int| #[trigger] after[k].class.contains(l) implies f(l)
                        == f(k) by {
                        if x.class.contains(l) {
                            assert(f(l) == f(i));
                        } else {
                            assert(f(l) == f(j));
                        }
                    }
                }
            }
        }
    }
}

/// To give a variable its type keeps the classes apart, and asks of an assignment
/// that it gives the variable that type, and nothing else.
pub proof fn lemma_assigned(f: Assignment, vars: Seq<VarModel>, v: TypeVarId, ty: TyModel)
    requires
        partitioned(vars),
        table::has_var(vars, v),
    ensures
        table::assigned(vars, v, Some(ty)) matches Ok(after) ==> {
            &&& partitioned(after)
            &&& after.len() == vars.len()
            &&& solves(f, after) <==> solves(f, vars) && f(v.0 as int) == apply(f, ty)
        },
{
    let i = v.0 as int;
    let x = vars[i];
    if let Ok(after) = table::assigned(vars, v, Some(ty)) {
        let class = x.class;
        assert(class.contains(i));
        assert forall|k: int| 0 <= k < after.len() implies {
            &&& (#[trigger] after[k]).class.contains(k)
            &&& forall|l: int| #[trigger]
                after[k].class.contains(l) ==> 0 <= l < after.len() && after[l] == after[k]
        } by {
            assert(vars[k].class.contains(k));
            assert forall|l: int| #[trigger] after[k].class.contains(l) implies 0 <= l
                < after.len() && after[l] == after[k] by {
                assert(vars[k].class.contains(l));
                assert(vars[l] == vars[k]);
                if class.contains(l) {
                    assert(vars[l] == x);
                    assert(class.contains(k));
                }
            }
        }
        if solves(f, after) {
            assert(solves_var(f, after, i));
            assert forall|k: int| 0 <= k < vars.len() implies #[trigger] solves_var(f, vars, k) by {
                assert(solves_var(f, after, k));
                if class.contains(k) {
                    assert(vars[k] == x);
                    assert forall|l: int| #[trigger] vars[k].class.contains(l) implies f(l)
                        == f(k) by {
                        assert(after[k].class.contains(l));
                    }
                }
            }
        }
        if solves(f, vars) && f(i) == apply(f, ty) {
            assert(solves_var(f, vars, i));
            assert forall|k: int| 0 <= k < after.len() implies #[trigger] solves_var(
                f,
                after,
                k,
            ) by {
                assert(solves_var(f, vars, k));
                if class.contains(k) {
                    assert(f(k) == f(i));
                    assert forall|l: int| #[trigger] after[k].class.contains(l) implies f(l)
                        == f(k) by {
                        assert(f(l) == f(i));
                    }
                }
            }
        }
    }
}

/// What unification makes of an assignment: whatever solves the variables after it
/// solved them before and makes the two types agree, and whatever solved them before
/// and makes the two types equal still does.
pub open spec fn unifies(
    f: Assignment,
    vars: Seq<VarModel>,
    a: TyModel,
    b: TyModel,
    outcome: unify::Unified,
) -> bool {
    outcome matches Ok((after, ok)) ==> {
        &&& partitioned(after)
        &&& after.len() == vars.len()
        &&& solves(f, after) ==> solves(f, vars)
        &&& ok && solves(f, after) ==> agree(apply(f, a), apply(f, b))
        &&& solves(f, vars) && apply(f, a) == apply(f, b) ==> solves(f, after)
        &&& solves(f, vars) && apply(f, a) == apply(f, b) && images_param_free(f, a)
            && images_param_free(f, b) ==> ok
    }
}

/// The same of two lists.
pub open spec fn unifies_all(
    f: Assignment,
    vars: Seq<VarModel>,
    xs: Seq<TyModel>,
    ys: Seq<TyModel>,
    outcome: unify::Unified,
) -> bool {
    outcome matches Ok((after, ok)) ==> {
        let equal = forall|i: int|
            0 <= i < xs.len() && i < ys.len() ==> apply(f, #[trigger] xs[i]) == apply(f, ys[i]);
        let free = forall|i: int|
            0 <= i < xs.len() && i < ys.len() ==> images_param_free(f, #[trigger] xs[i])
                && images_param_free(f, ys[i]);
        &&& partitioned(after)
        &&& after.len() == vars.len()
        &&& solves(f, after) ==> solves(f, vars)
        &&& ok && solves(f, after) ==> forall|i: int|
            0 <= i < xs.len() && i < ys.len() ==> agree(apply(f, #[trigger] xs[i]), apply(f, ys[i]))
        &&& solves(f, vars) && equal ==> solves(f, after)
        &&& solves(f, vars) && equal && free ==> ok
    }
}

pub proof fn lemma_unify_at(f: Assignment, vars: Seq<VarModel>, a: TyModel, b: TyModel, depth: nat)
    requires
        partitioned(vars),
    ensures
        unifies(f, vars, a, b, unify::unify_at(vars, a, b, depth)),
    decreases unify::UNIFICATION_LIMIT + 1 - depth, 0nat,
{
    if depth <= unify::UNIFICATION_LIMIT {
        if a == b {
            lemma_agree_same(apply(f, a));
        } else {
            let steps = unify::SHALLOW_STEPS as nat;
            if let (Ok(x), Ok(y)) = (
                unify::shallow(vars, a, steps),
                unify::shallow(vars, b, steps),
            ) {
                if solves(f, vars) {
                    lemma_shallow(f, vars, a, steps);
                    lemma_shallow(f, vars, b, steps);
                }
                if x is Param && x == y {
                    // found behind a variable, since the types themselves differ
                    assert(a is Infer || b is Infer) by {
                        if !(a is Infer) && !(b is Infer) {
                            assert(x == a && y == b);
                        }
                    }
                } else {
                    lemma_step(f, vars, x, y, depth);
                }
            }
        }
    }
}

/// What unification means for an assignment.
pub proof fn lemma_unify(f: Assignment, vars: Seq<VarModel>, a: TyModel, b: TyModel)
    requires
        partitioned(vars),
    ensures
        unifies(f, vars, a, b, unify::unify(vars, a, b)),
{
    lemma_unify_at(f, vars, a, b, 0);
}

proof fn lemma_step(f: Assignment, vars: Seq<VarModel>, x: TyModel, y: TyModel, depth: nat)
    requires
        partitioned(vars),
        depth <= unify::UNIFICATION_LIMIT,
        !(x is Param && x == y),
    ensures
        unifies(
            f,
            vars,
            x,
            y,
            match unify::unify_step(x, y) {
                UnifyStep::Accept => Ok((vars, true)),
                UnifyStep::Reject => Ok((vars, false)),
                UnifyStep::Params(xs, ys) => unify::unify_all_at(vars, xs, ys, depth + 1),
                UnifyStep::Join(v, w) => match table::union(vars, v, w) {
                    Ok(vars) => Ok((vars, true)),
                    Err(e) => Err(e),
                },
                UnifyStep::Assign(v, ty) => match table::union_value(vars, v, ty) {
                    Ok(vars) => Ok((vars, true)),
                    Err(e) => Err(e),
                },
            },
        ),
    decreases unify::UNIFICATION_LIMIT + 1 - depth - 1, xs_len(x) + 2,
{
    match unify::unify_step(x, y) {
        UnifyStep::Accept => {},
        UnifyStep::Reject => {},
        UnifyStep::Params(xs, ys) => {
            lemma_unify_all_at(f, vars, xs, ys, depth + 1);
            let (p, q) = (apply(f, x), apply(f, y));
            if p == q {
                assert forall|i: int| 0 <= i < xs.len() && i < ys.len() implies apply(
                    f,
                    #[trigger] xs[i],
                ) == apply(f, ys[i]) by {
                    assert(p->params[i] == q->params[i]);
                }
            }
        },
        UnifyStep::Join(v, w) => {
            if table::has_var(vars, v) && table::has_var(vars, w) {
                lemma_joined(f, vars, v, w);
                lemma_agree_same(apply(f, x));
            }
        },
        UnifyStep::Assign(v, ty) => {
            if table::has_var(vars, v) {
                lemma_assigned(f, vars, v, ty);
                lemma_agree_same(apply(f, x));
            }
        },
    }
}

spec fn xs_len(x: TyModel) -> nat {
    ty::params_of(x).len()
}

pub proof fn lemma_unify_all_at(
    f: Assignment,
    vars: Seq<VarModel>,
    xs: Seq<TyModel>,
    ys: Seq<TyModel>,
    depth: nat,
)
    requires
        partitioned(vars),
    ensures
        unifies_all(f, vars, xs, ys, unify::unify_all_at(vars, xs, ys, depth)),
    decreases unify::UNIFICATION_LIMIT + 1 - depth, xs.len() + 1,
{
    if xs.len() > 0 && ys.len() > 0 {
        lemma_unify_at(f, vars, xs[0], ys[0], depth);
        if let Ok((mid, true)) = unify::unify_at(vars, xs[0], ys[0], depth) {
            let (us, ws) = (xs.skip(1), ys.skip(1));
            lemma_unify_all_at(f, mid, us, ws, depth);
            assert forall|i: int| 1 <= i < xs.len() implies xs[i] == us[i - 1] by {}
            assert forall|i: int| 1 <= i < ys.len() implies ys[i] == ws[i - 1] by {}
        }
    }
}

} // verus!
