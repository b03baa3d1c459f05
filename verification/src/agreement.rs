//! When two types that have been unified are one type in the end.

use vstd::prelude::*;

use crate::kinds::Kind;
use crate::solution::Assignment;
use crate::table::VarModel;
use crate::ty::{InferTy, TyModel, TypeCtor, TypeVarId};
use crate::unify::UnifyStep;
use crate::{kinds, resolve, settled, solution, table, ty, unify};

verus! {

/// How many parameters each type constructor has.
pub type Arity = spec_fn(TypeCtor) -> nat;

/// A height for each variable, by its number.
pub type Height = spec_fn(int) -> nat;

/// Whether nothing is unknown in the type, and each constructor in it has its number of
/// parameters.
pub open spec fn regular(arity: Arity, ty: TyModel) -> bool
    decreases ty,
{
    match ty {
        TyModel::Unknown => false,
        TyModel::Apply { ctor, params } => params.len() == arity(ctor) && forall|i: int|
            0 <= i < params.len() ==> regular(arity, #[trigger] params[i]),
        _ => true,
    }
}

pub open spec fn all_regular(arity: Arity, tys: Seq<TyModel>) -> bool {
    forall|i: int| 0 <= i < tys.len() ==> regular(arity, #[trigger] tys[i])
}

/// The same of each known type of a variable.
pub open spec fn vars_regular(arity: Arity, vars: Seq<VarModel>) -> bool {
    forall|i: int|
        0 <= i < vars.len() ==> ((#[trigger] vars[i]).value matches Some(t) ==> regular(arity, t))
}

/// Whether the variables in the type are lower than `top`.
pub open spec fn lower(height: Height, top: nat, ty: TyModel) -> bool
    decreases ty,
{
    match ty {
        TyModel::Apply { params, .. } => forall|i: int|
            0 <= i < params.len() ==> lower(height, top, #[trigger] params[i]),
        TyModel::Infer(tv) => height(ty::inner_var(tv).0 as int) < top,
        _ => true,
    }
}

/// Whether each variable is higher than those in its known type.
pub open spec fn descends(vars: Seq<VarModel>, height: Height) -> bool {
    forall|i: int|
        0 <= i < vars.len() ==> ((#[trigger] vars[i]).value matches Some(t) ==> lower(
            height,
            height(i),
            t,
        ))
}

/// Whether no variable occurs in its own known type, nor in the known types of those that
/// occur there, and so on.
pub open spec fn acyclic(vars: Seq<VarModel>) -> bool {
    exists|height: Height| #[trigger] descends(vars, height)
}

proof fn lemma_shallow_regular(arity: Arity, vars: Seq<VarModel>, ty: TyModel, steps: nat)
    requires
        vars_regular(arity, vars),
        regular(arity, ty),
    ensures
        unify::shallow(vars, ty, steps) matches Ok(t) ==> regular(arity, t),
    decreases steps,
{
    if let TyModel::Infer(tv) = ty {
        if steps > 0 {
            if let Ok(Some(known)) = table::probe(vars, ty::inner_var(tv)) {
                lemma_shallow_regular(arity, vars, known, (steps - 1) as nat);
            }
        }
    }
}

/// Two regular types that have been unified are equal, whatever types the variables turn
/// out to stand for.
proof fn lemma_unified(
    f: Assignment,
    arity: Arity,
    vars: Seq<VarModel>,
    a: TyModel,
    b: TyModel,
    depth: nat,
)
    requires
        solution::partitioned(vars),
        vars_regular(arity, vars),
        regular(arity, a),
        regular(arity, b),
    ensures
        unify::unify_at(vars, a, b, depth) matches Ok((after, true)) ==> {
            &&& vars_regular(arity, after)
            &&& solution::solves(f, after) ==> solution::apply(f, a) == solution::apply(f, b)
        },
    decreases unify::UNIFICATION_LIMIT + 1 - depth, 0nat,
{
    if depth <= unify::UNIFICATION_LIMIT && a != b {
        let steps = unify::SHALLOW_STEPS as nat;
        if let (Ok(x), Ok(y)) = (unify::shallow(vars, a, steps), unify::shallow(vars, b, steps)) {
            lemma_shallow_regular(arity, vars, a, steps);
            lemma_shallow_regular(arity, vars, b, steps);
            solution::lemma_unify_at(f, vars, a, b, depth);
            if solution::solves(f, vars) {
                solution::lemma_shallow(f, vars, a, steps);
                solution::lemma_shallow(f, vars, b, steps);
            }
            match unify::unify_step(x, y) {
                UnifyStep::Params(xs, ys) => {
                    lemma_all_unified(f, arity, vars, xs, ys, depth + 1);
                    if let Ok((after, true)) = unify::unify_all_at(vars, xs, ys, depth + 1) {
                        if solution::solves(f, after) {
                            assert(solution::apply(f, x)->params =~= solution::apply(
                                f,
                                y,
                            )->params);
                        }
                    }
                },
                UnifyStep::Join(v, w) => {
                    if table::has_var(vars, v) && table::has_var(vars, w) {
                        solution::lemma_joined(f, vars, v, w);
                    }
                },
                UnifyStep::Assign(v, ty) => {
                    if table::has_var(vars, v) {
                        solution::lemma_assigned(f, vars, v, ty);
                    }
                },
                _ => {},
            }
        }
    }
}

proof fn lemma_all_unified(
    f: Assignment,
    arity: Arity,
    vars: Seq<VarModel>,
    xs: Seq<TyModel>,
    ys: Seq<TyModel>,
    depth: nat,
)
    requires
        solution::partitioned(vars),
        vars_regular(arity, vars),
        all_regular(arity, xs),
        all_regular(arity, ys),
        xs.len() == ys.len(),
    ensures
        unify::unify_all_at(vars, xs, ys, depth) matches Ok((after, true)) ==> {
            &&& vars_regular(arity, after)
            &&& solution::solves(f, after) ==> forall|i: int|
                0 <= i < xs.len() ==> solution::apply(f, #[trigger] xs[i]) == solution::apply(
                    f,
                    ys[i],
                )
        },
    decreases unify::UNIFICATION_LIMIT + 1 - depth, xs.len() + 1,
{
    if xs.len() > 0 {
        lemma_unified(f, arity, vars, xs[0], ys[0], depth);
        solution::lemma_unify_at(f, vars, xs[0], ys[0], depth);
        if let Ok((mid, true)) = unify::unify_at(vars, xs[0], ys[0], depth) {
            let (us, ws) = (xs.skip(1), ys.skip(1));
            lemma_all_unified(f, arity, mid, us, ws, depth);
            solution::lemma_unify_all_at(f, mid, us, ws, depth);
            assert forall|i: int| 1 <= i < xs.len() implies xs[i] == us[i - 1] && ys[i] == ws[i
                - 1] by {}
        }
    }
}

/// What a variable stands for: its known type, with what the variables in that stand for,
/// or its fallback.
spec fn stand_for(vars: Seq<VarModel>, ks: Seq<Kind>, height: Height, i: int) -> TyModel
    decreases height(i), 1nat, TyModel::Unknown,
{
    match vars[i].value {
        Some(t) => image(vars, ks, height, i, t),
        None => match ks[i] {
            Kind::General => ty::fallback(InferTy::TypeVar(TypeVarId(0))),
            Kind::Integer => ty::fallback(InferTy::IntVar(TypeVarId(0))),
            Kind::Float => ty::fallback(InferTy::FloatVar(TypeVarId(0))),
        },
    }
}

/// The type with what the variables in it, which are lower than the `i`th, stand for.
spec fn image(
    vars: Seq<VarModel>,
    ks: Seq<Kind>,
    height: Height,
    i: int,
    ty: TyModel,
) -> TyModel
    decreases height(i), 0nat, ty,
{
    match ty {
        TyModel::Apply { ctor, params } => TyModel::Apply {
            ctor,
            params: Seq::new(
                params.len(),
                |k: int|
                    if 0 <= k < params.len() {
                        image(vars, ks, height, i, params[k])
                    } else {
                        TyModel::Unknown
                    },
            ),
        },
        TyModel::Infer(tv) => {
            let j = ty::inner_var(tv).0 as int;
            if height(j) < height(i) {
                stand_for(vars, ks, height, j)
            } else {
                TyModel::Unknown
            }
        },
        _ => ty,
    }
}

proof fn lemma_image(
    f: Assignment,
    vars: Seq<VarModel>,
    ks: Seq<Kind>,
    height: Height,
    i: int,
    ty: TyModel,
)
    requires
        forall|j: int| #[trigger] f(j) == stand_for(vars, ks, height, j),
        lower(height, height(i), ty),
    ensures
        image(vars, ks, height, i, ty) == solution::apply(f, ty),
    decreases ty,
{
    if let TyModel::Apply { params, .. } = ty {
        assert forall|k: int| 0 <= k < params.len() implies image(
            vars,
            ks,
            height,
            i,
            #[trigger] params[k],
        ) == solution::apply(f, params[k]) by {
            lemma_image(f, vars, ks, height, i, params[k]);
        }
        assert(image(vars, ks, height, i, ty)->params =~= solution::apply(f, ty)->params);
    }
}

/// Without cycles there are types for the variables that go with all that is known, where
/// a variable of which nothing is known stands for its fallback.
proof fn lemma_solution(vars: Seq<VarModel>, ks: Seq<Kind>) -> (f: Assignment)
    requires
        kinds::consistent(vars, ks),
        acyclic(vars),
    ensures
        solution::solves(f, vars),
        settled::falls_back(f, vars, ks),
{
    let height = choose|height: Height| #[trigger] descends(vars, height);
    let f = |i: int| stand_for(vars, ks, height, i);
    assert forall|i: int| 0 <= i < vars.len() implies #[trigger] solution::solves_var(
        f,
        vars,
        i,
    ) by {
        if let Some(t) = vars[i].value {
            lemma_image(f, vars, ks, height, i, t);
        }
        assert forall|j: int| #[trigger] vars[i].class.contains(j) implies f(j) == f(i) by {
            assert(vars[j] == vars[i]);
            if let Some(t) = vars[j].value {
                lemma_image(f, vars, ks, height, j, t);
            }
        }
    }
    f
}

/// Regular types that have been unified become one type when they are resolved completely.
pub proof fn lemma_resolve_alike(
    arity: Arity,
    vars: Seq<VarModel>,
    ks: Seq<Kind>,
    a: TyModel,
    b: TyModel,
    after: Seq<VarModel>,
)
    requires
        kinds::consistent(vars, ks),
        kinds::well_kinded(a, ks),
        kinds::well_kinded(b, ks),
        vars_regular(arity, vars),
        regular(arity, a),
        regular(arity, b),
        unify::unify(vars, a, b) matches Ok((v, true)) && v == after,
        acyclic(after),
    ensures
        resolve::completely(after, Seq::empty(), a) is Ok,
        resolve::completely(after, Seq::empty(), a) == resolve::completely(
            after,
            Seq::empty(),
            b,
        ),
{
    kinds::lemma_unify_keeps(vars, ks, a, b, 0);
    let f = lemma_solution(after, ks);
    lemma_unified(f, arity, vars, a, b, 0);
    settled::lemma_completely_is_solution(f, after, ks, a);
    settled::lemma_completely_is_solution(f, after, ks, b);
}

} // verus!
