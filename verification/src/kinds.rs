//! The kinds of variables, and what a variable of each kind can stand for.

use vstd::prelude::*;

use crate::error::InferError;
use crate::table::VarModel;
use crate::ty::{InferTy, TyModel, TypeVarId};
use crate::unify::UnifyStep;
use crate::{solution, table, ty, unify};

verus! {

/// A variable stands for any type, for an integer type or for a float type.
pub enum Kind {
    General,
    Integer,
    Float,
}

/// The kind of the variable in a placeholder.
pub open spec fn kind_of(tv: InferTy) -> Kind {
    match tv {
        InferTy::TypeVar(_) => Kind::General,
        InferTy::IntVar(_) => Kind::Integer,
        InferTy::FloatVar(_) => Kind::Float,
    }
}

/// Whether each variable in the type exists and is of the kind that the type says.
pub open spec fn well_kinded(ty: TyModel, kinds: Seq<Kind>) -> bool
    decreases ty,
{
    match ty {
        TyModel::Apply { params, .. } => forall|i: int|
            0 <= i < params.len() ==> well_kinded(#[trigger] params[i], kinds),
        TyModel::Infer(tv) => {
            let v = ty::inner_var(tv).0 as int;
            v < kinds.len() && kinds[v] == kind_of(tv)
        },
        _ => true,
    }
}

pub open spec fn all_well_kinded(tys: Seq<TyModel>, kinds: Seq<Kind>) -> bool {
    forall|i: int| 0 <= i < tys.len() ==> well_kinded(#[trigger] tys[i], kinds)
}

/// Whether a variable of a kind can get this type: never an unknown type, and never
/// another variable unless that one is more special.
pub open spec fn can_stand_for(kind: Kind, ty: TyModel) -> bool {
    match ty {
        TyModel::Unknown => false,
        TyModel::Infer(tv) => match (kind, kind_of(tv)) {
            (Kind::General, Kind::Integer) => true,
            (Kind::General, Kind::Float) => true,
            (Kind::Integer, Kind::Float) => true,
            _ => false,
        },
        _ => true,
    }
}

/// Whether what is known of the variables goes with their kinds.
pub open spec fn consistent(vars: Seq<VarModel>, kinds: Seq<Kind>) -> bool {
    &&& kinds.len() == vars.len()
    &&& solution::partitioned(vars)
    &&& forall|i: int, j: int|
        0 <= i < vars.len() && #[trigger] vars[i].class.contains(j) ==> kinds[j] == kinds[i]
    &&& forall|i: int|
        0 <= i < vars.len() ==> ((#[trigger] vars[i]).value matches Some(t) ==> {
            &&& well_kinded(t, kinds)
            &&& can_stand_for(kinds[i], t)
        })
}

/// Whether all that was known of the variables is still known: those that were equal
/// are, and a known type stays.
pub open spec fn more_known(before: Seq<VarModel>, after: Seq<VarModel>) -> bool {
    &&& before.len() <= after.len()
    &&& forall|i: int|
        0 <= i < before.len() ==> {
            &&& (#[trigger] before[i]).class.subset_of(after[i].class)
            &&& before[i].value is Some ==> after[i].value == before[i].value
        }
}

pub open spec fn extends(kinds: Seq<Kind>, longer: Seq<Kind>) -> bool {
    kinds.len() <= longer.len() && forall|i: int|
        0 <= i < kinds.len() ==> #[trigger] longer[i] == kinds[i]
}

/// Whether the type is no variable whose type is known.
pub open spec fn looked_up(vars: Seq<VarModel>, ty: TyModel) -> bool {
    ty matches TyModel::Infer(tv) ==> vars[ty::inner_var(tv).0 as int].value is None
}

/// How many look-ups can be needed to find out what a type stands for.
pub open spec fn rank(ty: TyModel) -> nat {
    match ty {
        TyModel::Infer(InferTy::TypeVar(_)) => 3,
        TyModel::Infer(InferTy::IntVar(_)) => 2,
        TyModel::Infer(InferTy::FloatVar(_)) => 1,
        _ => 0,
    }
}

pub proof fn lemma_well_kinded_extends(ty: TyModel, kinds: Seq<Kind>, longer: Seq<Kind>)
    requires
        well_kinded(ty, kinds),
        extends(kinds, longer),
    ensures
        well_kinded(ty, longer),
    decreases ty,
{
    match ty {
        TyModel::Apply { params, .. } => {
            assert forall|i: int| 0 <= i < params.len() implies well_kinded(
                #[trigger] params[i],
                longer,
            ) by {
                lemma_well_kinded_extends(params[i], kinds, longer);
            }
        },
        TyModel::Infer(tv) => {
            let v = ty::inner_var(tv).0 as int;
            assert(longer[v] == kinds[v]);
        },
        _ => {},
    }
}

pub proof fn lemma_all_well_kinded_extends(
    tys: Seq<TyModel>,
    kinds: Seq<Kind>,
    longer: Seq<Kind>,
)
    requires
        all_well_kinded(tys, kinds),
        extends(kinds, longer),
    ensures
        all_well_kinded(tys, longer),
{
    assert forall|i: int| 0 <= i < tys.len() implies well_kinded(#[trigger] tys[i], longer) by {
        lemma_well_kinded_extends(tys[i], kinds, longer);
    }
}

pub proof fn lemma_more_known_trans(a: Seq<VarModel>, b: Seq<VarModel>, c: Seq<VarModel>)
    requires
        more_known(a, b),
        more_known(b, c),
    ensures
        more_known(a, c),
{
    assert forall|i: int| 0 <= i < a.len() implies {
        &&& (#[trigger] a[i]).class.subset_of(c[i].class)
        &&& a[i].value is Some ==> c[i].value == a[i].value
    } by {
        assert(b[i].class.subset_of(c[i].class));
    }
}

/// Enough look-ups lead to a type that is no variable with a known type.
pub proof fn lemma_look_up(vars: Seq<VarModel>, kinds: Seq<Kind>, ty: TyModel, steps: nat)
    requires
        consistent(vars, kinds),
        well_kinded(ty, kinds),
        rank(ty) <= steps,
    ensures
        unify::shallow(vars, ty, steps) matches Ok(t) && well_kinded(t, kinds) && looked_up(
            vars,
            t,
        ) && (ty is Unknown || !(t is Unknown)),
    decreases steps,
{
    if let TyModel::Infer(tv) = ty {
        let v = ty::inner_var(tv).0 as int;
        assert(v < vars.len());
        if let Some(known) = vars[v].value {
            assert(rank(known) < rank(ty));
            lemma_look_up(vars, kinds, known, (steps - 1) as nat);
        }
    }
}

/// More look-ups than needed change nothing.
pub proof fn lemma_look_up_steps(
    vars: Seq<VarModel>,
    kinds: Seq<Kind>,
    ty: TyModel,
    steps: nat,
    more: nat,
)
    requires
        consistent(vars, kinds),
        well_kinded(ty, kinds),
        rank(ty) <= steps,
        steps <= more,
    ensures
        unify::shallow(vars, ty, more) == unify::shallow(vars, ty, steps),
    decreases steps,
{
    if let TyModel::Infer(tv) = ty {
        let v = ty::inner_var(tv).0 as int;
        if let Some(known) = vars[v].value {
            lemma_look_up_steps(vars, kinds, known, (steps - 1) as nat, (more - 1) as nat);
        }
    }
}

/// When more is known, a type stands for what it stood for, or for what that stands
/// for now.
pub proof fn lemma_look_up_later(
    vars: Seq<VarModel>,
    later: Seq<VarModel>,
    kinds: Seq<Kind>,
    ty: TyModel,
    steps: nat,
)
    requires
        consistent(vars, kinds),
        consistent(later, kinds),
        more_known(vars, later),
        well_kinded(ty, kinds),
        rank(ty) <= steps,
    ensures
        unify::shallow(vars, ty, steps) matches Ok(t) && unify::shallow(later, ty, steps)
            == unify::shallow(later, t, 3),
    decreases steps,
{
    lemma_look_up(vars, kinds, ty, steps);
    if let TyModel::Infer(tv) = ty {
        let v = ty::inner_var(tv).0 as int;
        assert(vars[v].class.subset_of(later[v].class));
        if let Some(known) = vars[v].value {
            assert(rank(known) < rank(ty));
            lemma_look_up_later(vars, later, kinds, known, (steps - 1) as nat);
        } else if steps <= 3 {
            lemma_look_up_steps(later, kinds, ty, steps, 3);
        } else {
            lemma_look_up_steps(later, kinds, ty, 3, steps);
        }
    }
}

/// To make two variables of one kind equal, neither of which has a known type, keeps
/// the variables consistent.
proof fn lemma_join_consistent(
    vars: Seq<VarModel>,
    kinds: Seq<Kind>,
    a: TypeVarId,
    b: TypeVarId,
)
    requires
        consistent(vars, kinds),
        table::has_var(vars, a),
        table::has_var(vars, b),
        kinds[a.0 as int] == kinds[b.0 as int],
        vars[a.0 as int].value is None,
        vars[b.0 as int].value is None,
    ensures
        table::union(vars, a, b) matches Ok(after) && consistent(after, kinds) && more_known(
            vars,
            after,
        ) && after[a.0 as int] == after[b.0 as int] && after[a.0 as int].class.contains(b.0 as int),
{
    let (i, j) = (a.0 as int, b.0 as int);
    let f = |k: int| TyModel::Unknown;
    solution::lemma_joined(f, vars, a, b);
    let after = table::joined(vars, a, b)->Ok_0;
    if vars[i].class.contains(j) {
        assert(vars[j] == vars[i]);
    } else {
        let class = vars[i].class.union(vars[j].class);
        assert(vars[i].class.contains(i));
        assert(vars[j].class.contains(j));
        assert forall|k: int, l: int|
            0 <= k < after.len() && #[trigger] after[k].class.contains(l) implies kinds[l]
            == kinds[k] by {
            if class.contains(k) {
                assert(vars[i].class.contains(k) || vars[j].class.contains(k));
                assert(vars[i].class.contains(l) || vars[j].class.contains(l));
            } else {
                assert(vars[k].class.contains(l));
            }
        }
        assert forall|k: int| 0 <= k < vars.len() implies (#[trigger] vars[k]).class.subset_of(
            after[k].class,
        ) && (vars[k].value is Some ==> after[k].value == vars[k].value) by {
            if class.contains(k) {
                assert(vars[k] == vars[i] || vars[k] == vars[j]);
            }
        }
        assert forall|k: int| 0 <= k < after.len() implies ((#[trigger] after[k]).value matches Some(
            t,
        ) ==> {
            &&& well_kinded(t, kinds)
            &&& can_stand_for(kinds[k], t)
        }) by {
            assert(after[k].value is Some ==> after[k] == vars[k]);
        }
    }
}

/// To give a variable without a known type a type that it can stand for keeps the
/// variables consistent.
proof fn lemma_assign_consistent(vars: Seq<VarModel>, kinds: Seq<Kind>, v: TypeVarId, ty: TyModel)
    requires
        consistent(vars, kinds),
        table::has_var(vars, v),
        vars[v.0 as int].value is None,
        well_kinded(ty, kinds),
        can_stand_for(kinds[v.0 as int], ty),
    ensures
        table::union_value(vars, v, ty) matches Ok(after) && consistent(after, kinds)
            && more_known(vars, after) && after[v.0 as int].value == Some(ty),
{
    let i = v.0 as int;
    let f = |k: int| TyModel::Unknown;
    solution::lemma_assigned(f, vars, v, ty);
    let after = table::assigned(vars, v, Some(ty))->Ok_0;
    let class = vars[i].class;
    assert(class.contains(i));
    assert forall|k: int, l: int|
        0 <= k < after.len() && #[trigger] after[k].class.contains(l) implies kinds[l]
        == kinds[k] by {
        assert(vars[k].class.contains(k));
        if class.contains(k) {
            assert(vars[k] == vars[i]);
        }
        assert(vars[k].class.contains(l));
    }
    assert forall|k: int| 0 <= k < vars.len() implies (#[trigger] vars[k]).class.subset_of(
        after[k].class,
    ) && (vars[k].value is Some ==> after[k].value == vars[k].value) by {
        if class.contains(k) {
            assert(vars[k] == vars[i]);
        }
    }
    assert forall|k: int| 0 <= k < after.len() implies ((#[trigger] after[k]).value matches Some(t)
        ==> {
        &&& well_kinded(t, kinds)
        &&& can_stand_for(kinds[k], t)
    }) by {
        if class.contains(k) {
            assert(kinds[k] == kinds[i]);
        } else {
            assert(after[k] == vars[k]);
        }
    }
}

/// What unification keeps: the variables stay consistent and all that was known stays
/// known. It fails on no variable, whether it is missing or already known.
pub open spec fn unify_keeps(
    vars: Seq<VarModel>,
    kinds: Seq<Kind>,
    outcome: unify::Unified,
) -> bool {
    match outcome {
        Ok((after, _)) => consistent(after, kinds) && more_known(vars, after),
        Err(e) => e == InferError::UnificationDepth,
    }
}

pub proof fn lemma_unify_keeps(
    vars: Seq<VarModel>,
    kinds: Seq<Kind>,
    a: TyModel,
    b: TyModel,
    depth: nat,
)
    requires
        consistent(vars, kinds),
        well_kinded(a, kinds),
        well_kinded(b, kinds),
    ensures
        unify_keeps(vars, kinds, unify::unify_at(vars, a, b, depth)),
    decreases unify::UNIFICATION_LIMIT + 1 - depth, 0nat,
{
    if depth <= unify::UNIFICATION_LIMIT && a != b {
        lemma_look_up(vars, kinds, a, 3);
        lemma_look_up(vars, kinds, b, 3);
        let x = unify::shallow(vars, a, 3)->Ok_0;
        let y = unify::shallow(vars, b, 3)->Ok_0;
        match unify::unify_step(x, y) {
            UnifyStep::Accept => {},
            UnifyStep::Reject => {},
            UnifyStep::Params(xs, ys) => {
                lemma_unify_all_keeps(vars, kinds, xs, ys, depth + 1);
            },
            UnifyStep::Join(v, w) => {
                lemma_join_consistent(vars, kinds, v, w);
            },
            UnifyStep::Assign(v, ty) => {
                lemma_assign_consistent(vars, kinds, v, ty);
            },
        }
    }
}

pub proof fn lemma_unify_all_keeps(
    vars: Seq<VarModel>,
    kinds: Seq<Kind>,
    xs: Seq<TyModel>,
    ys: Seq<TyModel>,
    depth: nat,
)
    requires
        consistent(vars, kinds),
        all_well_kinded(xs, kinds),
        all_well_kinded(ys, kinds),
    ensures
        unify_keeps(vars, kinds, unify::unify_all_at(vars, xs, ys, depth)),
    decreases unify::UNIFICATION_LIMIT + 1 - depth, xs.len() + 1,
{
    if xs.len() > 0 && ys.len() > 0 {
        lemma_unify_keeps(vars, kinds, xs[0], ys[0], depth);
        if let Ok((mid, true)) = unify::unify_at(vars, xs[0], ys[0], depth) {
            lemma_unify_all_keeps(mid, kinds, xs.skip(1), ys.skip(1), depth);
            if let Ok((after, _)) = unify::unify_all_at(mid, xs.skip(1), ys.skip(1), depth) {
                lemma_more_known_trans(vars, mid, after);
            }
        }
    }
}

/// To unify a type with itself changes nothing.
proof fn lemma_unify_same(vars: Seq<VarModel>, xs: Seq<TyModel>, depth: nat)
    ensures
        unify::unify_all_at(vars, xs, xs, depth) matches Ok((after, _)) ==> after == vars,
        unify::unify_all_at(vars, xs, xs, depth) matches Err(e) ==> e
            == InferError::UnificationDepth,
    decreases xs.len(),
{
    if xs.len() > 0 {
        let first = unify::unify_at(vars, xs[0], xs[0], depth);
        assert(first is Ok ==> first == Ok::<(Seq<VarModel>, bool), InferError>((vars, true)));
        lemma_unify_same(vars, xs.skip(1), depth);
    }
}

/// Nothing is left to learn from two types: to unify them, if it does not go too deep,
/// changes nothing; where that failed before it fails again.
pub open spec fn nothing_new(
    later: Seq<VarModel>,
    first: unify::Unified,
    again: unify::Unified,
) -> bool {
    match again {
        Ok((after, ok)) => after == later && (first matches Ok((_, false)) ==> !ok),
        Err(e) => e == InferError::UnificationDepth,
    }
}

/// To unify two types again, now that more is known, teaches nothing.
pub proof fn lemma_unify_again(
    vars: Seq<VarModel>,
    later: Seq<VarModel>,
    kinds: Seq<Kind>,
    a: TyModel,
    b: TyModel,
    depth: nat,
)
    requires
        consistent(vars, kinds),
        consistent(later, kinds),
        well_kinded(a, kinds),
        well_kinded(b, kinds),
        unify::unify_at(vars, a, b, depth) matches Ok((after, _)) && more_known(after, later),
    ensures
        nothing_new(
            later,
            unify::unify_at(vars, a, b, depth),
            unify::unify_at(later, a, b, depth),
        ),
    decreases unify::UNIFICATION_LIMIT + 1 - depth, 0nat,
{
    if a != b {
        let after = unify::unify_at(vars, a, b, depth)->Ok_0.0;
        lemma_unify_keeps(vars, kinds, a, b, depth);
        lemma_more_known_trans(vars, after, later);
        lemma_look_up(vars, kinds, a, 3);
        lemma_look_up(vars, kinds, b, 3);
        lemma_look_up_later(vars, later, kinds, a, 3);
        lemma_look_up_later(vars, later, kinds, b, 3);
        lemma_look_up(later, kinds, a, 3);
        lemma_look_up(later, kinds, b, 3);
        let x = unify::shallow(vars, a, 3)->Ok_0;
        let y = unify::shallow(vars, b, 3)->Ok_0;
        let x2 = unify::shallow(later, a, 3)->Ok_0;
        let y2 = unify::shallow(later, b, 3)->Ok_0;
        match unify::unify_step(x, y) {
            UnifyStep::Accept => {},
            UnifyStep::Reject => {},
            UnifyStep::Params(xs, ys) => {
                lemma_unify_all_again(vars, later, kinds, xs, ys, depth + 1);
            },
            UnifyStep::Join(v, w) => {
                lemma_join_consistent(vars, kinds, v, w);
                let (i, j) = (v.0 as int, w.0 as int);
                assert(after[i].class.subset_of(later[i].class));
                assert(later[i].class.contains(j));
                assert(later[j] == later[i]);
                if let Some(known) = later[i].value {
                    assert(x2 == y2);
                    lemma_stands_for_one(later, kinds, x2, depth);
                } else {
                    assert(unify::shallow(later, x, 3) == Ok::<TyModel, InferError>(x));
                    assert(unify::shallow(later, y, 3) == Ok::<TyModel, InferError>(y));
                }
            },
            UnifyStep::Assign(v, ty) => {
                lemma_assign_consistent(vars, kinds, v, ty);
                let i = v.0 as int;
                assert(after[i].class.subset_of(later[i].class));
                assert(later[i].value == Some(ty));
                assert(rank(ty) <= 2);
                lemma_look_up_steps(later, kinds, ty, 2, 3);
                assert(x2 == y2);
                lemma_stands_for_one(later, kinds, x2, depth);
            },
        }
    }
}

/// Two types that stand for one type teach nothing.
proof fn lemma_stands_for_one(vars: Seq<VarModel>, kinds: Seq<Kind>, z: TyModel, depth: nat)
    requires
        consistent(vars, kinds),
        well_kinded(z, kinds),
        looked_up(vars, z),
    ensures
        match unify::unify_step(z, z) {
            UnifyStep::Params(xs, ys) => xs == ys && match unify::unify_all_at(
                vars,
                xs,
                ys,
                depth + 1,
            ) {
                Ok((after, _)) => after == vars,
                Err(e) => e == InferError::UnificationDepth,
            },
            UnifyStep::Join(v, w) => table::union(vars, v, w) == Ok::<Seq<VarModel>, InferError>(
                vars,
            ),
            UnifyStep::Assign(_, _) => false,
            _ => true,
        },
{
    match z {
        TyModel::Apply { params, .. } => {
            lemma_unify_same(vars, params, depth + 1);
        },
        TyModel::Infer(tv) => {
            let v = ty::inner_var(tv).0 as int;
            assert(vars[v].class.contains(v));
        },
        _ => {},
    }
}

pub proof fn lemma_unify_all_again(
    vars: Seq<VarModel>,
    later: Seq<VarModel>,
    kinds: Seq<Kind>,
    xs: Seq<TyModel>,
    ys: Seq<TyModel>,
    depth: nat,
)
    requires
        consistent(vars, kinds),
        consistent(later, kinds),
        all_well_kinded(xs, kinds),
        all_well_kinded(ys, kinds),
        unify::unify_all_at(vars, xs, ys, depth) matches Ok((after, _)) && more_known(after, later),
    ensures
        nothing_new(
            later,
            unify::unify_all_at(vars, xs, ys, depth),
            unify::unify_all_at(later, xs, ys, depth),
        ),
    decreases unify::UNIFICATION_LIMIT + 1 - depth, xs.len() + 1,
{
    if xs.len() > 0 && ys.len() > 0 {
        lemma_unify_keeps(vars, kinds, xs[0], ys[0], depth);
        let (mid, ok) = unify::unify_at(vars, xs[0], ys[0], depth)->Ok_0;
        let after = unify::unify_all_at(vars, xs, ys, depth)->Ok_0.0;
        if ok {
            lemma_unify_all_keeps(mid, kinds, xs.skip(1), ys.skip(1), depth);
            lemma_more_known_trans(mid, after, later);
            lemma_unify_again(vars, later, kinds, xs[0], ys[0], depth);
            lemma_unify_all_again(mid, later, kinds, xs.skip(1), ys.skip(1), depth);
        } else {
            lemma_unify_again(vars, later, kinds, xs[0], ys[0], depth);
        }
    }
}

} // verus!
