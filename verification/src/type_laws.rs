//! What holds of operations on single types.

use vstd::prelude::*;

use crate::error::InferError;
use crate::kinds::Kind;
use crate::primitive::{
    FloatBitness, FloatTy, IntBitness, IntTy, Signedness, UncertainFloatTy, UncertainIntTy,
};
use crate::solution::Assignment;
use crate::table::VarModel;
use crate::ty::{InferTy, TyModel, TypeCtor, TypeVarId};
use crate::{fresh, kinds, meaning, resolve, settled, solution, table, ty, unify};

verus! {

/// Whether each type parameter in a type is one of the first.
pub open spec fn params_below(t: TyModel, n: nat) -> bool
    decreases t,
{
    match t {
        TyModel::Apply { params, .. } => forall|i: int|
            0 <= i < params.len() ==> params_below(#[trigger] params[i], n),
        TyModel::Param { idx, .. } => idx < n,
        _ => true,
    }
}

/// Whether each type parameter in a type has itself in its place in a list.
pub open spec fn has_own_params(t: TyModel, substs: Seq<TyModel>) -> bool
    decreases t,
{
    match t {
        TyModel::Apply { params, .. } => forall|i: int|
            0 <= i < params.len() ==> has_own_params(#[trigger] params[i], substs),
        TyModel::Param { idx, .. } => idx < substs.len() && substs[idx as int] == t,
        _ => true,
    }
}

/// To replace type parameters by themselves changes nothing.
pub proof fn substitution_of_own_parameters_is_the_identity(t: TyModel, substs: Seq<TyModel>)
    requires
        has_own_params(t, substs),
    ensures
        ty::subst(t, substs) == t,
    decreases t,
{
    if let TyModel::Apply { ctor, params } = t {
        let put = ty::subst(t, substs)->params;
        assert forall|i: int| 0 <= i < params.len() implies #[trigger] put[i] == params[i] by {
            assert(has_own_params(params[i], substs));
            substitution_of_own_parameters_is_the_identity(params[i], substs);
        }
        assert(put =~= params);
    }
}

/// If there is a type for each parameter, no parameter is left but those in these types.
pub proof fn substitution_leaves_no_parameter(t: TyModel, substs: Seq<TyModel>)
    requires
        params_below(t, substs.len()),
        forall|i: int| 0 <= i < substs.len() ==> solution::param_free(#[trigger] substs[i]),
    ensures
        solution::param_free(ty::subst(t, substs)),
    decreases t,
{
    if let TyModel::Apply { ctor, params } = t {
        let put = ty::subst(t, substs)->params;
        assert forall|i: int| 0 <= i < put.len() implies solution::param_free(
            #[trigger] put[i],
        ) by {
            assert(params_below(params[i], substs.len()));
            substitution_leaves_no_parameter(params[i], substs);
        }
    }
}

/// To replace parameters twice is to replace them once, by types in which the second
/// replacement has been made.
pub proof fn substitutions_compose(t: TyModel, first: Seq<TyModel>, second: Seq<TyModel>)
    requires
        params_below(t, first.len()),
    ensures
        ty::subst(ty::subst(t, first), second) == ty::subst(
            t,
            first.map_values(|x: TyModel| ty::subst(x, second)),
        ),
    decreases t,
{
    let both = first.map_values(|x: TyModel| ty::subst(x, second));
    if let TyModel::Apply { ctor, params } = t {
        let left = ty::subst(ty::subst(t, first), second)->params;
        let right = ty::subst(t, both)->params;
        assert forall|i: int| 0 <= i < params.len() implies #[trigger] left[i] == right[i] by {
            assert(params_below(params[i], first.len()));
            substitutions_compose(params[i], first, second);
        }
        assert(left =~= right);
    }
}

/// What a type stands for with types put in for its parameters is the type with what these
/// types stand for put in.
pub proof fn substitution_commutes_with_solutions(
    f: Assignment,
    t: TyModel,
    substs: Seq<TyModel>,
)
    requires
        settled::variable_free(t),
    ensures
        solution::apply(f, ty::subst(t, substs)) == ty::subst(
            t,
            substs.map_values(|x: TyModel| solution::apply(f, x)),
        ),
    decreases t,
{
    let images = substs.map_values(|x: TyModel| solution::apply(f, x));
    if let TyModel::Apply { ctor, params } = t {
        let left = solution::apply(f, ty::subst(t, substs))->params;
        let right = ty::subst(t, images)->params;
        assert forall|i: int| 0 <= i < params.len() implies #[trigger] left[i] == right[i] by {
            assert(settled::variable_free(params[i]));
            substitution_commutes_with_solutions(f, params[i], substs);
        }
        assert(left =~= right);
    }
}

/// A type with other parameters keeps its constructor; with its own it is the same.
pub proof fn parameters_can_be_replaced(t: TyModel, params: Seq<TyModel>)
    requires
        t is Apply,
    ensures
        ty::params_of(ty::with_params(t, params)) == params,
        ty::with_params(t, params)->ctor == t->ctor,
        ty::with_params(t, ty::params_of(t)) == t,
        ty::with_params(ty::with_params(t, params), ty::params_of(t)) == t,
{
}

/// A variable of which nothing is known in the end is an `i32` if it is one for integers, an
/// `f64` if it is one for floats, and otherwise not known.
pub proof fn unknown_variables_fall_back(vars: Seq<VarModel>, v: TypeVarId)
    requires
        (v.0 as int) < vars.len(),
        vars[v.0 as int].value is None,
    ensures
        resolve::completely(vars, Seq::empty(), TyModel::Infer(InferTy::IntVar(v))) == Ok::<
            TyModel,
            InferError,
        >(
            TyModel::Apply {
                ctor: TypeCtor::Int(
                    UncertainIntTy::Known(
                        IntTy { signedness: Signedness::Signed, bitness: IntBitness::X32 },
                    ),
                ),
                params: Seq::empty(),
            },
        ),
        resolve::completely(vars, Seq::empty(), TyModel::Infer(InferTy::FloatVar(v))) == Ok::<
            TyModel,
            InferError,
        >(
            TyModel::Apply {
                ctor: TypeCtor::Float(
                    UncertainFloatTy::Known(FloatTy { bitness: FloatBitness::X64 }),
                ),
                params: Seq::empty(),
            },
        ),
        resolve::completely(vars, Seq::empty(), TyModel::Infer(InferTy::TypeVar(v))) == Ok::<
            TyModel,
            InferError,
        >(TyModel::Unknown),
{
}

/// Whether a type fills what another leaves open, with what an assignment gives for the
/// variables of the other.
pub open spec fn fills(f: Assignment, source: TyModel, t: TyModel) -> bool
    decreases source,
{
    if settled::is_open(source) {
        true
    } else {
        match source {
            TyModel::Apply { ctor, params } => {
                &&& t is Apply
                &&& t->ctor == ctor
                &&& t->params.len() == params.len()
                &&& forall|i: int|
                    0 <= i < params.len() ==> fills(f, #[trigger] params[i], t->params[i])
            },
            _ => t == solution::apply(f, source),
        }
    }
}

/// Whether assignments are equal on the first variables.
pub open spec fn alike_below(f: Assignment, g: Assignment, n: nat) -> bool {
    forall|i: int| 0 <= i < n ==> #[trigger] g(i) == f(i)
}

proof fn lemma_alike(f: Assignment, g: Assignment, ks: Seq<Kind>, t: TyModel)
    requires
        alike_below(f, g, ks.len()),
        kinds::well_kinded(t, ks),
    ensures
        solution::apply(f, t) == solution::apply(g, t),
    decreases t,
{
    if let TyModel::Apply { params, .. } = t {
        let left = solution::apply(f, t)->params;
        let right = solution::apply(g, t)->params;
        assert forall|i: int| 0 <= i < params.len() implies #[trigger] left[i] == right[i] by {
            assert(kinds::well_kinded(params[i], ks));
            lemma_alike(f, g, ks, params[i]);
        }
        assert(left =~= right);
    }
}

/// Nothing is asked of a new variable.
pub proof fn lemma_new_var_free(f: Assignment, vars: Seq<VarModel>)
    requires
        solution::solves(f, vars),
    ensures
        fresh::new_var(vars) matches Ok((after, _)) ==> solution::solves(f, after),
{
    if let Ok((after, _)) = fresh::new_var(vars) {
        assert forall|i: int| 0 <= i < after.len() implies #[trigger] solution::solves_var(
            f,
            after,
            i,
        ) by {
            if i < vars.len() {
                assert(solution::solves_var(f, vars, i));
                assert(after[i] == vars[i]);
            }
        }
    }
}

/// Whatever variables are put into a type, nothing is asked of them.
pub proof fn lemma_insert_free(f: Assignment, vars: Seq<VarModel>, t: TyModel)
    requires
        solution::solves(f, vars),
    ensures
        fresh::insert(vars, t) matches Ok((after, _)) ==> solution::solves(f, after),
        fresh::insert_shallow(vars, t) matches Ok((after, _)) ==> solution::solves(f, after),
    decreases t,
{
    lemma_new_var_free(f, vars);
    if let TyModel::Apply { ctor, params } = t {
        lemma_insert_all_free(f, vars, params);
        if let Ok((mid, _)) = fresh::insert_all(vars, params) {
            lemma_new_var_free(f, mid);
        }
    }
}

proof fn lemma_insert_all_free(f: Assignment, vars: Seq<VarModel>, tys: Seq<TyModel>)
    requires
        solution::solves(f, vars),
    ensures
        fresh::insert_all(vars, tys) matches Ok((after, _)) ==> solution::solves(f, after),
    decreases tys,
{
    if tys.len() > 0 {
        lemma_insert_free(f, vars, tys[0]);
        if let Ok((mid, _)) = fresh::insert(vars, tys[0]) {
            lemma_insert_all_free(f, mid, tys.skip(1));
        }
    }
}

/// Variables for what a type leaves open can still be anything, each on its own: whatever
/// fills the type, and whatever the other variables are, there is a solution in which the
/// type with the variables stands for that.
pub proof fn inserted_variables_can_be_anything(
    f: Assignment,
    vars: Seq<VarModel>,
    ks: Seq<Kind>,
    source: TyModel,
    t: TyModel,
    after: Seq<VarModel>,
    full: TyModel,
) -> (g: Assignment)
    requires
        kinds::consistent(vars, ks),
        kinds::well_kinded(source, ks),
        solution::solves(f, vars),
        fills(f, source, t),
        fresh::insert(vars, source) == Ok::<(Seq<VarModel>, TyModel), InferError>((after, full)),
    ensures
        alike_below(f, g, vars.len()),
        solution::solves(g, after),
        solution::apply(g, full) == t,
{
    let (g, longer) = lemma_filled(f, vars, ks, source, t);
    lemma_still_solves(f, g, vars, ks);
    lemma_insert_free(g, vars, source);
    g
}

/// An assignment that only gives other types to new variables solves what it solved.
proof fn lemma_still_solves(f: Assignment, g: Assignment, vars: Seq<VarModel>, ks: Seq<Kind>)
    requires
        kinds::consistent(vars, ks),
        solution::solves(f, vars),
        alike_below(f, g, vars.len()),
    ensures
        solution::solves(g, vars),
{
    assert forall|i: int| 0 <= i < vars.len() implies #[trigger] solution::solves_var(
        g,
        vars,
        i,
    ) by {
        assert(solution::solves_var(f, vars, i));
        assert(vars[i].class.contains(i));
        assert(g(i) == f(i));
        assert forall|j: int| #[trigger] vars[i].class.contains(j) implies g(j) == g(i) by {
            assert(f(j) == f(i));
            assert(g(j) == f(j));
        }
        if let Some(known) = vars[i].value {
            lemma_alike(f, g, ks, known);
        }
    }
}

proof fn lemma_filled(
    f: Assignment,
    vars: Seq<VarModel>,
    ks: Seq<Kind>,
    source: TyModel,
    t: TyModel,
) -> (r: (Assignment, Seq<Kind>))
    requires
        kinds::consistent(vars, ks),
        kinds::well_kinded(source, ks),
        fills(f, source, t),
    ensures
        fresh::insert(vars, source) matches Ok((after, full)) ==> {
            &&& alike_below(f, r.0, vars.len())
            &&& solution::apply(r.0, full) == t
            &&& kinds::consistent(after, r.1)
            &&& kinds::extends(ks, r.1)
            &&& kinds::well_kinded(full, r.1)
        },
    decreases source,
{
    let longer = settled::lemma_insert(vars, ks, source);
    settled::lemma_insert_fills(vars, source);
    if let Ok((after, full)) = fresh::insert(vars, source) {
        if settled::is_open(source) {
            if let TyModel::Infer(tv) = full {
                let v = ty::inner_var(tv).0 as int;
                let g = |i: int| if i == v { t } else { f(i) };
                (g, longer)
            } else {
                (f, longer)
            }
        } else if let TyModel::Apply { ctor, params } = source {
            let (g, _) = lemma_all_filled(f, vars, ks, params, t->params);
            assert(solution::apply(g, full)->params =~= t->params);
            (g, longer)
        } else {
            (f, longer)
        }
    } else {
        (f, ks)
    }
}

proof fn lemma_all_filled(
    f: Assignment,
    vars: Seq<VarModel>,
    ks: Seq<Kind>,
    sources: Seq<TyModel>,
    ts: Seq<TyModel>,
) -> (r: (Assignment, Seq<Kind>))
    requires
        kinds::consistent(vars, ks),
        kinds::all_well_kinded(sources, ks),
        ts.len() == sources.len(),
        forall|i: int| 0 <= i < sources.len() ==> fills(f, #[trigger] sources[i], ts[i]),
    ensures
        fresh::insert_all(vars, sources) matches Ok((after, full)) ==> {
            &&& alike_below(f, r.0, vars.len())
            &&& full.len() == ts.len()
            &&& forall|i: int|
                0 <= i < ts.len() ==> solution::apply(r.0, #[trigger] full[i]) == ts[i]
        },
    decreases sources,
{
    if sources.len() == 0 {
        (f, ks)
    } else {
        let rest = sources.skip(1);
        let others = ts.skip(1);
        settled::lemma_insert_fills(vars, sources[0]);
        let (g1, k1) = lemma_filled(f, vars, ks, sources[0], ts[0]);
        if let Ok((mid, t)) = fresh::insert(vars, sources[0]) {
            kinds::lemma_all_well_kinded_extends(rest, ks, k1);
            assert forall|i: int| 0 <= i < rest.len() implies fills(
                g1,
                #[trigger] rest[i],
                others[i],
            ) by {
                assert(rest[i] == sources[i + 1]);
                assert(kinds::well_kinded(sources[i + 1], ks));
                lemma_fills_alike(f, g1, ks, sources[i + 1], ts[i + 1]);
            }
            let (g2, k2) = lemma_all_filled(g1, mid, k1, rest, others);
            if let Ok((after, full)) = fresh::insert_all(mid, rest) {
                lemma_alike(g1, g2, k1, t);
                assert(alike_below(f, g2, vars.len())) by {
                    assert forall|i: int| 0 <= i < vars.len() implies #[trigger] g2(i) == f(i) by {
                        assert(g1(i) == f(i));
                    }
                }
                let all = seq![t] + full;
                assert forall|i: int| 0 <= i < ts.len() implies solution::apply(
                    g2,
                    #[trigger] all[i],
                ) == ts[i] by {
                    if i > 0 {
                        assert(all[i] == full[i - 1]);
                        assert(others[i - 1] == ts[i]);
                    }
                }
            }
            (g2, k2)
        } else {
            (f, ks)
        }
    }
}

proof fn lemma_fills_alike(
    f: Assignment,
    g: Assignment,
    ks: Seq<Kind>,
    source: TyModel,
    t: TyModel,
)
    requires
        alike_below(f, g, ks.len()),
        kinds::well_kinded(source, ks),
        fills(f, source, t),
    ensures
        fills(g, source, t),
    decreases source,
{
    if !settled::is_open(source) {
        if let TyModel::Apply { params, .. } = source {
            assert forall|i: int| 0 <= i < params.len() implies fills(
                g,
                #[trigger] params[i],
                t->params[i],
            ) by {
                assert(kinds::well_kinded(params[i], ks));
                lemma_fills_alike(f, g, ks, params[i], t->params[i]);
            }
        } else {
            lemma_alike(f, g, ks, source);
        }
    }
}

/// Whether a type has no more than so many types within one another.
pub open spec fn nested(t: TyModel, levels: nat) -> bool
    decreases t,
{
    match t {
        TyModel::Apply { params, .. } => levels > 0 && forall|i: int|
            0 <= i < params.len() ==> nested(#[trigger] params[i], (levels - 1) as nat),
        _ => levels > 0,
    }
}

/// Two types that can still be equal are unified, unless what they become has more than a
/// thousand types within one another.
pub proof fn unification_gives_up_on_deep_types_only(
    f: Assignment,
    vars: Seq<VarModel>,
    ks: Seq<Kind>,
    a: TyModel,
    b: TyModel,
)
    requires
        kinds::consistent(vars, ks),
        kinds::well_kinded(a, ks),
        kinds::well_kinded(b, ks),
        solution::solves(f, vars),
        solution::apply(f, a) == solution::apply(f, b),
        nested(solution::apply(f, a), 1001),
    ensures
        unify::unify(vars, a, b) is Ok,
{
    lemma_unified_within(f, vars, ks, a, b, 0, 1001);
}

proof fn lemma_unified_within(
    f: Assignment,
    vars: Seq<VarModel>,
    ks: Seq<Kind>,
    a: TyModel,
    b: TyModel,
    depth: nat,
    levels: nat,
)
    requires
        kinds::consistent(vars, ks),
        kinds::well_kinded(a, ks),
        kinds::well_kinded(b, ks),
        solution::solves(f, vars),
        solution::apply(f, a) == solution::apply(f, b),
        nested(solution::apply(f, a), levels),
        depth + levels <= 1001,
    ensures
        unify::unify_at(vars, a, b, depth) is Ok,
    decreases levels, 0nat,
{
    kinds::lemma_unify_keeps(vars, ks, a, b, depth);
    let steps = unify::SHALLOW_STEPS as nat;
    kinds::lemma_look_up(vars, ks, a, steps);
    kinds::lemma_look_up(vars, ks, b, steps);
    solution::lemma_shallow(f, vars, a, steps);
    solution::lemma_shallow(f, vars, b, steps);
    if let (Ok(x), Ok(y)) = (unify::shallow(vars, a, steps), unify::shallow(vars, b, steps)) {
        if let (
            TyModel::Apply { ctor: c, params: xs },
            TyModel::Apply { ctor: d, params: ys },
        ) = (x, y) {
            let image = solution::apply(f, a)->params;
            assert forall|i: int| 0 <= i < xs.len() && i < ys.len() implies solution::apply(
                f,
                #[trigger] xs[i],
            ) == solution::apply(f, ys[i]) && nested(
                solution::apply(f, xs[i]),
                (levels - 1) as nat,
            ) by {
                assert(image[i] == solution::apply(f, xs[i]));
                assert(solution::apply(f, b)->params[i] == solution::apply(f, ys[i]));
            }
            lemma_all_unified_within(f, vars, ks, xs, ys, depth + 1, (levels - 1) as nat);
        }
    }
}

proof fn lemma_all_unified_within(
    f: Assignment,
    vars: Seq<VarModel>,
    ks: Seq<Kind>,
    xs: Seq<TyModel>,
    ys: Seq<TyModel>,
    depth: nat,
    levels: nat,
)
    requires
        kinds::consistent(vars, ks),
        kinds::all_well_kinded(xs, ks),
        kinds::all_well_kinded(ys, ks),
        solution::solves(f, vars),
        forall|i: int|
            0 <= i < xs.len() && i < ys.len() ==> solution::apply(f, #[trigger] xs[i])
                == solution::apply(f, ys[i]) && nested(solution::apply(f, xs[i]), levels),
        depth + levels <= 1001,
    ensures
        unify::unify_all_at(vars, xs, ys, depth) is Ok,
    decreases levels, xs.len() + 1,
{
    if xs.len() > 0 && ys.len() > 0 {
        lemma_unified_within(f, vars, ks, xs[0], ys[0], depth, levels);
        kinds::lemma_unify_keeps(vars, ks, xs[0], ys[0], depth);
        solution::lemma_unify_at(f, vars, xs[0], ys[0], depth);
        if let Ok((after, true)) = unify::unify_at(vars, xs[0], ys[0], depth) {
            let (others, rest) = (xs.skip(1), ys.skip(1));
            assert forall|i: int| 0 <= i < others.len() && i < rest.len() implies solution::apply(
                f,
                #[trigger] others[i],
            ) == solution::apply(f, rest[i]) && nested(
                solution::apply(f, others[i]),
                levels,
            ) by {
                assert(others[i] == xs[i + 1] && rest[i] == ys[i + 1]);
            }
            lemma_all_unified_within(f, after, ks, others, rest, depth, levels);
        }
    }
}

} // verus!
