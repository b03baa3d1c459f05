//! What the types in some state stand for, in every solution of the variables.

use vstd::prelude::*;

use crate::context::Model;
use crate::db::{HirDatabase, TraitRefModel};
use crate::error::InferError;
use crate::kinds::Kind;
use crate::solution::Assignment;
use crate::table::VarModel;
use crate::ty::{InferTy, TyModel, TypeCtor, TypeVarId};
use crate::unify::UnifyStep;
use crate::{
    context, fresh, kinds, resolve, settled, solution, step_laws, table, ty, type_laws, unify,
    upkeep,
};

verus! {

/// Whether the variables have become known better, or stayed as they are: what solves them
/// now solved them before.
#[verifier::opaque]
pub open spec fn narrows(vars: Seq<VarModel>, later: Seq<VarModel>) -> bool {
    forall|f: Assignment| #[trigger] solution::solves(f, later) ==> solution::solves(f, vars)
}

/// Whether two types stand for one type in every solution.
#[verifier::opaque]
pub open spec fn same(vars: Seq<VarModel>, a: TyModel, b: TyModel) -> bool {
    forall|f: Assignment| #[trigger]
        solution::solves(f, vars) ==> solution::apply(f, a) == solution::apply(f, b)
}

/// Whether an assignment solves the variables and makes two types equal, to a type without
/// type parameters.
pub open spec fn equates(f: Assignment, vars: Seq<VarModel>, a: TyModel, b: TyModel) -> bool {
    &&& solution::solves(f, vars)
    &&& solution::apply(f, a) == solution::apply(f, b)
    &&& solution::param_free(solution::apply(f, a))
}

/// Whether two types can still be equal.
pub open spec fn can_be_equal(vars: Seq<VarModel>, a: TyModel, b: TyModel) -> bool {
    exists|f: Assignment| #[trigger] equates(f, vars, a, b)
}

/// Whether all has been learned from it that two types should be equal: if they can be, they
/// agree in every solution.
#[verifier::opaque]
pub open spec fn tied(vars: Seq<VarModel>, a: TyModel, b: TyModel) -> bool {
    can_be_equal(vars, a, b) ==> forall|f: Assignment| #[trigger]
        solution::solves(f, vars) ==> solution::agree(solution::apply(f, a), solution::apply(f, b))
}

/// Whether an assignment solves the variables and makes two types equal, with no type
/// parameters in what it puts into them.
pub open spec fn unifies(f: Assignment, vars: Seq<VarModel>, a: TyModel, b: TyModel) -> bool {
    &&& solution::solves(f, vars)
    &&& solution::apply(f, a) == solution::apply(f, b)
    &&& solution::images_param_free(f, a)
    &&& solution::images_param_free(f, b)
}

/// The same as [`tied`], also where the types themselves have type parameters in them.
#[verifier::opaque]
pub open spec fn learned(vars: Seq<VarModel>, a: TyModel, b: TyModel) -> bool {
    (exists|f: Assignment| #[trigger] unifies(f, vars, a, b)) ==> forall|f: Assignment| #[trigger]
        solution::solves(f, vars) ==> solution::agree(solution::apply(f, a), solution::apply(f, b))
}

/// Whether no more has been learned between two states than that two types are equal.
pub open spec fn only_learned(
    vars: Seq<VarModel>,
    later: Seq<VarModel>,
    a: TyModel,
    b: TyModel,
) -> bool {
    forall|f: Assignment| #[trigger]
        solution::solves(f, vars) && solution::apply(f, a) == solution::apply(f, b)
            ==> solution::solves(f, later)
}

/// Whether an assignment makes the types of each pair equal.
pub open spec fn all_equal(f: Assignment, pairs: Seq<(TyModel, TyModel)>) -> bool {
    forall|k: int|
        0 <= k < pairs.len() ==> solution::apply(f, (#[trigger] pairs[k]).0) == solution::apply(
            f,
            pairs[k].1,
        )
}

/// Whether no more has been learned between two states than that the types of these pairs
/// are equal.
#[verifier::opaque]
pub open spec fn teaches(
    vars: Seq<VarModel>,
    later: Seq<VarModel>,
    pairs: Seq<(TyModel, TyModel)>,
) -> bool {
    forall|f: Assignment| #[trigger]
        solution::solves(f, vars) && all_equal(f, pairs) ==> solution::solves(f, later)
}

/// Whether the types of a pair are made equal by the answer to a goal: one is a variable of
/// the goal, the other the type that the answer has for it.
pub open spec fn from_answer<D: HirDatabase>(
    db: &D,
    goal: TraitRefModel,
    pair: (TyModel, TyModel),
) -> bool {
    step_laws::types_given(db.answer(goal).solution) matches Some(substs) && exists|k: int|
        0 <= k < substs.len() && k < db.answer(goal).var_mapping.len() && pair == (
            TyModel::Infer(InferTy::TypeVar(#[trigger] db.answer(goal).var_mapping[k])),
            substs[k],
        )
}

/// Whether each pair is made equal by the answer to one of these goals.
pub open spec fn all_from_answers<D: HirDatabase>(
    db: &D,
    goals: Seq<TraitRefModel>,
    pairs: Seq<(TyModel, TyModel)>,
) -> bool {
    forall|k: int|
        0 <= k < pairs.len() ==> exists|i: int|
            0 <= i < goals.len() && from_answer(db, #[trigger] goals[i], #[trigger] pairs[k])
}

/// Whether the answer to a goal has been used: what it has for the variables of the goal has
/// been learned.
pub open spec fn used<D: HirDatabase>(db: &D, vars: Seq<VarModel>, goal: TraitRefModel) -> bool {
    step_laws::types_given(db.answer(goal).solution) matches Some(substs) ==> forall|k: int|
        0 <= k < substs.len() ==> learned(
            vars,
            TyModel::Infer(InferTy::TypeVar(#[trigger] db.answer(goal).var_mapping[k])),
            substs[k],
        )
}

/// Whether a goal is open, or its answer has been used.
pub open spec fn asked<D: HirDatabase>(db: &D, s: Model, goal: TraitRefModel) -> bool {
    s.obligations.contains(goal) || used(db, s.vars, goal)
}

/// Whether no goal is forgotten.
pub open spec fn no_goal_lost<D: HirDatabase>(db: &D, s: Model, after: Model) -> bool {
    forall|goal: TraitRefModel| #[trigger] asked(db, s, goal) ==> asked(db, after, goal)
}

pub proof fn lemma_used_later<D: HirDatabase>(
    db: &D,
    vars: Seq<VarModel>,
    later: Seq<VarModel>,
    goal: TraitRefModel,
)
    requires
        narrows(vars, later),
    ensures
        used(db, vars, goal) ==> used(db, later, goal),
{
    if let Some(substs) = step_laws::types_given(db.answer(goal).solution) {
        if used(db, vars, goal) {
            assert forall|k: int| 0 <= k < substs.len() implies learned(
                later,
                TyModel::Infer(InferTy::TypeVar(#[trigger] db.answer(goal).var_mapping[k])),
                substs[k],
            ) by {
                lemma_learned_later(
                    vars,
                    later,
                    TyModel::Infer(InferTy::TypeVar(db.answer(goal).var_mapping[k])),
                    substs[k],
                );
            }
        }
    }
}

/// No goal is forgotten in a step in which those that are left out are used.
pub proof fn lemma_no_goal_lost<D: HirDatabase>(db: &D, s: Model, after: Model)
    requires
        narrows(s.vars, after.vars),
        forall|goal: TraitRefModel| #[trigger]
            s.obligations.contains(goal) ==> asked(db, after, goal),
    ensures
        no_goal_lost(db, s, after),
{
    assert forall|goal: TraitRefModel| #[trigger] asked(db, s, goal) implies asked(
        db,
        after,
        goal,
    ) by {
        if !s.obligations.contains(goal) {
            lemma_used_later(db, s.vars, after.vars, goal);
        }
    }
}

/// Whether all goals that are left were there before.
pub open spec fn no_new_goals(s: Model, after: Model) -> bool {
    forall|i: int|
        0 <= i < after.obligations.len() ==> s.obligations.contains(
            #[trigger] after.obligations[i],
        )
}

/// What two steps teach, they teach together.
pub proof fn lemma_teaches_both(
    a: Seq<VarModel>,
    b: Seq<VarModel>,
    c: Seq<VarModel>,
    first: Seq<(TyModel, TyModel)>,
    second: Seq<(TyModel, TyModel)>,
)
    requires
        teaches(a, b, first),
        teaches(b, c, second),
    ensures
        teaches(a, c, first + second),
{
    reveal(teaches);
    let both = first + second;
    assert forall|f: Assignment| #[trigger]
        solution::solves(f, a) && all_equal(f, both) implies solution::solves(f, c) by {
        assert forall|k: int| 0 <= k < first.len() implies solution::apply(
            f,
            (#[trigger] first[k]).0,
        ) == solution::apply(f, first[k].1) by {
            assert(both[k] == first[k]);
        }
        assert forall|k: int| 0 <= k < second.len() implies solution::apply(
            f,
            (#[trigger] second[k]).0,
        ) == solution::apply(f, second[k].1) by {
            assert(both[first.len() + k] == second[k]);
        }
    }
}

/// A step that teaches nothing does not change what another teaches.
pub proof fn lemma_teaches_then(
    a: Seq<VarModel>,
    b: Seq<VarModel>,
    c: Seq<VarModel>,
    pairs: Seq<(TyModel, TyModel)>,
)
    requires
        teaches(a, b, Seq::empty()) && teaches(b, c, pairs) || teaches(a, b, pairs) && teaches(
            b,
            c,
            Seq::empty(),
        ),
    ensures
        teaches(a, c, pairs),
{
    reveal(teaches);
}

/// The pairs that an answer makes equal.
pub open spec fn answer_pairs(mapping: Seq<TypeVarId>, substs: Seq<TyModel>) -> Seq<
    (TyModel, TyModel),
> {
    Seq::new(
        substs.len(),
        |k: int| (TyModel::Infer(InferTy::TypeVar(mapping[k])), substs[k]),
    )
}

/// What the answers to goals teach.
pub proof fn lemma_answers_teach<D: HirDatabase>(
    db: &D,
    s: Model,
    goals: Seq<TraitRefModel>,
) -> (pairs: Seq<(TyModel, TyModel)>)
    requires
        solution::partitioned(s.vars),
    ensures
        context::use_answers(db, s, goals) matches Ok(after) ==> teaches(
            s.vars,
            after.vars,
            pairs,
        ) && all_from_answers(db, goals, pairs),
    decreases goals.len(),
{
    lemma_narrows_same(s.vars);
    if goals.len() == 0 {
        Seq::empty()
    } else if let Ok(mid) = context::use_answer(db, s, goals[0]) {
        step_laws::an_answer_is_used_for_each_variable(db, s, goals[0], mid);
        let answer = db.answer(goals[0]);
        let first = match step_laws::types_given(answer.solution) {
            Some(substs) => answer_pairs(answer.var_mapping, substs),
            None => Seq::empty(),
        };
        assert(teaches(s.vars, mid.vars, first)) by {
            reveal(teaches);
            if let Some(substs) = step_laws::types_given(answer.solution) {
                assert forall|f: Assignment| #[trigger]
                    solution::solves(f, s.vars) && all_equal(f, first) implies solution::solves(
                    f,
                    mid.vars,
                ) by {
                    assert forall|k: int|
                        0 <= k < substs.len() && k < answer.var_mapping.len() implies f(
                        (#[trigger] answer.var_mapping[k]).0 as int,
                    ) == solution::apply(f, substs[k]) by {
                        assert(first[k].1 == substs[k]);
                    }
                    assert(answer_holds(f, answer.var_mapping, substs));
                }
            }
        }
        let rest = lemma_answers_teach(db, mid, goals.skip(1));
        if let Ok(after) = context::use_answers(db, mid, goals.skip(1)) {
            lemma_teaches_both(s.vars, mid.vars, after.vars, first, rest);
            let all = first + rest;
            assert forall|k: int| 0 <= k < all.len() implies exists|i: int|
                0 <= i < goals.len() && from_answer(db, #[trigger] goals[i], #[trigger] all[k]) by {
                if k < first.len() {
                    assert(all[k] == first[k]);
                    let var = db.answer(goals[0]).var_mapping[k];
                    assert(from_answer(db, goals[0], all[k]));
                } else {
                    assert(all[k] == rest[k - first.len()]);
                    let i = choose|i: int|
                        0 <= i < goals.skip(1).len() && from_answer(
                            db,
                            #[trigger] goals.skip(1)[i],
                            rest[k - first.len()],
                        );
                    assert(goals.skip(1)[i] == goals[i + 1]);
                }
            }
        }
        first + rest
    } else {
        Seq::empty()
    }
}

/// Goals that stay open were there before.
proof fn lemma_open_goals<D: HirDatabase>(db: &D, goals: Seq<TraitRefModel>)
    ensures
        forall|i: int|
            0 <= i < settled::open_goals(db, goals).len() ==> goals.contains(
                #[trigger] settled::open_goals(db, goals)[i],
            ),
    decreases goals.len(),
{
    if goals.len() > 0 {
        let rest = goals.skip(1);
        lemma_open_goals(db, rest);
        let open = settled::open_goals(db, goals);
        let others = settled::open_goals(db, rest);
        assert forall|i: int| 0 <= i < open.len() implies goals.contains(#[trigger] open[i]) by {
            if settled::stays_open(db, goals[0]) && i == 0 {
                assert(open[0] == goals[0]);
            } else {
                let k = if settled::stays_open(db, goals[0]) { i - 1 } else { i };
                assert(open[i] == others[k]);
                let j = choose|j: int| 0 <= j < rest.len() && rest[j] == others[k];
                assert(goals[j + 1] == others[k]);
            }
        }
    }
}

/// What resolving a type as far as possible teaches: what the answers to open goals do.
pub proof fn lemma_resolved_teaches<D: HirDatabase>(
    db: &D,
    ks: Seq<Kind>,
    s: Model,
    ty: TyModel,
) -> (pairs: Seq<(TyModel, TyModel)>)
    requires
        kinds::consistent(s.vars, ks),
        kinds::well_kinded(ty, ks),
        settled::answers_fit(db, s.obligations, ks),
    ensures
        context::resolved(db, s, ty) matches Ok((after, _)) ==> teaches(
            s.vars,
            after.vars,
            pairs,
        ) && all_from_answers(db, s.obligations, pairs) && no_new_goals(s, after) && (forall|
            goal: TraitRefModel,
        | #[trigger]
            s.obligations.contains(goal) ==> used(db, after.vars, goal)),
{
    settled::lemma_settle(db, s, ks);
    let pairs = lemma_answers_teach(
        db,
        Model { obligations: Seq::empty(), ..s },
        s.obligations,
    );
    if let Ok(mid) = context::settle(db, s) {
        settled::lemma_replace_known(db, ks, mid, Seq::empty(), ty);
        lemma_open_goals(db, s.obligations);
        step_laws::every_answer_is_used(
            db,
            Model { obligations: Seq::empty(), ..s },
            s.obligations,
            mid,
        );
        assert forall|goal: TraitRefModel| #[trigger] s.obligations.contains(goal) implies used(
            db,
            mid.vars,
            goal,
        ) by {
            let i = choose|i: int| 0 <= i < s.obligations.len() && s.obligations[i] == goal;
            assert(s.obligations[i] == goal);
        }
    }
    pairs
}

/// Whether a type goes with what a rule says it is and with what is expected of it: it is
/// what the rule says, or what is expected where the rule leaves it open, and all has been
/// learned from the expectation.
pub open spec fn takes(
    vars: Seq<VarModel>,
    ty: TyModel,
    rule: TyModel,
    expected: TyModel,
) -> bool {
    &&& tied(vars, ty, expected)
    &&& if settled::is_open(rule) {
        expected != TyModel::Unknown ==> same(vars, ty, expected)
    } else {
        same(vars, ty, rule)
    }
}

pub broadcast proof fn lemma_narrows_trans(
    a: Seq<VarModel>,
    b: Seq<VarModel>,
    c: Seq<VarModel>,
)
    requires
        #[trigger] narrows(a, b),
        #[trigger] narrows(b, c),
    ensures
        narrows(a, c),
{
    reveal(narrows);
}

pub proof fn lemma_narrows_same(vars: Seq<VarModel>)
    ensures
        narrows(vars, vars),
        teaches(vars, vars, Seq::empty()),
{
    reveal(narrows);
    reveal(teaches);
}

pub broadcast proof fn lemma_same_later(
    vars: Seq<VarModel>,
    later: Seq<VarModel>,
    a: TyModel,
    b: TyModel,
)
    requires
        #[trigger] narrows(vars, later),
        #[trigger] same(vars, a, b),
    ensures
        same(later, a, b),
{
    reveal(narrows);
    reveal(same);
}

pub broadcast proof fn lemma_tied_later(
    vars: Seq<VarModel>,
    later: Seq<VarModel>,
    a: TyModel,
    b: TyModel,
)
    requires
        #[trigger] narrows(vars, later),
        #[trigger] tied(vars, a, b),
    ensures
        tied(later, a, b),
{
    reveal(narrows);
    reveal(tied);
    if can_be_equal(later, a, b) {
        let g = choose|g: Assignment| #[trigger] equates(g, later, a, b);
        assert(equates(g, vars, a, b));
    }
}

pub broadcast proof fn lemma_learned_later(
    vars: Seq<VarModel>,
    later: Seq<VarModel>,
    a: TyModel,
    b: TyModel,
)
    requires
        #[trigger] narrows(vars, later),
        #[trigger] learned(vars, a, b),
    ensures
        learned(later, a, b),
{
    reveal(narrows);
    reveal(learned);
    if exists|f: Assignment| #[trigger] unifies(f, later, a, b) {
        let g = choose|g: Assignment| #[trigger] unifies(g, later, a, b);
        assert(unifies(g, vars, a, b));
    }
}

pub broadcast group group_later {
    lemma_narrows_trans,
    lemma_same_later,
    lemma_tied_later,
    lemma_learned_later,
}

pub proof fn lemma_same_refl(vars: Seq<VarModel>, a: TyModel)
    ensures
        same(vars, a, a),
{
    reveal(same);
}

pub proof fn lemma_same_trans(vars: Seq<VarModel>, a: TyModel, b: TyModel, c: TyModel)
    requires
        same(vars, a, b),
        same(vars, b, c),
    ensures
        same(vars, a, c),
        same(vars, b, a),
{
    reveal(same);
}

/// What is tied to a type is tied to all that stands for it.
pub proof fn lemma_tied_same(vars: Seq<VarModel>, a: TyModel, b: TyModel, c: TyModel)
    requires
        tied(vars, a, c),
        same(vars, a, b),
    ensures
        tied(vars, b, c),
{
    reveal(tied);
    reveal(same);
    if can_be_equal(vars, b, c) {
        let g = choose|g: Assignment| #[trigger] equates(g, vars, b, c);
        assert(equates(g, vars, a, c));
    }
}

/// What unification does to the solutions: all has been learned from the two types, and
/// nothing is asked beyond their equality.
pub proof fn lemma_unified(
    vars: Seq<VarModel>,
    a: TyModel,
    b: TyModel,
    after: Seq<VarModel>,
    ok: bool,
)
    requires
        solution::partitioned(vars),
        unify::unify(vars, a, b) == Ok::<(Seq<VarModel>, bool), InferError>((after, ok)),
    ensures
        solution::partitioned(after),
        narrows(vars, after),
        tied(after, a, b),
        learned(after, a, b),
        only_learned(vars, after, a, b),
        teaches(vars, after, seq![(a, b)]),
{
    reveal(teaches);
    reveal(narrows);
    reveal(learned);
    reveal(tied);
    let f0 = |i: int| TyModel::Unknown;
    solution::lemma_unify(f0, vars, a, b);
    assert forall|f: Assignment| #[trigger] solution::solves(f, after) implies solution::solves(
        f,
        vars,
    ) by {
        solution::lemma_unify(f, vars, a, b);
    }
    assert forall|f: Assignment| #[trigger]
        solution::solves(f, vars) && solution::apply(f, a) == solution::apply(
            f,
            b,
        ) implies solution::solves(f, after) by {
        solution::lemma_unify(f, vars, a, b);
    }
    assert(teaches(vars, after, seq![(a, b)])) by {
        assert forall|f: Assignment| #[trigger]
            solution::solves(f, vars) && all_equal(f, seq![(a, b)]) implies solution::solves(
            f,
            after,
        ) by {
            assert(seq![(a, b)][0] == (a, b));
        }
    }
    if can_be_equal(after, a, b) {
        let g = choose|g: Assignment| #[trigger] equates(g, after, a, b);
        solution::lemma_images_param_free(g, a);
        solution::lemma_images_param_free(g, b);
        assert(unifies(g, after, a, b));
    }
    if exists|f: Assignment| #[trigger] unifies(f, after, a, b) {
        let g = choose|g: Assignment| #[trigger] unifies(g, after, a, b);
        solution::lemma_unify(g, vars, a, b);
        assert(ok);
        assert forall|f: Assignment| #[trigger] solution::solves(f, after) implies solution::agree(
            solution::apply(f, a),
            solution::apply(f, b),
        ) by {
            solution::lemma_unify(f, vars, a, b);
        }
    }
}

/// What is learned of two types with one constructor and one parameter is learned of the
/// parameters.
pub proof fn lemma_one_param(
    vars: Seq<VarModel>,
    later: Seq<VarModel>,
    ctor: TypeCtor,
    a: TyModel,
    b: TyModel,
)
    ensures
        learned(later, ty::apply_one(ctor, a), ty::apply_one(ctor, b)) ==> learned(later, a, b),
        only_learned(vars, later, ty::apply_one(ctor, a), ty::apply_one(ctor, b)) ==> only_learned(
            vars,
            later,
            a,
            b,
        ),
{
    reveal(learned);
    let x = ty::apply_one(ctor, a);
    let y = ty::apply_one(ctor, b);
    assert forall|f: Assignment| #[trigger] solution::apply(f, a) == solution::apply(
        f,
        b,
    ) implies solution::apply(f, x) == solution::apply(f, y) by {
        assert(solution::apply(f, x)->params =~= solution::apply(f, y)->params);
    }
    if learned(later, x, y) && exists|f: Assignment| #[trigger] unifies(f, later, a, b) {
        let g = choose|g: Assignment| #[trigger] unifies(g, later, a, b);
        assert(x->params[0] == a && y->params[0] == b);
        assert(unifies(g, later, x, y));
        assert forall|f: Assignment| #[trigger] solution::solves(f, later) implies solution::agree(
            solution::apply(f, a),
            solution::apply(f, b),
        ) by {
            assert(solution::agree(solution::apply(f, x), solution::apply(f, y)));
            assert(solution::apply(f, x)->params[0] == solution::apply(f, a));
            assert(solution::apply(f, y)->params[0] == solution::apply(f, b));
        }
    }
}

/// More variables ask nothing of the old ones.
pub proof fn lemma_more_vars(vars: Seq<VarModel>, after: Seq<VarModel>)
    requires
        vars.is_prefix_of(after),
    ensures
        narrows(vars, after),
{
    reveal(narrows);
    assert forall|f: Assignment| #[trigger] solution::solves(f, after) implies solution::solves(
        f,
        vars,
    ) by {
        assert forall|i: int| 0 <= i < vars.len() implies #[trigger] solution::solves_var(
            f,
            vars,
            i,
        ) by {
            assert(solution::solves_var(f, after, i));
            assert(after[i] == vars[i]);
        }
    }
}

pub proof fn lemma_new_var(vars: Seq<VarModel>)
    ensures
        fresh::new_type_var(vars) matches Ok((after, t)) ==> narrows(vars, after) && teaches(
            vars,
            after,
            Seq::empty(),
        ) && t matches TyModel::Infer(InferTy::TypeVar(_)),
{
    reveal(teaches);
    assert forall|f: Assignment| #[trigger] solution::solves(f, vars) implies (fresh::new_type_var(
        vars,
    ) matches Ok((after, _)) ==> solution::solves(f, after)) by {
        type_laws::lemma_new_var_free(f, vars);
    }
    if let Ok((after, _)) = fresh::new_type_var(vars) {
        assert(vars.is_prefix_of(after));
        lemma_more_vars(vars, after);
    }
}

pub proof fn lemma_inserted(vars: Seq<VarModel>, t: TyModel)
    ensures
        fresh::insert(vars, t) matches Ok((after, full)) ==> narrows(vars, after)
            && settled::filled(t, full, 0) && !settled::is_open(full) && teaches(
            vars,
            after,
            Seq::empty(),
        ),
        fresh::insert_shallow(vars, t) matches Ok((after, _)) ==> narrows(vars, after) && teaches(
            vars,
            after,
            Seq::empty(),
        ),
{
    reveal(teaches);
    assert forall|f: Assignment| #[trigger] solution::solves(f, vars) implies (fresh::insert(
        vars,
        t,
    ) matches Ok((after, _)) ==> solution::solves(f, after)) && (fresh::insert_shallow(
        vars,
        t,
    ) matches Ok((after, _)) ==> solution::solves(f, after)) by {
        type_laws::lemma_insert_free(f, vars, t);
    }
    settled::lemma_insert_fills(vars, t);
    if let Ok((after, full)) = fresh::insert(vars, t) {
        lemma_more_vars(vars, after);
        settled::lemma_filled_lower(t, full, vars.len(), 0);
    }
    if let Ok((after, _)) = fresh::insert_shallow(vars, t) {
        assert(vars.is_prefix_of(after));
        lemma_more_vars(vars, after);
    }
}

pub proof fn lemma_solution_applied(
    vars: Seq<VarModel>,
    mapping: Seq<TypeVarId>,
    substs: Seq<TyModel>,
    i: nat,
)
    requires
        solution::partitioned(vars),
    ensures
        context::apply_solution(vars, mapping, substs, i) matches Ok(after) ==> {
            &&& solution::partitioned(after)
            &&& narrows(vars, after)
            &&& i < substs.len() ==> substs.len() <= mapping.len()
            &&& forall|k: int|
                i <= k < substs.len() ==> learned(
                    after,
                    TyModel::Infer(InferTy::TypeVar(#[trigger] mapping[k])),
                    substs[k],
                )
            &&& forall|f: Assignment| #[trigger]
                solution::solves(f, vars) && answer_holds(f, mapping, substs)
                    ==> solution::solves(f, after)
        },
    decreases substs.len() - i,
{
    broadcast use group_later;

    lemma_narrows_same(vars);
    if i < substs.len() && i < mapping.len() {
        let var = TyModel::Infer(InferTy::TypeVar(mapping[i as int]));
        if let Ok((mid, ok)) = unify::unify(vars, var, substs[i as int]) {
            lemma_unified(vars, var, substs[i as int], mid, ok);
            lemma_solution_applied(mid, mapping, substs, i + 1);
            if let Ok(after) = context::apply_solution(mid, mapping, substs, i + 1) {
                assert forall|f: Assignment| #[trigger]
                    solution::solves(f, vars) && answer_holds(
                        f,
                        mapping,
                        substs,
                    ) implies solution::solves(f, after) by {
                    assert(f(mapping[i as int].0 as int) == solution::apply(f, substs[i as int]));
                    assert(solution::apply(f, var) == solution::apply(f, substs[i as int]));
                    assert(solution::solves(f, mid));
                }
                assert forall|k: int| i <= k < substs.len() implies learned(
                    after,
                    TyModel::Infer(InferTy::TypeVar(#[trigger] mapping[k])),
                    substs[k],
                ) by {
                    if k == i {
                        lemma_learned_later(mid, after, var, substs[k]);
                    }
                }
            }
        }
    }
}

/// Whether an assignment gives each variable of a goal the type that an answer has for it.
pub open spec fn answer_holds(
    f: Assignment,
    mapping: Seq<TypeVarId>,
    substs: Seq<TyModel>,
) -> bool {
    forall|k: int|
        0 <= k < substs.len() && k < mapping.len() ==> f((#[trigger] mapping[k]).0 as int)
            == solution::apply(f, substs[k])
}

pub proof fn lemma_answers_used<D: HirDatabase>(db: &D, s: Model, goals: Seq<TraitRefModel>)
    requires
        solution::partitioned(s.vars),
    ensures
        context::use_answers(db, s, goals) matches Ok(after) ==> solution::partitioned(after.vars)
            && narrows(s.vars, after.vars),
    decreases goals.len(),
{
    broadcast use group_later;

    lemma_narrows_same(s.vars);
    if goals.len() > 0 {
        let answer = db.answer(goals[0]);
        if let Some(substs) = settled::answer_substs(answer) {
            lemma_solution_applied(s.vars, answer.var_mapping, substs, 0);
        }
        if let Ok(mid) = context::use_answer(db, s, goals[0]) {
            lemma_answers_used(db, mid, goals.skip(1));
        }
    }
}

/// In a settled state, a type stands for what it stood for before it was resolved.
proof fn lemma_replaced_same<D: HirDatabase>(
    f: Assignment,
    db: &D,
    ks: Seq<Kind>,
    s: Model,
    stack: Seq<TypeVarId>,
    ty: TyModel,
)
    requires
        kinds::consistent(s.vars, ks),
        kinds::well_kinded(ty, ks),
        settled::is_settled(db, s),
        solution::solves(f, s.vars),
        settled::inside(f, ks, stack, ty),
    ensures
        context::replace_known(db, s.vars.len(), s, stack, ty) matches Ok((_, t))
            ==> solution::apply(f, t) == solution::apply(f, ty),
    decreases resolve::unvisited(s.vars.len(), stack).len(), ty,
{
    match ty {
        TyModel::Apply { params, .. } => {
            let image = solution::apply(f, ty)->params;
            assert forall|i: int| 0 <= i < params.len() implies settled::inside(
                f,
                ks,
                stack,
                #[trigger] params[i],
            ) by {
                settled::lemma_inside_param(f, ks, stack, ty, i);
            }
            lemma_all_replaced_same(f, db, ks, s, stack, params);
            if let Ok((_, t)) = context::replace_known(db, s.vars.len(), s, stack, ty) {
                assert(solution::apply(f, t)->params =~= image);
            }
        },
        TyModel::Infer(tv) => {
            let v = ty::inner_var(tv);
            let i = v.0 as int;
            if stack.contains(v) {
                let k = choose|k: int| 0 <= k < stack.len() && stack[k] == v;
                assert(stack[k].0 as int == i);
            } else if let Some(known) = s.vars[i].value {
                resolve::lemma_unvisited_shrinks(s.vars.len(), stack, v);
                assert(solution::solves_var(f, s.vars, i));
                settled::lemma_inside_known(f, s.vars, ks, stack, tv, known);
                lemma_replaced_same(f, db, ks, s, stack.push(v), known);
            }
        },
        _ => {},
    }
}

proof fn lemma_all_replaced_same<D: HirDatabase>(
    f: Assignment,
    db: &D,
    ks: Seq<Kind>,
    s: Model,
    stack: Seq<TypeVarId>,
    tys: Seq<TyModel>,
)
    requires
        kinds::consistent(s.vars, ks),
        kinds::all_well_kinded(tys, ks),
        settled::is_settled(db, s),
        solution::solves(f, s.vars),
        forall|i: int| 0 <= i < tys.len() ==> settled::inside(f, ks, stack, #[trigger] tys[i]),
    ensures
        context::replace_known_all(db, s.vars.len(), s, stack, tys) matches Ok((_, ts))
            ==> ts.len() == tys.len() && forall|i: int|
            0 <= i < tys.len() ==> solution::apply(f, #[trigger] ts[i]) == solution::apply(
                f,
                tys[i],
            ),
    decreases resolve::unvisited(s.vars.len(), stack).len(), tys,
{
    if tys.len() > 0 {
        let rest = tys.skip(1);
        settled::lemma_replace_known(db, ks, s, stack, tys[0]);
        lemma_replaced_same(f, db, ks, s, stack, tys[0]);
        assert forall|i: int| 0 <= i < rest.len() implies settled::inside(
            f,
            ks,
            stack,
            #[trigger] rest[i],
        ) by {
            assert(rest[i] == tys[i + 1]);
        }
        lemma_all_replaced_same(f, db, ks, s, stack, rest);
        if let (Ok((_, t)), Ok((_, ts))) = (
            context::replace_known(db, s.vars.len(), s, stack, tys[0]),
            context::replace_known_all(db, s.vars.len(), s, stack, rest),
        ) {
            let all = seq![t] + ts;
            assert forall|i: int| 0 <= i < tys.len() implies solution::apply(f, #[trigger] all[i])
                == solution::apply(f, tys[i]) by {
                if i > 0 {
                    assert(all[i] == ts[i - 1] && tys[i] == rest[i - 1]);
                }
            }
        }
    }
}

/// Resolving a type as far as possible changes nothing of what it stands for.
pub proof fn lemma_resolved_same<D: HirDatabase>(db: &D, ks: Seq<Kind>, s: Model, ty: TyModel)
    requires
        kinds::consistent(s.vars, ks),
        kinds::well_kinded(ty, ks),
        settled::answers_fit(db, s.obligations, ks),
    ensures
        context::resolved(db, s, ty) matches Ok((after, t)) ==> {
            &&& narrows(s.vars, after.vars)
            &&& after == (Model { vars: after.vars, obligations: after.obligations, ..s })
            &&& same(after.vars, t, ty)
            &&& ty is Unknown ==> t == ty
            &&& ty is Apply ==> t is Apply && t->ctor == ty->ctor
        },
{
    reveal(same);
    settled::lemma_settle(db, s, ks);
    lemma_answers_used(db, Model { obligations: Seq::empty(), ..s }, s.obligations);
    if let Ok(mid) = context::settle(db, s) {
        settled::lemma_replace_known(db, ks, mid, Seq::empty(), ty);
        if let Ok((after, t)) = context::resolved(db, s, ty) {
            assert forall|f: Assignment| #[trigger]
                solution::solves(f, after.vars) implies solution::apply(f, t) == solution::apply(
                f,
                ty,
            ) by {
                lemma_replaced_same(f, db, ks, mid, Seq::empty(), ty);
            }
        }
    }
}

/// A variable of which nothing is known becomes whatever it is unified with.
pub proof fn lemma_open_unified(
    vars: Seq<VarModel>,
    ks: Seq<Kind>,
    tv: InferTy,
    expected: TyModel,
)
    requires
        kinds::consistent(vars, ks),
        kinds::well_kinded(TyModel::Infer(tv), ks),
        kinds::well_kinded(expected, ks),
        vars[ty::inner_var(tv).0 as int].value is None,
        expected != TyModel::Unknown,
    ensures
        unify::unify(vars, TyModel::Infer(tv), expected) matches Ok((after, _)) ==> same(
            after,
            TyModel::Infer(tv),
            expected,
        ),
{
    reveal(same);
    let var = TyModel::Infer(tv);
    if var != expected {
        let steps = unify::SHALLOW_STEPS as nat;
        kinds::lemma_look_up(vars, ks, expected, steps);
        if let (Ok(x), Ok(y)) = (
            unify::shallow(vars, var, steps),
            unify::shallow(vars, expected, steps),
        ) {
            assert(x == var);
            if let Ok((after, ok)) = unify::unify(vars, var, expected) {
                assert forall|f: Assignment| #[trigger]
                    solution::solves(f, after) implies solution::apply(f, var) == solution::apply(
                    f,
                    expected,
                ) by {
                    solution::lemma_unify(f, vars, var, expected);
                    solution::lemma_shallow(f, vars, expected, steps);
                    match unify::unify_step(x, y) {
                        UnifyStep::Join(v, w) => {
                            solution::lemma_joined(f, vars, v, w);
                        },
                        UnifyStep::Assign(v, t) => {
                            solution::lemma_assigned(f, vars, v, t);
                        },
                        _ => {},
                    }
                }
            }
        }
    }
}

/// What is known once a type has been made equal to what is expected.
pub proof fn lemma_taken<D: HirDatabase>(
    db: &D,
    s: Model,
    ks: Seq<Kind>,
    rule: TyModel,
    expected: TyModel,
) -> (pairs: Seq<(TyModel, TyModel)>)
    requires
        upkeep::faithful(db),
        upkeep::sound(s, ks),
        kinds::well_kinded(rule, ks),
        kinds::well_kinded(expected, ks),
    ensures
        context::insert_shallow_in(s, rule) matches Ok((s1, t1)) ==> (context::unify_in(
            s1,
            t1,
            expected,
        ) matches Ok((s2, _)) ==> (context::resolved(db, s2, t1) matches Ok((s3, t)) ==> {
            &&& takes(s3.vars, t, rule, expected)
            &&& same(s3.vars, t, t1)
            &&& learned(s3.vars, t1, expected)
            &&& if settled::is_open(rule) {
                t1 is Infer
            } else {
                t1 == rule
            }
            &&& narrows(s.vars, s3.vars)
            &&& teaches(s.vars, s3.vars, seq![(t1, expected)] + pairs)
            &&& all_from_answers(db, s.obligations, pairs)
            &&& no_new_goals(s, s3)
            &&& no_goal_lost(db, s, s3)
            &&& s3 == (Model { vars: s3.vars, obligations: s3.obligations, ..s })
        })),
{
    broadcast use group_later;

    let longer = upkeep::lemma_insert_shallow_in(s, ks, rule);
    lemma_inserted(s.vars, rule);
    if let Ok((s1, t1)) = context::insert_shallow_in(s, rule) {
        kinds::lemma_well_kinded_extends(expected, ks, longer);
        upkeep::lemma_unify_in(s1, longer, t1, expected);
        upkeep::lemma_sound_parts(db, s1, longer);
        if let Ok((s2, ok)) = context::unify_in(s1, t1, expected) {
            lemma_unified(s1.vars, t1, expected, s2.vars, ok);
            if settled::is_open(rule) && expected != TyModel::Unknown {
                if let TyModel::Infer(tv) = t1 {
                    lemma_open_unified(s1.vars, longer, tv, expected);
                }
            }
            upkeep::lemma_sound_parts(db, s2, longer);
            lemma_resolved_same(db, longer, s2, t1);
            let pairs = lemma_resolved_teaches(db, longer, s2, t1);
            if let Ok((s3, t)) = context::resolved(db, s2, t1) {
                lemma_teaches_then(s.vars, s1.vars, s2.vars, seq![(t1, expected)]);
                lemma_teaches_both(s.vars, s2.vars, s3.vars, seq![(t1, expected)], pairs);
                lemma_no_goal_lost(db, s, s3);
                lemma_same_refl(s3.vars, t1);
                lemma_same_trans(s3.vars, t, t1, t1);
                lemma_tied_same(s3.vars, t1, t, expected);
                if settled::is_open(rule) {
                    if expected != TyModel::Unknown {
                        assert(same(s2.vars, t1, expected));
                        lemma_same_trans(s3.vars, t, t1, expected);
                    }
                } else {
                    assert(t1 == rule);
                }
            }
            pairs
        } else {
            Seq::empty()
        }
    } else {
        Seq::empty()
    }
}

/// What is known of a type that variables have been put into, once it has been resolved.
pub proof fn lemma_kept<D: HirDatabase>(
    db: &D,
    s: Model,
    ks: Seq<Kind>,
    rule: TyModel,
) -> (pairs: Seq<(TyModel, TyModel)>)
    requires
        upkeep::faithful(db),
        upkeep::sound(s, ks),
        kinds::well_kinded(rule, ks),
    ensures
        context::insert_shallow_in(s, rule) matches Ok((s1, t1)) ==> (context::resolved(
            db,
            s1,
            t1,
        ) matches Ok((s2, t)) ==> {
            &&& same(s2.vars, t, t1)
            &&& if settled::is_open(rule) {
                t1 is Infer
            } else {
                t1 == rule
            }
            &&& narrows(s.vars, s2.vars)
            &&& teaches(s.vars, s2.vars, pairs)
            &&& all_from_answers(db, s.obligations, pairs)
            &&& no_new_goals(s, s2)
            &&& no_goal_lost(db, s, s2)
            &&& s2 == (Model { vars: s2.vars, obligations: s2.obligations, ..s })
        }),
{
    broadcast use group_later;

    let longer = upkeep::lemma_insert_shallow_in(s, ks, rule);
    lemma_inserted(s.vars, rule);
    if let Ok((s1, t1)) = context::insert_shallow_in(s, rule) {
        upkeep::lemma_sound_parts(db, s1, longer);
        lemma_resolved_same(db, longer, s1, t1);
        let pairs = lemma_resolved_teaches(db, longer, s1, t1);
        if let Ok((s2, _)) = context::resolved(db, s1, t1) {
            lemma_teaches_then(s.vars, s1.vars, s2.vars, pairs);
            lemma_no_goal_lost(db, s, s2);
        }
        pairs
    } else {
        Seq::empty()
    }
}

} // verus!
