//! What is true of types that have been filled with variables or resolved.

use vstd::prelude::*;

use crate::context::Model;
use crate::db::{GoalAnswerModel, GuidanceModel, HirDatabase, SolutionModel, TraitRefModel};
use crate::error::InferError;
use crate::kinds::Kind;
use crate::primitive::{UncertainFloatTy, UncertainIntTy};
use crate::solution::Assignment;
use crate::table::VarModel;
use crate::ty::{InferTy, TyModel, TypeCtor, TypeVarId};
use crate::{context, fresh, kinds, resolve, solution, table, ty, unify};

verus! {

/// Whether no variable occurs in the type.
pub open spec fn variable_free(ty: TyModel) -> bool
    decreases ty,
{
    match ty {
        TyModel::Apply { params, .. } => forall|i: int|
            0 <= i < params.len() ==> variable_free(#[trigger] params[i]),
        TyModel::Infer(_) => false,
        _ => true,
    }
}

pub open spec fn all_variable_free(tys: Seq<TyModel>) -> bool {
    forall|i: int| 0 <= i < tys.len() ==> variable_free(#[trigger] tys[i])
}

/// Whether no variable with a known type occurs in the type.
pub open spec fn no_known(vars: Seq<VarModel>, ty: TyModel) -> bool
    decreases ty,
{
    match ty {
        TyModel::Apply { params, .. } => forall|i: int|
            0 <= i < params.len() ==> no_known(vars, #[trigger] params[i]),
        TyModel::Infer(tv) => vars[ty::inner_var(tv).0 as int].value is None,
        _ => true,
    }
}

pub open spec fn all_no_known(vars: Seq<VarModel>, tys: Seq<TyModel>) -> bool {
    forall|i: int| 0 <= i < tys.len() ==> no_known(vars, #[trigger] tys[i])
}

/// Whether the type leaves something open that a variable can be put in place of.
pub open spec fn is_open(ty: TyModel) -> bool {
    match ty {
        TyModel::Unknown => true,
        TyModel::Apply { ctor: TypeCtor::Int(UncertainIntTy::Unknown), .. } => true,
        TyModel::Apply { ctor: TypeCtor::Float(UncertainFloatTy::Unknown), .. } => true,
        _ => false,
    }
}

/// Whether nothing in the type is left open.
pub open spec fn nothing_open(ty: TyModel) -> bool
    decreases ty,
{
    !is_open(ty) && match ty {
        TyModel::Apply { params, .. } => forall|i: int|
            0 <= i < params.len() ==> nothing_open(#[trigger] params[i]),
        _ => true,
    }
}

pub open spec fn all_nothing_open(tys: Seq<TyModel>) -> bool {
    forall|i: int| 0 <= i < tys.len() ==> nothing_open(#[trigger] tys[i])
}

/// Whether one type is another with a variable, numbered from `first` on, in each
/// place that is left open, and no other change.
pub open spec fn filled(ty: TyModel, full: TyModel, first: nat) -> bool
    decreases ty,
{
    match ty {
        TyModel::Unknown => full matches TyModel::Infer(InferTy::TypeVar(v)) && v.0 >= first,
        TyModel::Apply { ctor, params } => if ctor == TypeCtor::Int(UncertainIntTy::Unknown) {
            full matches TyModel::Infer(InferTy::IntVar(v)) && v.0 >= first
        } else if ctor == TypeCtor::Float(UncertainFloatTy::Unknown) {
            full matches TyModel::Infer(InferTy::FloatVar(v)) && v.0 >= first
        } else {
            full matches TyModel::Apply { ctor: c, params: ps } && c == ctor && ps.len()
                == params.len() && forall|i: int|
                0 <= i < params.len() ==> filled(#[trigger] params[i], ps[i], first)
        },
        _ => full == ty,
    }
}

pub open spec fn all_filled(tys: Seq<TyModel>, full: Seq<TyModel>, first: nat) -> bool {
    full.len() == tys.len() && forall|i: int|
        0 <= i < tys.len() ==> filled(#[trigger] tys[i], full[i], first)
}

pub proof fn lemma_filled_lower(ty: TyModel, full: TyModel, first: nat, lower: nat)
    requires
        filled(ty, full, first),
        lower <= first,
    ensures
        filled(ty, full, lower),
    decreases ty,
{
    if let TyModel::Apply { params, .. } = ty {
        if !is_open(ty) {
            assert forall|i: int| 0 <= i < params.len() implies filled(
                #[trigger] params[i],
                full->params[i],
                lower,
            ) by {
                lemma_filled_lower(params[i], full->params[i], first, lower);
            }
        }
    }
}

/// A new variable is of the kind that it is made for, and nothing is known of it.
proof fn lemma_new_var(vars: Seq<VarModel>, ks: Seq<Kind>, kind: Kind)
    requires
        kinds::consistent(vars, ks),
    ensures
        fresh::new_var(vars) matches Ok((after, v)) ==> {
            &&& kinds::consistent(after, ks.push(kind))
            &&& kinds::more_known(vars, after)
            &&& v.0 == vars.len()
            &&& after[vars.len() as int].value is None
        },
        kinds::extends(ks, ks.push(kind)),
{
    let after = vars.push(table::fresh_var(vars, None));
    let longer = ks.push(kind);
    assert forall|i: int| 0 <= i < after.len() implies {
        &&& (#[trigger] after[i]).class.contains(i)
        &&& forall|j: int| #[trigger]
            after[i].class.contains(j) ==> 0 <= j < after.len() && after[j] == after[i]
    } by {
        if i < vars.len() {
            assert(after[i] == vars[i]);
        }
    }
    assert forall|i: int| 0 <= i < after.len() implies ((#[trigger] after[i]).value matches Some(t)
        ==> {
        &&& kinds::well_kinded(t, longer)
        &&& kinds::can_stand_for(longer[i], t)
    }) by {
        if i < vars.len() {
            assert(after[i] == vars[i]);
            if let Some(t) = vars[i].value {
                kinds::lemma_well_kinded_extends(t, ks, longer);
            }
        }
    }
    assert forall|i: int, j: int|
        0 <= i < after.len() && #[trigger] after[i].class.contains(j) implies longer[j]
        == longer[i] by {
        if i < vars.len() {
            assert(after[i] == vars[i]);
            assert(vars[i].class.contains(j));
        }
    }
}

/// What the insertion of variables keeps.
pub open spec fn insert_keeps(
    vars: Seq<VarModel>,
    ks: Seq<Kind>,
    longer: Seq<Kind>,
    outcome: fresh::WithTy,
) -> bool {
    match outcome {
        Ok((after, t)) => {
            &&& kinds::consistent(after, longer)
            &&& kinds::extends(ks, longer)
            &&& kinds::more_known(vars, after)
            &&& kinds::well_kinded(t, longer)
        },
        Err(e) => e == InferError::TooManyVariables,
    }
}

pub proof fn lemma_new_type_var(vars: Seq<VarModel>, ks: Seq<Kind>) -> (longer: Seq<Kind>)
    requires
        kinds::consistent(vars, ks),
    ensures
        insert_keeps(vars, ks, longer, fresh::new_type_var(vars)),
{
    lemma_new_var(vars, ks, Kind::General);
    ks.push(Kind::General)
}

pub proof fn lemma_insert_shallow(vars: Seq<VarModel>, ks: Seq<Kind>, ty: TyModel) -> (longer: Seq<
    Kind,
>)
    requires
        kinds::consistent(vars, ks),
        kinds::well_kinded(ty, ks),
    ensures
        insert_keeps(vars, ks, longer, fresh::insert_shallow(vars, ty)),
{
    match ty {
        TyModel::Unknown => {
            lemma_new_var(vars, ks, Kind::General);
            ks.push(Kind::General)
        },
        TyModel::Apply { ctor: TypeCtor::Int(UncertainIntTy::Unknown), .. } => {
            lemma_new_var(vars, ks, Kind::Integer);
            ks.push(Kind::Integer)
        },
        TyModel::Apply { ctor: TypeCtor::Float(UncertainFloatTy::Unknown), .. } => {
            lemma_new_var(vars, ks, Kind::Float);
            ks.push(Kind::Float)
        },
        _ => ks,
    }
}

pub proof fn lemma_insert(vars: Seq<VarModel>, ks: Seq<Kind>, ty: TyModel) -> (longer: Seq<Kind>)
    requires
        kinds::consistent(vars, ks),
        kinds::well_kinded(ty, ks),
    ensures
        insert_keeps(vars, ks, longer, fresh::insert(vars, ty)),
    decreases ty,
{
    if let TyModel::Apply { ctor, params } = ty {
        let mid = lemma_insert_all(vars, ks, params);
        if let Ok((vars2, ps)) = fresh::insert_all(vars, params) {
            let longer = lemma_insert_shallow(vars2, mid, TyModel::Apply { ctor, params: ps });
            if let Ok((after, _)) = fresh::insert_shallow(
                vars2,
                TyModel::Apply { ctor, params: ps },
            ) {
                kinds::lemma_more_known_trans(vars, vars2, after);
            }
            longer
        } else {
            ks
        }
    } else {
        lemma_insert_shallow(vars, ks, ty)
    }
}

pub proof fn lemma_insert_all(vars: Seq<VarModel>, ks: Seq<Kind>, tys: Seq<TyModel>) -> (longer: Seq<
    Kind,
>)
    requires
        kinds::consistent(vars, ks),
        kinds::all_well_kinded(tys, ks),
    ensures
        match fresh::insert_all(vars, tys) {
            Ok((after, ts)) => {
                &&& kinds::consistent(after, longer)
                &&& kinds::extends(ks, longer)
                &&& kinds::more_known(vars, after)
                &&& kinds::all_well_kinded(ts, longer)
            },
            Err(e) => e == InferError::TooManyVariables,
        },
    decreases tys,
{
    if tys.len() == 0 {
        ks
    } else {
        let mid = lemma_insert(vars, ks, tys[0]);
        if let Ok((vars2, t)) = fresh::insert(vars, tys[0]) {
            kinds::lemma_all_well_kinded_extends(tys.skip(1), ks, mid);
            let longer = lemma_insert_all(vars2, mid, tys.skip(1));
            if let Ok((after, ts)) = fresh::insert_all(vars2, tys.skip(1)) {
                kinds::lemma_more_known_trans(vars, vars2, after);
                kinds::lemma_well_kinded_extends(t, mid, longer);
                assert forall|i: int| 0 <= i < (seq![t] + ts).len() implies kinds::well_kinded(
                    #[trigger] (seq![t] + ts)[i],
                    longer,
                ) by {
                    if i > 0 {
                        assert((seq![t] + ts)[i] == ts[i - 1]);
                    }
                }
            }
            longer
        } else {
            ks
        }
    }
}

/// The insertion of variables leaves nothing open and changes nothing else; the new
/// variables are all that is added.
pub proof fn lemma_insert_fills(vars: Seq<VarModel>, ty: TyModel)
    ensures
        fresh::insert(vars, ty) matches Ok((after, t)) ==> {
            &&& nothing_open(t)
            &&& filled(ty, t, vars.len())
            &&& vars.is_prefix_of(after)
            &&& nothing_open(ty) ==> t == ty && after == vars
        },
    decreases ty,
{
    if let TyModel::Apply { ctor, params } = ty {
        lemma_insert_all_fills(vars, params);
        if let Ok((vars2, ps)) = fresh::insert_all(vars, params) {
            assert(nothing_open(ty) ==> ps == params);
        }
    }
}

pub proof fn lemma_insert_all_fills(vars: Seq<VarModel>, tys: Seq<TyModel>)
    ensures
        fresh::insert_all(vars, tys) matches Ok((after, ts)) ==> {
            &&& all_nothing_open(ts)
            &&& all_filled(tys, ts, vars.len())
            &&& vars.is_prefix_of(after)
            &&& all_nothing_open(tys) ==> ts == tys && after == vars
        },
    decreases tys,
{
    if tys.len() > 0 {
        lemma_insert_fills(vars, tys[0]);
        if let Ok((vars2, t)) = fresh::insert(vars, tys[0]) {
            let rest = tys.skip(1);
            lemma_insert_all_fills(vars2, rest);
            if let Ok((after, ts)) = fresh::insert_all(vars2, rest) {
                let all = seq![t] + ts;
                assert forall|i: int| 0 <= i < tys.len() implies nothing_open(#[trigger] all[i])
                    && filled(tys[i], all[i], vars.len()) by {
                    if i > 0 {
                        assert(all[i] == ts[i - 1] && tys[i] == rest[i - 1]);
                        lemma_filled_lower(rest[i - 1], ts[i - 1], vars2.len(), vars.len());
                    }
                }
                if all_nothing_open(tys) {
                    assert(all_nothing_open(rest));
                    assert(all =~= tys);
                }
            }
        }
    }
}

pub proof fn lemma_free_well_kinded(ty: TyModel, ks: Seq<Kind>)
    requires
        variable_free(ty),
    ensures
        kinds::well_kinded(ty, ks),
    decreases ty,
{
    if let TyModel::Apply { params, .. } = ty {
        assert forall|i: int| 0 <= i < params.len() implies kinds::well_kinded(
            #[trigger] params[i],
            ks,
        ) by {
            lemma_free_well_kinded(params[i], ks);
        }
    }
}

/// A type that speaks of no variables at all has none in it.
pub proof fn lemma_kindless_free(ty: TyModel)
    requires
        kinds::well_kinded(ty, Seq::empty()),
    ensures
        variable_free(ty),
    decreases ty,
{
    if let TyModel::Apply { params, .. } = ty {
        assert forall|i: int| 0 <= i < params.len() implies variable_free(#[trigger] params[i]) by {
            lemma_kindless_free(params[i]);
        }
    }
}

/// Whether nothing is known of the variables from `first` on.
spec fn unknown_from(vars: Seq<VarModel>, first: nat) -> bool {
    forall|i: int| first <= i < vars.len() ==> (#[trigger] vars[i]).value is None
}

/// Nothing is known of the variables that are put into a type.
proof fn lemma_inserted_unknown(vars: Seq<VarModel>, ty: TyModel, first: nat)
    requires
        unknown_from(vars, first),
    ensures
        fresh::insert(vars, ty) matches Ok((after, _)) ==> unknown_from(after, first),
    decreases ty,
{
    if let TyModel::Apply { params, .. } = ty {
        lemma_all_inserted_unknown(vars, params, first);
    }
}

proof fn lemma_all_inserted_unknown(vars: Seq<VarModel>, tys: Seq<TyModel>, first: nat)
    requires
        unknown_from(vars, first),
    ensures
        fresh::insert_all(vars, tys) matches Ok((after, _)) ==> unknown_from(after, first),
    decreases tys,
{
    if tys.len() > 0 {
        lemma_inserted_unknown(vars, tys[0], first);
        if let Ok((mid, _)) = fresh::insert(vars, tys[0]) {
            lemma_all_inserted_unknown(mid, tys.skip(1), first);
        }
    }
}

proof fn lemma_filled_no_known(
    vars: Seq<VarModel>,
    ks: Seq<Kind>,
    ty: TyModel,
    full: TyModel,
    first: nat,
)
    requires
        variable_free(ty),
        filled(ty, full, first),
        kinds::well_kinded(full, ks),
        ks.len() == vars.len(),
        unknown_from(vars, first),
    ensures
        no_known(vars, full),
    decreases ty,
{
    if let TyModel::Apply { params, .. } = ty {
        if !is_open(ty) {
            assert forall|i: int| 0 <= i < params.len() implies no_known(
                vars,
                #[trigger] full->params[i],
            ) by {
                assert(filled(params[i], full->params[i], first));
                lemma_filled_no_known(vars, ks, params[i], full->params[i], first);
            }
        }
    }
}

/// In a type without variables that variables are put into, no variable has a known type.
pub proof fn lemma_insert_no_known(vars: Seq<VarModel>, ks: Seq<Kind>, ty: TyModel)
    requires
        kinds::consistent(vars, ks),
        variable_free(ty),
    ensures
        fresh::insert(vars, ty) matches Ok((after, full)) ==> no_known(after, full),
{
    lemma_free_well_kinded(ty, ks);
    let longer = lemma_insert(vars, ks, ty);
    lemma_insert_fills(vars, ty);
    lemma_inserted_unknown(vars, ty, vars.len());
    if let Ok((after, full)) = fresh::insert(vars, ty) {
        lemma_filled_no_known(after, longer, ty, full, vars.len());
    }
}

pub proof fn lemma_fallback_free(tv: InferTy)
    ensures
        variable_free(ty::fallback(tv)),
{
}

/// What is resolved completely has no variables in it.
pub proof fn lemma_completely_free(vars: Seq<VarModel>, stack: Seq<TypeVarId>, ty: TyModel)
    ensures
        resolve::completely(vars, stack, ty) matches Ok(t) ==> variable_free(t),
    decreases resolve::unvisited(vars.len(), stack).len(), ty,
{
    match ty {
        TyModel::Apply { params, .. } => {
            lemma_completely_all_free(vars, stack, params);
        },
        TyModel::Infer(tv) => {
            let v = ty::inner_var(tv);
            lemma_fallback_free(tv);
            if !stack.contains(v) && table::has_var(vars, v) {
                if let Some(known) = vars[v.0 as int].value {
                    resolve::lemma_unvisited_shrinks(vars.len(), stack, v);
                    lemma_completely_free(vars, stack.push(v), known);
                }
            }
        },
        _ => {},
    }
}

proof fn lemma_completely_all_free(vars: Seq<VarModel>, stack: Seq<TypeVarId>, tys: Seq<TyModel>)
    ensures
        resolve::completely_all(vars, stack, tys) matches Ok(ts) ==> all_variable_free(ts),
    decreases resolve::unvisited(vars.len(), stack).len(), tys,
{
    if tys.len() > 0 {
        lemma_completely_free(vars, stack, tys[0]);
        lemma_completely_all_free(vars, stack, tys.skip(1));
        if let (Ok(t), Ok(ts)) = (
            resolve::completely(vars, stack, tys[0]),
            resolve::completely_all(vars, stack, tys.skip(1)),
        ) {
            assert forall|i: int| 0 <= i < (seq![t] + ts).len() implies variable_free(
                #[trigger] (seq![t] + ts)[i],
            ) by {
                if i > 0 {
                    assert((seq![t] + ts)[i] == ts[i - 1]);
                }
            }
        }
    }
}

/// A type without variables is resolved as it is.
pub proof fn lemma_completely_same(vars: Seq<VarModel>, stack: Seq<TypeVarId>, ty: TyModel)
    requires
        variable_free(ty),
    ensures
        resolve::completely(vars, stack, ty) == Ok::<TyModel, InferError>(ty),
    decreases ty,
{
    if let TyModel::Apply { params, .. } = ty {
        lemma_completely_all_same(vars, stack, params);
    }
}

proof fn lemma_completely_all_same(vars: Seq<VarModel>, stack: Seq<TypeVarId>, tys: Seq<TyModel>)
    requires
        all_variable_free(tys),
    ensures
        resolve::completely_all(vars, stack, tys) == Ok::<Seq<TyModel>, InferError>(tys),
    decreases tys,
{
    if tys.len() > 0 {
        lemma_completely_same(vars, stack, tys[0]);
        lemma_completely_all_same(vars, stack, tys.skip(1));
        assert(seq![tys[0]] + tys.skip(1) =~= tys);
    } else {
        assert(tys =~= Seq::empty());
    }
}

/// A type that speaks of variables that there are can be resolved completely.
pub proof fn lemma_completely_total(
    vars: Seq<VarModel>,
    ks: Seq<Kind>,
    stack: Seq<TypeVarId>,
    ty: TyModel,
)
    requires
        kinds::consistent(vars, ks),
        kinds::well_kinded(ty, ks),
    ensures
        resolve::completely(vars, stack, ty) is Ok,
    decreases resolve::unvisited(vars.len(), stack).len(), ty,
{
    match ty {
        TyModel::Apply { params, .. } => {
            lemma_completely_all_total(vars, ks, stack, params);
        },
        TyModel::Infer(tv) => {
            let v = ty::inner_var(tv);
            if !stack.contains(v) {
                if let Some(known) = vars[v.0 as int].value {
                    resolve::lemma_unvisited_shrinks(vars.len(), stack, v);
                    lemma_completely_total(vars, ks, stack.push(v), known);
                }
            }
        },
        _ => {},
    }
}

proof fn lemma_completely_all_total(
    vars: Seq<VarModel>,
    ks: Seq<Kind>,
    stack: Seq<TypeVarId>,
    tys: Seq<TyModel>,
)
    requires
        kinds::consistent(vars, ks),
        kinds::all_well_kinded(tys, ks),
    ensures
        resolve::completely_all(vars, stack, tys) is Ok,
    decreases resolve::unvisited(vars.len(), stack).len(), tys,
{
    if tys.len() > 0 {
        lemma_completely_total(vars, ks, stack, tys[0]);
        lemma_completely_all_total(vars, ks, stack, tys.skip(1));
    }
}

/// The number of constructors, parameters and the like in a type.
pub open spec fn size(ty: TyModel) -> nat
    decreases ty,
{
    match ty {
        TyModel::Apply { params, .. } => 1 + size_all(params),
        _ => 1,
    }
}

pub open spec fn size_all(tys: Seq<TyModel>) -> nat
    decreases tys,
{
    if tys.len() == 0 {
        0
    } else {
        size(tys[0]) + size_all(tys.skip(1))
    }
}

proof fn lemma_size_of_one(tys: Seq<TyModel>, i: int)
    requires
        0 <= i < tys.len(),
    ensures
        size(tys[i]) <= size_all(tys),
    decreases tys.len(),
{
    if i > 0 {
        lemma_size_of_one(tys.skip(1), i - 1);
    }
}

/// How many look-ups a variable of a kind can need.
pub open spec fn rank_of(kind: Kind) -> nat {
    match kind {
        Kind::General => 3,
        Kind::Integer => 2,
        Kind::Float => 1,
    }
}

/// Whether an assignment gives each variable of which nothing is known the type that
/// is taken for it in the end.
pub open spec fn falls_back(f: Assignment, vars: Seq<VarModel>, ks: Seq<Kind>) -> bool {
    forall|i: int|
        0 <= i < vars.len() && (#[trigger] vars[i]).value is None ==> f(i) == match ks[i] {
            Kind::General => ty::fallback(InferTy::TypeVar(TypeVarId(0))),
            Kind::Integer => ty::fallback(InferTy::IntVar(TypeVarId(0))),
            Kind::Float => ty::fallback(InferTy::FloatVar(TypeVarId(0))),
        }
}

/// Whether the type is, under the assignment, a proper part of what each variable on
/// the stack stands for.
pub open spec fn inside(f: Assignment, ks: Seq<Kind>, stack: Seq<TypeVarId>, ty: TyModel) -> bool {
    forall|k: int|
        0 <= k < stack.len() ==> {
            let u = (#[trigger] stack[k]).0 as int;
            let whole = size(f(u));
            let part = size(solution::apply(f, ty));
            &&& u < ks.len()
            &&& part < whole || part == whole && kinds::rank(ty) < rank_of(ks[u])
        }
}

pub proof fn lemma_inside_param(
    f: Assignment,
    ks: Seq<Kind>,
    stack: Seq<TypeVarId>,
    ty: TyModel,
    i: int,
)
    requires
        inside(f, ks, stack, ty),
        ty is Apply,
        0 <= i < ty->params.len(),
    ensures
        inside(f, ks, stack, ty->params[i]),
{
    let params = ty->params;
    let image = solution::apply(f, ty)->params;
    lemma_size_of_one(image, i);
    assert(image[i] == solution::apply(f, params[i]));
    assert forall|k: int| 0 <= k < stack.len() implies {
        let u = (#[trigger] stack[k]).0 as int;
        u < ks.len() && size(solution::apply(f, params[i])) < size(f(u))
    } by {}
}

pub proof fn lemma_inside_known(
    f: Assignment,
    vars: Seq<VarModel>,
    ks: Seq<Kind>,
    stack: Seq<TypeVarId>,
    tv: InferTy,
    known: TyModel,
)
    requires
        kinds::consistent(vars, ks),
        kinds::well_kinded(TyModel::Infer(tv), ks),
        solution::solves(f, vars),
        inside(f, ks, stack, TyModel::Infer(tv)),
        vars[ty::inner_var(tv).0 as int].value == Some(known),
    ensures
        inside(f, ks, stack.push(ty::inner_var(tv)), known),
{
    let v = ty::inner_var(tv);
    assert(solution::solves_var(f, vars, v.0 as int));
    let deeper = stack.push(v);
    assert forall|k: int| 0 <= k < deeper.len() implies {
        let u = (#[trigger] deeper[k]).0 as int;
        let whole = size(f(u));
        let part = size(solution::apply(f, known));
        &&& u < ks.len()
        &&& part < whole || part == whole && kinds::rank(known) < rank_of(ks[u])
    } by {
        if k < stack.len() {
            assert(deeper[k] == stack[k]);
        }
    }
}

/// Complete resolution gives what the variables stand for.
proof fn lemma_completely_solution(
    f: Assignment,
    vars: Seq<VarModel>,
    ks: Seq<Kind>,
    stack: Seq<TypeVarId>,
    ty: TyModel,
)
    requires
        kinds::consistent(vars, ks),
        kinds::well_kinded(ty, ks),
        solution::solves(f, vars),
        falls_back(f, vars, ks),
        inside(f, ks, stack, ty),
    ensures
        resolve::completely(vars, stack, ty) == Ok::<TyModel, InferError>(solution::apply(f, ty)),
    decreases resolve::unvisited(vars.len(), stack).len(), ty,
{
    match ty {
        TyModel::Apply { params, .. } => {
            let image = solution::apply(f, ty)->params;
            assert forall|i: int| 0 <= i < params.len() implies inside(
                f,
                ks,
                stack,
                #[trigger] params[i],
            ) by {
                lemma_inside_param(f, ks, stack, ty, i);
            }
            lemma_completely_all_solution(f, vars, ks, stack, params, image);
        },
        TyModel::Infer(tv) => {
            let v = ty::inner_var(tv);
            let i = v.0 as int;
            if stack.contains(v) {
                let k = choose|k: int| 0 <= k < stack.len() && stack[k] == v;
                assert(stack[k].0 as int == i);
            } else if let Some(known) = vars[i].value {
                resolve::lemma_unvisited_shrinks(vars.len(), stack, v);
                assert(solution::solves_var(f, vars, i));
                lemma_inside_known(f, vars, ks, stack, tv, known);
                lemma_completely_solution(f, vars, ks, stack.push(v), known);
            }
        },
        _ => {},
    }
}

/// Complete resolution gives what the variables stand for.
pub proof fn lemma_completely_is_solution(
    f: Assignment,
    vars: Seq<VarModel>,
    ks: Seq<Kind>,
    ty: TyModel,
)
    requires
        kinds::consistent(vars, ks),
        kinds::well_kinded(ty, ks),
        solution::solves(f, vars),
        falls_back(f, vars, ks),
    ensures
        resolve::completely(vars, Seq::empty(), ty) == Ok::<TyModel, InferError>(
            solution::apply(f, ty),
        ),
{
    lemma_completely_solution(f, vars, ks, Seq::empty(), ty);
}

proof fn lemma_completely_all_solution(
    f: Assignment,
    vars: Seq<VarModel>,
    ks: Seq<Kind>,
    stack: Seq<TypeVarId>,
    tys: Seq<TyModel>,
    image: Seq<TyModel>,
)
    requires
        kinds::consistent(vars, ks),
        kinds::all_well_kinded(tys, ks),
        solution::solves(f, vars),
        falls_back(f, vars, ks),
        forall|i: int| 0 <= i < tys.len() ==> inside(f, ks, stack, #[trigger] tys[i]),
        image.len() == tys.len(),
        forall|i: int|
            0 <= i < tys.len() ==> image[i] == solution::apply(f, #[trigger] tys[i]),
    ensures
        resolve::completely_all(vars, stack, tys) == Ok::<Seq<TyModel>, InferError>(image),
    decreases resolve::unvisited(vars.len(), stack).len(), tys,
{
    if tys.len() > 0 {
        lemma_completely_solution(f, vars, ks, stack, tys[0]);
        let rest = tys.skip(1);
        assert forall|i: int| 0 <= i < rest.len() implies inside(f, ks, stack, #[trigger] rest[i])
            && image.skip(1)[i] == solution::apply(f, rest[i]) by {
            assert(rest[i] == tys[i + 1]);
        }
        lemma_completely_all_solution(f, vars, ks, stack, rest, image.skip(1));
        assert(seq![image[0]] + image.skip(1) =~= image);
    } else {
        assert(image =~= Seq::empty());
    }
}

/// The types that a solution gives for the variables of a goal.
pub open spec fn answer_substs(answer: GoalAnswerModel) -> Option<Seq<TyModel>> {
    match answer.solution {
        Some(SolutionModel::Unique(substs)) => Some(substs),
        Some(SolutionModel::Ambig(GuidanceModel::Definite(substs))) => Some(substs),
        _ => None,
    }
}

/// Whether an answer speaks of variables that there are: it gives types for general
/// variables.
pub open spec fn answer_fits(answer: GoalAnswerModel, ks: Seq<Kind>) -> bool {
    answer_substs(answer) matches Some(substs) ==> {
        &&& substs.len() <= answer.var_mapping.len()
        &&& kinds::all_well_kinded(substs, ks)
        &&& forall|i: int|
            0 <= i < substs.len() ==> (#[trigger] answer.var_mapping[i]).0 < ks.len()
                && ks[answer.var_mapping[i].0 as int] == Kind::General
    }
}

pub open spec fn answers_fit<D: HirDatabase>(
    db: &D,
    goals: Seq<TraitRefModel>,
    ks: Seq<Kind>,
) -> bool {
    forall|i: int| 0 <= i < goals.len() ==> answer_fits(db.answer(#[trigger] goals[i]), ks)
}

/// Whether a goal stays open when it has been answered.
pub open spec fn stays_open<D: HirDatabase>(db: &D, goal: TraitRefModel) -> bool {
    db.answer(goal).solution matches Some(SolutionModel::Ambig(_))
}

/// The goals that stay open.
pub open spec fn open_goals<D: HirDatabase>(db: &D, goals: Seq<TraitRefModel>) -> Seq<TraitRefModel>
    decreases goals.len(),
{
    if goals.len() == 0 {
        Seq::empty()
    } else if stays_open(db, goals[0]) {
        seq![goals[0]] + open_goals(db, goals.skip(1))
    } else {
        open_goals(db, goals.skip(1))
    }
}

proof fn lemma_apply_solution_keeps(
    vars: Seq<VarModel>,
    ks: Seq<Kind>,
    answer: GoalAnswerModel,
    substs: Seq<TyModel>,
    i: nat,
)
    requires
        kinds::consistent(vars, ks),
        answer_fits(answer, ks),
        answer_substs(answer) == Some(substs),
    ensures
        match context::apply_solution(vars, answer.var_mapping, substs, i) {
            Ok(after) => kinds::consistent(after, ks) && kinds::more_known(vars, after),
            Err(e) => e == InferError::UnificationDepth,
        },
    decreases substs.len() - i,
{
    if i < substs.len() {
        let var = TyModel::Infer(InferTy::TypeVar(answer.var_mapping[i as int]));
        kinds::lemma_unify_keeps(vars, ks, var, substs[i as int], 0);
        if let Ok((mid, _)) = unify::unify(vars, var, substs[i as int]) {
            lemma_apply_solution_keeps(mid, ks, answer, substs, i + 1);
            if let Ok(after) = context::apply_solution(mid, answer.var_mapping, substs, i + 1) {
                kinds::lemma_more_known_trans(vars, mid, after);
            }
        }
    }
}

proof fn lemma_apply_solution_again(
    vars: Seq<VarModel>,
    later: Seq<VarModel>,
    ks: Seq<Kind>,
    answer: GoalAnswerModel,
    substs: Seq<TyModel>,
    i: nat,
)
    requires
        kinds::consistent(vars, ks),
        kinds::consistent(later, ks),
        answer_fits(answer, ks),
        answer_substs(answer) == Some(substs),
        context::apply_solution(vars, answer.var_mapping, substs, i) matches Ok(after)
            && kinds::more_known(after, later),
    ensures
        match context::apply_solution(later, answer.var_mapping, substs, i) {
            Ok(after) => after == later,
            Err(e) => e == InferError::UnificationDepth,
        },
    decreases substs.len() - i,
{
    if i < substs.len() {
        let var = TyModel::Infer(InferTy::TypeVar(answer.var_mapping[i as int]));
        kinds::lemma_unify_keeps(vars, ks, var, substs[i as int], 0);
        let mid = unify::unify(vars, var, substs[i as int])->Ok_0.0;
        let after = context::apply_solution(mid, answer.var_mapping, substs, i + 1)->Ok_0;
        lemma_apply_solution_keeps(mid, ks, answer, substs, i + 1);
        kinds::lemma_more_known_trans(mid, after, later);
        kinds::lemma_unify_again(vars, later, ks, var, substs[i as int], 0);
        lemma_apply_solution_again(mid, later, ks, answer, substs, i + 1);
    }
}

/// What a look at the open goals changes: more may be known of the variables, and
/// goals may be closed.
pub proof fn lemma_use_answers_keeps<D: HirDatabase>(
    db: &D,
    s: Model,
    ks: Seq<Kind>,
    goals: Seq<TraitRefModel>,
)
    requires
        kinds::consistent(s.vars, ks),
        answers_fit(db, goals, ks),
    ensures
        match context::use_answers(db, s, goals) {
            Ok(after) => {
                &&& kinds::consistent(after.vars, ks)
                &&& kinds::more_known(s.vars, after.vars)
                &&& after == (Model {
                    vars: after.vars,
                    obligations: s.obligations + open_goals(db, goals),
                    ..s
                })
            },
            Err(e) => e == InferError::UnificationDepth,
        },
    decreases goals.len(),
{
    if goals.len() == 0 {
        assert(s.obligations + open_goals(db, goals) =~= s.obligations);
    } else {
        let goal = goals[0];
        let answer = db.answer(goal);
        assert(answer_fits(answer, ks));
        if let Some(substs) = answer_substs(answer) {
            lemma_apply_solution_keeps(s.vars, ks, answer, substs, 0);
        }
        if let Ok(mid) = context::use_answer(db, s, goal) {
            lemma_use_answers_keeps(db, mid, ks, goals.skip(1));
            if let Ok(after) = context::use_answers(db, mid, goals.skip(1)) {
                kinds::lemma_more_known_trans(s.vars, mid.vars, after.vars);
                let rest = open_goals(db, goals.skip(1));
                if stays_open(db, goal) {
                    assert(s.obligations.push(goal) + rest =~= s.obligations + (seq![goal] + rest));
                }
            }
        }
    }
}

/// To look at the goals that stayed open once more teaches nothing.
proof fn lemma_use_answers_again<D: HirDatabase>(
    db: &D,
    s: Model,
    later: Model,
    ks: Seq<Kind>,
    goals: Seq<TraitRefModel>,
)
    requires
        kinds::consistent(s.vars, ks),
        kinds::consistent(later.vars, ks),
        answers_fit(db, goals, ks),
        context::use_answers(db, s, goals) matches Ok(after) && kinds::more_known(
            after.vars,
            later.vars,
        ),
    ensures
        match context::use_answers(db, later, open_goals(db, goals)) {
            Ok(after) => after == (Model {
                obligations: later.obligations + open_goals(db, goals),
                ..later
            }),
            Err(e) => e == InferError::UnificationDepth,
        },
    decreases goals.len(),
{
    if goals.len() == 0 {
        assert(later.obligations + open_goals(db, goals) =~= later.obligations);
    } else {
        let goal = goals[0];
        let rest = goals.skip(1);
        let answer = db.answer(goal);
        assert(answer_fits(answer, ks));
        if let Some(substs) = answer_substs(answer) {
            lemma_apply_solution_keeps(s.vars, ks, answer, substs, 0);
        }
        let mid = context::use_answer(db, s, goal)->Ok_0;
        lemma_use_answers_keeps(db, mid, ks, rest);
        let after = context::use_answers(db, s, goals)->Ok_0;
        if stays_open(db, goal) {
            kinds::lemma_more_known_trans(mid.vars, after.vars, later.vars);
            if let Some(substs) = answer_substs(answer) {
                lemma_apply_solution_again(s.vars, later.vars, ks, answer, substs, 0);
            }
            let still = Model { obligations: later.obligations.push(goal), ..later };
            lemma_use_answers_again(db, mid, still, ks, rest);
            let all = open_goals(db, goals);
            assert(all[0] == goal);
            assert(all.skip(1) =~= open_goals(db, rest));
            assert(context::use_answer(db, later, goal) matches Ok(next) ==> next =~= still);
            assert(later.obligations.push(goal) + open_goals(db, rest) =~= later.obligations
                + all);
        } else {
            lemma_use_answers_again(db, mid, later, ks, rest);
        }
    }
}

/// Whether the open obligations teach nothing more.
pub open spec fn is_settled<D: HirDatabase>(db: &D, s: Model) -> bool {
    match context::settle(db, s) {
        Ok(after) => after == s,
        Err(e) => e == InferError::UnificationDepth,
    }
}

/// After a look at the open obligations, another look teaches nothing.
pub proof fn lemma_settle<D: HirDatabase>(db: &D, s: Model, ks: Seq<Kind>)
    requires
        kinds::consistent(s.vars, ks),
        answers_fit(db, s.obligations, ks),
    ensures
        match context::settle(db, s) {
            Ok(after) => {
                &&& kinds::consistent(after.vars, ks)
                &&& kinds::more_known(s.vars, after.vars)
                &&& after == (Model {
                    vars: after.vars,
                    obligations: open_goals(db, s.obligations),
                    ..s
                })
                &&& is_settled(db, after)
            },
            Err(e) => e == InferError::UnificationDepth,
        },
{
    let bare = Model { obligations: Seq::empty(), ..s };
    lemma_use_answers_keeps(db, bare, ks, s.obligations);
    if let Ok(after) = context::settle(db, s) {
        let kept = open_goals(db, s.obligations);
        assert(Seq::<TraitRefModel>::empty() + kept =~= kept);
        let later = Model { obligations: Seq::empty(), ..after };
        lemma_refl(after.vars);
        lemma_use_answers_again(db, bare, later, ks, s.obligations);
        assert(after.obligations == kept);
        assert(context::settle(db, after) matches Ok(again) ==> again =~= after);
    }
}

proof fn lemma_refl(vars: Seq<VarModel>)
    ensures
        kinds::more_known(vars, vars),
{
}

/// In a settled state, resolving a type changes nothing of what is known, and leaves no
/// variable with a known type in it.
pub proof fn lemma_as_possible<D: HirDatabase>(
    db: &D,
    ks: Seq<Kind>,
    s: Model,
    stack: Seq<TypeVarId>,
    ty: TyModel,
)
    requires
        kinds::consistent(s.vars, ks),
        kinds::well_kinded(ty, ks),
        is_settled(db, s),
    ensures
        match context::as_possible(db, s.vars.len(), s, stack, ty) {
            Ok((after, t)) => {
                &&& after == s
                &&& no_known(s.vars, t)
                &&& kinds::well_kinded(t, ks)
            },
            Err(e) => e == InferError::UnificationDepth,
        },
    decreases resolve::unvisited(s.vars.len(), stack).len(), ty, 1nat,
{
    lemma_replace_known(db, ks, s, stack, ty);
}

pub proof fn lemma_replace_known<D: HirDatabase>(
    db: &D,
    ks: Seq<Kind>,
    s: Model,
    stack: Seq<TypeVarId>,
    ty: TyModel,
)
    requires
        kinds::consistent(s.vars, ks),
        kinds::well_kinded(ty, ks),
        is_settled(db, s),
    ensures
        match context::replace_known(db, s.vars.len(), s, stack, ty) {
            Ok((after, t)) => {
                &&& after == s
                &&& no_known(s.vars, t)
                &&& kinds::well_kinded(t, ks)
            },
            Err(e) => e == InferError::UnificationDepth,
        },
    decreases resolve::unvisited(s.vars.len(), stack).len(), ty, 0nat,
{
    match ty {
        TyModel::Apply { params, .. } => {
            lemma_replace_known_all(db, ks, s, stack, params);
        },
        TyModel::Infer(tv) => {
            let v = ty::inner_var(tv);
            if !stack.contains(v) {
                if let Some(known) = s.vars[v.0 as int].value {
                    resolve::lemma_unvisited_shrinks(s.vars.len(), stack, v);
                    lemma_as_possible(db, ks, s, stack.push(v), known);
                }
            }
        },
        _ => {},
    }
}

proof fn lemma_replace_known_all<D: HirDatabase>(
    db: &D,
    ks: Seq<Kind>,
    s: Model,
    stack: Seq<TypeVarId>,
    tys: Seq<TyModel>,
)
    requires
        kinds::consistent(s.vars, ks),
        kinds::all_well_kinded(tys, ks),
        is_settled(db, s),
    ensures
        match context::replace_known_all(db, s.vars.len(), s, stack, tys) {
            Ok((after, ts)) => {
                &&& after == s
                &&& all_no_known(s.vars, ts)
                &&& kinds::all_well_kinded(ts, ks)
            },
            Err(e) => e == InferError::UnificationDepth,
        },
    decreases resolve::unvisited(s.vars.len(), stack).len(), tys, 0nat,
{
    if tys.len() > 0 {
        lemma_replace_known(db, ks, s, stack, tys[0]);
        lemma_replace_known_all(db, ks, s, stack, tys.skip(1));
        if let (Ok((_, t)), Ok((_, ts))) = (
            context::replace_known(db, s.vars.len(), s, stack, tys[0]),
            context::replace_known_all(db, s.vars.len(), s, stack, tys.skip(1)),
        ) {
            let all = seq![t] + ts;
            assert forall|i: int| 0 <= i < all.len() implies no_known(s.vars, #[trigger] all[i])
                && kinds::well_kinded(all[i], ks) by {
                if i > 0 {
                    assert(all[i] == ts[i - 1]);
                }
            }
        }
    }
}

/// Where no obligation is open, to resolve a type changes nothing of what is known, and
/// leaves no variable with a known type in it.
pub proof fn lemma_resolved_without_goals<D: HirDatabase>(db: &D, s: Model, ty: TyModel)
    requires
        s.obligations.len() == 0,
    ensures
        context::resolved(db, s, ty) matches Ok((after, t)) ==> after == s && no_known(s.vars, t),
        is_settled(db, s),
{
    lemma_settled_without_goals(db, s);
    lemma_replaced_without_goals(db, s, Seq::empty(), ty);
}

proof fn lemma_settled_without_goals<D: HirDatabase>(db: &D, s: Model)
    requires
        s.obligations.len() == 0,
    ensures
        context::settle(db, s) == Ok::<Model, InferError>(s),
{
    assert(s.obligations =~= Seq::empty());
}

proof fn lemma_replaced_without_goals<D: HirDatabase>(
    db: &D,
    s: Model,
    stack: Seq<TypeVarId>,
    ty: TyModel,
)
    requires
        s.obligations.len() == 0,
    ensures
        context::replace_known(db, s.vars.len(), s, stack, ty) matches Ok((after, t)) ==> after == s
            && no_known(s.vars, t),
    decreases resolve::unvisited(s.vars.len(), stack).len(), ty,
{
    match ty {
        TyModel::Apply { params, .. } => {
            lemma_all_replaced_without_goals(db, s, stack, params);
        },
        TyModel::Infer(tv) => {
            let v = ty::inner_var(tv);
            if !stack.contains(v) && v.0 < s.vars.len() {
                if let Some(known) = s.vars[v.0 as int].value {
                    resolve::lemma_unvisited_shrinks(s.vars.len(), stack, v);
                    lemma_settled_without_goals(db, s);
                    lemma_replaced_without_goals(db, s, stack.push(v), known);
                }
            }
        },
        _ => {},
    }
}

proof fn lemma_all_replaced_without_goals<D: HirDatabase>(
    db: &D,
    s: Model,
    stack: Seq<TypeVarId>,
    tys: Seq<TyModel>,
)
    requires
        s.obligations.len() == 0,
    ensures
        context::replace_known_all(db, s.vars.len(), s, stack, tys) matches Ok((after, ts))
            ==> after == s && all_no_known(s.vars, ts),
    decreases resolve::unvisited(s.vars.len(), stack).len(), tys,
{
    if tys.len() > 0 {
        lemma_replaced_without_goals(db, s, stack, tys[0]);
        lemma_all_replaced_without_goals(db, s, stack, tys.skip(1));
        if let (Ok((_, t)), Ok((_, ts))) = (
            context::replace_known(db, s.vars.len(), s, stack, tys[0]),
            context::replace_known_all(db, s.vars.len(), s, stack, tys.skip(1)),
        ) {
            let all = seq![t] + ts;
            assert forall|i: int| 0 <= i < all.len() implies no_known(
                s.vars,
                #[trigger] all[i],
            ) by {
                if i > 0 {
                    assert(all[i] == ts[i - 1]);
                }
            }
        }
    }
}

/// Whether the variables on the stack can need more look-ups than the type.
spec fn above(ks: Seq<Kind>, stack: Seq<TypeVarId>, ty: TyModel) -> bool {
    forall|k: int|
        0 <= k < stack.len() ==> (#[trigger] stack[k]).0 < ks.len() && kinds::rank(ty) < rank_of(
            ks[stack[k].0 as int],
        )
}

/// In a settled state, something that is known does not become unknown when it is
/// resolved.
proof fn lemma_replaced_not_unknown<D: HirDatabase>(
    db: &D,
    ks: Seq<Kind>,
    s: Model,
    stack: Seq<TypeVarId>,
    ty: TyModel,
)
    requires
        kinds::consistent(s.vars, ks),
        kinds::well_kinded(ty, ks),
        is_settled(db, s),
        ty != TyModel::Unknown,
        above(ks, stack, ty),
    ensures
        context::replace_known(db, s.vars.len(), s, stack, ty) matches Ok((_, t)) ==> t
            != TyModel::Unknown,
    decreases resolve::unvisited(s.vars.len(), stack).len(),
{
    if let TyModel::Infer(tv) = ty {
        let v = ty::inner_var(tv);
        if stack.contains(v) {
            let k = choose|k: int| 0 <= k < stack.len() && stack[k] == v;
            assert(stack[k].0 == v.0);
        } else if let Some(known) = s.vars[v.0 as int].value {
            resolve::lemma_unvisited_shrinks(s.vars.len(), stack, v);
            let deeper = stack.push(v);
            assert forall|k: int| 0 <= k < deeper.len() implies (#[trigger] deeper[k]).0 < ks.len()
                && kinds::rank(known) < rank_of(ks[deeper[k].0 as int]) by {
                if k < stack.len() {
                    assert(deeper[k] == stack[k]);
                }
            }
            lemma_replaced_not_unknown(db, ks, s, deeper, known);
        }
    }
}

/// What resolving a type as far as possible gives: a type without variables whose
/// types are known.
pub proof fn lemma_resolved<D: HirDatabase>(db: &D, ks: Seq<Kind>, s: Model, ty: TyModel)
    requires
        kinds::consistent(s.vars, ks),
        kinds::well_kinded(ty, ks),
        answers_fit(db, s.obligations, ks),
    ensures
        match context::resolved(db, s, ty) {
            Ok((after, t)) => {
                &&& kinds::consistent(after.vars, ks)
                &&& kinds::more_known(s.vars, after.vars)
                &&& after == (Model {
                    vars: after.vars,
                    obligations: open_goals(db, s.obligations),
                    ..s
                })
                &&& is_settled(db, after)
                &&& no_known(after.vars, t)
                &&& kinds::well_kinded(t, ks)
                &&& ty != TyModel::Unknown ==> t != TyModel::Unknown
            },
            Err(e) => e == InferError::UnificationDepth,
        },
{
    lemma_settle(db, s, ks);
    if let Ok(after) = context::settle(db, s) {
        lemma_replace_known(db, ks, after, Seq::empty(), ty);
        if ty != TyModel::Unknown {
            lemma_replaced_not_unknown(db, ks, after, Seq::empty(), ty);
        }
    }
}

} // verus!
