//! What every step of inference keeps, if the database answers in the terms of the question.

use vstd::prelude::*;

use crate::body::{BinaryOp, Expr, Path, PathSegment};
use crate::context::{Env, Model, Run};
use crate::db::{GenericParams, HirDatabase, TraitRefModel};
use crate::defs::{
    Enum, ExprId, Function, Namespace, PatId, PathResolution, Resolver, Struct, StructField,
    Trait, TypableDef, TypeRef,
};
use crate::error::InferError;
use crate::kinds::Kind;
use crate::ty::TyModel;
use crate::{context, fresh, kinds, settled, ty};

verus! {

/// Whether a database answers in the terms of the question: what is written in source
/// has no variables in it, and an answer to a question on a type or a goal speaks only
/// of variables of that type or goal.
pub open spec fn faithful<D: HirDatabase>(db: &D) -> bool {
    &&& forall|r: Resolver, t: TypeRef| settled::variable_free(#[trigger] db.lowered(r, t))
    &&& forall|d: TypableDef, ns: Namespace|
        settled::variable_free(#[trigger] db.type_of_def(d, ns))
    &&& forall|r: Resolver, seg: PathSegment, d: TypableDef|
        settled::all_variable_free(#[trigger] db.segment_substs(r, seg, d))
    &&& forall|r: Resolver, p: Path, d: TypableDef|
        settled::all_variable_free(#[trigger] db.path_substs(r, p, d))
    &&& forall|st: Struct| settled::variable_free(#[trigger] db.struct_type(st))
    &&& forall|en: Enum| settled::variable_free(#[trigger] db.enum_type(en))
    &&& forall|f: StructField| settled::variable_free(#[trigger] db.field_type(f))
    &&& forall|t: TyModel, name: Seq<char>, r: Resolver, ks: Seq<Kind>|
        #![trigger db.method_named(t, name, r), kinds::well_kinded(t, ks)]
        kinds::well_kinded(t, ks) ==> (db.method_named(t, name, r) matches Some((found, _))
            ==> kinds::well_kinded(found, ks))
    &&& forall|t: TyModel, ks: Seq<Kind>|
        #![trigger db.signature_of_callable(t), kinds::well_kinded(t, ks)]
        kinds::well_kinded(t, ks) ==> (db.signature_of_callable(t) matches Some(sig)
            ==> kinds::all_well_kinded(sig.params, ks) && kinds::well_kinded(sig.ret, ks))
    &&& forall|t: TyModel, ks: Seq<Kind>|
        #![trigger db.derefs(t), kinds::well_kinded(t, ks)]
        kinds::well_kinded(t, ks) ==> kinds::all_well_kinded(db.derefs(t), ks)
    &&& forall|op: BinaryOp, t: TyModel, ks: Seq<Kind>|
        #![trigger db.rhs_expectation(op, t), kinds::well_kinded(t, ks)]
        kinds::well_kinded(t, ks) ==> kinds::well_kinded(db.rhs_expectation(op, t), ks)
    &&& forall|op: BinaryOp, t: TyModel, ks: Seq<Kind>|
        #![trigger db.op_result(op, t), kinds::well_kinded(t, ks)]
        kinds::well_kinded(t, ks) ==> kinds::well_kinded(db.op_result(op, t), ks)
    &&& forall|goal: TraitRefModel, ks: Seq<Kind>|
        #![trigger db.answer(goal), kinds::all_well_kinded(goal.substs, ks)]
        kinds::all_well_kinded(goal.substs, ks) ==> settled::answer_fits(db.answer(goal), ks)
}

pub open spec fn types_well_kinded(types: Map<u32, TyModel>, ks: Seq<Kind>) -> bool {
    forall|id: u32| #[trigger] types.contains_key(id) ==> kinds::well_kinded(types[id], ks)
}

pub open spec fn goals_well_kinded(goals: Seq<TraitRefModel>, ks: Seq<Kind>) -> bool {
    forall|i: int| 0 <= i < goals.len() ==> kinds::all_well_kinded((#[trigger] goals[i]).substs, ks)
}

/// Whether all that is known and recorded goes with the kinds of the variables.
#[verifier::opaque]
pub open spec fn sound(s: Model, ks: Seq<Kind>) -> bool {
    &&& kinds::consistent(s.vars, ks)
    &&& types_well_kinded(s.type_of_expr, ks)
    &&& types_well_kinded(s.type_of_pat, ks)
    &&& kinds::well_kinded(s.return_ty, ks)
    &&& goals_well_kinded(s.obligations, ks)
}

/// Whether a step keeps what is known sound and loses nothing of what is known of the
/// variables.
pub open spec fn keeps(s: Model, ks: Seq<Kind>, after: Model, longer: Seq<Kind>) -> bool {
    &&& sound(after, longer)
    &&& kinds::extends(ks, longer)
    &&& kinds::more_known(s.vars, after.vars)
}

/// Whether a step on types may give up for this reason even if its input is in order: because
/// there are too many variables, types within types or parameters, never because of the state
/// of a variable.
pub open spec fn is_expected(e: InferError) -> bool {
    e == InferError::UnificationDepth || e == InferError::TooManyVariables || e
        == InferError::NotSingleParameter
}

/// Whether a path is left unresolved at an index that does not fit it.
pub open spec fn misfits(path: Path, found: PathResolution) -> bool {
    found.remaining_index matches Some(i) && (i == 0 || i > path.segments@.len())
}

/// Whether a definition has too many parameters to be counted.
pub open spec fn has_too_many(generics: GenericParams) -> bool {
    generics.total() > usize::MAX || generics.parent_total() > usize::MAX
}

/// Whether inference may give up for this reason in a body: as a step on types may, because
/// a closure in it has not as many types as parameters, because a path is left unresolved
/// where it has no segment, or because a definition has too many parameters.
pub open spec fn has_cause<D: HirDatabase>(env: Env<D>, e: InferError) -> bool {
    match e {
        InferError::ClosureArity => exists|i: int|
            0 <= i < env.body.expr_seq().len() && (#[trigger] env.body.expr_seq()[i] matches
                Expr::Lambda { args, arg_types, .. } && args@.len() != arg_types@.len()),
        InferError::PathIndex => exists|resolver: Resolver, path: Path|
            misfits(path, #[trigger] env.db.path_resolution(resolver, path)),
        InferError::TooManyParameters => {
            ||| exists|func: Function| has_too_many(#[trigger] env.db.fn_generics_of(func))
            ||| exists|trait_: Trait| has_too_many(#[trigger] env.db.trait_generics_of(trait_))
        },
        _ => is_expected(e),
    }
}

/// Whether a step in a body keeps what it should.
pub open spec fn keeps_ty_in<D: HirDatabase>(
    env: Env<D>,
    s: Model,
    ks: Seq<Kind>,
    r: Run<TyModel>,
    longer: Seq<Kind>,
) -> bool {
    match r {
        Ok(_) => keeps_ty(s, ks, r, longer),
        Err(e) => has_cause(env, e),
    }
}

pub open spec fn keeps_tys_in<D: HirDatabase>(
    env: Env<D>,
    s: Model,
    ks: Seq<Kind>,
    r: Run<Seq<TyModel>>,
    longer: Seq<Kind>,
) -> bool {
    match r {
        Ok(_) => keeps_tys(s, ks, r, longer),
        Err(e) => has_cause(env, e),
    }
}

pub open spec fn keeps_all_in<D: HirDatabase>(
    env: Env<D>,
    s: Model,
    ks: Seq<Kind>,
    r: Result<Model, InferError>,
    longer: Seq<Kind>,
) -> bool {
    match r {
        Ok(_) => keeps_all(s, ks, r, longer),
        Err(e) => has_cause(env, e),
    }
}

/// The same of a step that gives a type.
pub open spec fn keeps_ty(
    s: Model,
    ks: Seq<Kind>,
    r: Run<TyModel>,
    longer: Seq<Kind>,
) -> bool {
    match r {
        Ok((after, t)) => keeps(s, ks, after, longer) && kinds::well_kinded(t, longer),
        Err(e) => is_expected(e),
    }
}

/// The same of a step that gives types.
pub open spec fn keeps_tys(
    s: Model,
    ks: Seq<Kind>,
    r: Run<Seq<TyModel>>,
    longer: Seq<Kind>,
) -> bool {
    match r {
        Ok((after, ts)) => keeps(s, ks, after, longer) && kinds::all_well_kinded(ts, longer),
        Err(e) => is_expected(e),
    }
}

/// The same of a step that gives nothing.
pub open spec fn keeps_all(
    s: Model,
    ks: Seq<Kind>,
    r: Result<Model, InferError>,
    longer: Seq<Kind>,
) -> bool {
    match r {
        Ok(after) => keeps(s, ks, after, longer),
        Err(e) => is_expected(e),
    }
}

pub proof fn lemma_keeps_same(s: Model, ks: Seq<Kind>)
    requires
        sound(s, ks),
    ensures
        keeps(s, ks, s, ks),
{
}

pub proof fn lemma_keeps_trans(
    s: Model,
    ks: Seq<Kind>,
    s2: Model,
    k2: Seq<Kind>,
    s3: Model,
    k3: Seq<Kind>,
)
    requires
        keeps(s, ks, s2, k2),
        keeps(s2, k2, s3, k3),
    ensures
        keeps(s, ks, s3, k3),
{
    kinds::lemma_more_known_trans(s.vars, s2.vars, s3.vars);
    assert forall|i: int| 0 <= i < ks.len() implies #[trigger] k3[i] == ks[i] by {
        assert(k2[i] == ks[i]);
    }
}

/// A step on the variables alone.
proof fn lemma_vars_step(
    s: Model,
    ks: Seq<Kind>,
    after: Model,
    longer: Seq<Kind>,
)
    requires
        sound(s, ks),
        kinds::extends(ks, longer),
        kinds::consistent(after.vars, longer),
        kinds::more_known(s.vars, after.vars),
        goals_well_kinded(after.obligations, longer),
        after == (Model { vars: after.vars, obligations: after.obligations, ..s }),
    ensures
        keeps(s, ks, after, longer),
{
    reveal(sound);
    assert forall|id: u32| #[trigger] after.type_of_expr.contains_key(id) implies kinds::well_kinded(
        after.type_of_expr[id],
        longer,
    ) by {
        assert(s.type_of_expr.contains_key(id));
        kinds::lemma_well_kinded_extends(s.type_of_expr[id], ks, longer);
    }
    assert forall|id: u32| #[trigger] after.type_of_pat.contains_key(id) implies kinds::well_kinded(
        after.type_of_pat[id],
        longer,
    ) by {
        assert(s.type_of_pat.contains_key(id));
        kinds::lemma_well_kinded_extends(s.type_of_pat[id], ks, longer);
    }
    kinds::lemma_well_kinded_extends(s.return_ty, ks, longer);
}

proof fn lemma_goals_extend(goals: Seq<TraitRefModel>, ks: Seq<Kind>, longer: Seq<Kind>)
    requires
        goals_well_kinded(goals, ks),
        kinds::extends(ks, longer),
    ensures
        goals_well_kinded(goals, longer),
{
    assert forall|i: int| 0 <= i < goals.len() implies kinds::all_well_kinded(
        (#[trigger] goals[i]).substs,
        longer,
    ) by {
        kinds::lemma_all_well_kinded_extends(goals[i].substs, ks, longer);
    }
}

/// What is left open of sound goals is sound.
proof fn lemma_open_goals_well_kinded<D: HirDatabase>(
    db: &D,
    goals: Seq<TraitRefModel>,
    ks: Seq<Kind>,
)
    requires
        goals_well_kinded(goals, ks),
    ensures
        goals_well_kinded(settled::open_goals(db, goals), ks),
    decreases goals.len(),
{
    if goals.len() > 0 {
        let rest = goals.skip(1);
        assert forall|i: int| 0 <= i < rest.len() implies kinds::all_well_kinded(
            (#[trigger] rest[i]).substs,
            ks,
        ) by {
            assert(rest[i] == goals[i + 1]);
        }
        lemma_open_goals_well_kinded(db, rest, ks);
        let kept = settled::open_goals(db, rest);
        let all = seq![goals[0]] + kept;
        assert forall|i: int| 0 <= i < all.len() implies kinds::all_well_kinded(
            (#[trigger] all[i]).substs,
            ks,
        ) by {
            if i > 0 {
                assert(all[i] == kept[i - 1]);
            } else {
                assert(all[i] == goals[0]);
            }
        }
    }
}

/// To unify two types keeps what is known sound.
pub proof fn lemma_unify_in(s: Model, ks: Seq<Kind>, a: TyModel, b: TyModel)
    requires
        sound(s, ks),
        kinds::well_kinded(a, ks),
        kinds::well_kinded(b, ks),
    ensures
        match context::unify_in(s, a, b) {
            Ok((after, _)) => keeps(s, ks, after, ks),
            Err(e) => is_expected(e),
        },
{
    assert(kinds::consistent(s.vars, ks) && goals_well_kinded(s.obligations, ks)) by {
        reveal(sound);
    }
    kinds::lemma_unify_keeps(s.vars, ks, a, b, 0);
    if let Ok((after, _)) = context::unify_in(s, a, b) {
        lemma_vars_step(s, ks, after, ks);
    }
}

pub proof fn lemma_insert_in(s: Model, ks: Seq<Kind>, t: TyModel) -> (longer: Seq<Kind>)
    requires
        sound(s, ks),
        kinds::well_kinded(t, ks),
    ensures
        keeps_ty(s, ks, context::insert_in(s, t), longer),
{
    assert(kinds::consistent(s.vars, ks) && goals_well_kinded(s.obligations, ks)) by {
        reveal(sound);
    }
    let longer = settled::lemma_insert(s.vars, ks, t);
    if let Ok((after, _)) = context::insert_in(s, t) {
        lemma_goals_extend(s.obligations, ks, longer);
        lemma_vars_step(s, ks, after, longer);
    }
    longer
}

/// In a type without variables that variables are put into, no variable has a known type.
pub proof fn lemma_insert_free_in(s: Model, ks: Seq<Kind>, t: TyModel)
    requires
        sound(s, ks),
        settled::variable_free(t),
    ensures
        context::insert_in(s, t) matches Ok((after, full)) ==> settled::no_known(after.vars, full),
{
    reveal(sound);
    settled::lemma_insert_no_known(s.vars, ks, t);
}

pub proof fn lemma_insert_shallow_in(
    s: Model,
    ks: Seq<Kind>,
    t: TyModel,
) -> (longer: Seq<Kind>)
    requires
        sound(s, ks),
        kinds::well_kinded(t, ks),
    ensures
        keeps_ty(s, ks, context::insert_shallow_in(s, t), longer),
{
    assert(kinds::consistent(s.vars, ks) && goals_well_kinded(s.obligations, ks)) by {
        reveal(sound);
    }
    let longer = settled::lemma_insert_shallow(s.vars, ks, t);
    if let Ok((after, _)) = context::insert_shallow_in(s, t) {
        lemma_goals_extend(s.obligations, ks, longer);
        lemma_vars_step(s, ks, after, longer);
    }
    longer
}

pub proof fn lemma_new_type_var_in(s: Model, ks: Seq<Kind>) -> (longer: Seq<Kind>)
    requires
        sound(s, ks),
    ensures
        keeps_ty(s, ks, context::on_vars(s, fresh::new_type_var(s.vars)), longer),
{
    assert(kinds::consistent(s.vars, ks) && goals_well_kinded(s.obligations, ks)) by {
        reveal(sound);
    }
    let longer = settled::lemma_new_type_var(s.vars, ks);
    if let Ok((after, _)) = context::on_vars(s, fresh::new_type_var(s.vars)) {
        lemma_goals_extend(s.obligations, ks, longer);
        lemma_vars_step(s, ks, after, longer);
    }
    longer
}

pub proof fn lemma_make_ty<D: HirDatabase>(
    env: Env<D>,
    s: Model,
    ks: Seq<Kind>,
    type_ref: TypeRef,
) -> (longer: Seq<Kind>)
    requires
        faithful(env.db),
        sound(s, ks),
    ensures
        keeps_ty(s, ks, context::make_ty(env.db, env.resolver(), s, type_ref), longer),
{
    let t = env.db.lowered(env.resolver(), type_ref);
    settled::lemma_free_well_kinded(t, ks);
    lemma_insert_in(s, ks, t)
}

/// In a sound state the variables are consistent, and the answers to the open goals fit.
pub proof fn lemma_sound_parts<D: HirDatabase>(db: &D, s: Model, ks: Seq<Kind>)
    requires
        faithful(db),
        sound(s, ks),
    ensures
        kinds::consistent(s.vars, ks),
        goals_well_kinded(s.obligations, ks),
        settled::answers_fit(db, s.obligations, ks),
{
    reveal(sound);
    assert forall|i: int| 0 <= i < s.obligations.len() implies settled::answer_fits(
        db.answer(#[trigger] s.obligations[i]),
        ks,
    ) by {
        assert(kinds::all_well_kinded(s.obligations[i].substs, ks));
    }
}

/// To resolve a type keeps what is known sound, and leaves no variable with a known
/// type in it; a type does not become unknown by that.
pub proof fn lemma_resolved_in<D: HirDatabase>(
    db: &D,
    s: Model,
    ks: Seq<Kind>,
    t: TyModel,
)
    requires
        faithful(db),
        sound(s, ks),
        kinds::well_kinded(t, ks),
    ensures
        keeps_ty(s, ks, context::resolved(db, s, t), ks),
        context::resolved(db, s, t) matches Ok((after, u)) ==> {
            &&& settled::no_known(after.vars, u)
            &&& settled::is_settled(db, after)
            &&& t != TyModel::Unknown ==> u != TyModel::Unknown
        },
{
    lemma_sound_parts(db, s, ks);
    settled::lemma_resolved(db, ks, s, t);
    if let Ok((after, _)) = context::resolved(db, s, t) {
        lemma_open_goals_well_kinded(db, s.obligations, ks);
        lemma_vars_step(s, ks, after, ks);
    }
}

pub proof fn lemma_write_expr_ty(s: Model, ks: Seq<Kind>, e: ExprId, t: TyModel)
    requires
        sound(s, ks),
        kinds::well_kinded(t, ks),
    ensures
        keeps(s, ks, Model { type_of_expr: s.type_of_expr.insert(e.0, t), ..s }, ks),
{
    reveal(sound);
}

pub proof fn lemma_write_pat_ty(s: Model, ks: Seq<Kind>, p: PatId, t: TyModel)
    requires
        sound(s, ks),
        kinds::well_kinded(t, ks),
    ensures
        keeps(s, ks, Model { type_of_pat: s.type_of_pat.insert(p.0, t), ..s }, ks),
{
    reveal(sound);
}

/// A step that changes nothing but what nodes resolve to and what the user is told.
pub proof fn lemma_same_types(s: Model, ks: Seq<Kind>, after: Model)
    requires
        sound(s, ks),
        after == (Model {
            method_resolutions: after.method_resolutions,
            field_resolutions: after.field_resolutions,
            assoc_resolutions: after.assoc_resolutions,
            diagnostics: after.diagnostics,
            ..s
        }),
    ensures
        keeps(s, ks, after, ks),
{
    reveal(sound);
}

pub proof fn lemma_push_goal(s: Model, ks: Seq<Kind>, goal: TraitRefModel)
    requires
        sound(s, ks),
        kinds::all_well_kinded(goal.substs, ks),
    ensures
        keeps(s, ks, Model { obligations: s.obligations.push(goal), ..s }, ks),
{
    reveal(sound);
    let all = s.obligations.push(goal);
    assert forall|i: int| 0 <= i < all.len() implies kinds::all_well_kinded(
        (#[trigger] all[i]).substs,
        ks,
    ) by {
        if i < s.obligations.len() {
            assert(all[i] == s.obligations[i]);
        }
    }
}

pub proof fn lemma_recorded_pat(s: Model, ks: Seq<Kind>, p: PatId)
    requires
        sound(s, ks),
        s.type_of_pat.contains_key(p.0),
    ensures
        kinds::well_kinded(s.type_of_pat[p.0], ks),
{
    reveal(sound);
}

pub proof fn lemma_return_ty(s: Model, ks: Seq<Kind>)
    requires
        sound(s, ks),
    ensures
        kinds::well_kinded(s.return_ty, ks),
{
    reveal(sound);
}

pub proof fn lemma_set_return_ty(s: Model, ks: Seq<Kind>, t: TyModel)
    requires
        sound(s, ks),
        kinds::well_kinded(t, ks),
    ensures
        sound(Model { return_ty: t, ..s }, ks),
{
    reveal(sound);
}

pub proof fn lemma_nothing_known()
    ensures
        sound(context::nothing_known(), Seq::empty()),
{
    reveal(sound);
}

/// To replace type parameters brings no other variables in.
pub proof fn lemma_subst_well_kinded(t: TyModel, substs: Seq<TyModel>, ks: Seq<Kind>)
    requires
        kinds::well_kinded(t, ks),
        kinds::all_well_kinded(substs, ks),
    ensures
        kinds::well_kinded(ty::subst(t, substs), ks),
    decreases t,
{
    if let TyModel::Apply { params, .. } = t {
        let new = ty::subst(t, substs)->params;
        assert forall|i: int| 0 <= i < new.len() implies kinds::well_kinded(#[trigger] new[i], ks) by {
            assert(kinds::well_kinded(params[i], ks));
            lemma_subst_well_kinded(params[i], substs, ks);
        }
    }
}

pub proof fn lemma_all_free_well_kinded(tys: Seq<TyModel>, ks: Seq<Kind>)
    requires
        settled::all_variable_free(tys),
    ensures
        kinds::all_well_kinded(tys, ks),
{
    assert forall|i: int| 0 <= i < tys.len() implies kinds::well_kinded(#[trigger] tys[i], ks) by {
        settled::lemma_free_well_kinded(tys[i], ks);
    }
}

} // verus!
