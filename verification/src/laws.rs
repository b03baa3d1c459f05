//! What holds of inference as a whole.

use vstd::prelude::*;

use crate::agreement::Arity;
use crate::body::{Body, Expr, GenericArgs, Pat, Path, Statement};
use crate::context::{Env, Model};
use crate::db::HirDatabase;
use crate::defs::{DefWithBody, ExprId, ExprOrPatId, PatId, Resolution, Resolver, TypeRef};
use crate::error::InferError;
use crate::kinds::Kind;
use crate::pat::BindingMode;
use crate::result::ResultModel;
use crate::solution::Assignment;
use crate::table::VarModel;
use crate::ty::{TyModel, TypeCtor, TypeVarId};
use crate::unify::UnifyStep;
use crate::{
    agreement, body, context, expr, expr_records, expr_upkeep, fresh, infer, kinds, pat,
    pat_records, pat_upkeep, path, records, resolve, result, settled, solution, table, ty, typing,
    unify, upkeep,
};

verus! {

/// Two types that have been unified agree: whatever types the variables turn out to
/// stand for, the two types are equal up to what is unknown in them.
pub proof fn unified_types_agree(
    vars: Seq<VarModel>,
    a: TyModel,
    b: TyModel,
    after: Seq<VarModel>,
    f: Assignment,
)
    requires
        solution::partitioned(vars),
        unify::unify(vars, a, b) == Ok::<(Seq<VarModel>, bool), InferError>((after, true)),
        solution::solves(f, after),
    ensures
        solution::agree(solution::apply(f, a), solution::apply(f, b)),
{
    solution::lemma_unify(f, vars, a, b);
}

/// Unification only adds to what is known: what solves the variables after it solved
/// them before.
pub proof fn unification_forgets_nothing(
    vars: Seq<VarModel>,
    a: TyModel,
    b: TyModel,
    after: Seq<VarModel>,
    ok: bool,
    f: Assignment,
)
    requires
        solution::partitioned(vars),
        unify::unify(vars, a, b) == Ok::<(Seq<VarModel>, bool), InferError>((after, ok)),
        solution::solves(f, after),
    ensures
        solution::solves(f, vars),
{
    solution::lemma_unify(f, vars, a, b);
}

/// Unification learns nothing that is not needed: what solved the variables before and
/// makes the two types equal still solves them.
pub proof fn unification_is_most_general(
    vars: Seq<VarModel>,
    a: TyModel,
    b: TyModel,
    after: Seq<VarModel>,
    ok: bool,
    f: Assignment,
)
    requires
        solution::partitioned(vars),
        unify::unify(vars, a, b) == Ok::<(Seq<VarModel>, bool), InferError>((after, ok)),
        solution::solves(f, vars),
        solution::apply(f, a) == solution::apply(f, b),
    ensures
        solution::solves(f, after),
{
    solution::lemma_unify(f, vars, a, b);
}

/// Unification succeeds where the two types can be made equal by types for their variables
/// in which no type parameter occurs.
pub proof fn unification_finds_a_solution(
    vars: Seq<VarModel>,
    a: TyModel,
    b: TyModel,
    after: Seq<VarModel>,
    ok: bool,
    f: Assignment,
)
    requires
        solution::partitioned(vars),
        unify::unify(vars, a, b) == Ok::<(Seq<VarModel>, bool), InferError>((after, ok)),
        solution::solves(f, vars),
        solution::apply(f, a) == solution::apply(f, b),
        solution::images_param_free(f, a),
        solution::images_param_free(f, b),
    ensures
        ok,
{
    solution::lemma_unify(f, vars, a, b);
}

/// A type unifies with itself, and nothing is learned from that.
pub proof fn type_unifies_with_itself(vars: Seq<VarModel>, t: TyModel)
    ensures
        unify::unify(vars, t, t) == Ok::<(Seq<VarModel>, bool), InferError>((vars, true)),
{
}

/// It does not matter which of two types is named first.
pub proof fn unification_is_symmetric(vars: Seq<VarModel>, a: TyModel, b: TyModel)
    requires
        solution::partitioned(vars),
    ensures
        unify::unify(vars, a, b) == unify::unify(vars, b, a),
{
    lemma_symmetric(vars, a, b, 0);
}

proof fn lemma_union_symmetric(vars: Seq<VarModel>, v: TypeVarId, w: TypeVarId)
    requires
        solution::partitioned(vars),
    ensures
        table::union(vars, v, w) == table::union(vars, w, v),
{
    if table::has_var(vars, v) && table::has_var(vars, w) {
        let (i, j) = (v.0 as int, w.0 as int);
        assert(vars[i].class.contains(i) && vars[j].class.contains(j));
        assert(vars[i].class.contains(j) ==> vars[j] == vars[i]);
        assert(vars[j].class.contains(i) ==> vars[i] == vars[j]);
        let (x, y) = (vars[i].class, vars[j].class);
        assert(x.union(y) =~= y.union(x));
    }
}

proof fn lemma_symmetric(vars: Seq<VarModel>, a: TyModel, b: TyModel, depth: nat)
    requires
        solution::partitioned(vars),
    ensures
        unify::unify_at(vars, a, b, depth) == unify::unify_at(vars, b, a, depth),
    decreases unify::UNIFICATION_LIMIT + 1 - depth, 0nat,
{
    if depth <= unify::UNIFICATION_LIMIT && a != b {
        let steps = unify::SHALLOW_STEPS as nat;
        lemma_shallow_error(vars, a, steps);
        lemma_shallow_error(vars, b, steps);
        if let (Ok(x), Ok(y)) = (unify::shallow(vars, a, steps), unify::shallow(vars, b, steps)) {
            match unify::unify_step(x, y) {
                UnifyStep::Params(xs, ys) => {
                    lemma_symmetric_all(vars, xs, ys, depth + 1);
                },
                UnifyStep::Join(v, w) => {
                    lemma_union_symmetric(vars, v, w);
                },
                _ => {},
            }
        }
    }
}

proof fn lemma_shallow_error(vars: Seq<VarModel>, t: TyModel, steps: nat)
    ensures
        unify::shallow(vars, t, steps) matches Err(e) ==> e == InferError::NoSuchVariable,
    decreases steps,
{
    if let TyModel::Infer(tv) = t {
        if steps > 0 {
            if let Ok(Some(known)) = table::probe(vars, ty::inner_var(tv)) {
                lemma_shallow_error(vars, known, (steps - 1) as nat);
            }
        }
    }
}

proof fn lemma_symmetric_all(vars: Seq<VarModel>, xs: Seq<TyModel>, ys: Seq<TyModel>, depth: nat)
    requires
        solution::partitioned(vars),
    ensures
        unify::unify_all_at(vars, xs, ys, depth) == unify::unify_all_at(vars, ys, xs, depth),
    decreases unify::UNIFICATION_LIMIT + 1 - depth, xs.len() + 1,
{
    if xs.len() > 0 && ys.len() > 0 {
        lemma_symmetric(vars, xs[0], ys[0], depth);
        if let Ok((mid, true)) = unify::unify_at(vars, xs[0], ys[0], depth) {
            let f = |i: int| TyModel::Unknown;
            solution::lemma_unify_at(f, vars, xs[0], ys[0], depth);
            lemma_symmetric_all(mid, xs.skip(1), ys.skip(1), depth);
        }
    }
}

/// Three look-ups are enough: what they lead to is no variable whose type is known.
pub proof fn look_up_ends(vars: Seq<VarModel>, ks: Seq<Kind>, t: TyModel)
    requires
        kinds::consistent(vars, ks),
        kinds::well_kinded(t, ks),
    ensures
        unify::shallow(vars, t, unify::SHALLOW_STEPS as nat) matches Ok(u) && kinds::looked_up(
            vars,
            u,
        ),
{
    kinds::lemma_look_up(vars, ks, t, unify::SHALLOW_STEPS as nat);
}

/// Unification never equates two variables whose types are known, nor asks for one that
/// is missing; all that was known stays known, and the variables keep to their kinds.
/// It can only go too deep.
pub proof fn unification_keeps_variables_consistent(
    vars: Seq<VarModel>,
    ks: Seq<Kind>,
    a: TyModel,
    b: TyModel,
)
    requires
        kinds::consistent(vars, ks),
        kinds::well_kinded(a, ks),
        kinds::well_kinded(b, ks),
    ensures
        match unify::unify(vars, a, b) {
            Ok((after, _)) => kinds::consistent(after, ks) && kinds::more_known(vars, after),
            Err(e) => e == InferError::UnificationDepth,
        },
{
    kinds::lemma_unify_keeps(vars, ks, a, b, 0);
}

/// There is nothing more to learn from two types that have been unified, however much
/// has become known since.
pub proof fn unification_teaches_once(
    vars: Seq<VarModel>,
    ks: Seq<Kind>,
    a: TyModel,
    b: TyModel,
    after: Seq<VarModel>,
    ok: bool,
    later: Seq<VarModel>,
)
    requires
        kinds::consistent(vars, ks),
        kinds::consistent(later, ks),
        kinds::well_kinded(a, ks),
        kinds::well_kinded(b, ks),
        unify::unify(vars, a, b) == Ok::<(Seq<VarModel>, bool), InferError>((after, ok)),
        kinds::more_known(after, later),
    ensures
        match unify::unify(later, a, b) {
            Ok((again, _)) => again == later,
            Err(e) => e == InferError::UnificationDepth,
        },
{
    kinds::lemma_unify_again(vars, later, ks, a, b, 0);
}

/// When variables are put into a type, nothing in it stays open, and nothing but the
/// open places changes; the variables there were stay as they are.
pub proof fn insertion_leaves_nothing_open(vars: Seq<VarModel>, t: TyModel)
    ensures
        fresh::insert(vars, t) matches Ok((after, full)) ==> {
            &&& settled::nothing_open(full)
            &&& settled::filled(t, full, vars.len())
            &&& vars.is_prefix_of(after)
        },
{
    settled::lemma_insert_fills(vars, t);
}

/// The variables stay consistent when variables are put into a type, and all that was
/// known stays known.
pub proof fn insertion_keeps_variables_consistent(vars: Seq<VarModel>, ks: Seq<Kind>, t: TyModel)
    requires
        kinds::consistent(vars, ks),
        kinds::well_kinded(t, ks),
    ensures
        match fresh::insert(vars, t) {
            Ok((after, full)) => kinds::more_known(vars, after) && exists|longer: Seq<Kind>|
                kinds::extends(ks, longer) && #[trigger] kinds::consistent(after, longer)
                    && kinds::well_kinded(full, longer),
            Err(e) => e == InferError::TooManyVariables,
        },
{
    let longer = settled::lemma_insert(vars, ks, t);
    if let Ok((after, full)) = fresh::insert(vars, t) {
        assert(kinds::consistent(after, longer));
    }
}

/// A type with nothing open in it stays as it is when variables are put in.
pub proof fn insertion_keeps_full_types(vars: Seq<VarModel>, t: TyModel)
    requires
        settled::nothing_open(t),
    ensures
        fresh::insert(vars, t) matches Ok((after, full)) ==> full == t && after == vars,
{
    settled::lemma_insert_fills(vars, t);
}

/// A type that is resolved completely has no variables left in it.
pub proof fn complete_resolution_leaves_no_variable(vars: Seq<VarModel>, t: TyModel, u: TyModel)
    requires
        resolve::completely(vars, Seq::empty(), t) == Ok::<TyModel, InferError>(u),
    ensures
        settled::variable_free(u),
{
    settled::lemma_completely_free(vars, Seq::empty(), t);
}

/// A type without variables is left as it is when it is resolved completely.
pub proof fn complete_resolution_keeps_variable_free_types(vars: Seq<VarModel>, t: TyModel)
    requires
        settled::variable_free(t),
    ensures
        resolve::completely(vars, Seq::empty(), t) == Ok::<TyModel, InferError>(t),
{
    settled::lemma_completely_same(vars, Seq::empty(), t);
}

/// Complete resolution is what the variables stand for: if types for them go with all
/// that is known, and a variable of which nothing is known stands for its fallback, the
/// resolved type is the type with those types in place of the variables.
pub proof fn complete_resolution_is_the_solution(
    f: Assignment,
    vars: Seq<VarModel>,
    ks: Seq<Kind>,
    t: TyModel,
)
    requires
        kinds::consistent(vars, ks),
        kinds::well_kinded(t, ks),
        solution::solves(f, vars),
        settled::falls_back(f, vars, ks),
    ensures
        resolve::completely(vars, Seq::empty(), t) == Ok::<TyModel, InferError>(
            solution::apply(f, t),
        ),
{
    settled::lemma_completely_is_solution(f, vars, ks, t);
}

/// Two types that have been unified become one type when they are resolved completely, if
/// nothing is unknown in them and in what is known of the variables, each constructor has
/// its number of parameters there, and the known types have no cycles.
pub proof fn unified_types_resolve_alike(
    arity: Arity,
    vars: Seq<VarModel>,
    ks: Seq<Kind>,
    a: TyModel,
    b: TyModel,
    after: Seq<VarModel>,
)
    requires
        kinds::consistent(vars, ks),
        kinds::well_kinded(a, ks),
        kinds::well_kinded(b, ks),
        agreement::vars_regular(arity, vars),
        agreement::regular(arity, a),
        agreement::regular(arity, b),
        unify::unify(vars, a, b) == Ok::<(Seq<VarModel>, bool), InferError>((after, true)),
        agreement::acyclic(after),
    ensures
        resolve::completely(after, Seq::empty(), a) is Ok,
        resolve::completely(after, Seq::empty(), a) == resolve::completely(after, Seq::empty(), b),
{
    agreement::lemma_resolve_alike(arity, vars, ks, a, b, after);
}

/// A type that is resolved as far as possible has no variable with a known type left in
/// it, and to look at the open obligations again teaches nothing. Where no obligation is
/// open, this holds whatever the database answers and whatever is known of the variables.
pub proof fn resolution_leaves_no_known_variable<D: HirDatabase>(
    db: &D,
    s: Model,
    ks: Seq<Kind>,
    t: TyModel,
    after: Model,
    u: TyModel,
)
    requires
        s.obligations.len() == 0 || {
            &&& upkeep::faithful(db)
            &&& upkeep::sound(s, ks)
            &&& kinds::well_kinded(t, ks)
        },
        context::resolved(db, s, t) == Ok::<(Model, TyModel), InferError>((after, u)),
    ensures
        settled::no_known(after.vars, u),
        settled::is_settled(db, after),
        s.obligations.len() == 0 ==> after == s,
{
    if s.obligations.len() == 0 {
        settled::lemma_resolved_without_goals(db, s, t);
    } else {
        upkeep::lemma_resolved_in(db, s, ks, t);
    }
}

/// The type of an expression is the one that is recorded for it. It is not unknown, and
/// has no variable with a known type in it. Nothing that was known or recorded before is
/// lost.
pub proof fn inferred_expression_is_resolved<D: HirDatabase>(
    env: Env<D>,
    s: Model,
    ks: Seq<Kind>,
    e: ExprId,
    expected: TyModel,
    after: Model,
    t: TyModel,
)
    requires
        upkeep::faithful(env.db),
        env.body.wf(),
        e.0 < env.body.expr_seq().len(),
        upkeep::sound(s, ks),
        kinds::well_kinded(expected, ks),
        expr::expr_ty(env, s, e, expected) == Ok::<(Model, TyModel), InferError>((after, t)),
    ensures
        after.type_of_expr.contains_key(e.0) && after.type_of_expr[e.0] == t,
        t != TyModel::Unknown,
        settled::no_known(after.vars, t),
        records::grown(s, after),
        kinds::more_known(s.vars, after.vars),
        exists|longer: Seq<Kind>| #[trigger] upkeep::sound(after, longer),
{
    let longer = expr_upkeep::lemma_expr_ty(env, s, ks, e, expected);
    assert(upkeep::sound(after, longer));
    inferred_expression_is_recorded(env, s, e, expected, after, t);
}

/// Whatever the database answers, the type of an expression is the one that is recorded for
/// it, nothing that was recorded before is lost, and what is recorded anew is to the point.
pub proof fn inferred_expression_is_recorded<D: HirDatabase>(
    env: Env<D>,
    s: Model,
    e: ExprId,
    expected: TyModel,
    after: Model,
    t: TyModel,
)
    requires
        env.body.wf(),
        e.0 < env.body.expr_seq().len(),
        expr::expr_ty(env, s, e, expected) == Ok::<(Model, TyModel), InferError>((after, t)),
    ensures
        after.type_of_expr.contains_key(e.0) && after.type_of_expr[e.0] == t,
        records::grown(s, after),
        records::to_the_point(*env.body, s, after),
{
    expr_records::lemma_expr_ty(env, s, e, expected);
    assert(records::seen(after, e));
}

/// A type is recorded for a pattern. The type that the pattern is given is not unknown, and
/// has no variable with a known type in it. Nothing that was known or recorded before is
/// lost.
pub proof fn inferred_pattern_is_resolved<D: HirDatabase>(
    env: Env<D>,
    s: Model,
    ks: Seq<Kind>,
    p: PatId,
    expected: TyModel,
    mode: BindingMode,
    after: Model,
    t: TyModel,
)
    requires
        upkeep::faithful(env.db),
        env.body.wf(),
        p.0 < env.body.pat_seq().len(),
        upkeep::sound(s, ks),
        kinds::well_kinded(expected, ks),
        pat::pat_ty(env, s, p, expected, mode) == Ok::<(Model, TyModel), InferError>((after, t)),
    ensures
        after.type_of_pat.contains_key(p.0),
        t != TyModel::Unknown,
        settled::no_known(after.vars, t),
        records::grown(s, after),
        kinds::more_known(s.vars, after.vars),
        exists|longer: Seq<Kind>| #[trigger] upkeep::sound(after, longer),
{
    let longer = pat_upkeep::lemma_pat_ty(env, s, ks, p, expected, mode);
    assert(upkeep::sound(after, longer));
    inferred_pattern_is_recorded(env, s, p, expected, mode, after, t);
}

/// Whatever the database answers, a type is recorded for a pattern, nothing that was
/// recorded before is lost, and what is recorded anew is to the point.
pub proof fn inferred_pattern_is_recorded<D: HirDatabase>(
    env: Env<D>,
    s: Model,
    p: PatId,
    expected: TyModel,
    mode: BindingMode,
    after: Model,
    t: TyModel,
)
    requires
        env.body.wf(),
        p.0 < env.body.pat_seq().len(),
        pat::pat_ty(env, s, p, expected, mode) == Ok::<(Model, TyModel), InferError>((after, t)),
    ensures
        after.type_of_pat.contains_key(p.0),
        records::grown(s, after),
        records::to_the_point(*env.body, s, after),
{
    pat_records::lemma_pat_ty(env, s, p, expected, mode);
    assert(records::pat_seen(after, p));
}

/// The type of a method call has no variable with a known type in it.
pub proof fn inferred_method_call_is_resolved<D: HirDatabase>(
    env: Env<D>,
    s: Model,
    ks: Seq<Kind>,
    e: ExprId,
    receiver: ExprId,
    args: Seq<ExprId>,
    name: Seq<char>,
    generic_args: Option<GenericArgs>,
    after: Model,
    t: TyModel,
)
    requires
        upkeep::faithful(env.db),
        env.body.wf(),
        e.0 < env.body.expr_seq().len(),
        receiver.0 < e.0,
        body::all_exprs_below(args, e.0 as nat),
        upkeep::sound(s, ks),
        expr::method_call_ty(env, s, e, receiver, args, name, generic_args) == Ok::<
            (Model, TyModel),
            InferError,
        >((after, t)),
    ensures
        settled::no_known(after.vars, t),
{
    let _ = expr_upkeep::lemma_method_call_ty(env, s, ks, e, receiver, args, name, generic_args);
}

/// The type of a block has no variable with a known type in it.
pub proof fn inferred_block_is_resolved<D: HirDatabase>(
    env: Env<D>,
    s: Model,
    ks: Seq<Kind>,
    e: ExprId,
    statements: Seq<Statement>,
    tail: Option<ExprId>,
    expected: TyModel,
    after: Model,
    t: TyModel,
)
    requires
        upkeep::faithful(env.db),
        env.body.wf(),
        e.0 < env.body.expr_seq().len(),
        forall|i: int|
            0 <= i < statements.len() ==> (#[trigger] statements[i]).below(
                e.0 as nat,
                env.body.pat_seq(),
            ),
        body::opt_expr_below(tail, e.0 as nat),
        upkeep::sound(s, ks),
        kinds::well_kinded(expected, ks),
        expr::block_ty(env, s, e, statements, tail, expected) == Ok::<(Model, TyModel), InferError>(
            (after, t),
        ),
    ensures
        settled::no_known(after.vars, t),
{
    let _ = expr_upkeep::lemma_block_ty(env, s, ks, e, statements, tail, expected);
}

/// The type of a path, if there is one, has no variable with a known type in it.
pub proof fn inferred_path_is_resolved<D: HirDatabase>(
    env: Env<D>,
    s: Model,
    ks: Seq<Kind>,
    resolver: Resolver,
    path: Path,
    id: ExprOrPatId,
    after: Model,
    t: TyModel,
)
    requires
        upkeep::faithful(env.db),
        upkeep::sound(s, ks),
        path::path_ty(env, s, resolver, path, id) == Ok::<(Model, Option<TyModel>), InferError>(
            (after, Some(t)),
        ),
    ensures
        settled::no_known(after.vars, t),
{
    let _ = pat_upkeep::lemma_path_ty(env, s, ks, resolver, path, id);
}

/// The type of a pattern that names a variant, as tuple struct patterns and struct patterns
/// do, has no variable with a known type in it.
pub proof fn inferred_variant_pattern_is_resolved<D: HirDatabase>(
    env: Env<D>,
    s: Model,
    ks: Seq<Kind>,
    p: PatId,
    path: Option<Path>,
    fields: Seq<(Seq<char>, PatId)>,
    expected: TyModel,
    mode: BindingMode,
    after: Model,
    t: TyModel,
)
    requires
        upkeep::faithful(env.db),
        env.body.wf(),
        p.0 < env.body.pat_seq().len(),
        pat::fields_inside(env.body.pat_seq(), p, fields),
        upkeep::sound(s, ks),
        kinds::well_kinded(expected, ks),
        pat::variant_pat(env, s, p, path, fields, expected, mode) == Ok::<
            (Model, TyModel),
            InferError,
        >((after, t)),
    ensures
        settled::no_known(after.vars, t),
{
    let _ = pat_upkeep::lemma_variant_pat(env, s, ks, p, path, fields, expected, mode);
}

/// A pattern that looks behind references is matched with a type that is none.
pub proof fn pattern_looks_behind_all_references(
    node: Pat,
    expected: TyModel,
    mode: BindingMode,
    inner: TyModel,
    own_mode: BindingMode,
)
    requires
        pat::looks_behind_references(node),
        pat::pat_expectation(node, expected, mode) == Ok::<(TyModel, BindingMode), InferError>(
            (inner, own_mode),
        ),
    ensures
        ty::reference(inner) matches Ok(None),
{
    lemma_no_reference(expected, mode);
}

proof fn lemma_no_reference(expected: TyModel, mode: BindingMode)
    ensures
        pat::behind_references(expected, mode) matches Ok((inner, _)) ==> (ty::reference(
            inner,
        ) matches Ok(None)),
    decreases expected,
{
    if let TyModel::Apply { ctor: TypeCtor::Ref(m), params } = expected {
        if params.len() == 1 {
            lemma_no_reference(params[0], pat::mode_behind(mode, m));
        }
    }
}

/// Whether there are types for the patterns of the parameters whose types are declared.
pub open spec fn params_seen(s: Model, types: Seq<TypeRef>, pats: Seq<PatId>) -> bool {
    forall|i: int|
        0 <= i < pats.len() && i < types.len() ==> records::pat_seen(s, #[trigger] pats[i])
}

/// What the parameters of a function record.
proof fn lemma_params_recorded<D: HirDatabase>(
    env: Env<D>,
    s: Model,
    types: Seq<TypeRef>,
    pats: Seq<PatId>,
)
    requires
        env.body.wf(),
        body::all_pats_below(pats, env.body.pat_seq().len()),
    ensures
        infer::after_params(env, s, types, pats) matches Ok(after) ==> records::adds(
            *env.body,
            s,
            after,
        ) && params_seen(after, types, pats),
    decreases types.len(),
{
    broadcast use records::group_adds;

    records::lemma_same_records(*env.body, s, s);
    if types.len() > 0 && pats.len() > 0 {
        records::lemma_insert_in(*env.body, s, env.db.lowered(env.resolver(), types[0]));
        if let Ok((s1, t)) = context::make_ty(env.db, env.resolver(), s, types[0]) {
            pat_records::lemma_pat_ty(env, s1, pats[0], t, BindingMode::Move);
            if let Ok((s2, _)) = pat::pat_ty(env, s1, pats[0], t, BindingMode::Move) {
                let rest = pats.skip(1);
                lemma_params_recorded(env, s2, types.skip(1), rest);
                if let Ok(after) = infer::after_params(env, s2, types.skip(1), rest) {
                    assert forall|i: int|
                        0 <= i < pats.len() && i < types.len() implies records::pat_seen(
                        after,
                        #[trigger] pats[i],
                    ) by {
                        if i > 0 {
                            assert(pats[i] == rest[i - 1]);
                        } else {
                            assert(records::pat_seen(s2, pats[i]));
                        }
                    }
                }
            }
        }
    }
}

/// Whether there are types for the patterns of the parameters of a definition.
pub open spec fn signature_seen<D: HirDatabase>(env: Env<D>, s: Model) -> bool {
    env.owner matches DefWithBody::Function(func) ==> params_seen(
        s,
        env.db.fn_signature_of(func).params@,
        env.body.param_seq(),
    )
}

/// What the declared type of the result records: nothing.
proof fn lemma_return_type_recorded<D: HirDatabase>(env: Env<D>, s: Model, type_ref: TypeRef)
    requires
        records::all_to_the_point(*env.body, s),
    ensures
        infer::after_return_type(env, s, type_ref) matches Ok(after) ==> {
            &&& records::all_to_the_point(*env.body, after)
            &&& after == (Model { vars: after.vars, return_ty: after.return_ty, ..s })
        },
{
}

/// What signature and body record.
proof fn lemma_recorded<D: HirDatabase>(env: Env<D>)
    requires
        env.body.wf(),
    ensures
        infer::after_signature(env) matches Ok(s) ==> (infer::after_body(env, s) matches Ok(after)
            ==> {
            &&& signature_seen(env, after)
            &&& records::seen(after, env.body.root())
            &&& records::all_to_the_point(*env.body, after)
        }),
{
    broadcast use records::group_adds;

    let start = context::nothing_known();
    records::lemma_nothing_recorded(*env.body);
    match env.owner {
        DefWithBody::Const(konst) => {
            lemma_return_type_recorded(env, start, env.db.const_signature_of(konst).type_ref);
        },
        DefWithBody::Static(static_) => {
            lemma_return_type_recorded(env, start, env.db.static_signature_of(static_).type_ref);
        },
        DefWithBody::Function(func) => {
            let signature = env.db.fn_signature_of(func);
            let (types, pats) = (signature.params@, env.body.param_seq());
            lemma_params_recorded(env, start, types, pats);
            if let Ok(s1) = infer::after_params(env, start, types, pats) {
                records::lemma_told(*env.body, start, s1);
                lemma_return_type_recorded(env, s1, signature.ret_type);
            }
        },
    }
    if let Ok(s) = infer::after_signature(env) {
        assert(signature_seen(env, s));
        let root = env.body.root();
        expr_records::lemma_expr_ty(env, s, root, s.return_ty);
        if let Ok((after, _)) = expr::expr_ty(env, s, root, s.return_ty) {
            records::lemma_told(*env.body, s, after);
            if let DefWithBody::Function(func) = env.owner {
                let (types, pats) = (env.db.fn_signature_of(func).params@, env.body.param_seq());
                assert forall|i: int|
                    0 <= i < pats.len() && i < types.len() implies records::pat_seen(
                    after,
                    #[trigger] pats[i],
                ) by {
                    assert(records::pat_seen(s, pats[i]));
                }
            }
        }
    }
}

proof fn lemma_after_params<D: HirDatabase>(
    env: Env<D>,
    s: Model,
    ks: Seq<Kind>,
    types: Seq<TypeRef>,
    pats: Seq<PatId>,
) -> (longer: Seq<Kind>)
    requires
        upkeep::faithful(env.db),
        env.body.wf(),
        body::all_pats_below(pats, env.body.pat_seq().len()),
        upkeep::sound(s, ks),
    ensures
        upkeep::keeps_all_in(env, s, ks, infer::after_params(env, s, types, pats), longer),
    decreases types.len(),
{
    upkeep::lemma_keeps_same(s, ks);
    if types.len() == 0 || pats.len() == 0 {
        ks
    } else {
        let k1 = upkeep::lemma_make_ty(env, s, ks, types[0]);
        if let Ok((s1, t)) = context::make_ty(env.db, env.resolver(), s, types[0]) {
            let k2 = pat_upkeep::lemma_pat_ty(env, s1, k1, pats[0], t, BindingMode::Move);
            if let Ok((s2, _)) = pat::pat_ty(env, s1, pats[0], t, BindingMode::Move) {
                upkeep::lemma_keeps_trans(s, ks, s1, k1, s2, k2);
                let rest = pats.skip(1);
                let longer = lemma_after_params(env, s2, k2, types.skip(1), rest);
                if let Ok(after) = infer::after_params(env, s2, types.skip(1), rest) {
                    upkeep::lemma_keeps_trans(s, ks, s2, k2, after, longer);
                }
                longer
            } else {
                ks
            }
        } else {
            ks
        }
    }
}

proof fn lemma_after_return_type<D: HirDatabase>(
    env: Env<D>,
    s: Model,
    ks: Seq<Kind>,
    type_ref: TypeRef,
) -> (longer: Seq<Kind>)
    requires
        upkeep::faithful(env.db),
        upkeep::sound(s, ks),
    ensures
        match infer::after_return_type(env, s, type_ref) {
            Ok(after) => upkeep::sound(after, longer),
            Err(e) => upkeep::has_cause(env, e),
        },
{
    let longer = upkeep::lemma_make_ty(env, s, ks, type_ref);
    if let Ok((s1, t)) = context::make_ty(env.db, env.resolver(), s, type_ref) {
        upkeep::lemma_set_return_ty(s1, longer, t);
    }
    longer
}

proof fn lemma_after_signature<D: HirDatabase>(env: Env<D>) -> (longer: Seq<Kind>)
    requires
        upkeep::faithful(env.db),
        env.body.wf(),
    ensures
        match infer::after_signature(env) {
            Ok(s) => upkeep::sound(s, longer),
            Err(e) => upkeep::has_cause(env, e),
        },
{
    let s = context::nothing_known();
    upkeep::lemma_nothing_known();
    match env.owner {
        DefWithBody::Const(konst) => {
            let type_ref = env.db.const_signature_of(konst).type_ref;
            lemma_after_return_type(env, s, Seq::empty(), type_ref)
        },
        DefWithBody::Static(static_) => {
            let type_ref = env.db.static_signature_of(static_).type_ref;
            lemma_after_return_type(env, s, Seq::empty(), type_ref)
        },
        DefWithBody::Function(func) => {
            let signature = env.db.fn_signature_of(func);
            let (types, pats) = (signature.params@, env.body.param_seq());
            let k1 = lemma_after_params(env, s, Seq::empty(), types, pats);
            if let Ok(s1) = infer::after_params(env, s, types, pats) {
                lemma_after_return_type(env, s1, k1, signature.ret_type)
            } else {
                k1
            }
        },
    }
}

/// What is known after signature and body.
proof fn lemma_walked<D: HirDatabase>(env: Env<D>) -> (longer: Seq<Kind>)
    requires
        upkeep::faithful(env.db),
        env.body.wf(),
    ensures
        match infer::after_signature(env) {
            Ok(s) => match infer::after_body(env, s) {
                Ok(after) => upkeep::sound(after, longer),
                Err(e) => upkeep::has_cause(env, e),
            },
            Err(e) => upkeep::has_cause(env, e),
        },
{
    let ks = lemma_after_signature(env);
    if let Ok(s) = infer::after_signature(env) {
        upkeep::lemma_return_ty(s, ks);
        expr_upkeep::lemma_expr_ty(env, s, ks, env.body.root(), s.return_ty)
    } else {
        ks
    }
}

/// Inference does not stumble over its own variables: it equates no two whose types are
/// known, and asks for none that does not exist.
pub proof fn inference_fails_on_no_variable<D: HirDatabase>(db: &D, def: DefWithBody, e: InferError)
    requires
        upkeep::faithful(db),
        db.body_of(def).wf(),
        infer::inference(db, def) == Err::<ResultModel, InferError>(e),
    ensures
        e != InferError::BothKnown,
        e != InferError::NoSuchVariable,
        e != InferError::NoSuchGoalVariable,
{
    let body = db.body_of(def);
    let env = Env { db, body: &body, owner: def };
    let ks = lemma_walked(env);
    if let Ok(s) = infer::after_signature(env) {
        if let Ok(after) = infer::after_body(env, s) {
            lemma_finished(after, ks);
        }
    }
}

/// Inference gives up only for a cause: because there are too many variables, parameters or
/// types within types, because a type that refers to another or is made of others has not one
/// parameter, because a closure has not as many types as parameters, or because a path is left
/// unresolved where it has no segment.
pub proof fn inference_fails_for_a_cause<D: HirDatabase>(db: &D, def: DefWithBody, e: InferError)
    requires
        upkeep::faithful(db),
        db.body_of(def).wf(),
        infer::inference(db, def) == Err::<ResultModel, InferError>(e),
    ensures
        upkeep::has_cause((Env { db, body: &db.body_of(def), owner: def }), e),
{
    let body = db.body_of(def);
    let env = Env { db, body: &body, owner: def };
    let ks = lemma_walked(env);
    if let Ok(s) = infer::after_signature(env) {
        if let Ok(after) = infer::after_body(env, s) {
            lemma_finished(after, ks);
        }
    }
}

/// A closure with not as many types as parameters, and a path that is left unresolved at a
/// place behind its end, or as a whole although it has come to a type, are given up on.
pub proof fn malformed_bodies_are_given_up_on<D: HirDatabase>(
    env: Env<D>,
    s: Model,
    e: ExprId,
    x: TyModel,
)
    requires
        env.body.wf(),
        e.0 < env.body.expr_seq().len(),
    ensures
        (env.body.expr_seq()[e.0 as int] matches Expr::Lambda { args, arg_types, .. }
            && args@.len() != arg_types@.len()) ==> expr::expr_ty(env, s, e, x) == Err::<
            (Model, TyModel),
            InferError,
        >(InferError::ClosureArity),
        (env.body.expr_seq()[e.0 as int] matches Expr::Path(path) && {
            let found = env.db.path_resolution(Resolver::Expr(env.owner, e), path);
            found.def.types is Some && (found.remaining_index matches Some(i) && i
                > path.segments@.len())
        }) ==> expr::expr_ty(env, s, e, x) == Err::<(Model, TyModel), InferError>(
            InferError::PathIndex,
        ),
        (env.body.expr_seq()[e.0 as int] matches Expr::Path(path) && {
            let found = env.db.path_resolution(Resolver::Expr(env.owner, e), path);
            path.segments@.len() > 0 && found.remaining_index == Some(0usize) && (
            found.def.types matches Some(Resolution::Def(def)) && typing::with_type(def) is Some)
        }) ==> expr::expr_ty(env, s, e, x) == Err::<(Model, TyModel), InferError>(
            InferError::PathIndex,
        ),
{
    let node = env.body.expr_seq()[e.0 as int];
    assert(node.below(e.0 as nat, env.body.pat_seq()));
    reveal(path::path_ty);
    if let Expr::Lambda { args, arg_types, body } = node {
        if args@.len() != arg_types@.len() {
            assert(expr::closure_ty(env, s, e, args@, arg_types@, body) == Err::<
                (Model, TyModel),
                InferError,
            >(InferError::ClosureArity));
            assert(expr::rule_ty(env, s, e, x) == Err::<(Model, TyModel), InferError>(
                InferError::ClosureArity,
            ));
        }
    }
}

/// What is sound can be resolved.
proof fn lemma_finished(s: Model, ks: Seq<Kind>)
    requires
        upkeep::sound(s, ks),
    ensures
        result::finished(s) is Ok,
{
    reveal(upkeep::sound);
    assert forall|id: u32| #[trigger] s.type_of_expr.contains_key(id) implies resolve::completely(
        s.vars,
        Seq::empty(),
        s.type_of_expr[id],
    ) is Ok by {
        settled::lemma_completely_total(s.vars, ks, Seq::empty(), s.type_of_expr[id]);
    }
    assert forall|id: u32| #[trigger] s.type_of_pat.contains_key(id) implies resolve::completely(
        s.vars,
        Seq::empty(),
        s.type_of_pat[id],
    ) is Ok by {
        settled::lemma_completely_total(s.vars, ks, Seq::empty(), s.type_of_pat[id]);
    }
}

/// What is told and recorded is about nodes that are there: each diagnostic names a struct
/// literal of the body and the position of one of its fields; methods are recorded for
/// method calls only, fields for field accesses, and associated items for paths. This holds
/// whatever the database answers.
pub proof fn result_points_into_the_body<D: HirDatabase>(db: &D, def: DefWithBody, m: ResultModel)
    requires
        db.body_of(def).wf(),
        infer::inference(db, def) == Ok::<ResultModel, InferError>(m),
    ensures
        records::points_into(
            db.body_of(def),
            m.diagnostics,
            m.method_resolutions,
            m.field_resolutions,
            m.assoc_resolutions,
        ),
{
    let body = db.body_of(def);
    let env = Env { db, body: &body, owner: def };
    lemma_recorded(env);
}

/// The types in the result of inference have no variables in them.
pub proof fn inference_result_has_no_variables<D: HirDatabase>(
    db: &D,
    def: DefWithBody,
    m: ResultModel,
)
    requires
        infer::inference(db, def) == Ok::<ResultModel, InferError>(m),
    ensures
        forall|id: u32| #[trigger]
            m.type_of_expr.contains_key(id) ==> settled::variable_free(m.type_of_expr[id]),
        forall|id: u32| #[trigger]
            m.type_of_pat.contains_key(id) ==> settled::variable_free(m.type_of_pat[id]),
{
    let body = db.body_of(def);
    let env = Env { db, body: &body, owner: def };
    let s = infer::after_signature(env)->Ok_0;
    let after = infer::after_body(env, s)->Ok_0;
    assert forall|id: u32| #[trigger]
        m.type_of_expr.contains_key(id) implies settled::variable_free(m.type_of_expr[id]) by {
        assert(after.type_of_expr.contains_key(id));
        settled::lemma_completely_free(after.vars, Seq::empty(), after.type_of_expr[id]);
    }
    assert forall|id: u32| #[trigger]
        m.type_of_pat.contains_key(id) implies settled::variable_free(m.type_of_pat[id]) by {
        assert(after.type_of_pat.contains_key(id));
        settled::lemma_completely_free(after.vars, Seq::empty(), after.type_of_pat[id]);
    }
}

/// Inference finds types for all expressions of a body, and for the patterns in it and
/// those of the parameters: the result holds a type for the body as a whole and for the
/// declared parameters, and with an expression or a pattern for all that it is made of. This
/// holds whatever the database answers.
pub proof fn inference_types_all_expressions<D: HirDatabase>(
    db: &D,
    def: DefWithBody,
    m: ResultModel,
)
    requires
        db.body_of(def).wf(),
        infer::inference(db, def) == Ok::<ResultModel, InferError>(m),
    ensures
        m.type_of_expr.contains_key(db.body_of(def).root().0),
        def matches DefWithBody::Function(func) ==> forall|i: int|
            0 <= i < db.body_of(def).param_seq().len() && i < db.fn_signature_of(func).params@.len()
                ==> m.type_of_pat.contains_key((#[trigger] db.body_of(def).param_seq()[i]).0),
        records::gapless(db.body_of(def), m.type_of_expr.dom(), m.type_of_pat.dom()),
{
    let body = db.body_of(def);
    let env = Env { db, body: &body, owner: def };
    lemma_recorded(env);
    let s = infer::after_signature(env)->Ok_0;
    let after = infer::after_body(env, s)->Ok_0;
    assert(m.type_of_expr.dom() =~= after.type_of_expr.dom());
    assert(m.type_of_pat.dom() =~= after.type_of_pat.dom());
    assert(records::seen(after, body.root()));
    if let DefWithBody::Function(func) = def {
        assert forall|i: int|
            0 <= i < body.param_seq().len() && i < db.fn_signature_of(func).params@.len()
            implies m.type_of_pat.contains_key((#[trigger] body.param_seq()[i]).0) by {
            assert(records::pat_seen(after, body.param_seq()[i]));
        }
    }
}

/// Whether an expression is part of another, or of a pattern.
pub open spec fn is_part(body: Body, e: ExprId) -> bool {
    ||| exists|d: ExprId|
        d.0 < body.expr_seq().len() && #[trigger] records::has_part(
            body.expr_seq()[d.0 as int],
            e,
        )
    ||| exists|p: PatId|
        p.0 < body.pat_seq().len() && #[trigger] body::pat_exprs(
            body.pat_seq()[p.0 as int],
        ).contains(e)
}

/// Whether a pattern is part of an expression, or of another pattern.
pub open spec fn is_pat_part(body: Body, p: PatId) -> bool {
    ||| exists|d: ExprId|
        d.0 < body.expr_seq().len() && #[trigger] records::has_pat(body.expr_seq()[d.0 as int], p)
    ||| exists|q: PatId|
        q.0 < body.pat_seq().len() && #[trigger] body::subpats(
            body.pat_seq()[q.0 as int],
        ).contains(p)
}

/// Whether all expressions and patterns of a body hang together: an expression other than
/// the whole and a pattern other than those of the parameters are part of something.
pub open spec fn connected(body: Body) -> bool {
    &&& forall|e: ExprId|
        e.0 < body.expr_seq().len() && e != body.root() ==> #[trigger] is_part(body, e)
    &&& forall|p: PatId|
        p.0 < body.pat_seq().len() && !body.param_seq().contains(p) ==> #[trigger] is_pat_part(
            body,
            p,
        )
}

/// Whether the types of the parameters of a body are declared.
pub open spec fn params_declared<D: HirDatabase>(db: &D, def: DefWithBody) -> bool {
    match def {
        DefWithBody::Function(func) => db.body_of(def).param_seq().len()
            <= db.fn_signature_of(func).params@.len(),
        _ => db.body_of(def).param_seq().len() == 0,
    }
}

/// Whether the types leave nothing out, from the whole and the parameters on.
spec fn typed_from_the_top(body: Body, exprs: Set<u32>, pats: Set<u32>) -> bool {
    &&& body.wf()
    &&& connected(body)
    &&& exprs.contains(body.root().0)
    &&& forall|i: int|
        0 <= i < body.param_seq().len() ==> pats.contains((#[trigger] body.param_seq()[i]).0)
    &&& records::gapless(body, exprs, pats)
}

proof fn lemma_part_below(node: Expr, n: nat, pats: Seq<Pat>, c: ExprId, p: PatId)
    requires
        node.below(n, pats),
    ensures
        records::has_part(node, c) ==> c.0 < n,
        records::has_pat(node, p) ==> body::pat_within(p, n, pats),
{
    if records::has_pat(node, p) {
        match node {
            Expr::Match { arms, .. } => {
                let i = choose|i: int|
                    0 <= i < arms@.len() && (#[trigger] arms@[i]).pats@.contains(p);
                assert(arms@[i].below(n, pats));
            },
            _ => {},
        }
    }
}

/// The expressions in a pattern are among those of the body.
proof fn lemma_limit_bounded(exprs: nat, pats: Seq<Pat>, p: PatId)
    requires
        body::pats_in_order(exprs, pats),
        p.0 < pats.len(),
    ensures
        body::pat_limit(pats, p) <= exprs,
    decreases p.0, 1nat, 0nat,
{
    let node = pats[p.0 as int];
    body::lemma_parts_inside(exprs, pats, p);
    lemma_exprs_limit_bounded(exprs, body::pat_exprs(node));
    lemma_pats_limit_bounded(exprs, pats, p, body::subpats(node));
}

proof fn lemma_exprs_limit_bounded(exprs: nat, ids: Seq<ExprId>)
    requires
        body::all_exprs_below(ids, exprs),
    ensures
        body::exprs_limit(ids) <= exprs,
    decreases ids.len(),
{
    if ids.len() > 0 {
        lemma_exprs_limit_bounded(exprs, ids.skip(1));
    }
}

proof fn lemma_pats_limit_bounded(exprs: nat, pats: Seq<Pat>, parent: PatId, ids: Seq<PatId>)
    requires
        body::pats_in_order(exprs, pats),
        parent.0 < pats.len(),
    ensures
        body::pats_limit(pats, parent, ids) <= exprs,
    decreases parent.0, 0nat, ids.len(),
{
    if ids.len() > 0 {
        if ids[0].0 < parent.0 {
            lemma_limit_bounded(exprs, pats, ids[0]);
        }
        lemma_pats_limit_bounded(exprs, pats, parent, ids.skip(1));
    }
}

proof fn lemma_expr_typed(body: Body, exprs: Set<u32>, pats: Set<u32>, e: ExprId)
    requires
        typed_from_the_top(body, exprs, pats),
        e.0 < body.expr_seq().len(),
    ensures
        exprs.contains(e.0),
    decreases body.expr_seq().len() - e.0, 0nat, 0nat,
{
    reveal(records::gapless);
    if e != body.root() {
        assert(is_part(body, e));
        if exists|d: ExprId|
            d.0 < body.expr_seq().len() && #[trigger] records::has_part(
                body.expr_seq()[d.0 as int],
                e,
            ) {
            let d = choose|d: ExprId|
                d.0 < body.expr_seq().len() && #[trigger] records::has_part(
                    body.expr_seq()[d.0 as int],
                    e,
                );
            let node = body.expr_seq()[d.0 as int];
            lemma_part_below(node, d.0 as nat, body.pat_seq(), e, PatId(0));
            lemma_expr_typed(body, exprs, pats, d);
            assert(records::parts_typed(body, exprs, pats, d));
        } else {
            let p = choose|p: PatId|
                p.0 < body.pat_seq().len() && #[trigger] body::pat_exprs(
                    body.pat_seq()[p.0 as int],
                ).contains(e);
            let parts = body::pat_exprs(body.pat_seq()[p.0 as int]);
            let i = choose|i: int| 0 <= i < parts.len() && parts[i] == e;
            body::lemma_parts_inside(body.expr_seq().len(), body.pat_seq(), p);
            assert(parts[i].0 < body::pat_limit(body.pat_seq(), p));
            lemma_limit_bounded(body.expr_seq().len(), body.pat_seq(), p);
            lemma_pat_typed(body, exprs, pats, p);
            assert(records::pat_parts_typed(body, exprs, pats, p));
            assert(exprs.contains(parts[i].0));
        }
    }
}

proof fn lemma_pat_typed(body: Body, exprs: Set<u32>, pats: Set<u32>, p: PatId)
    requires
        typed_from_the_top(body, exprs, pats),
        p.0 < body.pat_seq().len(),
    ensures
        pats.contains(p.0),
    decreases
            body.expr_seq().len() - body::pat_limit(body.pat_seq(), p),
            1nat,
            body.pat_seq().len() - p.0,
{
    reveal(records::gapless);
    lemma_limit_bounded(body.expr_seq().len(), body.pat_seq(), p);
    if body.param_seq().contains(p) {
        let i = choose|i: int| 0 <= i < body.param_seq().len() && body.param_seq()[i] == p;
        assert(pats.contains(body.param_seq()[i].0));
    } else {
        assert(is_pat_part(body, p));
        if exists|d: ExprId|
            d.0 < body.expr_seq().len() && #[trigger] records::has_pat(
                body.expr_seq()[d.0 as int],
                p,
            ) {
            let d = choose|d: ExprId|
                d.0 < body.expr_seq().len() && #[trigger] records::has_pat(
                    body.expr_seq()[d.0 as int],
                    p,
                );
            let node = body.expr_seq()[d.0 as int];
            lemma_part_below(node, d.0 as nat, body.pat_seq(), ExprId(0), p);
            lemma_expr_typed(body, exprs, pats, d);
            assert(records::parts_typed(body, exprs, pats, d));
        } else {
            let q = choose|q: PatId|
                q.0 < body.pat_seq().len() && #[trigger] body::subpats(
                    body.pat_seq()[q.0 as int],
                ).contains(p);
            let parts = body::subpats(body.pat_seq()[q.0 as int]);
            let i = choose|i: int| 0 <= i < parts.len() && parts[i] == p;
            body::lemma_parts_inside(body.expr_seq().len(), body.pat_seq(), q);
            assert(body::pat_inside(body.pat_seq(), q, parts[i]));
            lemma_limit_bounded(body.expr_seq().len(), body.pat_seq(), q);
            lemma_pat_typed(body, exprs, pats, q);
            assert(records::pat_parts_typed(body, exprs, pats, q));
            assert(pats.contains(parts[i].0));
        }
    }
}

/// If all expressions and patterns of a body hang together and the types of the parameters
/// are declared, inference finds a type for each expression and each pattern of the body,
/// whatever the database answers.
pub proof fn inference_types_every_node<D: HirDatabase>(db: &D, def: DefWithBody, m: ResultModel)
    requires
        db.body_of(def).wf(),
        connected(db.body_of(def)),
        params_declared(db, def),
        infer::inference(db, def) == Ok::<ResultModel, InferError>(m),
    ensures
        forall|e: ExprId|
            e.0 < db.body_of(def).expr_seq().len() ==> #[trigger] m.type_of_expr.contains_key(e.0),
        forall|p: PatId|
            p.0 < db.body_of(def).pat_seq().len() ==> #[trigger] m.type_of_pat.contains_key(p.0),
{
    let body = db.body_of(def);
    inference_types_all_expressions(db, def, m);
    let (exprs, pats) = (m.type_of_expr.dom(), m.type_of_pat.dom());
    assert(typed_from_the_top(body, exprs, pats));
    assert forall|e: ExprId|
        e.0 < body.expr_seq().len() implies #[trigger] m.type_of_expr.contains_key(e.0) by {
        lemma_expr_typed(body, exprs, pats, e);
    }
    assert forall|p: PatId|
        p.0 < body.pat_seq().len() implies #[trigger] m.type_of_pat.contains_key(p.0) by {
        lemma_pat_typed(body, exprs, pats, p);
    }
}

} // verus!
