//! What is right of the recorded types stays right in later steps.

use vstd::prelude::*;

use crate::body::{Array, Expr, Pat, Path, Statement};
use crate::context::{Env, Model};
use crate::db::{HirDatabase, TraitRefModel};
use crate::defs::{ExprId, PatId, Resolution, Resolver, VariantDef};
use crate::kinds::Kind;
use crate::pat::BindingMode;
use crate::rules;
use crate::ty::{Mutability, TyModel, TypeCtor};
use crate::typing::{Expected, Matched, Places, Wanted};
use crate::{body, context, kinds, meaning, pat, settled, ty, typing, upkeep};

verus! {

/// Whether what is known of the type of the result is the same.
pub open spec fn same_result(s: Model, d: Expected, after: Model, d2: Expected) -> bool {
    after.return_ty == s.return_ty && d2.signature_end == d.signature_end
}

/// Whether one state comes later than another: what is looked at in between comes behind
/// what was looked at before, of which nothing is forgotten.
#[verifier::opaque]
pub open spec fn follows(
    pl: Places,
    s: Model,
    d: Expected,
    after: Model,
    d2: Expected,
) -> bool {
    &&& forall|e: ExprId, x: TyModel| #[trigger]
        typing::expects(s, d, e, x) ==> typing::expects(after, d2, e, x)
            && after.type_of_expr[e.0] == s.type_of_expr[e.0]
    &&& forall|p: PatId, x: TyModel, m: BindingMode| #[trigger]
        typing::matches_with(s, d, p, x, m) ==> typing::matches_with(after, d2, p, x, m)
            && after.type_of_pat[p.0] == s.type_of_pat[p.0] && d2.pats[p.0] == d.pats[p.0]
    &&& forall|e: ExprId| #[trigger]
        d.exprs.contains_key(e.0) ==> d2.exprs.contains_key(e.0) && d2.exprs[e.0] == d.exprs[e.0]
    &&& forall|p: PatId| #[trigger]
        d.pats.contains_key(p.0) ==> d2.pats.contains_key(p.0) && d2.pats[p.0] == d.pats[p.0]
    &&& forall|p: PatId, x: TyModel| #[trigger]
        typing::was_met(d, p, x) ==> typing::was_met(d2, p, x)
    &&& meaning::narrows(s.vars, after.vars)
    &&& s.diagnostics.is_prefix_of(after.diagnostics)
    &&& same_result(s, d, after, d2) || forall|e: ExprId| #[trigger]
        d.exprs.contains_key(e.0) ==> pl.expr_end[e.0] <= d2.signature_end
    &&& forall|p: PatId, e: ExprId|
        #![trigger d2.pats.contains_key(p.0), d.exprs.contains_key(e.0)]
        d2.pats.contains_key(p.0) && !d.pats.contains_key(p.0) && d.exprs.contains_key(e.0)
            ==> pl.expr_end[e.0] < pl.pat_end[p.0]
    &&& forall|p: PatId, q: PatId|
        #![trigger d2.pats.contains_key(p.0), d.pats.contains_key(q.0)]
        d2.pats.contains_key(p.0) && !d.pats.contains_key(p.0) && d.pats.contains_key(q.0)
            ==> pl.pat_end[q.0] < pl.pat_end[p.0]
}

/// Whether all that has been looked at has a type and comes before a place.
#[verifier::opaque]
pub open spec fn clear(pl: Places, s: Model, d: Expected, pos: int) -> bool {
    &&& forall|e: ExprId| #[trigger]
        d.exprs.contains_key(e.0) ==> pl.expr_end[e.0] <= pos && s.type_of_expr.contains_key(e.0)
    &&& forall|p: PatId| #[trigger]
        d.pats.contains_key(p.0) ==> pl.pat_end[p.0] <= pos && s.type_of_pat.contains_key(p.0)
    &&& forall|p: PatId| #[trigger] d.met.contains_key(p.0) ==> pl.pat_start[p.0] < pos
}

/// Whether all is as it should be before a step.
pub open spec fn ready<D: HirDatabase>(
    env: Env<D>,
    pl: Places,
    s: Model,
    ks: Seq<Kind>,
    d: Expected,
    pos: int,
) -> bool {
    &&& upkeep::faithful(env.db)
    &&& env.body.wf()
    &&& typing::in_order(pl, *env.body)
    &&& upkeep::sound(s, ks)
    &&& typing::all_right(env, pl, s, d)
    &&& clear(pl, s, d, pos)
}

/// Whether a step leaves all as it should be.
pub open spec fn stepped<D: HirDatabase>(
    env: Env<D>,
    pl: Places,
    s: Model,
    d: Expected,
    after: Model,
    d2: Expected,
    pos: int,
) -> bool {
    &&& typing::all_right(env, pl, after, d2)
    &&& follows(pl, s, d, after, d2)
    &&& same_result(s, d, after, d2)
    &&& d2.start == d.start
    &&& d2.told == d.told
    &&& d2.goals == d.goals
    &&& meaning::no_goal_lost(env.db, s, after)
    &&& clear(pl, after, d2, pos)
}

pub broadcast proof fn lemma_follows_trans(
    pl: Places,
    s: Model,
    d: Expected,
    s1: Model,
    d1: Expected,
    s2: Model,
    d2: Expected,
)
    requires
        #[trigger] follows(pl, s, d, s1, d1),
        #[trigger] follows(pl, s1, d1, s2, d2),
    ensures
        follows(pl, s, d, s2, d2),
{
    reveal(follows);
    broadcast use meaning::group_later;

    assert forall|e: ExprId, x: TyModel| #[trigger] typing::expects(s, d, e, x) implies
        typing::expects(s2, d2, e, x) && s2.type_of_expr[e.0] == s.type_of_expr[e.0] by {
        assert(typing::expects(s1, d1, e, x));
    }
    assert forall|p: PatId, x: TyModel| #[trigger] typing::was_met(d, p, x) implies
        typing::was_met(d2, p, x) by {
        assert(typing::was_met(d1, p, x));
    }
    assert forall|p: PatId, x: TyModel, m: BindingMode| #[trigger]
        typing::matches_with(s, d, p, x, m) implies typing::matches_with(s2, d2, p, x, m)
        && s2.type_of_pat[p.0] == s.type_of_pat[p.0] && d2.pats[p.0] == d.pats[p.0] by {
        assert(typing::matches_with(s1, d1, p, x, m));
    }
}

pub broadcast proof fn lemma_expects_later(
    pl: Places,
    s: Model,
    d: Expected,
    after: Model,
    d2: Expected,
    e: ExprId,
    x: TyModel,
)
    requires
        #[trigger] follows(pl, s, d, after, d2),
        #[trigger] typing::expects(s, d, e, x),
    ensures
        typing::expects(after, d2, e, x),
        after.type_of_expr[e.0] == s.type_of_expr[e.0],
        d2.exprs[e.0] == d.exprs[e.0],
{
    reveal(follows);
}

pub broadcast proof fn lemma_matches_later(
    pl: Places,
    s: Model,
    d: Expected,
    after: Model,
    d2: Expected,
    p: PatId,
    x: TyModel,
    m: BindingMode,
)
    requires
        #[trigger] follows(pl, s, d, after, d2),
        #[trigger] typing::matches_with(s, d, p, x, m),
    ensures
        typing::matches_with(after, d2, p, x, m),
        after.type_of_pat[p.0] == s.type_of_pat[p.0],
        d2.pats[p.0] == d.pats[p.0],
{
    reveal(follows);
}

pub broadcast proof fn lemma_met_later(
    pl: Places,
    s: Model,
    d: Expected,
    after: Model,
    d2: Expected,
    p: PatId,
    x: TyModel,
)
    requires
        #[trigger] follows(pl, s, d, after, d2),
        #[trigger] typing::was_met(d, p, x),
    ensures
        typing::was_met(d2, p, x),
{
    reveal(follows);
}

pub broadcast proof fn lemma_follows_vars(
    pl: Places,
    s: Model,
    d: Expected,
    after: Model,
    d2: Expected,
)
    requires
        #[trigger] follows(pl, s, d, after, d2),
    ensures
        meaning::narrows(s.vars, after.vars),
        s.diagnostics.is_prefix_of(after.diagnostics),
{
    reveal(follows);
}

pub broadcast group group_follows {
    lemma_follows_trans,
    lemma_expects_later,
    lemma_matches_later,
    lemma_met_later,
    lemma_follows_vars,
}

/// What a path was found to stand for stays so.
proof fn lemma_path_later<D: HirDatabase>(
    env: Env<D>,
    pl: Places,
    s: Model,
    d: Expected,
    after: Model,
    d2: Expected,
    resolver: Resolver,
    path: Path,
    end: int,
    t: TyModel,
)
    requires
        follows(pl, s, d, after, d2),
        typing::path_ok(env, pl, s, d, resolver, path, end, t),
        forall|p: PatId| #[trigger]
            d2.pats.contains_key(p.0) && pl.pat_end[p.0] < end ==> d.pats.contains_key(p.0),
        forall|p: PatId| #[trigger]
            d.pats.contains_key(p.0) ==> s.type_of_pat.contains_key(p.0),
    ensures
        typing::path_ok(env, pl, after, d2, resolver, path, end, t),
{
    broadcast use {meaning::group_later, group_follows};

    if let Some(Resolution::LocalBinding(p)) = env.db.path_resolution(resolver, path).def.values {
        if d2.pats.contains_key(p.0) && pl.pat_end[p.0] < end {
            assert(typing::matches_with(s, d, p, d.pats[p.0].expected, d.pats[p.0].mode));
        }
    }
}

pub proof fn lemma_statement_later<D: HirDatabase>(
    env: Env<D>,
    pl: Places,
    s: Model,
    d: Expected,
    after: Model,
    d2: Expected,
    st: Statement,
)
    requires
        follows(pl, s, d, after, d2),
        typing::statement_ok(env, s, d, st),
    ensures
        typing::statement_ok(env, after, d2, st),
{
    broadcast use {meaning::group_later, group_follows};

    match st {
        Statement::Let { pat, type_ref, initializer: Some(init) } => {
            let t = choose|t: TyModel| #[trigger]
                typing::expects(s, d, init, t) && match type_ref {
                    Some(_) => typing::written(env, type_ref, t),
                    None => typing::is_variable(t),
                };
            assert(typing::expects(after, d2, init, t));
        },
        Statement::Let { pat, type_ref, initializer: None } => {
            let t = choose|t: TyModel| #[trigger]
                typing::matches_with(s, d, pat, t, BindingMode::Move) && match type_ref {
                    Some(_) => typing::written(env, type_ref, t),
                    None => typing::is_variable(t),
                };
            assert(typing::matches_with(after, d2, pat, t, BindingMode::Move));
        },
        Statement::Expr(e) => {},
    }
}

/// What a rule was found to say stays so.
#[verifier::spinoff_prover]
#[verifier::rlimit(60)]
pub proof fn lemma_rule_later<D: HirDatabase>(
    env: Env<D>,
    pl: Places,
    s: Model,
    d: Expected,
    after: Model,
    d2: Expected,
    e: ExprId,
    x: TyModel,
    t: TyModel,
)
    requires
        follows(pl, s, d, after, d2),
        same_result(s, d, after, d2) || pl.expr_end[e.0] <= d2.signature_end,
        typing::rule_ok(env, pl, s, d, e, x, t),
        forall|p: PatId| #[trigger]
            d2.pats.contains_key(p.0) && pl.pat_end[p.0] < pl.expr_end[e.0]
                ==> d.pats.contains_key(p.0),
        forall|p: PatId| #[trigger]
            d.pats.contains_key(p.0) ==> s.type_of_pat.contains_key(p.0),
    ensures
        typing::rule_ok(env, pl, after, d2, e, x, t),
{
    broadcast use {meaning::group_later, group_follows};

    match env.body.expr_seq()[e.0 as int] {
        Expr::Block { statements, tail } => {
            assert forall|i: int| 0 <= i < statements@.len() implies typing::statement_ok(
                env,
                after,
                d2,
                #[trigger] statements@[i],
            ) by {
                lemma_statement_later(env, pl, s, d, after, d2, statements@[i]);
            }
        },
        Expr::Lambda { args, arg_types, body } => {
            assert forall|i: int| 0 <= i < args@.len() implies typing::closure_param_ok(
                env,
                after,
                d2,
                #[trigger] args@[i],
                arg_types@[i],
            ) by {
                let declared = choose|declared: TyModel| #[trigger]
                    typing::matches_with(s, d, args@[i], declared, BindingMode::Move)
                        && typing::written(env, arg_types@[i], declared);
                assert(typing::matches_with(after, d2, args@[i], declared, BindingMode::Move));
            }
        },
        Expr::Path(path) => {
            lemma_path_later(
                env,
                pl,
                s,
                d,
                after,
                d2,
                Resolver::Expr(env.owner, e),
                path,
                pl.expr_end[e.0],
                t,
            );
        },
        Expr::MethodCall { receiver, method_name, args, generic_args } => {
            let receiver_ty = s.type_of_expr[receiver.0];
            assert(typing::expects(after, d2, receiver, TyModel::Unknown));
            lemma_method_call_later(
                env,
                pl,
                s,
                d,
                after,
                d2,
                e,
                receiver_ty,
                method_name@,
                generic_args,
                args@,
                t,
            );
        },
        Expr::StructLit { path, fields, spread } => {
            let def = choose|def: Option<VariantDef>| #[trigger]
                typing::names_variant(env, path, t, def) && typing::struct_lit_ok(
                    env,
                    s,
                    d,
                    e,
                    fields@,
                    spread,
                    def,
                    t,
                );
            assert forall|i: int| 0 <= i < fields@.len() implies typing::field_value_ok(
                env,
                after,
                d2,
                e,
                #[trigger] fields@[i],
                i,
                def,
                t,
            ) by {
                lemma_field_value_later(env, pl, s, d, after, d2, e, fields@[i], i, def, t);
            }
            assert(typing::struct_lit_ok(env, after, d2, e, fields@, spread, def, t));
        },
        Expr::Return { expr: Some(value) } => {
            assert(typing::expects(s, d, value, d.exprs[value.0].expected));
        },
        Expr::Ref { expr, mutability } => {
            let behind = choose|behind: TyModel| #[trigger]
                typing::expects(s, d, expr, behind) && typing::referent_ok(x, behind);
            assert(typing::expects(after, d2, expr, behind));
        },
        _ => {},
    }
}

proof fn lemma_method_call_later<D: HirDatabase>(
    env: Env<D>,
    pl: Places,
    s: Model,
    d: Expected,
    after: Model,
    d2: Expected,
    e: ExprId,
    receiver: TyModel,
    name: Seq<char>,
    generic_args: Option<body::GenericArgs>,
    args: Seq<ExprId>,
    t: TyModel,
)
    requires
        follows(pl, s, d, after, d2),
        typing::method_call_ok(env, s, d, receiver, name, generic_args, args, t),
    ensures
        typing::method_call_ok(env, after, d2, receiver, name, generic_args, args, t),
{
    broadcast use {meaning::group_later, group_follows};

    assert forall|goal: TraitRefModel|
        #[trigger] meaning::used(env.db, s.vars, goal) implies meaning::used(
        env.db,
        after.vars,
        goal,
    ) by {
        meaning::lemma_used_later(env.db, s.vars, after.vars, goal);
    }

}

pub proof fn lemma_field_value_later<D: HirDatabase>(
    env: Env<D>,
    pl: Places,
    s: Model,
    d: Expected,
    after: Model,
    d2: Expected,
    e: ExprId,
    field: body::StructLitField,
    i: int,
    def: Option<VariantDef>,
    t: TyModel,
)
    requires
        follows(pl, s, d, after, d2),
        typing::field_value_ok(env, s, d, e, field, i, def, t),
    ensures
        typing::field_value_ok(env, after, d2, e, field, i, def, t),
{
    broadcast use {meaning::group_later, group_follows};

    let told = crate::diagnostics::InferenceDiagnostic::NoSuchField { expr: e, field: i as usize };
    if s.diagnostics.contains(told) {
        let k = choose|k: int| 0 <= k < s.diagnostics.len() && s.diagnostics[k] == told;
        assert(after.diagnostics[k] == told);
    }
}

/// What the rule for a pattern was found to say stays so.
#[verifier::spinoff_prover]
#[verifier::rlimit(60)]
pub proof fn lemma_pat_rule_later<D: HirDatabase>(
    env: Env<D>,
    pl: Places,
    s: Model,
    d: Expected,
    after: Model,
    d2: Expected,
    p: PatId,
    x: TyModel,
    m: BindingMode,
    t: TyModel,
)
    requires
        follows(pl, s, d, after, d2),
        typing::pat_rule_ok(env, pl, s, d, p, x, m, t),
        forall|q: PatId| #[trigger]
            d2.pats.contains_key(q.0) && pl.pat_end[q.0] < pl.pat_end[p.0]
                ==> d.pats.contains_key(q.0),
        forall|q: PatId| #[trigger]
            d.pats.contains_key(q.0) ==> s.type_of_pat.contains_key(q.0),
    ensures
        typing::pat_rule_ok(env, pl, after, d2, p, x, m, t),
{
    broadcast use {meaning::group_later, group_follows};

    match env.body.pat_seq()[p.0 as int] {
        Pat::Path(path) => {
            lemma_path_later(
                env,
                pl,
                s,
                d,
                after,
                d2,
                env.resolver(),
                path,
                pl.pat_end[p.0],
                t,
            );
        },
        Pat::Ref { pat, mutability } => {
            let behind = choose|behind: TyModel| #[trigger]
                typing::matches_with(s, d, pat, behind, m) && typing::referent_ok(x, behind);
            assert(typing::matches_with(after, d2, pat, behind, m));
        },
        _ => {},
    }
}

/// The type of an expression that is right stays so.
proof fn lemma_expr_later<D: HirDatabase>(
    env: Env<D>,
    pl: Places,
    s: Model,
    d: Expected,
    after: Model,
    d2: Expected,
    e: ExprId,
)
    requires
        follows(pl, s, d, after, d2),
        typing::all_right(env, pl, s, d),
        d.exprs.contains_key(e.0),
    ensures
        typing::expr_ok(env, pl, after, d2, e),
{
    broadcast use {meaning::group_later, group_follows};

    reveal(typing::all_right);
    let x = d.exprs[e.0].expected;
    assert(typing::expr_ok(env, pl, s, d, e));
    assert(typing::expects(s, d, e, x));
    let t = choose|t: TyModel| #[trigger]
        typing::rule_ok(env, pl, s, d, e, x, t) && meaning::takes(
            s.vars,
            s.type_of_expr[e.0],
            t,
            x,
        ) && typing::taken_ok(s, t, d.exprs[e.0].taken, x, s.type_of_expr[e.0]);
    assert(same_result(s, d, after, d2) || pl.expr_end[e.0] <= d2.signature_end) by {
        reveal(follows);
    }
    assert forall|p: PatId| #[trigger]
        d2.pats.contains_key(p.0) && pl.pat_end[p.0] < pl.expr_end[e.0] implies d.pats.contains_key(
        p.0,
    ) by {
        reveal(follows);
    }
    lemma_rule_later(env, pl, s, d, after, d2, e, x, t);
}

proof fn lemma_pat_later<D: HirDatabase>(
    env: Env<D>,
    pl: Places,
    s: Model,
    d: Expected,
    after: Model,
    d2: Expected,
    p: PatId,
)
    requires
        follows(pl, s, d, after, d2),
        typing::all_right(env, pl, s, d),
        d.pats.contains_key(p.0),
    ensures
        typing::pat_ok(env, pl, after, d2, p),
{
    broadcast use {meaning::group_later, group_follows};

    reveal(typing::all_right);
    let at = d.pats[p.0];
    let node = env.body.pat_seq()[p.0 as int];
    assert(typing::pat_ok(env, pl, s, d, p));
    assert(typing::matches_with(s, d, p, at.expected, at.mode));
    assert forall|q: PatId| #[trigger]
        d2.pats.contains_key(q.0) && pl.pat_end[q.0] < pl.pat_end[p.0] implies d.pats.contains_key(
        q.0,
    ) by {
        reveal(follows);
    }
    let (x, m) = choose|x: TyModel, m: BindingMode| #[trigger]
        typing::meets(node, at.expected, at.mode, x, m) && match node {
            Pat::Bind { mode: annotation, subpat, .. } => typing::binding_ok(
                s,
                d,
                p,
                annotation,
                subpat,
                x,
                m,
                at.taken,
                at.given,
            ),
            _ => at.given == s.type_of_pat[p.0] && exists|t: TyModel| #[trigger]
                typing::pat_rule_ok(env, pl, s, d, p, x, m, t) && meaning::takes(
                    s.vars,
                    s.type_of_pat[p.0],
                    t,
                    x,
                ) && typing::taken_ok(s, t, at.taken, x, s.type_of_pat[p.0]),
        };
    if !(node is Bind) {
        let t = choose|t: TyModel| #[trigger]
            typing::pat_rule_ok(env, pl, s, d, p, x, m, t) && meaning::takes(
                s.vars,
                s.type_of_pat[p.0],
                t,
                x,
            ) && typing::taken_ok(s, t, at.taken, x, s.type_of_pat[p.0]);
        lemma_pat_rule_later(env, pl, s, d, after, d2, p, x, m, t);
    }
    assert(typing::meets(node, at.expected, at.mode, x, m));
}

/// A reason stays one.
proof fn lemma_reason_later<D: HirDatabase>(
    env: Env<D>,
    pl: Places,
    s: Model,
    d: Expected,
    after: Model,
    d2: Expected,
    pair: (TyModel, TyModel),
)
    requires
        follows(pl, s, d, after, d2),
        d2.goals == d.goals,
        typing::has_reason(env, s, d, pair),
    ensures
        typing::has_reason(env, after, d2, pair),
{
    reveal(follows);
    if exists|e: ExprId| #[trigger] typing::expected_of_expr(d, e, pair) {
        let e = choose|e: ExprId| #[trigger] typing::expected_of_expr(d, e, pair);
        assert(typing::expected_of_expr(d2, e, pair));
    } else if exists|p: PatId| #[trigger] typing::expected_of_pat(env, d, p, pair) {
        let p = choose|p: PatId| #[trigger] typing::expected_of_pat(env, d, p, pair);
        assert(typing::expected_of_pat(env, d2, p, pair));
    } else if exists|p: PatId, def: Option<VariantDef>| #[trigger]
        typing::named_by_pattern(env, d, p, def, pair) {
        let (p, def) = choose|p: PatId, def: Option<VariantDef>| #[trigger]
            typing::named_by_pattern(env, d, p, def, pair);
        assert(typing::was_met(d, p, pair.1));
        assert(typing::named_by_pattern(env, d2, p, def, pair));
    } else if exists|e: ExprId| #[trigger] typing::without_else(env, s, d, e, pair) {
        let e = choose|e: ExprId| #[trigger] typing::without_else(env, s, d, e, pair);
        if let Expr::If { then_branch, .. } = env.body.expr_seq()[e.0 as int] {
            let x = d.exprs[then_branch.0].expected;
            assert(typing::expects(s, d, then_branch, x));
        }
        assert(typing::without_else(env, after, d2, e, pair));
    } else if exists|e: ExprId, method_ty: TyModel| #[trigger]
        typing::taken_by_method(env, s, d, e, method_ty, pair) {
        let (e, method_ty) = choose|e: ExprId, method_ty: TyModel| #[trigger]
            typing::taken_by_method(env, s, d, e, method_ty, pair);
        if let Expr::MethodCall { receiver, .. } = env.body.expr_seq()[e.0 as int] {
            let x = d.exprs[receiver.0].expected;
            assert(typing::expects(s, d, receiver, x));
        }
        assert(typing::taken_by_method(env, after, d2, e, method_ty, pair));
    } else if exists|goal: TraitRefModel| #[trigger]
        meaning::from_answer(env.db, goal, pair) && typing::goal_has_reason(env, s, d, goal) {
        let goal = choose|goal: TraitRefModel| #[trigger]
            meaning::from_answer(env.db, goal, pair) && typing::goal_has_reason(env, s, d, goal);
        lemma_goal_reason_later(env, pl, s, d, after, d2, goal);
    }
}

proof fn lemma_goal_reason_later<D: HirDatabase>(
    env: Env<D>,
    pl: Places,
    s: Model,
    d: Expected,
    after: Model,
    d2: Expected,
    goal: TraitRefModel,
)
    requires
        follows(pl, s, d, after, d2),
        d2.goals == d.goals,
        typing::goal_has_reason(env, s, d, goal),
    ensures
        typing::goal_has_reason(env, after, d2, goal),
{
    reveal(follows);
    if !d.goals.contains(goal) {
        let (e, method_ty) = choose|e: ExprId, method_ty: TyModel| #[trigger]
            typing::asked_by_call(env, s, d, e, method_ty, goal);
        if let Expr::MethodCall { receiver, .. } = env.body.expr_seq()[e.0 as int] {
            let x = d.exprs[receiver.0].expected;
            assert(typing::expects(s, d, receiver, x));
        }
        assert(typing::asked_by_call(env, after, d2, e, method_ty, goal));
    }
}

/// There is a reason to use the answers to open goals.
pub proof fn lemma_answers_have_reason<D: HirDatabase>(
    env: Env<D>,
    pl: Places,
    s: Model,
    d: Expected,
    pairs: Seq<(TyModel, TyModel)>,
)
    requires
        typing::all_right(env, pl, s, d),
        meaning::all_from_answers(env.db, s.obligations, pairs),
    ensures
        forall|k: int| 0 <= k < pairs.len() ==> typing::has_reason(env, s, d, #[trigger] pairs[k]),
{
    reveal(typing::all_right);
    assert forall|k: int| 0 <= k < pairs.len() implies typing::has_reason(
        env,
        s,
        d,
        #[trigger] pairs[k],
    ) by {
        let i = choose|i: int|
            0 <= i < s.obligations.len() && meaning::from_answer(
                env.db,
                #[trigger] s.obligations[i],
                pairs[k],
            );
        assert(typing::goal_has_reason(env, s, d, s.obligations[i]));
    }
}

/// What was accounted for stays so, if there is a reason for what is learned and told since.
pub proof fn lemma_accounted_later<D: HirDatabase>(
    env: Env<D>,
    pl: Places,
    s: Model,
    d: Expected,
    after: Model,
    d2: Expected,
    more: Seq<(TyModel, TyModel)>,
)
    requires
        follows(pl, s, d, after, d2),
        typing::all_right(env, pl, s, d),
        d2.start == d.start,
        d2.told == d.told,
        d2.goals == d.goals,
        forall|k: int|
            0 <= k < after.obligations.len() ==> s.obligations.contains(
                #[trigger] after.obligations[k],
            ) || typing::goal_has_reason(env, after, d2, after.obligations[k]),
        d2.learned == d.learned + more,
        meaning::teaches(s.vars, after.vars, more),
        forall|k: int|
            0 <= k < more.len() ==> typing::has_reason(env, after, d2, #[trigger] more[k]),
        forall|k: int|
            s.diagnostics.len() <= k < after.diagnostics.len() ==> typing::told_rightly(
                env,
                #[trigger] after.diagnostics[k],
            ),
    ensures
        typing::accounted(env, after, d2),
{
    reveal(typing::all_right);
    lemma_follows_vars(pl, s, d, after, d2);
    meaning::lemma_teaches_both(d.start, s.vars, after.vars, d.learned, more);
    assert forall|k: int| 0 <= k < d2.learned.len() implies typing::has_reason(
        env,
        after,
        d2,
        #[trigger] d2.learned[k],
    ) by {
        if k < d.learned.len() {
            assert(d2.learned[k] == d.learned[k]);
            lemma_reason_later(env, pl, s, d, after, d2, d.learned[k]);
        } else {
            assert(d2.learned[k] == more[k - d.learned.len()]);
        }
    }
    assert forall|k: int|
        0 <= k < after.obligations.len() implies typing::goal_has_reason(
        env,
        after,
        d2,
        #[trigger] after.obligations[k],
    ) by {
        if s.obligations.contains(after.obligations[k]) {
            let j = choose|j: int|
                0 <= j < s.obligations.len() && s.obligations[j] == after.obligations[k];
            assert(typing::goal_has_reason(env, s, d, s.obligations[j]));
            lemma_goal_reason_later(env, pl, s, d, after, d2, after.obligations[k]);
        }
    }
    assert forall|k: int|
        0 <= k < after.diagnostics.len() && d2.told <= k implies typing::told_rightly(
        env,
        #[trigger] after.diagnostics[k],
    ) by {
        if k < s.diagnostics.len() {
            assert(after.diagnostics[k] == s.diagnostics[k]);
        }
    }
}

/// What was right stays right.
pub proof fn lemma_right_later<D: HirDatabase>(
    env: Env<D>,
    pl: Places,
    s: Model,
    d: Expected,
    after: Model,
    d2: Expected,
)
    requires
        follows(pl, s, d, after, d2),
        typing::all_right(env, pl, s, d),
        typing::accounted(env, after, d2),
        forall|e: ExprId| #[trigger]
            d2.exprs.contains_key(e.0) && !d.exprs.contains_key(e.0) ==> typing::expr_ok(
                env,
                pl,
                after,
                d2,
                e,
            ),
        forall|p: PatId| #[trigger]
            d2.pats.contains_key(p.0) && !d.pats.contains_key(p.0) ==> typing::pat_ok(
                env,
                pl,
                after,
                d2,
                p,
            ),
    ensures
        typing::all_right(env, pl, after, d2),
{
    assert forall|e: ExprId| #[trigger] d2.exprs.contains_key(e.0) implies typing::expr_ok(
        env,
        pl,
        after,
        d2,
        e,
    ) by {
        if d.exprs.contains_key(e.0) {
            lemma_expr_later(env, pl, s, d, after, d2, e);
        }
    }
    assert forall|p: PatId| #[trigger] d2.pats.contains_key(p.0) implies typing::pat_ok(
        env,
        pl,
        after,
        d2,
        p,
    ) by {
        if d.pats.contains_key(p.0) {
            lemma_pat_later(env, pl, s, d, after, d2, p);
        }
    }
    reveal(typing::all_right);
}

/// A step in which no type is recorded and nothing learned.
pub proof fn lemma_quiet<D: HirDatabase>(
    env: Env<D>,
    pl: Places,
    s: Model,
    d: Expected,
    after: Model,
    pos: int,
)
    requires
        typing::all_right(env, pl, s, d),
        clear(pl, s, d, pos),
        meaning::narrows(s.vars, after.vars),
        meaning::teaches(s.vars, after.vars, Seq::empty()),
        after.type_of_expr == s.type_of_expr,
        after.type_of_pat == s.type_of_pat,
        after.return_ty == s.return_ty,
        after.obligations == s.obligations,
        s.diagnostics.is_prefix_of(after.diagnostics),
        forall|k: int|
            s.diagnostics.len() <= k < after.diagnostics.len() ==> typing::told_rightly(
                env,
                #[trigger] after.diagnostics[k],
            ),
    ensures
        stepped(env, pl, s, d, after, d, pos),
{
    assert(follows(pl, s, d, after, d) && clear(pl, after, d, pos)) by {
        reveal(follows);
        reveal(clear);
    }
    meaning::lemma_no_goal_lost(env.db, s, after);
    let nothing = Seq::<(TyModel, TyModel)>::empty();
    assert(d.learned + nothing =~= d.learned);
    lemma_accounted_later(env, pl, s, d, after, d, nothing);
    lemma_right_later(env, pl, s, d, after, d);
}

/// A step in which no type is recorded but something learned, with a reason.
pub proof fn lemma_learns<D: HirDatabase>(
    env: Env<D>,
    pl: Places,
    s: Model,
    d: Expected,
    after: Model,
    pos: int,
    more: Seq<(TyModel, TyModel)>,
) -> (d2: Expected)
    requires
        typing::all_right(env, pl, s, d),
        clear(pl, s, d, pos),
        meaning::narrows(s.vars, after.vars),
        meaning::teaches(s.vars, after.vars, more),
        forall|k: int| 0 <= k < more.len() ==> typing::has_reason(env, s, d, #[trigger] more[k]),
        after.type_of_expr == s.type_of_expr,
        after.type_of_pat == s.type_of_pat,
        after.return_ty == s.return_ty,
        forall|goal: TraitRefModel| #[trigger]
            s.obligations.contains(goal) ==> meaning::asked(env.db, after, goal),
        forall|k: int|
            0 <= k < after.obligations.len() ==> s.obligations.contains(
                #[trigger] after.obligations[k],
            ) || typing::goal_has_reason(env, s, d, after.obligations[k]),
        after.diagnostics == s.diagnostics,
    ensures
        d2 == (Expected { learned: d.learned + more, ..d }),
        stepped(env, pl, s, d, after, d2, pos),
{
    let d2 = Expected { learned: d.learned + more, ..d };
    assert(follows(pl, s, d, after, d2) && clear(pl, after, d2, pos)) by {
        reveal(follows);
        reveal(clear);
    }
    assert forall|k: int| 0 <= k < more.len() implies typing::has_reason(
        env,
        after,
        d2,
        #[trigger] more[k],
    ) by {
        lemma_reason_later(env, pl, s, d, after, d2, more[k]);
    }
    assert forall|k: int|
        0 <= k < after.obligations.len() implies s.obligations.contains(
        #[trigger] after.obligations[k],
    ) || typing::goal_has_reason(env, after, d2, after.obligations[k]) by {
        if !s.obligations.contains(after.obligations[k]) {
            lemma_goal_reason_later(env, pl, s, d, after, d2, after.obligations[k]);
        }
    }
    meaning::lemma_no_goal_lost(env.db, s, after);
    lemma_accounted_later(env, pl, s, d, after, d2, more);
    lemma_right_later(env, pl, s, d, after, d2);
    d2
}

/// A pattern that names a variant comes to be matched with some type.
pub proof fn lemma_pattern_met<D: HirDatabase>(
    env: Env<D>,
    pl: Places,
    s: Model,
    d: Expected,
    pos: int,
    p: PatId,
    x: TyModel,
) -> (d2: Expected)
    requires
        typing::all_right(env, pl, s, d),
        clear(pl, s, d, pos),
        pos <= pl.pat_start[p.0],
    ensures
        d2 == (Expected { met: d.met.insert(p.0, x), ..d }),
        typing::was_met(d2, p, x),
        stepped(env, pl, s, d, s, d2, pl.pat_start[p.0] + 1),
{
    let d2 = Expected { met: d.met.insert(p.0, x), ..d };
    meaning::lemma_narrows_same(s.vars);
    assert(!d.met.contains_key(p.0)) by {
        reveal(clear);
    }
    assert forall|q: PatId, y: TyModel| #[trigger] typing::was_met(d, q, y) implies
        typing::was_met(d2, q, y) by {
        assert(q.0 != p.0);
    }
    assert(follows(pl, s, d, s, d2) && clear(pl, s, d2, pl.pat_start[p.0] + 1)) by {
        reveal(follows);
        reveal(clear);
    }
    let nothing = Seq::<(TyModel, TyModel)>::empty();
    assert(d.learned + nothing =~= d.learned);
    lemma_accounted_later(env, pl, s, d, s, d2, nothing);
    lemma_right_later(env, pl, s, d, s, d2);
    d2
}

/// A state further on is clear too.
pub proof fn lemma_clear_further(pl: Places, s: Model, d: Expected, pos: int, further: int)
    requires
        clear(pl, s, d, pos),
        pos <= further,
    ensures
        clear(pl, s, d, further),
{
    reveal(clear);
}

/// The type of an expression that its rule gives is recorded.
pub proof fn lemma_expr_recorded<D: HirDatabase>(
    env: Env<D>,
    pl: Places,
    s: Model,
    ks: Seq<Kind>,
    d: Expected,
    pos: int,
    e: ExprId,
    t: TyModel,
    x: TyModel,
) -> (d2: Expected)
    requires
        ready(env, pl, s, ks, d, pos),
        pos < pl.expr_end[e.0],
        kinds::well_kinded(t, ks),
        kinds::well_kinded(x, ks),
        typing::rule_ok(env, pl, s, d, e, x, t),
    ensures
        rules::record_expr(env, s, e, t, x) matches Ok((after, u)) ==> {
            &&& stepped(env, pl, s, d, after, d2, pl.expr_end[e.0])
            &&& typing::expects(after, d2, e, x)
            &&& after.type_of_expr[e.0] == u
        },
{
    broadcast use {meaning::group_later, group_follows};

    reveal(rules::record_expr);
    let pairs = meaning::lemma_taken(env.db, s, ks, t, x);
    if let Ok((after, u)) = rules::record_expr(env, s, e, t, x) {
        let taken = context::insert_shallow_in(s, t)->Ok_0.1;
        let more = seq![(taken, x)] + pairs;
        let wanted = Wanted { expected: x, taken };
        let d2 = Expected {
            exprs: d.exprs.insert(e.0, wanted),
            learned: d.learned + more,
            ..d
        };
        assert(!d.exprs.contains_key(e.0)) by {
            reveal(clear);
        }
        assert(follows(pl, s, d, after, d2)) by {
            reveal(follows);
        }
        assert(clear(pl, after, d2, pl.expr_end[e.0]) && forall|p: PatId| #[trigger]
            d.pats.contains_key(p.0) ==> s.type_of_pat.contains_key(p.0)) by {
            reveal(clear);
        }
        lemma_rule_later(env, pl, s, d, after, d2, e, x, t);
        assert(typing::expr_ok(env, pl, after, d2, e));
        assert forall|other: ExprId| #[trigger]
            d2.exprs.contains_key(other.0) && !d.exprs.contains_key(
                other.0,
            ) implies typing::expr_ok(env, pl, after, d2, other) by {
            assert(other == e);
        }
        assert forall|k: int| 0 <= k < more.len() implies typing::has_reason(
            env,
            after,
            d2,
            #[trigger] more[k],
        ) by {
            if k == 0 {
                assert(typing::expected_of_expr(d2, e, more[0]));
            } else {
                assert(more[k] == pairs[k - 1]);
                lemma_answers_have_reason(env, pl, s, d, pairs);
                lemma_reason_later(env, pl, s, d, after, d2, pairs[k - 1]);
            }
        }
        lemma_accounted_later(env, pl, s, d, after, d2, more);
        lemma_right_later(env, pl, s, d, after, d2);
        d2
    } else {
        d
    }
}

/// The type of a pattern that its rule gives is recorded.
pub proof fn lemma_pat_recorded<D: HirDatabase>(
    env: Env<D>,
    pl: Places,
    s: Model,
    ks: Seq<Kind>,
    d: Expected,
    pos: int,
    p: PatId,
    outer: TyModel,
    mode: BindingMode,
    t: TyModel,
    x: TyModel,
    m: BindingMode,
) -> (d2: Expected)
    requires
        ready(env, pl, s, ks, d, pos),
        pos < pl.pat_end[p.0],
        kinds::well_kinded(t, ks),
        kinds::well_kinded(x, ks),
        !(env.body.pat_seq()[p.0 as int] is Bind),
        typing::meets(env.body.pat_seq()[p.0 as int], outer, mode, x, m),
        typing::pat_rule_ok(env, pl, s, d, p, x, m, t),
    ensures
        pat::record_pat(env, s, p, t, x) matches Ok((after, u)) ==> {
            &&& stepped(env, pl, s, d, after, d2, pl.pat_end[p.0])
            &&& typing::matches_with(after, d2, p, outer, mode)
            &&& d2.pats[p.0].given == u
        },
{
    broadcast use {meaning::group_later, group_follows};

    reveal(pat::record_pat);
    let pairs = meaning::lemma_taken(env.db, s, ks, t, x);
    if let Ok((after, u)) = pat::record_pat(env, s, p, t, x) {
        let taken = context::insert_shallow_in(s, t)->Ok_0.1;
        let more = seq![(taken, x)] + pairs;
        let seen = Matched { expected: outer, mode, taken, given: u };
        let d2 = Expected { pats: d.pats.insert(p.0, seen), learned: d.learned + more, ..d };
        assert(!d.pats.contains_key(p.0)) by {
            reveal(clear);
        }
        assert(follows(pl, s, d, after, d2)) by {
            reveal(follows);
            reveal(clear);
        }
        assert(clear(pl, after, d2, pl.pat_end[p.0]) && forall|q: PatId| #[trigger]
            d.pats.contains_key(q.0) ==> s.type_of_pat.contains_key(q.0)) by {
            reveal(clear);
        }
        lemma_pat_rule_later(env, pl, s, d, after, d2, p, x, m, t);
        assert(typing::pat_ok(env, pl, after, d2, p));
        assert forall|other: PatId| #[trigger]
            d2.pats.contains_key(other.0) && !d.pats.contains_key(other.0) implies typing::pat_ok(
            env,
            pl,
            after,
            d2,
            other,
        ) by {
            assert(other == p);
        }
        assert forall|k: int| 0 <= k < more.len() implies typing::has_reason(
            env,
            after,
            d2,
            #[trigger] more[k],
        ) by {
            if k == 0 {
                assert(more[0] == (taken, x));
                assert(typing::meets(env.body.pat_seq()[p.0 as int], outer, mode, more[0].1, m));
                assert(typing::expected_of_pat(env, d2, p, more[0]));
            } else {
                assert(more[k] == pairs[k - 1]);
                lemma_answers_have_reason(env, pl, s, d, pairs);
                lemma_reason_later(env, pl, s, d, after, d2, pairs[k - 1]);
            }
        }
        lemma_accounted_later(env, pl, s, d, after, d2, more);
        lemma_right_later(env, pl, s, d, after, d2);
        d2
    } else {
        d
    }
}

/// The type of a binding is recorded.
pub proof fn lemma_binding_recorded<D: HirDatabase>(
    env: Env<D>,
    pl: Places,
    s: Model,
    ks: Seq<Kind>,
    d: Expected,
    pos: int,
    p: PatId,
    x: TyModel,
    m: BindingMode,
    annotation: body::BindingAnnotation,
    sub: Option<PatId>,
    inner: TyModel,
) -> (d2: Expected)
    requires
        ready(env, pl, s, ks, d, pos),
        pos < pl.pat_end[p.0],
        kinds::well_kinded(inner, ks),
        env.body.pat_seq()[p.0 as int] matches Pat::Bind { mode: a, subpat, .. } && a == annotation
            && subpat == sub,
        match sub {
            Some(sub) => typing::matches_with(s, d, sub, x, m) && d.pats[sub.0].given == inner,
            None => inner == x,
        },
    ensures
        pat::record_binding(env, s, p, typing::own_mode(annotation, m), inner) matches Ok(
            (after, u),
        ) ==> {
            &&& stepped(env, pl, s, d, after, d2, pl.pat_end[p.0])
            &&& typing::matches_with(after, d2, p, x, m)
            &&& d2.pats[p.0].given == u
        },
{
    broadcast use {meaning::group_later, group_follows};

    reveal(pat::record_binding);
    let more = meaning::lemma_kept(env.db, s, ks, inner);
    if let Ok((after, u)) = pat::record_binding(
        env,
        s,
        p,
        typing::own_mode(annotation, m),
        inner,
    ) {
        let taken = context::insert_shallow_in(s, inner)->Ok_0.1;
        let seen = Matched { expected: x, mode: m, taken, given: u };
        let d2 = Expected { pats: d.pats.insert(p.0, seen), learned: d.learned + more, ..d };
        assert(!d.pats.contains_key(p.0)) by {
            reveal(clear);
        }
        assert(follows(pl, s, d, after, d2)) by {
            reveal(follows);
            reveal(clear);
        }
        assert(clear(pl, after, d2, pl.pat_end[p.0])) by {
            reveal(clear);
        }
        assert(typing::meets(env.body.pat_seq()[p.0 as int], x, m, x, m));
        assert(typing::binding_ok(after, d2, p, annotation, sub, x, m, taken, u));
        assert(typing::pat_ok(env, pl, after, d2, p));
        assert forall|other: PatId| #[trigger]
            d2.pats.contains_key(other.0) && !d.pats.contains_key(other.0) implies typing::pat_ok(
            env,
            pl,
            after,
            d2,
            other,
        ) by {
            assert(other == p);
        }
        assert forall|k: int| 0 <= k < more.len() implies typing::has_reason(
            env,
            after,
            d2,
            #[trigger] more[k],
        ) by {
            lemma_answers_have_reason(env, pl, s, d, more);
            lemma_reason_later(env, pl, s, d, after, d2, more[k]);
        }
        lemma_accounted_later(env, pl, s, d, after, d2, more);
        lemma_right_later(env, pl, s, d, after, d2);
        d2
    } else {
        d
    }
}

} // verus!
