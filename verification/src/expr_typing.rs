//! The types recorded for expressions are right.

use vstd::prelude::*;

use crate::body::{
    Array, BinaryOp, Expr, GenericArgs, MatchArm, Path, Statement, StructLitField, UnaryOp,
};
use crate::context::{Env, Model};
use crate::db::{HirDatabase, TraitRefModel};
use crate::defs::{ExprId, ExprOrPatId, PatId, Resolver, TypeRef, VariantDef};
use crate::kinds::Kind;
use crate::pat::BindingMode;
use crate::primitive::IntTy;
use crate::ty::{Mutability, TyModel, TypeCtor};
use crate::typing::{Expected, Places};
use crate::{
    body, call, context, expr, expr_upkeep, kinds, leaf_typing, meaning, pat, pat_typing,
    pat_upkeep, path, rules, settled, step_laws, ty, typing, typing_steps, unify, upkeep,
};

verus! {

/// Whether an expression has a type, under an expectation.
pub open spec fn typed(s: Model, d: Expected, e: ExprId, x: TyModel, t: TyModel) -> bool {
    typing::expects(s, d, e, x) && s.type_of_expr[e.0] == t
}

/// Whether all is as it should be before the rule for an expression is used.
pub open spec fn rule_ready<D: HirDatabase>(
    env: Env<D>,
    pl: Places,
    s: Model,
    ks: Seq<Kind>,
    d: Expected,
    e: ExprId,
    x: TyModel,
) -> bool {
    &&& typing_steps::ready(env, pl, s, ks, d, pl.expr_start[e.0])
    &&& e.0 < env.body.expr_seq().len()
    &&& kinds::well_kinded(x, ks)
    &&& parts_end(env, pl, e) >= 0
}

/// The place behind the parts of an expression.
pub open spec fn parts_end<D: HirDatabase>(env: Env<D>, pl: Places, e: ExprId) -> int {
    typing::next_parts(pl, pl.expr_start[e.0], env.body.expr_seq()[e.0 as int])
}

/// Whether the rule for an expression, if it gives a type, is used as it should be.
pub open spec fn rule_used<D: HirDatabase>(
    env: Env<D>,
    pl: Places,
    s: Model,
    d: Expected,
    e: ExprId,
    x: TyModel,
    d2: Expected,
) -> bool {
    expr::rule_ty(env, s, e, x) matches Ok((after, t)) ==> {
        &&& typing_steps::stepped(env, pl, s, d, after, d2, parts_end(env, pl, e))
        &&& typing::rule_ok(env, pl, after, d2, e, x, t)
    }
}

/// Whether an expression, if it is given a type, is given the right one, and so is what it
/// is made of.
pub open spec fn expr_typed<D: HirDatabase>(
    env: Env<D>,
    pl: Places,
    s: Model,
    d: Expected,
    e: ExprId,
    x: TyModel,
    d2: Expected,
) -> bool {
    expr::expr_ty(env, s, e, x) matches Ok((after, t)) ==> {
        &&& typing_steps::stepped(env, pl, s, d, after, d2, pl.expr_end[e.0])
        &&& typed(after, d2, e, x, t)
    }
}

/// The type recorded for an expression is right, and so are those recorded for what it is
/// made of.
pub proof fn lemma_expr<D: HirDatabase>(
    env: Env<D>,
    pl: Places,
    s: Model,
    ks: Seq<Kind>,
    d: Expected,
    pos: int,
    e: ExprId,
    x: TyModel,
) -> (d2: Expected)
    requires
        typing_steps::ready(env, pl, s, ks, d, pos),
        e.0 < env.body.expr_seq().len(),
        kinds::well_kinded(x, ks),
        typing::next_expr(pl, pos, e) >= 0,
    ensures
        expr_typed(env, pl, s, d, e, x, d2),
    decreases e.0, 4nat, 0nat, 0nat, 0nat,
{
    broadcast use {meaning::group_later, typing_steps::group_follows, leaf_typing::group_next};

    let start = pl.expr_start[e.0];
    let end = parts_end(env, pl, e);
    typing_steps::lemma_clear_further(pl, s, d, pos, start);
    assert(0 <= end < pl.expr_end[e.0]) by {
        reveal(typing::in_order);
    }
    let d1 = lemma_rule(env, pl, s, ks, d, e, x);
    let k1 = expr_upkeep::lemma_rule_ty(env, s, ks, e, x);
    if let Ok((s1, t)) = expr::rule_ty(env, s, e, x) {
        kinds::lemma_well_kinded_extends(x, ks, k1);
        typing_steps::lemma_expr_recorded(env, pl, s1, k1, d1, end, e, t, x)
    } else {
        d
    }
}

/// The same, with the kinds of the variables afterwards.
proof fn visit<D: HirDatabase>(
    env: Env<D>,
    pl: Places,
    s: Model,
    ks: Seq<Kind>,
    d: Expected,
    pos: int,
    e: ExprId,
    x: TyModel,
) -> (r: (Expected, Seq<Kind>))
    requires
        typing_steps::ready(env, pl, s, ks, d, pos),
        e.0 < env.body.expr_seq().len(),
        kinds::well_kinded(x, ks),
        typing::next_expr(pl, pos, e) >= 0,
    ensures
        expr_typed(env, pl, s, d, e, x, r.0),
        expr_upkeep::expr_kept(env, s, ks, e, x, r.1),
    decreases e.0, 5nat, 0nat, 0nat, 0nat,
{
    let d1 = lemma_expr(env, pl, s, ks, d, pos, e, x);
    let k1 = expr_upkeep::lemma_expr_ty(env, s, ks, e, x);
    (d1, k1)
}

/// The rule for an expression is used as it should be.
proof fn lemma_rule<D: HirDatabase>(
    env: Env<D>,
    pl: Places,
    s: Model,
    ks: Seq<Kind>,
    d: Expected,
    e: ExprId,
    x: TyModel,
) -> (d2: Expected)
    requires
        rule_ready(env, pl, s, ks, d, e, x),
    ensures
        rule_used(env, pl, s, d, e, x, d2),
    decreases e.0, 3nat, 0nat, 0nat, 0nat,
{
    match env.body.expr_seq()[e.0 as int] {
        Expr::If { .. } => lemma_if(env, pl, s, ks, d, e, x),
        Expr::Block { .. } => lemma_block(env, pl, s, ks, d, e, x),
        Expr::Loop { .. } => lemma_loop(env, pl, s, ks, d, e, x),
        Expr::While { .. } => lemma_while(env, pl, s, ks, d, e, x),
        Expr::For { .. } => lemma_for(env, pl, s, ks, d, e, x),
        Expr::Lambda { .. } => lemma_closure(env, pl, s, ks, d, e, x),
        Expr::Call { .. } => lemma_call(env, pl, s, ks, d, e, x),
        Expr::MethodCall { .. } => lemma_method_call(env, pl, s, ks, d, e, x),
        Expr::Match { .. } => lemma_match(env, pl, s, ks, d, e, x),
        Expr::Path(_) => lemma_path(env, pl, s, ks, d, e, x),
        Expr::Break { .. } => lemma_break(env, pl, s, ks, d, e, x),
        Expr::Return { .. } => lemma_return(env, pl, s, ks, d, e, x),
        Expr::StructLit { .. } => lemma_struct_lit(env, pl, s, ks, d, e, x),
        Expr::Field { .. } => lemma_field(env, pl, s, ks, d, e, x),
        Expr::Try { .. } => lemma_try(env, pl, s, ks, d, e, x),
        Expr::Cast { .. } => lemma_cast(env, pl, s, ks, d, e, x),
        Expr::Ref { .. } => lemma_ref(env, pl, s, ks, d, e, x),
        Expr::UnaryOp { .. } => lemma_unary(env, pl, s, ks, d, e, x),
        Expr::BinaryOp { .. } => lemma_binary(env, pl, s, ks, d, e, x),
        Expr::Tuple { .. } => lemma_tuple(env, pl, s, ks, d, e, x),
        Expr::Array(_) => lemma_array(env, pl, s, ks, d, e, x),
        _ => {
            meaning::lemma_narrows_same(s.vars);
            typing_steps::lemma_quiet(env, pl, s, d, s, pl.expr_start[e.0]);
            d
        },
    }
}

proof fn lemma_if<D: HirDatabase>(
    env: Env<D>,
    pl: Places,
    s: Model,
    ks: Seq<Kind>,
    d: Expected,
    e: ExprId,
    x: TyModel,
) -> (d2: Expected)
    requires
        rule_ready(env, pl, s, ks, d, e, x),
        env.body.expr_seq()[e.0 as int] is If,
    ensures
        rule_used(env, pl, s, d, e, x, d2),
    decreases e.0, 2nat, 0nat, 0nat, 0nat,
{
    broadcast use {meaning::group_later, typing_steps::group_follows, leaf_typing::group_next};

    let start = pl.expr_start[e.0];
    let node = env.body.expr_seq()[e.0 as int];
    assert(node.below(e.0 as nat, env.body.pat_seq()));
    if let Expr::If { condition, then_branch, else_branch } = node {
        let bool_ty = rules::bool_ty();
        let p1 = typing::next_expr(pl, start, condition);
        let p2 = typing::next_expr(pl, p1, then_branch);
        let (d1, k1) = visit(env, pl, s, ks, d, start, condition, bool_ty);
        if let Ok((s1, _)) = expr::expr_ty(env, s, condition, bool_ty) {
            kinds::lemma_well_kinded_extends(x, ks, k1);
            let (d2, k2) = visit(env, pl, s1, k1, d1, p1, then_branch, x);
            if let Ok((s2, then_ty)) = expr::expr_ty(env, s1, then_branch, x) {
                match else_branch {
                    Some(other) => {
                        kinds::lemma_well_kinded_extends(x, k1, k2);
                        let (d3, _) = visit(env, pl, s2, k2, d2, p2, other, x);
                        d3
                    },
                    None => {
                        upkeep::lemma_sound_parts(env.db, s2, k2);
                        if let Ok((s3, ok)) = context::unify_in(s2, then_ty, ty::unit()) {
                            meaning::lemma_unified(s2.vars, then_ty, ty::unit(), s3.vars, ok);
                            let pair = (then_ty, ty::unit());
                            assert(typing::without_else(env, s2, d2, e, pair));
                            typing_steps::lemma_learns(env, pl, s2, d2, s3, p2, seq![pair])
                        } else {
                            d
                        }
                    },
                }
            } else {
                d
            }
        } else {
            d
        }
    } else {
        d
    }
}

proof fn lemma_block<D: HirDatabase>(
    env: Env<D>,
    pl: Places,
    s: Model,
    ks: Seq<Kind>,
    d: Expected,
    e: ExprId,
    x: TyModel,
) -> (d2: Expected)
    requires
        rule_ready(env, pl, s, ks, d, e, x),
        env.body.expr_seq()[e.0 as int] is Block,
    ensures
        rule_used(env, pl, s, d, e, x, d2),
    decreases e.0, 2nat, 0nat, 0nat, 0nat,
{
    broadcast use {meaning::group_later, typing_steps::group_follows, leaf_typing::group_next};

    let start = pl.expr_start[e.0];
    let node = env.body.expr_seq()[e.0 as int];
    assert(node.below(e.0 as nat, env.body.pat_seq()));
    if let Expr::Block { statements, tail } = node {
        let d1 = lemma_statements(env, pl, s, ks, d, start, e, statements@);
        let k1 = expr_upkeep::lemma_after_statements(env, s, ks, e, statements@);
        let p1 = typing::next_statements(pl, start, statements@);
        if let Ok(s1) = expr::after_statements(env, s, e, statements@) {
            match tail {
                Some(tail) => {
                    kinds::lemma_well_kinded_extends(x, ks, k1);
                    let (d2, _) = visit(env, pl, s1, k1, d1, p1, tail, x);
                    if let Ok((s2, _)) = expr::expr_ty(env, s1, tail, x) {
                        assert forall|i: int|
                            0 <= i < statements@.len() implies typing::statement_ok(
                            env,
                            s2,
                            d2,
                            #[trigger] statements@[i],
                        ) by {
                            typing_steps::lemma_statement_later(
                                env,
                                pl,
                                s1,
                                d1,
                                s2,
                                d2,
                                statements@[i],
                            );
                        }
                    }
                    d2
                },
                None => d1,
            }
        } else {
            d
        }
    } else {
        d
    }
}

proof fn lemma_loop<D: HirDatabase>(
    env: Env<D>,
    pl: Places,
    s: Model,
    ks: Seq<Kind>,
    d: Expected,
    e: ExprId,
    x: TyModel,
) -> (d2: Expected)
    requires
        rule_ready(env, pl, s, ks, d, e, x),
        env.body.expr_seq()[e.0 as int] is Loop,
    ensures
        rule_used(env, pl, s, d, e, x, d2),
    decreases e.0, 2nat, 0nat, 0nat, 0nat,
{
    broadcast use {meaning::group_later, typing_steps::group_follows, leaf_typing::group_next};

    let start = pl.expr_start[e.0];
    let node = env.body.expr_seq()[e.0 as int];
    assert(node.below(e.0 as nat, env.body.pat_seq()));
    if let Expr::Loop { body } = node {
        let (d1, _) = visit(env, pl, s, ks, d, start, body, ty::unit());
        d1
    } else {
        d
    }
}

proof fn lemma_while<D: HirDatabase>(
    env: Env<D>,
    pl: Places,
    s: Model,
    ks: Seq<Kind>,
    d: Expected,
    e: ExprId,
    x: TyModel,
) -> (d2: Expected)
    requires
        rule_ready(env, pl, s, ks, d, e, x),
        env.body.expr_seq()[e.0 as int] is While,
    ensures
        rule_used(env, pl, s, d, e, x, d2),
    decreases e.0, 2nat, 0nat, 0nat, 0nat,
{
    broadcast use {meaning::group_later, typing_steps::group_follows, leaf_typing::group_next};

    let start = pl.expr_start[e.0];
    let node = env.body.expr_seq()[e.0 as int];
    assert(node.below(e.0 as nat, env.body.pat_seq()));
    if let Expr::While { condition, body } = node {
        let bool_ty = rules::bool_ty();
        let p1 = typing::next_expr(pl, start, condition);
        let (d1, k1) = visit(env, pl, s, ks, d, start, condition, bool_ty);
        if let Ok((s1, _)) = expr::expr_ty(env, s, condition, bool_ty) {
            let (d2, _) = visit(env, pl, s1, k1, d1, p1, body, ty::unit());
            d2
        } else {
            d
        }
    } else {
        d
    }
}

proof fn lemma_for<D: HirDatabase>(
    env: Env<D>,
    pl: Places,
    s: Model,
    ks: Seq<Kind>,
    d: Expected,
    e: ExprId,
    x: TyModel,
) -> (d2: Expected)
    requires
        rule_ready(env, pl, s, ks, d, e, x),
        env.body.expr_seq()[e.0 as int] is For,
    ensures
        rule_used(env, pl, s, d, e, x, d2),
    decreases e.0, 2nat, 0nat, 0nat, 0nat,
{
    broadcast use {meaning::group_later, typing_steps::group_follows, leaf_typing::group_next};

    let start = pl.expr_start[e.0];
    let node = env.body.expr_seq()[e.0 as int];
    assert(node.below(e.0 as nat, env.body.pat_seq()));
    if let Expr::For { iterable, pat, body } = node {
        let unknown = TyModel::Unknown;
        let p1 = typing::next_expr(pl, start, iterable);
        let p2 = typing::next_pat(pl, p1, pat);
        let (d1, k1) = visit(env, pl, s, ks, d, start, iterable, unknown);
        if let Ok((s1, _)) = expr::expr_ty(env, s, iterable, unknown) {
            let mode = BindingMode::Move;
            let d2 = pat_typing::lemma_pat(env, pl, s1, k1, d1, p1, pat, unknown, mode);
            let k2 = pat_upkeep::lemma_pat_ty(env, s1, k1, pat, unknown, mode);
            if let Ok((s2, _)) = pat::pat_ty(env, s1, pat, unknown, mode) {
                let (d3, _) = visit(env, pl, s2, k2, d2, p2, body, ty::unit());
                d3
            } else {
                d
            }
        } else {
            d
        }
    } else {
        d
    }
}

proof fn lemma_closure<D: HirDatabase>(
    env: Env<D>,
    pl: Places,
    s: Model,
    ks: Seq<Kind>,
    d: Expected,
    e: ExprId,
    x: TyModel,
) -> (d2: Expected)
    requires
        rule_ready(env, pl, s, ks, d, e, x),
        env.body.expr_seq()[e.0 as int] is Lambda,
    ensures
        rule_used(env, pl, s, d, e, x, d2),
    decreases e.0, 2nat, 0nat, 0nat, 0nat,
{
    broadcast use {meaning::group_later, typing_steps::group_follows, leaf_typing::group_next};

    let start = pl.expr_start[e.0];
    let node = env.body.expr_seq()[e.0 as int];
    assert(node.below(e.0 as nat, env.body.pat_seq()));
    if let Expr::Lambda { args, arg_types, body } = node {
        if args@.len() == arg_types@.len() {
            let d1 = lemma_closure_params(env, pl, s, ks, d, start, e, args@, arg_types@);
            let k1 = expr_upkeep::lemma_closure_params(env, s, ks, e, args@, arg_types@);
            let p1 = typing::next_pats(pl, start, args@);
            if let Ok(s1) = expr::closure_params(env, s, e, args@, arg_types@) {
                let (d2, _) = visit(env, pl, s1, k1, d1, p1, body, TyModel::Unknown);
                if let Ok((s2, _)) = expr::expr_ty(env, s1, body, TyModel::Unknown) {
                    assert forall|i: int| 0 <= i < args@.len() implies typing::closure_param_ok(
                        env,
                        s2,
                        d2,
                        #[trigger] args@[i],
                        arg_types@[i],
                    ) by {
                        lemma_closure_param_later(env, pl, s1, d1, s2, d2, args@[i], arg_types@[i]);
                    }
                }
                d2
            } else {
                d
            }
        } else {
            d
        }
    } else {
        d
    }
}

proof fn lemma_call<D: HirDatabase>(
    env: Env<D>,
    pl: Places,
    s: Model,
    ks: Seq<Kind>,
    d: Expected,
    e: ExprId,
    x: TyModel,
) -> (d2: Expected)
    requires
        rule_ready(env, pl, s, ks, d, e, x),
        env.body.expr_seq()[e.0 as int] is Call,
    ensures
        rule_used(env, pl, s, d, e, x, d2),
    decreases e.0, 2nat, 0nat, 0nat, 0nat,
{
    broadcast use {meaning::group_later, typing_steps::group_follows, leaf_typing::group_next};

    let start = pl.expr_start[e.0];
    let node = env.body.expr_seq()[e.0 as int];
    assert(node.below(e.0 as nat, env.body.pat_seq()));
    if let Expr::Call { callee, args } = node {
        let unknown = TyModel::Unknown;
        let p1 = typing::next_expr(pl, start, callee);
        let (d1, k1) = visit(env, pl, s, ks, d, start, callee, unknown);
        if let Ok((s1, callee_ty)) = expr::expr_ty(env, s, callee, unknown) {
            let sig = env.db.signature_of_callable(callee_ty);
            let (params, ret) = match sig {
                Some(sig) => (sig.params, sig.ret),
                None => (Seq::empty(), unknown),
            };
            assert(kinds::all_well_kinded(params, k1));
            let d2 = lemma_args(env, pl, s1, k1, d1, p1, e, args@, params);
            d2
        } else {
            d
        }
    } else {
        d
    }
}

proof fn lemma_method_call<D: HirDatabase>(
    env: Env<D>,
    pl: Places,
    s: Model,
    ks: Seq<Kind>,
    d: Expected,
    e: ExprId,
    x: TyModel,
) -> (d2: Expected)
    requires
        rule_ready(env, pl, s, ks, d, e, x),
        env.body.expr_seq()[e.0 as int] is MethodCall,
    ensures
        rule_used(env, pl, s, d, e, x, d2),
    decreases e.0, 2nat, 0nat, 0nat, 0nat,
{
    broadcast use {meaning::group_later, typing_steps::group_follows, leaf_typing::group_next};

    let start = pl.expr_start[e.0];
    let node = env.body.expr_seq()[e.0 as int];
    assert(node.below(e.0 as nat, env.body.pat_seq()));
    if let Expr::MethodCall { receiver, method_name, args, generic_args } = node {
        let unknown = TyModel::Unknown;
        let name = method_name@;
        let p1 = typing::next_expr(pl, start, receiver);
        let (d1, k1) = visit(env, pl, s, ks, d, start, receiver, unknown);
        if let Ok((s1, receiver_ty)) = expr::expr_ty(env, s, receiver, unknown) {
            let (method_ty, pair) = leaf_typing::lemma_method_callee(
                env,
                s1,
                k1,
                e,
                receiver_ty,
                name,
                generic_args,
            );
            let k2 = expr_upkeep::lemma_method_callee(
                env,
                s1,
                k1,
                e,
                receiver_ty,
                name,
                generic_args,
            );
            if let Ok((s2, (params, ret))) = call::method_callee(
                env,
                s1,
                e,
                receiver_ty,
                name,
                generic_args,
            ) {
                assert(typing::taken_by_method(env, s1, d1, e, method_ty, pair));
                assert forall|k: int|
                    0 <= k < s2.obligations.len() implies s1.obligations.contains(
                    #[trigger] s2.obligations[k],
                ) || typing::goal_has_reason(env, s1, d1, s2.obligations[k]) by {
                    if k < s1.obligations.len() {
                        assert(s2.obligations[k] == s1.obligations[k]);
                    } else {
                        let goal = s2.obligations[k];
                        assert(typing::asked_by_call(env, s1, d1, e, method_ty, goal));
                    }
                }
                assert forall|goal: TraitRefModel| #[trigger]
                    s1.obligations.contains(goal) implies meaning::asked(env.db, s2, goal) by {
                    let k = choose|k: int|
                        0 <= k < s1.obligations.len() && s1.obligations[k] == goal;
                    assert(s2.obligations[k] == goal);
                }
                let d2 = typing_steps::lemma_learns(env, pl, s1, d1, s2, p1, seq![pair]);
                let d3 = lemma_args(env, pl, s2, k2, d2, p1, e, args@, params);
                let k3 = expr_upkeep::lemma_after_args(env, s2, k2, e, args@, params);
                if let Ok(s3) = expr::after_args(env, s2, e, args@, params) {
                    kinds::lemma_well_kinded_extends(ret, k2, k3);
                    upkeep::lemma_sound_parts(env.db, s3, k3);
                    meaning::lemma_resolved_same(env.db, k3, s3, ret);
                    upkeep::lemma_resolved_in(env.db, s3, k3, ret);
                    let pairs = meaning::lemma_resolved_teaches(env.db, k3, s3, ret);
                    if let Ok((s4, t)) = context::resolved(env.db, s3, ret) {
                        let p3 = typing::next_exprs(pl, p1, args@);
                        typing_steps::lemma_answers_have_reason(env, pl, s3, d3, pairs);
                        let d4 = typing_steps::lemma_learns(env, pl, s3, d3, s4, p3, pairs);
                        assert(typing::stands_for(s4, t, ret));
                        assert forall|goal: TraitRefModel|
                            #[trigger] step_laws::is_goal_of(
                                env.db,
                                method_ty,
                                goal,
                            ) implies meaning::used(env.db, s4.vars, goal) by {
                            let last = s2.obligations.last();
                            assert(goal.substs =~= last.substs);
                            assert(goal == last);
                            assert(s2.obligations.contains(goal));
                            assert(meaning::asked(env.db, s2, goal));
                            assert(meaning::asked(env.db, s3, goal));
                            meaning::lemma_no_goal_lost(env.db, s3, s4);
                            assert(meaning::asked(env.db, s4, goal));
                            meaning::lemma_used_later(env.db, s3.vars, s4.vars, goal);
                        }
                        assert(typing::args_ok(s4, d4, args@, params));
                        assert(typing::method_call_ok(
                            env,
                            s4,
                            d4,
                            receiver_ty,
                            name,
                            generic_args,
                            args@,
                            t,
                        ));
                        d4
                    } else {
                        d
                    }
                } else {
                    d
                }
            } else {
                d
            }
        } else {
            d
        }
    } else {
        d
    }
}

proof fn lemma_match<D: HirDatabase>(
    env: Env<D>,
    pl: Places,
    s: Model,
    ks: Seq<Kind>,
    d: Expected,
    e: ExprId,
    x: TyModel,
) -> (d2: Expected)
    requires
        rule_ready(env, pl, s, ks, d, e, x),
        env.body.expr_seq()[e.0 as int] is Match,
    ensures
        rule_used(env, pl, s, d, e, x, d2),
    decreases e.0, 2nat, 0nat, 0nat, 0nat,
{
    broadcast use {meaning::group_later, typing_steps::group_follows, leaf_typing::group_next};

    let start = pl.expr_start[e.0];
    let node = env.body.expr_seq()[e.0 as int];
    assert(node.below(e.0 as nat, env.body.pat_seq()));
    if let Expr::Match { expr, arms } = node {
        let unknown = TyModel::Unknown;
        let k1 = if x == unknown {
            upkeep::lemma_new_type_var_in(s, ks)
        } else {
            ks
        };
        upkeep::lemma_keeps_same(s, ks);
        meaning::lemma_narrows_same(s.vars);
        meaning::lemma_new_var(s.vars);
        let p1 = typing::next_expr(pl, start, expr);
        if let Ok((s1, arm_x)) = rules::arm_expectation(s, x) {
            typing_steps::lemma_quiet(env, pl, s, d, s1, start);
            let (d2, k2) = visit(env, pl, s1, k1, d, start, expr, unknown);
            if let Ok((s2, input)) = expr::expr_ty(env, s1, expr, unknown) {
                kinds::lemma_well_kinded_extends(arm_x, k1, k2);
                lemma_arms(env, pl, s2, k2, d2, p1, e, arms@, input, arm_x)
            } else {
                d
            }
        } else {
            d
        }
    } else {
        d
    }
}

proof fn lemma_path<D: HirDatabase>(
    env: Env<D>,
    pl: Places,
    s: Model,
    ks: Seq<Kind>,
    d: Expected,
    e: ExprId,
    x: TyModel,
) -> (d2: Expected)
    requires
        rule_ready(env, pl, s, ks, d, e, x),
        env.body.expr_seq()[e.0 as int] is Path,
    ensures
        rule_used(env, pl, s, d, e, x, d2),
    decreases e.0, 2nat, 0nat, 0nat, 0nat,
{
    broadcast use {meaning::group_later, typing_steps::group_follows, leaf_typing::group_next};

    let start = pl.expr_start[e.0];
    let node = env.body.expr_seq()[e.0 as int];
    assert(node.below(e.0 as nat, env.body.pat_seq()));
    if let Expr::Path(path) = node {
        let id = ExprOrPatId::ExprId(e);
        let resolver = Resolver::Expr(env.owner, e);
        let end = pl.expr_end[e.0];
        let pairs = leaf_typing::lemma_path(env, pl, s, ks, d, start, resolver, path, id, end);
        if let Ok((s1, _)) = path::path_ty(env, s, resolver, path, id) {
            typing_steps::lemma_answers_have_reason(env, pl, s, d, pairs);
            typing_steps::lemma_learns(env, pl, s, d, s1, start, pairs)
        } else {
            d
        }
    } else {
        d
    }
}

proof fn lemma_break<D: HirDatabase>(
    env: Env<D>,
    pl: Places,
    s: Model,
    ks: Seq<Kind>,
    d: Expected,
    e: ExprId,
    x: TyModel,
) -> (d2: Expected)
    requires
        rule_ready(env, pl, s, ks, d, e, x),
        env.body.expr_seq()[e.0 as int] is Break,
    ensures
        rule_used(env, pl, s, d, e, x, d2),
    decreases e.0, 2nat, 0nat, 0nat, 0nat,
{
    broadcast use {meaning::group_later, typing_steps::group_follows, leaf_typing::group_next};

    let start = pl.expr_start[e.0];
    let node = env.body.expr_seq()[e.0 as int];
    assert(node.below(e.0 as nat, env.body.pat_seq()));
    if let Expr::Break { expr } = node {
        upkeep::lemma_return_ty(s, ks);
        meaning::lemma_narrows_same(s.vars);
        typing_steps::lemma_quiet(env, pl, s, d, s, start);
        match expr {
            Some(value) => {
                let (d1, _) = visit(env, pl, s, ks, d, start, value, TyModel::Unknown);
                d1
            },
            None => d,
        }
    } else {
        d
    }
}

proof fn lemma_return<D: HirDatabase>(
    env: Env<D>,
    pl: Places,
    s: Model,
    ks: Seq<Kind>,
    d: Expected,
    e: ExprId,
    x: TyModel,
) -> (d2: Expected)
    requires
        rule_ready(env, pl, s, ks, d, e, x),
        env.body.expr_seq()[e.0 as int] is Return,
    ensures
        rule_used(env, pl, s, d, e, x, d2),
    decreases e.0, 2nat, 0nat, 0nat, 0nat,
{
    broadcast use {meaning::group_later, typing_steps::group_follows, leaf_typing::group_next};

    let start = pl.expr_start[e.0];
    let node = env.body.expr_seq()[e.0 as int];
    assert(node.below(e.0 as nat, env.body.pat_seq()));
    if let Expr::Return { expr } = node {
        upkeep::lemma_return_ty(s, ks);
        meaning::lemma_narrows_same(s.vars);
        typing_steps::lemma_quiet(env, pl, s, d, s, start);
        match expr {
            Some(value) => {
                let (d1, _) = visit(env, pl, s, ks, d, start, value, s.return_ty);
                d1
            },
            None => d,
        }
    } else {
        d
    }
}

proof fn lemma_struct_lit<D: HirDatabase>(
    env: Env<D>,
    pl: Places,
    s: Model,
    ks: Seq<Kind>,
    d: Expected,
    e: ExprId,
    x: TyModel,
) -> (d2: Expected)
    requires
        rule_ready(env, pl, s, ks, d, e, x),
        env.body.expr_seq()[e.0 as int] is StructLit,
    ensures
        rule_used(env, pl, s, d, e, x, d2),
    decreases e.0, 2nat, 0nat, 0nat, 0nat,
{
    broadcast use {meaning::group_later, typing_steps::group_follows, leaf_typing::group_next};

    let start = pl.expr_start[e.0];
    let node = env.body.expr_seq()[e.0 as int];
    assert(node.below(e.0 as nat, env.body.pat_seq()));
    if let Expr::StructLit { path, fields, spread } = node {
        leaf_typing::lemma_variant(env, s, path);
        let k1 = pat_upkeep::lemma_variant_of_path(env, s, ks, path);
        if let Ok((s1, (t, def))) = path::variant_of_path(env, s, path) {
            typing_steps::lemma_quiet(env, pl, s, d, s1, start);
            let substs = ty::params_of(t);
            assert(kinds::all_well_kinded(substs, k1));
            assert(fields@.len() == fields.len());
            let d2 = lemma_fields(env, pl, s1, k1, d, start, e, path, fields@, 0, def, t);
            let k2 = expr_upkeep::lemma_after_fields(env, s1, k1, e, fields@, 0, def, substs);
            let p2 = typing::next_fields(pl, start, fields@, 0);
            if let Ok(s2) = expr::after_fields(env, s1, e, fields@, 0, def, substs) {
                match spread {
                    Some(spread) => {
                        kinds::lemma_well_kinded_extends(t, k1, k2);
                        let (d3, _) = visit(env, pl, s2, k2, d2, p2, spread, t);
                        if let Ok((s3, _)) = expr::expr_ty(env, s2, spread, t) {
                            assert forall|i: int|
                                0 <= i < fields@.len() implies typing::field_value_ok(
                                env,
                                s3,
                                d3,
                                e,
                                #[trigger] fields@[i],
                                i,
                                def,
                                t,
                            ) by {
                                typing_steps::lemma_field_value_later(
                                    env,
                                    pl,
                                    s2,
                                    d2,
                                    s3,
                                    d3,
                                    e,
                                    fields@[i],
                                    i,
                                    def,
                                    t,
                                );
                            }
                            assert(typing::names_variant(env, path, t, def));
                        }
                        d3
                    },
                    None => {
                        assert(typing::names_variant(env, path, t, def));
                        d2
                    },
                }
            } else {
                d
            }
        } else {
            d
        }
    } else {
        d
    }
}

proof fn lemma_field<D: HirDatabase>(
    env: Env<D>,
    pl: Places,
    s: Model,
    ks: Seq<Kind>,
    d: Expected,
    e: ExprId,
    x: TyModel,
) -> (d2: Expected)
    requires
        rule_ready(env, pl, s, ks, d, e, x),
        env.body.expr_seq()[e.0 as int] is Field,
    ensures
        rule_used(env, pl, s, d, e, x, d2),
    decreases e.0, 2nat, 0nat, 0nat, 0nat,
{
    broadcast use {meaning::group_later, typing_steps::group_follows, leaf_typing::group_next};

    let start = pl.expr_start[e.0];
    let node = env.body.expr_seq()[e.0 as int];
    assert(node.below(e.0 as nat, env.body.pat_seq()));
    if let Expr::Field { expr, name } = node {
        let unknown = TyModel::Unknown;
        let p1 = typing::next_expr(pl, start, expr);
        let (d1, k1) = visit(env, pl, s, ks, d, start, expr, unknown);
        if let Ok((s1, receiver_ty)) = expr::expr_ty(env, s, expr, unknown) {
            leaf_typing::lemma_field_access(env, s1, e, receiver_ty, name@);
            if let Ok((s2, _)) = rules::field_access(env, s1, e, receiver_ty, name@) {
                typing_steps::lemma_quiet(env, pl, s1, d1, s2, p1);
            }
        }
        d1
    } else {
        d
    }
}

proof fn lemma_try<D: HirDatabase>(
    env: Env<D>,
    pl: Places,
    s: Model,
    ks: Seq<Kind>,
    d: Expected,
    e: ExprId,
    x: TyModel,
) -> (d2: Expected)
    requires
        rule_ready(env, pl, s, ks, d, e, x),
        env.body.expr_seq()[e.0 as int] is Try,
    ensures
        rule_used(env, pl, s, d, e, x, d2),
    decreases e.0, 2nat, 0nat, 0nat, 0nat,
{
    broadcast use {meaning::group_later, typing_steps::group_follows, leaf_typing::group_next};

    let start = pl.expr_start[e.0];
    let node = env.body.expr_seq()[e.0 as int];
    assert(node.below(e.0 as nat, env.body.pat_seq()));
    if let Expr::Try { expr } = node {
        let (d1, _) = visit(env, pl, s, ks, d, start, expr, TyModel::Unknown);
        d1
    } else {
        d
    }
}

proof fn lemma_cast<D: HirDatabase>(
    env: Env<D>,
    pl: Places,
    s: Model,
    ks: Seq<Kind>,
    d: Expected,
    e: ExprId,
    x: TyModel,
) -> (d2: Expected)
    requires
        rule_ready(env, pl, s, ks, d, e, x),
        env.body.expr_seq()[e.0 as int] is Cast,
    ensures
        rule_used(env, pl, s, d, e, x, d2),
    decreases e.0, 2nat, 0nat, 0nat, 0nat,
{
    broadcast use {meaning::group_later, typing_steps::group_follows, leaf_typing::group_next};

    let start = pl.expr_start[e.0];
    let node = env.body.expr_seq()[e.0 as int];
    assert(node.below(e.0 as nat, env.body.pat_seq()));
    if let Expr::Cast { expr, type_ref } = node {
        let p1 = typing::next_expr(pl, start, expr);
        let (d1, k1) = visit(env, pl, s, ks, d, start, expr, TyModel::Unknown);
        if let Ok((s1, _)) = expr::expr_ty(env, s, expr, TyModel::Unknown) {
            leaf_typing::lemma_inserted(s1, env.db.lowered(env.resolver(), type_ref));
            if let Ok((s2, _)) = context::make_ty(env.db, env.resolver(), s1, type_ref) {
                typing_steps::lemma_quiet(env, pl, s1, d1, s2, p1);
            }
        }
        d1
    } else {
        d
    }
}

proof fn lemma_ref<D: HirDatabase>(
    env: Env<D>,
    pl: Places,
    s: Model,
    ks: Seq<Kind>,
    d: Expected,
    e: ExprId,
    x: TyModel,
) -> (d2: Expected)
    requires
        rule_ready(env, pl, s, ks, d, e, x),
        env.body.expr_seq()[e.0 as int] is Ref,
    ensures
        rule_used(env, pl, s, d, e, x, d2),
    decreases e.0, 2nat, 0nat, 0nat, 0nat,
{
    broadcast use {meaning::group_later, typing_steps::group_follows, leaf_typing::group_next};

    let start = pl.expr_start[e.0];
    let node = env.body.expr_seq()[e.0 as int];
    assert(node.below(e.0 as nat, env.body.pat_seq()));
    if let Expr::Ref { expr, mutability } = node {
        if let Ok(behind) = rules::referent_expectation(x) {
            assert(kinds::well_kinded(behind, ks));
            assert(typing::referent_ok(x, behind)) by {
                if let TyModel::Apply { ctor: TypeCtor::Ref(_), params } = x {
                    assert(params =~= seq![behind]);
                }
            }
            let (d1, _) = visit(env, pl, s, ks, d, start, expr, behind);
            d1
        } else {
            d
        }
    } else {
        d
    }
}

proof fn lemma_unary<D: HirDatabase>(
    env: Env<D>,
    pl: Places,
    s: Model,
    ks: Seq<Kind>,
    d: Expected,
    e: ExprId,
    x: TyModel,
) -> (d2: Expected)
    requires
        rule_ready(env, pl, s, ks, d, e, x),
        env.body.expr_seq()[e.0 as int] is UnaryOp,
    ensures
        rule_used(env, pl, s, d, e, x, d2),
    decreases e.0, 2nat, 0nat, 0nat, 0nat,
{
    broadcast use {meaning::group_later, typing_steps::group_follows, leaf_typing::group_next};

    let start = pl.expr_start[e.0];
    let node = env.body.expr_seq()[e.0 as int];
    assert(node.below(e.0 as nat, env.body.pat_seq()));
    if let Expr::UnaryOp { expr, op } = node {
        let unknown = TyModel::Unknown;
        let (d1, _) = visit(env, pl, s, ks, d, start, expr, unknown);
        if let Ok((s1, inner)) = expr::expr_ty(env, s, expr, unknown) {
            if let Ok(t) = rules::unary_ty(op, inner) {
                assert(typing::unary_ok(op, inner, t)) by {
                    if let TyModel::Apply { ctor: _, params } = inner {
                        if op is Deref && params.len() == 1 {
                            assert(params =~= seq![params[0]]);
                        }
                    }
                }
            }
        }
        d1
    } else {
        d
    }
}

proof fn lemma_binary<D: HirDatabase>(
    env: Env<D>,
    pl: Places,
    s: Model,
    ks: Seq<Kind>,
    d: Expected,
    e: ExprId,
    x: TyModel,
) -> (d2: Expected)
    requires
        rule_ready(env, pl, s, ks, d, e, x),
        env.body.expr_seq()[e.0 as int] is BinaryOp,
    ensures
        rule_used(env, pl, s, d, e, x, d2),
    decreases e.0, 2nat, 0nat, 0nat, 0nat,
{
    broadcast use {meaning::group_later, typing_steps::group_follows, leaf_typing::group_next};

    let start = pl.expr_start[e.0];
    let node = env.body.expr_seq()[e.0 as int];
    assert(node.below(e.0 as nat, env.body.pat_seq()));
    if let Expr::BinaryOp { lhs, rhs, op } = node {
        let first_x = match op {
            Some(BinaryOp::BooleanAnd) | Some(BinaryOp::BooleanOr) => rules::bool_ty(),
            _ => TyModel::Unknown,
        };
        let p1 = typing::next_expr(pl, start, lhs);
        let (d1, k1) = visit(env, pl, s, ks, d, start, lhs, first_x);
        if let Ok((s1, lhs_ty)) = expr::expr_ty(env, s, lhs, first_x) {
            let second_x = match op {
                Some(op) => env.db.rhs_expectation(op, lhs_ty),
                None => TyModel::Unknown,
            };
            assert(kinds::well_kinded(second_x, k1));
            let (d2, _) = visit(env, pl, s1, k1, d1, p1, rhs, second_x);
            d2
        } else {
            d
        }
    } else {
        d
    }
}

proof fn lemma_tuple<D: HirDatabase>(
    env: Env<D>,
    pl: Places,
    s: Model,
    ks: Seq<Kind>,
    d: Expected,
    e: ExprId,
    x: TyModel,
) -> (d2: Expected)
    requires
        rule_ready(env, pl, s, ks, d, e, x),
        env.body.expr_seq()[e.0 as int] is Tuple,
    ensures
        rule_used(env, pl, s, d, e, x, d2),
    decreases e.0, 2nat, 0nat, 0nat, 0nat,
{
    broadcast use {meaning::group_later, typing_steps::group_follows, leaf_typing::group_next};

    let start = pl.expr_start[e.0];
    let node = env.body.expr_seq()[e.0 as int];
    assert(node.below(e.0 as nat, env.body.pat_seq()));
    if let Expr::Tuple { exprs } = node {
        lemma_exprs(env, pl, s, ks, d, start, e, exprs@)
    } else {
        d
    }
}

proof fn lemma_array<D: HirDatabase>(
    env: Env<D>,
    pl: Places,
    s: Model,
    ks: Seq<Kind>,
    d: Expected,
    e: ExprId,
    x: TyModel,
) -> (d2: Expected)
    requires
        rule_ready(env, pl, s, ks, d, e, x),
        env.body.expr_seq()[e.0 as int] is Array,
    ensures
        rule_used(env, pl, s, d, e, x, d2),
    decreases e.0, 2nat, 0nat, 0nat, 0nat,
{
    broadcast use {meaning::group_later, typing_steps::group_follows, leaf_typing::group_next};

    let start = pl.expr_start[e.0];
    let node = env.body.expr_seq()[e.0 as int];
    assert(node.below(e.0 as nat, env.body.pat_seq()));
    if let Expr::Array(array) = node {
        upkeep::lemma_keeps_same(s, ks);
        meaning::lemma_narrows_same(s.vars);
        meaning::lemma_new_var(s.vars);
        let k1 = match x {
            TyModel::Apply { ctor: TypeCtor::Slice, .. } | TyModel::Apply {
                ctor: TypeCtor::Array,
                ..
            } => ks,
            _ => upkeep::lemma_new_type_var_in(s, ks),
        };
        if let Ok((s1, element)) = rules::element_ty(s, x) {
            assert(upkeep::keeps(s, ks, s1, k1) && kinds::well_kinded(element, k1));
            assert(typing::element_ok(x, element)) by {
                if let TyModel::Apply { ctor: _, params } = x {
                    if params.len() == 1 {
                        assert(params =~= seq![params[0]]);
                    }
                }
            }
            typing_steps::lemma_quiet(env, pl, s, d, s1, start);
            match array {
                Array::ElementList(items) => {
                    lemma_elements(env, pl, s1, k1, d, start, e, items@, element)
                },
                Array::Repeat { initializer, repeat } => {
                    let p1 = typing::next_expr(pl, start, initializer);
                    let (d2, k2) = visit(env, pl, s1, k1, d, start, initializer, element);
                    if let Ok((s2, _)) = expr::expr_ty(env, s1, initializer, element) {
                        let count = rules::int_ty(IntTy::usize());
                        let (d3, _) = visit(env, pl, s2, k2, d2, p1, repeat, count);
                        d3
                    } else {
                        d
                    }
                },
            }
        } else {
            d
        }
    } else {
        d
    }
}

pub proof fn lemma_closure_param_later<D: HirDatabase>(
    env: Env<D>,
    pl: Places,
    s: Model,
    d: Expected,
    after: Model,
    d2: Expected,
    p: PatId,
    type_ref: Option<TypeRef>,
)
    requires
        typing_steps::follows(pl, s, d, after, d2),
        typing::closure_param_ok(env, s, d, p, type_ref),
    ensures
        typing::closure_param_ok(env, after, d2, p, type_ref),
{
    broadcast use typing_steps::group_follows;

    let t = choose|t: TyModel| #[trigger]
        typing::matches_with(s, d, p, t, BindingMode::Move) && typing::written(env, type_ref, t);
    assert(typing::matches_with(after, d2, p, t, BindingMode::Move));
}

/// The types recorded for the parameters of a closure are right.
proof fn lemma_closure_params<D: HirDatabase>(
    env: Env<D>,
    pl: Places,
    s: Model,
    ks: Seq<Kind>,
    d: Expected,
    pos: int,
    parent: ExprId,
    pats: Seq<PatId>,
    types: Seq<Option<TypeRef>>,
) -> (d2: Expected)
    requires
        typing_steps::ready(env, pl, s, ks, d, pos),
        body::all_pats_within(pats, parent.0 as nat, env.body.pat_seq()),
        pats.len() == types.len(),
        typing::next_pats(pl, pos, pats) >= 0,
    ensures
        expr::closure_params(env, s, parent, pats, types) matches Ok(after) ==> {
            &&& typing_steps::stepped(
                env,
                pl,
                s,
                d,
                after,
                d2,
                typing::next_pats(pl, pos, pats),
            )
            &&& forall|i: int|
                0 <= i < pats.len() ==> typing::closure_param_ok(
                    env,
                    after,
                    d2,
                    #[trigger] pats[i],
                    types[i],
                )
        },
    decreases parent.0, 1nat, 0nat, 0nat, pats.len(),
{
    broadcast use {meaning::group_later, typing_steps::group_follows, leaf_typing::group_next};

    meaning::lemma_narrows_same(s.vars);
    if pats.len() == 0 {
        typing_steps::lemma_quiet(env, pl, s, d, s, pos);
        d
    } else {
        let others = pats.skip(1);
        let rest = types.skip(1);
        let next = typing::next_pat(pl, pos, pats[0]);
        assert(typing::next_pats(pl, next, others) >= 0);
        let k0 = expr_upkeep::lemma_declared_ty(env, s, ks, types[0]);
        if let Some(type_ref) = types[0] {
            leaf_typing::lemma_inserted(s, env.db.lowered(env.resolver(), type_ref));
        }
        if let Ok((s0, t)) = rules::declared_ty(env, s, types[0]) {
            typing_steps::lemma_quiet(env, pl, s, d, s0, pos);
            let d1 = pat_typing::lemma_pat(
                env,
                pl,
                s0,
                k0,
                d,
                pos,
                pats[0],
                t,
                BindingMode::Move,
            );
            let k1 = pat_upkeep::lemma_pat_ty(env, s0, k0, pats[0], t, BindingMode::Move);
            if let Ok((s1, _)) = pat::pat_ty(env, s0, pats[0], t, BindingMode::Move) {
                let d2 = lemma_closure_params(env, pl, s1, k1, d1, next, parent, others, rest);
                if let Ok(after) = expr::closure_params(env, s1, parent, others, rest) {
                    assert forall|i: int| 0 <= i < pats.len() implies typing::closure_param_ok(
                        env,
                        after,
                        d2,
                        #[trigger] pats[i],
                        types[i],
                    ) by {
                        if i > 0 {
                            assert(pats[i] == others[i - 1] && types[i] == rest[i - 1]);
                        } else {
                            assert(typing::matches_with(after, d2, pats[0], t, BindingMode::Move));
                        }
                    }
                }
                d2
            } else {
                d
            }
        } else {
            d
        }
    }
}

/// The types recorded for patterns that are matched with one type are right.
proof fn lemma_alternatives<D: HirDatabase>(
    env: Env<D>,
    pl: Places,
    s: Model,
    ks: Seq<Kind>,
    d: Expected,
    pos: int,
    parent: ExprId,
    pats: Seq<PatId>,
    t: TyModel,
) -> (d2: Expected)
    requires
        typing_steps::ready(env, pl, s, ks, d, pos),
        body::all_pats_within(pats, parent.0 as nat, env.body.pat_seq()),
        kinds::well_kinded(t, ks),
        typing::next_pats(pl, pos, pats) >= 0,
    ensures
        expr::alternatives(env, s, parent, pats, t) matches Ok(after) ==> {
            &&& typing_steps::stepped(
                env,
                pl,
                s,
                d,
                after,
                d2,
                typing::next_pats(pl, pos, pats),
            )
            &&& forall|i: int|
                0 <= i < pats.len() ==> typing::matches_with(
                    after,
                    d2,
                    #[trigger] pats[i],
                    t,
                    BindingMode::Move,
                )
        },
    decreases parent.0, 1nat, 0nat, 0nat, pats.len(),
{
    broadcast use {meaning::group_later, typing_steps::group_follows, leaf_typing::group_next};

    if pats.len() == 0 {
        meaning::lemma_narrows_same(s.vars);
        typing_steps::lemma_quiet(env, pl, s, d, s, pos);
        d
    } else {
        let others = pats.skip(1);
        let next = typing::next_pat(pl, pos, pats[0]);
        assert(typing::next_pats(pl, next, others) >= 0);
        let mode = BindingMode::Move;
        let d1 = pat_typing::lemma_pat(env, pl, s, ks, d, pos, pats[0], t, mode);
        let k1 = pat_upkeep::lemma_pat_ty(env, s, ks, pats[0], t, mode);
        if let Ok((s1, _)) = pat::pat_ty(env, s, pats[0], t, mode) {
            kinds::lemma_well_kinded_extends(t, ks, k1);
            let d2 = lemma_alternatives(env, pl, s1, k1, d1, next, parent, others, t);
            if let Ok(after) = expr::alternatives(env, s1, parent, others, t) {
                assert forall|i: int| 0 <= i < pats.len() implies typing::matches_with(
                    after,
                    d2,
                    #[trigger] pats[i],
                    t,
                    mode,
                ) by {
                    if i > 0 {
                        assert(pats[i] == others[i - 1]);
                    }
                }
            }
            d2
        } else {
            d
        }
    }
}

/// The types recorded in statements are right.
proof fn lemma_statements<D: HirDatabase>(
    env: Env<D>,
    pl: Places,
    s: Model,
    ks: Seq<Kind>,
    d: Expected,
    pos: int,
    parent: ExprId,
    statements: Seq<Statement>,
) -> (d2: Expected)
    requires
        typing_steps::ready(env, pl, s, ks, d, pos),
        parent.0 < env.body.expr_seq().len(),
        forall|i: int|
            0 <= i < statements.len() ==> (#[trigger] statements[i]).below(
                parent.0 as nat,
                env.body.pat_seq(),
            ),
        typing::next_statements(pl, pos, statements) >= 0,
    ensures
        expr::after_statements(env, s, parent, statements) matches Ok(after) ==> {
            &&& typing_steps::stepped(
                env,
                pl,
                s,
                d,
                after,
                d2,
                typing::next_statements(pl, pos, statements),
            )
            &&& forall|i: int|
                0 <= i < statements.len() ==> typing::statement_ok(
                    env,
                    after,
                    d2,
                    #[trigger] statements[i],
                )
        },
    decreases parent.0, 1nat, 1nat, 0nat, statements.len(),
{
    broadcast use {meaning::group_later, typing_steps::group_follows, leaf_typing::group_next};

    if statements.len() == 0 {
        meaning::lemma_narrows_same(s.vars);
        typing_steps::lemma_quiet(env, pl, s, d, s, pos);
        d
    } else {
        let first = statements[0];
        let rest = statements.skip(1);
        let next = typing::next_statement(pl, pos, first);
        assert(typing::next_statements(pl, next, rest) >= 0);
        assert forall|i: int| 0 <= i < rest.len() implies (#[trigger] rest[i]).below(
            parent.0 as nat,
            env.body.pat_seq(),
        ) by {
            assert(rest[i] == statements[i + 1]);
        }
        let (k1, done) = expr_upkeep::lemma_statement(env, s, ks, parent, first);
        let d1 = lemma_statement(env, pl, s, ks, d, pos, parent, first, done);
        if let Some(s1) = done {
            let d2 = lemma_statements(env, pl, s1, k1, d1, next, parent, rest);
            if let Ok(after) = expr::after_statements(env, s1, parent, rest) {
                assert forall|i: int| 0 <= i < statements.len() implies typing::statement_ok(
                    env,
                    after,
                    d2,
                    #[trigger] statements[i],
                ) by {
                    if i > 0 {
                        assert(statements[i] == rest[i - 1]);
                    } else {
                        typing_steps::lemma_statement_later(env, pl, s1, d1, after, d2, first);
                    }
                }
            }
            d2
        } else {
            d
        }
    }
}

/// The types recorded in a statement are right; `done` is what is known after it.
proof fn lemma_statement<D: HirDatabase>(
    env: Env<D>,
    pl: Places,
    s: Model,
    ks: Seq<Kind>,
    d: Expected,
    pos: int,
    parent: ExprId,
    st: Statement,
    done: Option<Model>,
) -> (d2: Expected)
    requires
        typing_steps::ready(env, pl, s, ks, d, pos),
        parent.0 < env.body.expr_seq().len(),
        st.below(parent.0 as nat, env.body.pat_seq()),
        typing::next_statement(pl, pos, st) >= 0,
        match st {
            Statement::Let { pat, type_ref, initializer } => match rules::declared_ty(
                env,
                s,
                type_ref,
            ) {
                Err(_) => done is None,
                Ok((s1, t)) => match context::insert_in(s1, t) {
                    Err(_) => done is None,
                    Ok((s2, declared)) => match (match initializer {
                        Some(init) => expr::expr_ty(env, s2, init, declared),
                        None => Ok((s2, declared)),
                    }) {
                        Err(_) => done is None,
                        Ok((s3, t)) => match pat::pat_ty(env, s3, pat, t, BindingMode::Move) {
                            Err(_) => done is None,
                            Ok((s4, _)) => done == Some(s4),
                        },
                    },
                },
            },
            Statement::Expr(e) => match expr::expr_ty(env, s, e, TyModel::Unknown) {
                Err(_) => done is None,
                Ok((s1, _)) => done == Some(s1),
            },
        },
    ensures
        done matches Some(after) ==> {
            &&& typing_steps::stepped(
                env,
                pl,
                s,
                d,
                after,
                d2,
                typing::next_statement(pl, pos, st),
            )
            &&& typing::statement_ok(env, after, d2, st)
        },
    decreases parent.0, 1nat, 1nat, 0nat, 0nat,
{
    broadcast use {meaning::group_later, typing_steps::group_follows, leaf_typing::group_next};

    meaning::lemma_narrows_same(s.vars);
    match st {
        Statement::Let { pat, type_ref, initializer } => {
            let k1 = expr_upkeep::lemma_declared_ty(env, s, ks, type_ref);
            if let Some(type_ref) = type_ref {
                leaf_typing::lemma_inserted(s, env.db.lowered(env.resolver(), type_ref));
            }
            if let Ok((s1, t)) = rules::declared_ty(env, s, type_ref) {
                typing_steps::lemma_quiet(env, pl, s, d, s1, pos);
                leaf_typing::lemma_inserted(s1, t);
                let k2 = upkeep::lemma_insert_in(s1, k1, t);
                if let Ok((s2, declared)) = context::insert_in(s1, t) {
                    typing_steps::lemma_quiet(env, pl, s1, d, s2, pos);
                    if type_ref is Some {
                        leaf_typing::lemma_filled_twice(s1, t);
                    }
                    match initializer {
                        Some(init) => {
                            let p3 = typing::next_expr(pl, pos, init);
                            let (d3, k3) = visit(env, pl, s2, k2, d, pos, init, declared);
                            if let Ok((s3, u)) = expr::expr_ty(env, s2, init, declared) {
                                let d4 = pat_typing::lemma_pat(
                                    env,
                                    pl,
                                    s3,
                                    k3,
                                    d3,
                                    p3,
                                    pat,
                                    u,
                                    BindingMode::Move,
                                );
                                if let Ok((s4, _)) = pat::pat_ty(
                                    env,
                                    s3,
                                    pat,
                                    u,
                                    BindingMode::Move,
                                ) {
                                    assert(typing::expects(s4, d4, init, declared));
                                }
                                d4
                            } else {
                                d
                            }
                        },
                        None => pat_typing::lemma_pat(
                            env,
                            pl,
                            s2,
                            k2,
                            d,
                            pos,
                            pat,
                            declared,
                            BindingMode::Move,
                        ),
                    }
                } else {
                    d
                }
            } else {
                d
            }
        },
        Statement::Expr(e) => {
            let (d1, _) = visit(env, pl, s, ks, d, pos, e, TyModel::Unknown);
            d1
        },
    }
}

/// The types recorded for arguments are right.
proof fn lemma_args<D: HirDatabase>(
    env: Env<D>,
    pl: Places,
    s: Model,
    ks: Seq<Kind>,
    d: Expected,
    pos: int,
    parent: ExprId,
    args: Seq<ExprId>,
    params: Seq<TyModel>,
) -> (d2: Expected)
    requires
        typing_steps::ready(env, pl, s, ks, d, pos),
        parent.0 < env.body.expr_seq().len(),
        body::all_exprs_below(args, parent.0 as nat),
        kinds::all_well_kinded(params, ks),
        typing::next_exprs(pl, pos, args) >= 0,
    ensures
        expr::after_args(env, s, parent, args, params) matches Ok(after) ==> {
            &&& typing_steps::stepped(
                env,
                pl,
                s,
                d,
                after,
                d2,
                typing::next_exprs(pl, pos, args),
            )
            &&& typing::args_ok(after, d2, args, params)
        },
    decreases parent.0, 1nat, 1nat, 0nat, args.len(),
{
    broadcast use {meaning::group_later, typing_steps::group_follows, leaf_typing::group_next};

    if args.len() == 0 {
        meaning::lemma_narrows_same(s.vars);
        typing_steps::lemma_quiet(env, pl, s, d, s, pos);
        d
    } else {
        let (x, rest) = if params.len() > 0 {
            (params[0], params.skip(1))
        } else {
            (TyModel::Unknown, params)
        };
        let others = args.skip(1);
        let next = typing::next_expr(pl, pos, args[0]);
        assert(typing::next_exprs(pl, next, others) >= 0);
        let (d1, k1) = visit(env, pl, s, ks, d, pos, args[0], x);
        if let Ok((s1, _)) = expr::expr_ty(env, s, args[0], x) {
            kinds::lemma_all_well_kinded_extends(rest, ks, k1);
            let d2 = lemma_args(env, pl, s1, k1, d1, next, parent, others, rest);
            if let Ok(after) = expr::after_args(env, s1, parent, others, rest) {
                assert forall|i: int| 0 <= i < args.len() implies typing::expects(
                    after,
                    d2,
                    #[trigger] args[i],
                    typing::nth_or_unknown(params, i),
                ) by {
                    if i > 0 {
                        assert(args[i] == others[i - 1]);
                        assert(typing::nth_or_unknown(params, i) == typing::nth_or_unknown(
                            rest,
                            i - 1,
                        ));
                    }
                }
            }
            d2
        } else {
            d
        }
    }
}

/// The types recorded in the arms of a `match` are right.
proof fn lemma_arms<D: HirDatabase>(
    env: Env<D>,
    pl: Places,
    s: Model,
    ks: Seq<Kind>,
    d: Expected,
    pos: int,
    parent: ExprId,
    arms: Seq<MatchArm>,
    input: TyModel,
    x: TyModel,
) -> (d2: Expected)
    requires
        typing_steps::ready(env, pl, s, ks, d, pos),
        parent.0 < env.body.expr_seq().len(),
        forall|i: int|
            0 <= i < arms.len() ==> (#[trigger] arms[i]).below(
                parent.0 as nat,
                env.body.pat_seq(),
            ),
        kinds::well_kinded(input, ks),
        kinds::well_kinded(x, ks),
        typing::next_arms(pl, pos, arms) >= 0,
    ensures
        expr::after_arms(env, s, parent, arms, input, x) matches Ok(after) ==> {
            &&& typing_steps::stepped(
                env,
                pl,
                s,
                d,
                after,
                d2,
                typing::next_arms(pl, pos, arms),
            )
            &&& forall|i: int|
                0 <= i < arms.len() ==> typing::arm_ok(after, d2, #[trigger] arms[i], input, x)
        },
    decreases parent.0, 1nat, 1nat, 0nat, arms.len(),
{
    broadcast use {meaning::group_later, typing_steps::group_follows, leaf_typing::group_next};

    if arms.len() == 0 {
        meaning::lemma_narrows_same(s.vars);
        typing_steps::lemma_quiet(env, pl, s, d, s, pos);
        d
    } else {
        let arm = arms[0];
        let rest = arms.skip(1);
        let next = typing::next_arm(pl, pos, arm);
        assert(typing::next_arms(pl, next, rest) >= 0);
        assert forall|i: int| 0 <= i < rest.len() implies (#[trigger] rest[i]).below(
            parent.0 as nat,
            env.body.pat_seq(),
        ) by {
            assert(rest[i] == arms[i + 1]);
        }
        let (k1, done) = expr_upkeep::lemma_arm(env, s, ks, parent, arm, input, x);
        let d1 = lemma_arm(env, pl, s, ks, d, pos, parent, arm, input, x, done);
        if let Some(s1) = done {
            kinds::lemma_well_kinded_extends(input, ks, k1);
            kinds::lemma_well_kinded_extends(x, ks, k1);
            let d2 = lemma_arms(env, pl, s1, k1, d1, next, parent, rest, input, x);
            if let Ok(after) = expr::after_arms(env, s1, parent, rest, input, x) {
                assert forall|i: int| 0 <= i < arms.len() implies typing::arm_ok(
                    after,
                    d2,
                    #[trigger] arms[i],
                    input,
                    x,
                ) by {
                    if i > 0 {
                        assert(arms[i] == rest[i - 1]);
                    }
                }
            }
            d2
        } else {
            d
        }
    }
}

/// The types recorded in an arm are right; `done` is what is known after it.
proof fn lemma_arm<D: HirDatabase>(
    env: Env<D>,
    pl: Places,
    s: Model,
    ks: Seq<Kind>,
    d: Expected,
    pos: int,
    parent: ExprId,
    arm: MatchArm,
    input: TyModel,
    x: TyModel,
    done: Option<Model>,
) -> (d2: Expected)
    requires
        typing_steps::ready(env, pl, s, ks, d, pos),
        parent.0 < env.body.expr_seq().len(),
        arm.below(parent.0 as nat, env.body.pat_seq()),
        kinds::well_kinded(input, ks),
        kinds::well_kinded(x, ks),
        typing::next_arm(pl, pos, arm) >= 0,
        match expr::alternatives(env, s, parent, arm.pats@, input) {
            Err(_) => done is None,
            Ok(s1) => match (match arm.guard {
                Some(guard) => expr::expr_ty(env, s1, guard, rules::bool_ty()),
                None => Ok((s1, TyModel::Unknown)),
            }) {
                Err(_) => done is None,
                Ok((s2, _)) => match expr::expr_ty(env, s2, arm.expr, x) {
                    Err(_) => done is None,
                    Ok((s3, _)) => done == Some(s3),
                },
            },
        },
    ensures
        done matches Some(after) ==> {
            &&& typing_steps::stepped(env, pl, s, d, after, d2, typing::next_arm(pl, pos, arm))
            &&& typing::arm_ok(after, d2, arm, input, x)
        },
    decreases parent.0, 1nat, 1nat, 0nat, 0nat,
{
    broadcast use {meaning::group_later, typing_steps::group_follows, leaf_typing::group_next};

    let p1 = typing::next_pats(pl, pos, arm.pats@);
    let p2 = typing::next_maybe(pl, p1, arm.guard);
    let d1 = lemma_alternatives(env, pl, s, ks, d, pos, parent, arm.pats@, input);
    let k1 = expr_upkeep::lemma_alternatives(env, s, ks, parent, arm.pats@, input);
    if let Ok(s1) = expr::alternatives(env, s, parent, arm.pats@, input) {
        match arm.guard {
            Some(guard) => {
                let (d2, k2) = visit(env, pl, s1, k1, d1, p1, guard, rules::bool_ty());
                if let Ok((s2, _)) = expr::expr_ty(env, s1, guard, rules::bool_ty()) {
                    kinds::lemma_well_kinded_extends(x, ks, k1);
                    kinds::lemma_well_kinded_extends(x, k1, k2);
                    let (d3, _) = visit(env, pl, s2, k2, d2, p2, arm.expr, x);
                    d3
                } else {
                    d
                }
            },
            None => {
                kinds::lemma_well_kinded_extends(x, ks, k1);
                let (d3, _) = visit(env, pl, s1, k1, d1, p1, arm.expr, x);
                d3
            },
        }
    } else {
        d
    }
}

/// The types recorded for the fields of a struct literal are right.
proof fn lemma_fields<D: HirDatabase>(
    env: Env<D>,
    pl: Places,
    s: Model,
    ks: Seq<Kind>,
    d: Expected,
    pos: int,
    parent: ExprId,
    path: Option<Path>,
    fields: Seq<StructLitField>,
    i: int,
    def: Option<VariantDef>,
    t: TyModel,
) -> (d2: Expected)
    requires
        typing_steps::ready(env, pl, s, ks, d, pos),
        parent.0 < env.body.expr_seq().len(),
        env.body.expr_seq()[parent.0 as int] matches Expr::StructLit { path: p, fields: fs, .. }
            && p == path && fs@ == fields,
        fields.len() <= usize::MAX,
        typing::names_variant(env, path, t, def),
        forall|j: int| 0 <= j < fields.len() ==> (#[trigger] fields[j]).expr.0 < parent.0,
        0 <= i <= fields.len(),
        kinds::well_kinded(t, ks),
        typing::next_fields(pl, pos, fields, i) >= 0,
    ensures
        expr::after_fields(env, s, parent, fields, i, def, ty::params_of(t)) matches Ok(after)
            ==> {
            &&& typing_steps::stepped(
                env,
                pl,
                s,
                d,
                after,
                d2,
                typing::next_fields(pl, pos, fields, i),
            )
            &&& forall|j: int|
                i <= j < fields.len() ==> typing::field_value_ok(
                    env,
                    after,
                    d2,
                    parent,
                    #[trigger] fields[j],
                    j,
                    def,
                    t,
                )
        },
    decreases parent.0, 1nat, 1nat, 0nat, fields.len() - i,
{
    broadcast use {meaning::group_later, typing_steps::group_follows, leaf_typing::group_next};

    let substs = ty::params_of(t);
    meaning::lemma_narrows_same(s.vars);
    if i >= fields.len() {
        typing_steps::lemma_quiet(env, pl, s, d, s, pos);
        d
    } else {
        let name = fields[i].name@;
        let s0 = expr::check_field(env, s, parent, i, def, name);
        upkeep::lemma_same_types(s, ks, s0);
        assert forall|k: int|
            s.diagnostics.len() <= k < s0.diagnostics.len() implies typing::told_rightly(
            env,
            #[trigger] s0.diagnostics[k],
        ) by {
            if let Some(variant) = def {
                assert(typing::names_variant(env, path, t, Some(variant)));
            }
        }
        typing_steps::lemma_quiet(env, pl, s, d, s0, pos);
        let x = pat::field_expectation(env.db, def, name, substs);
        assert(x == typing::type_of_field(env.db, def, t, name));
        pat_upkeep::lemma_field_expectation(env.db, ks, def, name, substs);
        let next = typing::next_expr(pl, pos, fields[i].expr);
        assert(typing::next_fields(pl, next, fields, i + 1) >= 0);
        let (d1, k1) = visit(env, pl, s0, ks, d, pos, fields[i].expr, x);
        if let Ok((s1, _)) = expr::expr_ty(env, s0, fields[i].expr, x) {
            kinds::lemma_well_kinded_extends(t, ks, k1);
            let d2 = lemma_fields(
                env,
                pl,
                s1,
                k1,
                d1,
                next,
                parent,
                path,
                fields,
                i + 1,
                def,
                t,
            );
            if let Ok(after) = expr::after_fields(env, s1, parent, fields, i + 1, def, substs) {
                let told = crate::diagnostics::InferenceDiagnostic::NoSuchField {
                    expr: parent,
                    field: i as usize,
                };
                if s0.diagnostics != s.diagnostics {
                    assert(s0.diagnostics == s.diagnostics.push(told));
                    assert(s0.diagnostics[s.diagnostics.len() as int] == told);
                    assert(s1.diagnostics[s.diagnostics.len() as int] == told);
                    assert(s1.diagnostics.contains(told));
                }
                assert forall|j: int| i <= j < fields.len() implies typing::field_value_ok(
                    env,
                    after,
                    d2,
                    parent,
                    #[trigger] fields[j],
                    j,
                    def,
                    t,
                ) by {
                    if j == i {
                        typing_steps::lemma_field_value_later(
                            env,
                            pl,
                            s1,
                            d1,
                            after,
                            d2,
                            parent,
                            fields[i],
                            i,
                            def,
                            t,
                        );
                    }
                }
            }
            d2
        } else {
            d
        }
    }
}

/// The types recorded for the expressions of a list are right.
proof fn lemma_exprs<D: HirDatabase>(
    env: Env<D>,
    pl: Places,
    s: Model,
    ks: Seq<Kind>,
    d: Expected,
    pos: int,
    parent: ExprId,
    exprs: Seq<ExprId>,
) -> (d2: Expected)
    requires
        typing_steps::ready(env, pl, s, ks, d, pos),
        parent.0 < env.body.expr_seq().len(),
        body::all_exprs_below(exprs, parent.0 as nat),
        typing::next_exprs(pl, pos, exprs) >= 0,
    ensures
        expr::expr_tys(env, s, parent, exprs) matches Ok((after, ts)) ==> {
            &&& typing_steps::stepped(
                env,
                pl,
                s,
                d,
                after,
                d2,
                typing::next_exprs(pl, pos, exprs),
            )
            &&& ts.len() == exprs.len()
            &&& forall|i: int|
                0 <= i < exprs.len() ==> typed(
                    after,
                    d2,
                    #[trigger] exprs[i],
                    TyModel::Unknown,
                    ts[i],
                )
        },
    decreases parent.0, 1nat, 1nat, 0nat, exprs.len(),
{
    broadcast use {meaning::group_later, typing_steps::group_follows, leaf_typing::group_next};

    let unknown = TyModel::Unknown;
    if exprs.len() == 0 {
        meaning::lemma_narrows_same(s.vars);
        typing_steps::lemma_quiet(env, pl, s, d, s, pos);
        d
    } else {
        let rest = exprs.skip(1);
        let next = typing::next_expr(pl, pos, exprs[0]);
        assert(typing::next_exprs(pl, next, rest) >= 0);
        let (d1, k1) = visit(env, pl, s, ks, d, pos, exprs[0], unknown);
        if let Ok((s1, t)) = expr::expr_ty(env, s, exprs[0], unknown) {
            let d2 = lemma_exprs(env, pl, s1, k1, d1, next, parent, rest);
            if let Ok((after, ts)) = expr::expr_tys(env, s1, parent, rest) {
                let all = seq![t] + ts;
                assert forall|i: int| 0 <= i < exprs.len() implies typed(
                    after,
                    d2,
                    #[trigger] exprs[i],
                    unknown,
                    all[i],
                ) by {
                    if i > 0 {
                        assert(exprs[i] == rest[i - 1]);
                    }
                }
            }
            d2
        } else {
            d
        }
    }
}

/// The types recorded for the elements of an array are right.
proof fn lemma_elements<D: HirDatabase>(
    env: Env<D>,
    pl: Places,
    s: Model,
    ks: Seq<Kind>,
    d: Expected,
    pos: int,
    parent: ExprId,
    items: Seq<ExprId>,
    element: TyModel,
) -> (d2: Expected)
    requires
        typing_steps::ready(env, pl, s, ks, d, pos),
        parent.0 < env.body.expr_seq().len(),
        body::all_exprs_below(items, parent.0 as nat),
        kinds::well_kinded(element, ks),
        typing::next_exprs(pl, pos, items) >= 0,
    ensures
        expr::after_elements(env, s, parent, items, element) matches Ok(after) ==> {
            &&& typing_steps::stepped(
                env,
                pl,
                s,
                d,
                after,
                d2,
                typing::next_exprs(pl, pos, items),
            )
            &&& forall|i: int|
                0 <= i < items.len() ==> typing::expects(after, d2, #[trigger] items[i], element)
        },
    decreases parent.0, 1nat, 1nat, 0nat, items.len(),
{
    broadcast use {meaning::group_later, typing_steps::group_follows, leaf_typing::group_next};

    if items.len() == 0 {
        meaning::lemma_narrows_same(s.vars);
        typing_steps::lemma_quiet(env, pl, s, d, s, pos);
        d
    } else {
        let rest = items.skip(1);
        let next = typing::next_expr(pl, pos, items[0]);
        assert(typing::next_exprs(pl, next, rest) >= 0);
        let (d1, k1) = visit(env, pl, s, ks, d, pos, items[0], element);
        if let Ok((s1, _)) = expr::expr_ty(env, s, items[0], element) {
            kinds::lemma_well_kinded_extends(element, ks, k1);
            let d2 = lemma_elements(env, pl, s1, k1, d1, next, parent, rest, element);
            if let Ok(after) = expr::after_elements(env, s1, parent, rest, element) {
                assert forall|i: int| 0 <= i < items.len() implies typing::expects(
                    after,
                    d2,
                    #[trigger] items[i],
                    element,
                ) by {
                    if i > 0 {
                        assert(items[i] == rest[i - 1]);
                    }
                }
            }
            d2
        } else {
            d
        }
    }
}

} // verus!
