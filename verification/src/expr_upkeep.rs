//! What the steps on expressions keep.

use vstd::prelude::*;

use crate::body::{
    Array, BinaryOp, Expr, GenericArg, GenericArgs, Literal, MatchArm, Path, Statement,
    StructLitField, UnaryOp,
};
use crate::context::{Env, Model};
use crate::db::{GenericParams, HirDatabase, TraitRefModel};
use crate::defs::{
    AdtDef, CallableDef, ExprId, ExprOrPatId, Function, Namespace, PatId, Resolver, TypableDef,
    TypeRef, VariantDef,
};
use crate::kinds::Kind;
use crate::pat::BindingMode;
use crate::primitive::IntTy;
use crate::ty::{Mutability, TyModel, TypeCtor};
use crate::{
    body, call, context, db, expr, kinds, pat, pat_upkeep, path, rules, settled, ty, upkeep,
};

verus! {

pub proof fn lemma_written_args<D: HirDatabase>(
    env: Env<D>,
    s: Model,
    ks: Seq<Kind>,
    args: Seq<GenericArg>,
    count: nat,
) -> (longer: Seq<Kind>)
    requires
        upkeep::faithful(env.db),
        upkeep::sound(s, ks),
    ensures
        upkeep::keeps_tys_in(env, s, ks, call::written_args(env, s, args, count), longer),
    decreases args.len(),
{
    upkeep::lemma_keeps_same(s, ks);
    if args.len() == 0 || count == 0 {
        ks
    } else {
        let GenericArg::Type(type_ref) = args[0];
        let mid = upkeep::lemma_make_ty(env, s, ks, type_ref);
        if let Ok((s1, t)) = context::make_ty(env.db, env.resolver(), s, type_ref) {
            let rest = args.skip(1);
            let less = (count - 1) as nat;
            let longer = lemma_written_args(env, s1, mid, rest, less);
            if let Ok((after, ts)) = call::written_args(env, s1, rest, less) {
                upkeep::lemma_keeps_trans(s, ks, s1, mid, after, longer);
                kinds::lemma_well_kinded_extends(t, mid, longer);
                let all = seq![t] + ts;
                assert forall|i: int| 0 <= i < all.len() implies kinds::well_kinded(
                    #[trigger] all[i],
                    longer,
                ) by {
                    if i > 0 {
                        assert(all[i] == ts[i - 1]);
                    }
                }
            }
            longer
        } else {
            ks
        }
    }
}

pub proof fn lemma_method_substs<D: HirDatabase>(
    env: Env<D>,
    s: Model,
    ks: Seq<Kind>,
    generics: Option<GenericParams>,
    args: Option<GenericArgs>,
    receiver: TyModel,
) -> (longer: Seq<Kind>)
    requires
        upkeep::faithful(env.db),
        generics matches Some(g) ==> exists|func: Function|
            g == #[trigger] env.db.fn_generics_of(func),
        upkeep::sound(s, ks),
        kinds::well_kinded(receiver, ks),
    ensures
        upkeep::keeps_tys_in(
            env,
            s,
            ks,
            call::method_substs(env, s, generics, args, receiver),
            longer,
        ),
{
    let own = match generics {
        Some(g) => g.params@.len(),
        None => 0,
    };
    let longer = lemma_written_args(env, s, ks, call::arg_seq(args), own);
    if let Ok((after, tys)) = call::written_args(env, s, call::arg_seq(args), own) {
        let outer = call::outer_substs(generics, receiver);
        kinds::lemma_well_kinded_extends(receiver, ks, longer);
        let front = outer + tys;
        let all = call::filled_up(front, call::param_count(generics));
        assert forall|i: int| 0 <= i < all.len() implies kinds::well_kinded(
            #[trigger] all[i],
            longer,
        ) by {
            if i < outer.len() {
                assert(all[i] == outer[i]);
            } else if i < front.len() {
                assert(all[i] == tys[i - outer.len()]);
            }
        }
    }
    longer
}

pub proof fn lemma_call_obligation<D: HirDatabase>(
    env: Env<D>,
    s: Model,
    ks: Seq<Kind>,
    callable: TyModel,
)
    requires
        upkeep::sound(s, ks),
        kinds::well_kinded(callable, ks),
    ensures
        upkeep::keeps_all_in(env, s, ks, call::with_call_obligation(env, s, callable), ks),
{
    upkeep::lemma_keeps_same(s, ks);
    if let TyModel::Apply { ctor: TypeCtor::FnDef(CallableDef::Function(func)), params } = callable {
        if let Some(trait_) = env.db.parent_trait_of(func) {
            if let Ok(n) = db::counted(env.db.trait_generics_of(trait_).total()) {
                let substs = if n <= params.len() {
                    params.take(n as int)
                } else {
                    params
                };
                assert forall|i: int| 0 <= i < substs.len() implies kinds::well_kinded(
                    #[trigger] substs[i],
                    ks,
                ) by {
                    assert(substs[i] == params[i]);
                }
                upkeep::lemma_push_goal(s, ks, TraitRefModel { trait_, substs });
            }
        }
    }
}

/// What the choice of a method keeps.
pub proof fn lemma_method_callee<D: HirDatabase>(
    env: Env<D>,
    s: Model,
    ks: Seq<Kind>,
    e: ExprId,
    receiver: TyModel,
    name: Seq<char>,
    args: Option<GenericArgs>,
) -> (longer: Seq<Kind>)
    requires
        upkeep::faithful(env.db),
        upkeep::sound(s, ks),
        kinds::well_kinded(receiver, ks),
    ensures
        match call::method_callee(env, s, e, receiver, name, args) {
            Ok((after, (params, ret))) => {
                &&& upkeep::keeps(s, ks, after, longer)
                &&& kinds::all_well_kinded(params, longer)
                &&& kinds::well_kinded(ret, longer)
            },
            Err(err) => upkeep::has_cause(env, err),
        },
{
    reveal(call::method_callee);
    upkeep::lemma_keeps_same(s, ks);
    match env.db.method_named(receiver, name, env.resolver()) {
        Some((t, func)) => {
            let id = ExprOrPatId::ExprId(e);
            let s1 = Model { method_resolutions: s.method_resolutions.insert(id, func), ..s };
            upkeep::lemma_same_types(s, ks, s1);
            let method_ty = env.db.type_of_def(TypableDef::Function(func), Namespace::Values);
            settled::lemma_free_well_kinded(method_ty, ks);
            let generics = Some(env.db.fn_generics_of(func));
            lemma_with_substs(env, s, s1, ks, generics, args, t, method_ty)
        },
        None => lemma_with_substs(env, s, s, ks, None, args, receiver, TyModel::Unknown),
    }
}

pub proof fn lemma_with_substs<D: HirDatabase>(
    env: Env<D>,
    s: Model,
    s1: Model,
    ks: Seq<Kind>,
    generics: Option<GenericParams>,
    args: Option<GenericArgs>,
    receiver: TyModel,
    method_ty: TyModel,
) -> (longer: Seq<Kind>)
    requires
        upkeep::faithful(env.db),
        generics matches Some(g) ==> exists|func: Function|
            g == #[trigger] env.db.fn_generics_of(func),
        upkeep::keeps(s, ks, s1, ks),
        kinds::well_kinded(receiver, ks),
        kinds::well_kinded(method_ty, ks),
    ensures
        match call::method_substs(env, s1, generics, args, receiver) {
            Err(err) => upkeep::has_cause(env, err),
            Ok((s2, substs)) => match context::insert_in(s2, ty::with_params(method_ty, substs)) {
                Err(err) => upkeep::has_cause(env, err),
                Ok((s3, t)) => match call::chosen_method(env, s3, t, receiver) {
                    Ok((after, (params, ret))) => {
                        &&& upkeep::keeps(s, ks, after, longer)
                        &&& kinds::all_well_kinded(params, longer)
                        &&& kinds::well_kinded(ret, longer)
                    },
                    Err(err) => upkeep::has_cause(env, err),
                },
            },
        },
{
    let k2 = lemma_method_substs(env, s1, ks, generics, args, receiver);
    if let Ok((s2, substs)) = call::method_substs(env, s1, generics, args, receiver) {
        upkeep::lemma_keeps_trans(s, ks, s1, ks, s2, k2);
        kinds::lemma_well_kinded_extends(method_ty, ks, k2);
        let with = ty::with_params(method_ty, substs);
        let k3 = upkeep::lemma_insert_in(s2, k2, with);
        if let Ok((s3, t)) = context::insert_in(s2, with) {
            upkeep::lemma_keeps_trans(s, ks, s2, k2, s3, k3);
            kinds::lemma_well_kinded_extends(receiver, ks, k3);
            lemma_chosen_method(env, s3, k3, t, receiver);
            if let Ok((after, _)) = call::chosen_method(env, s3, t, receiver) {
                upkeep::lemma_keeps_trans(s, ks, s3, k3, after, k3);
            }
        }
        k3
    } else {
        ks
    }
}

pub proof fn lemma_chosen_method<D: HirDatabase>(
    env: Env<D>,
    s: Model,
    ks: Seq<Kind>,
    method_ty: TyModel,
    receiver: TyModel,
)
    requires
        upkeep::faithful(env.db),
        upkeep::sound(s, ks),
        kinds::well_kinded(method_ty, ks),
        kinds::well_kinded(receiver, ks),
    ensures
        match call::chosen_method(env, s, method_ty, receiver) {
            Ok((after, (params, ret))) => {
                &&& upkeep::keeps(s, ks, after, ks)
                &&& kinds::all_well_kinded(params, ks)
                &&& kinds::well_kinded(ret, ks)
            },
            Err(err) => upkeep::has_cause(env, err),
        },
{
    lemma_call_obligation(env, s, ks, method_ty);
    if let Ok(s1) = call::with_call_obligation(env, s, method_ty) {
        let sig = env.db.signature_of_callable(method_ty);
        let (expected, params, ret) = call::method_parts(sig);
        assert(kinds::well_kinded(expected, ks) && kinds::all_well_kinded(params, ks)
            && kinds::well_kinded(ret, ks)) by {
            if let Some(sig) = sig {
                assert(kinds::all_well_kinded(sig.params, ks));
                if sig.params.len() > 0 {
                    assert forall|i: int| 0 <= i < params.len() implies kinds::well_kinded(
                        #[trigger] params[i],
                        ks,
                    ) by {
                        assert(params[i] == sig.params[i + 1]);
                    }
                }
            }
        }
        if let Ok(actual) = call::auto_referenced(expected, receiver) {
            assert(kinds::well_kinded(actual, ks));
            upkeep::lemma_unify_in(s1, ks, expected, actual);
            if let Ok((after, _)) = context::unify_in(s1, expected, actual) {
                upkeep::lemma_keeps_trans(s, ks, s1, ks, after, ks);
            }
        }
    }
}

pub proof fn lemma_first_field<D: HirDatabase>(
    db: &D,
    ks: Seq<Kind>,
    tys: Seq<TyModel>,
    name: Seq<char>,
)
    requires
        upkeep::faithful(db),
        kinds::all_well_kinded(tys, ks),
    ensures
        rules::first_field(db, tys, name) matches Some((t, _)) ==> kinds::well_kinded(t, ks),
    decreases tys.len(),
{
    if tys.len() > 0 {
        if let TyModel::Apply { ctor, params } = tys[0] {
            assert(kinds::well_kinded(tys[0], ks));
            if let TypeCtor::Adt(AdtDef::Struct(strukt)) = ctor {
                if let Some(field) = db.field_named(VariantDef::Struct(strukt), name) {
                    settled::lemma_free_well_kinded(db.field_type(field), ks);
                    upkeep::lemma_subst_well_kinded(db.field_type(field), params, ks);
                }
            }
        }
        lemma_first_field(db, ks, tys.skip(1), name);
    }
}

/// What a field access keeps.
pub proof fn lemma_field_access<D: HirDatabase>(
    env: Env<D>,
    s: Model,
    ks: Seq<Kind>,
    e: ExprId,
    receiver: TyModel,
    name: Seq<char>,
) -> (longer: Seq<Kind>)
    requires
        upkeep::faithful(env.db),
        upkeep::sound(s, ks),
        kinds::well_kinded(receiver, ks),
    ensures
        upkeep::keeps_ty_in(env, s, ks, rules::field_access(env, s, e, receiver, name), longer),
{
    reveal(rules::field_access);
    let tys = env.db.derefs(receiver);
    lemma_first_field(env.db, ks, tys, name);
    match rules::first_field(env.db, tys, name) {
        Some((t, Some(field))) => {
            let id = ExprOrPatId::ExprId(e);
            let s1 = Model { field_resolutions: s.field_resolutions.insert(id, field), ..s };
            upkeep::lemma_same_types(s, ks, s1);
            let longer = upkeep::lemma_insert_in(s1, ks, t);
            if let Ok((after, _)) = context::insert_in(s1, t) {
                upkeep::lemma_keeps_trans(s, ks, s1, ks, after, longer);
            }
            longer
        },
        Some((t, None)) => upkeep::lemma_insert_in(s, ks, t),
        None => upkeep::lemma_insert_in(s, ks, TyModel::Unknown),
    }
}

pub proof fn lemma_record_expr<D: HirDatabase>(
    env: Env<D>,
    s: Model,
    ks: Seq<Kind>,
    e: ExprId,
    t: TyModel,
    expected: TyModel,
) -> (longer: Seq<Kind>)
    requires
        upkeep::faithful(env.db),
        upkeep::sound(s, ks),
        kinds::well_kinded(t, ks),
        kinds::well_kinded(expected, ks),
    ensures
        match rules::record_expr(env, s, e, t, expected) {
            Ok((after, u)) => {
                &&& upkeep::keeps(s, ks, after, longer)
                &&& kinds::well_kinded(u, longer)
                &&& settled::no_known(after.vars, u)
                &&& u != TyModel::Unknown
            },
            Err(err) => upkeep::has_cause(env, err),
        },
{
    reveal(rules::record_expr);
    let longer = upkeep::lemma_insert_shallow_in(s, ks, t);
    if let Ok((s1, t1)) = context::insert_shallow_in(s, t) {
        kinds::lemma_well_kinded_extends(expected, ks, longer);
        upkeep::lemma_unify_in(s1, longer, t1, expected);
        if let Ok((s2, _)) = context::unify_in(s1, t1, expected) {
            upkeep::lemma_keeps_trans(s, ks, s1, longer, s2, longer);
            upkeep::lemma_resolved_in(env.db, s2, longer, t1);
            if let Ok((s3, u)) = context::resolved(env.db, s2, t1) {
                upkeep::lemma_keeps_trans(s, ks, s2, longer, s3, longer);
                upkeep::lemma_write_expr_ty(s3, longer, e, u);
                let after = Model { type_of_expr: s3.type_of_expr.insert(e.0, u), ..s3 };
                upkeep::lemma_keeps_trans(s, ks, s3, longer, after, longer);
            }
        }
    }
    longer
}

pub proof fn lemma_declared_ty<D: HirDatabase>(
    env: Env<D>,
    s: Model,
    ks: Seq<Kind>,
    type_ref: Option<TypeRef>,
) -> (longer: Seq<Kind>)
    requires
        upkeep::faithful(env.db),
        upkeep::sound(s, ks),
    ensures
        upkeep::keeps_ty_in(env, s, ks, rules::declared_ty(env, s, type_ref), longer),
{
    upkeep::lemma_keeps_same(s, ks);
    match type_ref {
        Some(type_ref) => upkeep::lemma_make_ty(env, s, ks, type_ref),
        None => ks,
    }
}

pub proof fn lemma_closure_params<D: HirDatabase>(
    env: Env<D>,
    s: Model,
    ks: Seq<Kind>,
    parent: ExprId,
    pats: Seq<PatId>,
    types: Seq<Option<TypeRef>>,
) -> (longer: Seq<Kind>)
    requires
        upkeep::faithful(env.db),
        env.body.wf(),
        body::all_pats_within(pats, parent.0 as nat, env.body.pat_seq()),
        pats.len() == types.len(),
        upkeep::sound(s, ks),
    ensures
        upkeep::keeps_all_in(env, s, ks, expr::closure_params(env, s, parent, pats, types), longer),
    decreases parent.0, 1nat, 0nat, 0nat, pats.len(),
{
    upkeep::lemma_keeps_same(s, ks);
    if pats.len() == 0 {
        ks
    } else {
        let k1 = lemma_declared_ty(env, s, ks, types[0]);
        if let Ok((s1, t)) = rules::declared_ty(env, s, types[0]) {
            let k2 = pat_upkeep::lemma_pat_ty(env, s1, k1, pats[0], t, BindingMode::Move);
            if let Ok((s2, _)) = pat::pat_ty(env, s1, pats[0], t, BindingMode::Move) {
                upkeep::lemma_keeps_trans(s, ks, s1, k1, s2, k2);
                let rest = pats.skip(1);
                let longer = lemma_closure_params(env, s2, k2, parent, rest, types.skip(1));
                if let Ok(after) = expr::closure_params(env, s2, parent, rest, types.skip(1)) {
                    upkeep::lemma_keeps_trans(s, ks, s2, k2, after, longer);
                }
                longer
            } else {
                ks
            }
        } else {
            ks
        }
    }
}

pub proof fn lemma_alternatives<D: HirDatabase>(
    env: Env<D>,
    s: Model,
    ks: Seq<Kind>,
    parent: ExprId,
    pats: Seq<PatId>,
    t: TyModel,
) -> (longer: Seq<Kind>)
    requires
        upkeep::faithful(env.db),
        env.body.wf(),
        body::all_pats_within(pats, parent.0 as nat, env.body.pat_seq()),
        upkeep::sound(s, ks),
        kinds::well_kinded(t, ks),
    ensures
        upkeep::keeps_all_in(env, s, ks, expr::alternatives(env, s, parent, pats, t), longer),
    decreases parent.0, 1nat, 0nat, 0nat, pats.len(),
{
    upkeep::lemma_keeps_same(s, ks);
    if pats.len() == 0 {
        ks
    } else {
        let k1 = pat_upkeep::lemma_pat_ty(env, s, ks, pats[0], t, BindingMode::Move);
        if let Ok((s1, _)) = pat::pat_ty(env, s, pats[0], t, BindingMode::Move) {
            kinds::lemma_well_kinded_extends(t, ks, k1);
            let rest = pats.skip(1);
            let longer = lemma_alternatives(env, s1, k1, parent, rest, t);
            if let Ok(after) = expr::alternatives(env, s1, parent, rest, t) {
                upkeep::lemma_keeps_trans(s, ks, s1, k1, after, longer);
            }
            longer
        } else {
            ks
        }
    }
}

/// Whether a step on an expression keeps what it should, and the type that it gives is not
/// unknown and has no variables with known types in it.
pub open spec fn expr_kept<D: HirDatabase>(
    env: Env<D>,
    s: Model,
    ks: Seq<Kind>,
    e: ExprId,
    expected: TyModel,
    longer: Seq<Kind>,
) -> bool {
    match expr::expr_ty(env, s, e, expected) {
        Ok((after, t)) => {
            &&& upkeep::keeps(s, ks, after, longer)
            &&& kinds::well_kinded(t, longer)
            &&& settled::no_known(after.vars, t)
            &&& t != TyModel::Unknown
        },
        Err(err) => upkeep::has_cause(env, err),
    }
}

/// What inferring an expression keeps.
pub proof fn lemma_expr_ty<D: HirDatabase>(
    env: Env<D>,
    s: Model,
    ks: Seq<Kind>,
    e: ExprId,
    expected: TyModel,
) -> (longer: Seq<Kind>)
    requires
        upkeep::faithful(env.db),
        env.body.wf(),
        e.0 < env.body.expr_seq().len(),
        upkeep::sound(s, ks),
        kinds::well_kinded(expected, ks),
    ensures
        expr_kept(env, s, ks, e, expected, longer),
    decreases e.0, 4nat, 0nat, 0nat, 0nat,
{
    let mid = lemma_rule_ty(env, s, ks, e, expected);
    if let Ok((s1, t)) = expr::rule_ty(env, s, e, expected) {
        kinds::lemma_well_kinded_extends(expected, ks, mid);
        let longer = lemma_record_expr(env, s1, mid, e, t, expected);
        if let Ok((after, _)) = rules::record_expr(env, s1, e, t, expected) {
            upkeep::lemma_keeps_trans(s, ks, s1, mid, after, longer);
        }
        longer
    } else {
        ks
    }
}

pub proof fn lemma_rule_ty<D: HirDatabase>(
    env: Env<D>,
    s: Model,
    ks: Seq<Kind>,
    e: ExprId,
    expected: TyModel,
) -> (longer: Seq<Kind>)
    requires
        upkeep::faithful(env.db),
        env.body.wf(),
        e.0 < env.body.expr_seq().len(),
        upkeep::sound(s, ks),
        kinds::well_kinded(expected, ks),
    ensures
        upkeep::keeps_ty_in(env, s, ks, expr::rule_ty(env, s, e, expected), longer),
    decreases e.0, 3nat, 0nat, 0nat, 0nat,
{
    let node = env.body.expr_seq()[e.0 as int];
    assert(node.below(e.0 as nat, env.body.pat_seq()));
    upkeep::lemma_keeps_same(s, ks);
    match node {
        Expr::Missing => ks,
        Expr::If { condition, then_branch, else_branch } => {
            lemma_if_ty(env, s, ks, e, condition, then_branch, else_branch, expected)
        },
        Expr::Block { statements, tail } => {
            lemma_block_ty(env, s, ks, e, statements@, tail, expected)
        },
        Expr::Loop { body } => lemma_loop_ty(env, s, ks, e, body),
        Expr::While { condition, body } => lemma_while_ty(env, s, ks, e, condition, body),
        Expr::For { iterable, pat, body } => lemma_for_ty(env, s, ks, e, iterable, pat, body),
        Expr::Lambda { args, arg_types, body } => {
            lemma_closure_ty(env, s, ks, e, args@, arg_types@, body)
        },
        Expr::Call { callee, args } => lemma_call_ty(env, s, ks, e, callee, args@),
        Expr::MethodCall { receiver, method_name, args, generic_args } => {
            lemma_method_call_ty(env, s, ks, e, receiver, args@, method_name@, generic_args)
        },
        Expr::Match { expr, arms } => lemma_match_ty(env, s, ks, e, expr, arms@, expected),
        Expr::Path(p) => {
            let id = ExprOrPatId::ExprId(e);
            pat_upkeep::lemma_path_ty(env, s, ks, Resolver::Expr(env.owner, e), p, id)
        },
        Expr::Continue => ks,
        Expr::Break { expr } => lemma_maybe_then_never(env, s, ks, e, expr, TyModel::Unknown),
        Expr::Return { expr } => {
            upkeep::lemma_return_ty(s, ks);
            lemma_maybe_then_never(env, s, ks, e, expr, s.return_ty)
        },
        Expr::StructLit { path, fields, spread } => {
            lemma_struct_lit_ty(env, s, ks, e, path, fields@, spread)
        },
        Expr::Field { expr, name } => lemma_field_ty(env, s, ks, e, expr, name@),
        Expr::Try { expr } => lemma_expr_ty(env, s, ks, expr, TyModel::Unknown),
        Expr::Cast { expr, type_ref } => lemma_cast_ty(env, s, ks, e, expr, type_ref),
        Expr::Ref { expr, mutability } => {
            lemma_ref_ty(env, s, ks, e, expr, mutability, expected)
        },
        Expr::UnaryOp { expr, op } => lemma_unary_op_ty(env, s, ks, e, expr, op),
        Expr::BinaryOp { lhs, rhs, op: Some(op) } => lemma_binary_ty(env, s, ks, e, lhs, rhs, op),
        Expr::BinaryOp { lhs, rhs, op: None } => lemma_operands_ty(env, s, ks, e, lhs, rhs),
        Expr::Tuple { exprs } => lemma_expr_tys(env, s, ks, e, exprs@),
        Expr::Array(array) => lemma_array_ty(env, s, ks, e, array, expected),
        Expr::Literal(literal) => {
            lemma_literal_ty(literal, ks);
            ks
        },
    }
}

pub proof fn lemma_literal_ty(literal: Literal, ks: Seq<Kind>)
    ensures
        kinds::well_kinded(rules::literal_ty(literal), ks),
{
    reveal_with_fuel(kinds::well_kinded, 3);
}

pub proof fn lemma_if_ty<D: HirDatabase>(
    env: Env<D>,
    s: Model,
    ks: Seq<Kind>,
    parent: ExprId,
    condition: ExprId,
    then_branch: ExprId,
    else_branch: Option<ExprId>,
    expected: TyModel,
) -> (longer: Seq<Kind>)
    requires
        upkeep::faithful(env.db),
        env.body.wf(),
        parent.0 < env.body.expr_seq().len(),
        condition.0 < parent.0,
        then_branch.0 < parent.0,
        body::opt_expr_below(else_branch, parent.0 as nat),
        upkeep::sound(s, ks),
        kinds::well_kinded(expected, ks),
    ensures
        upkeep::keeps_ty_in(
            env,
            s,
            ks,
            expr::if_ty(env, s, parent, condition, then_branch, else_branch, expected),
            longer,
        ),
    decreases parent.0, 2nat, 0nat, 0nat, 0nat,
{
    let k1 = lemma_expr_ty(env, s, ks, condition, rules::bool_ty());
    if let Ok((s1, _)) = expr::expr_ty(env, s, condition, rules::bool_ty()) {
        kinds::lemma_well_kinded_extends(expected, ks, k1);
        let k2 = lemma_expr_ty(env, s1, k1, then_branch, expected);
        if let Ok((s2, then_ty)) = expr::expr_ty(env, s1, then_branch, expected) {
            upkeep::lemma_keeps_trans(s, ks, s1, k1, s2, k2);
            match else_branch {
                Some(other) => {
                    kinds::lemma_well_kinded_extends(expected, k1, k2);
                    let k3 = lemma_expr_ty(env, s2, k2, other, expected);
                    if let Ok((s3, _)) = expr::expr_ty(env, s2, other, expected) {
                        upkeep::lemma_keeps_trans(s, ks, s2, k2, s3, k3);
                        kinds::lemma_well_kinded_extends(then_ty, k2, k3);
                    }
                    k3
                },
                None => {
                    upkeep::lemma_unify_in(s2, k2, then_ty, ty::unit());
                    if let Ok((s3, _)) = context::unify_in(s2, then_ty, ty::unit()) {
                        upkeep::lemma_keeps_trans(s, ks, s2, k2, s3, k2);
                    }
                    k2
                },
            }
        } else {
            ks
        }
    } else {
        ks
    }
}

/// What inferring a block keeps.
pub proof fn lemma_block_ty<D: HirDatabase>(
    env: Env<D>,
    s: Model,
    ks: Seq<Kind>,
    parent: ExprId,
    statements: Seq<Statement>,
    tail: Option<ExprId>,
    expected: TyModel,
) -> (longer: Seq<Kind>)
    requires
        upkeep::faithful(env.db),
        env.body.wf(),
        parent.0 < env.body.expr_seq().len(),
        forall|i: int|
            0 <= i < statements.len() ==> (#[trigger] statements[i]).below(
                parent.0 as nat,
                env.body.pat_seq(),
            ),
        body::opt_expr_below(tail, parent.0 as nat),
        upkeep::sound(s, ks),
        kinds::well_kinded(expected, ks),
    ensures
        upkeep::keeps_ty_in(
            env,
            s,
            ks,
            expr::block_ty(env, s, parent, statements, tail, expected),
            longer,
        ),
        expr::block_ty(env, s, parent, statements, tail, expected) matches Ok((after, t))
            ==> settled::no_known(after.vars, t),
    decreases parent.0, 2nat, 0nat, 0nat, 0nat,
{
    let k1 = lemma_after_statements(env, s, ks, parent, statements);
    if let Ok(s1) = expr::after_statements(env, s, parent, statements) {
        match tail {
            Some(tail) => {
                kinds::lemma_well_kinded_extends(expected, ks, k1);
                let k2 = lemma_expr_ty(env, s1, k1, tail, expected);
                if let Ok((s2, _)) = expr::expr_ty(env, s1, tail, expected) {
                    upkeep::lemma_keeps_trans(s, ks, s1, k1, s2, k2);
                }
                k2
            },
            None => k1,
        }
    } else {
        ks
    }
}

pub proof fn lemma_after_statements<D: HirDatabase>(
    env: Env<D>,
    s: Model,
    ks: Seq<Kind>,
    parent: ExprId,
    statements: Seq<Statement>,
) -> (longer: Seq<Kind>)
    requires
        upkeep::faithful(env.db),
        env.body.wf(),
        parent.0 < env.body.expr_seq().len(),
        forall|i: int|
            0 <= i < statements.len() ==> (#[trigger] statements[i]).below(
                parent.0 as nat,
                env.body.pat_seq(),
            ),
        upkeep::sound(s, ks),
    ensures
        upkeep::keeps_all_in(
            env,
            s,
            ks,
            expr::after_statements(env, s, parent, statements),
            longer,
        ),
    decreases parent.0, 1nat, 1nat, 0nat, statements.len(),
{
    upkeep::lemma_keeps_same(s, ks);
    if statements.len() == 0 {
        ks
    } else {
        let first = statements[0];
        let rest = statements.skip(1);
        assert forall|i: int| 0 <= i < rest.len() implies (#[trigger] rest[i]).below(
            parent.0 as nat,
            env.body.pat_seq(),
        ) by {
            assert(rest[i] == statements[i + 1]);
        }
        let (k1, next) = lemma_statement(env, s, ks, parent, first);
        if let Some(s1) = next {
            let longer = lemma_after_statements(env, s1, k1, parent, rest);
            if let Ok(after) = expr::after_statements(env, s1, parent, rest) {
                upkeep::lemma_keeps_trans(s, ks, s1, k1, after, longer);
            }
            longer
        } else {
            ks
        }
    }
}

/// What a statement keeps; with what is known after it, if it does not fail.
pub proof fn lemma_statement<D: HirDatabase>(
    env: Env<D>,
    s: Model,
    ks: Seq<Kind>,
    parent: ExprId,
    st: Statement,
) -> (r: (Seq<Kind>, Option<Model>))
    requires
        upkeep::faithful(env.db),
        env.body.wf(),
        parent.0 < env.body.expr_seq().len(),
        st.below(parent.0 as nat, env.body.pat_seq()),
        upkeep::sound(s, ks),
    ensures
        match st {
            Statement::Let { pat, type_ref, initializer } => match rules::declared_ty(
                env,
                s,
                type_ref,
            ) {
                Err(err) => upkeep::has_cause(env, err) && r.1 is None,
                Ok((s1, t)) => match context::insert_in(s1, t) {
                    Err(err) => upkeep::has_cause(env, err) && r.1 is None,
                    Ok((s2, declared)) => match (match initializer {
                        Some(init) => expr::expr_ty(env, s2, init, declared),
                        None => Ok((s2, declared)),
                    }) {
                        Err(err) => upkeep::has_cause(env, err) && r.1 is None,
                        Ok((s3, t)) => match pat::pat_ty(env, s3, pat, t, BindingMode::Move) {
                            Err(err) => upkeep::has_cause(env, err) && r.1 is None,
                            Ok((s4, _)) => r.1 == Some(s4),
                        },
                    },
                },
            },
            Statement::Expr(e) => match expr::expr_ty(env, s, e, TyModel::Unknown) {
                Err(err) => upkeep::has_cause(env, err) && r.1 is None,
                Ok((s1, _)) => r.1 == Some(s1),
            },
        },
        r.1 matches Some(after) ==> upkeep::keeps(s, ks, after, r.0),
    decreases parent.0, 1nat, 1nat, 0nat, 0nat,
{
    match st {
        Statement::Let { pat, type_ref, initializer } => {
            let k1 = lemma_declared_ty(env, s, ks, type_ref);
            if let Ok((s1, t)) = rules::declared_ty(env, s, type_ref) {
                let k2 = upkeep::lemma_insert_in(s1, k1, t);
                if let Ok((s2, declared)) = context::insert_in(s1, t) {
                    upkeep::lemma_keeps_trans(s, ks, s1, k1, s2, k2);
                    match initializer {
                        Some(init) => {
                            let k3 = lemma_expr_ty(env, s2, k2, init, declared);
                            if let Ok((s3, u)) = expr::expr_ty(env, s2, init, declared) {
                                upkeep::lemma_keeps_trans(s, ks, s2, k2, s3, k3);
                                let k4 = pat_upkeep::lemma_pat_ty(
                                    env,
                                    s3,
                                    k3,
                                    pat,
                                    u,
                                    BindingMode::Move,
                                );
                                if let Ok((s4, _)) = pat::pat_ty(
                                    env,
                                    s3,
                                    pat,
                                    u,
                                    BindingMode::Move,
                                ) {
                                    upkeep::lemma_keeps_trans(s, ks, s3, k3, s4, k4);
                                    (k4, Some(s4))
                                } else {
                                    (ks, None)
                                }
                            } else {
                                (ks, None)
                            }
                        },
                        None => {
                            let k4 = pat_upkeep::lemma_pat_ty(
                                env,
                                s2,
                                k2,
                                pat,
                                declared,
                                BindingMode::Move,
                            );
                            if let Ok((s4, _)) = pat::pat_ty(
                                env,
                                s2,
                                pat,
                                declared,
                                BindingMode::Move,
                            ) {
                                upkeep::lemma_keeps_trans(s, ks, s2, k2, s4, k4);
                                (k4, Some(s4))
                            } else {
                                (ks, None)
                            }
                        },
                    }
                } else {
                    (ks, None)
                }
            } else {
                (ks, None)
            }
        },
        Statement::Expr(e) => {
            let k1 = lemma_expr_ty(env, s, ks, e, TyModel::Unknown);
            if let Ok((s1, _)) = expr::expr_ty(env, s, e, TyModel::Unknown) {
                (k1, Some(s1))
            } else {
                (ks, None)
            }
        },
    }
}

pub proof fn lemma_loop_ty<D: HirDatabase>(
    env: Env<D>,
    s: Model,
    ks: Seq<Kind>,
    parent: ExprId,
    body: ExprId,
) -> (longer: Seq<Kind>)
    requires
        upkeep::faithful(env.db),
        env.body.wf(),
        parent.0 < env.body.expr_seq().len(),
        body.0 < parent.0,
        upkeep::sound(s, ks),
    ensures
        upkeep::keeps_ty_in(env, s, ks, expr::loop_ty(env, s, parent, body), longer),
    decreases parent.0, 2nat, 0nat, 0nat, 0nat,
{
    lemma_expr_ty(env, s, ks, body, ty::unit())
}

pub proof fn lemma_while_ty<D: HirDatabase>(
    env: Env<D>,
    s: Model,
    ks: Seq<Kind>,
    parent: ExprId,
    condition: ExprId,
    body: ExprId,
) -> (longer: Seq<Kind>)
    requires
        upkeep::faithful(env.db),
        env.body.wf(),
        parent.0 < env.body.expr_seq().len(),
        condition.0 < parent.0,
        body.0 < parent.0,
        upkeep::sound(s, ks),
    ensures
        upkeep::keeps_ty_in(env, s, ks, expr::while_ty(env, s, parent, condition, body), longer),
    decreases parent.0, 2nat, 0nat, 0nat, 0nat,
{
    let k1 = lemma_expr_ty(env, s, ks, condition, rules::bool_ty());
    if let Ok((s1, _)) = expr::expr_ty(env, s, condition, rules::bool_ty()) {
        let k2 = lemma_expr_ty(env, s1, k1, body, ty::unit());
        if let Ok((s2, _)) = expr::expr_ty(env, s1, body, ty::unit()) {
            upkeep::lemma_keeps_trans(s, ks, s1, k1, s2, k2);
        }
        k2
    } else {
        ks
    }
}

pub proof fn lemma_for_ty<D: HirDatabase>(
    env: Env<D>,
    s: Model,
    ks: Seq<Kind>,
    parent: ExprId,
    iterable: ExprId,
    p: PatId,
    body: ExprId,
) -> (longer: Seq<Kind>)
    requires
        upkeep::faithful(env.db),
        env.body.wf(),
        parent.0 < env.body.expr_seq().len(),
        iterable.0 < parent.0,
        body::pat_within(p, parent.0 as nat, env.body.pat_seq()),
        body.0 < parent.0,
        upkeep::sound(s, ks),
    ensures
        upkeep::keeps_ty_in(env, s, ks, expr::for_ty(env, s, parent, iterable, p, body), longer),
    decreases parent.0, 2nat, 0nat, 0nat, 0nat,
{
    let k1 = lemma_expr_ty(env, s, ks, iterable, TyModel::Unknown);
    if let Ok((s1, _)) = expr::expr_ty(env, s, iterable, TyModel::Unknown) {
        let k2 = pat_upkeep::lemma_pat_ty(env, s1, k1, p, TyModel::Unknown, BindingMode::Move);
        if let Ok((s2, _)) = pat::pat_ty(env, s1, p, TyModel::Unknown, BindingMode::Move) {
            upkeep::lemma_keeps_trans(s, ks, s1, k1, s2, k2);
            let k3 = lemma_expr_ty(env, s2, k2, body, ty::unit());
            if let Ok((s3, _)) = expr::expr_ty(env, s2, body, ty::unit()) {
                upkeep::lemma_keeps_trans(s, ks, s2, k2, s3, k3);
            }
            k3
        } else {
            ks
        }
    } else {
        ks
    }
}

pub proof fn lemma_closure_ty<D: HirDatabase>(
    env: Env<D>,
    s: Model,
    ks: Seq<Kind>,
    parent: ExprId,
    args: Seq<PatId>,
    arg_types: Seq<Option<TypeRef>>,
    body: ExprId,
) -> (longer: Seq<Kind>)
    requires
        upkeep::faithful(env.db),
        env.body.wf(),
        parent.0 < env.body.expr_seq().len(),
        env.body.expr_seq()[parent.0 as int] matches Expr::Lambda { args: a, arg_types: b, .. }
            && a@ == args && b@ == arg_types,
        body::all_pats_within(args, parent.0 as nat, env.body.pat_seq()),
        body.0 < parent.0,
        upkeep::sound(s, ks),
    ensures
        upkeep::keeps_ty_in(
            env,
            s,
            ks,
            expr::closure_ty(env, s, parent, args, arg_types, body),
            longer,
        ),
    decreases parent.0, 2nat, 0nat, 0nat, 0nat,
{
    if args.len() != arg_types.len() {
        ks
    } else {
        let k1 = lemma_closure_params(env, s, ks, parent, args, arg_types);
        if let Ok(s1) = expr::closure_params(env, s, parent, args, arg_types) {
            let k2 = lemma_expr_ty(env, s1, k1, body, TyModel::Unknown);
            if let Ok((s2, _)) = expr::expr_ty(env, s1, body, TyModel::Unknown) {
                upkeep::lemma_keeps_trans(s, ks, s1, k1, s2, k2);
            }
            k2
        } else {
            ks
        }
    }
}

pub proof fn lemma_call_ty<D: HirDatabase>(
    env: Env<D>,
    s: Model,
    ks: Seq<Kind>,
    parent: ExprId,
    callee: ExprId,
    args: Seq<ExprId>,
) -> (longer: Seq<Kind>)
    requires
        upkeep::faithful(env.db),
        env.body.wf(),
        parent.0 < env.body.expr_seq().len(),
        callee.0 < parent.0,
        body::all_exprs_below(args, parent.0 as nat),
        upkeep::sound(s, ks),
    ensures
        upkeep::keeps_ty_in(env, s, ks, expr::call_ty(env, s, parent, callee, args), longer),
    decreases parent.0, 2nat, 0nat, 0nat, 0nat,
{
    let k1 = lemma_expr_ty(env, s, ks, callee, TyModel::Unknown);
    if let Ok((s1, callee_ty)) = expr::expr_ty(env, s, callee, TyModel::Unknown) {
        let sig = env.db.signature_of_callable(callee_ty);
        let (params, ret) = match sig {
            Some(sig) => (sig.params, sig.ret),
            None => (Seq::empty(), TyModel::Unknown),
        };
        let k2 = lemma_after_args(env, s1, k1, parent, args, params);
        if let Ok(s2) = expr::after_args(env, s1, parent, args, params) {
            upkeep::lemma_keeps_trans(s, ks, s1, k1, s2, k2);
            kinds::lemma_well_kinded_extends(ret, k1, k2);
        }
        k2
    } else {
        ks
    }
}

pub proof fn lemma_after_args<D: HirDatabase>(
    env: Env<D>,
    s: Model,
    ks: Seq<Kind>,
    parent: ExprId,
    args: Seq<ExprId>,
    params: Seq<TyModel>,
) -> (longer: Seq<Kind>)
    requires
        upkeep::faithful(env.db),
        env.body.wf(),
        parent.0 < env.body.expr_seq().len(),
        body::all_exprs_below(args, parent.0 as nat),
        upkeep::sound(s, ks),
        kinds::all_well_kinded(params, ks),
    ensures
        upkeep::keeps_all_in(env, s, ks, expr::after_args(env, s, parent, args, params), longer),
    decreases parent.0, 1nat, 1nat, 0nat, args.len(),
{
    upkeep::lemma_keeps_same(s, ks);
    if args.len() == 0 {
        ks
    } else {
        let (expected, rest) = if params.len() > 0 {
            (params[0], params.skip(1))
        } else {
            (TyModel::Unknown, params)
        };
        let k1 = lemma_expr_ty(env, s, ks, args[0], expected);
        if let Ok((s1, _)) = expr::expr_ty(env, s, args[0], expected) {
            let others = args.skip(1);
            kinds::lemma_all_well_kinded_extends(rest, ks, k1);
            let longer = lemma_after_args(env, s1, k1, parent, others, rest);
            if let Ok(after) = expr::after_args(env, s1, parent, others, rest) {
                upkeep::lemma_keeps_trans(s, ks, s1, k1, after, longer);
            }
            longer
        } else {
            ks
        }
    }
}

/// What inferring a method call keeps.
pub proof fn lemma_method_call_ty<D: HirDatabase>(
    env: Env<D>,
    s: Model,
    ks: Seq<Kind>,
    parent: ExprId,
    receiver: ExprId,
    args: Seq<ExprId>,
    name: Seq<char>,
    generic_args: Option<GenericArgs>,
) -> (longer: Seq<Kind>)
    requires
        upkeep::faithful(env.db),
        env.body.wf(),
        parent.0 < env.body.expr_seq().len(),
        receiver.0 < parent.0,
        body::all_exprs_below(args, parent.0 as nat),
        upkeep::sound(s, ks),
    ensures
        upkeep::keeps_ty_in(
            env,
            s,
            ks,
            expr::method_call_ty(env, s, parent, receiver, args, name, generic_args),
            longer,
        ),
        expr::method_call_ty(env, s, parent, receiver, args, name, generic_args) matches Ok((
            after,
            t,
        )) ==> settled::no_known(after.vars, t),
    decreases parent.0, 2nat, 0nat, 0nat, 0nat,
{
    let k1 = lemma_expr_ty(env, s, ks, receiver, TyModel::Unknown);
    if let Ok((s1, receiver_ty)) = expr::expr_ty(env, s, receiver, TyModel::Unknown) {
        let k2 = lemma_method_callee(env, s1, k1, parent, receiver_ty, name, generic_args);
        if let Ok((s2, (params, ret))) = call::method_callee(
            env,
            s1,
            parent,
            receiver_ty,
            name,
            generic_args,
        ) {
            upkeep::lemma_keeps_trans(s, ks, s1, k1, s2, k2);
            let k3 = lemma_after_args(env, s2, k2, parent, args, params);
            if let Ok(s3) = expr::after_args(env, s2, parent, args, params) {
                upkeep::lemma_keeps_trans(s, ks, s2, k2, s3, k3);
                kinds::lemma_well_kinded_extends(ret, k2, k3);
                upkeep::lemma_resolved_in(env.db, s3, k3, ret);
                if let Ok((s4, _)) = context::resolved(env.db, s3, ret) {
                    upkeep::lemma_keeps_trans(s, ks, s3, k3, s4, k3);
                }
            }
            k3
        } else {
            ks
        }
    } else {
        ks
    }
}

pub proof fn lemma_match_ty<D: HirDatabase>(
    env: Env<D>,
    s: Model,
    ks: Seq<Kind>,
    parent: ExprId,
    scrutinee: ExprId,
    arms: Seq<MatchArm>,
    expected: TyModel,
) -> (longer: Seq<Kind>)
    requires
        upkeep::faithful(env.db),
        env.body.wf(),
        parent.0 < env.body.expr_seq().len(),
        scrutinee.0 < parent.0,
        forall|i: int|
            0 <= i < arms.len() ==> (#[trigger] arms[i]).below(
                parent.0 as nat,
                env.body.pat_seq(),
            ),
        upkeep::sound(s, ks),
        kinds::well_kinded(expected, ks),
    ensures
        upkeep::keeps_ty_in(
            env,
            s,
            ks,
            expr::match_ty(env, s, parent, scrutinee, arms, expected),
            longer,
        ),
    decreases parent.0, 2nat, 0nat, 0nat, 0nat,
{
    upkeep::lemma_keeps_same(s, ks);
    let k1 = if expected == TyModel::Unknown {
        upkeep::lemma_new_type_var_in(s, ks)
    } else {
        ks
    };
    if let Ok((s1, expectation)) = rules::arm_expectation(s, expected) {
        let k2 = lemma_expr_ty(env, s1, k1, scrutinee, TyModel::Unknown);
        if let Ok((s2, input)) = expr::expr_ty(env, s1, scrutinee, TyModel::Unknown) {
            upkeep::lemma_keeps_trans(s, ks, s1, k1, s2, k2);
            kinds::lemma_well_kinded_extends(expectation, k1, k2);
            let k3 = lemma_after_arms(env, s2, k2, parent, arms, input, expectation);
            if let Ok(s3) = expr::after_arms(env, s2, parent, arms, input, expectation) {
                upkeep::lemma_keeps_trans(s, ks, s2, k2, s3, k3);
                kinds::lemma_well_kinded_extends(expectation, k2, k3);
            }
            k3
        } else {
            ks
        }
    } else {
        ks
    }
}

pub proof fn lemma_after_arms<D: HirDatabase>(
    env: Env<D>,
    s: Model,
    ks: Seq<Kind>,
    parent: ExprId,
    arms: Seq<MatchArm>,
    input: TyModel,
    expected: TyModel,
) -> (longer: Seq<Kind>)
    requires
        upkeep::faithful(env.db),
        env.body.wf(),
        parent.0 < env.body.expr_seq().len(),
        forall|i: int|
            0 <= i < arms.len() ==> (#[trigger] arms[i]).below(
                parent.0 as nat,
                env.body.pat_seq(),
            ),
        upkeep::sound(s, ks),
        kinds::well_kinded(input, ks),
        kinds::well_kinded(expected, ks),
    ensures
        upkeep::keeps_all_in(
            env,
            s,
            ks,
            expr::after_arms(env, s, parent, arms, input, expected),
            longer,
        ),
    decreases parent.0, 1nat, 1nat, 0nat, arms.len(),
{
    upkeep::lemma_keeps_same(s, ks);
    if arms.len() == 0 {
        ks
    } else {
        let arm = arms[0];
        let rest = arms.skip(1);
        assert forall|i: int| 0 <= i < rest.len() implies (#[trigger] rest[i]).below(
            parent.0 as nat,
            env.body.pat_seq(),
        ) by {
            assert(rest[i] == arms[i + 1]);
        }
        let (k3, next) = lemma_arm(env, s, ks, parent, arm, input, expected);
        if let Some(s3) = next {
            kinds::lemma_well_kinded_extends(input, ks, k3);
            kinds::lemma_well_kinded_extends(expected, ks, k3);
            let longer = lemma_after_arms(env, s3, k3, parent, rest, input, expected);
            if let Ok(after) = expr::after_arms(env, s3, parent, rest, input, expected) {
                upkeep::lemma_keeps_trans(s, ks, s3, k3, after, longer);
            }
            longer
        } else {
            ks
        }
    }
}

/// What an arm keeps; with what is known after it, if it does not fail.
pub proof fn lemma_arm<D: HirDatabase>(
    env: Env<D>,
    s: Model,
    ks: Seq<Kind>,
    parent: ExprId,
    arm: MatchArm,
    input: TyModel,
    expected: TyModel,
) -> (r: (Seq<Kind>, Option<Model>))
    requires
        upkeep::faithful(env.db),
        env.body.wf(),
        parent.0 < env.body.expr_seq().len(),
        arm.below(parent.0 as nat, env.body.pat_seq()),
        upkeep::sound(s, ks),
        kinds::well_kinded(input, ks),
        kinds::well_kinded(expected, ks),
    ensures
        match expr::alternatives(env, s, parent, arm.pats@, input) {
            Err(err) => upkeep::has_cause(env, err) && r.1 is None,
            Ok(s1) => match (match arm.guard {
                Some(guard) => expr::expr_ty(env, s1, guard, rules::bool_ty()),
                None => Ok((s1, TyModel::Unknown)),
            }) {
                Err(err) => upkeep::has_cause(env, err) && r.1 is None,
                Ok((s2, _)) => match expr::expr_ty(env, s2, arm.expr, expected) {
                    Err(err) => upkeep::has_cause(env, err) && r.1 is None,
                    Ok((s3, _)) => r.1 == Some(s3),
                },
            },
        },
        r.1 matches Some(after) ==> upkeep::keeps(s, ks, after, r.0),
    decreases parent.0, 1nat, 1nat, 0nat, 0nat,
{
    let k1 = lemma_alternatives(env, s, ks, parent, arm.pats@, input);
    if let Ok(s1) = expr::alternatives(env, s, parent, arm.pats@, input) {
        upkeep::lemma_keeps_same(s1, k1);
        let k2 = match arm.guard {
            Some(guard) => lemma_expr_ty(env, s1, k1, guard, rules::bool_ty()),
            None => k1,
        };
        let guarded = match arm.guard {
            Some(guard) => expr::expr_ty(env, s1, guard, rules::bool_ty()),
            None => Ok((s1, TyModel::Unknown)),
        };
        if let Ok((s2, _)) = guarded {
            upkeep::lemma_keeps_trans(s, ks, s1, k1, s2, k2);
            kinds::lemma_well_kinded_extends(expected, ks, k2);
            let k3 = lemma_expr_ty(env, s2, k2, arm.expr, expected);
            if let Ok((s3, _)) = expr::expr_ty(env, s2, arm.expr, expected) {
                upkeep::lemma_keeps_trans(s, ks, s2, k2, s3, k3);
                (k3, Some(s3))
            } else {
                (ks, None)
            }
        } else {
            (ks, None)
        }
    } else {
        (ks, None)
    }
}

pub proof fn lemma_maybe_then_never<D: HirDatabase>(
    env: Env<D>,
    s: Model,
    ks: Seq<Kind>,
    parent: ExprId,
    value: Option<ExprId>,
    expected: TyModel,
) -> (longer: Seq<Kind>)
    requires
        upkeep::faithful(env.db),
        env.body.wf(),
        parent.0 < env.body.expr_seq().len(),
        body::opt_expr_below(value, parent.0 as nat),
        upkeep::sound(s, ks),
        kinds::well_kinded(expected, ks),
    ensures
        upkeep::keeps_ty_in(
            env,
            s,
            ks,
            expr::maybe_then_never(env, s, parent, value, expected),
            longer,
        ),
    decreases parent.0, 2nat, 0nat, 0nat, 0nat,
{
    upkeep::lemma_keeps_same(s, ks);
    match value {
        Some(value) => lemma_expr_ty(env, s, ks, value, expected),
        None => ks,
    }
}

pub proof fn lemma_struct_lit_ty<D: HirDatabase>(
    env: Env<D>,
    s: Model,
    ks: Seq<Kind>,
    parent: ExprId,
    path: Option<Path>,
    fields: Seq<StructLitField>,
    spread: Option<ExprId>,
) -> (longer: Seq<Kind>)
    requires
        upkeep::faithful(env.db),
        env.body.wf(),
        parent.0 < env.body.expr_seq().len(),
        forall|i: int| 0 <= i < fields.len() ==> (#[trigger] fields[i]).expr.0 < parent.0,
        body::opt_expr_below(spread, parent.0 as nat),
        upkeep::sound(s, ks),
    ensures
        upkeep::keeps_ty_in(
            env,
            s,
            ks,
            expr::struct_lit_ty(env, s, parent, path, fields, spread),
            longer,
        ),
    decreases parent.0, 2nat, 0nat, 0nat, 0nat,
{
    let k1 = pat_upkeep::lemma_variant_of_path(env, s, ks, path);
    if let Ok((s1, (t, def))) = path::variant_of_path(env, s, path) {
        let substs = ty::params_of(t);
        assert(kinds::all_well_kinded(substs, k1));
        let k2 = lemma_after_fields(env, s1, k1, parent, fields, 0, def, substs);
        if let Ok(s2) = expr::after_fields(env, s1, parent, fields, 0, def, substs) {
            upkeep::lemma_keeps_trans(s, ks, s1, k1, s2, k2);
            kinds::lemma_well_kinded_extends(t, k1, k2);
            match spread {
                Some(spread) => {
                    let k3 = lemma_expr_ty(env, s2, k2, spread, t);
                    if let Ok((s3, _)) = expr::expr_ty(env, s2, spread, t) {
                        upkeep::lemma_keeps_trans(s, ks, s2, k2, s3, k3);
                        kinds::lemma_well_kinded_extends(t, k2, k3);
                    }
                    k3
                },
                None => k2,
            }
        } else {
            ks
        }
    } else {
        ks
    }
}

pub proof fn lemma_after_fields<D: HirDatabase>(
    env: Env<D>,
    s: Model,
    ks: Seq<Kind>,
    parent: ExprId,
    fields: Seq<StructLitField>,
    i: int,
    def: Option<VariantDef>,
    substs: Seq<TyModel>,
) -> (longer: Seq<Kind>)
    requires
        upkeep::faithful(env.db),
        env.body.wf(),
        parent.0 < env.body.expr_seq().len(),
        forall|j: int| 0 <= j < fields.len() ==> (#[trigger] fields[j]).expr.0 < parent.0,
        0 <= i <= fields.len(),
        upkeep::sound(s, ks),
        kinds::all_well_kinded(substs, ks),
    ensures
        upkeep::keeps_all_in(
            env,
            s,
            ks,
            expr::after_fields(env, s, parent, fields, i, def, substs),
            longer,
        ),
    decreases parent.0, 1nat, 1nat, 0nat, fields.len() - i,
{
    upkeep::lemma_keeps_same(s, ks);
    if i >= fields.len() {
        ks
    } else {
        let name = fields[i].name@;
        let s0 = expr::check_field(env, s, parent, i, def, name);
        upkeep::lemma_same_types(s, ks, s0);
        let expected = pat::field_expectation(env.db, def, name, substs);
        pat_upkeep::lemma_field_expectation(env.db, ks, def, name, substs);
        let k1 = lemma_expr_ty(env, s0, ks, fields[i].expr, expected);
        if let Ok((s1, _)) = expr::expr_ty(env, s0, fields[i].expr, expected) {
            upkeep::lemma_keeps_trans(s, ks, s0, ks, s1, k1);
            kinds::lemma_all_well_kinded_extends(substs, ks, k1);
            let longer = lemma_after_fields(env, s1, k1, parent, fields, i + 1, def, substs);
            if let Ok(after) = expr::after_fields(env, s1, parent, fields, i + 1, def, substs) {
                upkeep::lemma_keeps_trans(s, ks, s1, k1, after, longer);
            }
            longer
        } else {
            ks
        }
    }
}

pub proof fn lemma_field_ty<D: HirDatabase>(
    env: Env<D>,
    s: Model,
    ks: Seq<Kind>,
    parent: ExprId,
    receiver: ExprId,
    name: Seq<char>,
) -> (longer: Seq<Kind>)
    requires
        upkeep::faithful(env.db),
        env.body.wf(),
        parent.0 < env.body.expr_seq().len(),
        receiver.0 < parent.0,
        upkeep::sound(s, ks),
    ensures
        upkeep::keeps_ty_in(env, s, ks, expr::field_ty(env, s, parent, receiver, name), longer),
    decreases parent.0, 2nat, 0nat, 0nat, 0nat,
{
    let k1 = lemma_expr_ty(env, s, ks, receiver, TyModel::Unknown);
    if let Ok((s1, receiver_ty)) = expr::expr_ty(env, s, receiver, TyModel::Unknown) {
        let k2 = lemma_field_access(env, s1, k1, parent, receiver_ty, name);
        if let Ok((s2, _)) = rules::field_access(env, s1, parent, receiver_ty, name) {
            upkeep::lemma_keeps_trans(s, ks, s1, k1, s2, k2);
        }
        k2
    } else {
        ks
    }
}

pub proof fn lemma_cast_ty<D: HirDatabase>(
    env: Env<D>,
    s: Model,
    ks: Seq<Kind>,
    parent: ExprId,
    inner: ExprId,
    type_ref: TypeRef,
) -> (longer: Seq<Kind>)
    requires
        upkeep::faithful(env.db),
        env.body.wf(),
        parent.0 < env.body.expr_seq().len(),
        inner.0 < parent.0,
        upkeep::sound(s, ks),
    ensures
        upkeep::keeps_ty_in(env, s, ks, expr::cast_ty(env, s, parent, inner, type_ref), longer),
    decreases parent.0, 2nat, 0nat, 0nat, 0nat,
{
    let k1 = lemma_expr_ty(env, s, ks, inner, TyModel::Unknown);
    if let Ok((s1, _)) = expr::expr_ty(env, s, inner, TyModel::Unknown) {
        let k2 = upkeep::lemma_make_ty(env, s1, k1, type_ref);
        if let Ok((s2, _)) = context::make_ty(env.db, env.resolver(), s1, type_ref) {
            upkeep::lemma_keeps_trans(s, ks, s1, k1, s2, k2);
        }
        k2
    } else {
        ks
    }
}

pub proof fn lemma_ref_ty<D: HirDatabase>(
    env: Env<D>,
    s: Model,
    ks: Seq<Kind>,
    parent: ExprId,
    inner: ExprId,
    mutability: Mutability,
    expected: TyModel,
) -> (longer: Seq<Kind>)
    requires
        upkeep::faithful(env.db),
        env.body.wf(),
        parent.0 < env.body.expr_seq().len(),
        inner.0 < parent.0,
        upkeep::sound(s, ks),
        kinds::well_kinded(expected, ks),
    ensures
        upkeep::keeps_ty_in(
            env,
            s,
            ks,
            expr::ref_ty(env, s, parent, inner, mutability, expected),
            longer,
        ),
    decreases parent.0, 2nat, 0nat, 0nat, 0nat,
{
    if let Ok(expectation) = rules::referent_expectation(expected) {
        assert(kinds::well_kinded(expectation, ks));
        lemma_expr_ty(env, s, ks, inner, expectation)
    } else {
        ks
    }
}

pub proof fn lemma_unary_op_ty<D: HirDatabase>(
    env: Env<D>,
    s: Model,
    ks: Seq<Kind>,
    parent: ExprId,
    inner: ExprId,
    op: UnaryOp,
) -> (longer: Seq<Kind>)
    requires
        upkeep::faithful(env.db),
        env.body.wf(),
        parent.0 < env.body.expr_seq().len(),
        inner.0 < parent.0,
        upkeep::sound(s, ks),
    ensures
        upkeep::keeps_ty_in(env, s, ks, expr::unary_op_ty(env, s, parent, inner, op), longer),
    decreases parent.0, 2nat, 0nat, 0nat, 0nat,
{
    lemma_expr_ty(env, s, ks, inner, TyModel::Unknown)
}

pub proof fn lemma_binary_ty<D: HirDatabase>(
    env: Env<D>,
    s: Model,
    ks: Seq<Kind>,
    parent: ExprId,
    lhs: ExprId,
    rhs: ExprId,
    op: BinaryOp,
) -> (longer: Seq<Kind>)
    requires
        upkeep::faithful(env.db),
        env.body.wf(),
        parent.0 < env.body.expr_seq().len(),
        lhs.0 < parent.0,
        rhs.0 < parent.0,
        upkeep::sound(s, ks),
    ensures
        upkeep::keeps_ty_in(env, s, ks, expr::binary_ty(env, s, parent, lhs, rhs, op), longer),
    decreases parent.0, 2nat, 0nat, 0nat, 0nat,
{
    let expectation = match op {
        BinaryOp::BooleanAnd | BinaryOp::BooleanOr => rules::bool_ty(),
        _ => TyModel::Unknown,
    };
    let k1 = lemma_expr_ty(env, s, ks, lhs, expectation);
    if let Ok((s1, lhs_ty)) = expr::expr_ty(env, s, lhs, expectation) {
        let rhs_expectation = env.db.rhs_expectation(op, lhs_ty);
        assert(kinds::well_kinded(rhs_expectation, k1));
        let k2 = lemma_expr_ty(env, s1, k1, rhs, rhs_expectation);
        if let Ok((s2, rhs_ty)) = expr::expr_ty(env, s1, rhs, rhs_expectation) {
            upkeep::lemma_keeps_trans(s, ks, s1, k1, s2, k2);
            assert(kinds::well_kinded(env.db.op_result(op, rhs_ty), k2));
        }
        k2
    } else {
        ks
    }
}

pub proof fn lemma_operands_ty<D: HirDatabase>(
    env: Env<D>,
    s: Model,
    ks: Seq<Kind>,
    parent: ExprId,
    lhs: ExprId,
    rhs: ExprId,
) -> (longer: Seq<Kind>)
    requires
        upkeep::faithful(env.db),
        env.body.wf(),
        parent.0 < env.body.expr_seq().len(),
        lhs.0 < parent.0,
        rhs.0 < parent.0,
        upkeep::sound(s, ks),
    ensures
        upkeep::keeps_ty_in(env, s, ks, expr::operands_ty(env, s, parent, lhs, rhs), longer),
    decreases parent.0, 2nat, 0nat, 0nat, 0nat,
{
    let k1 = lemma_expr_ty(env, s, ks, lhs, TyModel::Unknown);
    if let Ok((s1, _)) = expr::expr_ty(env, s, lhs, TyModel::Unknown) {
        let k2 = lemma_expr_ty(env, s1, k1, rhs, TyModel::Unknown);
        if let Ok((s2, _)) = expr::expr_ty(env, s1, rhs, TyModel::Unknown) {
            upkeep::lemma_keeps_trans(s, ks, s1, k1, s2, k2);
        }
        k2
    } else {
        ks
    }
}

pub proof fn lemma_expr_tys<D: HirDatabase>(
    env: Env<D>,
    s: Model,
    ks: Seq<Kind>,
    parent: ExprId,
    exprs: Seq<ExprId>,
) -> (longer: Seq<Kind>)
    requires
        upkeep::faithful(env.db),
        env.body.wf(),
        parent.0 < env.body.expr_seq().len(),
        body::all_exprs_below(exprs, parent.0 as nat),
        upkeep::sound(s, ks),
    ensures
        upkeep::keeps_tys_in(env, s, ks, expr::expr_tys(env, s, parent, exprs), longer),
    decreases parent.0, 1nat, 1nat, 0nat, exprs.len(),
{
    upkeep::lemma_keeps_same(s, ks);
    if exprs.len() == 0 {
        ks
    } else {
        let k1 = lemma_expr_ty(env, s, ks, exprs[0], TyModel::Unknown);
        if let Ok((s1, t)) = expr::expr_ty(env, s, exprs[0], TyModel::Unknown) {
            let rest = exprs.skip(1);
            let longer = lemma_expr_tys(env, s1, k1, parent, rest);
            if let Ok((after, ts)) = expr::expr_tys(env, s1, parent, rest) {
                upkeep::lemma_keeps_trans(s, ks, s1, k1, after, longer);
                kinds::lemma_well_kinded_extends(t, k1, longer);
                let all = seq![t] + ts;
                assert forall|i: int| 0 <= i < all.len() implies kinds::well_kinded(
                    #[trigger] all[i],
                    longer,
                ) by {
                    if i > 0 {
                        assert(all[i] == ts[i - 1]);
                    }
                }
            }
            longer
        } else {
            ks
        }
    }
}

pub proof fn lemma_array_ty<D: HirDatabase>(
    env: Env<D>,
    s: Model,
    ks: Seq<Kind>,
    parent: ExprId,
    array: Array,
    expected: TyModel,
) -> (longer: Seq<Kind>)
    requires
        upkeep::faithful(env.db),
        env.body.wf(),
        parent.0 < env.body.expr_seq().len(),
        match array {
            Array::ElementList(items) => body::all_exprs_below(items@, parent.0 as nat),
            Array::Repeat { initializer, repeat } => initializer.0 < parent.0 && repeat.0
                < parent.0,
        },
        upkeep::sound(s, ks),
        kinds::well_kinded(expected, ks),
    ensures
        upkeep::keeps_ty_in(env, s, ks, expr::array_ty(env, s, parent, array, expected), longer),
    decreases parent.0, 2nat, 0nat, 0nat, 0nat,
{
    upkeep::lemma_keeps_same(s, ks);
    let k1 = match expected {
        TyModel::Apply { ctor: TypeCtor::Slice, .. } | TyModel::Apply {
            ctor: TypeCtor::Array,
            ..
        } => ks,
        _ => upkeep::lemma_new_type_var_in(s, ks),
    };
    if let Ok((s1, elem)) = rules::element_ty(s, expected) {
        assert(upkeep::keeps(s, ks, s1, k1) && kinds::well_kinded(elem, k1));
        match array {
            Array::ElementList(items) => {
                let k2 = lemma_after_elements(env, s1, k1, parent, items@, elem);
                if let Ok(s2) = expr::after_elements(env, s1, parent, items@, elem) {
                    upkeep::lemma_keeps_trans(s, ks, s1, k1, s2, k2);
                    kinds::lemma_well_kinded_extends(elem, k1, k2);
                }
                k2
            },
            Array::Repeat { initializer, repeat } => {
                let k2 = lemma_expr_ty(env, s1, k1, initializer, elem);
                if let Ok((s2, _)) = expr::expr_ty(env, s1, initializer, elem) {
                    upkeep::lemma_keeps_trans(s, ks, s1, k1, s2, k2);
                    kinds::lemma_well_kinded_extends(elem, k1, k2);
                    let count = rules::int_ty(IntTy::usize());
                    let k3 = lemma_expr_ty(env, s2, k2, repeat, count);
                    if let Ok((s3, _)) = expr::expr_ty(env, s2, repeat, count) {
                        upkeep::lemma_keeps_trans(s, ks, s2, k2, s3, k3);
                        kinds::lemma_well_kinded_extends(elem, k2, k3);
                    }
                    k3
                } else {
                    ks
                }
            },
        }
    } else {
        ks
    }
}

pub proof fn lemma_after_elements<D: HirDatabase>(
    env: Env<D>,
    s: Model,
    ks: Seq<Kind>,
    parent: ExprId,
    items: Seq<ExprId>,
    elem: TyModel,
) -> (longer: Seq<Kind>)
    requires
        upkeep::faithful(env.db),
        env.body.wf(),
        parent.0 < env.body.expr_seq().len(),
        body::all_exprs_below(items, parent.0 as nat),
        upkeep::sound(s, ks),
        kinds::well_kinded(elem, ks),
    ensures
        upkeep::keeps_all_in(env, s, ks, expr::after_elements(env, s, parent, items, elem), longer),
    decreases parent.0, 1nat, 1nat, 0nat, items.len(),
{
    upkeep::lemma_keeps_same(s, ks);
    if items.len() == 0 {
        ks
    } else {
        let k1 = lemma_expr_ty(env, s, ks, items[0], elem);
        if let Ok((s1, _)) = expr::expr_ty(env, s, items[0], elem) {
            kinds::lemma_well_kinded_extends(elem, ks, k1);
            let longer = lemma_after_elements(env, s1, k1, parent, items.skip(1), elem);
            if let Ok(after) = expr::after_elements(env, s1, parent, items.skip(1), elem) {
                upkeep::lemma_keeps_trans(s, ks, s1, k1, after, longer);
            }
            longer
        } else {
            ks
        }
    }
}

} // verus!
