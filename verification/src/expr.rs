//! The types of expressions.

use vstd::prelude::*;

use crate::body::{
    Array, BinaryOp, Expr, GenericArgs, MatchArm, Path, Statement, StructLitField, UnaryOp,
};
use crate::context::{Env, Model, Run};
use crate::db::HirDatabase;
use crate::defs::{ExprId, ExprOrPatId, PatId, Resolver, TypeRef, VariantDef};
use crate::diagnostics::InferenceDiagnostic;
use crate::error::InferError;
use crate::pat::BindingMode;
use crate::primitive::IntTy;
use crate::ty::{Mutability, TyModel, TypeCtor};
use crate::{body, call, context, pat, path, rules, ty};

verus! {

/// The type of an expression where a type is expected: what its rule gives, made
/// equal to what is expected, and recorded.
pub open spec fn expr_ty<D: HirDatabase>(
    env: Env<D>,
    s: Model,
    e: ExprId,
    expected: TyModel,
) -> Run<TyModel>
    decreases e.0, 4nat, 0nat, 0nat, 0nat,
{
    match rule_ty(env, s, e, expected) {
        Err(err) => Err(err),
        Ok((s, ty)) => rules::record_expr(env, s, e, ty, expected),
    }
}

/// The type that the rule for an expression gives.
pub open spec fn rule_ty<D: HirDatabase>(
    env: Env<D>,
    s: Model,
    e: ExprId,
    expected: TyModel,
) -> Run<TyModel>
    decreases e.0, 3nat, 0nat, 0nat, 0nat,
{
    let node = env.body.expr_seq()[e.0 as int];
    if !node.below(e.0 as nat, env.body.pat_seq()) {
        arbitrary()
    } else {
        match node {
            Expr::Missing => Ok((s, TyModel::Unknown)),
            Expr::If { condition, then_branch, else_branch } => if_ty(
                env,
                s,
                e,
                condition,
                then_branch,
                else_branch,
                expected,
            ),
            Expr::Block { statements, tail } => block_ty(env, s, e, statements@, tail, expected),
            Expr::Loop { body } => loop_ty(env, s, e, body),
            Expr::While { condition, body } => while_ty(env, s, e, condition, body),
            Expr::For { iterable, pat, body } => for_ty(env, s, e, iterable, pat, body),
            Expr::Lambda { args, arg_types, body } => closure_ty(
                env,
                s,
                e,
                args@,
                arg_types@,
                body,
            ),
            Expr::Call { callee, args } => call_ty(env, s, e, callee, args@),
            Expr::MethodCall { receiver, method_name, args, generic_args } => method_call_ty(
                env,
                s,
                e,
                receiver,
                args@,
                method_name@,
                generic_args,
            ),
            Expr::Match { expr, arms } => match_ty(env, s, e, expr, arms@, expected),
            Expr::Path(p) => match path::path_ty(
                env,
                s,
                Resolver::Expr(env.owner, e),
                p,
                ExprOrPatId::ExprId(e),
            ) {
                Err(err) => Err(err),
                Ok((s, Some(ty))) => Ok((s, ty)),
                Ok((s, None)) => Ok((s, TyModel::Unknown)),
            },
            Expr::Continue => Ok((s, rules::never_ty())),
            Expr::Break { expr } => maybe_then_never(env, s, e, expr, TyModel::Unknown),
            Expr::Return { expr } => maybe_then_never(env, s, e, expr, s.return_ty),
            Expr::StructLit { path, fields, spread } => struct_lit_ty(
                env,
                s,
                e,
                path,
                fields@,
                spread,
            ),
            Expr::Field { expr, name } => field_ty(env, s, e, expr, name@),
            Expr::Try { expr } => match expr_ty(env, s, expr, TyModel::Unknown) {
                Err(err) => Err(err),
                Ok((s, _)) => Ok((s, TyModel::Unknown)),
            },
            Expr::Cast { expr, type_ref } => cast_ty(env, s, e, expr, type_ref),
            Expr::Ref { expr, mutability } => ref_ty(env, s, e, expr, mutability, expected),
            Expr::UnaryOp { expr, op } => unary_op_ty(env, s, e, expr, op),
            Expr::BinaryOp { lhs, rhs, op: Some(op) } => binary_ty(env, s, e, lhs, rhs, op),
            Expr::BinaryOp { lhs, rhs, op: None } => operands_ty(env, s, e, lhs, rhs),
            Expr::Tuple { exprs } => match expr_tys(env, s, e, exprs@) {
                Err(err) => Err(err),
                Ok((s, params)) => Ok((s, TyModel::Apply { ctor: TypeCtor::Tuple, params })),
            },
            Expr::Array(array) => array_ty(env, s, e, array, expected),
            Expr::Literal(literal) => Ok((s, rules::literal_ty(literal))),
        }
    }
}

/// The type of a `loop`, which is not left.
pub open spec fn loop_ty<D: HirDatabase>(
    env: Env<D>,
    s: Model,
    parent: ExprId,
    body: ExprId,
) -> Run<TyModel>
    decreases parent.0, 2nat, 0nat, 0nat, 0nat,
{
    if body.0 >= parent.0 {
        arbitrary()
    } else {
        match expr_ty(env, s, body, ty::unit()) {
            Err(err) => Err(err),
            Ok((s, _)) => Ok((s, rules::never_ty())),
        }
    }
}

/// The type of a `while`.
pub open spec fn while_ty<D: HirDatabase>(
    env: Env<D>,
    s: Model,
    parent: ExprId,
    condition: ExprId,
    body: ExprId,
) -> Run<TyModel>
    decreases parent.0, 2nat, 0nat, 0nat, 0nat,
{
    if condition.0 >= parent.0 || body.0 >= parent.0 {
        arbitrary()
    } else {
        match expr_ty(env, s, condition, rules::bool_ty()) {
            Err(err) => Err(err),
            Ok((s, _)) => match expr_ty(env, s, body, ty::unit()) {
                Err(err) => Err(err),
                Ok((s, _)) => Ok((s, ty::unit())),
            },
        }
    }
}

/// The type of a `for`; nothing is known of what the pattern is matched with.
pub open spec fn for_ty<D: HirDatabase>(
    env: Env<D>,
    s: Model,
    parent: ExprId,
    iterable: ExprId,
    pat: PatId,
    body: ExprId,
) -> Run<TyModel>
    decreases parent.0, 2nat, 0nat, 0nat, 0nat,
{
    if iterable.0 >= parent.0 || body.0 >= parent.0 || !body::pat_within(
        pat,
        parent.0 as nat,
        env.body.pat_seq(),
    ) {
        arbitrary()
    } else {
        match expr_ty(env, s, iterable, TyModel::Unknown) {
            Err(err) => Err(err),
            Ok((s, _)) => match pat::pat_ty(env, s, pat, TyModel::Unknown, BindingMode::Move) {
                Err(err) => Err(err),
                Ok((s, _)) => match expr_ty(env, s, body, ty::unit()) {
                    Err(err) => Err(err),
                    Ok((s, _)) => Ok((s, ty::unit())),
                },
            },
        }
    }
}

/// The type of a closure, which is not known; what is in it is inferred.
pub open spec fn closure_ty<D: HirDatabase>(
    env: Env<D>,
    s: Model,
    parent: ExprId,
    args: Seq<PatId>,
    arg_types: Seq<Option<TypeRef>>,
    body: ExprId,
) -> Run<TyModel>
    decreases parent.0, 2nat, 0nat, 0nat, 0nat,
{
    if args.len() != arg_types.len() {
        Err(InferError::ClosureArity)
    } else if body.0 >= parent.0 {
        arbitrary()
    } else {
        match closure_params(env, s, parent, args, arg_types) {
            Err(err) => Err(err),
            Ok(s) => match expr_ty(env, s, body, TyModel::Unknown) {
                Err(err) => Err(err),
                Ok((s, _)) => Ok((s, TyModel::Unknown)),
            },
        }
    }
}

/// What is known after the parameters of a closure.
pub open spec fn closure_params<D: HirDatabase>(
    env: Env<D>,
    s: Model,
    parent: ExprId,
    pats: Seq<PatId>,
    types: Seq<Option<TypeRef>>,
) -> Result<Model, InferError>
    decreases parent.0, 1nat, 0nat, 0nat, pats.len(),
{
    if pats.len() == 0 || types.len() == 0 {
        Ok(s)
    } else if !body::pat_within(pats[0], parent.0 as nat, env.body.pat_seq()) {
        arbitrary()
    } else {
        match rules::declared_ty(env, s, types[0]) {
            Err(e) => Err(e),
            Ok((s, ty)) => match pat::pat_ty(env, s, pats[0], ty, BindingMode::Move) {
                Err(e) => Err(e),
                Ok((s, _)) => closure_params(env, s, parent, pats.skip(1), types.skip(1)),
            },
        }
    }
}

/// What is known after patterns that are matched with one type.
pub open spec fn alternatives<D: HirDatabase>(
    env: Env<D>,
    s: Model,
    parent: ExprId,
    pats: Seq<PatId>,
    ty: TyModel,
) -> Result<Model, InferError>
    decreases parent.0, 1nat, 0nat, 0nat, pats.len(),
{
    if pats.len() == 0 {
        Ok(s)
    } else if !body::pat_within(pats[0], parent.0 as nat, env.body.pat_seq()) {
        arbitrary()
    } else {
        match pat::pat_ty(env, s, pats[0], ty, BindingMode::Move) {
            Err(e) => Err(e),
            Ok((s, _)) => alternatives(env, s, parent, pats.skip(1), ty),
        }
    }
}

/// The type of a field access.
pub open spec fn field_ty<D: HirDatabase>(
    env: Env<D>,
    s: Model,
    parent: ExprId,
    receiver: ExprId,
    name: Seq<char>,
) -> Run<TyModel>
    decreases parent.0, 2nat, 0nat, 0nat, 0nat,
{
    if receiver.0 >= parent.0 {
        arbitrary()
    } else {
        match expr_ty(env, s, receiver, TyModel::Unknown) {
            Err(err) => Err(err),
            Ok((s, receiver_ty)) => rules::field_access(env, s, parent, receiver_ty, name),
        }
    }
}

/// The type of a cast: that which is written.
pub open spec fn cast_ty<D: HirDatabase>(
    env: Env<D>,
    s: Model,
    parent: ExprId,
    inner: ExprId,
    type_ref: TypeRef,
) -> Run<TyModel>
    decreases parent.0, 2nat, 0nat, 0nat, 0nat,
{
    if inner.0 >= parent.0 {
        arbitrary()
    } else {
        match expr_ty(env, s, inner, TyModel::Unknown) {
            Err(err) => Err(err),
            Ok((s, _)) => context::make_ty(env.db, env.resolver(), s, type_ref),
        }
    }
}

/// The type of a reference to a value.
pub open spec fn ref_ty<D: HirDatabase>(
    env: Env<D>,
    s: Model,
    parent: ExprId,
    inner: ExprId,
    mutability: Mutability,
    expected: TyModel,
) -> Run<TyModel>
    decreases parent.0, 2nat, 0nat, 0nat, 0nat,
{
    if inner.0 >= parent.0 {
        arbitrary()
    } else {
        match rules::referent_expectation(expected) {
            Err(err) => Err(err),
            Ok(expectation) => match expr_ty(env, s, inner, expectation) {
                Err(err) => Err(err),
                Ok((s, ty)) => Ok((s, ty::apply_one(TypeCtor::Ref(mutability), ty))),
            },
        }
    }
}

/// The type of a unary operation.
pub open spec fn unary_op_ty<D: HirDatabase>(
    env: Env<D>,
    s: Model,
    parent: ExprId,
    inner: ExprId,
    op: UnaryOp,
) -> Run<TyModel>
    decreases parent.0, 2nat, 0nat, 0nat, 0nat,
{
    if inner.0 >= parent.0 {
        arbitrary()
    } else {
        match expr_ty(env, s, inner, TyModel::Unknown) {
            Err(err) => Err(err),
            Ok((s, inner_ty)) => match rules::unary_ty(op, inner_ty) {
                Err(err) => Err(err),
                Ok(ty) => Ok((s, ty)),
            },
        }
    }
}

/// The type of an `if`: that of its first branch, which has no value if there is no
/// other.
pub open spec fn if_ty<D: HirDatabase>(
    env: Env<D>,
    s: Model,
    parent: ExprId,
    condition: ExprId,
    then_branch: ExprId,
    else_branch: Option<ExprId>,
    expected: TyModel,
) -> Run<TyModel>
    decreases parent.0, 2nat, 0nat, 0nat, 0nat,
{
    if !(condition.0 < parent.0 && then_branch.0 < parent.0 && body::opt_expr_below(
        else_branch,
        parent.0 as nat,
    )) {
        arbitrary()
    } else {
        match expr_ty(env, s, condition, rules::bool_ty()) {
            Err(err) => Err(err),
            Ok((s, _)) => match expr_ty(env, s, then_branch, expected) {
                Err(err) => Err(err),
                Ok((s, then_ty)) => match else_branch {
                    Some(else_branch) => match expr_ty(env, s, else_branch, expected) {
                        Err(err) => Err(err),
                        Ok((s, _)) => Ok((s, then_ty)),
                    },
                    None => match context::unify_in(s, then_ty, ty::unit()) {
                        Err(err) => Err(err),
                        Ok((s, _)) => Ok((s, then_ty)),
                    },
                },
            },
        }
    }
}

/// The type of a block: that of the expression at its end.
pub open spec fn block_ty<D: HirDatabase>(
    env: Env<D>,
    s: Model,
    parent: ExprId,
    statements: Seq<Statement>,
    tail: Option<ExprId>,
    expected: TyModel,
) -> Run<TyModel>
    decreases parent.0, 2nat, 0nat, 0nat, 0nat,
{
    match after_statements(env, s, parent, statements) {
        Err(err) => Err(err),
        Ok(s) => match tail {
            Some(tail) => if tail.0 < parent.0 {
                expr_ty(env, s, tail, expected)
            } else {
                arbitrary()
            },
            None => Ok((s, ty::unit())),
        },
    }
}

/// What is known after the statements of a block.
pub open spec fn after_statements<D: HirDatabase>(
    env: Env<D>,
    s: Model,
    parent: ExprId,
    statements: Seq<Statement>,
) -> Result<Model, InferError>
    decreases parent.0, 1nat, 1nat, 0nat, statements.len(),
{
    if statements.len() == 0 {
        Ok(s)
    } else if !statements[0].below(parent.0 as nat, env.body.pat_seq()) {
        arbitrary()
    } else {
        match statements[0] {
            Statement::Let { pat, type_ref, initializer } => match rules::declared_ty(
                env,
                s,
                type_ref,
            ) {
                Err(err) => Err(err),
                Ok((s, ty)) => match context::insert_in(s, ty) {
                    Err(err) => Err(err),
                    Ok((s, declared)) => {
                        let init = match initializer {
                            Some(init) => expr_ty(env, s, init, declared),
                            None => Ok((s, declared)),
                        };
                        match init {
                            Err(err) => Err(err),
                            Ok((s, ty)) => match pat::pat_ty(env, s, pat, ty, BindingMode::Move) {
                                Err(err) => Err(err),
                                Ok((s, _)) => after_statements(env, s, parent, statements.skip(1)),
                            },
                        }
                    },
                },
            },
            Statement::Expr(expr) => match expr_ty(env, s, expr, TyModel::Unknown) {
                Err(err) => Err(err),
                Ok((s, _)) => after_statements(env, s, parent, statements.skip(1)),
            },
        }
    }
}

/// The type of a call: that of the result of what is called.
pub open spec fn call_ty<D: HirDatabase>(
    env: Env<D>,
    s: Model,
    parent: ExprId,
    callee: ExprId,
    args: Seq<ExprId>,
) -> Run<TyModel>
    decreases parent.0, 2nat, 0nat, 0nat, 0nat,
{
    if callee.0 >= parent.0 {
        arbitrary()
    } else {
        match expr_ty(env, s, callee, TyModel::Unknown) {
            Err(err) => Err(err),
            Ok((s, callee_ty)) => {
                let (params, ret) = match env.db.signature_of_callable(callee_ty) {
                    Some(sig) => (sig.params, sig.ret),
                    None => (Seq::empty(), TyModel::Unknown),
                };
                match after_args(env, s, parent, args, params) {
                    Err(err) => Err(err),
                    Ok(s) => Ok((s, ret)),
                }
            },
        }
    }
}

/// What is known after the arguments of a call; nothing is expected of those beyond
/// the parameters.
pub open spec fn after_args<D: HirDatabase>(
    env: Env<D>,
    s: Model,
    parent: ExprId,
    args: Seq<ExprId>,
    params: Seq<TyModel>,
) -> Result<Model, InferError>
    decreases parent.0, 1nat, 1nat, 0nat, args.len(),
{
    if args.len() == 0 {
        Ok(s)
    } else if args[0].0 >= parent.0 {
        arbitrary()
    } else {
        let (expected, rest) = if params.len() > 0 {
            (params[0], params.skip(1))
        } else {
            (TyModel::Unknown, params)
        };
        match expr_ty(env, s, args[0], expected) {
            Err(err) => Err(err),
            Ok((s, _)) => after_args(env, s, parent, args.skip(1), rest),
        }
    }
}

/// The type of a method call: that of the result of the method.
pub open spec fn method_call_ty<D: HirDatabase>(
    env: Env<D>,
    s: Model,
    parent: ExprId,
    receiver: ExprId,
    args: Seq<ExprId>,
    name: Seq<char>,
    generic_args: Option<GenericArgs>,
) -> Run<TyModel>
    decreases parent.0, 2nat, 0nat, 0nat, 0nat,
{
    if receiver.0 >= parent.0 {
        arbitrary()
    } else {
        match expr_ty(env, s, receiver, TyModel::Unknown) {
            Err(err) => Err(err),
            Ok((s, receiver_ty)) => match call::method_callee(
                env,
                s,
                parent,
                receiver_ty,
                name,
                generic_args,
            ) {
                Err(err) => Err(err),
                Ok((s, (params, ret))) => match after_args(env, s, parent, args, params) {
                    Err(err) => Err(err),
                    Ok(s) => context::resolved(env.db, s, ret),
                },
            },
        }
    }
}

/// The type of a `match`: that which is expected of each arm.
pub open spec fn match_ty<D: HirDatabase>(
    env: Env<D>,
    s: Model,
    parent: ExprId,
    scrutinee: ExprId,
    arms: Seq<MatchArm>,
    expected: TyModel,
) -> Run<TyModel>
    decreases parent.0, 2nat, 0nat, 0nat, 0nat,
{
    if scrutinee.0 >= parent.0 {
        arbitrary()
    } else {
        match rules::arm_expectation(s, expected) {
            Err(err) => Err(err),
            Ok((s, expected)) => match expr_ty(env, s, scrutinee, TyModel::Unknown) {
                Err(err) => Err(err),
                Ok((s, input)) => match after_arms(env, s, parent, arms, input, expected) {
                    Err(err) => Err(err),
                    Ok(s) => Ok((s, expected)),
                },
            },
        }
    }
}

/// What is known after the arms of a `match`.
pub open spec fn after_arms<D: HirDatabase>(
    env: Env<D>,
    s: Model,
    parent: ExprId,
    arms: Seq<MatchArm>,
    input: TyModel,
    expected: TyModel,
) -> Result<Model, InferError>
    decreases parent.0, 1nat, 1nat, 0nat, arms.len(),
{
    if arms.len() == 0 {
        Ok(s)
    } else if !arms[0].below(parent.0 as nat, env.body.pat_seq()) {
        arbitrary()
    } else {
        match alternatives(env, s, parent, arms[0].pats@, input) {
            Err(err) => Err(err),
            Ok(s) => {
                let guarded = match arms[0].guard {
                    Some(guard) => expr_ty(env, s, guard, rules::bool_ty()),
                    None => Ok((s, TyModel::Unknown)),
                };
                match guarded {
                    Err(err) => Err(err),
                    Ok((s, _)) => match expr_ty(env, s, arms[0].expr, expected) {
                        Err(err) => Err(err),
                        Ok((s, _)) => after_arms(env, s, parent, arms.skip(1), input, expected),
                    },
                }
            },
        }
    }
}

/// The type of an expression that jumps, with the value that it may take along.
pub open spec fn maybe_then_never<D: HirDatabase>(
    env: Env<D>,
    s: Model,
    parent: ExprId,
    value: Option<ExprId>,
    expected: TyModel,
) -> Run<TyModel>
    decreases parent.0, 2nat, 0nat, 0nat, 0nat,
{
    match value {
        Some(value) => if value.0 >= parent.0 {
            arbitrary()
        } else {
            match expr_ty(env, s, value, expected) {
                Err(err) => Err(err),
                Ok((s, _)) => Ok((s, rules::never_ty())),
            }
        },
        None => Ok((s, rules::never_ty())),
    }
}

/// The type of a struct literal: that which its path stands for.
pub open spec fn struct_lit_ty<D: HirDatabase>(
    env: Env<D>,
    s: Model,
    parent: ExprId,
    path: Option<Path>,
    fields: Seq<StructLitField>,
    spread: Option<ExprId>,
) -> Run<TyModel>
    decreases parent.0, 2nat, 0nat, 0nat, 0nat,
{
    match path::variant_of_path(env, s, path) {
        Err(err) => Err(err),
        Ok((s, (ty, def))) => match after_fields(
            env,
            s,
            parent,
            fields,
            0,
            def,
            ty::params_of(ty),
        ) {
            Err(err) => Err(err),
            Ok(s) => match spread {
                Some(spread) => if spread.0 >= parent.0 {
                    arbitrary()
                } else {
                    match expr_ty(env, s, spread, ty) {
                        Err(err) => Err(err),
                        Ok((s, _)) => Ok((s, ty)),
                    }
                },
                None => Ok((s, ty)),
            },
        },
    }
}

/// What is known after it has been seen whether a definition has a field; if not,
/// the user is told.
pub open spec fn check_field<D: HirDatabase>(
    env: Env<D>,
    s: Model,
    expr: ExprId,
    index: int,
    def: Option<VariantDef>,
    name: Seq<char>,
) -> Model {
    match def {
        Some(def) => if env.db.field_named(def, name) is None {
            Model {
                diagnostics: s.diagnostics.push(
                    InferenceDiagnostic::NoSuchField { expr, field: index as usize },
                ),
                ..s
            }
        } else {
            s
        },
        None => s,
    }
}

/// What is known after the fields of a struct literal from the `i`th on.
pub open spec fn after_fields<D: HirDatabase>(
    env: Env<D>,
    s: Model,
    parent: ExprId,
    fields: Seq<StructLitField>,
    i: int,
    def: Option<VariantDef>,
    substs: Seq<TyModel>,
) -> Result<Model, InferError>
    decreases parent.0, 1nat, 1nat, 0nat, fields.len() - i,
{
    if !(0 <= i < fields.len()) {
        Ok(s)
    } else if fields[i].expr.0 >= parent.0 {
        arbitrary()
    } else {
        match expr_ty(
            env,
            check_field(env, s, parent, i, def, fields[i].name@),
            fields[i].expr,
            pat::field_expectation(env.db, def, fields[i].name@, substs),
        ) {
            Err(err) => Err(err),
            Ok((s, _)) => after_fields(env, s, parent, fields, i + 1, def, substs),
        }
    }
}

/// The type of a binary operation.
pub open spec fn binary_ty<D: HirDatabase>(
    env: Env<D>,
    s: Model,
    parent: ExprId,
    lhs: ExprId,
    rhs: ExprId,
    op: BinaryOp,
) -> Run<TyModel>
    decreases parent.0, 2nat, 0nat, 0nat, 0nat,
{
    if lhs.0 >= parent.0 || rhs.0 >= parent.0 {
        arbitrary()
    } else {
        let lhs_expectation = match op {
            BinaryOp::BooleanAnd | BinaryOp::BooleanOr => rules::bool_ty(),
            _ => TyModel::Unknown,
        };
        match expr_ty(env, s, lhs, lhs_expectation) {
            Err(err) => Err(err),
            Ok((s, lhs_ty)) => match expr_ty(env, s, rhs, env.db.rhs_expectation(op, lhs_ty)) {
                Err(err) => Err(err),
                Ok((s, rhs_ty)) => Ok((s, env.db.op_result(op, rhs_ty))),
            },
        }
    }
}

/// The type of a binary operation without an operator, which is not known; the operands
/// are inferred.
pub open spec fn operands_ty<D: HirDatabase>(
    env: Env<D>,
    s: Model,
    parent: ExprId,
    lhs: ExprId,
    rhs: ExprId,
) -> Run<TyModel>
    decreases parent.0, 2nat, 0nat, 0nat, 0nat,
{
    if lhs.0 >= parent.0 || rhs.0 >= parent.0 {
        arbitrary()
    } else {
        match expr_ty(env, s, lhs, TyModel::Unknown) {
            Err(err) => Err(err),
            Ok((s, _)) => match expr_ty(env, s, rhs, TyModel::Unknown) {
                Err(err) => Err(err),
                Ok((s, _)) => Ok((s, TyModel::Unknown)),
            },
        }
    }
}

/// The types of the expressions of a list, of which nothing is expected.
pub open spec fn expr_tys<D: HirDatabase>(
    env: Env<D>,
    s: Model,
    parent: ExprId,
    exprs: Seq<ExprId>,
) -> Run<Seq<TyModel>>
    decreases parent.0, 1nat, 1nat, 0nat, exprs.len(),
{
    if exprs.len() == 0 {
        Ok((s, Seq::empty()))
    } else if exprs[0].0 >= parent.0 {
        arbitrary()
    } else {
        match expr_ty(env, s, exprs[0], TyModel::Unknown) {
            Err(err) => Err(err),
            Ok((s, t)) => match expr_tys(env, s, parent, exprs.skip(1)) {
                Err(err) => Err(err),
                Ok((s, ts)) => Ok((s, seq![t] + ts)),
            },
        }
    }
}

/// The type of an array.
pub open spec fn array_ty<D: HirDatabase>(
    env: Env<D>,
    s: Model,
    parent: ExprId,
    array: Array,
    expected: TyModel,
) -> Run<TyModel>
    decreases parent.0, 2nat, 0nat, 0nat, 0nat,
{
    match rules::element_ty(s, expected) {
        Err(err) => Err(err),
        Ok((s, elem)) => match array {
            Array::ElementList(items) => match after_elements(env, s, parent, items@, elem) {
                Err(err) => Err(err),
                Ok(s) => Ok((s, ty::apply_one(TypeCtor::Array, elem))),
            },
            Array::Repeat { initializer, repeat } => if initializer.0 >= parent.0 || repeat.0
                >= parent.0 {
                arbitrary()
            } else {
                match expr_ty(env, s, initializer, elem) {
                    Err(err) => Err(err),
                    Ok((s, _)) => match expr_ty(env, s, repeat, rules::int_ty(IntTy::usize())) {
                        Err(err) => Err(err),
                        Ok((s, _)) => Ok((s, ty::apply_one(TypeCtor::Array, elem))),
                    },
                }
            },
        },
    }
}

/// What is known after the elements of an array, of which one type is expected.
pub open spec fn after_elements<D: HirDatabase>(
    env: Env<D>,
    s: Model,
    parent: ExprId,
    items: Seq<ExprId>,
    elem: TyModel,
) -> Result<Model, InferError>
    decreases parent.0, 1nat, 1nat, 0nat, items.len(),
{
    if items.len() == 0 {
        Ok(s)
    } else if items[0].0 >= parent.0 {
        arbitrary()
    } else {
        match expr_ty(env, s, items[0], elem) {
            Err(err) => Err(err),
            Ok((s, _)) => after_elements(env, s, parent, items.skip(1), elem),
        }
    }
}

} // verus!
