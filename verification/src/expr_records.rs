//! What the steps on expressions record.

use vstd::prelude::*;

use crate::body::{
    Array, BinaryOp, Expr, GenericArg, GenericArgs, MatchArm, Path, Statement, StructLitField,
    UnaryOp,
};
use crate::context::{Env, Model};
use crate::db::HirDatabase;
use crate::defs::{ExprId, ExprOrPatId, PatId, Resolver, TypeRef, VariantDef};
use crate::diagnostics::InferenceDiagnostic;
use crate::pat::BindingMode;
use crate::primitive::IntTy;
use crate::ty::{Mutability, TyModel};
use crate::{body, call, context, expr, pat, pat_records, path, records, rules, ty};

verus! {

proof fn lemma_written_args<D: HirDatabase>(
    env: Env<D>,
    s: Model,
    args: Seq<GenericArg>,
    count: nat,
)
    ensures
        call::written_args(env, s, args, count) matches Ok((after, _)) ==> records::same_records(
            s,
            after,
        ),
    decreases args.len(),
{
    if args.len() > 0 && count > 0 {
        let GenericArg::Type(type_ref) = args[0];
        if let Ok((s1, _)) = context::make_ty(env.db, env.resolver(), s, type_ref) {
            lemma_written_args(env, s1, args.skip(1), (count - 1) as nat);
        }
    }
}

proof fn lemma_method_callee<D: HirDatabase>(
    env: Env<D>,
    s: Model,
    e: ExprId,
    receiver: TyModel,
    name: Seq<char>,
    args: Option<GenericArgs>,
)
    requires
        records::is_method_call(*env.body, ExprOrPatId::ExprId(e)),
    ensures
        records::ran(*env.body, s, call::method_callee(env, s, e, receiver, name, args)),
{
    broadcast use records::group_adds;

    reveal(call::method_callee);
    let id = ExprOrPatId::ExprId(e);
    let (s1, generics) = match env.db.method_named(receiver, name, env.resolver()) {
        Some((_, func)) => (
            Model { method_resolutions: s.method_resolutions.insert(id, func), ..s },
            Some(env.db.fn_generics_of(func)),
        ),
        None => (s, None),
    };
    let own = match generics {
        Some(g) => g.params@.len(),
        None => 0,
    };
    lemma_written_args(env, s1, call::arg_seq(args), own);
    if let Ok((after, _)) = call::method_callee(env, s, e, receiver, name, args) {
        records::lemma_same_records(*env.body, s, s);
        if let Some((_, func)) = env.db.method_named(receiver, name, env.resolver()) {
            records::lemma_write_method(*env.body, s, id, func);
        }
        records::lemma_same_records(*env.body, s1, after);
    }
}

proof fn lemma_field_access<D: HirDatabase>(
    env: Env<D>,
    s: Model,
    e: ExprId,
    receiver: TyModel,
    name: Seq<char>,
)
    requires
        records::is_field_access(*env.body, ExprOrPatId::ExprId(e)),
    ensures
        records::ran(*env.body, s, rules::field_access(env, s, e, receiver, name)),
{
    broadcast use records::group_adds;

    reveal(rules::field_access);
    match rules::first_field(env.db, env.db.derefs(receiver), name) {
        Some((t, Some(field))) => {
            let id = ExprOrPatId::ExprId(e);
            records::lemma_write_field(*env.body, s, id, field);
            let s1 = Model { field_resolutions: s.field_resolutions.insert(id, field), ..s };
            records::lemma_insert_in(*env.body, s1, t);
        },
        Some((t, None)) => {
            records::lemma_insert_in(*env.body, s, t);
        },
        None => {
            records::lemma_insert_in(*env.body, s, TyModel::Unknown);
        },
    }
}

proof fn lemma_record_expr<D: HirDatabase>(
    env: Env<D>,
    s: Model,
    e: ExprId,
    t: TyModel,
    expected: TyModel,
)
    requires
        records::parts_seen(*env.body, s, e),
    ensures
        rules::record_expr(env, s, e, t, expected) matches Ok((after, u)) ==> {
            &&& records::adds(*env.body, s, after)
            &&& records::seen(after, e)
            &&& after.type_of_expr[e.0] == u
        },
{
    broadcast use records::group_adds;

    reveal(rules::record_expr);
    records::lemma_insert_shallow_in(*env.body, s, t);
    if let Ok((s1, t1)) = context::insert_shallow_in(s, t) {
        records::lemma_unify_in(*env.body, s1, t1, expected);
        if let Ok((s2, _)) = context::unify_in(s1, t1, expected) {
            records::lemma_resolved(*env.body, env.db, s2, t1);
            if let Ok((s3, u)) = context::resolved(env.db, s2, t1) {
                records::lemma_parts_later(*env.body, s, s3, e, PatId(0));
                records::lemma_write_expr_ty(*env.body, s3, e, u);
            }
        }
    }
}

proof fn lemma_declared_ty<D: HirDatabase>(env: Env<D>, s: Model, type_ref: Option<TypeRef>)
    ensures
        records::ran(*env.body, s, rules::declared_ty(env, s, type_ref)),
{
    if let Ok((after, _)) = rules::declared_ty(env, s, type_ref) {
        records::lemma_same_records(*env.body, s, after);
    }
}

/// Whether types are recorded for what is in a statement.
pub open spec fn statement_seen(s: Model, st: Statement) -> bool {
    match st {
        Statement::Let { pat, initializer, .. } => {
            &&& records::pat_seen(s, pat)
            &&& initializer matches Some(init) ==> records::seen(s, init)
        },
        Statement::Expr(e) => records::seen(s, e),
    }
}

pub open spec fn statements_seen(s: Model, statements: Seq<Statement>) -> bool {
    forall|i: int| 0 <= i < statements.len() ==> statement_seen(s, #[trigger] statements[i])
}

/// Whether types are recorded for what is in an arm.
pub open spec fn arm_seen(s: Model, arm: MatchArm) -> bool {
    &&& records::all_pats_seen(s, arm.pats@)
    &&& arm.guard matches Some(guard) ==> records::seen(s, guard)
    &&& records::seen(s, arm.expr)
}

pub open spec fn arms_seen(s: Model, arms: Seq<MatchArm>) -> bool {
    forall|i: int| 0 <= i < arms.len() ==> arm_seen(s, #[trigger] arms[i])
}

proof fn lemma_statement_later(body: body::Body, s: Model, after: Model, st: Statement)
    requires
        records::adds(body, s, after),
        statement_seen(s, st),
    ensures
        statement_seen(after, st),
{
    broadcast use records::group_adds;

    match st {
        Statement::Let { pat, initializer, .. } => {
            assert(records::pat_seen(s, pat));
            if let Some(init) = initializer {
                assert(records::seen(s, init));
            }
        },
        Statement::Expr(e) => {
            assert(records::seen(s, e));
        },
    }
}

proof fn lemma_arm_later(body: body::Body, s: Model, after: Model, arm: MatchArm)
    requires
        records::adds(body, s, after),
        arm_seen(s, arm),
    ensures
        arm_seen(after, arm),
{
    broadcast use records::group_adds;

    assert(records::all_pats_seen(s, arm.pats@) && records::seen(s, arm.expr));
    if let Some(guard) = arm.guard {
        assert(records::seen(s, guard));
    }
}

/// What inferring an expression records: nothing is lost, and there is a type for the
/// expression, which is the one that it gives.
pub proof fn lemma_expr_ty<D: HirDatabase>(env: Env<D>, s: Model, e: ExprId, expected: TyModel)
    requires
        env.body.wf(),
        e.0 < env.body.expr_seq().len(),
    ensures
        expr::expr_ty(env, s, e, expected) matches Ok((after, t)) ==> {
            &&& records::adds(*env.body, s, after)
            &&& records::seen(after, e)
            &&& after.type_of_expr[e.0] == t
        },
    decreases e.0, 4nat, 0nat, 0nat, 0nat,
{
    broadcast use records::group_adds;

    lemma_rule_ty(env, s, e, expected);
    if let Ok((s1, t)) = expr::rule_ty(env, s, e, expected) {
        lemma_record_expr(env, s1, e, t, expected);
    }
}

proof fn lemma_rule_ty<D: HirDatabase>(env: Env<D>, s: Model, e: ExprId, expected: TyModel)
    requires
        env.body.wf(),
        e.0 < env.body.expr_seq().len(),
    ensures
        expr::rule_ty(env, s, e, expected) matches Ok((after, _)) ==> records::adds(
            *env.body,
            s,
            after,
        ) && records::parts_seen(*env.body, after, e),
    decreases e.0, 3nat, 0nat, 0nat, 0nat,
{
    let node = env.body.expr_seq()[e.0 as int];
    assert(node.below(e.0 as nat, env.body.pat_seq()));
    records::lemma_same_records(*env.body, s, s);
    match node {
        Expr::Missing | Expr::Continue | Expr::Literal(_) => {},
        Expr::If { condition, then_branch, else_branch } => {
            lemma_if_ty(env, s, e, condition, then_branch, else_branch, expected);
        },
        Expr::Block { statements, tail } => {
            lemma_block_ty(env, s, e, statements@, tail, expected);
            if let Ok((after, _)) = expr::block_ty(env, s, e, statements@, tail, expected) {
                assert forall|c: ExprId| #[trigger] records::has_part(
                    node,
                    c,
                ) implies records::seen(after, c) by {
                    if tail != Some(c) {
                        let i = choose|i: int|
                            0 <= i < statements@.len() && records::statement_has(
                                #[trigger] statements@[i],
                                c,
                            );
                        assert(statement_seen(after, statements@[i]));
                    }
                }
                assert forall|p: PatId| #[trigger] records::has_pat(
                    node,
                    p,
                ) implies records::pat_seen(after, p) by {
                    let i = choose|i: int|
                        0 <= i < statements@.len() && records::statement_binds(
                            #[trigger] statements@[i],
                            p,
                        );
                    assert(statement_seen(after, statements@[i]));
                }
            }
        },
        Expr::Loop { body } => {
            lemma_loop_ty(env, s, e, body);
        },
        Expr::While { condition, body } => {
            lemma_while_ty(env, s, e, condition, body);
        },
        Expr::For { iterable, pat, body } => {
            lemma_for_ty(env, s, e, iterable, pat, body);
        },
        Expr::Lambda { args, arg_types, body } => {
            lemma_closure_ty(env, s, e, args@, arg_types@, body);
            if let Ok((after, _)) = expr::closure_ty(env, s, e, args@, arg_types@, body) {
                assert forall|p: PatId| #[trigger] records::has_pat(
                    node,
                    p,
                ) implies records::pat_seen(after, p) by {
                    let i = choose|i: int| 0 <= i < args@.len() && args@[i] == p;
                    assert(records::pat_seen(after, args@[i]));
                }
            }
        },
        Expr::Call { callee, args } => {
            lemma_call_ty(env, s, e, callee, args@);
            if let Ok((after, _)) = expr::call_ty(env, s, e, callee, args@) {
                lemma_contained_seen(after, args@);
            }
        },
        Expr::MethodCall { receiver, method_name, args, generic_args } => {
            let name = method_name@;
            lemma_method_call_ty(env, s, e, receiver, args@, name, generic_args);
            if let Ok((after, _)) = expr::method_call_ty(
                env,
                s,
                e,
                receiver,
                args@,
                name,
                generic_args,
            ) {
                lemma_contained_seen(after, args@);
            }
        },
        Expr::Match { expr, arms } => {
            lemma_match_ty(env, s, e, expr, arms@, expected);
            if let Ok((after, _)) = expr::match_ty(env, s, e, expr, arms@, expected) {
                lemma_arms_parts(env, after, e, expr, arms@);
            }
        },
        Expr::Path(p) => {
            let id = ExprOrPatId::ExprId(e);
            pat_records::lemma_path_ty(env, s, Resolver::Expr(env.owner, e), p, id);
        },
        Expr::Break { expr } => {
            lemma_maybe_then_never(env, s, e, expr, TyModel::Unknown);
        },
        Expr::Return { expr } => {
            lemma_maybe_then_never(env, s, e, expr, s.return_ty);
        },
        Expr::StructLit { path, fields, spread } => {
            assert(fields.len() == fields@.len());
            lemma_struct_lit_ty(env, s, e, path, fields@, spread);
            if let Ok((after, _)) = expr::struct_lit_ty(env, s, e, path, fields@, spread) {
                assert forall|c: ExprId| #[trigger] records::has_part(
                    node,
                    c,
                ) implies records::seen(after, c) by {
                    if spread != Some(c) {
                        let i = choose|i: int|
                            0 <= i < fields@.len() && (#[trigger] fields@[i]).expr == c;
                        assert(records::seen(after, fields@[i].expr));
                    }
                }
            }
        },
        Expr::Field { expr, name } => {
            lemma_field_ty(env, s, e, expr, name@);
        },
        Expr::Try { expr } => {
            lemma_expr_ty(env, s, expr, TyModel::Unknown);
        },
        Expr::Cast { expr, type_ref } => {
            lemma_cast_ty(env, s, e, expr, type_ref);
        },
        Expr::Ref { expr, mutability } => {
            lemma_ref_ty(env, s, e, expr, mutability, expected);
        },
        Expr::UnaryOp { expr, op } => {
            lemma_unary_op_ty(env, s, e, expr, op);
        },
        Expr::BinaryOp { lhs, rhs, op: Some(op) } => {
            lemma_binary_ty(env, s, e, lhs, rhs, op);
        },
        Expr::BinaryOp { lhs, rhs, op: None } => {
            lemma_operands_ty(env, s, e, lhs, rhs);
        },
        Expr::Tuple { exprs } => {
            lemma_expr_tys(env, s, e, exprs@);
            if let Ok((after, _)) = expr::expr_tys(env, s, e, exprs@) {
                lemma_contained_seen(after, exprs@);
            }
        },
        Expr::Array(array) => {
            lemma_array_ty(env, s, e, array, expected);
            if let Ok((after, _)) = expr::array_ty(env, s, e, array, expected) {
                if let Array::ElementList(items) = array {
                    lemma_contained_seen(after, items@);
                }
            }
        },
    }
}

proof fn lemma_contained_seen(s: Model, es: Seq<ExprId>)
    requires
        records::all_seen(s, es),
    ensures
        forall|c: ExprId| #[trigger] es.contains(c) ==> records::seen(s, c),
{
    assert forall|c: ExprId| #[trigger] es.contains(c) implies records::seen(s, c) by {
        let i = choose|i: int| 0 <= i < es.len() && es[i] == c;
        assert(records::seen(s, es[i]));
    }
}

proof fn lemma_arms_parts<D: HirDatabase>(
    env: Env<D>,
    s: Model,
    e: ExprId,
    scrutinee: ExprId,
    arms: Seq<MatchArm>,
)
    requires
        env.body.expr_seq()[e.0 as int] matches Expr::Match { expr, arms: a } && expr == scrutinee
            && a@ == arms,
        records::seen(s, scrutinee),
        arms_seen(s, arms),
    ensures
        records::parts_seen(*env.body, s, e),
{
    let node = env.body.expr_seq()[e.0 as int];
    assert forall|c: ExprId| #[trigger] records::has_part(node, c) implies records::seen(s, c) by {
        if c != scrutinee {
            let i = choose|i: int|
                0 <= i < arms.len() && ((#[trigger] arms[i]).guard == Some(c) || arms[i].expr == c);
            assert(arm_seen(s, arms[i]));
        }
    }
    assert forall|p: PatId| #[trigger] records::has_pat(node, p) implies records::pat_seen(
        s,
        p,
    ) by {
        let i = choose|i: int| 0 <= i < arms.len() && (#[trigger] arms[i]).pats@.contains(p);
        assert(arm_seen(s, arms[i]));
        let j = choose|j: int| 0 <= j < arms[i].pats@.len() && arms[i].pats@[j] == p;
        assert(records::pat_seen(s, arms[i].pats@[j]));
    }
}

proof fn lemma_closure_params<D: HirDatabase>(
    env: Env<D>,
    s: Model,
    parent: ExprId,
    pats: Seq<PatId>,
    types: Seq<Option<TypeRef>>,
)
    requires
        env.body.wf(),
        parent.0 < env.body.expr_seq().len(),
        body::all_pats_within(pats, parent.0 as nat, env.body.pat_seq()),
        pats.len() == types.len(),
    ensures
        expr::closure_params(env, s, parent, pats, types) matches Ok(after) ==> {
            &&& records::adds(*env.body, s, after)
            &&& records::all_pats_seen(after, pats)
        },
    decreases parent.0, 1nat, 0nat, 0nat, pats.len(),
{
    broadcast use records::group_adds;

    records::lemma_same_records(*env.body, s, s);
    if pats.len() > 0 {
        lemma_declared_ty(env, s, types[0]);
        if let Ok((s1, t)) = rules::declared_ty(env, s, types[0]) {
            pat_records::lemma_pat_ty(env, s1, pats[0], t, BindingMode::Move);
            if let Ok((s2, _)) = pat::pat_ty(env, s1, pats[0], t, BindingMode::Move) {
                let (rest, others) = (pats.skip(1), types.skip(1));
                lemma_closure_params(env, s2, parent, rest, others);
                if let Ok(after) = expr::closure_params(env, s2, parent, rest, others) {
                    records::lemma_pats_seen_cons(after, pats);
                }
            }
        }
    }
}

proof fn lemma_alternatives<D: HirDatabase>(
    env: Env<D>,
    s: Model,
    parent: ExprId,
    pats: Seq<PatId>,
    t: TyModel,
)
    requires
        env.body.wf(),
        parent.0 < env.body.expr_seq().len(),
        body::all_pats_within(pats, parent.0 as nat, env.body.pat_seq()),
    ensures
        expr::alternatives(env, s, parent, pats, t) matches Ok(after) ==> {
            &&& records::adds(*env.body, s, after)
            &&& records::all_pats_seen(after, pats)
        },
    decreases parent.0, 1nat, 0nat, 0nat, pats.len(),
{
    broadcast use records::group_adds;

    records::lemma_same_records(*env.body, s, s);
    if pats.len() > 0 {
        pat_records::lemma_pat_ty(env, s, pats[0], t, BindingMode::Move);
        if let Ok((s1, _)) = pat::pat_ty(env, s, pats[0], t, BindingMode::Move) {
            lemma_alternatives(env, s1, parent, pats.skip(1), t);
            if let Ok(after) = expr::alternatives(env, s1, parent, pats.skip(1), t) {
                records::lemma_pats_seen_cons(after, pats);
            }
        }
    }
}

proof fn lemma_if_ty<D: HirDatabase>(
    env: Env<D>,
    s: Model,
    parent: ExprId,
    condition: ExprId,
    then_branch: ExprId,
    else_branch: Option<ExprId>,
    expected: TyModel,
)
    requires
        env.body.wf(),
        parent.0 < env.body.expr_seq().len(),
        condition.0 < parent.0,
        then_branch.0 < parent.0,
        body::opt_expr_below(else_branch, parent.0 as nat),
    ensures
        expr::if_ty(env, s, parent, condition, then_branch, else_branch, expected) matches Ok((after, _)) ==> {
            &&& records::adds(*env.body, s, after)
            &&& records::seen(after, condition)
            &&& records::seen(after, then_branch)
            &&& else_branch matches Some(other) ==> records::seen(after, other)
        },
    decreases parent.0, 2nat, 0nat, 0nat, 0nat,
{
    broadcast use records::group_adds;

    lemma_expr_ty(env, s, condition, rules::bool_ty());
    if let Ok((s1, _)) = expr::expr_ty(env, s, condition, rules::bool_ty()) {
        lemma_expr_ty(env, s1, then_branch, expected);
        if let Ok((s2, then_ty)) = expr::expr_ty(env, s1, then_branch, expected) {
            match else_branch {
                Some(other) => {
                    lemma_expr_ty(env, s2, other, expected);
                },
                None => {
                    records::lemma_unify_in(*env.body, s2, then_ty, ty::unit());
                },
            }
        }
    }
}

proof fn lemma_block_ty<D: HirDatabase>(
    env: Env<D>,
    s: Model,
    parent: ExprId,
    statements: Seq<Statement>,
    tail: Option<ExprId>,
    expected: TyModel,
)
    requires
        env.body.wf(),
        parent.0 < env.body.expr_seq().len(),
        forall|i: int|
            0 <= i < statements.len() ==> (#[trigger] statements[i]).below(
                parent.0 as nat,
                env.body.pat_seq(),
            ),
        body::opt_expr_below(tail, parent.0 as nat),
    ensures
        expr::block_ty(env, s, parent, statements, tail, expected) matches Ok((after, _)) ==> {
            &&& records::adds(*env.body, s, after)
            &&& statements_seen(after, statements)
            &&& tail matches Some(tail) ==> records::seen(after, tail)
        },
    decreases parent.0, 2nat, 0nat, 0nat, 0nat,
{
    broadcast use records::group_adds;

    lemma_after_statements(env, s, parent, statements);
    if let (Ok(s1), Some(tail)) = (expr::after_statements(env, s, parent, statements), tail) {
        lemma_expr_ty(env, s1, tail, expected);
        if let Ok((s2, _)) = expr::expr_ty(env, s1, tail, expected) {
            assert forall|i: int| 0 <= i < statements.len() implies statement_seen(
                s2,
                #[trigger] statements[i],
            ) by {
                lemma_statement_later(*env.body, s1, s2, statements[i]);
            }
        }
    }
}

proof fn lemma_after_statements<D: HirDatabase>(
    env: Env<D>,
    s: Model,
    parent: ExprId,
    statements: Seq<Statement>,
)
    requires
        env.body.wf(),
        parent.0 < env.body.expr_seq().len(),
        forall|i: int|
            0 <= i < statements.len() ==> (#[trigger] statements[i]).below(
                parent.0 as nat,
                env.body.pat_seq(),
            ),
    ensures
        expr::after_statements(env, s, parent, statements) matches Ok(after) ==> {
            &&& records::adds(*env.body, s, after)
            &&& statements_seen(after, statements)
        },
    decreases parent.0, 1nat, 1nat, 0nat, statements.len(),
{
    broadcast use records::group_adds;

    records::lemma_same_records(*env.body, s, s);
    if statements.len() > 0 {
        let rest = statements.skip(1);
        assert forall|i: int| 0 <= i < rest.len() implies (#[trigger] rest[i]).below(
            parent.0 as nat,
            env.body.pat_seq(),
        ) by {
            assert(rest[i] == statements[i + 1]);
        }
        if let Some(s1) = lemma_statement(env, s, parent, statements[0]) {
            lemma_after_statements(env, s1, parent, rest);
            if let Ok(after) = expr::after_statements(env, s1, parent, rest) {
                lemma_statement_later(*env.body, s1, after, statements[0]);
                assert forall|i: int| 0 <= i < statements.len() implies statement_seen(
                    after,
                    #[trigger] statements[i],
                ) by {
                    if i > 0 {
                        assert(statements[i] == rest[i - 1]);
                    }
                }
            }
        }
    }
}

/// What a statement records; with what is known after it, if it does not fail.
proof fn lemma_statement<D: HirDatabase>(
    env: Env<D>,
    s: Model,
    parent: ExprId,
    st: Statement,
) -> (next: Option<Model>)
    requires
        env.body.wf(),
        parent.0 < env.body.expr_seq().len(),
        st.below(parent.0 as nat, env.body.pat_seq()),
    ensures
        next == match st {
            Statement::Let { pat, type_ref, initializer } => match rules::declared_ty(
                env,
                s,
                type_ref,
            ) {
                Err(_) => None,
                Ok((s1, t)) => match context::insert_in(s1, t) {
                    Err(_) => None,
                    Ok((s2, declared)) => match (match initializer {
                        Some(init) => expr::expr_ty(env, s2, init, declared),
                        None => Ok((s2, declared)),
                    }) {
                        Err(_) => None,
                        Ok((s3, t)) => match pat::pat_ty(env, s3, pat, t, BindingMode::Move) {
                            Err(_) => None,
                            Ok((s4, _)) => Some(s4),
                        },
                    },
                },
            },
            Statement::Expr(e) => match expr::expr_ty(env, s, e, TyModel::Unknown) {
                Err(_) => None,
                Ok((s1, _)) => Some(s1),
            },
        },
        next matches Some(after) ==> records::adds(*env.body, s, after) && statement_seen(
            after,
            st,
        ),
    decreases parent.0, 1nat, 1nat, 0nat, 0nat,
{
    broadcast use records::group_adds;

    match st {
        Statement::Let { pat, type_ref, initializer } => {
            lemma_declared_ty(env, s, type_ref);
            if let Ok((s1, t)) = rules::declared_ty(env, s, type_ref) {
                records::lemma_insert_in(*env.body, s1, t);
                if let Ok((s2, declared)) = context::insert_in(s1, t) {
                    if let Some(init) = initializer {
                        lemma_expr_ty(env, s2, init, declared);
                    }
                    let found = match initializer {
                        Some(init) => expr::expr_ty(env, s2, init, declared),
                        None => Ok((s2, declared)),
                    };
                    if let Ok((s3, u)) = found {
                        pat_records::lemma_pat_ty(env, s3, pat, u, BindingMode::Move);
                        if let Ok((s4, _)) = pat::pat_ty(env, s3, pat, u, BindingMode::Move) {
                            Some(s4)
                        } else {
                            None
                        }
                    } else {
                        None
                    }
                } else {
                    None
                }
            } else {
                None
            }
        },
        Statement::Expr(e) => {
            lemma_expr_ty(env, s, e, TyModel::Unknown);
            if let Ok((s1, _)) = expr::expr_ty(env, s, e, TyModel::Unknown) {
                Some(s1)
            } else {
                None
            }
        },
    }
}

proof fn lemma_loop_ty<D: HirDatabase>(
    env: Env<D>,
    s: Model,
    parent: ExprId,
    body: ExprId,
)
    requires
        env.body.wf(),
        parent.0 < env.body.expr_seq().len(),
        body.0 < parent.0,
    ensures
        expr::loop_ty(env, s, parent, body) matches Ok((after, _)) ==> {
            &&& records::adds(*env.body, s, after)
            &&& records::seen(after, body)
        },
    decreases parent.0, 2nat, 0nat, 0nat, 0nat,
{
    broadcast use records::group_adds;

    lemma_expr_ty(env, s, body, ty::unit());
}

proof fn lemma_while_ty<D: HirDatabase>(
    env: Env<D>,
    s: Model,
    parent: ExprId,
    condition: ExprId,
    body: ExprId,
)
    requires
        env.body.wf(),
        parent.0 < env.body.expr_seq().len(),
        condition.0 < parent.0,
        body.0 < parent.0,
    ensures
        expr::while_ty(env, s, parent, condition, body) matches Ok((after, _)) ==> {
            &&& records::adds(*env.body, s, after)
            &&& records::seen(after, condition)
            &&& records::seen(after, body)
        },
    decreases parent.0, 2nat, 0nat, 0nat, 0nat,
{
    broadcast use records::group_adds;

    lemma_expr_ty(env, s, condition, rules::bool_ty());
    if let Ok((s1, _)) = expr::expr_ty(env, s, condition, rules::bool_ty()) {
        lemma_expr_ty(env, s1, body, ty::unit());
    }
}

proof fn lemma_for_ty<D: HirDatabase>(
    env: Env<D>,
    s: Model,
    parent: ExprId,
    iterable: ExprId,
    p: PatId,
    body: ExprId,
)
    requires
        env.body.wf(),
        parent.0 < env.body.expr_seq().len(),
        iterable.0 < parent.0,
        body::pat_within(p, parent.0 as nat, env.body.pat_seq()),
        body.0 < parent.0,
    ensures
        expr::for_ty(env, s, parent, iterable, p, body) matches Ok((after, _)) ==> {
            &&& records::adds(*env.body, s, after)
            &&& records::seen(after, iterable)
            &&& records::pat_seen(after, p)
            &&& records::seen(after, body)
        },
    decreases parent.0, 2nat, 0nat, 0nat, 0nat,
{
    broadcast use records::group_adds;

    lemma_expr_ty(env, s, iterable, TyModel::Unknown);
    if let Ok((s1, _)) = expr::expr_ty(env, s, iterable, TyModel::Unknown) {
        pat_records::lemma_pat_ty(env, s1, p, TyModel::Unknown, BindingMode::Move);
        if let Ok((s2, _)) = pat::pat_ty(env, s1, p, TyModel::Unknown, BindingMode::Move) {
            lemma_expr_ty(env, s2, body, ty::unit());
        }
    }
}

proof fn lemma_closure_ty<D: HirDatabase>(
    env: Env<D>,
    s: Model,
    parent: ExprId,
    args: Seq<PatId>,
    arg_types: Seq<Option<TypeRef>>,
    body: ExprId,
)
    requires
        env.body.wf(),
        parent.0 < env.body.expr_seq().len(),
        body::all_pats_within(args, parent.0 as nat, env.body.pat_seq()),
        body.0 < parent.0,
    ensures
        expr::closure_ty(env, s, parent, args, arg_types, body) matches Ok((after, _)) ==> {
            &&& records::adds(*env.body, s, after)
            &&& records::all_pats_seen(after, args)
            &&& records::seen(after, body)
        },
    decreases parent.0, 2nat, 0nat, 0nat, 0nat,
{
    broadcast use records::group_adds;

    if args.len() == arg_types.len() {
        lemma_closure_params(env, s, parent, args, arg_types);
        if let Ok(s1) = expr::closure_params(env, s, parent, args, arg_types) {
            lemma_expr_ty(env, s1, body, TyModel::Unknown);
        }
    }
}

proof fn lemma_call_ty<D: HirDatabase>(
    env: Env<D>,
    s: Model,
    parent: ExprId,
    callee: ExprId,
    args: Seq<ExprId>,
)
    requires
        env.body.wf(),
        parent.0 < env.body.expr_seq().len(),
        callee.0 < parent.0,
        body::all_exprs_below(args, parent.0 as nat),
    ensures
        expr::call_ty(env, s, parent, callee, args) matches Ok((after, _)) ==> {
            &&& records::adds(*env.body, s, after)
            &&& records::seen(after, callee)
            &&& records::all_seen(after, args)
        },
    decreases parent.0, 2nat, 0nat, 0nat, 0nat,
{
    broadcast use records::group_adds;

    lemma_expr_ty(env, s, callee, TyModel::Unknown);
    if let Ok((s1, callee_ty)) = expr::expr_ty(env, s, callee, TyModel::Unknown) {
        let params = match env.db.signature_of_callable(callee_ty) {
            Some(sig) => sig.params,
            None => Seq::empty(),
        };
        lemma_after_args(env, s1, parent, args, params);
    }
}

proof fn lemma_after_args<D: HirDatabase>(
    env: Env<D>,
    s: Model,
    parent: ExprId,
    args: Seq<ExprId>,
    params: Seq<TyModel>,
)
    requires
        env.body.wf(),
        parent.0 < env.body.expr_seq().len(),
        body::all_exprs_below(args, parent.0 as nat),
    ensures
        expr::after_args(env, s, parent, args, params) matches Ok(after) ==> {
            &&& records::adds(*env.body, s, after)
            &&& records::all_seen(after, args)
        },
    decreases parent.0, 1nat, 1nat, 0nat, args.len(),
{
    broadcast use records::group_adds;

    records::lemma_same_records(*env.body, s, s);
    if args.len() > 0 {
        let (expected, rest) = if params.len() > 0 {
            (params[0], params.skip(1))
        } else {
            (TyModel::Unknown, params)
        };
        lemma_expr_ty(env, s, args[0], expected);
        if let Ok((s1, _)) = expr::expr_ty(env, s, args[0], expected) {
            lemma_after_args(env, s1, parent, args.skip(1), rest);
            if let Ok(after) = expr::after_args(env, s1, parent, args.skip(1), rest) {
                records::lemma_seen_cons(after, args);
            }
        }
    }
}

proof fn lemma_method_call_ty<D: HirDatabase>(
    env: Env<D>,
    s: Model,
    parent: ExprId,
    receiver: ExprId,
    args: Seq<ExprId>,
    name: Seq<char>,
    generic_args: Option<GenericArgs>,
)
    requires
        env.body.wf(),
        parent.0 < env.body.expr_seq().len(),
        records::is_method_call(*env.body, ExprOrPatId::ExprId(parent)),
        receiver.0 < parent.0,
        body::all_exprs_below(args, parent.0 as nat),
    ensures
        expr::method_call_ty(env, s, parent, receiver, args, name, generic_args) matches Ok((after, _)) ==> {
            &&& records::adds(*env.body, s, after)
            &&& records::seen(after, receiver)
            &&& records::all_seen(after, args)
        },
    decreases parent.0, 2nat, 0nat, 0nat, 0nat,
{
    broadcast use records::group_adds;

    lemma_expr_ty(env, s, receiver, TyModel::Unknown);
    if let Ok((s1, receiver_ty)) = expr::expr_ty(env, s, receiver, TyModel::Unknown) {
        lemma_method_callee(env, s1, parent, receiver_ty, name, generic_args);
        if let Ok((s2, (params, ret))) = call::method_callee(
            env,
            s1,
            parent,
            receiver_ty,
            name,
            generic_args,
        ) {
            lemma_after_args(env, s2, parent, args, params);
            if let Ok(s3) = expr::after_args(env, s2, parent, args, params) {
                records::lemma_resolved(*env.body, env.db, s3, ret);
            }
        }
    }
}

proof fn lemma_match_ty<D: HirDatabase>(
    env: Env<D>,
    s: Model,
    parent: ExprId,
    scrutinee: ExprId,
    arms: Seq<MatchArm>,
    expected: TyModel,
)
    requires
        env.body.wf(),
        parent.0 < env.body.expr_seq().len(),
        scrutinee.0 < parent.0,
        forall|i: int|
            0 <= i < arms.len() ==> (#[trigger] arms[i]).below(
                parent.0 as nat,
                env.body.pat_seq(),
            ),
    ensures
        expr::match_ty(env, s, parent, scrutinee, arms, expected) matches Ok((after, _)) ==> {
            &&& records::adds(*env.body, s, after)
            &&& records::seen(after, scrutinee)
            &&& arms_seen(after, arms)
        },
    decreases parent.0, 2nat, 0nat, 0nat, 0nat,
{
    broadcast use records::group_adds;

    if let Ok((s1, expectation)) = rules::arm_expectation(s, expected) {
        records::lemma_same_records(*env.body, s, s1);
        lemma_expr_ty(env, s1, scrutinee, TyModel::Unknown);
        if let Ok((s2, input)) = expr::expr_ty(env, s1, scrutinee, TyModel::Unknown) {
            lemma_after_arms(env, s2, parent, arms, input, expectation);
        }
    }
}

proof fn lemma_after_arms<D: HirDatabase>(
    env: Env<D>,
    s: Model,
    parent: ExprId,
    arms: Seq<MatchArm>,
    input: TyModel,
    expected: TyModel,
)
    requires
        env.body.wf(),
        parent.0 < env.body.expr_seq().len(),
        forall|i: int|
            0 <= i < arms.len() ==> (#[trigger] arms[i]).below(
                parent.0 as nat,
                env.body.pat_seq(),
            ),
    ensures
        expr::after_arms(env, s, parent, arms, input, expected) matches Ok(after) ==> {
            &&& records::adds(*env.body, s, after)
            &&& arms_seen(after, arms)
        },
    decreases parent.0, 1nat, 1nat, 0nat, arms.len(),
{
    broadcast use records::group_adds;

    records::lemma_same_records(*env.body, s, s);
    if arms.len() > 0 {
        let rest = arms.skip(1);
        assert forall|i: int| 0 <= i < rest.len() implies (#[trigger] rest[i]).below(
            parent.0 as nat,
            env.body.pat_seq(),
        ) by {
            assert(rest[i] == arms[i + 1]);
        }
        if let Some(s1) = lemma_arm(env, s, parent, arms[0], input, expected) {
            lemma_after_arms(env, s1, parent, rest, input, expected);
            if let Ok(after) = expr::after_arms(env, s1, parent, rest, input, expected) {
                lemma_arm_later(*env.body, s1, after, arms[0]);
                assert forall|i: int| 0 <= i < arms.len() implies arm_seen(
                    after,
                    #[trigger] arms[i],
                ) by {
                    if i > 0 {
                        assert(arms[i] == rest[i - 1]);
                    }
                }
            }
        }
    }
}

/// What an arm records; with what is known after it, if it does not fail.
proof fn lemma_arm<D: HirDatabase>(
    env: Env<D>,
    s: Model,
    parent: ExprId,
    arm: MatchArm,
    input: TyModel,
    expected: TyModel,
) -> (next: Option<Model>)
    requires
        env.body.wf(),
        parent.0 < env.body.expr_seq().len(),
        arm.below(parent.0 as nat, env.body.pat_seq()),
    ensures
        next == match expr::alternatives(env, s, parent, arm.pats@, input) {
            Err(_) => None,
            Ok(s1) => match (match arm.guard {
                Some(guard) => expr::expr_ty(env, s1, guard, rules::bool_ty()),
                None => Ok((s1, TyModel::Unknown)),
            }) {
                Err(_) => None,
                Ok((s2, _)) => match expr::expr_ty(env, s2, arm.expr, expected) {
                    Err(_) => None,
                    Ok((s3, _)) => Some(s3),
                },
            },
        },
        next matches Some(after) ==> records::adds(*env.body, s, after) && arm_seen(after, arm),
    decreases parent.0, 1nat, 1nat, 0nat, 0nat,
{
    broadcast use records::group_adds;

    lemma_alternatives(env, s, parent, arm.pats@, input);
    if let Ok(s1) = expr::alternatives(env, s, parent, arm.pats@, input) {
        records::lemma_same_records(*env.body, s1, s1);
        if let Some(guard) = arm.guard {
            lemma_expr_ty(env, s1, guard, rules::bool_ty());
        }
        let guarded = match arm.guard {
            Some(guard) => expr::expr_ty(env, s1, guard, rules::bool_ty()),
            None => Ok((s1, TyModel::Unknown)),
        };
        if let Ok((s2, _)) = guarded {
            lemma_expr_ty(env, s2, arm.expr, expected);
            if let Ok((s3, _)) = expr::expr_ty(env, s2, arm.expr, expected) {
                Some(s3)
            } else {
                None
            }
        } else {
            None
        }
    } else {
        None
    }
}

proof fn lemma_maybe_then_never<D: HirDatabase>(
    env: Env<D>,
    s: Model,
    parent: ExprId,
    value: Option<ExprId>,
    expected: TyModel,
)
    requires
        env.body.wf(),
        parent.0 < env.body.expr_seq().len(),
        body::opt_expr_below(value, parent.0 as nat),
    ensures
        expr::maybe_then_never(env, s, parent, value, expected) matches Ok((after, _)) ==> {
            &&& records::adds(*env.body, s, after)
            &&& value matches Some(value) ==> records::seen(after, value)
        },
    decreases parent.0, 2nat, 0nat, 0nat, 0nat,
{
    broadcast use records::group_adds;

    records::lemma_same_records(*env.body, s, s);
    if let Some(value) = value {
        lemma_expr_ty(env, s, value, expected);
    }
}

/// Whether an expression is a struct literal with these fields.
spec fn has_fields<D: HirDatabase>(env: Env<D>, e: ExprId, fields: Seq<StructLitField>) -> bool {
    env.body.expr_seq()[e.0 as int] matches Expr::StructLit { fields: own, .. } && own@ == fields
}

proof fn lemma_struct_lit_ty<D: HirDatabase>(
    env: Env<D>,
    s: Model,
    parent: ExprId,
    path: Option<Path>,
    fields: Seq<StructLitField>,
    spread: Option<ExprId>,
)
    requires
        env.body.wf(),
        parent.0 < env.body.expr_seq().len(),
        forall|j: int| 0 <= j < fields.len() ==> (#[trigger] fields[j]).expr.0 < parent.0,
        has_fields(env, parent, fields),
        fields.len() <= usize::MAX,
        body::opt_expr_below(spread, parent.0 as nat),
    ensures
        expr::struct_lit_ty(env, s, parent, path, fields, spread) matches Ok((after, _)) ==> {
            &&& records::adds(*env.body, s, after)
            &&& forall|j: int|
                0 <= j < fields.len() ==> records::seen(after, (#[trigger] fields[j]).expr)
            &&& spread matches Some(spread) ==> records::seen(after, spread)
        },
    decreases parent.0, 2nat, 0nat, 0nat, 0nat,
{
    broadcast use records::group_adds;

    pat_records::lemma_variant_of_path(env, s, path);
    if let Ok((s1, (t, def))) = path::variant_of_path(env, s, path) {
        let substs = ty::params_of(t);
        lemma_after_fields(env, s1, parent, fields, 0, def, substs);
        if let (Ok(s2), Some(spread)) = (
            expr::after_fields(env, s1, parent, fields, 0, def, substs),
            spread,
        ) {
            lemma_expr_ty(env, s2, spread, t);
            if let Ok((s3, _)) = expr::expr_ty(env, s2, spread, t) {
                assert forall|j: int| 0 <= j < fields.len() implies records::seen(
                    s3,
                    (#[trigger] fields[j]).expr,
                ) by {
                    assert(records::seen(s2, fields[j].expr));
                }
            }
        }
    }
}

proof fn lemma_after_fields<D: HirDatabase>(
    env: Env<D>,
    s: Model,
    parent: ExprId,
    fields: Seq<StructLitField>,
    i: int,
    def: Option<VariantDef>,
    substs: Seq<TyModel>,
)
    requires
        env.body.wf(),
        parent.0 < env.body.expr_seq().len(),
        forall|j: int| 0 <= j < fields.len() ==> (#[trigger] fields[j]).expr.0 < parent.0,
        has_fields(env, parent, fields),
        fields.len() <= usize::MAX,
        0 <= i <= fields.len(),
    ensures
        expr::after_fields(env, s, parent, fields, i, def, substs) matches Ok(after) ==> {
            &&& records::adds(*env.body, s, after)
            &&& forall|j: int|
                i <= j < fields.len() ==> records::seen(after, (#[trigger] fields[j]).expr)
        },
    decreases parent.0, 1nat, 1nat, 0nat, fields.len() - i,
{
    broadcast use records::group_adds;

    records::lemma_same_records(*env.body, s, s);
    if i < fields.len() {
        let name = fields[i].name@;
        let s0 = expr::check_field(env, s, parent, i, def, name);
        let told = InferenceDiagnostic::NoSuchField { expr: parent, field: i as usize };
        records::lemma_tell(*env.body, s, told);
        let expected = pat::field_expectation(env.db, def, name, substs);
        lemma_expr_ty(env, s0, fields[i].expr, expected);
        if let Ok((s1, _)) = expr::expr_ty(env, s0, fields[i].expr, expected) {
            lemma_after_fields(env, s1, parent, fields, i + 1, def, substs);
        }
    }
}

proof fn lemma_field_ty<D: HirDatabase>(
    env: Env<D>,
    s: Model,
    parent: ExprId,
    receiver: ExprId,
    name: Seq<char>,
)
    requires
        env.body.wf(),
        parent.0 < env.body.expr_seq().len(),
        records::is_field_access(*env.body, ExprOrPatId::ExprId(parent)),
        receiver.0 < parent.0,
    ensures
        expr::field_ty(env, s, parent, receiver, name) matches Ok((after, _)) ==> {
            &&& records::adds(*env.body, s, after)
            &&& records::seen(after, receiver)
        },
    decreases parent.0, 2nat, 0nat, 0nat, 0nat,
{
    broadcast use records::group_adds;

    lemma_expr_ty(env, s, receiver, TyModel::Unknown);
    if let Ok((s1, receiver_ty)) = expr::expr_ty(env, s, receiver, TyModel::Unknown) {
        lemma_field_access(env, s1, parent, receiver_ty, name);
    }
}

proof fn lemma_cast_ty<D: HirDatabase>(
    env: Env<D>,
    s: Model,
    parent: ExprId,
    inner: ExprId,
    type_ref: TypeRef,
)
    requires
        env.body.wf(),
        parent.0 < env.body.expr_seq().len(),
        inner.0 < parent.0,
    ensures
        expr::cast_ty(env, s, parent, inner, type_ref) matches Ok((after, _)) ==> {
            &&& records::adds(*env.body, s, after)
            &&& records::seen(after, inner)
        },
    decreases parent.0, 2nat, 0nat, 0nat, 0nat,
{
    broadcast use records::group_adds;

    lemma_expr_ty(env, s, inner, TyModel::Unknown);
    if let Ok((s1, _)) = expr::expr_ty(env, s, inner, TyModel::Unknown) {
        records::lemma_insert_in(*env.body, s1, env.db.lowered(env.resolver(), type_ref));
    }
}

proof fn lemma_ref_ty<D: HirDatabase>(
    env: Env<D>,
    s: Model,
    parent: ExprId,
    inner: ExprId,
    mutability: Mutability,
    expected: TyModel,
)
    requires
        env.body.wf(),
        parent.0 < env.body.expr_seq().len(),
        inner.0 < parent.0,
    ensures
        expr::ref_ty(env, s, parent, inner, mutability, expected) matches Ok((after, _)) ==> {
            &&& records::adds(*env.body, s, after)
            &&& records::seen(after, inner)
        },
    decreases parent.0, 2nat, 0nat, 0nat, 0nat,
{
    broadcast use records::group_adds;

    if let Ok(expectation) = rules::referent_expectation(expected) {
        lemma_expr_ty(env, s, inner, expectation);
    }
}

proof fn lemma_unary_op_ty<D: HirDatabase>(
    env: Env<D>,
    s: Model,
    parent: ExprId,
    inner: ExprId,
    op: UnaryOp,
)
    requires
        env.body.wf(),
        parent.0 < env.body.expr_seq().len(),
        inner.0 < parent.0,
    ensures
        expr::unary_op_ty(env, s, parent, inner, op) matches Ok((after, _)) ==> {
            &&& records::adds(*env.body, s, after)
            &&& records::seen(after, inner)
        },
    decreases parent.0, 2nat, 0nat, 0nat, 0nat,
{
    broadcast use records::group_adds;

    lemma_expr_ty(env, s, inner, TyModel::Unknown);
}

proof fn lemma_binary_ty<D: HirDatabase>(
    env: Env<D>,
    s: Model,
    parent: ExprId,
    lhs: ExprId,
    rhs: ExprId,
    op: BinaryOp,
)
    requires
        env.body.wf(),
        parent.0 < env.body.expr_seq().len(),
        lhs.0 < parent.0,
        rhs.0 < parent.0,
    ensures
        expr::binary_ty(env, s, parent, lhs, rhs, op) matches Ok((after, _)) ==> {
            &&& records::adds(*env.body, s, after)
            &&& records::seen(after, lhs)
            &&& records::seen(after, rhs)
        },
    decreases parent.0, 2nat, 0nat, 0nat, 0nat,
{
    broadcast use records::group_adds;

    let expectation = match op {
        BinaryOp::BooleanAnd | BinaryOp::BooleanOr => rules::bool_ty(),
        _ => TyModel::Unknown,
    };
    lemma_expr_ty(env, s, lhs, expectation);
    if let Ok((s1, lhs_ty)) = expr::expr_ty(env, s, lhs, expectation) {
        lemma_expr_ty(env, s1, rhs, env.db.rhs_expectation(op, lhs_ty));
    }
}

proof fn lemma_operands_ty<D: HirDatabase>(
    env: Env<D>,
    s: Model,
    parent: ExprId,
    lhs: ExprId,
    rhs: ExprId,
)
    requires
        env.body.wf(),
        parent.0 < env.body.expr_seq().len(),
        lhs.0 < parent.0,
        rhs.0 < parent.0,
    ensures
        expr::operands_ty(env, s, parent, lhs, rhs) matches Ok((after, _)) ==> {
            &&& records::adds(*env.body, s, after)
            &&& records::seen(after, lhs)
            &&& records::seen(after, rhs)
        },
    decreases parent.0, 2nat, 0nat, 0nat, 0nat,
{
    broadcast use records::group_adds;

    lemma_expr_ty(env, s, lhs, TyModel::Unknown);
    if let Ok((s1, _)) = expr::expr_ty(env, s, lhs, TyModel::Unknown) {
        lemma_expr_ty(env, s1, rhs, TyModel::Unknown);
    }
}

proof fn lemma_expr_tys<D: HirDatabase>(
    env: Env<D>,
    s: Model,
    parent: ExprId,
    exprs: Seq<ExprId>,
)
    requires
        env.body.wf(),
        parent.0 < env.body.expr_seq().len(),
        body::all_exprs_below(exprs, parent.0 as nat),
    ensures
        expr::expr_tys(env, s, parent, exprs) matches Ok((after, _)) ==> {
            &&& records::adds(*env.body, s, after)
            &&& records::all_seen(after, exprs)
        },
    decreases parent.0, 1nat, 1nat, 0nat, exprs.len(),
{
    broadcast use records::group_adds;

    records::lemma_same_records(*env.body, s, s);
    if exprs.len() > 0 {
        lemma_expr_ty(env, s, exprs[0], TyModel::Unknown);
        if let Ok((s1, _)) = expr::expr_ty(env, s, exprs[0], TyModel::Unknown) {
            lemma_expr_tys(env, s1, parent, exprs.skip(1));
            if let Ok((after, _)) = expr::expr_tys(env, s1, parent, exprs.skip(1)) {
                records::lemma_seen_cons(after, exprs);
            }
        }
    }
}

proof fn lemma_array_ty<D: HirDatabase>(
    env: Env<D>,
    s: Model,
    parent: ExprId,
    array: Array,
    expected: TyModel,
)
    requires
        env.body.wf(),
        parent.0 < env.body.expr_seq().len(),
        match array {
            Array::ElementList(items) => body::all_exprs_below(items@, parent.0 as nat),
            Array::Repeat { initializer, repeat } => initializer.0 < parent.0 && repeat.0
                < parent.0,
        },
    ensures
        expr::array_ty(env, s, parent, array, expected) matches Ok((after, _)) ==> {
            &&& records::adds(*env.body, s, after)
            &&& match array {
                Array::ElementList(items) => records::all_seen(after, items@),
                Array::Repeat { initializer, repeat } => records::seen(after, initializer)
                    && records::seen(after, repeat),
            }
        },
    decreases parent.0, 2nat, 0nat, 0nat, 0nat,
{
    broadcast use records::group_adds;

    if let Ok((s1, elem)) = rules::element_ty(s, expected) {
        records::lemma_same_records(*env.body, s, s1);
        match array {
            Array::ElementList(items) => {
                lemma_after_elements(env, s1, parent, items@, elem);
            },
            Array::Repeat { initializer, repeat } => {
                lemma_expr_ty(env, s1, initializer, elem);
                if let Ok((s2, _)) = expr::expr_ty(env, s1, initializer, elem) {
                    lemma_expr_ty(env, s2, repeat, rules::int_ty(IntTy::usize()));
                }
            },
        }
    }
}

proof fn lemma_after_elements<D: HirDatabase>(
    env: Env<D>,
    s: Model,
    parent: ExprId,
    items: Seq<ExprId>,
    elem: TyModel,
)
    requires
        env.body.wf(),
        parent.0 < env.body.expr_seq().len(),
        body::all_exprs_below(items, parent.0 as nat),
    ensures
        expr::after_elements(env, s, parent, items, elem) matches Ok(after) ==> {
            &&& records::adds(*env.body, s, after)
            &&& records::all_seen(after, items)
        },
    decreases parent.0, 1nat, 1nat, 0nat, items.len(),
{
    broadcast use records::group_adds;

    records::lemma_same_records(*env.body, s, s);
    if items.len() > 0 {
        lemma_expr_ty(env, s, items[0], elem);
        if let Ok((s1, _)) = expr::expr_ty(env, s, items[0], elem) {
            lemma_after_elements(env, s1, parent, items.skip(1), elem);
            if let Ok(after) = expr::after_elements(env, s1, parent, items.skip(1), elem) {
                records::lemma_seen_cons(after, items);
            }
        }
    }
}

} // verus!
