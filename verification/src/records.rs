//! What the steps of inference record, whatever the database answers.

use vstd::prelude::*;

use crate::body::{Array, Body, Expr, Statement};
use crate::context::{Model, Run};
use crate::db::{HirDatabase, TraitRefModel};
use crate::defs::{ExprId, ExprOrPatId, Function, ImplItem, PatId, StructField};
use crate::diagnostics::InferenceDiagnostic;
use crate::ty::{TyModel, TypeVarId};
use crate::{body, context, resolve, ty};

verus! {

/// Whether nothing of what was recorded is lost.
#[verifier::opaque]
pub open spec fn grown(s: Model, after: Model) -> bool {
    &&& s.type_of_expr.dom().subset_of(after.type_of_expr.dom())
    &&& s.type_of_pat.dom().subset_of(after.type_of_pat.dom())
    &&& s.method_resolutions.dom().subset_of(after.method_resolutions.dom())
    &&& s.field_resolutions.dom().subset_of(after.field_resolutions.dom())
    &&& s.assoc_resolutions.dom().subset_of(after.assoc_resolutions.dom())
    &&& s.diagnostics.is_prefix_of(after.diagnostics)
    &&& after.return_ty == s.return_ty
}

/// Whether what the user is told is about a field of a struct literal of the body.
pub open spec fn points_at_field(body: Body, d: InferenceDiagnostic) -> bool {
    match d {
        InferenceDiagnostic::NoSuchField { expr, field } => {
            &&& expr.0 < body.expr_seq().len()
            &&& body.expr_seq()[expr.0 as int] matches Expr::StructLit { fields, .. } && field
                < fields@.len()
        },
    }
}

/// Whether the node is a method call.
pub open spec fn is_method_call(body: Body, id: ExprOrPatId) -> bool {
    id matches ExprOrPatId::ExprId(e) && e.0 < body.expr_seq().len()
        && body.expr_seq()[e.0 as int] is MethodCall
}

/// Whether the node is a field access.
pub open spec fn is_field_access(body: Body, id: ExprOrPatId) -> bool {
    id matches ExprOrPatId::ExprId(e) && e.0 < body.expr_seq().len()
        && body.expr_seq()[e.0 as int] is Field
}

/// Whether the node is a path.
pub open spec fn is_path(body: Body, id: ExprOrPatId) -> bool {
    match id {
        ExprOrPatId::ExprId(e) => e.0 < body.expr_seq().len() && body.expr_seq()[e.0 as int] is Path,
        ExprOrPatId::PatId(p) => p.0 < body.pat_seq().len() && body.pat_seq()[p.0 as int] is Path,
    }
}

/// Whether all that a step adds is about a node of the body that it can be about: what
/// it tells the user, and what it says that a node resolves to. What it adds of types
/// leaves nothing out inside of what there are types for.
#[verifier::opaque]
pub open spec fn to_the_point(body: Body, s: Model, after: Model) -> bool {
    &&& s.diagnostics.len() <= after.diagnostics.len()
    &&& forall|i: int|
        s.diagnostics.len() <= i < after.diagnostics.len() ==> points_at_field(
            body,
            #[trigger] after.diagnostics[i],
        )
    &&& forall|id: ExprOrPatId| #[trigger]
        after.method_resolutions.contains_key(id) ==> s.method_resolutions.contains_key(id)
            || is_method_call(body, id)
    &&& forall|id: ExprOrPatId| #[trigger]
        after.field_resolutions.contains_key(id) ==> s.field_resolutions.contains_key(id)
            || is_field_access(body, id)
    &&& forall|id: ExprOrPatId| #[trigger]
        after.assoc_resolutions.contains_key(id) ==> s.assoc_resolutions.contains_key(id)
            || is_path(body, id)
    &&& gapless(body, s.type_of_expr.dom(), s.type_of_pat.dom()) ==> gapless(
        body,
        after.type_of_expr.dom(),
        after.type_of_pat.dom(),
    )
}

/// Whether all that the user is told, and all that nodes resolve to, is about nodes of
/// the body that it can be about.
pub open spec fn points_into(
    body: Body,
    diagnostics: Seq<InferenceDiagnostic>,
    methods: Map<ExprOrPatId, Function>,
    fields: Map<ExprOrPatId, StructField>,
    items: Map<ExprOrPatId, ImplItem>,
) -> bool {
    &&& forall|i: int|
        0 <= i < diagnostics.len() ==> points_at_field(body, #[trigger] diagnostics[i])
    &&& forall|id: ExprOrPatId| #[trigger] methods.contains_key(id) ==> is_method_call(body, id)
    &&& forall|id: ExprOrPatId| #[trigger] fields.contains_key(id) ==> is_field_access(body, id)
    &&& forall|id: ExprOrPatId| #[trigger] items.contains_key(id) ==> is_path(body, id)
}

/// The same of all that is known; and nothing is left out inside of what there are types
/// for.
pub open spec fn all_to_the_point(body: Body, s: Model) -> bool {
    &&& points_into(
        body,
        s.diagnostics,
        s.method_resolutions,
        s.field_resolutions,
        s.assoc_resolutions,
    )
    &&& gapless(body, s.type_of_expr.dom(), s.type_of_pat.dom())
}

/// Whether the expression is inferred as a part of another.
pub open spec fn has_part(node: Expr, c: ExprId) -> bool {
    match node {
        Expr::Missing | Expr::Path(_) | Expr::Continue | Expr::Literal(_) => false,
        Expr::If { condition, then_branch, else_branch } => c == condition || c == then_branch
            || else_branch == Some(c),
        Expr::Block { statements, tail } => tail == Some(c) || exists|i: int|
            0 <= i < statements@.len() && statement_has(#[trigger] statements@[i], c),
        Expr::Loop { body } => c == body,
        Expr::While { condition, body } => c == condition || c == body,
        Expr::For { iterable, body, .. } => c == iterable || c == body,
        Expr::Call { callee, args } => c == callee || args@.contains(c),
        Expr::MethodCall { receiver, args, .. } => c == receiver || args@.contains(c),
        Expr::Match { expr, arms } => c == expr || exists|i: int|
            0 <= i < arms@.len() && ((#[trigger] arms@[i]).guard == Some(c) || arms@[i].expr == c),
        Expr::Break { expr } | Expr::Return { expr } => expr == Some(c),
        Expr::StructLit { fields, spread, .. } => spread == Some(c) || exists|i: int|
            0 <= i < fields@.len() && (#[trigger] fields@[i]).expr == c,
        Expr::Field { expr, .. } => c == expr,
        Expr::Try { expr } => c == expr,
        Expr::Cast { expr, .. } => c == expr,
        Expr::Ref { expr, .. } => c == expr,
        Expr::UnaryOp { expr, .. } => c == expr,
        Expr::BinaryOp { lhs, rhs, .. } => c == lhs || c == rhs,
        Expr::Lambda { body, .. } => c == body,
        Expr::Tuple { exprs } => exprs@.contains(c),
        Expr::Array(Array::ElementList(items)) => items@.contains(c),
        Expr::Array(Array::Repeat { initializer, repeat }) => c == initializer || c == repeat,
    }
}

pub open spec fn statement_has(statement: Statement, c: ExprId) -> bool {
    match statement {
        Statement::Let { initializer, .. } => initializer == Some(c),
        Statement::Expr(expr) => expr == c,
    }
}

/// Whether the pattern is inferred as a part of the expression.
pub open spec fn has_pat(node: Expr, p: PatId) -> bool {
    match node {
        Expr::Block { statements, .. } => exists|i: int|
            0 <= i < statements@.len() && statement_binds(#[trigger] statements@[i], p),
        Expr::For { pat, .. } => p == pat,
        Expr::Match { arms, .. } => exists|i: int|
            0 <= i < arms@.len() && (#[trigger] arms@[i]).pats@.contains(p),
        Expr::Lambda { args, .. } => args@.contains(p),
        _ => false,
    }
}

pub open spec fn statement_binds(statement: Statement, p: PatId) -> bool {
    match statement {
        Statement::Let { pat, .. } => pat == p,
        Statement::Expr(_) => false,
    }
}

/// Whether there are types for all that an expression is made of.
pub open spec fn parts_typed(body: Body, exprs: Set<u32>, pats: Set<u32>, e: ExprId) -> bool {
    let node = body.expr_seq()[e.0 as int];
    &&& forall|c: ExprId| #[trigger] has_part(node, c) ==> exprs.contains(c.0)
    &&& forall|p: PatId| #[trigger] has_pat(node, p) ==> pats.contains(p.0)
}

/// Whether there are types for all that a pattern is made of.
pub open spec fn pat_parts_typed(body: Body, exprs: Set<u32>, pats: Set<u32>, p: PatId) -> bool {
    let node = body.pat_seq()[p.0 as int];
    &&& forall|i: int|
        0 <= i < body::subpats(node).len() ==> pats.contains(
            (#[trigger] body::subpats(node)[i]).0,
        )
    &&& forall|i: int|
        0 <= i < body::pat_exprs(node).len() ==> exprs.contains(
            (#[trigger] body::pat_exprs(node)[i]).0,
        )
}

/// Whether nothing is left out inside of what there are types for: if there is a type for
/// an expression or a pattern, there are types for all that it is made of.
#[verifier::opaque]
pub open spec fn gapless(body: Body, exprs: Set<u32>, pats: Set<u32>) -> bool {
    &&& forall|e: ExprId|
        exprs.contains(e.0) ==> #[trigger] parts_typed(body, exprs, pats, e)
    &&& forall|p: PatId|
        pats.contains(p.0) ==> #[trigger] pat_parts_typed(body, exprs, pats, p)
}

/// Whether a type is recorded for an expression.
pub open spec fn seen(s: Model, e: ExprId) -> bool {
    s.type_of_expr.dom().contains(e.0)
}

/// Whether a type is recorded for a pattern.
pub open spec fn pat_seen(s: Model, p: PatId) -> bool {
    s.type_of_pat.dom().contains(p.0)
}

pub open spec fn all_seen(s: Model, es: Seq<ExprId>) -> bool {
    forall|i: int| 0 <= i < es.len() ==> seen(s, #[trigger] es[i])
}

pub open spec fn all_pats_seen(s: Model, ps: Seq<PatId>) -> bool {
    forall|i: int| 0 <= i < ps.len() ==> pat_seen(s, #[trigger] ps[i])
}

/// Whether types are recorded for all that an expression is made of.
pub open spec fn parts_seen(body: Body, s: Model, e: ExprId) -> bool {
    parts_typed(body, s.type_of_expr.dom(), s.type_of_pat.dom(), e)
}

/// Whether types are recorded for all that a pattern is made of.
pub open spec fn pat_parts_seen(body: Body, s: Model, p: PatId) -> bool {
    pat_parts_typed(body, s.type_of_expr.dom(), s.type_of_pat.dom(), p)
}

/// Whether a step loses nothing of what was recorded, and what it adds is to the point.
pub open spec fn adds(body: Body, s: Model, after: Model) -> bool {
    grown(s, after) && to_the_point(body, s, after)
}

/// The same of a step that gives something, unless it fails.
pub open spec fn ran<T>(body: Body, s: Model, r: Run<T>) -> bool {
    r matches Ok((after, _)) ==> adds(body, s, after)
}

/// The same of a step that gives nothing.
pub open spec fn went<E>(body: Body, s: Model, r: Result<Model, E>) -> bool {
    r matches Ok(after) ==> adds(body, s, after)
}

/// Two steps, one after the other.
pub broadcast proof fn lemma_adds_trans(body: Body, s: Model, s2: Model, s3: Model)
    requires
        #[trigger] adds(body, s, s2),
        #[trigger] adds(body, s2, s3),
    ensures
        adds(body, s, s3),
{
    reveal(grown);
    reveal(to_the_point);
    assert forall|i: int| 0 <= i < s.diagnostics.len() implies s3.diagnostics[i]
        == s.diagnostics[i] by {
        assert(s2.diagnostics[i] == s.diagnostics[i]);
        assert(s3.diagnostics[i] == s2.diagnostics[i]);
    }
    assert forall|i: int|
        s.diagnostics.len() <= i < s3.diagnostics.len() implies points_at_field(
        body,
        #[trigger] s3.diagnostics[i],
    ) by {
        if i < s2.diagnostics.len() {
            assert(s3.diagnostics[i] == s2.diagnostics[i]);
        }
    }
}

/// What has been recorded stays recorded.
pub broadcast proof fn lemma_seen_later(body: Body, s: Model, after: Model, e: ExprId)
    requires
        #[trigger] adds(body, s, after),
        #[trigger] seen(s, e),
    ensures
        seen(after, e),
{
    reveal(grown);
}

pub broadcast proof fn lemma_pat_seen_later(body: Body, s: Model, after: Model, p: PatId)
    requires
        #[trigger] adds(body, s, after),
        #[trigger] pat_seen(s, p),
    ensures
        pat_seen(after, p),
{
    reveal(grown);
}

pub broadcast proof fn lemma_all_seen_later(body: Body, s: Model, after: Model, es: Seq<ExprId>)
    requires
        #[trigger] adds(body, s, after),
        #[trigger] all_seen(s, es),
    ensures
        all_seen(after, es),
{
    reveal(grown);
}

pub broadcast proof fn lemma_all_pats_seen_later(
    body: Body,
    s: Model,
    after: Model,
    ps: Seq<PatId>,
)
    requires
        #[trigger] adds(body, s, after),
        #[trigger] all_pats_seen(s, ps),
    ensures
        all_pats_seen(after, ps),
{
    reveal(grown);
}

pub broadcast group group_adds {
    lemma_adds_trans,
    lemma_seen_later,
    lemma_pat_seen_later,
    lemma_all_seen_later,
    lemma_all_pats_seen_later,
}

/// Nodes of which the first has been seen, and the others have.
pub proof fn lemma_seen_cons(s: Model, es: Seq<ExprId>)
    requires
        es.len() > 0,
        seen(s, es[0]),
        all_seen(s, es.skip(1)),
    ensures
        all_seen(s, es),
{
    assert forall|i: int| 0 <= i < es.len() implies seen(s, #[trigger] es[i]) by {
        if i > 0 {
            assert(es[i] == es.skip(1)[i - 1]);
        }
    }
}

pub proof fn lemma_pats_seen_cons(s: Model, ps: Seq<PatId>)
    requires
        ps.len() > 0,
        pat_seen(s, ps[0]),
        all_pats_seen(s, ps.skip(1)),
    ensures
        all_pats_seen(s, ps),
{
    assert forall|i: int| 0 <= i < ps.len() implies pat_seen(s, #[trigger] ps[i]) by {
        if i > 0 {
            assert(ps[i] == ps.skip(1)[i - 1]);
        }
    }
}

/// Whether a step is one on the variables and the open obligations alone.
pub open spec fn same_records(s: Model, after: Model) -> bool {
    after == (Model { vars: after.vars, obligations: after.obligations, ..s })
}

pub proof fn lemma_same_records(body: Body, s: Model, after: Model)
    requires
        same_records(s, after),
    ensures
        adds(body, s, after),
{
    reveal(grown);
    reveal(to_the_point);
}

proof fn lemma_use_answers<D: HirDatabase>(db: &D, s: Model, goals: Seq<TraitRefModel>)
    ensures
        context::use_answers(db, s, goals) matches Ok(after) ==> same_records(s, after),
    decreases goals.len(),
{
    if goals.len() > 0 {
        if let Ok(mid) = context::use_answer(db, s, goals[0]) {
            lemma_use_answers(db, mid, goals.skip(1));
        }
    }
}

proof fn lemma_as_possible<D: HirDatabase>(
    db: &D,
    n: nat,
    s: Model,
    stack: Seq<TypeVarId>,
    ty: TyModel,
)
    ensures
        context::as_possible(db, n, s, stack, ty) matches Ok((after, _)) ==> same_records(s, after),
    decreases resolve::unvisited(n, stack).len(), ty, 1nat,
{
    lemma_use_answers(db, Model { obligations: Seq::empty(), ..s }, s.obligations);
    if let Ok(mid) = context::settle(db, s) {
        lemma_replace_known(db, n, mid, stack, ty);
    }
}

proof fn lemma_replace_known<D: HirDatabase>(
    db: &D,
    n: nat,
    s: Model,
    stack: Seq<TypeVarId>,
    ty: TyModel,
)
    ensures
        context::replace_known(db, n, s, stack, ty) matches Ok((after, _)) ==> same_records(
            s,
            after,
        ),
    decreases resolve::unvisited(n, stack).len(), ty, 0nat,
{
    match ty {
        TyModel::Apply { params, .. } => {
            lemma_replace_known_all(db, n, s, stack, params);
        },
        TyModel::Infer(tv) => {
            let v = ty::inner_var(tv);
            if !stack.contains(v) && v.0 < n {
                if let Some(known) = s.vars[v.0 as int].value {
                    resolve::lemma_unvisited_shrinks(n, stack, v);
                    lemma_as_possible(db, n, s, stack.push(v), known);
                }
            }
        },
        _ => {},
    }
}

proof fn lemma_replace_known_all<D: HirDatabase>(
    db: &D,
    n: nat,
    s: Model,
    stack: Seq<TypeVarId>,
    tys: Seq<TyModel>,
)
    ensures
        context::replace_known_all(db, n, s, stack, tys) matches Ok((after, _)) ==> same_records(
            s,
            after,
        ),
    decreases resolve::unvisited(n, stack).len(), tys, 0nat,
{
    if tys.len() > 0 {
        lemma_replace_known(db, n, s, stack, tys[0]);
        if let Ok((mid, _)) = context::replace_known(db, n, s, stack, tys[0]) {
            lemma_replace_known_all(db, n, mid, stack, tys.skip(1));
        }
    }
}

pub proof fn lemma_unify_in(body: Body, s: Model, a: TyModel, b: TyModel)
    ensures
        ran(body, s, context::unify_in(s, a, b)),
{
    if let Ok((after, _)) = context::unify_in(s, a, b) {
        lemma_same_records(body, s, after);
    }
}

pub proof fn lemma_insert_in(body: Body, s: Model, t: TyModel)
    ensures
        ran(body, s, context::insert_in(s, t)),
{
    if let Ok((after, _)) = context::insert_in(s, t) {
        lemma_same_records(body, s, after);
    }
}

pub proof fn lemma_insert_shallow_in(body: Body, s: Model, t: TyModel)
    ensures
        ran(body, s, context::insert_shallow_in(s, t)),
{
    if let Ok((after, _)) = context::insert_shallow_in(s, t) {
        lemma_same_records(body, s, after);
    }
}

pub proof fn lemma_resolved<D: HirDatabase>(body: Body, db: &D, s: Model, t: TyModel)
    ensures
        ran(body, s, context::resolved(db, s, t)),
{
    lemma_as_possible(db, s.vars.len(), s, Seq::empty(), t);
    if let Ok((after, _)) = context::resolved(db, s, t) {
        lemma_same_records(body, s, after);
    }
}

/// To record a type for an expression once there are types for all that it is made of.
pub proof fn lemma_write_expr_ty(body: Body, s: Model, e: ExprId, t: TyModel)
    requires
        parts_seen(body, s, e),
    ensures
        adds(body, s, Model { type_of_expr: s.type_of_expr.insert(e.0, t), ..s }),
{
    reveal(grown);
    reveal(to_the_point);
    reveal(gapless);
    let (exprs, pats) = (s.type_of_expr.dom(), s.type_of_pat.dom());
    let more = s.type_of_expr.insert(e.0, t).dom();
    if gapless(body, exprs, pats) {
        assert forall|c: ExprId| more.contains(c.0) implies #[trigger] parts_typed(
            body,
            more,
            pats,
            c,
        ) by {
            assert(parts_typed(body, exprs, pats, c));
        }
        assert forall|p: PatId| pats.contains(p.0) implies #[trigger] pat_parts_typed(
            body,
            more,
            pats,
            p,
        ) by {
            assert(pat_parts_typed(body, exprs, pats, p));
        }
    }
}

/// To record a type for a pattern once there are types for all that it is made of.
pub proof fn lemma_write_pat_ty(body: Body, s: Model, p: PatId, t: TyModel)
    requires
        pat_parts_seen(body, s, p),
    ensures
        adds(body, s, Model { type_of_pat: s.type_of_pat.insert(p.0, t), ..s }),
{
    reveal(grown);
    reveal(to_the_point);
    reveal(gapless);
    let (exprs, pats) = (s.type_of_expr.dom(), s.type_of_pat.dom());
    let more = s.type_of_pat.insert(p.0, t).dom();
    if gapless(body, exprs, pats) {
        assert forall|e: ExprId| exprs.contains(e.0) implies #[trigger] parts_typed(
            body,
            exprs,
            more,
            e,
        ) by {
            assert(parts_typed(body, exprs, pats, e));
        }
        assert forall|c: PatId| more.contains(c.0) implies #[trigger] pat_parts_typed(
            body,
            exprs,
            more,
            c,
        ) by {
            assert(pat_parts_typed(body, exprs, pats, c));
        }
    }
}

/// What an expression or a pattern is made of stays recorded.
pub proof fn lemma_parts_later(body: Body, s: Model, after: Model, e: ExprId, p: PatId)
    requires
        adds(body, s, after),
    ensures
        parts_seen(body, s, e) ==> parts_seen(body, after, e),
        pat_parts_seen(body, s, p) ==> pat_parts_seen(body, after, p),
{
    reveal(grown);
}

pub proof fn lemma_write_method(body: Body, s: Model, id: ExprOrPatId, func: Function)
    requires
        is_method_call(body, id),
    ensures
        adds(body, s, Model { method_resolutions: s.method_resolutions.insert(id, func), ..s }),
{
    reveal(grown);
    reveal(to_the_point);
}

pub proof fn lemma_write_field(body: Body, s: Model, id: ExprOrPatId, field: StructField)
    requires
        is_field_access(body, id),
    ensures
        adds(body, s, Model { field_resolutions: s.field_resolutions.insert(id, field), ..s }),
{
    reveal(grown);
    reveal(to_the_point);
}

pub proof fn lemma_write_assoc(body: Body, s: Model, id: ExprOrPatId, item: ImplItem)
    requires
        is_path(body, id),
    ensures
        adds(body, s, Model { assoc_resolutions: s.assoc_resolutions.insert(id, item), ..s }),
{
    reveal(grown);
    reveal(to_the_point);
}

pub proof fn lemma_tell(body: Body, s: Model, diagnostic: InferenceDiagnostic)
    requires
        points_at_field(body, diagnostic),
    ensures
        adds(body, s, Model { diagnostics: s.diagnostics.push(diagnostic), ..s }),
{
    reveal(grown);
    reveal(to_the_point);
}

/// If all that was known is to the point, so is all that is known after a step.
pub proof fn lemma_told(body: Body, s: Model, after: Model)
    requires
        adds(body, s, after),
        all_to_the_point(body, s),
    ensures
        all_to_the_point(body, after),
{
    reveal(grown);
    reveal(to_the_point);
    assert forall|i: int| 0 <= i < after.diagnostics.len() implies points_at_field(
        body,
        #[trigger] after.diagnostics[i],
    ) by {
        if i < s.diagnostics.len() {
            assert(after.diagnostics[i] == s.diagnostics[i]);
        }
    }
}

pub proof fn lemma_nothing_recorded(body: Body)
    ensures
        all_to_the_point(body, context::nothing_known()),
{
    reveal(gapless);
}

} // verus!
