//! The walk through the expressions of a body.

use vstd::prelude::*;

use crate::body::{
    Array, BinaryOp, Expr, GenericArgs, MatchArm, Path, Statement, StructLitField, UnaryOp,
};
use crate::context::InferenceContext;
use crate::db::HirDatabase;
use crate::defs::{ExprId, ExprOrPatId, PatId, Resolver, TypeRef, VariantDef};
use crate::diagnostics::InferenceDiagnostic;
use crate::error::InferError;
use crate::name::Name;
use crate::pat::BindingMode;
use crate::primitive::{IntTy, UncertainIntTy};
use crate::rules::Expectation;
use crate::ty::{Mutability, Substs, Ty, TyModel, TypeCtor};
use crate::{body, context, expr, rules, ty};

verus! {

impl<'a, D: HirDatabase> InferenceContext<'a, D> {
    /// Infers the type of an expression where a type is expected, and records it.
    pub fn infer_expr(&mut self, tgt_expr: ExprId, expected: &Expectation) -> (r: Result<
        Ty,
        InferError,
    >)
        requires
            old(self).env.body.wf(),
            tgt_expr.0 < old(self).env.body.expr_seq().len(),
        ensures
            final(self).env == old(self).env,
            context::inferred(
                r,
                final(self)@,
                expr::expr_ty(old(self).env, old(self)@, tgt_expr, expected@),
            ),
        decreases tgt_expr.0, 4nat, 0nat, 0nat,
    {
        let ty = self.rule_ty(tgt_expr, expected)?;
        self.record_expr(tgt_expr, ty, &expected.ty)
    }

    fn rule_ty(&mut self, tgt_expr: ExprId, expected: &Expectation) -> (r: Result<
        Ty,
        InferError,
    >)
        requires
            old(self).env.body.wf(),
            tgt_expr.0 < old(self).env.body.expr_seq().len(),
        ensures
            final(self).env == old(self).env,
            context::inferred(
                r,
                final(self)@,
                expr::rule_ty(old(self).env, old(self)@, tgt_expr, expected@),
            ),
        decreases tgt_expr.0, 3nat, 0nat, 0nat,
    {
        let node = self.env.body.expr(tgt_expr);
        assert(node.below(tgt_expr.0 as nat, self.env.body.pat_seq()));
        match node {
            Expr::Missing => Ok(Ty::Unknown),
            Expr::If { condition, then_branch, else_branch } => {
                // if let is desugared to match, so this is always simple if
                self.if_ty(tgt_expr, *condition, *then_branch, *else_branch, expected)
            },
            Expr::Block { statements, tail } => {
                self.infer_block(tgt_expr, statements, *tail, expected)
            },
            Expr::Loop { body } => self.loop_ty(tgt_expr, *body),
            Expr::While { condition, body } => {
                // while let is desugared to a match loop, so this is always simple while
                self.while_ty(tgt_expr, *condition, *body)
            },
            Expr::For { iterable, pat, body } => self.for_ty(tgt_expr, *iterable, *pat, *body),
            Expr::Lambda { args, arg_types, body } => {
                self.closure_ty(tgt_expr, args, arg_types, *body)
            },
            Expr::Call { callee, args } => self.call_ty(tgt_expr, *callee, args),
            Expr::MethodCall { receiver, method_name, args, generic_args } => {
                self.infer_method_call(tgt_expr, *receiver, args, method_name, generic_args)
            },
            Expr::Match { expr, arms } => self.match_ty(tgt_expr, *expr, arms, expected),
            Expr::Path(p) => {
                let resolver = Resolver::Expr(self.env.owner, tgt_expr);
                match self.infer_path_expr(resolver, p, ExprOrPatId::ExprId(tgt_expr))? {
                    Some(ty) => Ok(ty),
                    None => Ok(Ty::Unknown),
                }
            },
            Expr::Continue => Ok(Ty::simple(TypeCtor::Never)),
            Expr::Break { expr } => self.maybe_then_never(tgt_expr, *expr, &Expectation::none()),
            Expr::Return { expr } => {
                let expectation = Expectation::has_type(self.return_ty.clone());
                self.maybe_then_never(tgt_expr, *expr, &expectation)
            },
            Expr::StructLit { path, fields, spread } => {
                self.struct_lit_ty(tgt_expr, path, fields, *spread)
            },
            Expr::Field { expr, name } => self.field_ty(tgt_expr, *expr, name),
            Expr::Try { expr } => {
                self.infer_expr(*expr, &Expectation::none())?;
                Ok(Ty::Unknown)
            },
            Expr::Cast { expr, type_ref } => self.cast_ty(tgt_expr, *expr, *type_ref),
            Expr::Ref { expr, mutability } => {
                self.ref_ty(tgt_expr, *expr, *mutability, expected)
            },
            Expr::UnaryOp { expr, op } => self.unary_op_ty(tgt_expr, *expr, *op),
            Expr::BinaryOp { lhs, rhs, op } => match op {
                Some(op) => self.binary_ty(tgt_expr, *lhs, *rhs, *op),
                None => self.operands_ty(tgt_expr, *lhs, *rhs),
            },
            Expr::Tuple { exprs } => {
                let tys = self.expr_tys(tgt_expr, exprs)?;
                Ok(Ty::apply(TypeCtor::Tuple, Substs(tys)))
            },
            Expr::Array(array) => self.array_ty(tgt_expr, array, expected),
            Expr::Literal(literal) => Ok(rules::type_of_literal(literal)),
        }
    }

    fn loop_ty(
        &mut self,
        tgt_expr: ExprId,
        body: ExprId,
    ) -> (r: Result<Ty, InferError>)
        requires
            old(self).env.body.wf(),
            tgt_expr.0 < old(self).env.body.expr_seq().len(),
            body.0 < tgt_expr.0,
        ensures
            final(self).env == old(self).env,
            context::inferred(
                r,
                final(self)@,
                expr::loop_ty(old(self).env, old(self)@, tgt_expr, body),
            ),
        decreases tgt_expr.0, 2nat, 0nat, 0nat,
    {
        self.infer_expr(body, &Expectation::has_type(Ty::unit()))?;
        Ok(Ty::simple(TypeCtor::Never))
    }

    fn while_ty(
        &mut self,
        tgt_expr: ExprId,
        condition: ExprId,
        body: ExprId,
    ) -> (r: Result<Ty, InferError>)
        requires
            old(self).env.body.wf(),
            tgt_expr.0 < old(self).env.body.expr_seq().len(),
            condition.0 < tgt_expr.0,
            body.0 < tgt_expr.0,
        ensures
            final(self).env == old(self).env,
            context::inferred(
                r,
                final(self)@,
                expr::while_ty(old(self).env, old(self)@, tgt_expr, condition, body),
            ),
        decreases tgt_expr.0, 2nat, 0nat, 0nat,
    {
        let bool_ty = Ty::simple(TypeCtor::Bool);
        self.infer_expr(condition, &Expectation::has_type(bool_ty))?;
        self.infer_expr(body, &Expectation::has_type(Ty::unit()))?;
        Ok(Ty::unit())
    }

    fn for_ty(
        &mut self,
        tgt_expr: ExprId,
        iterable: ExprId,
        pat: PatId,
        body: ExprId,
    ) -> (r: Result<Ty, InferError>)
        requires
            old(self).env.body.wf(),
            tgt_expr.0 < old(self).env.body.expr_seq().len(),
            iterable.0 < tgt_expr.0,
            body::pat_within(pat, tgt_expr.0 as nat, old(self).env.body.pat_seq()),
            body.0 < tgt_expr.0,
        ensures
            final(self).env == old(self).env,
            context::inferred(
                r,
                final(self)@,
                expr::for_ty(old(self).env, old(self)@, tgt_expr, iterable, pat, body),
            ),
        decreases tgt_expr.0, 2nat, 0nat, 0nat,
    {
        self.infer_expr(iterable, &Expectation::none())?;
        self.infer_pat(pat, &Ty::Unknown, BindingMode::default())?;
        self.infer_expr(body, &Expectation::has_type(Ty::unit()))?;
        Ok(Ty::unit())
    }

    fn closure_ty(
        &mut self,
        tgt_expr: ExprId,
        args: &Vec<PatId>,
        arg_types: &Vec<Option<TypeRef>>,
        body: ExprId,
    ) -> (r: Result<Ty, InferError>)
        requires
            old(self).env.body.wf(),
            tgt_expr.0 < old(self).env.body.expr_seq().len(),
            body::all_pats_within(args@, tgt_expr.0 as nat, old(self).env.body.pat_seq()),
            body.0 < tgt_expr.0,
        ensures
            final(self).env == old(self).env,
            context::inferred(
                r,
                final(self)@,
                expr::closure_ty(old(self).env, old(self)@, tgt_expr, args@, arg_types@, body),
            ),
        decreases tgt_expr.0, 2nat, 0nat, 0nat,
    {
        if args.len() != arg_types.len() {
            return Err(InferError::ClosureArity);
        }
        self.after_closure_params(tgt_expr, args, arg_types)?;
        self.infer_expr(body, &Expectation::none())?;
        Ok(Ty::Unknown)
    }

    fn after_closure_params(
        &mut self,
        tgt_expr: ExprId,
        pats: &Vec<PatId>,
        types: &Vec<Option<TypeRef>>,
    ) -> (r: Result<(), InferError>)
        requires
            old(self).env.body.wf(),
            tgt_expr.0 < old(self).env.body.expr_seq().len(),
            body::all_pats_within(pats@, tgt_expr.0 as nat, old(self).env.body.pat_seq()),
        ensures
            final(self).env == old(self).env,
            context::became(
                r,
                final(self)@,
                expr::closure_params(old(self).env, old(self)@, tgt_expr, pats@, types@),
            ),
        decreases tgt_expr.0, 1nat, 0nat, 0nat,
    {
        let ghost total = expr::closure_params(self.env, self@, tgt_expr, pats@, types@);
        let mut i: usize = 0;
        assert(pats@.skip(0) =~= pats@);
        assert(types@.skip(0) =~= types@);
        while i < pats.len() && i < types.len()
            invariant
                i <= pats.len(),
                i <= types.len(),
                self.env == old(self).env,
                old(self).env.body.wf(),
                tgt_expr.0 < old(self).env.body.expr_seq().len(),
                body::all_pats_within(pats@, tgt_expr.0 as nat, old(self).env.body.pat_seq()),
                total == expr::closure_params(old(self).env, old(self)@, tgt_expr, pats@, types@),
                total == expr::closure_params(
                    self.env,
                    self@,
                    tgt_expr,
                    pats@.skip(i as int),
                    types@.skip(i as int),
                ),
            decreases pats.len() - i,
        {
            assert(pats@.skip(i as int)[0] == pats@[i as int]);
            assert(pats@.skip(i as int).skip(1) =~= pats@.skip(i + 1));
            assert(types@.skip(i as int)[0] == types@[i as int]);
            assert(types@.skip(i as int).skip(1) =~= types@.skip(i + 1));
            let expected = self.declared_ty(types[i])?;
            self.infer_pat(pats[i], &expected, BindingMode::default())?;
            i += 1;
        }
        Ok(())
    }

    fn after_alternatives(&mut self, tgt_expr: ExprId, pats: &Vec<PatId>, ty: &Ty) -> (r: Result<
        (),
        InferError,
    >)
        requires
            old(self).env.body.wf(),
            tgt_expr.0 < old(self).env.body.expr_seq().len(),
            body::all_pats_within(pats@, tgt_expr.0 as nat, old(self).env.body.pat_seq()),
        ensures
            final(self).env == old(self).env,
            context::became(
                r,
                final(self)@,
                expr::alternatives(old(self).env, old(self)@, tgt_expr, pats@, ty@),
            ),
        decreases tgt_expr.0, 1nat, 0nat, 0nat,
    {
        let ghost total = expr::alternatives(self.env, self@, tgt_expr, pats@, ty@);
        let mut i: usize = 0;
        assert(pats@.skip(0) =~= pats@);
        while i < pats.len()
            invariant
                i <= pats.len(),
                self.env == old(self).env,
                old(self).env.body.wf(),
                tgt_expr.0 < old(self).env.body.expr_seq().len(),
                body::all_pats_within(pats@, tgt_expr.0 as nat, old(self).env.body.pat_seq()),
                total == expr::alternatives(old(self).env, old(self)@, tgt_expr, pats@, ty@),
                total == expr::alternatives(self.env, self@, tgt_expr, pats@.skip(i as int), ty@),
            decreases pats.len() - i,
        {
            assert(pats@.skip(i as int)[0] == pats@[i as int]);
            assert(pats@.skip(i as int).skip(1) =~= pats@.skip(i + 1));
            self.infer_pat(pats[i], ty, BindingMode::default())?;
            i += 1;
        }
        Ok(())
    }

    fn field_ty(
        &mut self,
        tgt_expr: ExprId,
        receiver: ExprId,
        name: &Name,
    ) -> (r: Result<Ty, InferError>)
        requires
            old(self).env.body.wf(),
            tgt_expr.0 < old(self).env.body.expr_seq().len(),
            receiver.0 < tgt_expr.0,
        ensures
            final(self).env == old(self).env,
            context::inferred(
                r,
                final(self)@,
                expr::field_ty(old(self).env, old(self)@, tgt_expr, receiver, name@),
            ),
        decreases tgt_expr.0, 2nat, 0nat, 0nat,
    {
        let receiver_ty = self.infer_expr(receiver, &Expectation::none())?;
        self.field_access(tgt_expr, &receiver_ty, name)
    }

    fn cast_ty(
        &mut self,
        tgt_expr: ExprId,
        inner: ExprId,
        type_ref: TypeRef,
    ) -> (r: Result<Ty, InferError>)
        requires
            old(self).env.body.wf(),
            tgt_expr.0 < old(self).env.body.expr_seq().len(),
            inner.0 < tgt_expr.0,
        ensures
            final(self).env == old(self).env,
            context::inferred(
                r,
                final(self)@,
                expr::cast_ty(old(self).env, old(self)@, tgt_expr, inner, type_ref),
            ),
        decreases tgt_expr.0, 2nat, 0nat, 0nat,
    {
        self.infer_expr(inner, &Expectation::none())?;
        self.make_ty(type_ref)
    }

    fn ref_ty(
        &mut self,
        tgt_expr: ExprId,
        inner: ExprId,
        mutability: Mutability,
        expected: &Expectation,
    ) -> (r: Result<Ty, InferError>)
        requires
            old(self).env.body.wf(),
            tgt_expr.0 < old(self).env.body.expr_seq().len(),
            inner.0 < tgt_expr.0,
        ensures
            final(self).env == old(self).env,
            context::inferred(
                r,
                final(self)@,
                expr::ref_ty(old(self).env, old(self)@, tgt_expr, inner, mutability, expected@),
            ),
        decreases tgt_expr.0, 2nat, 0nat, 0nat,
    {
        let expectation = match expected.ty.as_reference()? {
            Some((exp_inner, _)) => Expectation::has_type(exp_inner.clone()),
            None => Expectation::none(),
        };
        let inner_ty = self.infer_expr(inner, &expectation)?;
        Ok(Ty::apply_one(TypeCtor::Ref(mutability), inner_ty))
    }

    fn unary_op_ty(
        &mut self,
        tgt_expr: ExprId,
        inner: ExprId,
        op: UnaryOp,
    ) -> (r: Result<Ty, InferError>)
        requires
            old(self).env.body.wf(),
            tgt_expr.0 < old(self).env.body.expr_seq().len(),
            inner.0 < tgt_expr.0,
        ensures
            final(self).env == old(self).env,
            context::inferred(
                r,
                final(self)@,
                expr::unary_op_ty(old(self).env, old(self)@, tgt_expr, inner, op),
            ),
        decreases tgt_expr.0, 2nat, 0nat, 0nat,
    {
        let inner_ty = self.infer_expr(inner, &Expectation::none())?;
        rules::type_of_unary(op, inner_ty)
    }

    fn if_ty(
        &mut self,
        tgt_expr: ExprId,
        condition: ExprId,
        then_branch: ExprId,
        else_branch: Option<ExprId>,
        expected: &Expectation,
    ) -> (r: Result<Ty, InferError>)
        requires
            old(self).env.body.wf(),
            tgt_expr.0 < old(self).env.body.expr_seq().len(),
            condition.0 < tgt_expr.0,
            then_branch.0 < tgt_expr.0,
            body::opt_expr_below(else_branch, tgt_expr.0 as nat),
        ensures
            final(self).env == old(self).env,
            context::inferred(
                r,
                final(self)@,
                expr::if_ty(
                    old(self).env,
                    old(self)@,
                    tgt_expr,
                    condition,
                    then_branch,
                    else_branch,
                    expected@,
                ),
            ),
        decreases tgt_expr.0, 2nat, 0nat, 0nat,
    {
        let bool_ty = Ty::simple(TypeCtor::Bool);
        self.infer_expr(condition, &Expectation::has_type(bool_ty))?;
        let then_ty = self.infer_expr(then_branch, expected)?;
        match else_branch {
            Some(else_branch) => {
                self.infer_expr(else_branch, expected)?;
            },
            None => {
                // no else branch -> unit
                self.unify(&then_ty, &Ty::unit())?;
            },
        }
        Ok(then_ty)
    }

    /// Infers the type of a block.
    pub fn infer_block(
        &mut self,
        tgt_expr: ExprId,
        statements: &Vec<Statement>,
        tail: Option<ExprId>,
        expected: &Expectation,
    ) -> (r: Result<Ty, InferError>)
        requires
            old(self).env.body.wf(),
            tgt_expr.0 < old(self).env.body.expr_seq().len(),
            forall|i: int|
                0 <= i < statements@.len() ==> (#[trigger] statements@[i]).below(
                    tgt_expr.0 as nat,
                    old(self).env.body.pat_seq(),
                ),
            body::opt_expr_below(tail, tgt_expr.0 as nat),
        ensures
            final(self).env == old(self).env,
            context::inferred(
                r,
                final(self)@,
                expr::block_ty(
                    old(self).env,
                    old(self)@,
                    tgt_expr,
                    statements@,
                    tail,
                    expected@,
                ),
            ),
        decreases tgt_expr.0, 2nat, 0nat, 0nat,
    {
        self.after_statements(tgt_expr, statements)?;
        match tail {
            Some(tail) => self.infer_expr(tail, expected),
            None => Ok(Ty::unit()),
        }
    }

    fn after_statements(&mut self, tgt_expr: ExprId, statements: &Vec<Statement>) -> (r: Result<
        (),
        InferError,
    >)
        requires
            old(self).env.body.wf(),
            tgt_expr.0 < old(self).env.body.expr_seq().len(),
            forall|i: int|
                0 <= i < statements@.len() ==> (#[trigger] statements@[i]).below(
                    tgt_expr.0 as nat,
                    old(self).env.body.pat_seq(),
                ),
        ensures
            final(self).env == old(self).env,
            context::became(
                r,
                final(self)@,
                expr::after_statements(old(self).env, old(self)@, tgt_expr, statements@),
            ),
        decreases tgt_expr.0, 1nat, 1nat, 0nat,
    {
        let ghost total = expr::after_statements(self.env, self@, tgt_expr, statements@);
        let mut i: usize = 0;
        assert(statements@.skip(0) =~= statements@);
        while i < statements.len()
            invariant
                i <= statements.len(),
                self.env == old(self).env,
                old(self).env.body.wf(),
                tgt_expr.0 < old(self).env.body.expr_seq().len(),
                forall|i: int|
                    0 <= i < statements@.len() ==> (#[trigger] statements@[i]).below(
                        tgt_expr.0 as nat,
                        old(self).env.body.pat_seq(),
                    ),
                total == expr::after_statements(old(self).env, old(self)@, tgt_expr, statements@),
                total == expr::after_statements(
                    self.env,
                    self@,
                    tgt_expr,
                    statements@.skip(i as int),
                ),
            decreases statements.len() - i,
        {
            assert(statements@.skip(i as int)[0] == statements@[i as int]);
            assert(statements@.skip(i as int).skip(1) =~= statements@.skip(i + 1));
            assert(statements@[i as int].below(
                tgt_expr.0 as nat,
                old(self).env.body.pat_seq(),
            ));
            match &statements[i] {
                Statement::Let { pat, type_ref, initializer } => {
                    let decl_ty = self.declared_ty(*type_ref)?;
                    let decl_ty = self.insert_type_vars(&decl_ty)?;
                    let ty = match initializer {
                        Some(expr) => self.infer_expr(*expr, &Expectation::has_type(decl_ty))?,
                        None => decl_ty,
                    };
                    self.infer_pat(*pat, &ty, BindingMode::default())?;
                },
                Statement::Expr(expr) => {
                    self.infer_expr(*expr, &Expectation::none())?;
                },
            }
            i += 1;
        }
        Ok(())
    }

    fn call_ty(&mut self, tgt_expr: ExprId, callee: ExprId, args: &Vec<ExprId>) -> (r: Result<
        Ty,
        InferError,
    >)
        requires
            old(self).env.body.wf(),
            tgt_expr.0 < old(self).env.body.expr_seq().len(),
            callee.0 < tgt_expr.0,
            body::all_exprs_below(args@, tgt_expr.0 as nat),
        ensures
            final(self).env == old(self).env,
            context::inferred(
                r,
                final(self)@,
                expr::call_ty(old(self).env, old(self)@, tgt_expr, callee, args@),
            ),
        decreases tgt_expr.0, 2nat, 0nat, 0nat,
    {
        let callee_ty = self.infer_expr(callee, &Expectation::none())?;
        let (param_tys, ret_ty) = match self.env.db.callable_sig(&callee_ty) {
            Some(sig) => (sig.params, sig.ret),
            None => {
                // Not callable
                let params: Vec<Ty> = Vec::new();
                assert(ty::models(params@) =~= Seq::empty());
                (params, Ty::Unknown)
            },
        };
        self.after_args(tgt_expr, args, &param_tys)?;
        Ok(ret_ty)
    }

    fn after_args(&mut self, tgt_expr: ExprId, args: &Vec<ExprId>, param_tys: &Vec<Ty>) -> (r:
        Result<(), InferError>)
        requires
            old(self).env.body.wf(),
            tgt_expr.0 < old(self).env.body.expr_seq().len(),
            body::all_exprs_below(args@, tgt_expr.0 as nat),
        ensures
            final(self).env == old(self).env,
            context::became(
                r,
                final(self)@,
                expr::after_args(
                    old(self).env,
                    old(self)@,
                    tgt_expr,
                    args@,
                    ty::models(param_tys@),
                ),
            ),
        decreases tgt_expr.0, 1nat, 1nat, 0nat,
    {
        let ghost params = ty::models(param_tys@);
        let ghost total = expr::after_args(self.env, self@, tgt_expr, args@, params);
        let mut i: usize = 0;
        assert(args@.skip(0) =~= args@);
        assert(params.skip(0) =~= params);
        while i < args.len()
            invariant
                i <= args.len(),
                self.env == old(self).env,
                old(self).env.body.wf(),
                tgt_expr.0 < old(self).env.body.expr_seq().len(),
                body::all_exprs_below(args@, tgt_expr.0 as nat),
                params == ty::models(param_tys@),
                total == expr::after_args(old(self).env, old(self)@, tgt_expr, args@, params),
                total == expr::after_args(
                    self.env,
                    self@,
                    tgt_expr,
                    args@.skip(i as int),
                    ty::from_nth(params, i as int),
                ),
            decreases args.len() - i,
        {
            let param = if i < param_tys.len() {
                param_tys[i].clone()
            } else {
                Ty::Unknown
            };
            proof {
                assert(args@.skip(i as int)[0] == args@[i as int]);
                assert(args@.skip(i as int).skip(1) =~= args@.skip(i + 1));
                if i < param_tys.len() {
                    assert(ty::from_nth(params, i as int)[0] == param_tys@[i as int]@);
                    assert(ty::from_nth(params, i as int).skip(1) =~= ty::from_nth(params, i + 1));
                } else {
                    assert(ty::from_nth(params, i as int) =~= Seq::empty());
                    assert(ty::from_nth(params, i + 1) =~= Seq::empty());
                }
            }
            self.infer_expr(args[i], &Expectation::has_type(param))?;
            i += 1;
        }
        Ok(())
    }

    /// Infers the type of a method call, and records the method.
    pub fn infer_method_call(
        &mut self,
        tgt_expr: ExprId,
        receiver: ExprId,
        args: &Vec<ExprId>,
        method_name: &Name,
        generic_args: &Option<GenericArgs>,
    ) -> (r: Result<Ty, InferError>)
        requires
            old(self).env.body.wf(),
            tgt_expr.0 < old(self).env.body.expr_seq().len(),
            receiver.0 < tgt_expr.0,
            body::all_exprs_below(args@, tgt_expr.0 as nat),
        ensures
            final(self).env == old(self).env,
            context::inferred(
                r,
                final(self)@,
                expr::method_call_ty(
                    old(self).env,
                    old(self)@,
                    tgt_expr,
                    receiver,
                    args@,
                    method_name@,
                    *generic_args,
                ),
            ),
        decreases tgt_expr.0, 2nat, 0nat, 0nat,
    {
        let receiver_ty = self.infer_expr(receiver, &Expectation::none())?;
        let (param_tys, ret_ty) = self.method_callee(
            tgt_expr,
            receiver_ty,
            method_name,
            generic_args,
        )?;
        self.after_args(tgt_expr, args, &param_tys)?;
        self.resolved(&ret_ty)
    }

    fn match_ty(
        &mut self,
        tgt_expr: ExprId,
        scrutinee: ExprId,
        arms: &Vec<MatchArm>,
        expected: &Expectation,
    ) -> (r: Result<Ty, InferError>)
        requires
            old(self).env.body.wf(),
            tgt_expr.0 < old(self).env.body.expr_seq().len(),
            scrutinee.0 < tgt_expr.0,
            forall|i: int|
                0 <= i < arms@.len() ==> (#[trigger] arms@[i]).below(
                    tgt_expr.0 as nat,
                    old(self).env.body.pat_seq(),
                ),
        ensures
            final(self).env == old(self).env,
            context::inferred(
                r,
                final(self)@,
                expr::match_ty(
                    old(self).env,
                    old(self)@,
                    tgt_expr,
                    scrutinee,
                    arms@,
                    expected@,
                ),
            ),
        decreases tgt_expr.0, 2nat, 0nat, 0nat,
    {
        let expected = match &expected.ty {
            Ty::Unknown => Expectation::has_type(self.new_type_var()?),
            _ => expected.clone(),
        };
        let input_ty = self.infer_expr(scrutinee, &Expectation::none())?;
        self.after_arms(tgt_expr, arms, &input_ty, &expected)?;
        Ok(expected.ty)
    }

    fn after_arms(
        &mut self,
        tgt_expr: ExprId,
        arms: &Vec<MatchArm>,
        input_ty: &Ty,
        expected: &Expectation,
    ) -> (r: Result<(), InferError>)
        requires
            old(self).env.body.wf(),
            tgt_expr.0 < old(self).env.body.expr_seq().len(),
            forall|i: int|
                0 <= i < arms@.len() ==> (#[trigger] arms@[i]).below(
                    tgt_expr.0 as nat,
                    old(self).env.body.pat_seq(),
                ),
        ensures
            final(self).env == old(self).env,
            context::became(
                r,
                final(self)@,
                expr::after_arms(
                    old(self).env,
                    old(self)@,
                    tgt_expr,
                    arms@,
                    input_ty@,
                    expected@,
                ),
            ),
        decreases tgt_expr.0, 1nat, 1nat, 0nat,
    {
        let ghost total = expr::after_arms(
            self.env,
            self@,
            tgt_expr,
            arms@,
            input_ty@,
            expected@,
        );
        let mut i: usize = 0;
        assert(arms@.skip(0) =~= arms@);
        while i < arms.len()
            invariant
                i <= arms.len(),
                self.env == old(self).env,
                old(self).env.body.wf(),
                tgt_expr.0 < old(self).env.body.expr_seq().len(),
                forall|i: int|
                    0 <= i < arms@.len() ==> (#[trigger] arms@[i]).below(
                        tgt_expr.0 as nat,
                        old(self).env.body.pat_seq(),
                    ),
                total == expr::after_arms(
                    old(self).env,
                    old(self)@,
                    tgt_expr,
                    arms@,
                    input_ty@,
                    expected@,
                ),
                total == expr::after_arms(
                    self.env,
                    self@,
                    tgt_expr,
                    arms@.skip(i as int),
                    input_ty@,
                    expected@,
                ),
            decreases arms.len() - i,
        {
            let arm = &arms[i];
            assert(arms@.skip(i as int)[0] == arms@[i as int]);
            assert(arms@.skip(i as int).skip(1) =~= arms@.skip(i + 1));
            assert(arm.below(tgt_expr.0 as nat, old(self).env.body.pat_seq()));
            self.after_alternatives(tgt_expr, &arm.pats, input_ty)?;
            if let Some(guard_expr) = arm.guard {
                let bool_ty = Ty::simple(TypeCtor::Bool);
                self.infer_expr(guard_expr, &Expectation::has_type(bool_ty))?;
            }
            self.infer_expr(arm.expr, expected)?;
            i += 1;
        }
        Ok(())
    }

    fn maybe_then_never(
        &mut self,
        tgt_expr: ExprId,
        value: Option<ExprId>,
        expected: &Expectation,
    ) -> (r: Result<Ty, InferError>)
        requires
            old(self).env.body.wf(),
            tgt_expr.0 < old(self).env.body.expr_seq().len(),
            body::opt_expr_below(value, tgt_expr.0 as nat),
        ensures
            final(self).env == old(self).env,
            context::inferred(
                r,
                final(self)@,
                expr::maybe_then_never(old(self).env, old(self)@, tgt_expr, value, expected@),
            ),
        decreases tgt_expr.0, 2nat, 0nat, 0nat,
    {
        if let Some(value) = value {
            self.infer_expr(value, expected)?;
        }
        Ok(Ty::simple(TypeCtor::Never))
    }

    fn struct_lit_ty(
        &mut self,
        tgt_expr: ExprId,
        path: &Option<Path>,
        fields: &Vec<StructLitField>,
        spread: Option<ExprId>,
    ) -> (r: Result<Ty, InferError>)
        requires
            old(self).env.body.wf(),
            tgt_expr.0 < old(self).env.body.expr_seq().len(),
            forall|i: int|
                0 <= i < fields@.len() ==> (#[trigger] fields@[i]).expr.0 < tgt_expr.0,
            body::opt_expr_below(spread, tgt_expr.0 as nat),
        ensures
            final(self).env == old(self).env,
            context::inferred(
                r,
                final(self)@,
                expr::struct_lit_ty(
                    old(self).env,
                    old(self)@,
                    tgt_expr,
                    *path,
                    fields@,
                    spread,
                ),
            ),
        decreases tgt_expr.0, 2nat, 0nat, 0nat,
    {
        let (ty, def_id) = self.resolve_variant(path)?;
        let substs = ty.substs_or_empty();
        self.after_fields(tgt_expr, fields, def_id, &substs)?;
        if let Some(spread) = spread {
            self.infer_expr(spread, &Expectation::has_type(ty.clone()))?;
        }
        Ok(ty)
    }

    fn check_field(&mut self, tgt_expr: ExprId, field_idx: usize, def: Option<VariantDef>, name: &Name)
        ensures
            final(self).env == old(self).env,
            final(self)@ == expr::check_field(
                old(self).env,
                old(self)@,
                tgt_expr,
                field_idx as int,
                def,
                name@,
            ),
    {
        if let Some(def) = def {
            if self.env.db.variant_field(def, name).is_none() {
                self.diagnostics.push(
                    InferenceDiagnostic::NoSuchField { expr: tgt_expr, field: field_idx },
                );
            }
        }
    }

    fn after_fields(
        &mut self,
        tgt_expr: ExprId,
        fields: &Vec<StructLitField>,
        def: Option<VariantDef>,
        substs: &Substs,
    ) -> (r: Result<(), InferError>)
        requires
            old(self).env.body.wf(),
            tgt_expr.0 < old(self).env.body.expr_seq().len(),
            forall|i: int|
                0 <= i < fields@.len() ==> (#[trigger] fields@[i]).expr.0 < tgt_expr.0,
        ensures
            final(self).env == old(self).env,
            context::became(
                r,
                final(self)@,
                expr::after_fields(
                    old(self).env,
                    old(self)@,
                    tgt_expr,
                    fields@,
                    0,
                    def,
                    substs@,
                ),
            ),
        decreases tgt_expr.0, 1nat, 1nat, 0nat,
    {
        let mut i: usize = 0;
        while i < fields.len()
            invariant
                i <= fields.len(),
                self.env == old(self).env,
                old(self).env.body.wf(),
                tgt_expr.0 < old(self).env.body.expr_seq().len(),
                forall|i: int|
                    0 <= i < fields@.len() ==> (#[trigger] fields@[i]).expr.0 < tgt_expr.0,
                expr::after_fields(
                    old(self).env,
                    old(self)@,
                    tgt_expr,
                    fields@,
                    0,
                    def,
                    substs@,
                ) == expr::after_fields(
                    self.env,
                    self@,
                    tgt_expr,
                    fields@,
                    i as int,
                    def,
                    substs@,
                ),
            decreases fields.len() - i,
        {
            let field = &fields[i];
            self.check_field(tgt_expr, i, def, &field.name);
            let field_ty = self.field_expectation(def, &field.name, substs);
            self.infer_expr(field.expr, &Expectation::has_type(field_ty))?;
            i += 1;
        }
        Ok(())
    }

    fn binary_ty(&mut self, tgt_expr: ExprId, lhs: ExprId, rhs: ExprId, op: BinaryOp) -> (r:
        Result<Ty, InferError>)
        requires
            old(self).env.body.wf(),
            tgt_expr.0 < old(self).env.body.expr_seq().len(),
            lhs.0 < tgt_expr.0,
            rhs.0 < tgt_expr.0,
        ensures
            final(self).env == old(self).env,
            context::inferred(
                r,
                final(self)@,
                expr::binary_ty(old(self).env, old(self)@, tgt_expr, lhs, rhs, op),
            ),
        decreases tgt_expr.0, 2nat, 0nat, 0nat,
    {
        let lhs_expectation = match op {
            BinaryOp::BooleanAnd | BinaryOp::BooleanOr => {
                Expectation::has_type(Ty::simple(TypeCtor::Bool))
            },
            _ => Expectation::none(),
        };
        let lhs_ty = self.infer_expr(lhs, &lhs_expectation)?;
        let rhs_expectation = self.env.db.binary_op_rhs_expectation(op, &lhs_ty);
        let rhs_ty = self.infer_expr(rhs, &Expectation::has_type(rhs_expectation))?;
        Ok(self.env.db.binary_op_return_ty(op, &rhs_ty))
    }

    fn operands_ty(&mut self, tgt_expr: ExprId, lhs: ExprId, rhs: ExprId) -> (r: Result<
        Ty,
        InferError,
    >)
        requires
            old(self).env.body.wf(),
            tgt_expr.0 < old(self).env.body.expr_seq().len(),
            lhs.0 < tgt_expr.0,
            rhs.0 < tgt_expr.0,
        ensures
            final(self).env == old(self).env,
            context::inferred(
                r,
                final(self)@,
                expr::operands_ty(old(self).env, old(self)@, tgt_expr, lhs, rhs),
            ),
        decreases tgt_expr.0, 2nat, 0nat, 0nat,
    {
        self.infer_expr(lhs, &Expectation::none())?;
        self.infer_expr(rhs, &Expectation::none())?;
        Ok(Ty::Unknown)
    }

    fn expr_tys(&mut self, tgt_expr: ExprId, exprs: &Vec<ExprId>) -> (r: Result<
        Vec<Ty>,
        InferError,
    >)
        requires
            old(self).env.body.wf(),
            tgt_expr.0 < old(self).env.body.expr_seq().len(),
            body::all_exprs_below(exprs@, tgt_expr.0 as nat),
        ensures
            final(self).env == old(self).env,
            match expr::expr_tys(old(self).env, old(self)@, tgt_expr, exprs@) {
                Ok((s, tys)) => r is Ok && ty::models(r->Ok_0@) == tys && final(self)@ == s,
                Err(e) => r == Err::<Vec<Ty>, InferError>(e),
            },
        decreases tgt_expr.0, 1nat, 1nat, 0nat,
    {
        let ghost total = expr::expr_tys(self.env, self@, tgt_expr, exprs@);
        let mut tys: Vec<Ty> = Vec::new();
        let mut i: usize = 0;
        proof {
            assert(exprs@.skip(0) =~= exprs@);
            if let Ok((_, ts)) = total {
                assert(ty::models(tys@) + ts =~= ts);
            }
        }
        while i < exprs.len()
            invariant
                i <= exprs.len(),
                self.env == old(self).env,
                old(self).env.body.wf(),
                tgt_expr.0 < old(self).env.body.expr_seq().len(),
                body::all_exprs_below(exprs@, tgt_expr.0 as nat),
                total == expr::expr_tys(old(self).env, old(self)@, tgt_expr, exprs@),
                total == context::after_front(
                    ty::models(tys@),
                    expr::expr_tys(self.env, self@, tgt_expr, exprs@.skip(i as int)),
                ),
            decreases exprs.len() - i,
        {
            assert(exprs@.skip(i as int)[0] == exprs@[i as int]);
            assert(exprs@.skip(i as int).skip(1) =~= exprs@.skip(i + 1));
            let t = self.infer_expr(exprs[i], &Expectation::none())?;
            let ghost before = ty::models(tys@);
            tys.push(t);
            proof {
                assert(ty::models(tys@) =~= before.push(t@));
                if let Ok((_, ts)) = expr::expr_tys(self.env, self@, tgt_expr, exprs@.skip(i + 1)) {
                    assert(before + (seq![t@] + ts) =~= before.push(t@) + ts);
                }
            }
            i += 1;
        }
        assert(ty::models(tys@) + Seq::<TyModel>::empty() =~= ty::models(tys@));
        Ok(tys)
    }

    fn array_ty(&mut self, tgt_expr: ExprId, array: &Array, expected: &Expectation) -> (r: Result<
        Ty,
        InferError,
    >)
        requires
            old(self).env.body.wf(),
            tgt_expr.0 < old(self).env.body.expr_seq().len(),
            match *array {
                Array::ElementList(items) => body::all_exprs_below(items@, tgt_expr.0 as nat),
                Array::Repeat { initializer, repeat } => initializer.0 < tgt_expr.0 && repeat.0
                    < tgt_expr.0,
            },
        ensures
            final(self).env == old(self).env,
            context::inferred(
                r,
                final(self)@,
                expr::array_ty(old(self).env, old(self)@, tgt_expr, *array, expected@),
            ),
        decreases tgt_expr.0, 2nat, 0nat, 0nat,
    {
        let elem_ty = self.element_ty(&expected.ty)?;
        match array {
            Array::ElementList(items) => {
                self.after_elements(tgt_expr, items, &elem_ty)?;
            },
            Array::Repeat { initializer, repeat } => {
                self.infer_expr(*initializer, &Expectation::has_type(elem_ty.clone()))?;
                let usize_ty = Ty::simple(TypeCtor::Int(UncertainIntTy::Known(IntTy::usize())));
                self.infer_expr(*repeat, &Expectation::has_type(usize_ty))?;
            },
        }
        Ok(Ty::apply_one(TypeCtor::Array, elem_ty))
    }

    fn after_elements(&mut self, tgt_expr: ExprId, items: &Vec<ExprId>, elem_ty: &Ty) -> (r: Result<
        (),
        InferError,
    >)
        requires
            old(self).env.body.wf(),
            tgt_expr.0 < old(self).env.body.expr_seq().len(),
            body::all_exprs_below(items@, tgt_expr.0 as nat),
        ensures
            final(self).env == old(self).env,
            context::became(
                r,
                final(self)@,
                expr::after_elements(old(self).env, old(self)@, tgt_expr, items@, elem_ty@),
            ),
        decreases tgt_expr.0, 1nat, 1nat, 0nat,
    {
        let ghost total = expr::after_elements(self.env, self@, tgt_expr, items@, elem_ty@);
        let mut i: usize = 0;
        assert(items@.skip(0) =~= items@);
        while i < items.len()
            invariant
                i <= items.len(),
                self.env == old(self).env,
                old(self).env.body.wf(),
                tgt_expr.0 < old(self).env.body.expr_seq().len(),
                body::all_exprs_below(items@, tgt_expr.0 as nat),
                total == expr::after_elements(
                    old(self).env,
                    old(self)@,
                    tgt_expr,
                    items@,
                    elem_ty@,
                ),
                total == expr::after_elements(
                    self.env,
                    self@,
                    tgt_expr,
                    items@.skip(i as int),
                    elem_ty@,
                ),
            decreases items.len() - i,
        {
            assert(items@.skip(i as int)[0] == items@[i as int]);
            assert(items@.skip(i as int).skip(1) =~= items@.skip(i + 1));
            self.infer_expr(items[i], &Expectation::has_type(elem_ty.clone()))?;
            i += 1;
        }
        Ok(())
    }
}

} // verus!
