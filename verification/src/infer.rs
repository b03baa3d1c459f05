//! The entry point of type inference.

use std::sync::Arc;

use vstd::prelude::*;

use crate::context::{Env, InferenceContext, Model};
use crate::db::{ConstSignature, FnSignature, HirDatabase};
use crate::defs::{DefWithBody, PatId, TypeRef};
use crate::error::InferError;
use crate::pat::BindingMode;
use crate::result::{InferenceResult, ResultModel};
use crate::rules::Expectation;
use crate::{context, expr, pat, result};

verus! {

/// What is known after the parameters of a function, whose types are declared.
pub open spec fn after_params<D: HirDatabase>(
    env: Env<D>,
    s: Model,
    types: Seq<TypeRef>,
    pats: Seq<PatId>,
) -> Result<Model, InferError>
    decreases types.len(),
{
    if types.len() == 0 || pats.len() == 0 {
        Ok(s)
    } else {
        match context::make_ty(env.db, env.resolver(), s, types[0]) {
            Err(e) => Err(e),
            Ok((s, ty)) => match pat::pat_ty(env, s, pats[0], ty, BindingMode::Move) {
                Err(e) => Err(e),
                Ok((s, _)) => after_params(env, s, types.skip(1), pats.skip(1)),
            },
        }
    }
}

/// What is known after the type of the result has been declared.
pub open spec fn after_return_type<D: HirDatabase>(
    env: Env<D>,
    s: Model,
    type_ref: TypeRef,
) -> Result<Model, InferError> {
    match context::make_ty(env.db, env.resolver(), s, type_ref) {
        Err(e) => Err(e),
        Ok((s, ty)) => Ok(Model { return_ty: ty, ..s }),
    }
}

/// What is known after the signature of a function.
pub open spec fn after_fn_signature<D: HirDatabase>(
    env: Env<D>,
    s: Model,
    signature: FnSignature,
) -> Result<Model, InferError> {
    match after_params(env, s, signature.params@, env.body.param_seq()) {
        Err(e) => Err(e),
        Ok(s) => after_return_type(env, s, signature.ret_type),
    }
}

/// What the signature of the definition tells.
pub open spec fn after_signature<D: HirDatabase>(env: Env<D>) -> Result<Model, InferError> {
    let s = context::nothing_known();
    match env.owner {
        DefWithBody::Const(konst) => after_return_type(
            env,
            s,
            env.db.const_signature_of(konst).type_ref,
        ),
        DefWithBody::Function(func) => after_fn_signature(env, s, env.db.fn_signature_of(func)),
        DefWithBody::Static(static_) => after_return_type(
            env,
            s,
            env.db.static_signature_of(static_).type_ref,
        ),
    }
}

/// What is known after the body, of which the declared type is expected.
pub open spec fn after_body<D: HirDatabase>(env: Env<D>, s: Model) -> Result<Model, InferError> {
    match expr::expr_ty(env, s, env.body.root(), s.return_ty) {
        Err(e) => Err(e),
        Ok((s, _)) => Ok(s),
    }
}

/// The result of inference for a definition: first its signature is looked at, then
/// its body, and then every recorded type is resolved.
pub open spec fn inference<D: HirDatabase>(db: &D, def: DefWithBody) -> Result<
    ResultModel,
    InferError,
> {
    let body = db.body_of(def);
    let env = Env { db, body: &body, owner: def };
    match after_signature(env) {
        Err(e) => Err(e),
        Ok(s) => match after_body(env, s) {
            Err(e) => Err(e),
            Ok(s) => result::finished(s),
        },
    }
}

impl<'a, D: HirDatabase> InferenceContext<'a, D> {
    pub fn collect_const_signature(&mut self, signature: &ConstSignature) -> (r: Result<
        (),
        InferError,
    >)
        ensures
            final(self).env == old(self).env,
            context::became(
                r,
                final(self)@,
                after_return_type(old(self).env, old(self)@, signature.type_ref),
            ),
    {
        self.return_ty = self.make_ty(signature.type_ref)?;
        Ok(())
    }

    pub fn collect_fn_signature(&mut self, signature: &FnSignature) -> (r: Result<(), InferError>)
        ensures
            final(self).env == old(self).env,
            context::became(
                r,
                final(self)@,
                after_fn_signature(old(self).env, old(self)@, *signature),
            ),
    {
        let types = &signature.params;
        let pats = self.env.body.params();
        let ghost total = after_params(self.env, self@, types@, pats@);
        let mut i: usize = 0;
        assert(types@.skip(0) =~= types@);
        assert(pats@.skip(0) =~= pats@);
        while i < types.len() && i < pats.len()
            invariant
                i <= types.len(),
                i <= pats.len(),
                self.env == old(self).env,
                old(self).env.body.wf(),
                pats@ == old(self).env.body.param_seq(),
                types@ == signature.params@,
                total == after_params(old(self).env, old(self)@, types@, pats@),
                total == after_params(
                    self.env,
                    self@,
                    types@.skip(i as int),
                    pats@.skip(i as int),
                ),
            decreases types.len() - i,
        {
            assert(types@.skip(i as int)[0] == types@[i as int]);
            assert(types@.skip(i as int).skip(1) =~= types@.skip(i + 1));
            assert(pats@.skip(i as int)[0] == pats@[i as int]);
            assert(pats@.skip(i as int).skip(1) =~= pats@.skip(i + 1));
            let ty = self.make_ty(types[i])?;
            self.infer_pat(pats[i], &ty, BindingMode::default())?;
            i += 1;
        }
        self.return_ty = self.make_ty(signature.ret_type)?;
        Ok(())
    }

    pub fn infer_body(&mut self) -> (r: Result<(), InferError>)
        ensures
            final(self).env == old(self).env,
            context::became(r, final(self)@, after_body(old(self).env, old(self)@)),
    {
        let root = self.env.body.body_expr();
        let expectation = Expectation::has_type(self.return_ty.clone());
        self.infer_expr(root, &expectation)?;
        Ok(())
    }
}

/// The entry point of type inference.
pub fn infer<D: HirDatabase>(db: &D, def: DefWithBody) -> (r: Result<
    Arc<InferenceResult>,
    InferError,
>)
    ensures
        match inference(db, def) {
            Ok(m) => r is Ok && r->Ok_0@ == m,
            Err(e) => r == Err::<Arc<InferenceResult>, InferError>(e),
        },
{
    let body = db.body(def);
    let mut ctx = InferenceContext::new(db, body, def);
    match def {
        DefWithBody::Const(c) => ctx.collect_const_signature(db.const_signature(c))?,
        DefWithBody::Function(f) => ctx.collect_fn_signature(db.fn_signature(f))?,
        DefWithBody::Static(s) => ctx.collect_const_signature(db.static_signature(s))?,
    }
    ctx.infer_body()?;
    let result = ctx.resolve_all()?;
    Ok(Arc::new(result))
}

} // verus!
