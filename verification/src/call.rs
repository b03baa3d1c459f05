//! The types that a method call gives for the parameters of the method, and what has
//! to hold for a call.

use vstd::prelude::*;

use crate::body::{GenericArg, GenericArgs};
use crate::context::{Env, InferenceContext, Model, Run};
use crate::db::{
    FnSig, FnSigModel, GenericParams, HirDatabase, Obligation, TraitRef, TraitRefModel,
};
use crate::defs::{CallableDef, ExprId, ExprOrPatId, Namespace, Resolver, TypableDef};
use crate::error::InferError;
use crate::name::Name;
use crate::ty::{Substs, Ty, TyModel, TypeCtor};
use crate::{context, db, ty};

verus! {

/// The types for the parameters of the definition around a method: the receiver for
/// `Self`, nothing known for the others.
pub open spec fn parent_substs(params: Seq<Name>, receiver: TyModel) -> Seq<TyModel> {
    Seq::new(
        params.len(),
        |i: int|
            if params[i]@ == "Self"@ {
                receiver
            } else {
                TyModel::Unknown
            },
    )
}

/// The types of the first arguments that are written, up to `count` of them.
pub open spec fn written_args<D: HirDatabase>(
    env: Env<D>,
    s: Model,
    args: Seq<GenericArg>,
    count: nat,
) -> Run<Seq<TyModel>>
    decreases args.len(),
{
    if args.len() == 0 || count == 0 {
        Ok((s, Seq::empty()))
    } else {
        match args[0] {
            GenericArg::Type(type_ref) => match context::make_ty(
                env.db,
                env.resolver(),
                s,
                type_ref,
            ) {
                Err(e) => Err(e),
                Ok((s, t)) => match written_args(env, s, args.skip(1), (count - 1) as nat) {
                    Err(e) => Err(e),
                    Ok((s, ts)) => Ok((s, seq![t] + ts)),
                },
            },
        }
    }
}

/// The list with unknown types behind it, so that it has `n` types.
pub open spec fn filled_up(tys: Seq<TyModel>, n: nat) -> Seq<TyModel> {
    tys + Seq::new((n - tys.len()) as nat, |i: int| TyModel::Unknown)
}

pub open spec fn generics_of(generics: Option<&GenericParams>) -> Option<GenericParams> {
    match generics {
        Some(g) => Some(*g),
        None => None,
    }
}

/// The number of type parameters of a method and of what is around it.
pub open spec fn param_count(generics: Option<GenericParams>) -> nat {
    match generics {
        Some(g) => g.total(),
        None => 0,
    }
}

/// The types for the parameters of the definition around a method, as far as it is
/// known.
pub open spec fn outer_substs(generics: Option<GenericParams>, receiver: TyModel) -> Seq<TyModel> {
    match generics {
        Some(GenericParams { parent_params: Some(parent), .. }) => parent_substs(
            parent.params@,
            receiver,
        ),
        _ => Seq::empty(),
    }
}

/// The arguments that are written.
pub open spec fn arg_seq(args: Option<GenericArgs>) -> Seq<GenericArg> {
    match args {
        Some(args) => args.args@,
        None => Seq::empty(),
    }
}

/// The types that a method call gives for the parameters of the method and of the
/// definition around it.
pub open spec fn method_substs<D: HirDatabase>(
    env: Env<D>,
    s: Model,
    generics: Option<GenericParams>,
    args: Option<GenericArgs>,
    receiver: TyModel,
) -> Run<Seq<TyModel>> {
    let own = match generics {
        Some(g) => g.params@.len(),
        None => 0,
    };
    if param_count(generics) > usize::MAX {
        Err(InferError::TooManyParameters)
    } else {
        match written_args(env, s, arg_seq(args), own) {
            Err(e) => Err(e),
            Ok((s, tys)) => Ok(
                (s, filled_up(outer_substs(generics, receiver) + tys, param_count(generics))),
            ),
        }
    }
}

pub proof fn lemma_written_args_count<D: HirDatabase>(
    env: Env<D>,
    s: Model,
    args: Seq<GenericArg>,
    count: nat,
)
    ensures
        written_args(env, s, args, count) matches Ok((_, tys)) ==> tys.len() <= count,
    decreases args.len(),
{
    if args.len() > 0 && count > 0 {
        let GenericArg::Type(type_ref) = args[0];
        if let Ok((s, _)) = context::make_ty(env.db, env.resolver(), s, type_ref) {
            lemma_written_args_count(env, s, args.skip(1), (count - 1) as nat);
        }
    }
}

/// What is known after a call: a method of a trait has to be implemented for the
/// types that it is called with.
pub open spec fn with_call_obligation<D: HirDatabase>(
    env: Env<D>,
    s: Model,
    callable: TyModel,
) -> Result<Model, InferError> {
    match callable {
        TyModel::Apply {
            ctor: TypeCtor::FnDef(CallableDef::Function(func)),
            params,
        } => match env.db.parent_trait_of(func) {
            Some(trait_) => match db::counted(env.db.trait_generics_of(trait_).total()) {
                Ok(n) => {
                    let substs = if n <= params.len() {
                        params.take(n as int)
                    } else {
                        params
                    };
                    Ok(
                        Model {
                            obligations: s.obligations.push(TraitRefModel { trait_, substs }),
                            ..s
                        },
                    )
                },
                Err(e) => Err(e),
            },
            None => Ok(s),
        },
        _ => Ok(s),
    }
}

/// The types of the receiver, of the other parameters and of the result of a method.
pub open spec fn method_parts(sig: Option<FnSigModel>) -> (TyModel, Seq<TyModel>, TyModel) {
    match sig {
        Some(sig) => if sig.params.len() > 0 {
            (sig.params[0], sig.params.skip(1), sig.ret)
        } else {
            (TyModel::Unknown, Seq::empty(), sig.ret)
        },
        None => (TyModel::Unknown, Seq::empty(), TyModel::Unknown),
    }
}

/// The type of the receiver with a reference in front, if one is expected.
pub open spec fn auto_referenced(expected: TyModel, receiver: TyModel) -> Result<
    TyModel,
    InferError,
> {
    match ty::reference(expected) {
        Err(e) => Err(e),
        Ok(Some((_, m))) => Ok(ty::apply_one(TypeCtor::Ref(m), receiver)),
        Ok(None) => Ok(receiver),
    }
}

/// The types of the arguments and of the result of a call of a method, found on some
/// type, that has been given types for its parameters.
pub open spec fn chosen_method<D: HirDatabase>(
    env: Env<D>,
    s: Model,
    method_ty: TyModel,
    receiver: TyModel,
) -> Run<(Seq<TyModel>, TyModel)> {
    match with_call_obligation(env, s, method_ty) {
        Err(e) => Err(e),
        Ok(s) => {
            let (expected, params, ret) = method_parts(env.db.signature_of_callable(method_ty));
            match auto_referenced(expected, receiver) {
                Err(e) => Err(e),
                Ok(actual) => match context::unify_in(s, expected, actual) {
                    Err(e) => Err(e),
                    Ok((s, _)) => Ok((s, (params, ret))),
                },
            }
        },
    }
}

/// The types of the arguments and of the result of a call of the method of that name.
#[verifier::opaque]
pub open spec fn method_callee<D: HirDatabase>(
    env: Env<D>,
    s: Model,
    expr: ExprId,
    receiver: TyModel,
    name: Seq<char>,
    args: Option<GenericArgs>,
) -> Run<(Seq<TyModel>, TyModel)> {
    let (s, receiver, method_ty, generics) = match env.db.method_named(
        receiver,
        name,
        env.resolver(),
    ) {
        Some((ty, func)) => (
            Model {
                method_resolutions: s.method_resolutions.insert(ExprOrPatId::ExprId(expr), func),
                ..s
            },
            ty,
            env.db.type_of_def(TypableDef::Function(func), Namespace::Values),
            Some(env.db.fn_generics_of(func)),
        ),
        None => (s, receiver, TyModel::Unknown, None),
    };
    match method_substs(env, s, generics, args, receiver) {
        Err(e) => Err(e),
        Ok((s, substs)) => match context::insert_in(s, ty::with_params(method_ty, substs)) {
            Err(e) => Err(e),
            Ok((s, method_ty)) => chosen_method(env, s, method_ty, receiver),
        },
    }
}

/// Whether a call that gives the types of arguments and of a result had the outcome.
pub open spec fn found_callee(
    r: Result<(Vec<Ty>, Ty), InferError>,
    after: Model,
    m: Run<(Seq<TyModel>, TyModel)>,
) -> bool {
    match m {
        Ok((s, (params, ret))) => {
            &&& r is Ok
            &&& ty::models(r->Ok_0.0@) == params
            &&& r->Ok_0.1@ == ret
            &&& after == s
        },
        Err(e) => r == Err::<(Vec<Ty>, Ty), InferError>(e),
    }
}

fn split_sig(sig: Option<FnSig>) -> (r: (Ty, Vec<Ty>, Ty))
    ensures
        (r.0@, ty::models(r.1@), r.2@) == method_parts(
            match sig {
                Some(sig) => Some(sig@),
                None => None,
            },
        ),
{
    match sig {
        Some(sig) => {
            let mut params = sig.params;
            if params.len() > 0 {
                let ghost all = params@;
                let receiver = params.remove(0);
                assert(ty::models(params@) =~= ty::models(all).skip(1));
                (receiver, params, sig.ret)
            } else {
                assert(ty::models(params@) =~= Seq::empty());
                (Ty::Unknown, params, sig.ret)
            }
        },
        None => {
            let params: Vec<Ty> = Vec::new();
            assert(ty::models(params@) =~= Seq::empty());
            (Ty::Unknown, params, Ty::Unknown)
        },
    }
}

fn push_parent_substs(substs: &mut Vec<Ty>, params: &Vec<Name>, receiver_ty: &Ty)
    ensures
        ty::models(final(substs)@) == ty::models(old(substs)@) + parent_substs(
            params@,
            receiver_ty@,
        ),
{
    let ghost before = substs@;
    let mut i: usize = 0;
    while i < params.len()
        invariant
            i <= params.len(),
            substs@.len() == before.len() + i,
            before == old(substs)@,
            forall|j: int| 0 <= j < before.len() ==> substs@[j] == before[j],
            forall|j: int|
                0 <= j < i ==> (#[trigger] substs@[before.len() + j])@ == parent_substs(
                    params@,
                    receiver_ty@,
                )[j],
        decreases params.len() - i,
    {
        if params[i].is_self_type() {
            substs.push(receiver_ty.clone());
        } else {
            substs.push(Ty::Unknown);
        }
        i += 1;
    }
    proof {
        let whole = ty::models(before) + parent_substs(params@, receiver_ty@);
        assert(ty::models(substs@).len() == whole.len());
        assert forall|k: int| 0 <= k < whole.len() implies ty::models(substs@)[k] == whole[k] by {
            if k >= before.len() {
                let j = k - before.len();
                assert(substs@[before.len() + j]@ == parent_substs(params@, receiver_ty@)[j]);
            }
        }
        assert(ty::models(substs@) =~= whole);
    }
}

fn push_unknown(substs: &mut Vec<Ty>, n: usize)
    requires
        old(substs)@.len() <= n,
    ensures
        ty::models(final(substs)@) == filled_up(ty::models(old(substs)@), n as nat),
{
    let ghost before = substs@;
    while substs.len() < n
        invariant
            before.len() <= substs@.len() <= n,
            before == old(substs)@,
            forall|j: int| 0 <= j < before.len() ==> substs@[j] == before[j],
            forall|j: int|
                before.len() <= j < substs@.len() ==> (#[trigger] substs@[j])@ == TyModel::Unknown,
        decreases n - substs.len(),
    {
        substs.push(Ty::Unknown);
    }
    assert(ty::models(substs@) =~= filled_up(ty::models(before), n as nat));
}

impl<'a, D: HirDatabase> InferenceContext<'a, D> {
    fn push_written_args(
        &mut self,
        substs: &mut Vec<Ty>,
        args: &Vec<GenericArg>,
        count: usize,
    ) -> (r: Result<(), InferError>)
        ensures
            final(self).env == old(self).env,
            match written_args(old(self).env, old(self)@, args@, count as nat) {
                Ok((s, tys)) => {
                    &&& r is Ok
                    &&& final(self)@ == s
                    &&& ty::models(final(substs)@) == ty::models(old(substs)@) + tys
                },
                Err(e) => r == Err::<(), InferError>(e),
            },
    {
        let ghost total = context::after_front(
            ty::models(substs@),
            written_args(self.env, self@, args@, count as nat),
        );
        let mut i: usize = 0;
        assert(args@.skip(0) =~= args@);
        while i < args.len() && i < count
            invariant
                i <= args.len(),
                i <= count,
                self.env == old(self).env,
                total == context::after_front(
                    ty::models(old(substs)@),
                    written_args(old(self).env, old(self)@, args@, count as nat),
                ),
                total == context::after_front(
                    ty::models(substs@),
                    written_args(self.env, self@, args@.skip(i as int), (count - i) as nat),
                ),
            decreases args.len() - i,
        {
            assert(args@.skip(i as int)[0] == args@[i as int]);
            assert(args@.skip(i as int).skip(1) =~= args@.skip(i + 1));
            let ghost before = ty::models(substs@);
            match args[i] {
                GenericArg::Type(type_ref) => {
                    let t = self.make_ty(type_ref)?;
                    substs.push(t);
                    proof {
                        assert(ty::models(substs@) =~= before.push(t@));
                        if let Ok((_, ts)) = written_args(
                            self.env,
                            self@,
                            args@.skip(i + 1),
                            (count - (i + 1)) as nat,
                        ) {
                            assert(before + (seq![t@] + ts) =~= before.push(t@) + ts);
                        }
                    }
                },
            }
            i += 1;
        }
        assert(ty::models(substs@) + Seq::<TyModel>::empty() =~= ty::models(substs@));
        Ok(())
    }

    /// The types that a method call gives for the parameters of the method and of the
    /// definition around it: as many as there are parameters.
    pub fn substs_for_method_call(
        &mut self,
        def_generics: Option<&GenericParams>,
        generic_args: &Option<GenericArgs>,
        receiver_ty: &Ty,
    ) -> (r: Result<Substs, InferError>)
        ensures
            final(self).env == old(self).env,
            match method_substs(
                old(self).env,
                old(self)@,
                generics_of(def_generics),
                *generic_args,
                receiver_ty@,
            ) {
                Ok((s, substs)) => r is Ok && r->Ok_0@ == substs && final(self)@ == s,
                Err(e) => r == Err::<Substs, InferError>(e),
            },
            r is Ok ==> r->Ok_0@.len() == param_count(generics_of(def_generics)),
    {
        let (parent_param_count, param_count): (usize, usize) = match def_generics {
            Some(g) => (g.count_parent_params()?, g.params.len()),
            None => (0, 0),
        };
        let total = match parent_param_count.checked_add(param_count) {
            Some(total) => total,
            None => {
                return Err(InferError::TooManyParameters);
            },
        };
        let mut substs: Vec<Ty> = Vec::new();
        // Parent arguments are unknown, except for the receiver type
        assert(ty::models(substs@) =~= Seq::<TyModel>::empty());
        if let Some(generics) = def_generics {
            if let Some(parent_generics) = &generics.parent_params {
                push_parent_substs(&mut substs, &parent_generics.params, receiver_ty);
            }
        }
        let ghost outer = ty::models(substs@);
        proof {
            assert(outer =~= outer_substs(generics_of(def_generics), receiver_ty@));
            lemma_written_args_count(
                self.env,
                self@,
                arg_seq(*generic_args),
                param_count as nat,
            );
        }
        // handle provided type arguments
        if let Some(generic_args) = generic_args {
            // if args are provided, it should be all of them, but we can't rely on that
            self.push_written_args(&mut substs, &generic_args.args, param_count)?;
        } else {
            assert(outer + Seq::<TyModel>::empty() =~= outer);
        }
        push_unknown(&mut substs, total);
        Ok(Substs(substs))
    }

    /// Registers what has to hold for a call of a method of a trait.
    pub fn register_obligations_for_call(&mut self, callable_ty: &Ty) -> (r: Result<(), InferError>)
        ensures
            final(self).env == old(self).env,
            context::became(
                r,
                final(self)@,
                with_call_obligation(old(self).env, old(self)@, callable_ty@),
            ),
    {
        match callable_ty {
            Ty::Apply(a_ty) => {
                proof {
                    ty::lemma_apply_model(*a_ty);
                }
                match a_ty.ctor {
                    TypeCtor::FnDef(CallableDef::Function(f)) => {
                        if let Some(trait_) = self.env.db.parent_trait(f) {
                            // construct a TraitDef
                            let n = self.env.db.trait_generic_params(
                                trait_,
                            ).count_params_including_parent()?;
                            let substs = a_ty.parameters.prefix(n);
                            let obligation = Obligation::Trait(TraitRef { trait_, substs });
                            self.obligations.push(obligation);
                            assert(self@.obligations =~= old(self)@.obligations.push(
                                obligation@,
                            ));
                        }
                    },
                    _ => {},
                }
            },
            _ => {},
        }
        Ok(())
    }

    fn chosen_method(&mut self, method_ty: &Ty, receiver_ty: Ty) -> (r: Result<
        (Vec<Ty>, Ty),
        InferError,
    >)
        ensures
            final(self).env == old(self).env,
            found_callee(
                r,
                final(self)@,
                chosen_method(old(self).env, old(self)@, method_ty@, receiver_ty@),
            ),
    {
        self.register_obligations_for_call(method_ty)?;
        let sig = self.env.db.callable_sig(method_ty);
        let (expected_receiver_ty, param_tys, ret_ty) = split_sig(sig);
        // Apply autoref so the below unification works correctly
        let actual_receiver_ty = match expected_receiver_ty.as_reference()? {
            Some((_, mutability)) => Ty::apply_one(TypeCtor::Ref(mutability), receiver_ty),
            None => receiver_ty,
        };
        self.unify(&expected_receiver_ty, &actual_receiver_ty)?;
        Ok((param_tys, ret_ty))
    }

    /// Finds the method of a call, records it, and gives the types of the arguments
    /// and of the result.
    pub fn method_callee(
        &mut self,
        tgt_expr: ExprId,
        receiver_ty: Ty,
        method_name: &Name,
        generic_args: &Option<GenericArgs>,
    ) -> (r: Result<(Vec<Ty>, Ty), InferError>)
        ensures
            final(self).env == old(self).env,
            found_callee(
                r,
                final(self)@,
                method_callee(
                    old(self).env,
                    old(self)@,
                    tgt_expr,
                    receiver_ty@,
                    method_name@,
                    *generic_args,
                ),
            ),
    {
        reveal(method_callee);
        let resolver = Resolver::Def(self.env.owner);
        let db = self.env.db;
        let (derefed_receiver_ty, method_ty, def_generics) = match db.lookup_method(
            &receiver_ty,
            method_name,
            resolver,
        ) {
            Some((ty, func)) => {
                self.write_method_resolution(tgt_expr, func);
                let method_ty = db.type_for_def(TypableDef::Function(func), Namespace::Values);
                (ty, method_ty, Some(db.fn_generic_params(func)))
            },
            None => (receiver_ty, Ty::Unknown, None),
        };
        let substs = self.substs_for_method_call(def_generics, generic_args, &derefed_receiver_ty)?;
        let method_ty = method_ty.apply_substs(substs);
        let method_ty = self.insert_type_vars(&method_ty)?;
        self.chosen_method(&method_ty, derefed_receiver_ty)
    }
}

} // verus!
