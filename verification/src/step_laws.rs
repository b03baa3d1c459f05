//! What holds of single steps of inference, whatever is known before them.

use vstd::prelude::*;

use crate::body::{Array, Expr, GenericArgs, Pat, Path, Statement};
use crate::context::{Env, Model, Run};
use crate::db::{
    FnSigModel, GenericParams, GuidanceModel, HirDatabase, SolutionModel, TraitRefModel,
};
use crate::defs::{
    AdtDef, CallableDef, Crate, ExprId, ExprOrPatId, Function, ImplItem, ModuleDef, PatId,
    Resolution, Resolver, Trait, VariantDef,
};
use crate::diagnostics::InferenceDiagnostic;
use crate::error::InferError;
use crate::kinds::Kind;
use crate::solution::Assignment;
use crate::table::VarModel;
use crate::ty::{InferTy, TyModel, TypeCtor, TypeVarId};
use crate::{
    body, call, context, db, defs, diagnostics, expr, kinds, leaf_typing, meaning, path, records,
    result, rules, settled, solution, ty, typing, unify, upkeep,
};

verus! {

/// A call of a method makes what the method takes equal to the type that it was found on,
/// behind the reference if it takes one. Nothing else is learned from the choice of the
/// method; the other parameters and the result are those of its signature.
pub proof fn the_receiver_is_what_the_method_takes<D: HirDatabase>(
    env: Env<D>,
    s: Model,
    method_ty: TyModel,
    receiver: TyModel,
    sig: FnSigModel,
    after: Model,
    params: Seq<TyModel>,
    ret: TyModel,
)
    requires
        solution::partitioned(s.vars),
        env.db.signature_of_callable(method_ty) == Some(sig),
        sig.params.len() > 0,
        call::chosen_method(env, s, method_ty, receiver) == Ok::<
            (Model, (Seq<TyModel>, TyModel)),
            InferError,
        >((after, (params, ret))),
    ensures
        solution::partitioned(after.vars),
        meaning::narrows(s.vars, after.vars),
        match sig.params[0] {
            TyModel::Apply { ctor: TypeCtor::Ref(_), params: behind } => {
                &&& behind.len() == 1
                &&& meaning::learned(after.vars, behind[0], receiver)
                &&& meaning::only_learned(s.vars, after.vars, behind[0], receiver)
            },
            taken => {
                &&& meaning::learned(after.vars, taken, receiver)
                &&& meaning::only_learned(s.vars, after.vars, taken, receiver)
            },
        },
        seq![sig.params[0]] + params == sig.params,
        ret == sig.ret,
        after == (Model { vars: after.vars, obligations: after.obligations, ..s }),
        asks_for_its_trait(env.db, s, method_ty, after),
{
    let expected = sig.params[0];
    assert(seq![expected] + sig.params.skip(1) =~= sig.params);
    if let Ok(s1) = call::with_call_obligation(env, s, method_ty) {
        a_trait_method_asks_for_its_trait(env, s, method_ty, s1);
        if let Ok(actual) = call::auto_referenced(expected, receiver) {
            if let Ok((s2, ok)) = context::unify_in(s1, expected, actual) {
                meaning::lemma_unified(s.vars, expected, actual, s2.vars, ok);
                if let TyModel::Apply { ctor: TypeCtor::Ref(m), params: behind } = expected {
                    assert(behind =~= seq![behind[0]]);
                    meaning::lemma_one_param(
                        s.vars,
                        s2.vars,
                        TypeCtor::Ref(m),
                        behind[0],
                        receiver,
                    );
                }
            }
        }
    }
}

/// The trait that what is called is a method of.
pub open spec fn method_of_trait<D: HirDatabase>(db: &D, callable: TyModel) -> Option<Trait> {
    match callable {
        TyModel::Apply {
            ctor: TypeCtor::FnDef(CallableDef::Function(func)),
            ..
        } => db.parent_trait_of(func),
        _ => None,
    }
}

/// Whether a goal is that the trait that a method is of is implemented for the first types
/// that the method was given, as many as the trait has parameters.
pub open spec fn is_goal_of<D: HirDatabase>(
    db: &D,
    callable: TyModel,
    goal: TraitRefModel,
) -> bool {
    method_of_trait(db, callable) matches Some(trait_) && {
        let total = db.trait_generics_of(trait_).total();
        let given = callable->params;
        &&& goal.trait_ == trait_
        &&& goal.substs.is_prefix_of(given)
        &&& goal.substs.len() == if total < given.len() {
            total
        } else {
            given.len()
        }
    }
}

/// Whether a call has asked that the trait that the method is of is implemented, or has asked
/// nothing if it is of no method of a trait.
pub open spec fn asks_for_its_trait<D: HirDatabase>(
    db: &D,
    s: Model,
    callable: TyModel,
    after: Model,
) -> bool {
    if method_of_trait(db, callable) is Some {
        &&& after.obligations == s.obligations.push(after.obligations.last())
        &&& is_goal_of(db, callable, after.obligations.last())
    } else {
        after.obligations == s.obligations
    }
}

/// A call of a method of a trait asks that the trait is implemented for the first types
/// that the method was given; another call asks nothing.
pub proof fn a_trait_method_asks_for_its_trait<D: HirDatabase>(
    env: Env<D>,
    s: Model,
    callable: TyModel,
    after: Model,
)
    requires
        call::with_call_obligation(env, s, callable) == Ok::<Model, InferError>(after),
    ensures
        after == (Model { obligations: after.obligations, ..s }),
        asks_for_its_trait(env.db, s, callable, after),
{
}

/// A method call is recorded as one of the method that the name is looked up to be, and
/// nothing else is recorded. The method is given the types that it should be given, and asks
/// what it should ask.
pub proof fn a_method_call_resolves_to_the_method_of_the_name<D: HirDatabase>(
    env: Env<D>,
    s: Model,
    ks: Seq<Kind>,
    e: ExprId,
    receiver: TyModel,
    name: Seq<char>,
    args: Option<GenericArgs>,
    after: Model,
    params: Seq<TyModel>,
    ret: TyModel,
) -> (method_ty: TyModel)
    requires
        upkeep::faithful(env.db),
        upkeep::sound(s, ks),
        kinds::well_kinded(receiver, ks),
        call::method_callee(env, s, e, receiver, name, args) == Ok::<
            (Model, (Seq<TyModel>, TyModel)),
            InferError,
        >((after, (params, ret))),
    ensures
        after.method_resolutions == match env.db.method_named(
            receiver,
            name,
            Resolver::Def(env.owner),
        ) {
            Some((_, func)) => s.method_resolutions.insert(ExprOrPatId::ExprId(e), func),
            None => s.method_resolutions,
        },
        after == (Model {
            vars: after.vars,
            obligations: after.obligations,
            method_resolutions: after.method_resolutions,
            ..s
        }),
        typing::method_ty_ok(
            env,
            env.db.method_named(receiver, name, Resolver::Def(env.owner)),
            args,
            method_ty,
        ),
        asks_for_its_trait(env.db, s, method_ty, after),
{
    let (method_ty, _) = leaf_typing::lemma_method_callee(env, s, ks, e, receiver, name, args);
    method_ty
}

/// The segments of a path that are looked up as associated items are recorded as the last
/// item that they lead to; a path without such segments is recorded as none.
pub proof fn a_path_resolves_to_the_last_item<D: HirDatabase>(
    env: Env<D>,
    s: Model,
    krate: Option<Crate>,
    path: Path,
    id: ExprOrPatId,
    start: nat,
    i: nat,
    at: (Resolution, Option<TyModel>),
    after: Model,
    to: (Resolution, Option<TyModel>),
)
    requires
        path::walk(env, s, krate, path, id, start, i, at) == Ok::<
            (Model, path::Walked),
            InferError,
        >((after, Some(to))),
    ensures
        after == (Model { assoc_resolutions: after.assoc_resolutions, ..s }),
        i >= path.segments@.len() ==> after.assoc_resolutions == s.assoc_resolutions,
        i < path.segments@.len() ==> {
            &&& after.assoc_resolutions.contains_key(id)
            &&& after.assoc_resolutions == s.assoc_resolutions.insert(
                id,
                after.assoc_resolutions[id],
            )
            &&& to.0 == Resolution::Def(
                match after.assoc_resolutions[id] {
                    ImplItem::Method(func) => ModuleDef::Function(func),
                    ImplItem::Const(konst) => ModuleDef::Const(konst),
                    ImplItem::TypeAlias(alias) => ModuleDef::TypeAlias(alias),
                },
            )
        },
    decreases path.segments@.len() - i,
{
    if i < path.segments@.len() {
        if let Resolution::Def(def) = at.0 {
            if let (Some(typable), Some(the_crate)) = (defs::typable_def(def), krate) {
                let base = path::segment_base(env, path, i, typable);
                let items = env.db.items_of_type(base, the_crate);
                let name = path.segments@[i as int].name@;
                if let Some(item) = path::matching_item(env.db, items, name) {
                    let s1 = Model {
                        assoc_resolutions: s.assoc_resolutions.insert(id, item),
                        ..s
                    };
                    let next = (Resolution::Def(path::item_def(item)), Some(base));
                    a_path_resolves_to_the_last_item(
                        env,
                        s1,
                        krate,
                        path,
                        id,
                        start,
                        i + 1,
                        next,
                        after,
                        to,
                    );
                    assert(after.assoc_resolutions =~= s.assoc_resolutions.insert(
                        id,
                        after.assoc_resolutions[id],
                    ));
                }
            }
        }
    }
}

/// Once an associated item is found for a segment of a path, the path is recorded as one to
/// an item, even if the rest of it leads nowhere.
pub proof fn a_path_is_recorded_once_an_item_is_found<D: HirDatabase>(
    env: Env<D>,
    s: Model,
    krate: Option<Crate>,
    path: Path,
    id: ExprOrPatId,
    start: nat,
    i: nat,
    at: (Resolution, Option<TyModel>),
    after: Model,
    found: path::Walked,
)
    requires
        start <= i,
        path::walk(env, s, krate, path, id, start, i, at) == Ok::<
            (Model, path::Walked),
            InferError,
        >((after, found)),
    ensures
        after == (Model { assoc_resolutions: after.assoc_resolutions, ..s }),
        s.assoc_resolutions.contains_key(id) ==> after.assoc_resolutions.contains_key(id),
        forall|other: ExprOrPatId|
            other != id ==> #[trigger] after.assoc_resolutions.contains_key(other)
                == s.assoc_resolutions.contains_key(other) && (
            after.assoc_resolutions.contains_key(other) ==> after.assoc_resolutions[other]
                == s.assoc_resolutions[other]),
        forall|base: TyModel, item: ImplItem|
            at.0 is Def && #[trigger] typing::segment_ok(
                env,
                krate,
                path,
                i as int,
                at.0->Def_0,
                base,
                item,
            ) ==> after.assoc_resolutions.contains_key(id),
        (forall|base: TyModel, item: ImplItem|
            !(at.0 is Def && #[trigger] typing::segment_ok(
                env,
                krate,
                path,
                i as int,
                at.0->Def_0,
                base,
                item,
            ))) ==> after.assoc_resolutions == s.assoc_resolutions,
    decreases path.segments@.len() - i,
{
    if i < path.segments@.len() {
        if let Resolution::Def(def) = at.0 {
            if let (Some(typable), Some(the_crate)) = (defs::typable_def(def), krate) {
                let base = path::segment_base(env, path, i, typable);
                let items = env.db.items_of_type(base, the_crate);
                let name = path.segments@[i as int].name@;
                leaf_typing::lemma_first_item(env.db, items, name);
                match path::matching_item(env.db, items, name) {
                    Some(item) => {
                        let s1 = Model {
                            assoc_resolutions: s.assoc_resolutions.insert(id, item),
                            ..s
                        };
                        let next = (Resolution::Def(path::item_def(item)), Some(base));
                        a_path_is_recorded_once_an_item_is_found(
                            env,
                            s1,
                            krate,
                            path,
                            id,
                            start,
                            i + 1,
                            next,
                            after,
                            found,
                        );
                        assert(typing::segment_ok(env, krate, path, i as int, def, base, item));
                    },
                    None => {
                        assert forall|b: TyModel, it: ImplItem|
                            !#[trigger] typing::segment_ok(
                                env,
                                krate,
                                path,
                                i as int,
                                def,
                                b,
                                it,
                            ) by {}
                    },
                }
            }
        }
    }
}

/// An access of a field of a struct is recorded as one of the field that has the name in
/// the first type with such a field; of another field access nothing is recorded.
pub proof fn a_field_access_resolves_to_the_first_field<D: HirDatabase>(
    env: Env<D>,
    s: Model,
    e: ExprId,
    receiver: TyModel,
    name: Seq<char>,
    after: Model,
    t: TyModel,
)
    requires
        rules::field_access(env, s, e, receiver, name) == Ok::<(Model, TyModel), InferError>(
            (after, t),
        ),
    ensures
        after == (Model {
            vars: after.vars,
            field_resolutions: after.field_resolutions,
            ..s
        }),
        typing::field_ok(env.db, receiver, name, t),
        forall|i: int, field_ty: TyModel|
            0 <= i < env.db.derefs(receiver).len() && #[trigger] typing::has_field(
                env.db,
                env.db.derefs(receiver)[i],
                name,
                field_ty,
            ) && (forall|j: int, other: TyModel|
                0 <= j < i ==> !#[trigger] typing::has_field(
                    env.db,
                    env.db.derefs(receiver)[j],
                    name,
                    other,
                )) ==> after.field_resolutions == match env.db.derefs(receiver)[i] {
                TyModel::Apply { ctor: TypeCtor::Adt(AdtDef::Struct(strukt)), .. } => {
                    s.field_resolutions.insert(
                        ExprOrPatId::ExprId(e),
                        env.db.field_named(VariantDef::Struct(strukt), name)->Some_0,
                    )
                },
                _ => s.field_resolutions,
            },
        (forall|i: int, field_ty: TyModel|
            0 <= i < env.db.derefs(receiver).len() ==> !#[trigger] typing::has_field(
                env.db,
                env.db.derefs(receiver)[i],
                name,
                field_ty,
            )) ==> after.field_resolutions == s.field_resolutions,
{
    leaf_typing::lemma_field_access(env, s, e, receiver, name);
    reveal(rules::field_access);
    lemma_first_field_at(env.db, env.db.derefs(receiver), name);
}

/// The field that is found is that of the first type that has one.
proof fn lemma_first_field_at<D: HirDatabase>(db: &D, tys: Seq<TyModel>, name: Seq<char>)
    ensures
        forall|i: int, field_ty: TyModel|
            0 <= i < tys.len() && #[trigger] typing::has_field(db, tys[i], name, field_ty) && (
            forall|j: int, other: TyModel|
                0 <= j < i ==> !#[trigger] typing::has_field(db, tys[j], name, other))
                ==> rules::first_field(db, tys, name) == rules::own_field(db, tys[i], name),
        (forall|i: int, field_ty: TyModel|
            0 <= i < tys.len() ==> !#[trigger] typing::has_field(db, tys[i], name, field_ty))
            ==> rules::first_field(db, tys, name) is None,
    decreases tys.len(),
{
    if tys.len() > 0 {
        let rest = tys.skip(1);
        lemma_first_field_at(db, rest, name);
        leaf_typing::lemma_own_field(db, tys[0], name);
        if rules::own_field(db, tys[0], name) is None {
            assert forall|i: int, field_ty: TyModel|
                0 <= i < tys.len() && #[trigger] typing::has_field(db, tys[i], name, field_ty) && (
                forall|j: int, other: TyModel|
                    0 <= j < i ==> !#[trigger] typing::has_field(
                        db,
                        tys[j],
                        name,
                        other,
                    )) implies rules::first_field(db, tys, name) == rules::own_field(
                db,
                tys[i],
                name,
            ) by {
                if i > 0 {
                    assert(typing::has_field(db, rest[i - 1], name, field_ty));
                    assert forall|j: int, other: TyModel| 0 <= j < i - 1 implies !#[trigger]
                        typing::has_field(db, rest[j], name, other) by {
                        assert(!typing::has_field(db, tys[j + 1], name, other));
                    }
                }
            }
            if forall|i: int, field_ty: TyModel|
                0 <= i < tys.len() ==> !#[trigger] typing::has_field(db, tys[i], name, field_ty) {
                assert forall|i: int, field_ty: TyModel| 0 <= i < rest.len() implies !#[trigger]
                    typing::has_field(db, rest[i], name, field_ty) by {
                    assert(!typing::has_field(db, tys[i + 1], name, field_ty));
                }
            }
        } else {
            let found = rules::own_field(db, tys[0], name)->Some_0;
            assert(typing::has_field(db, tys[0], name, found.0));
        }
    }
}

/// Types for the parameters of an `impl` block are found for a function in a block with
/// parameters, where both the target of the block and the type at hand have a constructor;
/// for nothing else.
pub proof fn self_types_are_found_in_impl_blocks_with_parameters<D: HirDatabase>(
    db: &D,
    def: ModuleDef,
    actual: Option<TyModel>,
)
    ensures
        path::self_types(db, def, actual) matches Ok(found) ==> (found is Some <==> (
        def matches ModuleDef::Function(func) && db.fn_generics_of(func).parent_total() > 0 && (
        db.impl_target_of(func) matches Some(target) && target is Apply) && (
        actual matches Some(t) && t is Apply))),
{
}

/// Whether a type argument is a type parameter of that number.
pub open spec fn is_param(t: TyModel, idx: int) -> bool {
    t matches TyModel::Param { idx: n, .. } && n as int == idx
}

/// Whether the last of the paired type arguments that is a type parameter of that number is
/// the `i`th.
pub open spec fn last_param(params: Seq<TyModel>, args: Seq<TyModel>, idx: int, i: int) -> bool {
    &&& 0 <= i < params.len()
    &&& i < args.len()
    &&& is_param(params[i], idx)
    &&& forall|j: int|
        i < j < params.len() && j < args.len() ==> !is_param(#[trigger] params[j], idx)
}

proof fn lemma_linked(linked: Seq<TyModel>, params: Seq<TyModel>, args: Seq<TyModel>)
    ensures
        path::link_params(linked, params, args).len() == linked.len(),
    decreases params.len(),
{
    if params.len() > 0 && args.len() > 0 {
        let next = match params[0] {
            TyModel::Param { idx, .. } => if (idx as int) < linked.len() {
                linked.update(idx as int, args[0])
            } else {
                linked
            },
            _ => linked,
        };
        lemma_linked(next, params.skip(1), args.skip(1));
    }
}

proof fn lemma_not_linked(
    linked: Seq<TyModel>,
    params: Seq<TyModel>,
    args: Seq<TyModel>,
    idx: int,
)
    requires
        0 <= idx < linked.len(),
        forall|j: int|
            0 <= j < params.len() && j < args.len() ==> !is_param(#[trigger] params[j], idx),
    ensures
        path::link_params(linked, params, args)[idx] == linked[idx],
    decreases params.len(),
{
    if params.len() > 0 && args.len() > 0 {
        let next = match params[0] {
            TyModel::Param { idx, .. } => if (idx as int) < linked.len() {
                linked.update(idx as int, args[0])
            } else {
                linked
            },
            _ => linked,
        };
        assert(!is_param(params[0], idx));
        assert forall|j: int|
            0 <= j < params.skip(1).len() && j < args.skip(1).len() implies !is_param(
            #[trigger] params.skip(1)[j],
            idx,
        ) by {
            assert(params.skip(1)[j] == params[j + 1]);
        }
        lemma_not_linked(next, params.skip(1), args.skip(1), idx);
    }
}

proof fn lemma_last_linked(
    linked: Seq<TyModel>,
    params: Seq<TyModel>,
    args: Seq<TyModel>,
    idx: int,
    i: int,
)
    requires
        0 <= idx < linked.len(),
        last_param(params, args, idx, i),
    ensures
        path::link_params(linked, params, args)[idx] == args[i],
    decreases params.len(),
{
    let next = match params[0] {
        TyModel::Param { idx, .. } => if (idx as int) < linked.len() {
            linked.update(idx as int, args[0])
        } else {
            linked
        },
        _ => linked,
    };
    assert forall|j: int|
        i - 1 < j < params.skip(1).len() && j < args.skip(1).len() implies !is_param(
        #[trigger] params.skip(1)[j],
        idx,
    ) by {
        assert(params.skip(1)[j] == params[j + 1]);
    }
    if i == 0 {
        lemma_not_linked(next, params.skip(1), args.skip(1), idx);
    } else {
        assert(params.skip(1)[i - 1] == params[i]);
        lemma_last_linked(next, params.skip(1), args.skip(1), idx, i - 1);
    }
}

/// The types found for the parameters of an `impl` block are those that stand, in the type
/// at hand, where the target of the block has the parameters: of a parameter that the target
/// has more than once, where it has it last. Of one that it does not have, nothing is known.
pub proof fn self_types_stand_where_the_target_has_the_parameters<D: HirDatabase>(
    db: &D,
    func: Function,
    target: TyModel,
    actual: TyModel,
    found: Seq<TyModel>,
)
    requires
        db.impl_target_of(func) == Some(target),
        path::self_types(db, ModuleDef::Function(func), Some(actual)) == Ok::<
            Option<Seq<TyModel>>,
            InferError,
        >(Some(found)),
    ensures
        target is Apply && actual is Apply,
        found.len() == db.fn_generics_of(func).parent_total(),
        forall|idx: int, i: int|
            0 <= idx < found.len() && #[trigger] last_param(
                target->params,
                actual->params,
                idx,
                i,
            ) ==> found[idx] == actual->params[i],
        forall|idx: int|
            0 <= idx < found.len() && (forall|i: int|
                !last_param(target->params, actual->params, idx, i)) ==> #[trigger] found[idx]
                == TyModel::Unknown,
{
    let unknown = Seq::new(found.len(), |i: int| TyModel::Unknown);
    let params = target->params;
    let args = actual->params;
    let total = db.fn_generics_of(func).parent_total();
    lemma_linked(Seq::new(total, |i: int| TyModel::Unknown), params, args);
    assert(found == path::link_params(unknown, params, args));
    assert forall|idx: int, i: int|
        0 <= idx < found.len() && #[trigger] last_param(params, args, idx, i) implies found[idx]
        == args[i] by {
        lemma_last_linked(unknown, params, args, idx, i);
    }
    assert forall|idx: int|
        0 <= idx < found.len() && (forall|i: int|
            !last_param(params, args, idx, i)) implies #[trigger] found[idx]
        == TyModel::Unknown by {
        let paired = if params.len() < args.len() {
            params.len() as int
        } else {
            args.len() as int
        };
        lemma_no_last(params, args, idx, paired);
        lemma_not_linked(unknown, params, args, idx);
    }
}

/// Where no argument is the last that is some parameter, none is that parameter.
proof fn lemma_no_last(params: Seq<TyModel>, args: Seq<TyModel>, idx: int, k: int)
    requires
        forall|i: int| !last_param(params, args, idx, i),
        0 <= k <= params.len(),
        k <= args.len(),
        forall|j: int|
            k <= j < params.len() && j < args.len() ==> !is_param(#[trigger] params[j], idx),
    ensures
        forall|j: int|
            0 <= j < params.len() && j < args.len() ==> !is_param(#[trigger] params[j], idx),
    decreases k,
{
    if k > 0 {
        assert(!last_param(params, args, idx, k - 1));
        lemma_no_last(params, args, idx, k - 1);
    }
}

/// The target of an `impl` block whose type arguments are different type parameters has,
/// with the types found put in for its parameters, the type arguments of the type at hand.
pub proof fn self_types_make_the_target_the_type_at_hand<D: HirDatabase>(
    db: &D,
    func: Function,
    target: TyModel,
    actual: TyModel,
    found: Seq<TyModel>,
)
    requires
        db.impl_target_of(func) == Some(target),
        path::self_types(db, ModuleDef::Function(func), Some(actual)) == Ok::<
            Option<Seq<TyModel>>,
            InferError,
        >(Some(found)),
        target->params.len() == actual->params.len(),
        forall|i: int|
            0 <= i < target->params.len() ==> (#[trigger] target->params[i] matches TyModel::Param {
                idx,
                ..
            } && idx < found.len()),
        forall|i: int, j: int|
            0 <= i < j < target->params.len() ==> (#[trigger] target->params[i])->idx != (
            #[trigger] target->params[j])->idx,
    ensures
        ty::subst(target, found)->params == actual->params,
        target->ctor == actual->ctor ==> ty::subst(target, found) == actual,
{
    self_types_stand_where_the_target_has_the_parameters(db, func, target, actual, found);
    let put = ty::subst(target, found)->params;
    assert forall|i: int| 0 <= i < put.len() implies #[trigger] put[i] == actual->params[i] by {
        let idx = target->params[i]->idx as int;
        assert(last_param(target->params, actual->params, idx, i));
        assert(put[i] == ty::subst(target->params[i], found));
    }
    assert(put =~= actual->params);
}

/// The types that an answer gives for the variables of a goal, if it gives any.
pub open spec fn types_given(solution: Option<SolutionModel>) -> Option<Seq<TyModel>> {
    match solution {
        Some(SolutionModel::Unique(substs)) => Some(substs),
        Some(SolutionModel::Ambig(GuidanceModel::Definite(substs))) => Some(substs),
        _ => None,
    }
}

/// The answer to a goal is used for each variable of the goal: if what is known allows
/// each to be the type that the answer has for it, then each agrees with that type in every
/// solution. Nothing else is learned. The goal is done with unless it may hold in more than
/// one way.
pub proof fn an_answer_is_used_for_each_variable<D: HirDatabase>(
    db: &D,
    s: Model,
    goal: TraitRefModel,
    after: Model,
)
    requires
        solution::partitioned(s.vars),
        context::use_answer(db, s, goal) == Ok::<Model, InferError>(after),
    ensures
        solution::partitioned(after.vars),
        after == (Model { vars: after.vars, obligations: after.obligations, ..s }),
        meaning::narrows(s.vars, after.vars),
        match types_given(db.answer(goal).solution) {
            None => after.vars == s.vars,
            Some(substs) => {
                let mapping = db.answer(goal).var_mapping;
                &&& substs.len() <= mapping.len()
                &&& forall|k: int|
                    0 <= k < substs.len() ==> meaning::learned(
                        after.vars,
                        TyModel::Infer(InferTy::TypeVar(#[trigger] mapping[k])),
                        substs[k],
                    )
                &&& forall|f: Assignment| #[trigger]
                    solution::solves(f, s.vars) && meaning::answer_holds(f, mapping, substs)
                        ==> solution::solves(f, after.vars)
            },
        },
        after.obligations == match db.answer(goal).solution {
            Some(SolutionModel::Ambig(_)) => s.obligations.push(goal),
            _ => s.obligations,
        },
{
    let answer = db.answer(goal);
    meaning::lemma_narrows_same(s.vars);
    if let Some(substs) = types_given(answer.solution) {
        meaning::lemma_solution_applied(s.vars, answer.var_mapping, substs, 0);
    }
}

/// If some solution gives the variables of a goal the types that an answer has for them,
/// then, once the answer has been used, every solution does: the `k`th variable agrees with
/// the `k`th type.
pub proof fn an_answer_that_can_hold_holds<D: HirDatabase>(
    db: &D,
    s: Model,
    goal: TraitRefModel,
    after: Model,
    substs: Seq<TyModel>,
    g: Assignment,
    f: Assignment,
    k: int,
)
    requires
        solution::partitioned(s.vars),
        context::use_answer(db, s, goal) == Ok::<Model, InferError>(after),
        types_given(db.answer(goal).solution) == Some(substs),
        solution::solves(g, s.vars),
        meaning::answer_holds(g, db.answer(goal).var_mapping, substs),
        forall|j: int|
            0 <= j < substs.len() ==> solution::param_free(
                solution::apply(g, #[trigger] substs[j]),
            ),
        solution::solves(f, after.vars),
        0 <= k < substs.len(),
    ensures
        solution::solves(f, s.vars),
        solution::agree(
            f(db.answer(goal).var_mapping[k].0 as int),
            solution::apply(f, substs[k]),
        ),
{
    reveal(meaning::narrows);
    reveal(meaning::learned);
    an_answer_is_used_for_each_variable(db, s, goal, after);
    let mapping = db.answer(goal).var_mapping;
    let var = TyModel::Infer(InferTy::TypeVar(mapping[k]));
    assert(solution::apply(g, var) == g(mapping[k].0 as int));
    solution::lemma_images_param_free(g, var);
    solution::lemma_images_param_free(g, substs[k]);
    assert(meaning::unifies(g, after.vars, var, substs[k]));
    assert(meaning::learned(after.vars, var, substs[k]));
}

/// Every goal is looked at when the obligations are settled: what its answer has for its
/// variables has been learned. Those goals are left that may hold in more than one way, in
/// the order that they had.
pub proof fn every_answer_is_used<D: HirDatabase>(
    db: &D,
    s: Model,
    goals: Seq<TraitRefModel>,
    after: Model,
)
    requires
        solution::partitioned(s.vars),
        context::use_answers(db, s, goals) == Ok::<Model, InferError>(after),
    ensures
        after == (Model { vars: after.vars, obligations: after.obligations, ..s }),
        meaning::narrows(s.vars, after.vars),
        forall|i: int, k: int|
            #![trigger goals[i], db.answer(goals[i]).var_mapping[k]]
            0 <= i < goals.len() && (types_given(db.answer(goals[i]).solution) matches Some(substs)
                && 0 <= k < substs.len()) ==> meaning::learned(
                after.vars,
                TyModel::Infer(InferTy::TypeVar(db.answer(goals[i]).var_mapping[k])),
                types_given(db.answer(goals[i]).solution)->Some_0[k],
            ),
        after.obligations == s.obligations + goals.filter(
            |goal: TraitRefModel| db.answer(goal).solution matches Some(SolutionModel::Ambig(_)),
        ),
    decreases goals.len(),
{
    broadcast use meaning::group_later;

    let open = |goal: TraitRefModel|
        db.answer(goal).solution matches Some(SolutionModel::Ambig(_));
    if goals.len() == 0 {
        meaning::lemma_narrows_same(s.vars);
        reveal_with_fuel(Seq::filter, 1);
        assert(goals.filter(open) =~= Seq::empty());
        assert(after.obligations =~= s.obligations + goals.filter(open));
    } else {
        let rest = goals.skip(1);
        if let Ok(mid) = context::use_answer(db, s, goals[0]) {
            an_answer_is_used_for_each_variable(db, s, goals[0], mid);
            every_answer_is_used(db, mid, rest, after);
            assert forall|i: int, k: int|
                #![trigger goals[i], db.answer(goals[i]).var_mapping[k]]
                0 <= i < goals.len() && (types_given(db.answer(goals[i]).solution) matches Some(
                    substs,
                ) && 0 <= k < substs.len()) implies meaning::learned(
                after.vars,
                TyModel::Infer(InferTy::TypeVar(db.answer(goals[i]).var_mapping[k])),
                types_given(db.answer(goals[i]).solution)->Some_0[k],
            ) by {
                if i == 0 {
                    meaning::lemma_learned_later(
                        mid.vars,
                        after.vars,
                        TyModel::Infer(InferTy::TypeVar(db.answer(goals[0]).var_mapping[k])),
                        types_given(db.answer(goals[0]).solution)->Some_0[k],
                    );
                } else {
                    assert(goals[i] == rest[i - 1]);
                    let var = db.answer(rest[i - 1]).var_mapping[k];
                }
            }
            assert(goals =~= seq![goals[0]] + rest);
            lemma_filter_front(goals[0], rest, open);
            assert(after.obligations =~= s.obligations + goals.filter(open));
        }
    }
}

proof fn lemma_filter_front(
    first: TraitRefModel,
    rest: Seq<TraitRefModel>,
    keep: spec_fn(TraitRefModel) -> bool,
)
    ensures
        (seq![first] + rest).filter(keep) == if keep(first) {
            seq![first] + rest.filter(keep)
        } else {
            rest.filter(keep)
        },
    decreases rest.len(),
{
    reveal(Seq::filter);
    let all = seq![first] + rest;
    if rest.len() == 0 {
        assert(all.drop_last() =~= Seq::empty());
        assert(all.last() == first);
        assert(all.drop_last().filter(keep) =~= Seq::empty());
        assert(rest.filter(keep) =~= Seq::empty());
        assert(all.filter(keep) =~= if keep(first) {
            seq![first]
        } else {
            Seq::empty()
        });
        assert(seq![first] + rest.filter(keep) =~= seq![first]);
    } else {
        assert(all.drop_last() =~= seq![first] + rest.drop_last());
        assert(all.last() == rest.last());
        lemma_filter_front(first, rest.drop_last(), keep);
        if keep(first) {
            assert(all.filter(keep) =~= seq![first] + rest.filter(keep));
        }
    }
}

/// A definition has its own parameters and those of the definitions around it.
pub proof fn parameters_are_counted_with_those_around(generics: GenericParams)
    ensures
        generics.total() == generics.params@.len() + generics.parent_total(),
        match generics.parent_params {
            Some(parent) => generics.parent_total() == parent.total(),
            None => generics.parent_total() == 0,
        },
        match db::counted(generics.total()) {
            Ok(n) => n as nat == generics.total(),
            Err(e) => e == InferError::TooManyParameters && generics.total() > usize::MAX,
        },
{
}

/// The user is told once of a field that a struct or a variant does not have, and not of one
/// that it has; nothing else changes.
pub proof fn a_missing_field_is_told_once<D: HirDatabase>(
    env: Env<D>,
    s: Model,
    e: ExprId,
    i: int,
    def: VariantDef,
    name: Seq<char>,
)
    requires
        0 <= i <= usize::MAX,
    ensures
        ({
            let after = expr::check_field(env, s, e, i, Some(def), name);
            let told = InferenceDiagnostic::NoSuchField { expr: e, field: i as usize };
            &&& after == (Model { diagnostics: after.diagnostics, ..s })
            &&& after.diagnostics.len() == s.diagnostics.len() + if env.db.field_named(
                def,
                name,
            ) is None {
                1int
            } else {
                0int
            }
            &&& s.diagnostics.is_prefix_of(after.diagnostics)
            &&& after.diagnostics.len() > s.diagnostics.len() ==> after.diagnostics.last() == told
        }),
        expr::check_field(env, s, e, i, None, name) == s,
{
}

/// An expression counts as made of the first expressions, and of patterns made of those, if
/// each of its parts is: nothing else is asked of it.
pub proof fn an_expression_is_made_of_its_parts(node: Expr, n: nat, pats: Seq<Pat>)
    ensures
        node.below(n, pats) <==> (forall|c: ExprId| #[trigger]
            records::has_part(node, c) ==> c.0 < n) && (forall|p: PatId| #[trigger]
            records::has_pat(node, p) ==> body::pat_within(p, n, pats)),
{
    if forall|c: ExprId| #[trigger] records::has_part(node, c) ==> c.0 < n {
        if forall|p: PatId| #[trigger]
            records::has_pat(node, p) ==> body::pat_within(p, n, pats) {
            lemma_parts_below(node, n, pats);
        }
    }
    if node.below(n, pats) {
        assert forall|c: ExprId| #[trigger] records::has_part(node, c) implies c.0 < n by {
            match node {
                Expr::Block { statements, tail } => {
                    if tail != Some(c) {
                        let i = choose|i: int|
                            0 <= i < statements@.len() && records::statement_has(
                                #[trigger] statements@[i],
                                c,
                            );
                        assert(statements@[i].below(n, pats));
                    }
                },
                Expr::Match { expr, arms } => {
                    if c != expr {
                        let i = choose|i: int|
                            0 <= i < arms@.len() && ((#[trigger] arms@[i]).guard == Some(c)
                                || arms@[i].expr == c);
                        assert(arms@[i].below(n, pats));
                    }
                },
                _ => {},
            }
        }
        assert forall|p: PatId| #[trigger] records::has_pat(node, p) implies body::pat_within(
            p,
            n,
            pats,
        ) by {
            match node {
                Expr::Block { statements, tail } => {
                    let i = choose|i: int|
                        0 <= i < statements@.len() && records::statement_binds(
                            #[trigger] statements@[i],
                            p,
                        );
                    assert(statements@[i].below(n, pats));
                },
                Expr::Match { expr, arms } => {
                    let i = choose|i: int|
                        0 <= i < arms@.len() && (#[trigger] arms@[i]).pats@.contains(p);
                    assert(arms@[i].below(n, pats));
                },
                _ => {},
            }
        }
    }
}

proof fn lemma_parts_below(node: Expr, n: nat, pats: Seq<Pat>)
    requires
        forall|c: ExprId| #[trigger] records::has_part(node, c) ==> c.0 < n,
        forall|p: PatId| #[trigger] records::has_pat(node, p) ==> body::pat_within(p, n, pats),
    ensures
        node.below(n, pats),
{
    match node {
        Expr::If { condition, then_branch, else_branch } => {
            assert(records::has_part(node, condition) && records::has_part(node, then_branch));
            if let Some(other) = else_branch {
                assert(records::has_part(node, other));
            }
        },
        Expr::Block { statements, tail } => {
            assert forall|i: int| 0 <= i < statements@.len() implies (
            #[trigger] statements@[i]).below(n, pats) by {
                match statements@[i] {
                    Statement::Let { pat, initializer, .. } => {
                        assert(records::statement_binds(statements@[i], pat));
                        assert(records::has_pat(node, pat));
                        if let Some(init) = initializer {
                            assert(records::statement_has(statements@[i], init));
                            assert(records::has_part(node, init));
                        }
                    },
                    Statement::Expr(e) => {
                        assert(records::statement_has(statements@[i], e));
                        assert(records::has_part(node, e));
                    },
                }
            }
            if let Some(tail) = tail {
                assert(records::has_part(node, tail));
            }
        },
        Expr::Loop { body } => {
            assert(records::has_part(node, body));
        },
        Expr::While { condition, body } => {
            assert(records::has_part(node, condition) && records::has_part(node, body));
        },
        Expr::For { iterable, pat, body } => {
            assert(records::has_part(node, iterable) && records::has_part(node, body));
            assert(records::has_pat(node, pat));
        },
        Expr::Call { callee, args } => {
            assert(records::has_part(node, callee));
            lemma_list_below(node, args@, n);
        },
        Expr::MethodCall { receiver, args, .. } => {
            assert(records::has_part(node, receiver));
            lemma_list_below(node, args@, n);
        },
        Expr::Match { expr, arms } => {
            assert(records::has_part(node, expr));
            assert forall|i: int| 0 <= i < arms@.len() implies (#[trigger] arms@[i]).below(
                n,
                pats,
            ) by {
                assert(records::has_part(node, arms@[i].expr));
                if let Some(guard) = arms@[i].guard {
                    assert(records::has_part(node, guard));
                }
                assert forall|j: int| 0 <= j < arms@[i].pats@.len() implies body::pat_within(
                    #[trigger] arms@[i].pats@[j],
                    n,
                    pats,
                ) by {
                    assert(arms@[i].pats@.contains(arms@[i].pats@[j]));
                    assert(records::has_pat(node, arms@[i].pats@[j]));
                }
            }
        },
        Expr::Break { expr: Some(value) } => {
            assert(records::has_part(node, value));
        },
        Expr::Return { expr: Some(value) } => {
            assert(records::has_part(node, value));
        },
        Expr::StructLit { fields, spread, .. } => {
            assert forall|i: int| 0 <= i < fields@.len() implies (#[trigger] fields@[i]).expr.0
                < n by {
                assert(records::has_part(node, fields@[i].expr));
            }
            if let Some(spread) = spread {
                assert(records::has_part(node, spread));
            }
        },
        Expr::Field { expr, .. } => {
            assert(records::has_part(node, expr));
        },
        Expr::Try { expr } => {
            assert(records::has_part(node, expr));
        },
        Expr::Cast { expr, .. } => {
            assert(records::has_part(node, expr));
        },
        Expr::Ref { expr, .. } => {
            assert(records::has_part(node, expr));
        },
        Expr::UnaryOp { expr, .. } => {
            assert(records::has_part(node, expr));
        },
        Expr::BinaryOp { lhs, rhs, .. } => {
            assert(records::has_part(node, lhs) && records::has_part(node, rhs));
        },
        Expr::Lambda { args, body, .. } => {
            assert(records::has_part(node, body));
            assert forall|j: int| 0 <= j < args@.len() implies body::pat_within(
                #[trigger] args@[j],
                n,
                pats,
            ) by {
                assert(args@.contains(args@[j]));
                assert(records::has_pat(node, args@[j]));
            }
        },
        Expr::Tuple { exprs } => {
            lemma_list_below(node, exprs@, n);
        },
        Expr::Array(Array::ElementList(items)) => {
            lemma_list_below(node, items@, n);
        },
        Expr::Array(Array::Repeat { initializer, repeat }) => {
            assert(records::has_part(node, initializer) && records::has_part(node, repeat));
        },
        _ => {},
    }
}

proof fn lemma_list_below(node: Expr, ids: Seq<ExprId>, n: nat)
    requires
        forall|c: ExprId| ids.contains(c) ==> #[trigger] records::has_part(node, c),
        forall|c: ExprId| #[trigger] records::has_part(node, c) ==> c.0 < n,
    ensures
        body::all_exprs_below(ids, n),
{
    assert forall|i: int| 0 <= i < ids.len() implies (#[trigger] ids[i]).0 < n by {
        assert(ids.contains(ids[i]));
        assert(records::has_part(node, ids[i]));
    }
}

/// The user is told of each field in turn, in the file of the function, where the field is
/// written; up to the first that is not found in the source.
pub proof fn the_user_is_told_where_each_field_is<D: HirDatabase>(
    db: &D,
    owner: Function,
    found: Seq<InferenceDiagnostic>,
)
    ensures
        ({
            let (told, r) = diagnostics::all_located(db, owner, found);
            &&& told.len() <= found.len()
            &&& r is Ok <==> told.len() == found.len()
            &&& r matches Err(e) ==> e == InferError::NoSuchSyntax
            &&& forall|i: int|
                0 <= i < found.len() && i <= told.len() ==> {
                    let InferenceDiagnostic::NoSuchField { expr, field } = #[trigger] found[i];
                    match db.syntax_of_field(owner, expr, field) {
                        Some(syntax) => i < told.len() && told[i].file == db.file_of(owner)
                            && told[i].field == syntax,
                        None => i == told.len(),
                    }
                }
        }),
    decreases found.len(),
{
    if found.len() > 0 {
        let rest = found.skip(1);
        the_user_is_told_where_each_field_is(db, owner, rest);
        let (told, r) = diagnostics::all_located(db, owner, found);
        let (others, _) = diagnostics::all_located(db, owner, rest);
        assert forall|i: int| 0 <= i < found.len() && i <= told.len() implies {
            let InferenceDiagnostic::NoSuchField { expr, field } = #[trigger] found[i];
            match db.syntax_of_field(owner, expr, field) {
                Some(syntax) => i < told.len() && told[i].file == db.file_of(owner)
                    && told[i].field == syntax,
                None => i == told.len(),
            }
        } by {
            if i > 0 && told.len() > 0 {
                assert(found[i] == rest[i - 1]);
                if i < told.len() {
                    assert(told[i] == others[i - 1]);
                }
            }
        }
    }
}

/// What is recorded for a node is given back for it, and for no other; the type of a node
/// for which none is recorded is not known.
pub proof fn what_is_recorded_is_given_back<V>(
    map: Map<ExprOrPatId, V>,
    id: ExprOrPatId,
    other: ExprOrPatId,
    v: V,
    types: Map<u32, TyModel>,
    n: u32,
    m: u32,
    t: TyModel,
)
    ensures
        result::recorded_for(map.insert(id, v), id) == Some(v),
        other != id ==> result::recorded_for(map.insert(id, v), other) == result::recorded_for(
            map,
            other,
        ),
        result::recorded_for(map.remove(id), id) is None,
        result::type_in(types.insert(n, t), n) == t,
        m != n ==> result::type_in(types.insert(n, t), m) == result::type_in(types, m),
        result::type_in(types.remove(n), n) == TyModel::Unknown,
{
}

} // verus!
