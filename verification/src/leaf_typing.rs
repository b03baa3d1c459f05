//! The typing rules that do not walk into other expressions say what they should.

use vstd::prelude::*;

use crate::body::{
    Array, Body, Expr, GenericArg, GenericArgs, MatchArm, Pat, Path, Statement, StructLitField,
};
use crate::context::{Env, Model};
use crate::db::{GenericParams, HirDatabase, TraitRefModel};
use crate::defs::{
    Crate, ExprId, ExprOrPatId, Function, ImplItem, ModuleDef, Namespace, PatId, Resolution,
    Resolver, TypableDef, VariantDef,
};
use crate::kinds::Kind;
use crate::name::Name;
use crate::pat::BindingMode;
use crate::ty::{InferTy, Mutability, TyModel, TypeCtor};
use crate::typing::{Expected, Places};
use crate::{
    body, call, context, db, defs, expr_upkeep, fresh, kinds, meaning, name, pat, path, rules,
    settled, solution, step_laws, ty, typing, typing_steps, unify, upkeep,
};

verus! {

/// Whether no type is recorded in a step and nothing forgotten.
pub open spec fn quiet(s: Model, after: Model) -> bool {
    &&& meaning::narrows(s.vars, after.vars)
    &&& after.type_of_expr == s.type_of_expr
    &&& after.type_of_pat == s.type_of_pat
    &&& after.return_ty == s.return_ty
    &&& after.diagnostics == s.diagnostics
}

/// The same, where nothing is learned either.
pub open spec fn idle(s: Model, after: Model) -> bool {
    &&& quiet(s, after)
    &&& meaning::teaches(s.vars, after.vars, Seq::empty())
    &&& after.obligations == s.obligations
}

proof fn lemma_idle_trans(s: Model, s1: Model, s2: Model)
    requires
        idle(s, s1),
        idle(s1, s2),
    ensures
        idle(s, s2),
{
    broadcast use meaning::group_later;

    meaning::lemma_teaches_then(s.vars, s1.vars, s2.vars, Seq::empty());
}

pub broadcast proof fn lemma_next_exprs(pl: Places, pos: int, es: Seq<ExprId>)
    requires
        #[trigger] typing::next_exprs(pl, pos, es) >= 0,
    ensures
        0 <= pos <= typing::next_exprs(pl, pos, es),
    decreases es.len(),
{
    if es.len() > 0 {
        lemma_next_exprs(pl, typing::next_expr(pl, pos, es[0]), es.skip(1));
    }
}

pub broadcast proof fn lemma_next_pats(pl: Places, pos: int, ps: Seq<PatId>)
    requires
        #[trigger] typing::next_pats(pl, pos, ps) >= 0,
    ensures
        0 <= pos <= typing::next_pats(pl, pos, ps),
    decreases ps.len(),
{
    if ps.len() > 0 {
        lemma_next_pats(pl, typing::next_pat(pl, pos, ps[0]), ps.skip(1));
    }
}

pub broadcast proof fn lemma_next_statements(pl: Places, pos: int, sts: Seq<Statement>)
    requires
        #[trigger] typing::next_statements(pl, pos, sts) >= 0,
    ensures
        0 <= pos <= typing::next_statements(pl, pos, sts),
    decreases sts.len(),
{
    if sts.len() > 0 {
        lemma_next_statements(pl, typing::next_statement(pl, pos, sts[0]), sts.skip(1));
    }
}

pub broadcast proof fn lemma_next_arms(pl: Places, pos: int, arms: Seq<MatchArm>)
    requires
        #[trigger] typing::next_arms(pl, pos, arms) >= 0,
    ensures
        0 <= pos <= typing::next_arms(pl, pos, arms),
    decreases arms.len(),
{
    if arms.len() > 0 {
        lemma_next_arms(pl, typing::next_arm(pl, pos, arms[0]), arms.skip(1));
        lemma_next_pats(pl, pos, arms[0].pats@);
    }
}

pub broadcast proof fn lemma_next_fields(
    pl: Places,
    pos: int,
    fields: Seq<StructLitField>,
    i: int,
)
    requires
        #[trigger] typing::next_fields(pl, pos, fields, i) >= 0,
    ensures
        0 <= pos <= typing::next_fields(pl, pos, fields, i),
    decreases fields.len() - i,
{
    if 0 <= i < fields.len() {
        lemma_next_fields(pl, typing::next_expr(pl, pos, fields[i].expr), fields, i + 1);
    }
}

pub broadcast group group_next {
    lemma_next_exprs,
    lemma_next_pats,
    lemma_next_statements,
    lemma_next_arms,
    lemma_next_fields,
}

/// The insertion of variables is quiet.
pub proof fn lemma_inserted(s: Model, t: TyModel)
    ensures
        context::insert_in(s, t) matches Ok((after, full)) ==> {
            &&& idle(s, after)
            &&& after == (Model { vars: after.vars, ..s })
            &&& settled::filled(t, full, 0)
            &&& settled::nothing_open(full)
        },
{
    meaning::lemma_inserted(s.vars, t);
    settled::lemma_insert_fills(s.vars, t);
}

/// What is filled has nothing open, so that it is not filled again.
pub proof fn lemma_filled_twice(s: Model, t: TyModel)
    requires
        settled::nothing_open(t),
    ensures
        context::insert_in(s, t) matches Ok((_, full)) ==> full == t,
{
    settled::lemma_insert_fills(s.vars, t);
}

/// A path names the variant that it should.
pub proof fn lemma_variant<D: HirDatabase>(env: Env<D>, s: Model, path: Option<Path>)
    ensures
        path::variant_of_path(env, s, path) matches Ok((after, (t, def))) ==> {
            &&& idle(s, after)
            &&& typing::names_variant(env, path, t, def)
        },
{
    reveal(path::variant_of_path);
    meaning::lemma_narrows_same(s.vars);
    if let Some(path) = path {
        match env.db.full_path_resolution(env.resolver(), path).types {
            Some(Resolution::Def(ModuleDef::Struct(strukt))) => {
                let substs = env.db.path_substs(env.resolver(), path, TypableDef::Struct(strukt));
                lemma_inserted(s, ty::with_params(env.db.struct_type(strukt), substs));
            },
            Some(Resolution::Def(ModuleDef::EnumVariant(variant))) => {
                let substs = env.db.path_substs(
                    env.resolver(),
                    path,
                    TypableDef::EnumVariant(variant),
                );
                lemma_inserted(
                    s,
                    ty::with_params(env.db.enum_type(env.db.enum_of(variant)), substs),
                );
            },
            _ => {},
        }
    }
}

pub proof fn lemma_own_field<D: HirDatabase>(db: &D, t: TyModel, name: Seq<char>)
    ensures
        match rules::own_field(db, t, name) {
            Some((field_ty, _)) => typing::has_field(db, t, name, field_ty),
            None => forall|other: TyModel| !#[trigger] typing::has_field(db, t, name, other),
        },
{
}

proof fn lemma_first_field<D: HirDatabase>(db: &D, tys: Seq<TyModel>, name: Seq<char>)
    ensures
        match rules::first_field(db, tys, name) {
            Some((field_ty, _)) => typing::first_has(db, tys, name, field_ty),
            None => forall|j: int, other: TyModel|
                0 <= j < tys.len() ==> !#[trigger] typing::has_field(db, tys[j], name, other),
        },
    decreases tys.len(),
{
    if tys.len() > 0 {
        lemma_own_field(db, tys[0], name);
        let rest = tys.skip(1);
        lemma_first_field(db, rest, name);
        if rules::own_field(db, tys[0], name) is None {
            match rules::first_field(db, rest, name) {
                Some((field_ty, _)) => {
                    let i = choose|i: int|
                        0 <= i < rest.len() && typing::has_field(
                            db,
                            #[trigger] rest[i],
                            name,
                            field_ty,
                        ) && forall|j: int, other: TyModel|
                            0 <= j < i ==> !#[trigger] typing::has_field(
                                db,
                                rest[j],
                                name,
                                other,
                            );
                    assert(typing::has_field(db, tys[i + 1], name, field_ty));
                    assert forall|j: int, other: TyModel| 0 <= j < i + 1 implies !#[trigger]
                        typing::has_field(db, tys[j], name, other) by {
                        if j > 0 {
                            assert(!typing::has_field(db, rest[j - 1], name, other));
                        }
                    }
                },
                None => {
                    assert forall|j: int, other: TyModel| 0 <= j < tys.len() implies !#[trigger]
                        typing::has_field(db, tys[j], name, other) by {
                        if j > 0 {
                            assert(!typing::has_field(db, rest[j - 1], name, other));
                        }
                    }
                },
            }
        }
    }
}

/// A field access has the type of the field.
pub proof fn lemma_field_access<D: HirDatabase>(
    env: Env<D>,
    s: Model,
    e: ExprId,
    receiver: TyModel,
    name: Seq<char>,
)
    ensures
        rules::field_access(env, s, e, receiver, name) matches Ok((after, t)) ==> {
            &&& idle(s, after)
            &&& typing::field_ok(env.db, receiver, name, t)
        },
{
    reveal(rules::field_access);
    let tys = env.db.derefs(receiver);
    lemma_first_field(env.db, tys, name);
    match rules::first_field(env.db, tys, name) {
        Some((t, Some(field))) => {
            let s1 = Model {
                field_resolutions: s.field_resolutions.insert(ExprOrPatId::ExprId(e), field),
                ..s
            };
            lemma_inserted(s1, t);
        },
        Some((t, None)) => {
            lemma_inserted(s, t);
        },
        None => {
            lemma_inserted(s, TyModel::Unknown);
        },
    }
}

proof fn lemma_written_args<D: HirDatabase>(
    env: Env<D>,
    s: Model,
    args: Seq<GenericArg>,
    count: nat,
)
    ensures
        call::written_args(env, s, args, count) matches Ok((after, tys)) ==> {
            &&& idle(s, after)
            &&& after == (Model { vars: after.vars, ..s })
            &&& tys.len() == if args.len() < count {
                args.len()
            } else {
                count
            }
            &&& forall|i: int|
                0 <= i < tys.len() ==> {
                    let GenericArg::Type(type_ref) = args[i];
                    settled::filled(
                        env.db.lowered(env.resolver(), type_ref),
                        #[trigger] tys[i],
                        0,
                    )
                }
        },
    decreases args.len(),
{
    broadcast use meaning::group_later;

    meaning::lemma_narrows_same(s.vars);
    if args.len() > 0 && count > 0 {
        let GenericArg::Type(type_ref) = args[0];
        lemma_inserted(s, env.db.lowered(env.resolver(), type_ref));
        if let Ok((s1, t)) = context::make_ty(env.db, env.resolver(), s, type_ref) {
            let rest = args.skip(1);
            lemma_written_args(env, s1, rest, (count - 1) as nat);
            if let Ok((after, ts)) = call::written_args(env, s1, rest, (count - 1) as nat) {
                lemma_idle_trans(s, s1, after);
                let tys = seq![t] + ts;
                assert forall|i: int| 0 <= i < tys.len() implies {
                    let GenericArg::Type(type_ref) = args[i];
                    settled::filled(
                        env.db.lowered(env.resolver(), type_ref),
                        #[trigger] tys[i],
                        0,
                    )
                } by {
                    if i > 0 {
                        assert(tys[i] == ts[i - 1]);
                        assert(rest[i - 1] == args[i]);
                    }
                }
            }
        }
    }
}

proof fn lemma_method_substs<D: HirDatabase>(
    env: Env<D>,
    s: Model,
    generics: GenericParams,
    args: Option<GenericArgs>,
    receiver: TyModel,
)
    ensures
        call::method_substs(env, s, Some(generics), args, receiver) matches Ok((after, substs))
            ==> {
            &&& idle(s, after)
            &&& after == (Model { vars: after.vars, ..s })
            &&& typing::method_params_ok(
                env,
                match generics.parent_params {
                    Some(parent) => parent.params@,
                    None => Seq::empty(),
                },
                generics.params@.len(),
                generics.total(),
                args,
                receiver,
                substs,
            )
        },
{
    lemma_written_args(env, s, call::arg_seq(args), generics.params@.len());
    call::lemma_written_args_count(env, s, call::arg_seq(args), generics.params@.len());
    if let Some(parent) = generics.parent_params {
        assert(parent.total() >= parent.params@.len());
    }
}

/// A method call is of the method that it should be, with what it should be given.
pub proof fn lemma_method_callee<D: HirDatabase>(
    env: Env<D>,
    s: Model,
    ks: Seq<Kind>,
    e: ExprId,
    receiver: TyModel,
    name: Seq<char>,
    args: Option<GenericArgs>,
) -> (r: (TyModel, (TyModel, TyModel)))
    requires
        upkeep::faithful(env.db),
        upkeep::sound(s, ks),
        kinds::well_kinded(receiver, ks),
    ensures
        call::method_callee(env, s, e, receiver, name, args) matches Ok((after, (params, ret)))
            ==> {
            let found = env.db.method_named(receiver, name, env.resolver());
            let method_ty = r.0;
            &&& quiet(s, after)
            &&& meaning::teaches(s.vars, after.vars, seq![r.1])
            &&& typing::method_pair(
                env,
                found,
                args,
                match found {
                    Some((t, _)) => t,
                    None => receiver,
                },
                method_ty,
                r.1,
            )
            &&& after == (Model {
                vars: after.vars,
                obligations: after.obligations,
                method_resolutions: match found {
                    Some((_, func)) => s.method_resolutions.insert(ExprOrPatId::ExprId(e), func),
                    None => s.method_resolutions,
                },
                ..s
            })
            &&& step_laws::asks_for_its_trait(env.db, s, method_ty, after)
            &&& typing::method_ty_ok(env, found, args, method_ty)
            &&& match env.db.signature_of_callable(method_ty) {
                Some(sig) => {
                    &&& ret == sig.ret
                    &&& if sig.params.len() > 0 {
                        &&& typing::receiver_ok(
                            after,
                            sig.params[0],
                            match found {
                                Some((t, _)) => t,
                                None => receiver,
                            },
                        )
                        &&& params == sig.params.skip(1)
                    } else {
                        params == Seq::<TyModel>::empty()
                    }
                },
                None => ret == TyModel::Unknown && params == Seq::<TyModel>::empty(),
            }
        },
{
    broadcast use meaning::group_later;

    reveal(call::method_callee);
    let found = env.db.method_named(receiver, name, env.resolver());
    upkeep::lemma_sound_parts(env.db, s, ks);
    let (s1, on, source, generics) = match found {
        Some((t, func)) => (
            Model {
                method_resolutions: s.method_resolutions.insert(ExprOrPatId::ExprId(e), func),
                ..s
            },
            t,
            env.db.type_of_def(TypableDef::Function(func), Namespace::Values),
            Some(env.db.fn_generics_of(func)),
        ),
        None => (s, receiver, TyModel::Unknown, None),
    };
    upkeep::lemma_same_types(s, ks, s1);
    settled::lemma_free_well_kinded(source, ks);
    let k2 = expr_upkeep::lemma_method_substs(env, s1, ks, generics, args, on);
    match generics {
        Some(generics) => {
            lemma_method_substs(env, s1, generics, args, on);
        },
        None => {
            lemma_written_args(env, s1, call::arg_seq(args), 0);
        },
    }
    if let Ok((s2, substs)) = call::method_substs(env, s1, generics, args, on) {
        let t = ty::with_params(source, substs);
        lemma_inserted(s2, t);
        settled::lemma_free_well_kinded(source, k2);
        if let Ok((s3, method_ty)) = context::insert_in(s2, t) {
            assert(typing::method_ty_ok(env, found, args, method_ty)) by {
                if let Some((_, func)) = found {
                    assert(typing::given_params(source, substs, method_ty));
                }
            }
            assert(kinds::well_kinded(t, k2));
            let k3 = upkeep::lemma_insert_in(s2, k2, t);
            upkeep::lemma_sound_parts(env.db, s3, k3);
            lemma_idle_trans(s1, s2, s3);
            let pair = lemma_chosen(env, s3, method_ty, on);
            if let Ok((s4, _)) = call::chosen_method(env, s3, method_ty, on) {
                meaning::lemma_teaches_then(s.vars, s3.vars, s4.vars, seq![pair]);
            }
            (method_ty, pair)
        } else {
            arbitrary()
        }
    } else {
        arbitrary()
    }
}

proof fn lemma_chosen<D: HirDatabase>(
    env: Env<D>,
    s: Model,
    method_ty: TyModel,
    on: TyModel,
) -> (pair: (TyModel, TyModel))
    requires
        solution::partitioned(s.vars),
    ensures
        call::chosen_method(env, s, method_ty, on) matches Ok((after, (params, ret))) ==> {
            &&& quiet(s, after)
            &&& meaning::teaches(s.vars, after.vars, seq![pair])
            &&& match env.db.signature_of_callable(method_ty) {
                Some(sig) if sig.params.len() > 0 => pair.0 == sig.params[0]
                    && match sig.params[0] {
                    TyModel::Apply { ctor: TypeCtor::Ref(m), .. } => pair.1 == ty::apply_one(
                        TypeCtor::Ref(m),
                        on,
                    ),
                    _ => pair.1 == on,
                },
                _ => pair == (TyModel::Unknown, on),
            }
            &&& after == (Model { vars: after.vars, obligations: after.obligations, ..s })
            &&& step_laws::asks_for_its_trait(env.db, s, method_ty, after)
            &&& match env.db.signature_of_callable(method_ty) {
                Some(sig) => {
                    &&& ret == sig.ret
                    &&& if sig.params.len() > 0 {
                        &&& typing::receiver_ok(after, sig.params[0], on)
                        &&& params == sig.params.skip(1)
                    } else {
                        params == Seq::<TyModel>::empty()
                    }
                },
                None => ret == TyModel::Unknown && params == Seq::<TyModel>::empty(),
            }
        },
{
    let sig = env.db.signature_of_callable(method_ty);
    let (expected, _, _) = call::method_parts(sig);
    if let Ok((after, (params, ret))) = call::chosen_method(env, s, method_ty, on) {
        let actual = call::auto_referenced(expected, on)->Ok_0;
        if let Ok((vars, ok)) = unify::unify(s.vars, expected, actual) {
            meaning::lemma_unified(s.vars, expected, actual, vars, ok);
        }
        if let Ok(s1) = call::with_call_obligation(env, s, method_ty) {
            step_laws::a_trait_method_asks_for_its_trait(env, s, method_ty, s1);
        }
        if sig is Some && sig->Some_0.params.len() > 0 {
            let sig = sig->Some_0;
            step_laws::the_receiver_is_what_the_method_takes(
                env,
                s,
                method_ty,
                on,
                sig,
                after,
                params,
                ret,
            );
        }
        (expected, actual)
    } else {
        (TyModel::Unknown, on)
    }
}

/// The item that a name is looked up to be is the first of that name.
pub proof fn lemma_first_item<D: HirDatabase>(db: &D, items: Seq<ImplItem>, name: Seq<char>)
    ensures
        match path::matching_item(db, items, name) {
            Some(item) => {
                &&& typing::first_item(db, items, name, item)
                &&& forall|other: ImplItem| #[trigger]
                    typing::first_item(db, items, name, other) ==> other == item
            },
            None => forall|i: int|
                0 <= i < items.len() ==> !typing::named_item(db, #[trigger] items[i], name),
        },
    decreases items.len(),
{
    if items.len() > 0 {
        if typing::named_item(db, items[0], name) {
            assert(typing::first_item(db, items, name, items[0]));
        } else {
            let rest = items.skip(1);
            lemma_first_item(db, rest, name);
            match path::matching_item(db, rest, name) {
                Some(item) => {
                    let i = choose|i: int|
                        0 <= i < rest.len() && #[trigger] rest[i] == item && typing::named_item(
                            db,
                            item,
                            name,
                        ) && forall|j: int|
                            0 <= j < i ==> !typing::named_item(db, #[trigger] rest[j], name);
                    assert(items[i + 1] == item);
                    assert forall|j: int| 0 <= j < i + 1 implies !typing::named_item(
                        db,
                        #[trigger] items[j],
                        name,
                    ) by {
                        if j > 0 {
                            assert(items[j] == rest[j - 1]);
                        }
                    }
                    assert(typing::first_item(db, items, name, item));
                },
                None => {
                    assert forall|i: int| 0 <= i < items.len() implies !typing::named_item(
                        db,
                        #[trigger] items[i],
                        name,
                    ) by {
                        if i > 0 {
                            assert(items[i] == rest[i - 1]);
                        }
                    }
                },
            }
        }
    }
}

/// The segments of a path lead where they should, and nowhere else.
pub proof fn lemma_walk<D: HirDatabase>(
    env: Env<D>,
    s: Model,
    krate: Option<Crate>,
    path: Path,
    id: ExprOrPatId,
    start: nat,
    i: nat,
    at: (Resolution, Option<TyModel>),
)
    requires
        start <= i,
    ensures
        path::walk(env, s, krate, path, id, start, i, at) matches Ok((after, found)) ==> {
            &&& idle(s, after)
            &&& after == (Model { assoc_resolutions: after.assoc_resolutions, ..s })
            &&& match found {
                Some(to) => {
                    &&& typing::leads_to(env, krate, path, i as int, at, to)
                    &&& forall|other: (Resolution, Option<TyModel>)| #[trigger]
                        typing::leads_to(env, krate, path, i as int, at, other) ==> other == to
                },
                None => forall|to: (Resolution, Option<TyModel>)|
                    !#[trigger] typing::leads_to(env, krate, path, i as int, at, to),
            }
        },
    decreases path.segments@.len() - i,
{
    meaning::lemma_narrows_same(s.vars);
    if i < path.segments@.len() && start > 0 {
        if let Resolution::Def(def) = at.0 {
            if let (Some(typable), Some(the_crate)) = (defs::typable_def(def), krate) {
                let base = path::segment_base(env, path, i, typable);
                let items = env.db.items_of_type(base, the_crate);
                let name = path.segments@[i as int].name@;
                lemma_first_item(env.db, items, name);
                match path::matching_item(env.db, items, name) {
                    Some(item) => {
                        let s1 = Model {
                            assoc_resolutions: s.assoc_resolutions.insert(id, item),
                            ..s
                        };
                        let next = (Resolution::Def(path::item_def(item)), Some(base));
                        lemma_walk(env, s1, krate, path, id, start, i + 1, next);
                        assert(typing::segment_ok(env, krate, path, i as int, def, base, item));
                        assert forall|b: TyModel, it: ImplItem| #[trigger]
                            typing::segment_ok(env, krate, path, i as int, def, b, it) implies b
                            == base && it == item by {}
                        if let Ok((after, found)) = path::walk(
                            env,
                            s1,
                            krate,
                            path,
                            id,
                            start,
                            i + 1,
                            next,
                        ) {
                            assert forall|to: (Resolution, Option<TyModel>)| #[trigger]
                                typing::leads_to(
                                env,
                                krate,
                                path,
                                i as int,
                                at,
                                to,
                            ) implies typing::leads_to(
                                env,
                                krate,
                                path,
                                (i + 1) as int,
                                next,
                                to,
                            ) by {}
                            if let Some(to) = found {
                                let n = (i + 1) as int;
                                assert(typing::leads_to(env, krate, path, n, next, to));
                                assert(typing::leads_to(env, krate, path, i as int, at, to));
                            }
                        }
                    },
                    None => {
                        assert forall|b: TyModel, it: ImplItem|
                            !#[trigger] typing::segment_ok(
                                env,
                                krate,
                                path,
                                i as int,
                                def,
                                b,
                                it,
                            ) by {}
                    },
                }
            }
        }
    }
}

/// A path has the type that it should.
pub proof fn lemma_path<D: HirDatabase>(
    env: Env<D>,
    pl: Places,
    s: Model,
    ks: Seq<Kind>,
    d: Expected,
    pos: int,
    resolver: Resolver,
    path: Path,
    id: ExprOrPatId,
    end: int,
) -> (pairs: Seq<(TyModel, TyModel)>)
    requires
        typing_steps::ready(env, pl, s, ks, d, pos),
    ensures
        path::path_ty(env, s, resolver, path, id) matches Ok((after, found)) ==> {
            &&& quiet(s, after)
            &&& meaning::teaches(s.vars, after.vars, pairs)
            &&& meaning::all_from_answers(env.db, s.obligations, pairs)
            &&& meaning::no_new_goals(s, after)
            &&& forall|goal: TraitRefModel| #[trigger]
                s.obligations.contains(goal) ==> meaning::asked(env.db, after, goal)
            &&& typing::path_ok(
                env,
                pl,
                after,
                d,
                resolver,
                path,
                end,
                match found {
                    Some(t) => t,
                    None => TyModel::Unknown,
                },
            )
        },
{
    broadcast use meaning::group_later;

    reveal(path::path_ty);
    meaning::lemma_narrows_same(s.vars);
    let res = env.db.path_resolution(resolver, path);
    let krate = env.db.crate_of(resolver);
    let len = path.segments@.len();
    let (first, start) = match res.remaining_index {
        None => (res.def.values, len),
        Some(i) => (res.def.types, i as nat),
    };
    if let Some(first) = first {
        if start <= len {
            lemma_walk(env, s, krate, path, id, start, start, (first, None));
            if let Ok((s1, Some(at))) = path::walk(
                env,
                s,
                krate,
                path,
                id,
                start,
                start,
                (first, None),
            ) {
                let pairs = lemma_value(env, pl, s, s1, ks, d, pos, path, at);
                if let Ok((s2, _)) = path::value_ty(env, s1, path, at) {
                    meaning::lemma_teaches_then(s.vars, s1.vars, s2.vars, pairs);
                }
                if res.remaining_index is Some {
                    assert(typing::leads_to(
                        env,
                        krate,
                        path,
                        start as int,
                        (first, None::<TyModel>),
                        at,
                    ));
                }
                pairs
            } else {
                Seq::empty()
            }
        } else {
            Seq::empty()
        }
    } else {
        Seq::empty()
    }
}

/// What a path has come to has the type that it should.
proof fn lemma_value<D: HirDatabase>(
    env: Env<D>,
    pl: Places,
    s0: Model,
    s: Model,
    ks: Seq<Kind>,
    d: Expected,
    pos: int,
    path: Path,
    at: (Resolution, Option<TyModel>),
) -> (pairs: Seq<(TyModel, TyModel)>)
    requires
        typing_steps::ready(env, pl, s0, ks, d, pos),
        quiet(s0, s),
        s == (Model { assoc_resolutions: s.assoc_resolutions, ..s0 }),
    ensures
        path::value_ty(env, s, path, at) matches Ok((after, found)) ==> {
            &&& quiet(s, after)
            &&& meaning::teaches(s.vars, after.vars, pairs)
            &&& meaning::all_from_answers(env.db, s.obligations, pairs)
            &&& meaning::no_new_goals(s, after)
            &&& forall|goal: TraitRefModel| #[trigger]
                s.obligations.contains(goal) ==> meaning::asked(env.db, after, goal)
            &&& match at.0 {
                Resolution::Def(def) => match found {
                    Some(t) => typing::def_ty_ok(env, path, def, at.1, t) && t
                        != TyModel::Unknown,
                    None => typing::with_type(def) is None,
                },
                Resolution::LocalBinding(p) => match found {
                    Some(t) => meaning::same(after.vars, t, s.type_of_pat[p.0]),
                    None => !d.pats.contains_key(p.0),
                },
                _ => found is None,
            }
        },
{
    meaning::lemma_narrows_same(s.vars);
    match at.0 {
        Resolution::Def(def) => {
            if let Some(typable) = defs::typable_def(def) {
                if let Ok(found) = path::self_types(env.db, def, at.1) {
                    let t = path::maybe_subst(
                        env.db.type_of_def(typable, Namespace::Values),
                        found,
                    );
                    let substs = env.db.path_substs(env.resolver(), path, typable);
                    lemma_inserted(s, ty::subst(t, substs));
                }
            }
            Seq::empty()
        },
        Resolution::LocalBinding(p) => {
            if s.type_of_pat.contains_key(p.0) {
                upkeep::lemma_same_types(s0, ks, s);
                upkeep::lemma_recorded_pat(s, ks, p);
                upkeep::lemma_sound_parts(env.db, s, ks);
                meaning::lemma_resolved_same(env.db, ks, s, s.type_of_pat[p.0]);
                meaning::lemma_resolved_teaches(env.db, ks, s, s.type_of_pat[p.0])
            } else {
                reveal(typing_steps::clear);
                Seq::empty()
            }
        },
        _ => Seq::empty(),
    }
}

/// A pattern is matched with what it should be matched with.
pub proof fn lemma_behind(outer: TyModel, mode: BindingMode) -> (refs: Seq<Mutability>)
    ensures
        pat::behind_references(outer, mode) matches Ok((x, m)) ==> typing::unwrapped(
            outer,
            refs,
            x,
        ) && m == typing::mode_through(mode, refs),
    decreases outer,
{
    match outer {
        TyModel::Apply { ctor: TypeCtor::Ref(m), params } => {
            if params.len() == 1 {
                let rest = lemma_behind(params[0], pat::mode_behind(mode, m));
                let refs = seq![m] + rest;
                assert(refs.skip(1) =~= rest);
                assert(refs[0] == m);
                if let Ok((x, last)) = pat::behind_references(outer, mode) {
                    if rest.contains(Mutability::Shared) {
                        let k = choose|k: int|
                            0 <= k < rest.len() && rest[k] == Mutability::Shared;
                        assert(refs[k + 1] == Mutability::Shared);
                    }
                    if refs.contains(Mutability::Shared) && m != Mutability::Shared {
                        let k = choose|k: int|
                            0 <= k < refs.len() && refs[k] == Mutability::Shared;
                        assert(rest[k - 1] == Mutability::Shared);
                    }
                }
                refs
            } else {
                Seq::empty()
            }
        },
        _ => Seq::empty(),
    }
}

pub proof fn lemma_meets(node: Pat, outer: TyModel, mode: BindingMode)
    ensures
        pat::pat_expectation(node, outer, mode) matches Ok((x, m)) ==> typing::meets(
            node,
            outer,
            mode,
            x,
            m,
        ),
{
    let refs = lemma_behind(outer, mode);
}

} // verus!
