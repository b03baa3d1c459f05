//! What the steps on paths and patterns keep.

use vstd::prelude::*;

use crate::body::{Pat, Path};
use crate::context::{Env, Model};
use crate::db::HirDatabase;
use crate::defs::{
    Crate, ExprId, ExprOrPatId, ModuleDef, Namespace, PatId, Resolution, Resolver, TypableDef,
    VariantDef,
};
use crate::error::InferError;
use crate::kinds::Kind;
use crate::pat::BindingMode;
use crate::ty::{TyModel, TypeCtor};
use crate::{
    body, context, db, defs, expr, expr_upkeep, kinds, pat, path, settled, ty, upkeep,
};

verus! {

pub proof fn lemma_link_params(
    linked: Seq<TyModel>,
    params: Seq<TyModel>,
    actual: Seq<TyModel>,
)
    requires
        settled::all_variable_free(linked),
        settled::all_variable_free(actual),
    ensures
        settled::all_variable_free(path::link_params(linked, params, actual)),
    decreases params.len(),
{
    if params.len() > 0 && actual.len() > 0 {
        let next = match params[0] {
            TyModel::Param { idx, .. } => if (idx as int) < linked.len() {
                linked.update(idx as int, actual[0])
            } else {
                linked
            },
            _ => linked,
        };
        assert forall|i: int| 0 <= i < next.len() implies settled::variable_free(
            #[trigger] next[i],
        ) by {
            assert(next[i] == linked[i] || next[i] == actual[0]);
        }
        lemma_link_params(next, params.skip(1), actual.skip(1));
    }
}

/// To replace type parameters by types without variables brings no variables in.
pub proof fn lemma_subst_free(t: TyModel, substs: Seq<TyModel>)
    requires
        settled::variable_free(t),
        settled::all_variable_free(substs),
    ensures
        settled::variable_free(ty::subst(t, substs)),
{
    let none = Seq::<Kind>::empty();
    settled::lemma_free_well_kinded(t, none);
    upkeep::lemma_all_free_well_kinded(substs, none);
    upkeep::lemma_subst_well_kinded(t, substs, none);
    settled::lemma_kindless_free(ty::subst(t, substs));
}

pub proof fn lemma_walk<D: HirDatabase>(
    env: Env<D>,
    s: Model,
    ks: Seq<Kind>,
    krate: Option<Crate>,
    path: Path,
    id: ExprOrPatId,
    start: nat,
    i: nat,
    at: (Resolution, Option<TyModel>),
)
    requires
        upkeep::faithful(env.db),
        upkeep::sound(s, ks),
        at.1 matches Some(t) ==> settled::variable_free(t),
    ensures
        match path::walk(env, s, krate, path, id, start, i, at) {
            Ok((after, found)) => {
                &&& upkeep::keeps(s, ks, after, ks)
                &&& found matches Some((_, Some(t))) ==> settled::variable_free(t)
            },
            Err(e) => e == InferError::PathIndex && start == 0 && i < path.segments@.len(),
        },
    decreases path.segments@.len() - i,
{
    upkeep::lemma_keeps_same(s, ks);
    if i < path.segments@.len() {
        if let Resolution::Def(def) = at.0 {
            if let Some(typable) = defs::typable_def(def) {
                if start > 0 {
                    let base = path::segment_base(env, path, i, typable);
                    let declared = env.db.type_of_def(typable, Namespace::Types);
                    let substs = env.db.segment_substs(
                        env.resolver(),
                        path.segments@[i - 1],
                        typable,
                    );
                    lemma_subst_free(declared, substs);
                    if let Some(k) = krate {
                        if let Some(item) = path::matching_item(
                            env.db,
                            env.db.items_of_type(base, k),
                            path.segments@[i as int].name@,
                        ) {
                            let next = Model {
                                assoc_resolutions: s.assoc_resolutions.insert(id, item),
                                ..s
                            };
                            upkeep::lemma_same_types(s, ks, next);
                            let there = (Resolution::Def(path::item_def(item)), Some(base));
                            lemma_walk(env, next, ks, krate, path, id, start, i + 1, there);
                            if let Ok((after, _)) = path::walk(
                                env,
                                next,
                                krate,
                                path,
                                id,
                                start,
                                i + 1,
                                there,
                            ) {
                                upkeep::lemma_keeps_trans(s, ks, next, ks, after, ks);
                            }
                        }
                    }
                }
            }
        }
    }
}

pub proof fn lemma_value_ty<D: HirDatabase>(
    env: Env<D>,
    s: Model,
    ks: Seq<Kind>,
    path: Path,
    at: (Resolution, Option<TyModel>),
) -> (longer: Seq<Kind>)
    requires
        upkeep::faithful(env.db),
        upkeep::sound(s, ks),
        at.1 matches Some(t) ==> settled::variable_free(t),
    ensures
        match path::value_ty(env, s, path, at) {
            Ok((after, found)) => {
                &&& upkeep::keeps(s, ks, after, longer)
                &&& found matches Some(t) ==> kinds::well_kinded(t, longer) && settled::no_known(
                    after.vars,
                    t,
                )
            },
            Err(e) => upkeep::has_cause(env, e),
        },
{
    upkeep::lemma_keeps_same(s, ks);
    match at.0 {
        Resolution::Def(def) => {
            if let Some(typable) = defs::typable_def(def) {
                if let Ok(self_substs) = path::self_types(env.db, def, at.1) {
                    let declared = env.db.type_of_def(typable, Namespace::Values);
                    if let Some(substs) = self_substs {
                        lemma_self_types(env, def, at.1);
                        lemma_subst_free(declared, substs);
                    }
                    let t = path::maybe_subst(declared, self_substs);
                    let substs = env.db.path_substs(env.resolver(), path, typable);
                    lemma_subst_free(t, substs);
                    let t = ty::subst(t, substs);
                    settled::lemma_free_well_kinded(t, ks);
                    upkeep::lemma_insert_free_in(s, ks, t);
                    upkeep::lemma_insert_in(s, ks, t)
                } else {
                    ks
                }
            } else {
                ks
            }
        },
        Resolution::LocalBinding(p) => {
            if s.type_of_pat.contains_key(p.0) {
                upkeep::lemma_recorded_pat(s, ks, p);
                upkeep::lemma_resolved_in(env.db, s, ks, s.type_of_pat[p.0]);
            }
            ks
        },
        _ => ks,
    }
}

pub proof fn lemma_self_types<D: HirDatabase>(env: Env<D>, def: ModuleDef, actual: Option<TyModel>)
    requires
        actual matches Some(t) ==> settled::variable_free(t),
    ensures
        match path::self_types(env.db, def, actual) {
            Ok(Some(substs)) => settled::all_variable_free(substs),
            Ok(None) => true,
            Err(e) => upkeep::has_cause(env, e),
        },
{
    if let (ModuleDef::Function(func), Some(actual)) = (def, actual) {
        if let (Ok(n), Some(target)) = (
            db::counted(env.db.fn_generics_of(func).parent_total()),
            env.db.impl_target_of(func),
        ) {
            if let (Some(params), Some(args)) = (ty::substs_of(target), ty::substs_of(actual)) {
                lemma_link_params(
                    Seq::new(n as nat, |i: int| TyModel::Unknown),
                    params,
                    args,
                );
            }
        }
    }
}

/// The type of a path speaks of variables that there are.
pub proof fn lemma_path_ty<D: HirDatabase>(
    env: Env<D>,
    s: Model,
    ks: Seq<Kind>,
    resolver: Resolver,
    path: Path,
    id: ExprOrPatId,
) -> (longer: Seq<Kind>)
    requires
        upkeep::faithful(env.db),
        upkeep::sound(s, ks),
    ensures
        match path::path_ty(env, s, resolver, path, id) {
            Ok((after, found)) => {
                &&& upkeep::keeps(s, ks, after, longer)
                &&& found matches Some(t) ==> kinds::well_kinded(t, longer) && settled::no_known(
                    after.vars,
                    t,
                )
            },
            Err(e) => upkeep::has_cause(env, e),
        },
{
    reveal(path::path_ty);
    upkeep::lemma_keeps_same(s, ks);
    let found = env.db.path_resolution(resolver, path);
    let (first, start) = match found.remaining_index {
        None => (found.def.values, path.segments@.len()),
        Some(i) => (found.def.types, i as nat),
    };
    if let Some(first) = first {
        let krate = env.db.crate_of(resolver);
        lemma_walk(env, s, ks, krate, path, id, start, start, (first, None));
        if let Ok((mid, Some(at))) = path::walk(
            env,
            s,
            krate,
            path,
            id,
            start,
            start,
            (first, None),
        ) {
            let longer = lemma_value_ty(env, mid, ks, path, at);
            if let Ok((after, _)) = path::value_ty(env, mid, path, at) {
                upkeep::lemma_keeps_trans(s, ks, mid, ks, after, longer);
                longer
            } else {
                ks
            }
        } else {
            ks
        }
    } else {
        ks
    }
}

/// The type of a variant that a path names speaks of variables that there are.
pub proof fn lemma_variant_of_path<D: HirDatabase>(
    env: Env<D>,
    s: Model,
    ks: Seq<Kind>,
    path: Option<Path>,
) -> (longer: Seq<Kind>)
    requires
        upkeep::faithful(env.db),
        upkeep::sound(s, ks),
    ensures
        match path::variant_of_path(env, s, path) {
            Ok((after, (t, _))) => {
                &&& upkeep::keeps(s, ks, after, longer)
                &&& kinds::well_kinded(t, longer)
            },
            Err(e) => upkeep::has_cause(env, e),
        },
{
    reveal(path::variant_of_path);
    upkeep::lemma_keeps_same(s, ks);
    if let Some(path) = path {
        if let Some(Resolution::Def(def)) = env.db.full_path_resolution(
            env.resolver(),
            path,
        ).types {
            match defs::typable_def(def) {
                Some(TypableDef::Struct(strukt)) => {
                    let substs = env.db.path_substs(
                        env.resolver(),
                        path,
                        TypableDef::Struct(strukt),
                    );
                    let declared = env.db.struct_type(strukt);
                    upkeep::lemma_all_free_well_kinded(substs, ks);
                    settled::lemma_free_well_kinded(declared, ks);
                    upkeep::lemma_insert_in(s, ks, ty::with_params(declared, substs))
                },
                Some(TypableDef::EnumVariant(variant)) => {
                    let substs = env.db.path_substs(
                        env.resolver(),
                        path,
                        TypableDef::EnumVariant(variant),
                    );
                    let declared = env.db.enum_type(env.db.enum_of(variant));
                    upkeep::lemma_all_free_well_kinded(substs, ks);
                    settled::lemma_free_well_kinded(declared, ks);
                    upkeep::lemma_insert_in(s, ks, ty::with_params(declared, substs))
                },
                _ => ks,
            }
        } else {
            ks
        }
    } else {
        ks
    }
}

pub proof fn lemma_behind_references(t: TyModel, mode: BindingMode, ks: Seq<Kind>)
    requires
        kinds::well_kinded(t, ks),
    ensures
        match pat::behind_references(t, mode) {
            Ok((inner, _)) => kinds::well_kinded(inner, ks),
            Err(e) => upkeep::is_expected(e),
        },
    decreases t,
{
    if let TyModel::Apply { ctor: TypeCtor::Ref(m), params } = t {
        if params.len() == 1 {
            assert(kinds::well_kinded(params[0], ks));
            lemma_behind_references(params[0], pat::mode_behind(mode, m), ks);
        }
    }
}

/// The type of a field speaks of variables that there are.
pub proof fn lemma_field_expectation<D: HirDatabase>(
    db: &D,
    ks: Seq<Kind>,
    def: Option<VariantDef>,
    name: Seq<char>,
    substs: Seq<TyModel>,
)
    requires
        upkeep::faithful(db),
        kinds::all_well_kinded(substs, ks),
    ensures
        kinds::well_kinded(pat::field_expectation(db, def, name, substs), ks),
{
    let declared = match def {
        Some(def) => match db.field_named(def, name) {
            Some(field) => db.field_type(field),
            None => TyModel::Unknown,
        },
        None => TyModel::Unknown,
    };
    settled::lemma_free_well_kinded(declared, ks);
    upkeep::lemma_subst_well_kinded(declared, substs, ks);
}

/// Whether a step on a pattern keeps what it should, and the type that it gives is not
/// unknown and has no variables with known types in it.
pub open spec fn pat_kept<D: HirDatabase>(
    env: Env<D>,
    s: Model,
    ks: Seq<Kind>,
    p: PatId,
    expected: TyModel,
    mode: BindingMode,
    longer: Seq<Kind>,
) -> bool {
    match pat::pat_ty(env, s, p, expected, mode) {
        Ok((after, t)) => {
            &&& upkeep::keeps(s, ks, after, longer)
            &&& kinds::well_kinded(t, longer)
            &&& settled::no_known(after.vars, t)
            &&& t != TyModel::Unknown
        },
        Err(e) => upkeep::has_cause(env, e),
    }
}

pub proof fn lemma_record_pat<D: HirDatabase>(
    env: Env<D>,
    s: Model,
    ks: Seq<Kind>,
    p: PatId,
    t: TyModel,
    expected: TyModel,
) -> (longer: Seq<Kind>)
    requires
        upkeep::faithful(env.db),
        upkeep::sound(s, ks),
        kinds::well_kinded(t, ks),
        kinds::well_kinded(expected, ks),
    ensures
        match pat::record_pat(env, s, p, t, expected) {
            Ok((after, u)) => {
                &&& upkeep::keeps(s, ks, after, longer)
                &&& kinds::well_kinded(u, longer)
                &&& settled::no_known(after.vars, u)
                &&& u != TyModel::Unknown
            },
            Err(e) => upkeep::has_cause(env, e),
        },
{
    reveal(pat::record_pat);
    let longer = upkeep::lemma_insert_shallow_in(s, ks, t);
    if let Ok((s1, t1)) = context::insert_shallow_in(s, t) {
        kinds::lemma_well_kinded_extends(expected, ks, longer);
        upkeep::lemma_unify_in(s1, longer, t1, expected);
        if let Ok((s2, _)) = context::unify_in(s1, t1, expected) {
            upkeep::lemma_keeps_trans(s, ks, s1, longer, s2, longer);
            upkeep::lemma_resolved_in(env.db, s2, longer, t1);
            if let Ok((s3, u)) = context::resolved(env.db, s2, t1) {
                upkeep::lemma_keeps_trans(s, ks, s2, longer, s3, longer);
                upkeep::lemma_write_pat_ty(s3, longer, p, u);
                let after = Model { type_of_pat: s3.type_of_pat.insert(p.0, u), ..s3 };
                upkeep::lemma_keeps_trans(s, ks, s3, longer, after, longer);
            }
        }
    }
    longer
}

pub proof fn lemma_record_binding<D: HirDatabase>(
    env: Env<D>,
    s: Model,
    ks: Seq<Kind>,
    p: PatId,
    mode: BindingMode,
    inner: TyModel,
) -> (longer: Seq<Kind>)
    requires
        upkeep::faithful(env.db),
        upkeep::sound(s, ks),
        kinds::well_kinded(inner, ks),
    ensures
        match pat::record_binding(env, s, p, mode, inner) {
            Ok((after, u)) => {
                &&& upkeep::keeps(s, ks, after, longer)
                &&& kinds::well_kinded(u, longer)
                &&& settled::no_known(after.vars, u)
                &&& u != TyModel::Unknown
            },
            Err(e) => upkeep::has_cause(env, e),
        },
{
    reveal(pat::record_binding);
    let longer = upkeep::lemma_insert_shallow_in(s, ks, inner);
    if let Ok((s1, t1)) = context::insert_shallow_in(s, inner) {
        upkeep::lemma_resolved_in(env.db, s1, longer, t1);
        if let Ok((s2, u)) = context::resolved(env.db, s1, t1) {
            upkeep::lemma_keeps_trans(s, ks, s1, longer, s2, longer);
            let bound = pat::bound_ty(mode, u);
            assert(kinds::well_kinded(bound, longer));
            upkeep::lemma_write_pat_ty(s2, longer, p, bound);
            let after = Model { type_of_pat: s2.type_of_pat.insert(p.0, bound), ..s2 };
            upkeep::lemma_keeps_trans(s, ks, s2, longer, after, longer);
        }
    }
    longer
}

/// What inferring a pattern keeps.
pub proof fn lemma_pat_ty<D: HirDatabase>(
    env: Env<D>,
    s: Model,
    ks: Seq<Kind>,
    p: PatId,
    expected: TyModel,
    mode: BindingMode,
) -> (longer: Seq<Kind>)
    requires
        upkeep::faithful(env.db),
        env.body.wf(),
        p.0 < env.body.pat_seq().len(),
        upkeep::sound(s, ks),
        kinds::well_kinded(expected, ks),
    ensures
        pat_kept(env, s, ks, p, expected, mode, longer),
    decreases body::pat_limit(env.body.pat_seq(), p), 0nat, p.0, 1nat, 0nat,
{
    let node = env.body.pat_seq()[p.0 as int];
    let subs = body::subpats(node);
    body::lemma_parts_inside(env.body.expr_seq().len(), env.body.pat_seq(), p);
    upkeep::lemma_keeps_same(s, ks);
    lemma_behind_references(expected, mode, ks);
    if let Ok((expected, mode)) = pat::pat_expectation(node, expected, mode) {
        match node {
            Pat::Bind { mode: annotation, subpat, .. } => {
                let own_mode = if annotation is Unannotated {
                    mode
                } else {
                    pat::annotated_mode(annotation)
                };
                match subpat {
                    None => lemma_record_binding(env, s, ks, p, own_mode, expected),
                    Some(sub) => {
                        assert(subs[0] == sub);
                        let mid = lemma_pat_ty(env, s, ks, sub, expected, mode);
                        if let Ok((s1, inner)) = pat::pat_ty(env, s, sub, expected, mode) {
                            let longer = lemma_record_binding(env, s1, mid, p, own_mode, inner);
                            if let Ok((after, _)) = pat::record_binding(
                                env,
                                s1,
                                p,
                                own_mode,
                                inner,
                            ) {
                                upkeep::lemma_keeps_trans(s, ks, s1, mid, after, longer);
                            }
                            longer
                        } else {
                            ks
                        }
                    },
                }
            },
            Pat::Tuple(args) => {
                let fields = match ty::tuple_fields(expected) {
                    Some(fields) => fields,
                    None => Seq::empty(),
                };
                let mid = lemma_tuple_pats(env, s, ks, p, args@, fields, mode);
                if let Ok((s1, params)) = pat::tuple_pats(env, s, p, args@, fields, mode) {
                    kinds::lemma_well_kinded_extends(expected, ks, mid);
                    let t = TyModel::Apply { ctor: TypeCtor::Tuple, params };
                    lemma_record_after(env, s, ks, s1, mid, p, t, expected)
                } else {
                    ks
                }
            },
            Pat::Ref { pat: sub, mutability } => {
                if let Ok(behind) = ty::reference(expected) {
                    let inner = match behind {
                        Some((inner, _)) => inner,
                        None => TyModel::Unknown,
                    };
                    assert(kinds::well_kinded(inner, ks));
                    assert(subs[0] == sub);
                    let mid = lemma_pat_ty(env, s, ks, sub, inner, mode);
                    if let Ok((s1, t1)) = pat::pat_ty(env, s, sub, inner, mode) {
                        kinds::lemma_well_kinded_extends(expected, ks, mid);
                        let t = ty::apply_one(TypeCtor::Ref(mutability), t1);
                        lemma_record_after(env, s, ks, s1, mid, p, t, expected)
                    } else {
                        ks
                    }
                } else {
                    ks
                }
            },
            Pat::TupleStruct { path, args } => {
                let fields = pat::numbered(args@);
                assert forall|i: int| 0 <= i < fields.len() implies body::pat_inside(
                    env.body.pat_seq(),
                    p,
                    (#[trigger] fields[i]).1,
                ) by {
                    assert(fields[i].1 == subs[i]);
                }
                let mid = lemma_variant_pat(env, s, ks, p, path, fields, expected, mode);
                if let Ok((s1, t)) = pat::variant_pat(env, s, p, path, fields, expected, mode) {
                    kinds::lemma_well_kinded_extends(expected, ks, mid);
                    lemma_record_after(env, s, ks, s1, mid, p, t, expected)
                } else {
                    ks
                }
            },
            Pat::Struct { path, args } => {
                let fields = pat::named(args@);
                assert forall|i: int| 0 <= i < fields.len() implies body::pat_inside(
                    env.body.pat_seq(),
                    p,
                    (#[trigger] fields[i]).1,
                ) by {
                    assert(fields[i].1 == subs[i]);
                }
                let mid = lemma_variant_pat(env, s, ks, p, path, fields, expected, mode);
                if let Ok((s1, t)) = pat::variant_pat(env, s, p, path, fields, expected, mode) {
                    kinds::lemma_well_kinded_extends(expected, ks, mid);
                    lemma_record_after(env, s, ks, s1, mid, p, t, expected)
                } else {
                    ks
                }
            },
            Pat::Path(path) => {
                let id = ExprOrPatId::PatId(p);
                let mid = lemma_path_ty(env, s, ks, env.resolver(), path, id);
                if let Ok((s1, found)) = path::path_ty(env, s, env.resolver(), path, id) {
                    kinds::lemma_well_kinded_extends(expected, ks, mid);
                    let t = match found {
                        Some(t) => t,
                        None => TyModel::Unknown,
                    };
                    lemma_record_after(env, s, ks, s1, mid, p, t, expected)
                } else {
                    ks
                }
            },
            Pat::Slice { .. } => {
                let mid = lemma_tuple_pats(env, s, ks, p, subs, Seq::empty(), mode);
                if let Ok((s1, _)) = pat::tuple_pats(env, s, p, subs, Seq::empty(), mode) {
                    kinds::lemma_well_kinded_extends(expected, ks, mid);
                    lemma_record_after(env, s, ks, s1, mid, p, TyModel::Unknown, expected)
                } else {
                    ks
                }
            },
            Pat::Range { .. } | Pat::Lit(_) => {
                let exprs = body::pat_exprs(node);
                let mid = lemma_after_pat_exprs(env, s, ks, p, exprs);
                if let Ok(s1) = pat::after_pat_exprs(env, s, p, exprs) {
                    kinds::lemma_well_kinded_extends(expected, ks, mid);
                    lemma_record_after(env, s, ks, s1, mid, p, TyModel::Unknown, expected)
                } else {
                    ks
                }
            },
            Pat::Missing | Pat::Wild => {
                lemma_record_pat(env, s, ks, p, TyModel::Unknown, expected)
            },
        }
    } else {
        ks
    }
}

/// The last step on a pattern, after some others.
pub proof fn lemma_record_after<D: HirDatabase>(
    env: Env<D>,
    s: Model,
    ks: Seq<Kind>,
    s1: Model,
    mid: Seq<Kind>,
    p: PatId,
    t: TyModel,
    expected: TyModel,
) -> (longer: Seq<Kind>)
    requires
        upkeep::faithful(env.db),
        upkeep::keeps(s, ks, s1, mid),
        kinds::well_kinded(t, mid),
        kinds::well_kinded(expected, mid),
    ensures
        match pat::record_pat(env, s1, p, t, expected) {
            Ok((after, u)) => {
                &&& upkeep::keeps(s, ks, after, longer)
                &&& kinds::well_kinded(u, longer)
                &&& settled::no_known(after.vars, u)
                &&& u != TyModel::Unknown
            },
            Err(e) => upkeep::has_cause(env, e),
        },
{
    let longer = lemma_record_pat(env, s1, mid, p, t, expected);
    if let Ok((after, _)) = pat::record_pat(env, s1, p, t, expected) {
        upkeep::lemma_keeps_trans(s, ks, s1, mid, after, longer);
    }
    longer
}

pub proof fn lemma_tuple_pats<D: HirDatabase>(
    env: Env<D>,
    s: Model,
    ks: Seq<Kind>,
    parent: PatId,
    pats: Seq<PatId>,
    fields: Seq<TyModel>,
    mode: BindingMode,
) -> (longer: Seq<Kind>)
    requires
        upkeep::faithful(env.db),
        env.body.wf(),
        parent.0 <= env.body.pat_seq().len(),
        body::all_pats_inside(env.body.pat_seq(), parent, pats),
        upkeep::sound(s, ks),
        kinds::all_well_kinded(fields, ks),
    ensures
        upkeep::keeps_tys_in(
            env,
            s,
            ks,
            pat::tuple_pats(env, s, parent, pats, fields, mode),
            longer,
        ),
    decreases body::pat_limit(env.body.pat_seq(), parent), 0nat, parent.0, 0nat, pats.len(),
{
    upkeep::lemma_keeps_same(s, ks);
    if pats.len() == 0 {
        ks
    } else {
        let (expected, rest) = if fields.len() > 0 {
            (fields[0], fields.skip(1))
        } else {
            (TyModel::Unknown, fields)
        };
        let mid = lemma_pat_ty(env, s, ks, pats[0], expected, mode);
        if let Ok((s1, t)) = pat::pat_ty(env, s, pats[0], expected, mode) {
            let others = pats.skip(1);
            kinds::lemma_all_well_kinded_extends(rest, ks, mid);
            let longer = lemma_tuple_pats(env, s1, mid, parent, others, rest, mode);
            if let Ok((after, ts)) = pat::tuple_pats(env, s1, parent, others, rest, mode) {
                upkeep::lemma_keeps_trans(s, ks, s1, mid, after, longer);
                kinds::lemma_well_kinded_extends(t, mid, longer);
                let all = seq![t] + ts;
                assert forall|i: int| 0 <= i < all.len() implies kinds::well_kinded(
                    #[trigger] all[i],
                    longer,
                ) by {
                    if i > 0 {
                        assert(all[i] == ts[i - 1]);
                    }
                }
            }
            longer
        } else {
            ks
        }
    }
}

pub proof fn lemma_after_pat_exprs<D: HirDatabase>(
    env: Env<D>,
    s: Model,
    ks: Seq<Kind>,
    parent: PatId,
    exprs: Seq<ExprId>,
) -> (longer: Seq<Kind>)
    requires
        upkeep::faithful(env.db),
        env.body.wf(),
        body::all_exprs_inside(env.body.pat_seq(), parent, exprs),
        body::all_exprs_below(exprs, env.body.expr_seq().len()),
        upkeep::sound(s, ks),
    ensures
        upkeep::keeps_all_in(env, s, ks, pat::after_pat_exprs(env, s, parent, exprs), longer),
    decreases body::pat_limit(env.body.pat_seq(), parent), 0nat, parent.0, 0nat, exprs.len(),
{
    upkeep::lemma_keeps_same(s, ks);
    if exprs.len() == 0 {
        ks
    } else {
        let mid = expr_upkeep::lemma_expr_ty(env, s, ks, exprs[0], TyModel::Unknown);
        if let Ok((s1, _)) = expr::expr_ty(env, s, exprs[0], TyModel::Unknown) {
            let rest = exprs.skip(1);
            let longer = lemma_after_pat_exprs(env, s1, mid, parent, rest);
            if let Ok(after) = pat::after_pat_exprs(env, s1, parent, rest) {
                upkeep::lemma_keeps_trans(s, ks, s1, mid, after, longer);
            }
            longer
        } else {
            ks
        }
    }
}

/// What inferring a pattern that names a variant keeps.
pub proof fn lemma_variant_pat<D: HirDatabase>(
    env: Env<D>,
    s: Model,
    ks: Seq<Kind>,
    parent: PatId,
    path: Option<Path>,
    fields: Seq<(Seq<char>, PatId)>,
    expected: TyModel,
    mode: BindingMode,
) -> (longer: Seq<Kind>)
    requires
        upkeep::faithful(env.db),
        env.body.wf(),
        parent.0 <= env.body.pat_seq().len(),
        pat::fields_inside(env.body.pat_seq(), parent, fields),
        upkeep::sound(s, ks),
        kinds::well_kinded(expected, ks),
    ensures
        upkeep::keeps_ty_in(
            env,
            s,
            ks,
            pat::variant_pat(env, s, parent, path, fields, expected, mode),
            longer,
        ),
        pat::variant_pat(env, s, parent, path, fields, expected, mode) matches Ok((after, t))
            ==> settled::no_known(after.vars, t),
    decreases body::pat_limit(env.body.pat_seq(), parent), 0nat, parent.0, 0nat, fields.len() + 1,
{
    let mid = lemma_variant_of_path(env, s, ks, path);
    if let Ok((s1, (t, def))) = path::variant_of_path(env, s, path) {
        kinds::lemma_well_kinded_extends(expected, ks, mid);
        upkeep::lemma_unify_in(s1, mid, t, expected);
        if let Ok((s2, _)) = context::unify_in(s1, t, expected) {
            upkeep::lemma_keeps_trans(s, ks, s1, mid, s2, mid);
            let substs = ty::params_of(t);
            assert(kinds::all_well_kinded(substs, mid));
            let longer = lemma_field_pats(env, s2, mid, parent, fields, def, substs, mode);
            if let Ok(after) = pat::field_pats(env, s2, parent, fields, def, substs, mode) {
                upkeep::lemma_keeps_trans(s, ks, s2, mid, after, longer);
                kinds::lemma_well_kinded_extends(t, mid, longer);
                upkeep::lemma_resolved_in(env.db, after, longer, t);
                if let Ok((last, _)) = context::resolved(env.db, after, t) {
                    upkeep::lemma_keeps_trans(s, ks, after, longer, last, longer);
                }
            }
            longer
        } else {
            ks
        }
    } else {
        ks
    }
}

pub proof fn lemma_field_pats<D: HirDatabase>(
    env: Env<D>,
    s: Model,
    ks: Seq<Kind>,
    parent: PatId,
    fields: Seq<(Seq<char>, PatId)>,
    def: Option<VariantDef>,
    substs: Seq<TyModel>,
    mode: BindingMode,
) -> (longer: Seq<Kind>)
    requires
        upkeep::faithful(env.db),
        env.body.wf(),
        parent.0 <= env.body.pat_seq().len(),
        pat::fields_inside(env.body.pat_seq(), parent, fields),
        upkeep::sound(s, ks),
        kinds::all_well_kinded(substs, ks),
    ensures
        upkeep::keeps_all_in(
            env,
            s,
            ks,
            pat::field_pats(env, s, parent, fields, def, substs, mode),
            longer,
        ),
    decreases body::pat_limit(env.body.pat_seq(), parent), 0nat, parent.0, 0nat, fields.len(),
{
    upkeep::lemma_keeps_same(s, ks);
    if fields.len() == 0 {
        ks
    } else {
        let (name, p) = fields[0];
        let expected = pat::field_expectation(env.db, def, name, substs);
        lemma_field_expectation(env.db, ks, def, name, substs);
        let mid = lemma_pat_ty(env, s, ks, p, expected, mode);
        if let Ok((s1, _)) = pat::pat_ty(env, s, p, expected, mode) {
            let rest = fields.skip(1);
            assert forall|i: int| 0 <= i < rest.len() implies body::pat_inside(
                env.body.pat_seq(),
                parent,
                (#[trigger] rest[i]).1,
            ) by {
                assert(rest[i] == fields[i + 1]);
            }
            kinds::lemma_all_well_kinded_extends(substs, ks, mid);
            let longer = lemma_field_pats(env, s1, mid, parent, rest, def, substs, mode);
            if let Ok(after) = pat::field_pats(env, s1, parent, rest, def, substs, mode) {
                upkeep::lemma_keeps_trans(s, ks, s1, mid, after, longer);
            }
            longer
        } else {
            ks
        }
    }
}

} // verus!
