//! What the steps on paths and patterns record.

use vstd::prelude::*;

use crate::body::{Pat, Path};
use crate::context::{Env, Model};
use crate::db::HirDatabase;
use crate::defs::{
    Crate, ExprId, ExprOrPatId, Namespace, PatId, Resolution, Resolver, VariantDef,
};
use crate::pat::BindingMode;
use crate::ty::{TyModel, TypeCtor};
use crate::{body, context, defs, expr, expr_records, pat, path, records, ty};

verus! {

proof fn lemma_walk<D: HirDatabase>(
    env: Env<D>,
    s: Model,
    krate: Option<Crate>,
    path: Path,
    id: ExprOrPatId,
    start: nat,
    i: nat,
    at: (Resolution, Option<TyModel>),
)
    requires
        records::is_path(*env.body, id),
    ensures
        records::ran(*env.body, s, path::walk(env, s, krate, path, id, start, i, at)),
    decreases path.segments@.len() - i,
{
    broadcast use records::group_adds;

    records::lemma_same_records(*env.body, s, s);
    if i < path.segments@.len() {
        if let (Resolution::Def(def), Some(k)) = (at.0, krate) {
            if let Some(typable) = defs::typable_def(def) {
                let base = path::segment_base(env, path, i, typable);
                if let Some(item) = path::matching_item(
                    env.db,
                    env.db.items_of_type(base, k),
                    path.segments@[i as int].name@,
                ) {
                    records::lemma_write_assoc(*env.body, s, id, item);
                    let next = Model {
                        assoc_resolutions: s.assoc_resolutions.insert(id, item),
                        ..s
                    };
                    let there = (Resolution::Def(path::item_def(item)), Some(base));
                    lemma_walk(env, next, krate, path, id, start, i + 1, there);
                }
            }
        }
    }
}

proof fn lemma_value_ty<D: HirDatabase>(
    env: Env<D>,
    s: Model,
    path: Path,
    at: (Resolution, Option<TyModel>),
)
    ensures
        records::ran(*env.body, s, path::value_ty(env, s, path, at)),
{
    records::lemma_same_records(*env.body, s, s);
    match at.0 {
        Resolution::Def(def) => {
            if let Some(typable) = defs::typable_def(def) {
                if let Ok(self_substs) = path::self_types(env.db, def, at.1) {
                    let declared = env.db.type_of_def(typable, Namespace::Values);
                    let t = path::maybe_subst(declared, self_substs);
                    let substs = env.db.path_substs(env.resolver(), path, typable);
                    records::lemma_insert_in(*env.body, s, ty::subst(t, substs));
                }
            }
        },
        Resolution::LocalBinding(p) => {
            records::lemma_resolved(*env.body, env.db, s, s.type_of_pat[p.0]);
        },
        _ => {},
    }
}

/// What the look at a path records.
pub proof fn lemma_path_ty<D: HirDatabase>(
    env: Env<D>,
    s: Model,
    resolver: Resolver,
    path: Path,
    id: ExprOrPatId,
)
    requires
        records::is_path(*env.body, id),
    ensures
        records::ran(*env.body, s, path::path_ty(env, s, resolver, path, id)),
{
    broadcast use records::group_adds;

    reveal(path::path_ty);
    records::lemma_same_records(*env.body, s, s);
    let found = env.db.path_resolution(resolver, path);
    let (first, start) = match found.remaining_index {
        None => (found.def.values, path.segments@.len()),
        Some(i) => (found.def.types, i as nat),
    };
    if let Some(first) = first {
        let krate = env.db.crate_of(resolver);
        lemma_walk(env, s, krate, path, id, start, start, (first, None));
        if let Ok((mid, Some(at))) = path::walk(
            env,
            s,
            krate,
            path,
            id,
            start,
            start,
            (first, None),
        ) {
            lemma_value_ty(env, mid, path, at);
        }
    }
}

/// What the look at a path to a variant records.
pub proof fn lemma_variant_of_path<D: HirDatabase>(env: Env<D>, s: Model, path: Option<Path>)
    ensures
        records::ran(*env.body, s, path::variant_of_path(env, s, path)),
{
    reveal(path::variant_of_path);
    if let Ok((after, _)) = path::variant_of_path(env, s, path) {
        records::lemma_same_records(*env.body, s, after);
    }
}

proof fn lemma_record_pat<D: HirDatabase>(
    env: Env<D>,
    s: Model,
    p: PatId,
    t: TyModel,
    expected: TyModel,
)
    requires
        records::pat_parts_seen(*env.body, s, p),
    ensures
        pat::record_pat(env, s, p, t, expected) matches Ok((after, _)) ==> records::adds(
            *env.body,
            s,
            after,
        ) && records::pat_seen(after, p),
{
    broadcast use records::group_adds;

    reveal(pat::record_pat);
    records::lemma_insert_shallow_in(*env.body, s, t);
    if let Ok((s1, t1)) = context::insert_shallow_in(s, t) {
        records::lemma_unify_in(*env.body, s1, t1, expected);
        if let Ok((s2, _)) = context::unify_in(s1, t1, expected) {
            records::lemma_resolved(*env.body, env.db, s2, t1);
            if let Ok((s3, u)) = context::resolved(env.db, s2, t1) {
                records::lemma_parts_later(*env.body, s, s3, ExprId(0), p);
                records::lemma_write_pat_ty(*env.body, s3, p, u);
            }
        }
    }
}

proof fn lemma_record_binding<D: HirDatabase>(
    env: Env<D>,
    s: Model,
    p: PatId,
    mode: BindingMode,
    inner: TyModel,
)
    requires
        records::pat_parts_seen(*env.body, s, p),
    ensures
        pat::record_binding(env, s, p, mode, inner) matches Ok((after, _)) ==> records::adds(
            *env.body,
            s,
            after,
        ) && records::pat_seen(after, p),
{
    broadcast use records::group_adds;

    reveal(pat::record_binding);
    records::lemma_insert_shallow_in(*env.body, s, inner);
    if let Ok((s1, t1)) = context::insert_shallow_in(s, inner) {
        records::lemma_resolved(*env.body, env.db, s1, t1);
        if let Ok((s2, u)) = context::resolved(env.db, s1, t1) {
            records::lemma_parts_later(*env.body, s, s2, ExprId(0), p);
            records::lemma_write_pat_ty(*env.body, s2, p, pat::bound_ty(mode, u));
        }
    }
}

/// What inferring a pattern records: nothing is lost, and there is a type for the pattern.
pub proof fn lemma_pat_ty<D: HirDatabase>(
    env: Env<D>,
    s: Model,
    p: PatId,
    expected: TyModel,
    mode: BindingMode,
)
    requires
        env.body.wf(),
        p.0 < env.body.pat_seq().len(),
    ensures
        pat::pat_ty(env, s, p, expected, mode) matches Ok((after, _)) ==> records::adds(
            *env.body,
            s,
            after,
        ) && records::pat_seen(after, p),
    decreases body::pat_limit(env.body.pat_seq(), p), 0nat, p.0, 1nat, 0nat,
{
    broadcast use records::group_adds;

    let node = env.body.pat_seq()[p.0 as int];
    let subs = body::subpats(node);
    body::lemma_parts_inside(env.body.expr_seq().len(), env.body.pat_seq(), p);
    if let Ok((expected, mode)) = pat::pat_expectation(node, expected, mode) {
        match node {
            Pat::Bind { mode: annotation, subpat, .. } => {
                let own_mode = if annotation is Unannotated {
                    mode
                } else {
                    pat::annotated_mode(annotation)
                };
                match subpat {
                    None => {
                        lemma_record_binding(env, s, p, own_mode, expected);
                    },
                    Some(sub) => {
                        assert(subs[0] == sub);
                        lemma_pat_ty(env, s, sub, expected, mode);
                        if let Ok((s1, inner)) = pat::pat_ty(env, s, sub, expected, mode) {
                            lemma_record_binding(env, s1, p, own_mode, inner);
                        }
                    },
                }
            },
            Pat::Tuple(args) => {
                let fields = match ty::tuple_fields(expected) {
                    Some(fields) => fields,
                    None => Seq::empty(),
                };
                lemma_tuple_pats(env, s, p, args@, fields, mode);
                if let Ok((s1, params)) = pat::tuple_pats(env, s, p, args@, fields, mode) {
                    let t = TyModel::Apply { ctor: TypeCtor::Tuple, params };
                    lemma_record_pat(env, s1, p, t, expected);
                }
            },
            Pat::Ref { pat: sub, mutability } => {
                if let Ok(behind) = ty::reference(expected) {
                    let inner = match behind {
                        Some((inner, _)) => inner,
                        None => TyModel::Unknown,
                    };
                    assert(subs[0] == sub);
                    lemma_pat_ty(env, s, sub, inner, mode);
                    if let Ok((s1, t1)) = pat::pat_ty(env, s, sub, inner, mode) {
                        let t = ty::apply_one(TypeCtor::Ref(mutability), t1);
                        lemma_record_pat(env, s1, p, t, expected);
                    }
                }
            },
            Pat::TupleStruct { path, args } => {
                lemma_variant_parts(env, s, p, path, pat::numbered(args@), expected, mode);
            },
            Pat::Struct { path, args } => {
                lemma_variant_parts(env, s, p, path, pat::named(args@), expected, mode);
            },
            Pat::Path(path) => {
                let id = ExprOrPatId::PatId(p);
                lemma_path_ty(env, s, env.resolver(), path, id);
                if let Ok((s1, found)) = path::path_ty(env, s, env.resolver(), path, id) {
                    let t = match found {
                        Some(t) => t,
                        None => TyModel::Unknown,
                    };
                    lemma_record_pat(env, s1, p, t, expected);
                }
            },
            Pat::Slice { .. } => {
                lemma_tuple_pats(env, s, p, subs, Seq::empty(), mode);
                if let Ok((s1, _)) = pat::tuple_pats(env, s, p, subs, Seq::empty(), mode) {
                    lemma_record_pat(env, s1, p, TyModel::Unknown, expected);
                }
            },
            Pat::Range { .. } | Pat::Lit(_) => {
                let exprs = body::pat_exprs(node);
                lemma_after_pat_exprs(env, s, p, exprs);
                if let Ok(s1) = pat::after_pat_exprs(env, s, p, exprs) {
                    lemma_record_pat(env, s1, p, TyModel::Unknown, expected);
                }
            },
            Pat::Missing | Pat::Wild => {
                lemma_record_pat(env, s, p, TyModel::Unknown, expected);
            },
        }
    }
}

/// The same of a pattern that names a variant.
proof fn lemma_variant_parts<D: HirDatabase>(
    env: Env<D>,
    s: Model,
    p: PatId,
    path: Option<Path>,
    fields: Seq<(Seq<char>, PatId)>,
    expected: TyModel,
    mode: BindingMode,
)
    requires
        env.body.wf(),
        p.0 < env.body.pat_seq().len(),
        body::all_pats_inside(
            env.body.pat_seq(),
            p,
            body::subpats(env.body.pat_seq()[p.0 as int]),
        ),
        body::pat_exprs(env.body.pat_seq()[p.0 as int]).len() == 0,
        fields.len() == body::subpats(env.body.pat_seq()[p.0 as int]).len(),
        forall|i: int|
            0 <= i < fields.len() ==> (#[trigger] fields[i]).1 == body::subpats(
                env.body.pat_seq()[p.0 as int],
            )[i],
    ensures
        pat::variant_pat(env, s, p, path, fields, expected, mode) matches Ok((s1, t))
            ==> (pat::record_pat(env, s1, p, t, expected) matches Ok((after, _)) ==> records::adds(
            *env.body,
            s,
            after,
        ) && records::pat_seen(after, p)),
    decreases
            body::pat_limit(env.body.pat_seq(), p),
            0nat,
            p.0,
            0nat,
            fields.len() + 2,
{
    broadcast use records::group_adds;

    let subs = body::subpats(env.body.pat_seq()[p.0 as int]);
    assert forall|i: int| 0 <= i < fields.len() implies body::pat_inside(
        env.body.pat_seq(),
        p,
        (#[trigger] fields[i]).1,
    ) by {
        assert(fields[i].1 == subs[i]);
    }
    lemma_variant_pat(env, s, p, path, fields, expected, mode);
    if let Ok((s1, t)) = pat::variant_pat(env, s, p, path, fields, expected, mode) {
        assert forall|i: int| 0 <= i < subs.len() implies records::pat_seen(
            s1,
            #[trigger] subs[i],
        ) by {
            assert(fields[i].1 == subs[i]);
        }
        lemma_record_pat(env, s1, p, t, expected);
    }
}

proof fn lemma_tuple_pats<D: HirDatabase>(
    env: Env<D>,
    s: Model,
    parent: PatId,
    pats: Seq<PatId>,
    fields: Seq<TyModel>,
    mode: BindingMode,
)
    requires
        env.body.wf(),
        parent.0 <= env.body.pat_seq().len(),
        body::all_pats_inside(env.body.pat_seq(), parent, pats),
    ensures
        pat::tuple_pats(env, s, parent, pats, fields, mode) matches Ok((after, _))
            ==> records::adds(*env.body, s, after) && records::all_pats_seen(after, pats),
    decreases body::pat_limit(env.body.pat_seq(), parent), 0nat, parent.0, 0nat, pats.len(),
{
    broadcast use records::group_adds;

    records::lemma_same_records(*env.body, s, s);
    if pats.len() > 0 {
        let (expected, rest) = if fields.len() > 0 {
            (fields[0], fields.skip(1))
        } else {
            (TyModel::Unknown, fields)
        };
        lemma_pat_ty(env, s, pats[0], expected, mode);
        if let Ok((s1, _)) = pat::pat_ty(env, s, pats[0], expected, mode) {
            lemma_tuple_pats(env, s1, parent, pats.skip(1), rest, mode);
            if let Ok((after, _)) = pat::tuple_pats(env, s1, parent, pats.skip(1), rest, mode) {
                records::lemma_pats_seen_cons(after, pats);
            }
        }
    }
}

proof fn lemma_after_pat_exprs<D: HirDatabase>(
    env: Env<D>,
    s: Model,
    parent: PatId,
    exprs: Seq<ExprId>,
)
    requires
        env.body.wf(),
        body::all_exprs_inside(env.body.pat_seq(), parent, exprs),
        body::all_exprs_below(exprs, env.body.expr_seq().len()),
    ensures
        pat::after_pat_exprs(env, s, parent, exprs) matches Ok(after) ==> records::adds(
            *env.body,
            s,
            after,
        ) && records::all_seen(after, exprs),
    decreases body::pat_limit(env.body.pat_seq(), parent), 0nat, parent.0, 0nat, exprs.len(),
{
    broadcast use records::group_adds;

    records::lemma_same_records(*env.body, s, s);
    if exprs.len() > 0 {
        expr_records::lemma_expr_ty(env, s, exprs[0], TyModel::Unknown);
        if let Ok((s1, _)) = expr::expr_ty(env, s, exprs[0], TyModel::Unknown) {
            lemma_after_pat_exprs(env, s1, parent, exprs.skip(1));
            if let Ok(after) = pat::after_pat_exprs(env, s1, parent, exprs.skip(1)) {
                records::lemma_seen_cons(after, exprs);
            }
        }
    }
}

/// Whether types are recorded for the patterns of fields.
pub open spec fn fields_seen(s: Model, fields: Seq<(Seq<char>, PatId)>) -> bool {
    forall|i: int| 0 <= i < fields.len() ==> records::pat_seen(s, (#[trigger] fields[i]).1)
}

proof fn lemma_variant_pat<D: HirDatabase>(
    env: Env<D>,
    s: Model,
    parent: PatId,
    path: Option<Path>,
    fields: Seq<(Seq<char>, PatId)>,
    expected: TyModel,
    mode: BindingMode,
)
    requires
        env.body.wf(),
        parent.0 <= env.body.pat_seq().len(),
        pat::fields_inside(env.body.pat_seq(), parent, fields),
    ensures
        pat::variant_pat(env, s, parent, path, fields, expected, mode) matches Ok((after, _))
            ==> records::adds(*env.body, s, after) && fields_seen(after, fields),
    decreases body::pat_limit(env.body.pat_seq(), parent), 0nat, parent.0, 0nat, fields.len() + 1,
{
    broadcast use records::group_adds;

    lemma_variant_of_path(env, s, path);
    if let Ok((s1, (t, def))) = path::variant_of_path(env, s, path) {
        records::lemma_unify_in(*env.body, s1, t, expected);
        if let Ok((s2, _)) = context::unify_in(s1, t, expected) {
            let substs = ty::params_of(t);
            lemma_field_pats(env, s2, parent, fields, def, substs, mode);
            if let Ok(s3) = pat::field_pats(env, s2, parent, fields, def, substs, mode) {
                records::lemma_resolved(*env.body, env.db, s3, t);
                if let Ok((after, _)) = context::resolved(env.db, s3, t) {
                    assert forall|i: int| 0 <= i < fields.len() implies records::pat_seen(
                        after,
                        (#[trigger] fields[i]).1,
                    ) by {
                        assert(records::pat_seen(s3, fields[i].1));
                    }
                }
            }
        }
    }
}

proof fn lemma_field_pats<D: HirDatabase>(
    env: Env<D>,
    s: Model,
    parent: PatId,
    fields: Seq<(Seq<char>, PatId)>,
    def: Option<VariantDef>,
    substs: Seq<TyModel>,
    mode: BindingMode,
)
    requires
        env.body.wf(),
        parent.0 <= env.body.pat_seq().len(),
        pat::fields_inside(env.body.pat_seq(), parent, fields),
    ensures
        pat::field_pats(env, s, parent, fields, def, substs, mode) matches Ok(after)
            ==> records::adds(*env.body, s, after) && fields_seen(after, fields),
    decreases body::pat_limit(env.body.pat_seq(), parent), 0nat, parent.0, 0nat, fields.len(),
{
    broadcast use records::group_adds;

    records::lemma_same_records(*env.body, s, s);
    if fields.len() > 0 {
        let (name, p) = fields[0];
        let expected = pat::field_expectation(env.db, def, name, substs);
        lemma_pat_ty(env, s, p, expected, mode);
        if let Ok((s1, _)) = pat::pat_ty(env, s, p, expected, mode) {
            let rest = fields.skip(1);
            assert forall|i: int| 0 <= i < rest.len() implies body::pat_inside(
                env.body.pat_seq(),
                parent,
                (#[trigger] rest[i]).1,
            ) by {
                assert(rest[i] == fields[i + 1]);
            }
            lemma_field_pats(env, s1, parent, rest, def, substs, mode);
            if let Ok(after) = pat::field_pats(env, s1, parent, rest, def, substs, mode) {
                assert forall|i: int| 0 <= i < fields.len() implies records::pat_seen(
                    after,
                    (#[trigger] fields[i]).1,
                ) by {
                    if i > 0 {
                        assert(fields[i] == rest[i - 1]);
                    }
                }
            }
        }
    }
}

} // verus!
