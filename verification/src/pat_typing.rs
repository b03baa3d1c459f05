//! The types recorded for patterns are right.

use vstd::prelude::*;

use crate::body::{Pat, Path};
use crate::context::{Env, Model};
use crate::db::HirDatabase;
use crate::defs::{ExprId, ExprOrPatId, PatId, VariantDef};
use crate::kinds::Kind;
use crate::pat::BindingMode;
use crate::ty::{TyModel, TypeCtor};
use crate::typing::{Expected, Places};
use crate::{
    body, context, expr, expr_typing, expr_upkeep, kinds, leaf_typing, meaning, pat, pat_upkeep,
    path, settled, ty, typing, typing_steps, unify, upkeep,
};

verus! {

/// Whether a pattern has been matched, and what it was found to match is this.
pub open spec fn matched(
    s: Model,
    d: Expected,
    p: PatId,
    x: TyModel,
    m: BindingMode,
    given: TyModel,
) -> bool {
    typing::matches_with(s, d, p, x, m) && d.pats[p.0].given == given
}

/// The place behind the parts of a pattern.
pub open spec fn parts_end(pl: Places, pos: int, node: Pat) -> int {
    typing::next_exprs(
        pl,
        typing::next_pats(pl, pos, typing::inner_pats(node)),
        typing::inner_exprs(node),
    )
}

/// The type recorded for a pattern is right, and so are those recorded for what it is made
/// of.
#[verifier::rlimit(40)]
#[verifier::spinoff_prover]
pub proof fn lemma_pat<D: HirDatabase>(
    env: Env<D>,
    pl: Places,
    s: Model,
    ks: Seq<Kind>,
    d: Expected,
    pos: int,
    p: PatId,
    outer: TyModel,
    mode: BindingMode,
) -> (d2: Expected)
    requires
        typing_steps::ready(env, pl, s, ks, d, pos),
        p.0 < env.body.pat_seq().len(),
        kinds::well_kinded(outer, ks),
        typing::next_pat(pl, pos, p) >= 0,
    ensures
        pat::pat_ty(env, s, p, outer, mode) matches Ok((after, t)) ==> {
            &&& typing_steps::stepped(env, pl, s, d, after, d2, pl.pat_end[p.0])
            &&& matched(after, d2, p, outer, mode, t)
        },
    decreases body::pat_limit(env.body.pat_seq(), p), 0nat, p.0, 1nat, 0nat,
{
    broadcast use {meaning::group_later, typing_steps::group_follows, leaf_typing::group_next};

    let node = env.body.pat_seq()[p.0 as int];
    let start = pl.pat_start[p.0] + 1;
    body::lemma_parts_inside(env.body.expr_seq().len(), env.body.pat_seq(), p);
    pat_upkeep::lemma_behind_references(outer, mode, ks);
    leaf_typing::lemma_meets(node, outer, mode);
    typing_steps::lemma_clear_further(pl, s, d, pos, start);
    let end = parts_end(pl, start, node);
    assert(0 <= end < pl.pat_end[p.0]) by {
        reveal(typing::in_order);
    }
    assert(typing::inner_pats(node) =~= body::subpats(node));
    assert(typing::inner_exprs(node) =~= body::pat_exprs(node));
    if let Ok((x, m)) = pat::pat_expectation(node, outer, mode) {
        if let Pat::Bind { mode: annotation, subpat, .. } = node {
            match subpat {
                None => typing_steps::lemma_binding_recorded(
                    env,
                    pl,
                    s,
                    ks,
                    d,
                    start,
                    p,
                    x,
                    m,
                    annotation,
                    None,
                    x,
                ),
                Some(sub) => {
                    assert(body::subpats(node)[0] == sub);
                    assert(body::subpats(node).skip(1) =~= Seq::empty());
                    reveal_with_fuel(typing::next_pats, 2);
                    assert(end == typing::next_pat(pl, start, sub));
                    let d1 = lemma_pat(env, pl, s, ks, d, start, sub, x, m);
                    let k1 = pat_upkeep::lemma_pat_ty(env, s, ks, sub, x, m);
                    if let Ok((s1, inner)) = pat::pat_ty(env, s, sub, x, m) {
                        typing_steps::lemma_binding_recorded(
                            env,
                            pl,
                            s1,
                            k1,
                            d1,
                            end,
                            p,
                            x,
                            m,
                            annotation,
                            Some(sub),
                            inner,
                        )
                    } else {
                        d
                    }
                },
            }
        } else {
            let d0 = if node is TupleStruct || node is Struct {
                typing_steps::lemma_pattern_met(env, pl, s, d, pos, p, x)
            } else {
                meaning::lemma_narrows_same(s.vars);
                typing_steps::lemma_quiet(env, pl, s, d, s, start);
                d
            };
            let d1 = lemma_pat_rule(env, pl, s, ks, d0, p, x, m);
            let k1 = lemma_pat_rule_upkeep(env, s, ks, p, x, m);
            if let Ok((s1, t)) = pat_rule(env, s, p, x, m) {
                kinds::lemma_well_kinded_extends(x, ks, k1);
                typing_steps::lemma_pat_recorded(
                    env,
                    pl,
                    s1,
                    k1,
                    d1,
                    end,
                    p,
                    outer,
                    mode,
                    t,
                    x,
                    m,
                )
            } else {
                d
            }
        }
    } else {
        d
    }
}

/// What a pattern other than a binding is found to be, before that is held against what is
/// expected.
pub open spec fn pat_rule<D: HirDatabase>(
    env: Env<D>,
    s: Model,
    p: PatId,
    x: TyModel,
    m: BindingMode,
) -> context::Run<TyModel> {
    let node = env.body.pat_seq()[p.0 as int];
    match node {
        Pat::Tuple(args) => {
            let fields = match ty::tuple_fields(x) {
                Some(fields) => fields,
                None => Seq::empty(),
            };
            match pat::tuple_pats(env, s, p, args@, fields, m) {
                Err(e) => Err(e),
                Ok((s, params)) => Ok((s, TyModel::Apply { ctor: TypeCtor::Tuple, params })),
            }
        },
        Pat::Ref { pat: sub, mutability } => match ty::reference(x) {
            Err(e) => Err(e),
            Ok(behind) => {
                let inner = match behind {
                    Some((inner, _)) => inner,
                    None => TyModel::Unknown,
                };
                match pat::pat_ty(env, s, sub, inner, m) {
                    Err(e) => Err(e),
                    Ok((s, t)) => Ok((s, ty::apply_one(TypeCtor::Ref(mutability), t))),
                }
            },
        },
        Pat::TupleStruct { path, args } => pat::variant_pat(
            env,
            s,
            p,
            path,
            pat::numbered(args@),
            x,
            m,
        ),
        Pat::Struct { path, args } => pat::variant_pat(
            env,
            s,
            p,
            path,
            pat::named(args@),
            x,
            m,
        ),
        Pat::Path(path) => match path::path_ty(
            env,
            s,
            env.resolver(),
            path,
            ExprOrPatId::PatId(p),
        ) {
            Err(e) => Err(e),
            Ok((s, Some(t))) => Ok((s, t)),
            Ok((s, None)) => Ok((s, TyModel::Unknown)),
        },
        Pat::Slice { .. } => match pat::tuple_pats(
            env,
            s,
            p,
            body::subpats(node),
            Seq::empty(),
            m,
        ) {
            Err(e) => Err(e),
            Ok((s, _)) => Ok((s, TyModel::Unknown)),
        },
        Pat::Range { .. } | Pat::Lit(_) => match pat::after_pat_exprs(
            env,
            s,
            p,
            body::pat_exprs(node),
        ) {
            Err(e) => Err(e),
            Ok(s) => Ok((s, TyModel::Unknown)),
        },
        _ => Ok((s, TyModel::Unknown)),
    }
}

proof fn lemma_fields_inside<D: HirDatabase>(
    env: Env<D>,
    p: PatId,
    fields: Seq<(Seq<char>, PatId)>,
)
    requires
        body::all_pats_inside(
            env.body.pat_seq(),
            p,
            body::subpats(env.body.pat_seq()[p.0 as int]),
        ),
        patterns_of(fields) == body::subpats(env.body.pat_seq()[p.0 as int]),
    ensures
        pat::fields_inside(env.body.pat_seq(), p, fields),
{
    assert forall|i: int| 0 <= i < fields.len() implies body::pat_inside(
        env.body.pat_seq(),
        p,
        (#[trigger] fields[i]).1,
    ) by {
        assert(patterns_of(fields)[i] == fields[i].1);
    }
}

proof fn lemma_pat_rule_upkeep<D: HirDatabase>(
    env: Env<D>,
    s: Model,
    ks: Seq<Kind>,
    p: PatId,
    x: TyModel,
    m: BindingMode,
) -> (longer: Seq<Kind>)
    requires
        upkeep::faithful(env.db),
        env.body.wf(),
        p.0 < env.body.pat_seq().len(),
        upkeep::sound(s, ks),
        kinds::well_kinded(x, ks),
    ensures
        pat_rule(env, s, p, x, m) matches Ok((after, t)) ==> upkeep::keeps(s, ks, after, longer)
            && kinds::well_kinded(t, longer),
{
    let node = env.body.pat_seq()[p.0 as int];
    let subs = body::subpats(node);
    body::lemma_parts_inside(env.body.expr_seq().len(), env.body.pat_seq(), p);
    upkeep::lemma_keeps_same(s, ks);
    match node {
        Pat::Tuple(args) => {
            let fields = match ty::tuple_fields(x) {
                Some(fields) => fields,
                None => Seq::empty(),
            };
            pat_upkeep::lemma_tuple_pats(env, s, ks, p, args@, fields, m)
        },
        Pat::Ref { pat: sub, .. } => {
            if let Ok(behind) = ty::reference(x) {
                let inner = match behind {
                    Some((inner, _)) => inner,
                    None => TyModel::Unknown,
                };
                assert(kinds::well_kinded(inner, ks));
                assert(subs[0] == sub);
                pat_upkeep::lemma_pat_ty(env, s, ks, sub, inner, m)
            } else {
                ks
            }
        },
        Pat::TupleStruct { path, args } => {
            assert(patterns_of(pat::numbered(args@)) =~= subs);
            lemma_fields_inside(env, p, pat::numbered(args@));
            pat_upkeep::lemma_variant_pat(env, s, ks, p, path, pat::numbered(args@), x, m)
        },
        Pat::Struct { path, args } => {
            assert(patterns_of(pat::named(args@)) =~= subs);
            lemma_fields_inside(env, p, pat::named(args@));
            pat_upkeep::lemma_variant_pat(env, s, ks, p, path, pat::named(args@), x, m)
        },
        Pat::Path(path) => {
            pat_upkeep::lemma_path_ty(env, s, ks, env.resolver(), path, ExprOrPatId::PatId(p))
        },
        Pat::Slice { .. } => {
            pat_upkeep::lemma_tuple_pats(env, s, ks, p, subs, Seq::empty(), m)
        },
        Pat::Range { .. } | Pat::Lit(_) => {
            pat_upkeep::lemma_after_pat_exprs(env, s, ks, p, body::pat_exprs(node))
        },
        _ => ks,
    }
}

/// What a pattern other than a binding is found to be is right.
#[verifier::rlimit(60)]
#[verifier::spinoff_prover]
proof fn lemma_pat_rule<D: HirDatabase>(
    env: Env<D>,
    pl: Places,
    s: Model,
    ks: Seq<Kind>,
    d: Expected,
    p: PatId,
    x: TyModel,
    m: BindingMode,
) -> (d2: Expected)
    requires
        typing_steps::ready(env, pl, s, ks, d, pl.pat_start[p.0] + 1),
        p.0 < env.body.pat_seq().len(),
        kinds::well_kinded(x, ks),
        parts_end(pl, pl.pat_start[p.0] + 1, env.body.pat_seq()[p.0 as int]) >= 0,
        typing::inner_pats(env.body.pat_seq()[p.0 as int]) == body::subpats(
            env.body.pat_seq()[p.0 as int],
        ),
        typing::inner_exprs(env.body.pat_seq()[p.0 as int]) == body::pat_exprs(
            env.body.pat_seq()[p.0 as int],
        ),
        !(env.body.pat_seq()[p.0 as int] is Bind),
        env.body.pat_seq()[p.0 as int] is TupleStruct || env.body.pat_seq()[p.0 as int] is Struct
            ==> typing::was_met(d, p, x),
    ensures
        pat_rule(env, s, p, x, m) matches Ok((after, t)) ==> {
            &&& typing_steps::stepped(
                env,
                pl,
                s,
                d,
                after,
                d2,
                parts_end(pl, pl.pat_start[p.0] + 1, env.body.pat_seq()[p.0 as int]),
            )
            &&& typing::pat_rule_ok(env, pl, after, d2, p, x, m, t)
        },
    decreases body::pat_limit(env.body.pat_seq(), p), 0nat, p.0, 0nat, body::subpats(
        env.body.pat_seq()[p.0 as int],
    ).len() + body::pat_exprs(env.body.pat_seq()[p.0 as int]).len() + 2,
{
    broadcast use {meaning::group_later, typing_steps::group_follows, leaf_typing::group_next};

    let node = env.body.pat_seq()[p.0 as int];
    let subs = body::subpats(node);
    let exprs = body::pat_exprs(node);
    let start = pl.pat_start[p.0] + 1;
    let end = parts_end(pl, start, node);
    body::lemma_parts_inside(env.body.expr_seq().len(), env.body.pat_seq(), p);
    meaning::lemma_narrows_same(s.vars);
    typing_steps::lemma_quiet(env, pl, s, d, s, start);
    match node {
        Pat::Tuple(args) => {
            let fields = match ty::tuple_fields(x) {
                Some(fields) => fields,
                None => Seq::empty(),
            };
            assert(kinds::all_well_kinded(fields, ks));
            lemma_tuple_pats(env, pl, s, ks, d, start, p, args@, fields, m)
        },
        Pat::Ref { pat: sub, .. } => {
            if let Ok(behind) = ty::reference(x) {
                let inner = match behind {
                    Some((inner, _)) => inner,
                    None => TyModel::Unknown,
                };
                assert(kinds::well_kinded(inner, ks));
                assert(subs[0] == sub);
                assert(subs.skip(1) =~= Seq::empty());
                reveal_with_fuel(typing::next_pats, 2);
                assert(end == typing::next_pat(pl, start, sub));
                let d1 = lemma_pat(env, pl, s, ks, d, start, sub, inner, m);
                assert(typing::referent_ok(x, inner)) by {
                    if let TyModel::Apply { ctor: TypeCtor::Ref(_), params } = x {
                        assert(params =~= seq![inner]);
                    }
                }
                d1
            } else {
                d
            }
        },
        Pat::TupleStruct { path, args } => {
            let fields = pat::numbered(args@);
            assert(patterns_of(fields) =~= subs);
            lemma_fields_inside(env, p, fields);
            let (d1, source, def) = lemma_variant_pat(
                env,
                pl,
                s,
                ks,
                d,
                start,
                p,
                path,
                fields,
                x,
                m,
            );
            if let Ok((after, t)) = pat::variant_pat(env, s, p, path, fields, x, m) {
                assert(typing::names_variant(env, path, source, def));
                assert forall|i: int| 0 <= i < args@.len() implies typing::matches_with(
                    after,
                    d1,
                    #[trigger] args@[i],
                    typing::type_of_field(
                        env.db,
                        def,
                        source,
                        crate::name::decimal(i as nat),
                    ),
                    m,
                ) by {
                    assert(fields[i].1 == args@[i]);
                }
            }
            d1
        },
        Pat::Struct { path, args } => {
            let fields = pat::named(args@);
            assert(patterns_of(fields) =~= subs);
            lemma_fields_inside(env, p, fields);
            let (d1, source, def) = lemma_variant_pat(
                env,
                pl,
                s,
                ks,
                d,
                start,
                p,
                path,
                fields,
                x,
                m,
            );
            if let Ok((after, t)) = pat::variant_pat(env, s, p, path, fields, x, m) {
                assert(typing::names_variant(env, path, source, def));
                assert forall|i: int| 0 <= i < args@.len() implies typing::matches_with(
                    after,
                    d1,
                    (#[trigger] args@[i]).pat,
                    typing::type_of_field(env.db, def, source, args@[i].name@),
                    m,
                ) by {
                    assert(fields[i].1 == args@[i].pat);
                }
            }
            d1
        },
        Pat::Path(path) => {
            let id = ExprOrPatId::PatId(p);
            let pairs = leaf_typing::lemma_path(
                env,
                pl,
                s,
                ks,
                d,
                start,
                env.resolver(),
                path,
                id,
                pl.pat_end[p.0],
            );
            if let Ok((s1, _)) = path::path_ty(env, s, env.resolver(), path, id) {
                typing_steps::lemma_answers_have_reason(env, pl, s, d, pairs);
                typing_steps::lemma_learns(env, pl, s, d, s1, start, pairs)
            } else {
                d
            }
        },
        Pat::Slice { prefix, rest, suffix } => {
            let d1 = lemma_tuple_pats(env, pl, s, ks, d, start, p, subs, Seq::empty(), m);
            if let Ok((after, _)) = pat::tuple_pats(env, s, p, subs, Seq::empty(), m) {
                let unknown = TyModel::Unknown;
                let n = prefix@.len() as int;
                let k: int = if rest is Some { 1 } else { 0 };
                assert forall|i: int| 0 <= i < prefix@.len() implies typing::matches_with(
                    after,
                    d1,
                    #[trigger] prefix@[i],
                    unknown,
                    m,
                ) by {
                    assert(subs[i] == prefix@[i]);
                }
                if let Some(rest) = rest {
                    assert(subs[n] == rest);
                }
                assert forall|i: int| 0 <= i < suffix@.len() implies typing::matches_with(
                    after,
                    d1,
                    #[trigger] suffix@[i],
                    unknown,
                    m,
                ) by {
                    assert(subs[n + k + i] == suffix@[i]);
                }
            }
            d1
        },
        Pat::Range { start: from, end: to } => {
            assert(exprs[0] == from && exprs[1] == to);
            lemma_after_pat_exprs(env, pl, s, ks, d, start, p, exprs)
        },
        Pat::Lit(e) => {
            assert(exprs[0] == e);
            lemma_after_pat_exprs(env, pl, s, ks, d, start, p, exprs)
        },
        _ => d,
    }
}

/// The types recorded for the patterns in a tuple or slice pattern are right.
proof fn lemma_tuple_pats<D: HirDatabase>(
    env: Env<D>,
    pl: Places,
    s: Model,
    ks: Seq<Kind>,
    d: Expected,
    pos: int,
    parent: PatId,
    pats: Seq<PatId>,
    fields: Seq<TyModel>,
    mode: BindingMode,
) -> (d2: Expected)
    requires
        typing_steps::ready(env, pl, s, ks, d, pos),
        parent.0 < env.body.pat_seq().len(),
        body::all_pats_inside(env.body.pat_seq(), parent, pats),
        kinds::all_well_kinded(fields, ks),
        typing::next_pats(pl, pos, pats) >= 0,
    ensures
        pat::tuple_pats(env, s, parent, pats, fields, mode) matches Ok((after, ts)) ==> {
            &&& typing_steps::stepped(
                env,
                pl,
                s,
                d,
                after,
                d2,
                typing::next_pats(pl, pos, pats),
            )
            &&& ts.len() == pats.len()
            &&& forall|i: int|
                0 <= i < pats.len() ==> matched(
                    after,
                    d2,
                    #[trigger] pats[i],
                    typing::nth_or_unknown(fields, i),
                    mode,
                    ts[i],
                )
        },
    decreases body::pat_limit(env.body.pat_seq(), parent), 0nat, parent.0, 0nat, pats.len(),
{
    broadcast use {meaning::group_later, typing_steps::group_follows, leaf_typing::group_next};

    if pats.len() == 0 {
        meaning::lemma_narrows_same(s.vars);
        typing_steps::lemma_quiet(env, pl, s, d, s, pos);
        d
    } else {
        let (expected, rest) = if fields.len() > 0 {
            (fields[0], fields.skip(1))
        } else {
            (TyModel::Unknown, fields)
        };
        let others = pats.skip(1);
        let next = typing::next_pat(pl, pos, pats[0]);
        assert(typing::next_pats(pl, next, others) >= 0);
        let d1 = lemma_pat(env, pl, s, ks, d, pos, pats[0], expected, mode);
        let k1 = pat_upkeep::lemma_pat_ty(env, s, ks, pats[0], expected, mode);
        if let Ok((s1, t)) = pat::pat_ty(env, s, pats[0], expected, mode) {
            kinds::lemma_all_well_kinded_extends(rest, ks, k1);
            let d2 = lemma_tuple_pats(env, pl, s1, k1, d1, next, parent, others, rest, mode);
            if let Ok((after, ts)) = pat::tuple_pats(env, s1, parent, others, rest, mode) {
                let all = seq![t] + ts;
                assert forall|i: int| 0 <= i < pats.len() implies matched(
                    after,
                    d2,
                    #[trigger] pats[i],
                    typing::nth_or_unknown(fields, i),
                    mode,
                    all[i],
                ) by {
                    if i > 0 {
                        assert(pats[i] == others[i - 1]);
                        assert(typing::nth_or_unknown(fields, i) == typing::nth_or_unknown(
                            rest,
                            i - 1,
                        ));
                    }
                }
            }
            d2
        } else {
            d
        }
    }
}

/// The patterns for fields, without the names.
pub open spec fn patterns_of(fields: Seq<(Seq<char>, PatId)>) -> Seq<PatId> {
    Seq::new(fields.len(), |i: int| fields[i].1)
}

/// The types recorded for the fields in the pattern of a variant are right.
proof fn lemma_variant_pat<D: HirDatabase>(
    env: Env<D>,
    pl: Places,
    s: Model,
    ks: Seq<Kind>,
    d: Expected,
    pos: int,
    parent: PatId,
    path: Option<Path>,
    fields: Seq<(Seq<char>, PatId)>,
    expected: TyModel,
    mode: BindingMode,
) -> (r: (Expected, TyModel, Option<VariantDef>))
    requires
        match env.body.pat_seq()[parent.0 as int] {
            Pat::TupleStruct { path: p, .. } => p == path,
            Pat::Struct { path: p, .. } => p == path,
            _ => false,
        },
        typing_steps::ready(env, pl, s, ks, d, pos),
        parent.0 < env.body.pat_seq().len(),
        pat::fields_inside(env.body.pat_seq(), parent, fields),
        kinds::well_kinded(expected, ks),
        typing::was_met(d, parent, expected),
        typing::next_pats(pl, pos, patterns_of(fields)) >= 0,
    ensures
        pat::variant_pat(env, s, parent, path, fields, expected, mode) matches Ok((after, t))
            ==> {
            &&& typing_steps::stepped(
                env,
                pl,
                s,
                d,
                after,
                r.0,
                typing::next_pats(pl, pos, patterns_of(fields)),
            )
            &&& typing::was_met(r.0, parent, expected)
            &&& typing::names_variant(env, path, r.1, r.2)
            &&& meaning::learned(after.vars, r.1, expected)
            &&& typing::stands_for(after, t, r.1)
            &&& forall|i: int|
                0 <= i < fields.len() ==> typing::matches_with(
                    after,
                    r.0,
                    (#[trigger] fields[i]).1,
                    typing::type_of_field(env.db, r.2, r.1, fields[i].0),
                    mode,
                )
        },
    decreases body::pat_limit(env.body.pat_seq(), parent), 0nat, parent.0, 0nat, fields.len() + 1,
{
    broadcast use {meaning::group_later, typing_steps::group_follows, leaf_typing::group_next};

    leaf_typing::lemma_variant(env, s, path);
    let k1 = pat_upkeep::lemma_variant_of_path(env, s, ks, path);
    if let Ok((s1, (source, def))) = path::variant_of_path(env, s, path) {
        typing_steps::lemma_quiet(env, pl, s, d, s1, pos);
        kinds::lemma_well_kinded_extends(expected, ks, k1);
        upkeep::lemma_unify_in(s1, k1, source, expected);
        upkeep::lemma_sound_parts(env.db, s1, k1);
        if let Ok((s2, ok)) = context::unify_in(s1, source, expected) {
            meaning::lemma_unified(s1.vars, source, expected, s2.vars, ok);
            assert(typing::named_by_pattern(env, d, parent, def, (source, expected)));
            let d1 = typing_steps::lemma_learns(
                env,
                pl,
                s1,
                d,
                s2,
                pos,
                seq![(source, expected)],
            );
            let substs = ty::params_of(source);
            assert(kinds::all_well_kinded(substs, k1));
            let d2 = lemma_field_pats(env, pl, s2, k1, d1, pos, parent, fields, def, substs, mode);
            let k2 = pat_upkeep::lemma_field_pats(env, s2, k1, parent, fields, def, substs, mode);
            let next = typing::next_pats(pl, pos, patterns_of(fields));
            if let Ok(s3) = pat::field_pats(env, s2, parent, fields, def, substs, mode) {
                kinds::lemma_well_kinded_extends(source, k1, k2);
                upkeep::lemma_sound_parts(env.db, s3, k2);
                meaning::lemma_resolved_same(env.db, k2, s3, source);
                let pairs = meaning::lemma_resolved_teaches(env.db, k2, s3, source);
                if let Ok((after, t)) = context::resolved(env.db, s3, source) {
                    typing_steps::lemma_answers_have_reason(env, pl, s3, d2, pairs);
                    let d3 = typing_steps::lemma_learns(env, pl, s3, d2, after, next, pairs);
                    assert(meaning::learned(s2.vars, source, expected));
                    upkeep::lemma_resolved_in(env.db, s3, k2, source);
                    assert forall|i: int| 0 <= i < fields.len() implies typing::matches_with(
                        after,
                        d3,
                        (#[trigger] fields[i]).1,
                        typing::type_of_field(env.db, def, source, fields[i].0),
                        mode,
                    ) by {
                        assert(pat::field_expectation(env.db, def, fields[i].0, substs)
                            == typing::type_of_field(env.db, def, source, fields[i].0));
                    }
                    (d3, source, def)
                } else {
                    (d, source, def)
                }
            } else {
                (d, source, def)
            }
        } else {
            (d, source, def)
        }
    } else {
        (d, TyModel::Unknown, None)
    }
}

/// The types recorded for the patterns for fields are right.
proof fn lemma_field_pats<D: HirDatabase>(
    env: Env<D>,
    pl: Places,
    s: Model,
    ks: Seq<Kind>,
    d: Expected,
    pos: int,
    parent: PatId,
    fields: Seq<(Seq<char>, PatId)>,
    def: Option<VariantDef>,
    substs: Seq<TyModel>,
    mode: BindingMode,
) -> (d2: Expected)
    requires
        typing_steps::ready(env, pl, s, ks, d, pos),
        parent.0 < env.body.pat_seq().len(),
        pat::fields_inside(env.body.pat_seq(), parent, fields),
        kinds::all_well_kinded(substs, ks),
        typing::next_pats(pl, pos, patterns_of(fields)) >= 0,
    ensures
        pat::field_pats(env, s, parent, fields, def, substs, mode) matches Ok(after) ==> {
            &&& typing_steps::stepped(
                env,
                pl,
                s,
                d,
                after,
                d2,
                typing::next_pats(pl, pos, patterns_of(fields)),
            )
            &&& forall|i: int|
                0 <= i < fields.len() ==> typing::matches_with(
                    after,
                    d2,
                    (#[trigger] fields[i]).1,
                    pat::field_expectation(env.db, def, fields[i].0, substs),
                    mode,
                )
        },
    decreases body::pat_limit(env.body.pat_seq(), parent), 0nat, parent.0, 0nat, fields.len(),
{
    broadcast use {meaning::group_later, typing_steps::group_follows, leaf_typing::group_next};

    if fields.len() == 0 {
        meaning::lemma_narrows_same(s.vars);
        typing_steps::lemma_quiet(env, pl, s, d, s, pos);
        d
    } else {
        let (name, p) = fields[0];
        let rest = fields.skip(1);
        assert(patterns_of(fields).skip(1) =~= patterns_of(rest));
        assert(patterns_of(fields)[0] == p);
        let expected = pat::field_expectation(env.db, def, name, substs);
        pat_upkeep::lemma_field_expectation(env.db, ks, def, name, substs);
        let next = typing::next_pat(pl, pos, p);
        assert(typing::next_pats(pl, next, patterns_of(rest)) >= 0);
        let d1 = lemma_pat(env, pl, s, ks, d, pos, p, expected, mode);
        let k1 = pat_upkeep::lemma_pat_ty(env, s, ks, p, expected, mode);
        if let Ok((s1, _)) = pat::pat_ty(env, s, p, expected, mode) {
            assert forall|i: int| 0 <= i < rest.len() implies body::pat_inside(
                env.body.pat_seq(),
                parent,
                (#[trigger] rest[i]).1,
            ) by {
                assert(rest[i] == fields[i + 1]);
            }
            kinds::lemma_all_well_kinded_extends(substs, ks, k1);
            let d2 = lemma_field_pats(
                env,
                pl,
                s1,
                k1,
                d1,
                next,
                parent,
                rest,
                def,
                substs,
                mode,
            );
            if let Ok(after) = pat::field_pats(env, s1, parent, rest, def, substs, mode) {
                assert forall|i: int| 0 <= i < fields.len() implies typing::matches_with(
                    after,
                    d2,
                    (#[trigger] fields[i]).1,
                    pat::field_expectation(env.db, def, fields[i].0, substs),
                    mode,
                ) by {
                    if i > 0 {
                        assert(fields[i] == rest[i - 1]);
                    }
                }
            }
            d2
        } else {
            d
        }
    }
}

/// The types recorded for the expressions in a pattern are right.
proof fn lemma_after_pat_exprs<D: HirDatabase>(
    env: Env<D>,
    pl: Places,
    s: Model,
    ks: Seq<Kind>,
    d: Expected,
    pos: int,
    parent: PatId,
    exprs: Seq<ExprId>,
) -> (d2: Expected)
    requires
        typing_steps::ready(env, pl, s, ks, d, pos),
        body::all_exprs_inside(env.body.pat_seq(), parent, exprs),
        body::all_exprs_below(exprs, env.body.expr_seq().len()),
        typing::next_exprs(pl, pos, exprs) >= 0,
    ensures
        pat::after_pat_exprs(env, s, parent, exprs) matches Ok(after) ==> {
            &&& typing_steps::stepped(
                env,
                pl,
                s,
                d,
                after,
                d2,
                typing::next_exprs(pl, pos, exprs),
            )
            &&& forall|i: int|
                0 <= i < exprs.len() ==> typing::expects(
                    after,
                    d2,
                    #[trigger] exprs[i],
                    TyModel::Unknown,
                )
        },
    decreases body::pat_limit(env.body.pat_seq(), parent), 0nat, parent.0, 0nat, exprs.len(),
{
    broadcast use {meaning::group_later, typing_steps::group_follows, leaf_typing::group_next};

    if exprs.len() == 0 {
        meaning::lemma_narrows_same(s.vars);
        typing_steps::lemma_quiet(env, pl, s, d, s, pos);
        d
    } else {
        let rest = exprs.skip(1);
        let next = typing::next_expr(pl, pos, exprs[0]);
        assert(typing::next_exprs(pl, next, rest) >= 0);
        let unknown = TyModel::Unknown;
        let d1 = expr_typing::lemma_expr(env, pl, s, ks, d, pos, exprs[0], unknown);
        let k1 = expr_upkeep::lemma_expr_ty(env, s, ks, exprs[0], unknown);
        if let Ok((s1, _)) = expr::expr_ty(env, s, exprs[0], unknown) {
            let d2 = lemma_after_pat_exprs(env, pl, s1, k1, d1, next, parent, rest);
            if let Ok(after) = pat::after_pat_exprs(env, s1, parent, rest) {
                assert forall|i: int| 0 <= i < exprs.len() implies typing::expects(
                    after,
                    d2,
                    #[trigger] exprs[i],
                    unknown,
                ) by {
                    if i > 0 {
                        assert(exprs[i] == rest[i - 1]);
                    }
                }
            }
            d2
        } else {
            d
        }
    }
}

} // verus!
