//! What the recorded types say of the expressions and patterns that they are recorded for.

use vstd::prelude::*;

use crate::body::{BindingAnnotation, Expr, Pat, Path, Statement};
use crate::context::{Env, Model};
use crate::db::HirDatabase;
use crate::defs::{DefWithBody, ExprId, PatId, Resolver, TypeRef, VariantDef};
use crate::error::InferError;
use crate::kinds::Kind;
use crate::pat::BindingMode;
use crate::primitive::{
    FloatBitness, FloatTy, IntBitness, IntTy, Signedness, UncertainFloatTy, UncertainIntTy,
};
use crate::result::ResultModel;
use crate::solution::Assignment;
use crate::ty::{Mutability, TyModel, TypeCtor};
use crate::typing::{Expected, Places};
use crate::{
    context, expr, expr_typing, expr_upkeep, infer, kinds, leaf_typing, meaning, name, pat,
    pat_typing, pat_upkeep, result, settled, solution, ty, typing, typing_steps, upkeep,
};

verus! {

/// Nothing has been looked at.
pub open spec fn nothing_expected(s: Model) -> Expected {
    Expected {
        exprs: Map::empty(),
        pats: Map::empty(),
        signature_end: 0,
        start: s.vars,
        learned: Seq::empty(),
        told: s.diagnostics.len() as int,
        goals: s.obligations,
        met: Map::empty(),
    }
}

/// Whether the state is sound and the body a tree, so that inference can start somewhere in
/// it.
pub open spec fn can_start<D: HirDatabase>(
    env: Env<D>,
    pl: Places,
    s: Model,
    ks: Seq<Kind>,
) -> bool {
    &&& upkeep::faithful(env.db)
    &&& env.body.wf()
    &&& typing::in_order(pl, *env.body)
    &&& upkeep::sound(s, ks)
}

proof fn lemma_start<D: HirDatabase>(env: Env<D>, pl: Places, s: Model, ks: Seq<Kind>, pos: int)
    requires
        can_start(env, pl, s, ks),
    ensures
        typing_steps::ready(env, pl, s, ks, nothing_expected(s), pos),
{
    meaning::lemma_narrows_same(s.vars);
    reveal(typing::all_right);
    reveal(typing_steps::clear);
}

/// Once the type of an expression has been inferred, the type recorded for it, and for each
/// expression and pattern in it, is right: it is what the rule for it says of the types of
/// its parts and of what is expected of it, and what is expected of the parts is what the
/// rule asks of them. Nothing is learned of the variables, and nothing told to the user,
/// without such a reason.
pub proof fn inferred_types_are_right<D: HirDatabase>(
    env: Env<D>,
    pl: Places,
    s: Model,
    ks: Seq<Kind>,
    e: ExprId,
    x: TyModel,
    after: Model,
    t: TyModel,
) -> (d: Expected)
    requires
        can_start(env, pl, s, ks),
        e.0 < env.body.expr_seq().len(),
        0 <= pl.expr_start[e.0] < pl.expr_end[e.0],
        kinds::well_kinded(x, ks),
        expr::expr_ty(env, s, e, x) == Ok::<(Model, TyModel), InferError>((after, t)),
    ensures
        typing::all_right(env, pl, after, d),
        typing::expects(after, d, e, x),
        after.type_of_expr[e.0] == t,
        d.signature_end <= pl.expr_start[e.0],
        d.start == s.vars,
        d.told == s.diagnostics.len(),
        d.goals == s.obligations,
        s.diagnostics.is_prefix_of(after.diagnostics),
{
    let start = pl.expr_start[e.0];
    lemma_start(env, pl, s, ks, start);
    let d = expr_typing::lemma_expr(env, pl, s, ks, nothing_expected(s), start, e, x);
    typing_steps::lemma_follows_vars(pl, s, nothing_expected(s), after, d);
    d
}

/// The same of a pattern that is matched with some type in some mode.
pub proof fn matched_types_are_right<D: HirDatabase>(
    env: Env<D>,
    pl: Places,
    s: Model,
    ks: Seq<Kind>,
    p: PatId,
    x: TyModel,
    mode: BindingMode,
    after: Model,
    t: TyModel,
) -> (d: Expected)
    requires
        can_start(env, pl, s, ks),
        p.0 < env.body.pat_seq().len(),
        0 <= pl.pat_start[p.0] < pl.pat_end[p.0],
        kinds::well_kinded(x, ks),
        pat::pat_ty(env, s, p, x, mode) == Ok::<(Model, TyModel), InferError>((after, t)),
    ensures
        typing::all_right(env, pl, after, d),
        typing::matches_with(after, d, p, x, mode),
        d.pats[p.0].given == t,
        d.signature_end <= pl.pat_start[p.0],
        d.start == s.vars,
        d.told == s.diagnostics.len(),
        d.goals == s.obligations,
        s.diagnostics.is_prefix_of(after.diagnostics),
{
    let start = pl.pat_start[p.0];
    lemma_start(env, pl, s, ks, start);
    let d = pat_typing::lemma_pat(env, pl, s, ks, nothing_expected(s), start, p, x, mode);
    typing_steps::lemma_follows_vars(pl, s, nothing_expected(s), after, d);
    d
}

/// What is expected of an expression is held against its type: if the type can be that, it
/// agrees with it in every solution. It is so for each expression in one that has been
/// inferred: arguments against parameters, returned values against the type of the result,
/// arms against what is expected of the whole.
pub proof fn types_are_held_against_what_is_expected<D: HirDatabase>(
    env: Env<D>,
    pl: Places,
    s: Model,
    d: Expected,
    e: ExprId,
    x: TyModel,
)
    requires
        typing::all_right(env, pl, s, d),
        typing::expects(s, d, e, x),
    ensures
        typing::expr_ok(env, pl, s, d, e),
        meaning::tied(s.vars, s.type_of_expr[e.0], x),
{
    reveal(typing::all_right);
    assert(d.exprs.contains_key(e.0));
}

/// Each branch of an `if` is held against what is expected of the whole: the type recorded
/// for each of the two, if it can be what is expected, agrees with that in every solution.
/// The condition is held against `bool`.
pub proof fn both_branches_are_held_against_the_expected_type<D: HirDatabase>(
    env: Env<D>,
    pl: Places,
    s: Model,
    ks: Seq<Kind>,
    e: ExprId,
    condition: ExprId,
    then_branch: ExprId,
    else_branch: ExprId,
    x: TyModel,
    after: Model,
    t: TyModel,
)
    requires
        can_start(env, pl, s, ks),
        e.0 < env.body.expr_seq().len(),
        0 <= pl.expr_start[e.0] < pl.expr_end[e.0],
        kinds::well_kinded(x, ks),
        env.body.expr_seq()[e.0 as int] == (Expr::If {
            condition,
            then_branch,
            else_branch: Some(else_branch),
        }),
        expr::expr_ty(env, s, e, x) == Ok::<(Model, TyModel), InferError>((after, t)),
    ensures
        after.type_of_expr.contains_key(then_branch.0),
        after.type_of_expr.contains_key(else_branch.0),
        forall|branch: ExprId, f: Assignment, g: Assignment|
            (branch == then_branch || branch == else_branch) && #[trigger] meaning::equates(
                g,
                after.vars,
                after.type_of_expr[branch.0],
                x,
            ) && #[trigger] solution::solves(f, after.vars) ==> solution::agree(
                solution::apply(f, after.type_of_expr[branch.0]),
                solution::apply(f, x),
            ),
        meaning::tied(
            after.vars,
            after.type_of_expr[condition.0],
            typing::plain(TypeCtor::Bool),
        ),
        meaning::same(after.vars, t, after.type_of_expr[then_branch.0]) || settled::is_open(
            after.type_of_expr[then_branch.0],
        ),
{
    let d = inferred_types_are_right(env, pl, s, ks, e, x, after, t);
    types_are_held_against_what_is_expected(env, pl, after, d, e, x);
    let bool_ty = typing::plain(TypeCtor::Bool);
    types_are_held_against_what_is_expected(env, pl, after, d, condition, bool_ty);
    types_are_held_against_what_is_expected(env, pl, after, d, then_branch, x);
    types_are_held_against_what_is_expected(env, pl, after, d, else_branch, x);
    reveal(meaning::tied);
}

/// The references that a type is behind, and what it is then, are given by the type.
proof fn lemma_unwrapped_once(
    outer: TyModel,
    refs: Seq<Mutability>,
    x: TyModel,
    others: Seq<Mutability>,
    y: TyModel,
)
    requires
        typing::unwrapped(outer, refs, x),
        typing::unwrapped(outer, others, y),
    ensures
        refs == others,
        x == y,
    decreases refs.len(),
{
    if let TyModel::Apply { ctor: TypeCtor::Ref(m), params } = outer {
        lemma_unwrapped_once(params[0], refs.skip(1), x, others.skip(1), y);
        assert(refs =~= seq![m] + refs.skip(1));
        assert(others =~= seq![m] + others.skip(1));
    }
    assert(refs =~= others);
}

/// The name of the `i`th field that a pattern has a pattern for, and that pattern.
pub open spec fn field_in(node: Pat, i: int) -> Option<(Seq<char>, PatId)> {
    match node {
        Pat::TupleStruct { args, .. } => if 0 <= i < args@.len() {
            Some((name::decimal(i as nat), args@[i]))
        } else {
            None
        },
        Pat::Struct { args, .. } => if 0 <= i < args@.len() {
            Some((args@[i].name@, args@[i].pat))
        } else {
            None
        },
        _ => None,
    }
}

/// The path that a pattern names a variant by.
pub open spec fn variant_in(node: Pat) -> Option<Path> {
    match node {
        Pat::TupleStruct { path, .. } => path,
        Pat::Struct { path, .. } => path,
        _ => None,
    }
}

/// A binding without an annotation that is the pattern for a field of a struct or a tuple
/// struct binds a reference to the field, if what is matched stands behind references: a
/// shared one if one of them is shared, or the whole is matched in that mode, and a mutable
/// one otherwise. Behind no reference it is bound as the mode of the whole says.
pub proof fn field_bindings_go_by_the_references<D: HirDatabase>(
    env: Env<D>,
    pl: Places,
    s: Model,
    ks: Seq<Kind>,
    p: PatId,
    outer: TyModel,
    mode: BindingMode,
    refs: Seq<Mutability>,
    inner: TyModel,
    i: int,
    field: Seq<char>,
    sub: PatId,
    after: Model,
    t: TyModel,
) -> (r: (TyModel, Option<VariantDef>, TyModel))
    requires
        can_start(env, pl, s, ks),
        p.0 < env.body.pat_seq().len(),
        0 <= pl.pat_start[p.0] < pl.pat_end[p.0],
        kinds::well_kinded(outer, ks),
        pat::pat_ty(env, s, p, outer, mode) == Ok::<(Model, TyModel), InferError>((after, t)),
        typing::unwrapped(outer, refs, inner),
        field_in(env.body.pat_seq()[p.0 as int], i) == Some((field, sub)),
        env.body.pat_seq()[sub.0 as int] matches Pat::Bind {
            mode: BindingAnnotation::Unannotated,
            subpat: None,
            ..
        },
    ensures
        typing::names_variant(env, variant_in(env.body.pat_seq()[p.0 as int]), r.0, r.1),
        ({
            let declared = typing::type_of_field(env.db, r.1, r.0, field);
            let bound = r.2;
            let shared = refs.contains(Mutability::Shared) || mode == BindingMode::Ref(
                Mutability::Shared,
            );
            &&& !settled::is_open(declared) ==> meaning::same(after.vars, bound, declared)
            &&& after.type_of_pat.contains_key(sub.0)
            &&& after.type_of_pat[sub.0] == if refs.len() > 0 && shared {
                typing::of_one(TypeCtor::Ref(Mutability::Shared), bound)
            } else if refs.len() > 0 {
                typing::of_one(TypeCtor::Ref(Mutability::Mut), bound)
            } else {
                match mode {
                    BindingMode::Ref(m) => typing::of_one(TypeCtor::Ref(m), bound),
                    BindingMode::Move => bound,
                }
            }
        }),
{
    let d = matched_types_are_right(env, pl, s, ks, p, outer, mode, after, t);
    reveal(typing::all_right);
    let node = env.body.pat_seq()[p.0 as int];
    assert(d.pats.contains_key(p.0));
    assert(typing::pat_ok(env, pl, after, d, p));
    let (x, m) = choose|x: TyModel, m: BindingMode| #[trigger]
        typing::meets(node, outer, mode, x, m) && exists|rule: TyModel| #[trigger]
            typing::pat_rule_ok(env, pl, after, d, p, x, m, rule);
    let others = choose|others: Seq<Mutability>| #[trigger]
        typing::unwrapped(outer, others, x) && m == typing::mode_through(mode, others);
    lemma_unwrapped_once(outer, refs, inner, others, x);
    let rule = choose|rule: TyModel| #[trigger]
        typing::pat_rule_ok(env, pl, after, d, p, x, m, rule);
    let path = variant_in(node);
    let (source, def) = choose|source: TyModel, def: Option<VariantDef>| #[trigger]
        typing::names_variant(env, path, source, def) && match node {
            Pat::TupleStruct { args, .. } => forall|j: int|
                0 <= j < args@.len() ==> typing::matches_with(
                    after,
                    d,
                    #[trigger] args@[j],
                    typing::type_of_field(env.db, def, source, name::decimal(j as nat)),
                    m,
                ),
            Pat::Struct { args, .. } => forall|j: int|
                0 <= j < args@.len() ==> typing::matches_with(
                    after,
                    d,
                    (#[trigger] args@[j]).pat,
                    typing::type_of_field(env.db, def, source, args@[j].name@),
                    m,
                ),
            _ => false,
        };
    let declared = typing::type_of_field(env.db, def, source, field);
    assert(typing::matches_with(after, d, sub, declared, m));
    assert(d.pats.contains_key(sub.0));
    assert(typing::pat_ok(env, pl, after, d, sub));
    (source, def, d.pats[sub.0].given)
}

/// The parameters of a function are matched with the types that are declared for them.
proof fn lemma_params<D: HirDatabase>(
    env: Env<D>,
    pl: Places,
    s: Model,
    ks: Seq<Kind>,
    d: Expected,
    pos: int,
    types: Seq<TypeRef>,
    pats: Seq<PatId>,
) -> (r: (Expected, Seq<Kind>))
    requires
        typing_steps::ready(env, pl, s, ks, d, pos),
        forall|i: int| 0 <= i < pats.len() ==> (#[trigger] pats[i]).0 < env.body.pat_seq().len(),
        typing::next_pats(pl, pos, pats) >= 0,
    ensures
        infer::after_params(env, s, types, pats) matches Ok(after) ==> {
            &&& upkeep::sound(after, r.1)
            &&& typing_steps::stepped(
                env,
                pl,
                s,
                d,
                after,
                r.0,
                typing::next_pats(pl, pos, pats),
            )
            &&& forall|i: int|
                0 <= i < pats.len() && i < types.len() ==> typing::closure_param_ok(
                    env,
                    after,
                    r.0,
                    #[trigger] pats[i],
                    Some(types[i]),
                )
        },
    decreases types.len(),
{
    broadcast use {meaning::group_later, typing_steps::group_follows, leaf_typing::group_next};

    meaning::lemma_narrows_same(s.vars);
    if types.len() == 0 || pats.len() == 0 {
        typing_steps::lemma_quiet(env, pl, s, d, s, pos);
        typing_steps::lemma_clear_further(pl, s, d, pos, typing::next_pats(pl, pos, pats));
        (d, ks)
    } else {
        let others = pats.skip(1);
        let rest = types.skip(1);
        let next = typing::next_pat(pl, pos, pats[0]);
        assert(typing::next_pats(pl, next, others) >= 0);
        let k0 = upkeep::lemma_make_ty(env, s, ks, types[0]);
        leaf_typing::lemma_inserted(s, env.db.lowered(env.resolver(), types[0]));
        if let Ok((s0, t)) = context::make_ty(env.db, env.resolver(), s, types[0]) {
            let mode = BindingMode::Move;
            typing_steps::lemma_quiet(env, pl, s, d, s0, pos);
            let d1 = pat_typing::lemma_pat(env, pl, s0, k0, d, pos, pats[0], t, mode);
            let k1 = pat_upkeep::lemma_pat_ty(env, s0, k0, pats[0], t, mode);
            if let Ok((s1, _)) = pat::pat_ty(env, s0, pats[0], t, mode) {
                assert forall|i: int| 0 <= i < others.len() implies (#[trigger] others[i]).0
                    < env.body.pat_seq().len() by {
                    assert(others[i] == pats[i + 1]);
                }
                let (d2, k2) = lemma_params(env, pl, s1, k1, d1, next, rest, others);
                if let Ok(after) = infer::after_params(env, s1, rest, others) {
                    assert forall|i: int| 0 <= i < pats.len() && i < types.len() implies
                        typing::closure_param_ok(
                        env,
                        after,
                        d2,
                        #[trigger] pats[i],
                        Some(types[i]),
                    ) by {
                        if i > 0 {
                            assert(pats[i] == others[i - 1] && types[i] == rest[i - 1]);
                        } else {
                            assert(typing::matches_with(after, d2, pats[0], t, mode));
                        }
                    }
                }
                (d2, k2)
            } else {
                (d, ks)
            }
        } else {
            (d, ks)
        }
    }
}

/// To learn the type of the result changes nothing of what was right before.
proof fn lemma_result_declared<D: HirDatabase>(
    env: Env<D>,
    pl: Places,
    s: Model,
    d: Expected,
    t: TyModel,
    pos: int,
) -> (d2: Expected)
    requires
        typing::all_right(env, pl, s, d),
        typing_steps::clear(pl, s, d, pos),
    ensures
        d2 == (Expected { signature_end: pos, ..d }),
        typing::all_right(env, pl, Model { return_ty: t, ..s }, d2),
        typing_steps::follows(pl, s, d, Model { return_ty: t, ..s }, d2),
        typing_steps::clear(pl, Model { return_ty: t, ..s }, d2, pos),
{
    let after = Model { return_ty: t, ..s };
    let d2 = Expected { signature_end: pos, ..d };
    meaning::lemma_narrows_same(s.vars);
    assert(typing_steps::clear(pl, after, d2, pos) && typing_steps::follows(pl, s, d, after, d2))
        by {
        reveal(typing_steps::clear);
        reveal(typing_steps::follows);
    }
    let no_more = Seq::<(TyModel, TyModel)>::empty();
    assert(d.learned + no_more =~= d.learned);
    typing_steps::lemma_accounted_later(env, pl, s, d, after, d2, no_more);
    typing_steps::lemma_right_later(env, pl, s, d, after, d2);
    d2
}

/// The types that are declared for the parameters and the result of a definition.
pub open spec fn declared_types<D: HirDatabase>(
    db: &D,
    def: DefWithBody,
) -> (Seq<TypeRef>, TypeRef) {
    match def {
        DefWithBody::Function(func) => (
            db.fn_signature_of(func).params@,
            db.fn_signature_of(func).ret_type,
        ),
        DefWithBody::Const(konst) => (Seq::empty(), db.const_signature_of(konst).type_ref),
        DefWithBody::Static(static_) => (Seq::empty(), db.static_signature_of(static_).type_ref),
    }
}

/// Whether these are types that inference for a definition may have recorded before it
/// resolved them: all of them are right, the parameters are matched with the types that are
/// declared for them, and the type that is declared for the result is expected of the body.
pub open spec fn may_have_recorded<D: HirDatabase>(
    env: Env<D>,
    pl: Places,
    s: Model,
    d: Expected,
) -> bool {
    let (types, ret_type) = declared_types(env.db, env.owner);
    let pats = env.body.param_seq();
    &&& typing::all_right(env, pl, s, d)
    &&& env.owner is Function ==> forall|i: int|
        0 <= i < pats.len() && i < types.len() ==> typing::closure_param_ok(
            env,
            s,
            d,
            #[trigger] pats[i],
            Some(types[i]),
        )
    &&& settled::filled(env.db.lowered(Resolver::Def(env.owner), ret_type), s.return_ty, 0)
    &&& typing::expects(s, d, env.body.root(), s.return_ty)
    &&& d.signature_end == typing::next_pats(pl, 0, pats)
    &&& d.start.len() == 0
    &&& d.told == 0
    &&& d.goals.len() == 0
}

/// Whether an assignment makes of the variables of which nothing is known, by their kinds,
/// an `i32`, an `f64` or an unknown type.
pub open spec fn is_default(f: Assignment, s: Model, ks: Seq<Kind>) -> bool {
    forall|i: int|
        0 <= i < s.vars.len() && (#[trigger] s.vars[i]).value is None ==> f(i) == match ks[i] {
            Kind::General => TyModel::Unknown,
            Kind::Integer => typing::plain(
                TypeCtor::Int(
                    UncertainIntTy::Known(
                        IntTy { signedness: Signedness::Signed, bitness: IntBitness::X32 },
                    ),
                ),
            ),
            Kind::Float => typing::plain(
                TypeCtor::Float(UncertainFloatTy::Known(FloatTy { bitness: FloatBitness::X64 })),
            ),
        }
}

/// Whether the result has, for each recorded type, what the type stands for in the solution
/// that makes nothing but defaults of what is not known.
pub open spec fn resolved_to(s: Model, m: ResultModel) -> bool {
    &&& m.type_of_expr.dom() == s.type_of_expr.dom()
    &&& m.type_of_pat.dom() == s.type_of_pat.dom()
    &&& exists|ks: Seq<Kind>| #[trigger]
        kinds::consistent(s.vars, ks) && forall|f: Assignment| #[trigger]
            solution::solves(f, s.vars) && is_default(f, s, ks) ==> {
                &&& forall|e: u32| #[trigger]
                    m.type_of_expr.contains_key(e) ==> m.type_of_expr[e] == solution::apply(
                        f,
                        s.type_of_expr[e],
                    )
                &&& forall|p: u32| #[trigger]
                    m.type_of_pat.contains_key(p) ==> m.type_of_pat[p] == solution::apply(
                        f,
                        s.type_of_pat[p],
                    )
            }
}

proof fn lemma_resolved_to(s: Model, ks: Seq<Kind>, m: ResultModel)
    requires
        upkeep::sound(s, ks),
        result::finished(s) == Ok::<ResultModel, InferError>(m),
    ensures
        resolved_to(s, m),
{
    reveal(upkeep::sound);
    assert(m.type_of_expr.dom() =~= s.type_of_expr.dom());
    assert(m.type_of_pat.dom() =~= s.type_of_pat.dom());
    assert forall|f: Assignment| #[trigger]
        solution::solves(f, s.vars) && is_default(f, s, ks) implies {
        &&& forall|e: u32| #[trigger]
            m.type_of_expr.contains_key(e) ==> m.type_of_expr[e] == solution::apply(
                f,
                s.type_of_expr[e],
            )
        &&& forall|p: u32| #[trigger]
            m.type_of_pat.contains_key(p) ==> m.type_of_pat[p] == solution::apply(
                f,
                s.type_of_pat[p],
            )
    } by {
        assert forall|e: u32| #[trigger] m.type_of_expr.contains_key(e) implies m.type_of_expr[e]
            == solution::apply(f, s.type_of_expr[e]) by {
            assert(s.type_of_expr.contains_key(e));
            settled::lemma_completely_is_solution(f, s.vars, ks, s.type_of_expr[e]);
        }
        assert forall|p: u32| #[trigger] m.type_of_pat.contains_key(p) implies m.type_of_pat[p]
            == solution::apply(f, s.type_of_pat[p]) by {
            assert(s.type_of_pat.contains_key(p));
            settled::lemma_completely_is_solution(f, s.vars, ks, s.type_of_pat[p]);
        }
    }
}

/// The result of inference for a definition gives the types that are right for its
/// parameters and its body, each as what it stands for once nothing more can be learned.
pub proof fn inference_gives_the_right_types<D: HirDatabase>(
    db: &D,
    def: DefWithBody,
    pl: Places,
    m: ResultModel,
)
    requires
        upkeep::faithful(db),
        db.body_of(def).wf(),
        typing::in_order(pl, db.body_of(def)),
        typing::next_expr(
            pl,
            typing::next_pats(pl, 0, db.body_of(def).param_seq()),
            db.body_of(def).root(),
        ) >= 0,
        infer::inference(db, def) == Ok::<ResultModel, InferError>(m),
    ensures
        exists|s: Model, d: Expected| #[trigger]
            may_have_recorded(
                (Env { db, body: &db.body_of(def), owner: def }),
                pl,
                s,
                d,
            ) && resolved_to(s, m) && m.diagnostics == s.diagnostics && m.method_resolutions
                == s.method_resolutions && m.field_resolutions == s.field_resolutions
                && m.assoc_resolutions == s.assoc_resolutions,
{
    broadcast use {meaning::group_later, typing_steps::group_follows, leaf_typing::group_next};

    let body = db.body_of(def);
    let env = Env { db, body: &body, owner: def };
    let nothing = context::nothing_known();
    let (types, ret_type) = declared_types(db, def);
    let pats = if def is Function { body.param_seq() } else { Seq::empty() };
    let pos = typing::next_pats(pl, 0, body.param_seq());
    upkeep::lemma_nothing_known();
    lemma_start(env, pl, nothing, Seq::empty(), 0);
    meaning::lemma_narrows_same(nothing.vars);
    let (d1, k1) = if def is Function {
        lemma_params(
            env,
            pl,
            nothing,
            Seq::empty(),
            nothing_expected(nothing),
            0,
            types,
            pats,
        )
    } else {
        typing_steps::lemma_quiet(env, pl, nothing, nothing_expected(nothing), nothing, 0);
        typing_steps::lemma_clear_further(pl, nothing, nothing_expected(nothing), 0, pos);
        (nothing_expected(nothing), Seq::empty())
    };
    let after_params = if def is Function {
        infer::after_params(env, nothing, types, pats)
    } else {
        Ok(nothing)
    };
    if let Ok(s1) = after_params {
        let k2 = upkeep::lemma_make_ty(env, s1, k1, ret_type);
        leaf_typing::lemma_inserted(s1, db.lowered(env.resolver(), ret_type));
        if let Ok((s2, t)) = context::make_ty(db, env.resolver(), s1, ret_type) {
            typing_steps::lemma_quiet(env, pl, s1, d1, s2, pos);
            let s3 = Model { return_ty: t, ..s2 };
            upkeep::lemma_set_return_ty(s2, k2, t);
            let d3 = lemma_result_declared(env, pl, s2, d1, t, pos);
            let d4 = expr_typing::lemma_expr(env, pl, s3, k2, d3, pos, body.root(), t);
            if let Ok((s4, _)) = expr::expr_ty(env, s3, body.root(), t) {
                if def is Function {
                    assert forall|i: int| 0 <= i < pats.len() && i < types.len() implies
                        typing::closure_param_ok(
                        env,
                        s4,
                        d4,
                        #[trigger] pats[i],
                        Some(types[i]),
                    ) by {
                        expr_typing::lemma_closure_param_later(
                            env,
                            pl,
                            s1,
                            d1,
                            s4,
                            d4,
                            pats[i],
                            Some(types[i]),
                        );
                    }
                }
                assert(may_have_recorded(env, pl, s4, d4));
                let k4 = expr_upkeep::lemma_expr_ty(env, s3, k2, body.root(), t);
                lemma_resolved_to(s4, k4, m);
            }
        }
    }
}

} // verus!
