//! When the types recorded for the expressions and patterns of a body are right: how the type
//! of each goes with what is expected of it and with the types of its parts.

use vstd::prelude::*;

use crate::body::{
    Array, BinaryOp, BindingAnnotation, Body, Expr, FieldPat, GenericArg, GenericArgs, Literal,
    MatchArm, Pat, Path, Statement, StructLitField, UnaryOp,
};
use crate::context::{Env, Model};
use crate::db::{HirDatabase, TraitRefModel};
use crate::defs::{
    AdtDef, Crate, ExprId, ImplItem, ModuleDef, Namespace, PatId, Resolution, Resolver,
    TypableDef, TypeRef, VariantDef,
};
use crate::diagnostics::InferenceDiagnostic;
use crate::pat::BindingMode;
use crate::primitive::{
    FloatTy, IntBitness, IntTy, Signedness, UncertainFloatTy, UncertainIntTy,
};
use crate::table::VarModel;
use crate::ty::{InferTy, Mutability, TyModel, TypeCtor};
use crate::{defs, meaning, name, path, settled, step_laws, ty};

verus! {

/// Places of the expressions and patterns of a body in one order.
pub struct Places {
    pub expr_start: Map<u32, int>,
    pub expr_end: Map<u32, int>,
    pub pat_start: Map<u32, int>,
    pub pat_end: Map<u32, int>,
}

/// The place behind an expression that comes after a place; a negative number if it does
/// not come after it.
pub open spec fn next_expr(pl: Places, pos: int, e: ExprId) -> int {
    if 0 <= pos <= pl.expr_start[e.0] < pl.expr_end[e.0] {
        pl.expr_end[e.0]
    } else {
        -1
    }
}

pub open spec fn next_pat(pl: Places, pos: int, p: PatId) -> int {
    if 0 <= pos <= pl.pat_start[p.0] < pl.pat_end[p.0] {
        pl.pat_end[p.0]
    } else {
        -1
    }
}

pub open spec fn next_maybe(pl: Places, pos: int, e: Option<ExprId>) -> int {
    match e {
        Some(e) => next_expr(pl, pos, e),
        None => pos,
    }
}

/// The place behind expressions that come one after another.
pub open spec fn next_exprs(pl: Places, pos: int, es: Seq<ExprId>) -> int
    decreases es.len(),
{
    if es.len() == 0 {
        pos
    } else {
        next_exprs(pl, next_expr(pl, pos, es[0]), es.skip(1))
    }
}

pub open spec fn next_pats(pl: Places, pos: int, ps: Seq<PatId>) -> int
    decreases ps.len(),
{
    if ps.len() == 0 {
        pos
    } else {
        next_pats(pl, next_pat(pl, pos, ps[0]), ps.skip(1))
    }
}

pub open spec fn next_statement(pl: Places, pos: int, st: Statement) -> int {
    match st {
        Statement::Let { pat, initializer, .. } => next_pat(
            pl,
            next_maybe(pl, pos, initializer),
            pat,
        ),
        Statement::Expr(e) => next_expr(pl, pos, e),
    }
}

pub open spec fn next_statements(pl: Places, pos: int, sts: Seq<Statement>) -> int
    decreases sts.len(),
{
    if sts.len() == 0 {
        pos
    } else {
        next_statements(pl, next_statement(pl, pos, sts[0]), sts.skip(1))
    }
}

pub open spec fn next_arm(pl: Places, pos: int, arm: MatchArm) -> int {
    next_expr(pl, next_maybe(pl, next_pats(pl, pos, arm.pats@), arm.guard), arm.expr)
}

pub open spec fn next_arms(pl: Places, pos: int, arms: Seq<MatchArm>) -> int
    decreases arms.len(),
{
    if arms.len() == 0 {
        pos
    } else {
        next_arms(pl, next_arm(pl, pos, arms[0]), arms.skip(1))
    }
}

/// The place behind the fields of a struct literal from the `i`th on.
pub open spec fn next_fields(pl: Places, pos: int, fields: Seq<StructLitField>, i: int) -> int
    decreases fields.len() - i,
{
    if 0 <= i < fields.len() {
        next_fields(pl, next_expr(pl, pos, fields[i].expr), fields, i + 1)
    } else {
        pos
    }
}

/// The place behind the parts of an expression.
pub open spec fn next_parts(pl: Places, pos: int, node: Expr) -> int {
    match node {
        Expr::Missing | Expr::Path(_) | Expr::Continue | Expr::Literal(_) => pos,
        Expr::If { condition, then_branch, else_branch } => next_maybe(
            pl,
            next_expr(pl, next_expr(pl, pos, condition), then_branch),
            else_branch,
        ),
        Expr::Block { statements, tail } => next_maybe(
            pl,
            next_statements(pl, pos, statements@),
            tail,
        ),
        Expr::Loop { body } => next_expr(pl, pos, body),
        Expr::While { condition, body } => next_expr(pl, next_expr(pl, pos, condition), body),
        Expr::For { iterable, pat, body } => next_expr(
            pl,
            next_pat(pl, next_expr(pl, pos, iterable), pat),
            body,
        ),
        Expr::Lambda { args, body, .. } => next_expr(pl, next_pats(pl, pos, args@), body),
        Expr::Call { callee, args } => next_exprs(pl, next_expr(pl, pos, callee), args@),
        Expr::MethodCall { receiver, args, .. } => next_exprs(
            pl,
            next_expr(pl, pos, receiver),
            args@,
        ),
        Expr::Match { expr, arms } => next_arms(pl, next_expr(pl, pos, expr), arms@),
        Expr::Break { expr } | Expr::Return { expr } => next_maybe(pl, pos, expr),
        Expr::StructLit { fields, spread, .. } => next_maybe(
            pl,
            next_fields(pl, pos, fields@, 0),
            spread,
        ),
        Expr::Field { expr, .. } => next_expr(pl, pos, expr),
        Expr::Try { expr } => next_expr(pl, pos, expr),
        Expr::Cast { expr, .. } => next_expr(pl, pos, expr),
        Expr::Ref { expr, .. } => next_expr(pl, pos, expr),
        Expr::UnaryOp { expr, .. } => next_expr(pl, pos, expr),
        Expr::BinaryOp { lhs, rhs, .. } => next_expr(pl, next_expr(pl, pos, lhs), rhs),
        Expr::Tuple { exprs } => next_exprs(pl, pos, exprs@),
        Expr::Array(Array::ElementList(items)) => next_exprs(pl, pos, items@),
        Expr::Array(Array::Repeat { initializer, repeat }) => next_expr(
            pl,
            next_expr(pl, pos, initializer),
            repeat,
        ),
    }
}

/// The patterns that a pattern is made of, from the first to the last.
pub open spec fn inner_pats(node: Pat) -> Seq<PatId> {
    match node {
        Pat::Tuple(args) => args@,
        Pat::TupleStruct { args, .. } => args@,
        Pat::Struct { args, .. } => Seq::new(args@.len(), |i: int| args@[i].pat),
        Pat::Slice { prefix, rest: Some(rest), suffix } => prefix@.push(rest) + suffix@,
        Pat::Slice { prefix, rest: None, suffix } => prefix@ + suffix@,
        Pat::Bind { subpat: Some(sub), .. } => seq![sub],
        Pat::Ref { pat, .. } => seq![pat],
        _ => Seq::empty(),
    }
}

/// The expressions that a pattern is made of.
pub open spec fn inner_exprs(node: Pat) -> Seq<ExprId> {
    match node {
        Pat::Lit(e) => seq![e],
        Pat::Range { start, end } => seq![start, end],
        _ => Seq::empty(),
    }
}

/// Whether the body is a tree, as a numbering of its parts shows: each expression and each
/// pattern takes up a stretch of numbers, and those of its parts follow one another in it.
#[verifier::opaque]
pub open spec fn in_order(pl: Places, body: Body) -> bool {
    &&& forall|e: ExprId|
        e.0 < body.expr_seq().len() ==> {
            let parts_end = next_parts(
                pl,
                pl.expr_start[e.0],
                #[trigger] body.expr_seq()[e.0 as int],
            );
            0 <= parts_end < pl.expr_end[e.0]
        }
    &&& forall|p: PatId|
        p.0 < body.pat_seq().len() ==> {
            let node = #[trigger] body.pat_seq()[p.0 as int];
            let parts_end = next_exprs(
                pl,
                next_pats(pl, pl.pat_start[p.0] + 1, inner_pats(node)),
                inner_exprs(node),
            );
            0 <= parts_end < pl.pat_end[p.0]
        }
}

/// What was expected of an expression, and the type that was held against that.
pub struct Wanted {
    pub expected: TyModel,
    pub taken: TyModel,
}

/// What was expected where a pattern was matched, the binding mode there, the type that
/// was held against that, and the type that the pattern was found to match.
pub struct Matched {
    pub expected: TyModel,
    pub mode: BindingMode,
    pub taken: TyModel,
    pub given: TyModel,
}

/// What was expected of expressions and patterns, and what was learned from it.
pub struct Expected {
    pub exprs: Map<u32, Wanted>,
    pub pats: Map<u32, Matched>,
    /// The place from which on the type of the result is known.
    pub signature_end: int,
    /// The variables at the start.
    pub start: Seq<VarModel>,
    /// The types that were made equal since.
    pub learned: Seq<(TyModel, TyModel)>,
    /// How much the user had been told at the start.
    pub told: int,
    /// The goals that were open at the start.
    pub goals: Seq<TraitRefModel>,
    /// What the patterns that name a variant are matched with.
    pub met: Map<u32, TyModel>,
}

/// A type without parameters.
pub open spec fn plain(ctor: TypeCtor) -> TyModel {
    TyModel::Apply { ctor, params: Seq::empty() }
}

/// A type with one parameter.
pub open spec fn of_one(ctor: TypeCtor, t: TyModel) -> TyModel {
    TyModel::Apply { ctor, params: seq![t] }
}

/// Whether an expression has a type, and this was expected of it.
pub open spec fn expects(s: Model, d: Expected, e: ExprId, x: TyModel) -> bool {
    &&& d.exprs.contains_key(e.0)
    &&& d.exprs[e.0].expected == x
    &&& s.type_of_expr.contains_key(e.0)
}

/// Whether a pattern has a type, and was matched with this in this mode.
pub open spec fn matches_with(
    s: Model,
    d: Expected,
    p: PatId,
    x: TyModel,
    m: BindingMode,
) -> bool {
    &&& d.pats.contains_key(p.0)
    &&& d.pats[p.0].expected == x
    &&& d.pats[p.0].mode == m
    &&& s.type_of_pat.contains_key(p.0)
}

/// Whether a type is what is written, with variables for what is left open.
pub open spec fn written<D: HirDatabase>(
    env: Env<D>,
    type_ref: Option<TypeRef>,
    t: TyModel,
) -> bool {
    match type_ref {
        Some(type_ref) => settled::filled(env.db.lowered(Resolver::Def(env.owner), type_ref), t, 0),
        None => t == TyModel::Unknown,
    }
}

/// Whether a type is a variable for any type.
pub open spec fn is_variable(t: TyModel) -> bool {
    t matches TyModel::Infer(InferTy::TypeVar(_))
}

/// Whether a type is what is known of another by now.
pub open spec fn stands_for(s: Model, t: TyModel, source: TyModel) -> bool {
    &&& meaning::same(s.vars, t, source)
    &&& settled::is_open(source) ==> settled::is_open(t)
    &&& t == TyModel::Unknown <==> source == TyModel::Unknown
}

/// What is expected of the `i`th of a list: nothing beyond the types that there are.
pub open spec fn nth_or_unknown(tys: Seq<TyModel>, i: int) -> TyModel {
    if i < tys.len() {
        tys[i]
    } else {
        TyModel::Unknown
    }
}

/// Whether each argument is expected to be what is taken.
pub open spec fn args_ok(s: Model, d: Expected, args: Seq<ExprId>, params: Seq<TyModel>) -> bool {
    forall|i: int|
        0 <= i < args.len() ==> expects(s, d, #[trigger] args[i], nth_or_unknown(params, i))
}

/// Whether a statement is right: what is declared is expected of the initializer, and the
/// pattern is matched with the type of the initializer.
pub open spec fn statement_ok<D: HirDatabase>(
    env: Env<D>,
    s: Model,
    d: Expected,
    st: Statement,
) -> bool {
    match st {
        Statement::Let { pat, type_ref, initializer: Some(init) } => {
            &&& exists|t: TyModel| #[trigger]
                expects(s, d, init, t) && match type_ref {
                    Some(_) => written(env, type_ref, t),
                    None => is_variable(t),
                }
            &&& matches_with(s, d, pat, s.type_of_expr[init.0], BindingMode::Move)
        },
        Statement::Let { pat, type_ref, initializer: None } => exists|t: TyModel| #[trigger]
            matches_with(s, d, pat, t, BindingMode::Move) && match type_ref {
                Some(_) => written(env, type_ref, t),
                None => is_variable(t),
            },
        Statement::Expr(e) => expects(s, d, e, TyModel::Unknown),
    }
}

/// Whether an arm is right: each of its patterns is matched with the type of what is
/// matched, and the type of the whole is expected of it.
pub open spec fn arm_ok(s: Model, d: Expected, arm: MatchArm, input: TyModel, x: TyModel) -> bool {
    &&& forall|i: int|
        0 <= i < arm.pats@.len() ==> matches_with(
            s,
            d,
            #[trigger] arm.pats@[i],
            input,
            BindingMode::Move,
        )
    &&& arm.guard matches Some(guard) ==> expects(s, d, guard, plain(TypeCtor::Bool))
    &&& expects(s, d, arm.expr, x)
}

/// Whether a parameter of a closure is right: it is matched with what is declared for it.
pub open spec fn closure_param_ok<D: HirDatabase>(
    env: Env<D>,
    s: Model,
    d: Expected,
    p: PatId,
    type_ref: Option<TypeRef>,
) -> bool {
    exists|t: TyModel| #[trigger]
        matches_with(s, d, p, t, BindingMode::Move) && written(env, type_ref, t)
}

/// Whether a path names a variant with this type.
pub open spec fn names_variant<D: HirDatabase>(
    env: Env<D>,
    path: Option<Path>,
    t: TyModel,
    def: Option<VariantDef>,
) -> bool {
    match path {
        Some(path) => match env.db.full_path_resolution(Resolver::Def(env.owner), path).types {
            Some(Resolution::Def(ModuleDef::Struct(strukt))) => {
                &&& def == Some(VariantDef::Struct(strukt))
                &&& given_params(
                    env.db.struct_type(strukt),
                    env.db.path_substs(Resolver::Def(env.owner), path, TypableDef::Struct(strukt)),
                    t,
                )
            },
            Some(Resolution::Def(ModuleDef::EnumVariant(variant))) => {
                &&& def == Some(VariantDef::EnumVariant(variant))
                &&& given_params(
                    env.db.enum_type(env.db.enum_of(variant)),
                    env.db.path_substs(
                        Resolver::Def(env.owner),
                        path,
                        TypableDef::EnumVariant(variant),
                    ),
                    t,
                )
            },
            _ => def is None && t == TyModel::Unknown,
        },
        None => def is None && t == TyModel::Unknown,
    }
}

/// Whether a type is another with these parameters, and with variables for what they leave
/// open.
pub open spec fn given_params(source: TyModel, params: Seq<TyModel>, t: TyModel) -> bool {
    match source {
        TyModel::Apply { ctor, .. } => settled::filled(TyModel::Apply { ctor, params }, t, 0),
        _ => settled::filled(source, t, 0),
    }
}

/// The type of a field of a variant of some type; unknown if there is no such field.
pub open spec fn type_of_field<D: HirDatabase>(
    db: &D,
    def: Option<VariantDef>,
    t: TyModel,
    name: Seq<char>,
) -> TyModel {
    match def {
        Some(def) => match (db.field_named(def, name), t) {
            (Some(field), TyModel::Apply { params, .. }) => ty::subst(
                db.field_type(field),
                params,
            ),
            (Some(field), _) => ty::subst(db.field_type(field), Seq::empty()),
            (None, _) => TyModel::Unknown,
        },
        None => TyModel::Unknown,
    }
}

/// Whether a type has a field of that name and type.
pub open spec fn has_field<D: HirDatabase>(
    db: &D,
    t: TyModel,
    name: Seq<char>,
    field_ty: TyModel,
) -> bool {
    match t {
        TyModel::Apply { ctor: TypeCtor::Tuple, params } => exists|i: usize|
            name::tuple_index(name) == Some(i) && i < params.len() && #[trigger] params[i as int]
                == field_ty,
        TyModel::Apply { ctor: TypeCtor::Adt(AdtDef::Struct(strukt)), params } => {
            match db.field_named(VariantDef::Struct(strukt), name) {
                Some(field) => field_ty == ty::subst(db.field_type(field), params),
                None => false,
            }
        },
        _ => false,
    }
}

/// Whether the first of these types that has a field of that name has it with this type.
pub open spec fn first_has<D: HirDatabase>(
    db: &D,
    tys: Seq<TyModel>,
    name: Seq<char>,
    field_ty: TyModel,
) -> bool {
    exists|i: int|
        0 <= i < tys.len() && has_field(db, #[trigger] tys[i], name, field_ty) && forall|
            j: int,
            other: TyModel,
        |
            0 <= j < i ==> !#[trigger] has_field(db, tys[j], name, other)
}

/// Whether a type is that of a field of a value: of the first type, on the way through
/// references, that has one of that name. If none has, nothing is known of it.
pub open spec fn field_ok<D: HirDatabase>(
    db: &D,
    receiver: TyModel,
    name: Seq<char>,
    t: TyModel,
) -> bool {
    let tys = db.derefs(receiver);
    ||| exists|source: TyModel| #[trigger]
        first_has(db, tys, name, source) && settled::filled(source, t, 0)
    ||| {
        &&& forall|j: int, other: TyModel|
            0 <= j < tys.len() ==> !#[trigger] has_field(db, tys[j], name, other)
        &&& settled::filled(TyModel::Unknown, t, 0)
    }
}

/// Whether these are the types that a call gives for the parameters of a method: the type
/// that the method was found on for `Self`, nothing for the others of the definition around
/// it, then those that are written.
pub open spec fn method_params_ok<D: HirDatabase>(
    env: Env<D>,
    outer: Seq<name::Name>,
    own: nat,
    total: nat,
    args: Option<GenericArgs>,
    receiver: TyModel,
    substs: Seq<TyModel>,
) -> bool {
    let first = outer.len() as int;
    &&& substs.len() == total
    &&& forall|i: int|
        0 <= i < outer.len() ==> #[trigger] substs[i] == if outer[i]@ == "Self"@ {
            receiver
        } else {
            TyModel::Unknown
        }
    &&& forall|i: int|
        first <= i < total ==> match args {
            Some(args) if i - first < own && i - first < args.args@.len() => {
                let GenericArg::Type(type_ref) = args.args@[i - first];
                settled::filled(
                    env.db.lowered(Resolver::Def(env.owner), type_ref),
                    #[trigger] substs[i],
                    0,
                )
            },
            _ => #[trigger] substs[i] == TyModel::Unknown,
        }
}

/// Whether a type is that of the method that a call is of, with what the call gives for the
/// parameters.
pub open spec fn method_ty_ok<D: HirDatabase>(
    env: Env<D>,
    found: Option<(TyModel, defs::Function)>,
    args: Option<GenericArgs>,
    method_ty: TyModel,
) -> bool {
    match found {
        Some((receiver, func)) => {
            let generics = env.db.fn_generics_of(func);
            exists|substs: Seq<TyModel>| #[trigger]
                given_params(
                    env.db.type_of_def(TypableDef::Function(func), Namespace::Values),
                    substs,
                    method_ty,
                ) && method_params_ok(
                    env,
                    match generics.parent_params {
                        Some(parent) => parent.params@,
                        None => Seq::empty(),
                    },
                    generics.params@.len(),
                    generics.total(),
                    args,
                    receiver,
                    substs,
                )
        },
        None => is_variable(method_ty),
    }
}

/// Whether what a method takes first goes with the type that it was found on, behind the
/// reference if it takes one.
pub open spec fn receiver_ok(s: Model, taken: TyModel, receiver: TyModel) -> bool {
    match taken {
        TyModel::Apply { ctor: TypeCtor::Ref(_), params } => params.len() == 1 && meaning::learned(
            s.vars,
            params[0],
            receiver,
        ),
        _ => meaning::learned(s.vars, taken, receiver),
    }
}

/// Whether a method call is right, where the receiver has the given type: the method is
/// that of the name, the arguments are expected to be what it takes, the result is its, and
/// what it asks for has been looked at.
pub open spec fn method_call_ok<D: HirDatabase>(
    env: Env<D>,
    s: Model,
    d: Expected,
    receiver: TyModel,
    name: Seq<char>,
    generic_args: Option<GenericArgs>,
    args: Seq<ExprId>,
    rule: TyModel,
) -> bool {
    let found = env.db.method_named(receiver, name, Resolver::Def(env.owner));
    exists|method_ty: TyModel| #[trigger]
        method_ty_ok(env, found, generic_args, method_ty) && (forall|goal: TraitRefModel|
            #[trigger]
            step_laws::is_goal_of(env.db, method_ty, goal) ==> meaning::used(
                env.db,
                s.vars,
                goal,
            )) && match env.db.signature_of_callable(method_ty) {
            Some(sig) => {
                &&& stands_for(s, rule, sig.ret)
                &&& if sig.params.len() > 0 {
                    &&& receiver_ok(
                        s,
                        sig.params[0],
                        match found {
                            Some((t, _)) => t,
                            None => receiver,
                        },
                    )
                    &&& args_ok(s, d, args, sig.params.skip(1))
                } else {
                    args_ok(s, d, args, Seq::empty())
                }
            },
            None => rule == TyModel::Unknown && args_ok(s, d, args, Seq::empty()),
        }
}

/// The definition as one that has a type: a module and a trait have none.
pub open spec fn with_type(def: ModuleDef) -> Option<TypableDef> {
    match def {
        ModuleDef::Module(_) | ModuleDef::Trait(_) => None,
        ModuleDef::Function(it) => Some(TypableDef::Function(it)),
        ModuleDef::Struct(it) => Some(TypableDef::Struct(it)),
        ModuleDef::Enum(it) => Some(TypableDef::Enum(it)),
        ModuleDef::EnumVariant(it) => Some(TypableDef::EnumVariant(it)),
        ModuleDef::Const(it) => Some(TypableDef::Const(it)),
        ModuleDef::Static(it) => Some(TypableDef::Static(it)),
        ModuleDef::TypeAlias(it) => Some(TypableDef::TypeAlias(it)),
    }
}

/// Whether an item has this name as one that a path can refer to.
pub open spec fn named_item<D: HirDatabase>(db: &D, item: ImplItem, name: Seq<char>) -> bool {
    match item {
        ImplItem::Method(func) => db.fn_signature_of(func).name@ == name,
        ImplItem::Const(konst) => db.const_signature_of(konst).name@ == name,
        ImplItem::TypeAlias(_) => false,
    }
}

/// Whether an item is the first of its name.
pub open spec fn first_item<D: HirDatabase>(
    db: &D,
    items: Seq<ImplItem>,
    name: Seq<char>,
    item: ImplItem,
) -> bool {
    exists|i: int|
        0 <= i < items.len() && #[trigger] items[i] == item && named_item(db, item, name)
            && forall|j: int| 0 <= j < i ==> !named_item(db, #[trigger] items[j], name)
}

/// Whether a definition has a type, and an associated item of that type, the first with the
/// name of the `i`th segment of a path, is this. The type is that of the definition with
/// what the segment before gives for its parameters.
pub open spec fn segment_ok<D: HirDatabase>(
    env: Env<D>,
    krate: Option<Crate>,
    path: Path,
    i: int,
    def: ModuleDef,
    base: TyModel,
    item: ImplItem,
) -> bool {
    &&& 0 < i < path.segments@.len()
    &&& krate is Some
    &&& with_type(def) matches Some(typable) && base == ty::subst(
        env.db.type_of_def(typable, Namespace::Types),
        env.db.segment_substs(Resolver::Def(env.owner), path.segments@[i - 1], typable),
    )
    &&& first_item(
        env.db,
        env.db.items_of_type(base, krate->Some_0),
        path.segments@[i].name@,
        item,
    )
}

/// Whether the segments of a path from the `i`th on lead from a definition, over the types
/// that they are looked up on, to another.
pub open spec fn leads_to<D: HirDatabase>(
    env: Env<D>,
    krate: Option<Crate>,
    path: Path,
    i: int,
    from: (Resolution, Option<TyModel>),
    to: (Resolution, Option<TyModel>),
) -> bool
    decreases path.segments@.len() - i,
{
    if i >= path.segments@.len() {
        from == to
    } else {
        exists|base: TyModel, item: ImplItem|
            from.0 is Def && #[trigger] segment_ok(env, krate, path, i, from.0->Def_0, base, item)
                && leads_to(
                env,
                krate,
                path,
                i + 1,
                (
                    Resolution::Def(
                        match item {
                            ImplItem::Method(func) => ModuleDef::Function(func),
                            ImplItem::Const(konst) => ModuleDef::Const(konst),
                            ImplItem::TypeAlias(alias) => ModuleDef::TypeAlias(alias),
                        },
                    ),
                    Some(base),
                ),
                to,
            )
    }
}

/// Whether a type is that of a definition as a value, with what a path gives for its
/// parameters, and with what the type that it was found on gives for those of the `impl`
/// block around it.
pub open spec fn def_ty_ok<D: HirDatabase>(
    env: Env<D>,
    path: Path,
    def: ModuleDef,
    base: Option<TyModel>,
    t: TyModel,
) -> bool {
    with_type(def) matches Some(typable) && {
        let declared = env.db.type_of_def(typable, Namespace::Values);
        let given = env.db.path_substs(Resolver::Def(env.owner), path, typable);
        match path::self_types(env.db, def, base) {
            Ok(Some(found)) => settled::filled(
                ty::subst(ty::subst(declared, found), given),
                t,
                0,
            ),
            _ => settled::filled(ty::subst(declared, given), t, 0),
        }
    }
}

/// Whether a type is that of a path as a value. The type of a local binding is what its
/// pattern has been found to have; only such a binding counts here as comes before `end`.
pub open spec fn path_ok<D: HirDatabase>(
    env: Env<D>,
    pl: Places,
    s: Model,
    d: Expected,
    resolver: Resolver,
    path: Path,
    end: int,
    t: TyModel,
) -> bool {
    let found = env.db.path_resolution(resolver, path);
    let krate = env.db.crate_of(resolver);
    match found.remaining_index {
        None => match found.def.values {
            Some(Resolution::Def(def)) => if with_type(def) is Some {
                def_ty_ok(env, path, def, None, t)
            } else {
                t == TyModel::Unknown
            },
            Some(Resolution::LocalBinding(p)) => d.pats.contains_key(p.0) && pl.pat_end[p.0] < end
                ==> meaning::same(s.vars, t, s.type_of_pat[p.0]),
            _ => t == TyModel::Unknown,
        },
        Some(i) => match found.def.types {
            None => t == TyModel::Unknown,
            Some(first) => {
                &&& t != TyModel::Unknown ==> exists|to: (Resolution, Option<TyModel>)| #[trigger]
                    leads_to(env, krate, path, i as int, (first, None), to) && match to.0 {
                        Resolution::Def(def) => def_ty_ok(env, path, def, to.1, t),
                        _ => true,
                    }
                &&& t == TyModel::Unknown ==> forall|to: (Resolution, Option<TyModel>)| #[trigger]
                    leads_to(env, krate, path, i as int, (first, None), to) ==> match to.0 {
                        Resolution::Def(def) => with_type(def) is None,
                        _ => true,
                    }
            },
        },
    }
}

/// The type of a literal.
pub open spec fn literal_ok(literal: Literal, t: TyModel) -> bool {
    match literal {
        Literal::Bool(_) => t == plain(TypeCtor::Bool),
        Literal::Char(_) => t == plain(TypeCtor::Char),
        Literal::String(_) => t == of_one(
            TypeCtor::Ref(Mutability::Shared),
            plain(TypeCtor::Str),
        ),
        Literal::ByteString(_) => t == of_one(
            TypeCtor::Ref(Mutability::Shared),
            of_one(
                TypeCtor::Slice,
                plain(
                    TypeCtor::Int(
                        UncertainIntTy::Known(
                            IntTy { signedness: Signedness::Unsigned, bitness: IntBitness::X8 },
                        ),
                    ),
                ),
            ),
        ),
        Literal::Int(_, kind) => t == plain(TypeCtor::Int(kind)),
        Literal::Float(_, kind) => t == plain(TypeCtor::Float(kind)),
    }
}

/// Whether a type is a number type, or will be one. An unsigned one counts only if so
/// asked, and a float type too.
pub open spec fn is_number(t: TyModel, unsigned: bool, float: bool) -> bool {
    match t {
        TyModel::Apply { ctor: TypeCtor::Int(UncertainIntTy::Known(known)), .. } => unsigned
            || known.signedness == Signedness::Signed,
        TyModel::Apply { ctor: TypeCtor::Int(UncertainIntTy::Unknown), .. } => true,
        TyModel::Infer(InferTy::IntVar(_)) => true,
        TyModel::Apply { ctor: TypeCtor::Float(_), .. } => float,
        TyModel::Infer(InferTy::FloatVar(_)) => float,
        _ => false,
    }
}

/// Whether a type is that of a unary operation: `*` gives what a reference or a pointer
/// refers to, `-` and `!` keep the type of what they can be applied to without a trait.
pub open spec fn unary_ok(op: UnaryOp, inner: TyModel, t: TyModel) -> bool {
    match op {
        UnaryOp::Deref => match inner {
            TyModel::Apply { ctor: TypeCtor::Ref(_), params }
            | TyModel::Apply { ctor: TypeCtor::RawPtr(_), params } => params == seq![t],
            _ => t == TyModel::Unknown,
        },
        UnaryOp::Neg => t == if is_number(inner, false, true) {
            inner
        } else {
            TyModel::Unknown
        },
        UnaryOp::Not => t == if is_number(inner, true, false) || inner matches TyModel::Apply {
            ctor: TypeCtor::Bool,
            ..
        } {
            inner
        } else {
            TyModel::Unknown
        },
    }
}

/// Whether one type is what is expected behind a reference where the other is expected of
/// the reference.
pub open spec fn referent_ok(x: TyModel, behind: TyModel) -> bool {
    match x {
        TyModel::Apply { ctor: TypeCtor::Ref(_), params } => params == seq![behind],
        _ => behind == TyModel::Unknown,
    }
}

/// Whether one type is that of the elements of an array of which the other is expected.
pub open spec fn element_ok(x: TyModel, element: TyModel) -> bool {
    match x {
        TyModel::Apply { ctor: TypeCtor::Slice, params }
        | TyModel::Apply { ctor: TypeCtor::Array, params } => params == seq![element],
        _ => is_variable(element),
    }
}

/// Whether a type is what the rule for an expression says, where `x` is expected of the
/// expression, with the types of its parts and what is expected of them.
pub open spec fn rule_ok<D: HirDatabase>(
    env: Env<D>,
    pl: Places,
    s: Model,
    d: Expected,
    e: ExprId,
    x: TyModel,
    t: TyModel,
) -> bool {
    let unknown = TyModel::Unknown;
    let bool_ty = plain(TypeCtor::Bool);
    let unit = plain(TypeCtor::Tuple);
    let never = plain(TypeCtor::Never);
    match env.body.expr_seq()[e.0 as int] {
        Expr::Missing => t == unknown,
        Expr::If { condition, then_branch, else_branch } => {
            &&& expects(s, d, condition, bool_ty)
            &&& expects(s, d, then_branch, x)
            &&& t == s.type_of_expr[then_branch.0]
            &&& match else_branch {
                Some(else_branch) => expects(s, d, else_branch, x),
                None => meaning::learned(s.vars, t, unit),
            }
        },
        Expr::Block { statements, tail } => {
            &&& forall|i: int|
                0 <= i < statements@.len() ==> statement_ok(env, s, d, #[trigger] statements@[i])
            &&& match tail {
                Some(tail) => expects(s, d, tail, x) && t == s.type_of_expr[tail.0],
                None => t == unit,
            }
        },
        Expr::Loop { body } => expects(s, d, body, unit) && t == never,
        Expr::While { condition, body } => expects(s, d, condition, bool_ty) && expects(
            s,
            d,
            body,
            unit,
        ) && t == unit,
        Expr::For { iterable, pat, body } => {
            &&& expects(s, d, iterable, unknown)
            &&& matches_with(s, d, pat, unknown, BindingMode::Move)
            &&& expects(s, d, body, unit)
            &&& t == unit
        },
        Expr::Lambda { args, arg_types, body } => {
            &&& args@.len() == arg_types@.len()
            &&& forall|i: int|
                0 <= i < args@.len() ==> closure_param_ok(
                    env,
                    s,
                    d,
                    #[trigger] args@[i],
                    arg_types@[i],
                )
            &&& expects(s, d, body, unknown)
            &&& t == unknown
        },
        Expr::Call { callee, args } => {
            &&& expects(s, d, callee, unknown)
            &&& match env.db.signature_of_callable(s.type_of_expr[callee.0]) {
                Some(sig) => args_ok(s, d, args@, sig.params) && t == sig.ret,
                None => args_ok(s, d, args@, Seq::empty()) && t == unknown,
            }
        },
        Expr::MethodCall { receiver, method_name, args, generic_args } => {
            &&& expects(s, d, receiver, unknown)
            &&& method_call_ok(
                env,
                s,
                d,
                s.type_of_expr[receiver.0],
                method_name@,
                generic_args,
                args@,
                t,
            )
        },
        Expr::Match { expr, arms } => {
            &&& expects(s, d, expr, unknown)
            &&& if x == unknown {
                is_variable(t)
            } else {
                t == x
            }
            &&& forall|i: int|
                0 <= i < arms@.len() ==> arm_ok(
                    s,
                    d,
                    #[trigger] arms@[i],
                    s.type_of_expr[expr.0],
                    t,
                )
        },
        Expr::Path(p) => path_ok(
            env,
            pl,
            s,
            d,
            Resolver::Expr(env.owner, e),
            p,
            pl.expr_end[e.0],
            t,
        ),
        Expr::Continue => t == never,
        Expr::Break { expr } => {
            &&& expr matches Some(value) ==> expects(s, d, value, unknown)
            &&& t == never
        },
        Expr::Return { expr } => {
            &&& expr matches Some(value) ==> d.exprs.contains_key(value.0)
                && s.type_of_expr.contains_key(value.0) && (pl.expr_end[e.0] > d.signature_end
                ==> expects(s, d, value, s.return_ty))
            &&& t == never
        },
        Expr::StructLit { path, fields, spread } => exists|def: Option<VariantDef>| #[trigger]
            names_variant(env, path, t, def) && struct_lit_ok(
                env,
                s,
                d,
                e,
                fields@,
                spread,
                def,
                t,
            ),
        Expr::Field { expr, name } => {
            &&& expects(s, d, expr, unknown)
            &&& field_ok(env.db, s.type_of_expr[expr.0], name@, t)
        },
        Expr::Try { expr } => expects(s, d, expr, unknown) && t == unknown,
        Expr::Cast { expr, type_ref } => {
            &&& expects(s, d, expr, unknown)
            &&& settled::filled(env.db.lowered(Resolver::Def(env.owner), type_ref), t, 0)
        },
        Expr::Ref { expr, mutability } => {
            &&& exists|behind: TyModel| #[trigger]
                expects(s, d, expr, behind) && referent_ok(x, behind)
            &&& t == of_one(TypeCtor::Ref(mutability), s.type_of_expr[expr.0])
        },
        Expr::UnaryOp { expr, op } => {
            &&& expects(s, d, expr, unknown)
            &&& unary_ok(op, s.type_of_expr[expr.0], t)
        },
        Expr::BinaryOp { lhs, rhs, op: Some(op) } => {
            &&& expects(
                s,
                d,
                lhs,
                if op is BooleanAnd || op is BooleanOr {
                    bool_ty
                } else {
                    unknown
                },
            )
            &&& expects(s, d, rhs, env.db.rhs_expectation(op, s.type_of_expr[lhs.0]))
            &&& t == env.db.op_result(op, s.type_of_expr[rhs.0])
        },
        Expr::BinaryOp { lhs, rhs, op: None } => expects(s, d, lhs, unknown) && expects(
            s,
            d,
            rhs,
            unknown,
        ) && t == unknown,
        Expr::Tuple { exprs } => {
            &&& t matches TyModel::Apply { ctor: TypeCtor::Tuple, params } && params.len()
                == exprs@.len() && forall|i: int|
                0 <= i < exprs@.len() ==> expects(s, d, #[trigger] exprs@[i], unknown) && params[i]
                    == s.type_of_expr[exprs@[i].0]
        },
        Expr::Array(Array::ElementList(items)) => exists|element: TyModel| #[trigger]
            element_ok(x, element) && t == of_one(TypeCtor::Array, element) && forall|i: int|
                0 <= i < items@.len() ==> expects(s, d, #[trigger] items@[i], element),
        Expr::Array(Array::Repeat { initializer, repeat }) => exists|element: TyModel| #[trigger]
            element_ok(x, element) && t == of_one(TypeCtor::Array, element) && expects(
                s,
                d,
                initializer,
                element,
            ) && expects(
                s,
                d,
                repeat,
                plain(
                    TypeCtor::Int(
                        UncertainIntTy::Known(
                            IntTy { signedness: Signedness::Unsigned, bitness: IntBitness::Xsize },
                        ),
                    ),
                ),
            ),
        Expr::Literal(literal) => literal_ok(literal, t),
    }
}

/// Whether the fields of a struct literal are right: the type of the field is expected of
/// each, the type of the whole of what the other fields are taken from, and the user has
/// been told of each field that there is not.
pub open spec fn struct_lit_ok<D: HirDatabase>(
    env: Env<D>,
    s: Model,
    d: Expected,
    e: ExprId,
    fields: Seq<StructLitField>,
    spread: Option<ExprId>,
    def: Option<VariantDef>,
    t: TyModel,
) -> bool {
    &&& forall|i: int|
        0 <= i < fields.len() ==> field_value_ok(env, s, d, e, #[trigger] fields[i], i, def, t)
    &&& spread matches Some(spread) ==> expects(s, d, spread, t)
}

pub open spec fn field_value_ok<D: HirDatabase>(
    env: Env<D>,
    s: Model,
    d: Expected,
    e: ExprId,
    field: StructLitField,
    i: int,
    def: Option<VariantDef>,
    t: TyModel,
) -> bool {
    &&& expects(s, d, field.expr, type_of_field(env.db, def, t, field.name@))
    &&& (def matches Some(def) && env.db.field_named(def, field.name@) is None)
        ==> s.diagnostics.contains(
        InferenceDiagnostic::NoSuchField { expr: e, field: i as usize },
    )
}

/// Whether a type is another behind references of these mutabilities, from the outermost to
/// the innermost, and is not a reference itself.
pub open spec fn unwrapped(outer: TyModel, refs: Seq<Mutability>, inner: TyModel) -> bool
    decreases refs.len(),
{
    match outer {
        TyModel::Apply { ctor: TypeCtor::Ref(m), params } => {
            &&& refs.len() > 0
            &&& refs[0] == m
            &&& params.len() == 1
            &&& unwrapped(params[0], refs.skip(1), inner)
        },
        _ => refs.len() == 0 && inner == outer,
    }
}

/// The binding mode behind references: shared if one of them is shared or the mode was so
/// before, mutable if there is a reference but no shared one.
pub open spec fn mode_through(mode: BindingMode, refs: Seq<Mutability>) -> BindingMode {
    if refs.len() == 0 {
        mode
    } else if refs.contains(Mutability::Shared) || mode == BindingMode::Ref(Mutability::Shared) {
        BindingMode::Ref(Mutability::Shared)
    } else {
        BindingMode::Ref(Mutability::Mut)
    }
}

/// Whether a pattern that stands where `outer` is expected in some mode is matched with
/// `x` in the mode `m`: a reference pattern and a binding with what is there, a pattern of
/// another form with what is behind all references.
pub open spec fn meets(
    node: Pat,
    outer: TyModel,
    mode: BindingMode,
    x: TyModel,
    m: BindingMode,
) -> bool {
    match node {
        Pat::Missing | Pat::Wild | Pat::Bind { .. } => x == outer && m == mode,
        Pat::Ref { .. } => x == outer && m == BindingMode::Move,
        _ => exists|refs: Seq<Mutability>| #[trigger]
            unwrapped(outer, refs, x) && m == mode_through(mode, refs),
    }
}

/// The binding mode of a binding: that which is written, or else that of the place.
pub open spec fn own_mode(annotation: BindingAnnotation, m: BindingMode) -> BindingMode {
    match annotation {
        BindingAnnotation::Unannotated => m,
        BindingAnnotation::Mutable => BindingMode::Move,
        BindingAnnotation::Ref => BindingMode::Ref(Mutability::Shared),
        BindingAnnotation::RefMut => BindingMode::Ref(Mutability::Mut),
    }
}

/// Whether a pattern that names a variant is matched with this.
pub open spec fn was_met(d: Expected, p: PatId, x: TyModel) -> bool {
    d.met.contains_key(p.0) && d.met[p.0] == x
}

/// Whether the type that a pattern names a variant of was held against what it is matched
/// with, and a type is what is known of that by now.
pub open spec fn variant_pat_ok(s: Model, source: TyModel, x: TyModel, t: TyModel) -> bool {
    meaning::learned(s.vars, source, x) && stands_for(s, t, source)
}

/// Whether a type is what the rule for a pattern other than a binding says, where the
/// pattern is matched with `x` in the mode `m`.
pub open spec fn pat_rule_ok<D: HirDatabase>(
    env: Env<D>,
    pl: Places,
    s: Model,
    d: Expected,
    p: PatId,
    x: TyModel,
    m: BindingMode,
    t: TyModel,
) -> bool {
    let unknown = TyModel::Unknown;
    match env.body.pat_seq()[p.0 as int] {
        Pat::Missing | Pat::Wild | Pat::Bind { .. } => t == unknown,
        Pat::Tuple(args) => {
            let fields = match x {
                TyModel::Apply { ctor: TypeCtor::Tuple, params } => params,
                _ => Seq::empty(),
            };
            &&& t matches TyModel::Apply { ctor: TypeCtor::Tuple, params } && params.len()
                == args@.len() && forall|i: int|
                0 <= i < args@.len() ==> matches_with(
                    s,
                    d,
                    #[trigger] args@[i],
                    nth_or_unknown(fields, i),
                    m,
                ) && params[i] == d.pats[args@[i].0].given
        },
        Pat::Ref { pat, mutability } => {
            &&& exists|behind: TyModel| #[trigger]
                matches_with(s, d, pat, behind, m) && referent_ok(x, behind)
            &&& t == of_one(TypeCtor::Ref(mutability), d.pats[pat.0].given)
        },
        Pat::TupleStruct { path, args } => was_met(d, p, x) && exists|
            source: TyModel,
            def: Option<VariantDef>,
        |
            #[trigger]
            names_variant(env, path, source, def) && variant_pat_ok(s, source, x, t) && forall|
                i: int,
            |
                0 <= i < args@.len() ==> matches_with(
                    s,
                    d,
                    #[trigger] args@[i],
                    type_of_field(env.db, def, source, name::decimal(i as nat)),
                    m,
                ),
        Pat::Struct { path, args } => was_met(d, p, x) && exists|
            source: TyModel,
            def: Option<VariantDef>,
        |
            #[trigger]
            names_variant(env, path, source, def) && variant_pat_ok(s, source, x, t) && forall|
                i: int,
            |
                0 <= i < args@.len() ==> matches_with(
                    s,
                    d,
                    (#[trigger] args@[i]).pat,
                    type_of_field(env.db, def, source, args@[i].name@),
                    m,
                ),
        Pat::Path(path) => path_ok(
            env,
            pl,
            s,
            d,
            Resolver::Def(env.owner),
            path,
            pl.pat_end[p.0],
            t,
        ),
        Pat::Slice { prefix, rest, suffix } => {
            &&& forall|i: int|
                0 <= i < prefix@.len() ==> matches_with(s, d, #[trigger] prefix@[i], unknown, m)
            &&& rest matches Some(rest) ==> matches_with(s, d, rest, unknown, m)
            &&& forall|i: int|
                0 <= i < suffix@.len() ==> matches_with(s, d, #[trigger] suffix@[i], unknown, m)
            &&& t == unknown
        },
        Pat::Range { start, end } => expects(s, d, start, unknown) && expects(s, d, end, unknown)
            && t == unknown,
        Pat::Lit(e) => expects(s, d, e, unknown) && t == unknown,
    }
}

/// Whether a binding is right, where it stands for what is matched with `x` in the mode
/// `m`: `given` is what is matched, and the variable has that type, or is a reference to it.
pub open spec fn binding_ok(
    s: Model,
    d: Expected,
    p: PatId,
    annotation: BindingAnnotation,
    sub: Option<PatId>,
    x: TyModel,
    m: BindingMode,
    taken: TyModel,
    given: TyModel,
) -> bool {
    let source = match sub {
        Some(sub) => d.pats[sub.0].given,
        None => x,
    };
    &&& sub matches Some(sub) ==> matches_with(s, d, sub, x, m)
    &&& meaning::same(s.vars, given, taken)
    &&& if settled::is_open(source) {
        taken is Infer
    } else {
        taken == source
    }
    &&& s.type_of_pat[p.0] == match own_mode(annotation, m) {
        BindingMode::Move => given,
        BindingMode::Ref(mutability) => of_one(TypeCtor::Ref(mutability), given),
    }
}

/// Whether a type was held against what is expected that is what the rule says, or a
/// variable if the rule leaves it open, all has been learned from that, and the type stands
/// for what was recorded.
pub open spec fn taken_ok(
    s: Model,
    rule: TyModel,
    taken: TyModel,
    x: TyModel,
    recorded: TyModel,
) -> bool {
    &&& meaning::same(s.vars, recorded, taken)
    &&& meaning::learned(s.vars, taken, x)
    &&& if settled::is_open(rule) {
        taken is Infer
    } else {
        taken == rule
    }
}

/// Whether the type recorded for an expression is right.
pub open spec fn expr_ok<D: HirDatabase>(
    env: Env<D>,
    pl: Places,
    s: Model,
    d: Expected,
    e: ExprId,
) -> bool {
    let x = d.exprs[e.0].expected;
    &&& s.type_of_expr.contains_key(e.0)
    &&& exists|t: TyModel| #[trigger]
        rule_ok(env, pl, s, d, e, x, t) && meaning::takes(s.vars, s.type_of_expr[e.0], t, x)
            && taken_ok(s, t, d.exprs[e.0].taken, x, s.type_of_expr[e.0])
}

/// Whether the type recorded for a pattern is right.
pub open spec fn pat_ok<D: HirDatabase>(
    env: Env<D>,
    pl: Places,
    s: Model,
    d: Expected,
    p: PatId,
) -> bool {
    let node = env.body.pat_seq()[p.0 as int];
    let at = d.pats[p.0];
    &&& s.type_of_pat.contains_key(p.0)
    &&& exists|x: TyModel, m: BindingMode| #[trigger]
        meets(node, at.expected, at.mode, x, m) && match node {
            Pat::Bind { mode: annotation, subpat, .. } => binding_ok(
                s,
                d,
                p,
                annotation,
                subpat,
                x,
                m,
                at.taken,
                at.given,
            ),
            _ => at.given == s.type_of_pat[p.0] && exists|t: TyModel| #[trigger]
                pat_rule_ok(env, pl, s, d, p, x, m, t) && meaning::takes(
                    s.vars,
                    s.type_of_pat[p.0],
                    t,
                    x,
                ) && taken_ok(s, t, at.taken, x, s.type_of_pat[p.0]),
        }
}

/// Whether two types were made equal because the one is that of an expression and the other
/// is expected of it.
pub open spec fn expected_of_expr(d: Expected, e: ExprId, pair: (TyModel, TyModel)) -> bool {
    d.exprs.contains_key(e.0) && pair == (d.exprs[e.0].taken, d.exprs[e.0].expected)
}

/// The same of a pattern.
pub open spec fn expected_of_pat<D: HirDatabase>(
    env: Env<D>,
    d: Expected,
    p: PatId,
    pair: (TyModel, TyModel),
) -> bool {
    let node = env.body.pat_seq()[p.0 as int];
    let at = d.pats[p.0];
    &&& d.pats.contains_key(p.0)
    &&& !(node is Bind)
    &&& pair.0 == at.taken
    &&& exists|m: BindingMode| #[trigger] meets(node, at.expected, at.mode, pair.1, m)
}

/// Whether two types were made equal because an `if` without an `else` has no value.
pub open spec fn without_else<D: HirDatabase>(
    env: Env<D>,
    s: Model,
    d: Expected,
    e: ExprId,
    pair: (TyModel, TyModel),
) -> bool {
    match env.body.expr_seq()[e.0 as int] {
        Expr::If { then_branch, else_branch: None, .. } => {
            &&& d.exprs.contains_key(then_branch.0)
            &&& s.type_of_expr.contains_key(then_branch.0)
            &&& pair == (s.type_of_expr[then_branch.0], plain(TypeCtor::Tuple))
        },
        _ => false,
    }
}

/// Whether two types were made equal because a pattern names a variant of the one type, and
/// is matched with the other.
pub open spec fn named_by_pattern<D: HirDatabase>(
    env: Env<D>,
    d: Expected,
    p: PatId,
    def: Option<VariantDef>,
    pair: (TyModel, TyModel),
) -> bool {
    &&& was_met(d, p, pair.1)
    &&& match env.body.pat_seq()[p.0 as int] {
        Pat::TupleStruct { path, .. } => names_variant(env, path, pair.0, def),
        Pat::Struct { path, .. } => names_variant(env, path, pair.0, def),
        _ => false,
    }
}

/// Whether one type is what a method takes first, and the other the type that it was found
/// on, behind a reference if it takes one.
pub open spec fn method_pair<D: HirDatabase>(
    env: Env<D>,
    found: Option<(TyModel, defs::Function)>,
    generic_args: Option<GenericArgs>,
    on: TyModel,
    method_ty: TyModel,
    pair: (TyModel, TyModel),
) -> bool {
    &&& method_ty_ok(env, found, generic_args, method_ty)
    &&& match env.db.signature_of_callable(method_ty) {
        Some(sig) if sig.params.len() > 0 => pair.0 == sig.params[0] && match sig.params[0] {
            TyModel::Apply { ctor: TypeCtor::Ref(m), .. } => pair.1 == of_one(
                TypeCtor::Ref(m),
                on,
            ),
            _ => pair.1 == on,
        },
        _ => pair == (TyModel::Unknown, on),
    }
}

/// Whether two types were made equal because of a method call.
pub open spec fn taken_by_method<D: HirDatabase>(
    env: Env<D>,
    s: Model,
    d: Expected,
    e: ExprId,
    method_ty: TyModel,
    pair: (TyModel, TyModel),
) -> bool {
    match env.body.expr_seq()[e.0 as int] {
        Expr::MethodCall { receiver, method_name, generic_args, .. } => {
            let on = s.type_of_expr[receiver.0];
            let found = env.db.method_named(on, method_name@, Resolver::Def(env.owner));
            &&& d.exprs.contains_key(receiver.0)
            &&& s.type_of_expr.contains_key(receiver.0)
            &&& method_pair(
                env,
                found,
                generic_args,
                match found {
                    Some((t, _)) => t,
                    None => on,
                },
                method_ty,
                pair,
            )
        },
        _ => false,
    }
}

/// Whether a goal is that of the method that a call is of.
pub open spec fn asked_by_call<D: HirDatabase>(
    env: Env<D>,
    s: Model,
    d: Expected,
    e: ExprId,
    method_ty: TyModel,
    goal: TraitRefModel,
) -> bool {
    match env.body.expr_seq()[e.0 as int] {
        Expr::MethodCall { receiver, method_name, generic_args, .. } => {
            let on = s.type_of_expr[receiver.0];
            let found = env.db.method_named(on, method_name@, Resolver::Def(env.owner));
            &&& d.exprs.contains_key(receiver.0)
            &&& s.type_of_expr.contains_key(receiver.0)
            &&& method_ty_ok(env, found, generic_args, method_ty)
            &&& step_laws::is_goal_of(env.db, method_ty, goal)
        },
        _ => false,
    }
}

/// Whether there is a reason for a goal: it was there at the start, or a method call asks
/// for it.
pub open spec fn goal_has_reason<D: HirDatabase>(
    env: Env<D>,
    s: Model,
    d: Expected,
    goal: TraitRefModel,
) -> bool {
    ||| d.goals.contains(goal)
    ||| exists|e: ExprId, method_ty: TyModel| #[trigger]
        asked_by_call(env, s, d, e, method_ty, goal)
}

/// Whether there is a reason to make two types equal.
pub open spec fn has_reason<D: HirDatabase>(
    env: Env<D>,
    s: Model,
    d: Expected,
    pair: (TyModel, TyModel),
) -> bool {
    ||| exists|e: ExprId| #[trigger] expected_of_expr(d, e, pair)
    ||| exists|p: PatId| #[trigger] expected_of_pat(env, d, p, pair)
    ||| exists|e: ExprId| #[trigger] without_else(env, s, d, e, pair)
    ||| exists|p: PatId, def: Option<VariantDef>| #[trigger]
        named_by_pattern(env, d, p, def, pair)
    ||| exists|e: ExprId, method_ty: TyModel| #[trigger]
        taken_by_method(env, s, d, e, method_ty, pair)
    ||| exists|goal: TraitRefModel| #[trigger]
        meaning::from_answer(env.db, goal, pair) && goal_has_reason(env, s, d, goal)
}

/// Whether the user is told rightly: a struct literal has a field that there is not.
pub open spec fn told_rightly<D: HirDatabase>(env: Env<D>, told: InferenceDiagnostic) -> bool {
    let InferenceDiagnostic::NoSuchField { expr, field } = told;
    match env.body.expr_seq()[expr.0 as int] {
        Expr::StructLit { path, fields, .. } => {
            &&& field < fields@.len()
            &&& exists|t: TyModel, def: VariantDef| #[trigger]
                names_variant(env, path, t, Some(def)) && env.db.field_named(
                    def,
                    fields@[field as int].name@,
                ) is None
        },
        _ => false,
    }
}

/// Whether nothing was learned, asked or told without a reason: whatever solved the
/// variables at the start solves them still, if it makes those types equal that there was a
/// reason to make equal.
pub open spec fn accounted<D: HirDatabase>(env: Env<D>, s: Model, d: Expected) -> bool {
    &&& meaning::teaches(d.start, s.vars, d.learned)
    &&& forall|k: int|
        0 <= k < d.learned.len() ==> has_reason(env, s, d, #[trigger] d.learned[k])
    &&& forall|k: int|
        0 <= k < s.obligations.len() ==> goal_has_reason(env, s, d, #[trigger] s.obligations[k])
    &&& forall|k: int|
        0 <= k < s.diagnostics.len() && d.told <= k ==> told_rightly(
            env,
            #[trigger] s.diagnostics[k],
        )
}

/// Whether the types recorded for all these expressions and patterns are right, and nothing
/// else was learned.
#[verifier::opaque]
pub open spec fn all_right<D: HirDatabase>(env: Env<D>, pl: Places, s: Model, d: Expected) -> bool {
    &&& forall|e: ExprId| #[trigger] d.exprs.contains_key(e.0) ==> expr_ok(env, pl, s, d, e)
    &&& forall|p: PatId| #[trigger] d.pats.contains_key(p.0) ==> pat_ok(env, pl, s, d, p)
    &&& accounted(env, s, d)
}

} // verus!
