//! What inference knows while it walks through a body.

use vstd::prelude::*;

use crate::body::Body;
use crate::db::{
    GuidanceModel, HirDatabase, Guidance, Obligation, Solution, SolutionModel, TraitRefModel,
};
use crate::defs::{
    DefWithBody, ExprId, ExprOrPatId, Function, ImplItem, PatId, Resolver, StructField, TypeRef,
};
use crate::diagnostics::InferenceDiagnostic;
use crate::error::InferError;
use crate::maps::{ArenaMap, NodeMap};
use crate::table::{VarModel, VarTable};
use crate::ty::{InferTy, Substs, Ty, TyModel, TypeVarId};
use crate::{fresh, resolve, ty, unify};

verus! {

/// What inference works on: a definition with its body, in a program.
pub struct Env<'a, D> {
    pub db: &'a D,
    pub body: &'a Body,
    pub owner: DefWithBody,
}

impl<'a, D> Env<'a, D> {
    /// Where the names of the definition are resolved from.
    pub open spec fn resolver(self) -> Resolver {
        Resolver::Def(self.owner)
    }
}

/// All that inference knows and has recorded, as a mathematical value.
#[verifier::ext_equal]
pub struct Model {
    /// The type variables.
    pub vars: Seq<VarModel>,
    /// The obligations that are still open.
    pub obligations: Seq<TraitRefModel>,
    /// For each method call, the function that it resolves to.
    pub method_resolutions: Map<ExprOrPatId, Function>,
    /// For each field access, the field that it resolves to.
    pub field_resolutions: Map<ExprOrPatId, StructField>,
    /// For each path to an associated item, the item.
    pub assoc_resolutions: Map<ExprOrPatId, ImplItem>,
    pub type_of_expr: Map<u32, TyModel>,
    pub type_of_pat: Map<u32, TyModel>,
    pub diagnostics: Seq<InferenceDiagnostic>,
    /// The return type of the function.
    pub return_ty: TyModel,
}

/// The outcome of a step of inference: what is known after it, and what it gave.
pub type Run<T> = Result<(Model, T), InferError>;

/// Before anything is known.
pub open spec fn nothing_known() -> Model {
    Model {
        vars: Seq::empty(),
        obligations: Seq::empty(),
        method_resolutions: Map::empty(),
        field_resolutions: Map::empty(),
        assoc_resolutions: Map::empty(),
        type_of_expr: Map::empty(),
        type_of_pat: Map::empty(),
        diagnostics: Seq::empty(),
        return_ty: TyModel::Unknown,
    }
}

pub open spec fn with_vars(s: Model, vars: Seq<VarModel>) -> Model {
    Model { vars, ..s }
}

/// A step on the variables alone that gives a type.
pub open spec fn on_vars(s: Model, step: fresh::WithTy) -> Run<TyModel> {
    match step {
        Ok((vars, ty)) => Ok((with_vars(s, vars), ty)),
        Err(e) => Err(e),
    }
}

/// Makes two types equal, if that is possible.
pub open spec fn unify_in(s: Model, a: TyModel, b: TyModel) -> Run<bool> {
    match unify::unify(s.vars, a, b) {
        Ok((vars, unified)) => Ok((with_vars(s, vars), unified)),
        Err(e) => Err(e),
    }
}

pub open spec fn insert_in(s: Model, ty: TyModel) -> Run<TyModel> {
    on_vars(s, fresh::insert(s.vars, ty))
}

pub open spec fn insert_shallow_in(s: Model, ty: TyModel) -> Run<TyModel> {
    on_vars(s, fresh::insert_shallow(s.vars, ty))
}

/// The type that a type in source stands for, with variables for what it leaves
/// open.
pub open spec fn make_ty<D: HirDatabase>(
    db: &D,
    resolver: Resolver,
    s: Model,
    type_ref: TypeRef,
) -> Run<TyModel> {
    insert_in(s, db.lowered(resolver, type_ref))
}

/// Makes variables equal to the types that a solution gives for them, from the
/// `i`th on.
pub open spec fn apply_solution(
    vars: Seq<VarModel>,
    mapping: Seq<TypeVarId>,
    substs: Seq<TyModel>,
    i: nat,
) -> Result<Seq<VarModel>, InferError>
    decreases substs.len() - i,
{
    if i >= substs.len() {
        Ok(vars)
    } else if i >= mapping.len() {
        Err(InferError::NoSuchGoalVariable)
    } else {
        match unify::unify(
            vars,
            TyModel::Infer(InferTy::TypeVar(mapping[i as int])),
            substs[i as int],
        ) {
            Ok((vars, _)) => apply_solution(vars, mapping, substs, i + 1),
            Err(e) => Err(e),
        }
    }
}

/// What is known after a goal has been answered: of a solution, the types are used;
/// the obligation stays open unless the goal can hold in one way only, or not at
/// all.
pub open spec fn use_answer<D: HirDatabase>(db: &D, s: Model, goal: TraitRefModel) -> Result<
    Model,
    InferError,
> {
    let answer = db.answer(goal);
    let still_open = Model { obligations: s.obligations.push(goal), ..s };
    match answer.solution {
        Some(SolutionModel::Unique(substs)) => match apply_solution(
            s.vars,
            answer.var_mapping,
            substs,
            0,
        ) {
            Ok(vars) => Ok(with_vars(s, vars)),
            Err(e) => Err(e),
        },
        Some(SolutionModel::Ambig(GuidanceModel::Definite(substs))) => match apply_solution(
            s.vars,
            answer.var_mapping,
            substs,
            0,
        ) {
            Ok(vars) => Ok(with_vars(still_open, vars)),
            Err(e) => Err(e),
        },
        Some(_) => Ok(still_open),
        None => Ok(s),
    }
}

/// What is known after each of these goals has been answered.
pub open spec fn use_answers<D: HirDatabase>(db: &D, s: Model, goals: Seq<TraitRefModel>) -> Result<
    Model,
    InferError,
>
    decreases goals.len(),
{
    if goals.len() == 0 {
        Ok(s)
    } else {
        match use_answer(db, s, goals[0]) {
            Ok(s) => use_answers(db, s, goals.skip(1)),
            Err(e) => Err(e),
        }
    }
}

/// What is known after each open obligation has been looked at once.
pub open spec fn settle<D: HirDatabase>(db: &D, s: Model) -> Result<Model, InferError> {
    use_answers(db, Model { obligations: Seq::empty(), ..s }, s.obligations)
}

/// The type resolved as far as possible, after the open obligations have been
/// looked at. The variables are those below `n`; the stack holds the ones whose
/// types are being resolved.
pub open spec fn as_possible<D: HirDatabase>(
    db: &D,
    n: nat,
    s: Model,
    stack: Seq<TypeVarId>,
    ty: TyModel,
) -> Run<TyModel>
    decreases resolve::unvisited(n, stack).len(), ty, 1nat,
{
    match settle(db, s) {
        Ok(s) => replace_known(db, n, s, stack, ty),
        Err(e) => Err(e),
    }
}

/// The type with each variable whose type is known replaced by that type, which is
/// resolved in turn; a variable that occurs in its own type is replaced by its
/// fallback.
pub open spec fn replace_known<D: HirDatabase>(
    db: &D,
    n: nat,
    s: Model,
    stack: Seq<TypeVarId>,
    ty: TyModel,
) -> Run<TyModel>
    decreases resolve::unvisited(n, stack).len(), ty, 0nat,
{
    match ty {
        TyModel::Apply { ctor, params } => match replace_known_all(db, n, s, stack, params) {
            Ok((s, params)) => Ok((s, TyModel::Apply { ctor, params })),
            Err(e) => Err(e),
        },
        TyModel::Infer(tv) => {
            let v = ty::inner_var(tv);
            if stack.contains(v) {
                Ok((s, ty::fallback(tv)))
            } else if v.0 >= n {
                Err(InferError::NoSuchVariable)
            } else {
                match s.vars[v.0 as int].value {
                    Some(known) => {
                        proof {
                            resolve::lemma_unvisited_shrinks(n, stack, v);
                        }
                        as_possible(db, n, s, stack.push(v), known)
                    },
                    None => Ok((s, ty)),
                }
            }
        },
        _ => Ok((s, ty)),
    }
}

/// The types of a list with known variables replaced, from the first to the last.
pub open spec fn replace_known_all<D: HirDatabase>(
    db: &D,
    n: nat,
    s: Model,
    stack: Seq<TypeVarId>,
    tys: Seq<TyModel>,
) -> Run<Seq<TyModel>>
    decreases resolve::unvisited(n, stack).len(), tys, 0nat,
{
    if tys.len() == 0 {
        Ok((s, Seq::empty()))
    } else {
        match replace_known(db, n, s, stack, tys[0]) {
            Err(e) => Err(e),
            Ok((s, t)) => match replace_known_all(db, n, s, stack, tys.skip(1)) {
                Err(e) => Err(e),
                Ok((s, ts)) => Ok((s, seq![t] + ts)),
            },
        }
    }
}

/// The type resolved as far as is possible now.
pub open spec fn resolved<D: HirDatabase>(db: &D, s: Model, ty: TyModel) -> Run<TyModel> {
    as_possible(db, s.vars.len(), s, Seq::empty(), ty)
}

/// A run that gives types, with more types in front of those that it gives.
pub open spec fn after_front(front: Seq<TyModel>, rest: Run<Seq<TyModel>>) -> Run<Seq<TyModel>> {
    match rest {
        Ok((s, tys)) => Ok((s, front + tys)),
        Err(e) => Err(e),
    }
}

/// Whether a call had the outcome.
pub open spec fn did<T>(r: Result<T, InferError>, after: Model, m: Run<T>) -> bool {
    match m {
        Ok((s, v)) => r == Ok::<T, InferError>(v) && after == s,
        Err(e) => r == Err::<T, InferError>(e),
    }
}

/// Whether a call that only changes what is known had the outcome.
pub open spec fn became(r: Result<(), InferError>, after: Model, m: Result<Model, InferError>) -> bool {
    match m {
        Ok(s) => r is Ok && after == s,
        Err(e) => r == Err::<(), InferError>(e),
    }
}

/// Whether a call that gives a type had the outcome.
pub open spec fn inferred(r: Result<Ty, InferError>, after: Model, m: Run<TyModel>) -> bool {
    match m {
        Ok((s, t)) => r is Ok && r->Ok_0@ == t && after == s,
        Err(e) => r == Err::<Ty, InferError>(e),
    }
}

pub proof fn lemma_unify_keeps_count(vars: Seq<VarModel>, a: TyModel, b: TyModel, depth: nat)
    ensures
        unify::unify_at(vars, a, b, depth) matches Ok((after, _)) ==> after.len() == vars.len(),
    decreases unify::UNIFICATION_LIMIT + 1 - depth, 0nat,
{
    if depth <= unify::UNIFICATION_LIMIT && a != b {
        let x = unify::shallow(vars, a, unify::SHALLOW_STEPS as nat);
        let y = unify::shallow(vars, b, unify::SHALLOW_STEPS as nat);
        if let (Ok(x), Ok(y)) = (x, y) {
            if let unify::UnifyStep::Params(xs, ys) = unify::unify_step(x, y) {
                lemma_unify_all_keeps_count(vars, xs, ys, depth + 1);
            }
        }
    }
}

pub proof fn lemma_unify_all_keeps_count(
    vars: Seq<VarModel>,
    xs: Seq<TyModel>,
    ys: Seq<TyModel>,
    depth: nat,
)
    ensures
        unify::unify_all_at(vars, xs, ys, depth) matches Ok((after, _)) ==> after.len()
            == vars.len(),
    decreases unify::UNIFICATION_LIMIT + 1 - depth, xs.len() + 1,
{
    if xs.len() > 0 && ys.len() > 0 {
        lemma_unify_keeps_count(vars, xs[0], ys[0], depth);
        if let Ok((after, true)) = unify::unify_at(vars, xs[0], ys[0], depth) {
            lemma_unify_all_keeps_count(after, xs.skip(1), ys.skip(1), depth);
        }
    }
}

/// The inference context holds all information needed during type inference.
pub struct InferenceContext<'a, D: HirDatabase> {
    pub env: Env<'a, D>,
    pub var_unification_table: VarTable,
    pub obligations: Vec<Obligation>,
    pub method_resolutions: NodeMap<Function>,
    pub field_resolutions: NodeMap<StructField>,
    pub assoc_resolutions: NodeMap<ImplItem>,
    pub type_of_expr: ArenaMap,
    pub type_of_pat: ArenaMap,
    pub diagnostics: Vec<InferenceDiagnostic>,
    /// The return type of the function being inferred.
    pub return_ty: Ty,
}

/// Obligations as mathematical values.
pub open spec fn goals(obligations: Seq<Obligation>) -> Seq<TraitRefModel> {
    Seq::new(obligations.len(), |i: int| obligations[i]@)
}

impl<'a, D: HirDatabase> View for InferenceContext<'a, D> {
    type V = Model;

    open spec fn view(&self) -> Model {
        Model {
            vars: self.var_unification_table@,
            obligations: goals(self.obligations@),
            method_resolutions: self.method_resolutions@,
            field_resolutions: self.field_resolutions@,
            assoc_resolutions: self.assoc_resolutions@,
            type_of_expr: self.type_of_expr@,
            type_of_pat: self.type_of_pat@,
            diagnostics: self.diagnostics@,
            return_ty: self.return_ty@,
        }
    }
}

impl<'a, D: HirDatabase> InferenceContext<'a, D> {
    pub fn new(db: &'a D, body: &'a Body, owner: DefWithBody) -> (r: InferenceContext<'a, D>)
        ensures
            r.env == (Env { db, body, owner }),
            r@ == nothing_known(),
    {
        let r = InferenceContext {
            env: Env { db, body, owner },
            var_unification_table: VarTable::new(),
            obligations: Vec::new(),
            method_resolutions: NodeMap::new(),
            field_resolutions: NodeMap::new(),
            assoc_resolutions: NodeMap::new(),
            type_of_expr: ArenaMap::new(),
            type_of_pat: ArenaMap::new(),
            diagnostics: Vec::new(),
            return_ty: Ty::Unknown,
        };
        assert(r@ =~= nothing_known());
        r
    }

    pub fn write_expr_ty(&mut self, expr: ExprId, ty: Ty)
        ensures
            final(self).env == old(self).env,
            final(self)@ == (Model {
                type_of_expr: old(self)@.type_of_expr.insert(expr.0, ty@),
                ..old(self)@
            }),
    {
        self.type_of_expr.insert(expr.0, ty);
    }

    pub fn write_method_resolution(&mut self, expr: ExprId, func: Function)
        ensures
            final(self).env == old(self).env,
            final(self)@ == (Model {
                method_resolutions: old(self)@.method_resolutions.insert(
                    ExprOrPatId::ExprId(expr),
                    func,
                ),
                ..old(self)@
            }),
    {
        self.method_resolutions.insert(ExprOrPatId::ExprId(expr), func);
    }

    pub fn write_field_resolution(&mut self, expr: ExprId, field: StructField)
        ensures
            final(self).env == old(self).env,
            final(self)@ == (Model {
                field_resolutions: old(self)@.field_resolutions.insert(
                    ExprOrPatId::ExprId(expr),
                    field,
                ),
                ..old(self)@
            }),
    {
        self.field_resolutions.insert(ExprOrPatId::ExprId(expr), field);
    }

    pub fn write_assoc_resolution(&mut self, id: ExprOrPatId, item: ImplItem)
        ensures
            final(self).env == old(self).env,
            final(self)@ == (Model {
                assoc_resolutions: old(self)@.assoc_resolutions.insert(id, item),
                ..old(self)@
            }),
    {
        self.assoc_resolutions.insert(id, item);
    }

    pub fn write_pat_ty(&mut self, pat: PatId, ty: Ty)
        ensures
            final(self).env == old(self).env,
            final(self)@ == (Model {
                type_of_pat: old(self)@.type_of_pat.insert(pat.0, ty@),
                ..old(self)@
            }),
    {
        self.type_of_pat.insert(pat.0, ty);
    }

    /// The type that a type in source stands for, with variables for what it
    /// leaves open.
    pub fn make_ty(&mut self, type_ref: TypeRef) -> (r: Result<Ty, InferError>)
        ensures
            final(self).env == old(self).env,
            inferred(
                r,
                final(self)@,
                make_ty(old(self).env.db, old(self).env.resolver(), old(self)@, type_ref),
            ),
    {
        let ty = self.env.db.type_from_ref(Resolver::Def(self.env.owner), type_ref);
        self.insert_type_vars(&ty)
    }

    /// Makes two types equal, if that is possible.
    pub fn unify(&mut self, ty1: &Ty, ty2: &Ty) -> (r: Result<bool, InferError>)
        ensures
            final(self).env == old(self).env,
            did(r, final(self)@, unify_in(old(self)@, ty1@, ty2@)),
            r is Ok ==> final(self)@.vars.len() == old(self)@.vars.len(),
    {
        proof {
            lemma_unify_keeps_count(self@.vars, ty1@, ty2@, 0);
        }
        self.var_unification_table.unify(ty1, ty2)
    }

    pub fn new_type_var(&mut self) -> (r: Result<Ty, InferError>)
        ensures
            final(self).env == old(self).env,
            inferred(r, final(self)@, on_vars(old(self)@, fresh::new_type_var(old(self)@.vars))),
    {
        self.var_unification_table.new_type_var()
    }

    /// Replaces an unknown type by a new variable, so that it can maybe still be
    /// inferred.
    pub fn insert_type_vars_shallow(&mut self, ty: Ty) -> (r: Result<Ty, InferError>)
        ensures
            final(self).env == old(self).env,
            inferred(r, final(self)@, insert_shallow_in(old(self)@, ty@)),
    {
        self.var_unification_table.insert_type_vars_shallow(ty)
    }

    pub fn insert_type_vars(&mut self, ty: &Ty) -> (r: Result<Ty, InferError>)
        ensures
            final(self).env == old(self).env,
            inferred(r, final(self)@, insert_in(old(self)@, ty@)),
    {
        self.var_unification_table.insert_type_vars(ty)
    }

    /// Makes variables equal to the types that a solution gives for them.
    fn apply_solution(&mut self, mapping: &Vec<TypeVarId>, substs: &Substs) -> (r: Result<
        (),
        InferError,
    >)
        ensures
            final(self).env == old(self).env,
            match apply_solution(old(self)@.vars, mapping@, substs@, 0) {
                Ok(vars) => {
                    &&& r is Ok
                    &&& final(self)@ == with_vars(old(self)@, vars)
                    &&& vars.len() == old(self)@.vars.len()
                },
                Err(e) => r == Err::<(), InferError>(e),
            },
    {
        let mut i: usize = 0;
        while i < substs.0.len()
            invariant
                i <= substs.0.len(),
                self.env == old(self).env,
                self@ == with_vars(old(self)@, self@.vars),
                self@.vars.len() == old(self)@.vars.len(),
                apply_solution(old(self)@.vars, mapping@, substs@, 0) == apply_solution(
                    self@.vars,
                    mapping@,
                    substs@,
                    i as nat,
                ),
            decreases substs.0.len() - i,
        {
            if i >= mapping.len() {
                return Err(InferError::NoSuchGoalVariable);
            }
            let var = Ty::Infer(InferTy::TypeVar(mapping[i]));
            self.unify(&var, &substs.0[i])?;
            i += 1;
        }
        Ok(())
    }

    /// Looks at each open obligation once, and learns what there is to learn.
    pub fn resolve_obligations_as_possible(&mut self) -> (r: Result<(), InferError>)
        ensures
            final(self).env == old(self).env,
            became(r, final(self)@, settle(old(self).env.db, old(self)@)),
            r is Ok ==> final(self)@.vars.len() == old(self)@.vars.len(),
    {
        let mut pending: Vec<Obligation> = Vec::new();
        std::mem::swap(&mut pending, &mut self.obligations);
        let ghost all = goals(pending@);
        assert(all == old(self)@.obligations);
        assert(goals(self.obligations@) =~= Seq::empty());
        assert(self@ =~= (Model { obligations: Seq::empty(), ..old(self)@ }));
        assert(all.skip(0) =~= all);
        let mut rest = pending;
        let len = rest.len();
        let mut i: usize = 0;
        while rest.len() > 0
            invariant
                i + rest.len() == len,
                len == all.len(),
                all.skip(i as int) =~= goals(rest@),
                self.env == old(self).env,
                self@.vars.len() == old(self)@.vars.len(),
                settle(old(self).env.db, old(self)@) == use_answers(
                    self.env.db,
                    self@,
                    all.skip(i as int),
                ),
            decreases rest.len(),
        {
            let obligation = rest.remove(0);
            assert(all.skip(i as int)[0] == obligation@);
            assert(all.skip(i as int).skip(1) =~= all.skip(i + 1));
            assert(all.skip(i + 1) =~= goals(rest@));
            let ghost before = self@;
            let answer = match &obligation {
                Obligation::Trait(tr) => self.env.db.solve(tr),
            };
            match &answer.solution {
                Some(Solution::Unique(substs)) => {
                    self.apply_solution(&answer.var_mapping, substs)?;
                },
                Some(Solution::Ambig(Guidance::Definite(substs))) => {
                    self.apply_solution(&answer.var_mapping, substs)?;
                    let ghost learned = self@;
                    self.obligations.push(obligation);
                    assert(self@.obligations =~= learned.obligations.push(obligation@));
                },
                Some(_) => {
                    self.obligations.push(obligation);
                    assert(self@.obligations =~= before.obligations.push(obligation@));
                },
                None => {},
            }
            i += 1;
        }
        Ok(())
    }

    /// Resolves the type as far as currently possible, replacing type variables by their
    /// known types. All types returned by the `infer_*` functions are resolved as far as
    /// possible, i.e. contain no type variables with known type.
    pub fn resolve_ty_as_possible(&mut self, tv_stack: &mut Vec<TypeVarId>, ty: &Ty) -> (r: Result<
        Ty,
        InferError,
    >)
        ensures
            final(self).env == old(self).env,
            inferred(
                r,
                final(self)@,
                as_possible(
                    old(self).env.db,
                    old(self)@.vars.len(),
                    old(self)@,
                    old(tv_stack)@,
                    ty@,
                ),
            ),
            r is Ok ==> final(tv_stack)@ == old(tv_stack)@,
            r is Ok ==> final(self)@.vars.len() == old(self)@.vars.len(),
        decreases resolve::unvisited(old(self)@.vars.len(), old(tv_stack)@).len(), ty, 1nat,
    {
        self.resolve_obligations_as_possible()?;
        self.replace_known(tv_stack, ty)
    }

    fn replace_known(&mut self, tv_stack: &mut Vec<TypeVarId>, ty: &Ty) -> (r: Result<
        Ty,
        InferError,
    >)
        ensures
            final(self).env == old(self).env,
            inferred(
                r,
                final(self)@,
                replace_known(
                    old(self).env.db,
                    old(self)@.vars.len(),
                    old(self)@,
                    old(tv_stack)@,
                    ty@,
                ),
            ),
            r is Ok ==> final(tv_stack)@ == old(tv_stack)@,
            r is Ok ==> final(self)@.vars.len() == old(self)@.vars.len(),
        decreases resolve::unvisited(old(self)@.vars.len(), old(tv_stack)@).len(), ty, 0nat,
    {
        match ty {
            Ty::Apply(a) => {
                proof {
                    ty::lemma_apply_model(*a);
                }
                let params = &a.parameters;
                let ghost n = self@.vars.len();
                let ghost stack = tv_stack@;
                let ghost total = replace_known_all(self.env.db, n, self@, stack, params@);
                let mut tys: Vec<Ty> = Vec::new();
                let mut i: usize = 0;
                proof {
                    assert(params@.skip(0) =~= params@);
                    if let Ok((_, ts)) = total {
                        assert(ty::models(tys@) + ts =~= ts);
                    }
                }
                while i < params.0.len()
                    invariant
                        i <= params.0.len(),
                        self.env == old(self).env,
                        self@.vars.len() == n,
                        n == old(self)@.vars.len(),
                        tv_stack@ == stack,
                        stack == old(tv_stack)@,
                        decreases_to!(*ty => params.0@),
                        ty@ == (TyModel::Apply { ctor: a.ctor, params: params@ }),
                        total == replace_known_all(
                            old(self).env.db,
                            n,
                            old(self)@,
                            stack,
                            params@,
                        ),
                        after_front(
                            ty::models(tys@),
                            replace_known_all(
                                self.env.db,
                                n,
                                self@,
                                stack,
                                params@.skip(i as int),
                            ),
                        ) == total,
                    decreases params.0.len() - i,
                {
                    assert(params@.skip(i as int)[0] == params.0@[i as int]@);
                    assert(params@.skip(i as int).skip(1) =~= params@.skip(i + 1));
                    let t = self.replace_known(tv_stack, &params.0[i])?;
                    let ghost before = ty::models(tys@);
                    tys.push(t);
                    proof {
                        assert(ty::models(tys@) =~= before.push(t@));
                        if let Ok((_, ts)) = replace_known_all(
                            self.env.db,
                            n,
                            self@,
                            stack,
                            params@.skip(i + 1),
                        ) {
                            assert(before + (seq![t@] + ts) =~= before.push(t@) + ts);
                        }
                    }
                    i += 1;
                }
                assert(ty::models(tys@) + Seq::<TyModel>::empty() =~= ty::models(tys@));
                Ok(Ty::apply(a.ctor, Substs(tys)))
            },
            Ty::Infer(tv) => {
                let inner = tv.to_inner();
                if resolve::on_stack(tv_stack, inner) {
                    // recursive type
                    return Ok(tv.fallback_value());
                }
                let value = self.var_unification_table.probe_value(inner)?;
                match value.known() {
                    Some(known) => {
                        // the known type may contain variables that are known by now
                        proof {
                            resolve::lemma_unvisited_shrinks(self@.vars.len(), tv_stack@, inner);
                        }
                        tv_stack.push(inner);
                        let result = self.resolve_ty_as_possible(tv_stack, known)?;
                        tv_stack.pop();
                        assert(tv_stack@ =~= old(tv_stack)@);
                        Ok(result)
                    },
                    None => Ok(ty.clone()),
                }
            },
            _ => Ok(ty.clone()),
        }
    }

    /// The type resolved as far as is possible now.
    pub fn resolved(&mut self, ty: &Ty) -> (r: Result<Ty, InferError>)
        ensures
            final(self).env == old(self).env,
            inferred(r, final(self)@, resolved(old(self).env.db, old(self)@, ty@)),
    {
        let mut tv_stack: Vec<TypeVarId> = Vec::new();
        assert(tv_stack@ =~= Seq::empty());
        self.resolve_ty_as_possible(&mut tv_stack, ty)
    }
}

} // verus!
