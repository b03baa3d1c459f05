//! The result of inference.

use vstd::prelude::*;

use crate::context::{InferenceContext, Model};
use crate::db::HirDatabase;
use crate::defs::{ExprId, ExprOrPatId, Function, ImplItem, PatId, StructField};
use crate::diagnostics::{DiagnosticSink, InferenceDiagnostic};
use crate::error::InferError;
use crate::maps::{ArenaMap, NodeMap};
use crate::table::{VarModel, VarTable};
use crate::ty::{Ty, TyModel, TypeVarId};
use crate::{diagnostics, resolve, ty};

verus! {

/// The result of type inference: A mapping from expressions and patterns to types.
#[derive(Clone, PartialEq, Eq, Debug)]
pub struct InferenceResult {
    /// For each method call expr, records the function it resolves to.
    method_resolutions: NodeMap<Function>,
    /// For each field access expr, records the field it resolves to.
    field_resolutions: NodeMap<StructField>,
    /// For each associated item record what it resolves to
    assoc_resolutions: NodeMap<ImplItem>,
    diagnostics: Vec<InferenceDiagnostic>,
    type_of_expr: ArenaMap,
    type_of_pat: ArenaMap,
}

/// The result of inference as a mathematical value.
#[verifier::ext_equal]
pub struct ResultModel {
    pub method_resolutions: Map<ExprOrPatId, Function>,
    pub field_resolutions: Map<ExprOrPatId, StructField>,
    pub assoc_resolutions: Map<ExprOrPatId, ImplItem>,
    pub diagnostics: Seq<InferenceDiagnostic>,
    pub type_of_expr: Map<u32, TyModel>,
    pub type_of_pat: Map<u32, TyModel>,
}

impl View for InferenceResult {
    type V = ResultModel;

    closed spec fn view(&self) -> ResultModel {
        ResultModel {
            method_resolutions: self.method_resolutions@,
            field_resolutions: self.field_resolutions@,
            assoc_resolutions: self.assoc_resolutions@,
            diagnostics: self.diagnostics@,
            type_of_expr: self.type_of_expr@,
            type_of_pat: self.type_of_pat@,
        }
    }
}

/// What is recorded for a node.
pub open spec fn recorded_for<V>(map: Map<ExprOrPatId, V>, id: ExprOrPatId) -> Option<V> {
    if map.contains_key(id) {
        Some(map[id])
    } else {
        None
    }
}

/// The type recorded under a number; unknown if there is none.
pub open spec fn type_in(types: Map<u32, TyModel>, id: u32) -> TyModel {
    if types.contains_key(id) {
        types[id]
    } else {
        TyModel::Unknown
    }
}

/// Whether each of the types can be resolved completely: it speaks of variables that
/// there are.
pub open spec fn resolvable(vars: Seq<VarModel>, types: Map<u32, TyModel>) -> bool {
    forall|id: u32| #[trigger]
        types.contains_key(id) ==> resolve::completely(vars, Seq::empty(), types[id]) is Ok
}

/// The types resolved completely.
pub open spec fn resolved_types(vars: Seq<VarModel>, types: Map<u32, TyModel>) -> Map<
    u32,
    TyModel,
> {
    Map::new(
        |id: u32| types.contains_key(id),
        |id: u32| resolve::completely(vars, Seq::empty(), types[id])->Ok_0,
    )
}

/// The result of all that has been recorded, with each type resolved completely.
pub open spec fn finished(s: Model) -> Result<ResultModel, InferError> {
    if resolvable(s.vars, s.type_of_expr) && resolvable(s.vars, s.type_of_pat) {
        Ok(
            ResultModel {
                method_resolutions: s.method_resolutions,
                field_resolutions: s.field_resolutions,
                assoc_resolutions: s.assoc_resolutions,
                diagnostics: s.diagnostics,
                type_of_expr: resolved_types(s.vars, s.type_of_expr),
                type_of_pat: resolved_types(s.vars, s.type_of_pat),
            },
        )
    } else {
        Err(InferError::NoSuchVariable)
    }
}

/// Complete resolution fails only where there is no such variable.
pub proof fn lemma_completely_error(vars: Seq<VarModel>, stack: Seq<TypeVarId>, ty: TyModel)
    ensures
        resolve::completely(vars, stack, ty) matches Err(e) ==> e == InferError::NoSuchVariable,
    decreases resolve::unvisited(vars.len(), stack).len(), ty,
{
    match ty {
        TyModel::Apply { params, .. } => {
            lemma_completely_all_error(vars, stack, params);
        },
        TyModel::Infer(tv) => {
            let v = ty::inner_var(tv);
            if !stack.contains(v) && v.0 < vars.len() {
                if let Some(known) = vars[v.0 as int].value {
                    resolve::lemma_unvisited_shrinks(vars.len(), stack, v);
                    lemma_completely_error(vars, stack.push(v), known);
                }
            }
        },
        _ => {},
    }
}

proof fn lemma_completely_all_error(vars: Seq<VarModel>, stack: Seq<TypeVarId>, tys: Seq<TyModel>)
    ensures
        resolve::completely_all(vars, stack, tys) matches Err(e) ==> e
            == InferError::NoSuchVariable,
    decreases resolve::unvisited(vars.len(), stack).len(), tys,
{
    if tys.len() > 0 {
        lemma_completely_error(vars, stack, tys[0]);
        lemma_completely_all_error(vars, stack, tys.skip(1));
    }
}

/// Resolves each of the types completely.
fn resolve_types(table: &mut VarTable, types: &ArenaMap) -> (r: Result<ArenaMap, InferError>)
    ensures
        final(table)@ == old(table)@,
        match r {
            Ok(resolved) => {
                &&& resolvable(old(table)@, types@)
                &&& resolved@ == resolved_types(old(table)@, types@)
            },
            Err(e) => !resolvable(old(table)@, types@) && e == InferError::NoSuchVariable,
        },
{
    let mut tv_stack: Vec<TypeVarId> = Vec::new();
    let mut resolved = ArenaMap::new();
    let ghost vars = table@;
    let n = types.len();
    let mut i: usize = 0;
    while i < n && i <= u32::MAX as usize
        invariant
            i <= n,
            i <= u32::MAX + 1,
            n == types.slots().len(),
            table@ == vars,
            vars == old(table)@,
            tv_stack@ =~= Seq::empty(),
            resolved.slots().len() == i,
            forall|j: int|
                0 <= j < i ==> match (#[trigger] types.slots()[j], resolved.slots()[j]) {
                    (Some(t), Some(u)) => resolve::completely(vars, Seq::empty(), t@) == Ok::<
                        TyModel,
                        InferError,
                    >(u@),
                    (None, None) => true,
                    _ => false,
                },
        decreases n - i,
    {
        let slot = match types.slot(i) {
            Some(ty) => {
                proof {
                    lemma_completely_error(vars, Seq::empty(), ty@);
                }
                match table.resolve_ty_completely(&mut tv_stack, ty) {
                    Ok(t) => Some(t),
                    Err(e) => {
                        assert(types@.contains_key(i as u32));
                        return Err(e);
                    },
                }
            },
            None => None,
        };
        resolved.push_slot(slot);
        i += 1;
    }
    assert forall|id: u32| #[trigger] types@.contains_key(id) implies resolve::completely(
        vars,
        Seq::empty(),
        types@[id],
    ) is Ok by {
        assert(types.slots()[id as int] is Some);
    }
    assert(resolved@ =~= resolved_types(vars, types@)) by {
        assert forall|id: u32| resolved@.contains_key(id) == types@.contains_key(id) by {
            if (id as int) < n {
                assert(types.slots()[id as int] is Some == resolved.slots()[id as int] is Some);
            }
        }
        assert forall|id: u32| #[trigger] types@.contains_key(id) implies resolved@[id]
            == resolved_types(vars, types@)[id] by {
            assert(types.slots()[id as int] is Some);
        }
    }
    Ok(resolved)
}

impl<'a, D: HirDatabase> InferenceContext<'a, D> {
    /// Resolves every recorded type completely.
    pub fn resolve_all(self) -> (r: Result<InferenceResult, InferError>)
        ensures
            match finished(self@) {
                Ok(m) => r is Ok && r->Ok_0@ == m,
                Err(e) => r == Err::<InferenceResult, InferError>(e),
            },
    {
        let mut table = self.var_unification_table;
        let type_of_expr = resolve_types(&mut table, &self.type_of_expr)?;
        let type_of_pat = resolve_types(&mut table, &self.type_of_pat)?;
        Ok(
            InferenceResult {
                method_resolutions: self.method_resolutions,
                field_resolutions: self.field_resolutions,
                assoc_resolutions: self.assoc_resolutions,
                diagnostics: self.diagnostics,
                type_of_expr,
                type_of_pat,
            },
        )
    }
}

impl InferenceResult {
    pub fn method_resolution(&self, expr: ExprId) -> (r: Option<Function>)
        ensures
            r == recorded_for(self@.method_resolutions, ExprOrPatId::ExprId(expr)),
    {
        self.method_resolutions.get(ExprOrPatId::ExprId(expr))
    }

    pub fn field_resolution(&self, expr: ExprId) -> (r: Option<StructField>)
        ensures
            r == recorded_for(self@.field_resolutions, ExprOrPatId::ExprId(expr)),
    {
        self.field_resolutions.get(ExprOrPatId::ExprId(expr))
    }

    pub fn assoc_resolutions_for_expr(&self, id: ExprId) -> (r: Option<ImplItem>)
        ensures
            r == recorded_for(self@.assoc_resolutions, ExprOrPatId::ExprId(id)),
    {
        self.assoc_resolutions.get(ExprOrPatId::ExprId(id))
    }

    pub fn assoc_resolutions_for_pat(&self, id: PatId) -> (r: Option<ImplItem>)
        ensures
            r == recorded_for(self@.assoc_resolutions, ExprOrPatId::PatId(id)),
    {
        self.assoc_resolutions.get(ExprOrPatId::PatId(id))
    }

    /// The type of an expression; unknown if none was inferred.
    pub fn expr_ty(&self, expr: ExprId) -> (r: &Ty)
        ensures
            r@ == type_in(self@.type_of_expr, expr.0),
    {
        match self.type_of_expr.get(expr.0) {
            Some(ty) => ty,
            None => &Ty::Unknown,
        }
    }

    /// The type of a pattern; unknown if none was inferred.
    pub fn pat_ty(&self, pat: PatId) -> (r: &Ty)
        ensures
            r@ == type_in(self@.type_of_pat, pat.0),
    {
        match self.type_of_pat.get(pat.0) {
            Some(ty) => ty,
            None => &Ty::Unknown,
        }
    }

    /// Tells the user what was found out about the body of a function.
    pub fn add_diagnostics<D: HirDatabase>(
        &self,
        db: &D,
        owner: Function,
        sink: &mut DiagnosticSink,
    ) -> (r: Result<(), InferError>)
        ensures
            final(sink)@ == old(sink)@ + diagnostics::all_located(
                db,
                owner,
                self@.diagnostics,
            ).0,
            r == diagnostics::all_located(db, owner, self@.diagnostics).1,
    {
        diagnostics::add_all(&self.diagnostics, db, owner, sink)
    }

    /// What there is to tell the user, in the order in which it was found.
    pub fn diagnostics(&self) -> (r: &Vec<InferenceDiagnostic>)
        ensures
            r@ == self@.diagnostics,
    {
        &self.diagnostics
    }
}

impl vstd::std_specs::core::IndexSpecImpl<ExprId> for InferenceResult {
    open spec fn index_req(&self, index: &ExprId) -> bool {
        true
    }
}

impl std::ops::Index<ExprId> for InferenceResult {
    type Output = Ty;

    fn index(&self, expr: ExprId) -> (r: &Ty)
        ensures
            r@ == type_in(self@.type_of_expr, expr.0),
    {
        self.expr_ty(expr)
    }
}

impl vstd::std_specs::core::IndexSpecImpl<PatId> for InferenceResult {
    open spec fn index_req(&self, index: &PatId) -> bool {
        true
    }
}

impl std::ops::Index<PatId> for InferenceResult {
    type Output = Ty;

    fn index(&self, pat: PatId) -> (r: &Ty)
        ensures
            r@ == type_in(self@.type_of_pat, pat.0),
    {
        self.pat_ty(pat)
    }
}

} // verus!
