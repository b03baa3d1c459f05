//! The questions that inference asks of the program around a body.

use vstd::prelude::*;

use crate::body::{BinaryOp, Body, Path, PathSegment};
use crate::defs::{
    Const, Crate, DefWithBody, Enum, EnumVariant, ExprId, FieldSyntax, Function, HirFileId,
    ImplItem, Namespace, PathResolution, PerNs, Resolver, Static, Struct, StructField, Trait,
    TypableDef, TypeRef, VariantDef,
};
use crate::error::InferError;
use crate::name::Name;
use crate::ty::{Substs, Ty, TyModel, TypeVarId};
use crate::ty;

verus! {

#[derive(Debug)]
pub struct FnSignature {
    pub name: Name,
    pub params: Vec<TypeRef>,
    pub ret_type: TypeRef,
}

#[derive(Debug)]
pub struct ConstSignature {
    pub name: Name,
    pub type_ref: TypeRef,
}

/// The generic parameters of a definition, and those of the definition around it.
#[derive(Debug)]
pub struct GenericParams {
    pub parent_params: Option<Box<GenericParams>>,
    pub params: Vec<Name>,
}

impl GenericParams {
    /// The number of parameters, with those of the definitions around.
    pub open spec fn total(self) -> nat
        decreases self,
    {
        self.params@.len() + match self.parent_params {
            Some(parent) => parent.total(),
            None => 0,
        }
    }

    /// The number of parameters of the definitions around.
    pub open spec fn parent_total(self) -> nat {
        match self.parent_params {
            Some(parent) => parent.total(),
            None => 0,
        }
    }

    pub fn count_params_including_parent(&self) -> (r: Result<usize, InferError>)
        ensures
            r == counted(self.total()),
        decreases self,
    {
        let parent = match &self.parent_params {
            Some(parent) => parent.count_params_including_parent()?,
            None => 0,
        };
        match parent.checked_add(self.params.len()) {
            Some(n) => Ok(n),
            None => Err(InferError::TooManyParameters),
        }
    }

    pub fn count_parent_params(&self) -> (r: Result<usize, InferError>)
        ensures
            r == counted(self.parent_total()),
    {
        match &self.parent_params {
            Some(parent) => parent.count_params_including_parent(),
            None => Ok(0),
        }
    }
}

/// A number of parameters as a machine word.
pub open spec fn counted(n: nat) -> Result<usize, InferError> {
    if n <= usize::MAX {
        Ok(n as usize)
    } else {
        Err(InferError::TooManyParameters)
    }
}

/// The types of the parameters and of the result of something that can be called.
#[derive(Debug)]
pub struct FnSig {
    pub params: Vec<Ty>,
    pub ret: Ty,
}

#[verifier::ext_equal]
pub struct FnSigModel {
    pub params: Seq<TyModel>,
    pub ret: TyModel,
}

impl View for FnSig {
    type V = FnSigModel;

    open spec fn view(&self) -> FnSigModel {
        FnSigModel { params: ty::models(self.params@), ret: self.ret@ }
    }
}

/// A trait with types for its parameters, the implementing type in front.
#[derive(Debug)]
pub struct TraitRef {
    pub trait_: Trait,
    pub substs: Substs,
}

#[verifier::ext_equal]
pub struct TraitRefModel {
    pub trait_: Trait,
    pub substs: Seq<TyModel>,
}

impl View for TraitRef {
    type V = TraitRefModel;

    open spec fn view(&self) -> TraitRefModel {
        TraitRefModel { trait_: self.trait_, substs: self.substs@ }
    }
}

/// Something that has to hold for the program to be well typed.
#[derive(Debug)]
pub enum Obligation {
    /// A type has to implement a trait.
    Trait(TraitRef),
}

impl View for Obligation {
    type V = TraitRefModel;

    open spec fn view(&self) -> TraitRefModel {
        match self {
            Obligation::Trait(tr) => tr@,
        }
    }
}

/// What is known of the variables of a goal that can hold in more than one way.
#[derive(Debug)]
pub enum Guidance {
    /// Each way has these types.
    Definite(Substs),
    /// These types are a good guess.
    Suggested(Substs),
    Unknown,
}

/// How a goal can hold.
#[derive(Debug)]
pub enum Solution {
    /// In one way only, with these types for its variables.
    Unique(Substs),
    /// In more than one way.
    Ambig(Guidance),
}

pub enum GuidanceModel {
    Definite(Seq<TyModel>),
    Suggested(Seq<TyModel>),
    Unknown,
}

pub enum SolutionModel {
    Unique(Seq<TyModel>),
    Ambig(GuidanceModel),
}

impl View for Guidance {
    type V = GuidanceModel;

    open spec fn view(&self) -> GuidanceModel {
        match self {
            Guidance::Definite(s) => GuidanceModel::Definite(s@),
            Guidance::Suggested(s) => GuidanceModel::Suggested(s@),
            Guidance::Unknown => GuidanceModel::Unknown,
        }
    }
}

impl View for Solution {
    type V = SolutionModel;

    open spec fn view(&self) -> SolutionModel {
        match self {
            Solution::Unique(s) => SolutionModel::Unique(s@),
            Solution::Ambig(g) => SolutionModel::Ambig(g@),
        }
    }
}

/// The answer to a goal: how it can hold, if at all, and for each variable that
/// the solution speaks of, by its number, the variable of the goal.
#[derive(Debug)]
pub struct GoalAnswer {
    pub solution: Option<Solution>,
    pub var_mapping: Vec<TypeVarId>,
}

pub struct GoalAnswerModel {
    pub solution: Option<SolutionModel>,
    pub var_mapping: Seq<TypeVarId>,
}

impl View for GoalAnswer {
    type V = GoalAnswerModel;

    open spec fn view(&self) -> GoalAnswerModel {
        GoalAnswerModel {
            solution: match self.solution {
                Some(s) => Some(s@),
                None => None,
            },
            var_mapping: self.var_mapping@,
        }
    }
}

/// The program around a body. To each question belongs a ghost function that stands for
/// its answer: a database gives one answer to one question. The ghost functions have
/// bodies only so that code outside of Verus can leave them out; nothing follows from
/// those.
pub trait HirDatabase {
    closed spec fn body_of(&self, def: DefWithBody) -> Body {
        arbitrary()
    }

    /// The body of a definition.
    fn body(&self, def: DefWithBody) -> (r: &Body)
        ensures
            *r == self.body_of(def),
    ;

    closed spec fn fn_signature_of(&self, func: Function) -> FnSignature {
        arbitrary()
    }

    /// The signature of a function as it is written.
    fn fn_signature(&self, func: Function) -> (r: &FnSignature)
        ensures
            *r == self.fn_signature_of(func),
    ;

    closed spec fn const_signature_of(&self, konst: Const) -> ConstSignature {
        arbitrary()
    }

    fn const_signature(&self, konst: Const) -> (r: &ConstSignature)
        ensures
            *r == self.const_signature_of(konst),
    ;

    closed spec fn static_signature_of(&self, static_: Static) -> ConstSignature {
        arbitrary()
    }

    fn static_signature(&self, static_: Static) -> (r: &ConstSignature)
        ensures
            *r == self.static_signature_of(static_),
    ;

    closed spec fn fn_generics_of(&self, func: Function) -> GenericParams {
        arbitrary()
    }

    /// The generic parameters of a function.
    fn fn_generic_params(&self, func: Function) -> (r: &GenericParams)
        ensures
            *r == self.fn_generics_of(func),
    ;

    closed spec fn trait_generics_of(&self, trait_: Trait) -> GenericParams {
        arbitrary()
    }

    /// The generic parameters of a trait.
    fn trait_generic_params(&self, trait_: Trait) -> (r: &GenericParams)
        ensures
            *r == self.trait_generics_of(trait_),
    ;

    closed spec fn parent_trait_of(&self, func: Function) -> Option<Trait> {
        arbitrary()
    }

    /// The trait that a function is a method of.
    fn parent_trait(&self, func: Function) -> (r: Option<Trait>)
        ensures
            r == self.parent_trait_of(func),
    ;

    closed spec fn impl_target_of(&self, func: Function) -> Option<TyModel> {
        arbitrary()
    }

    /// The type that the `impl` block around a function is for.
    fn impl_target_ty(&self, func: Function) -> (r: Option<Ty>)
        ensures
            ty::opt_model(r) == self.impl_target_of(func),
    ;

    closed spec fn lowered(&self, resolver: Resolver, type_ref: TypeRef) -> TyModel {
        arbitrary()
    }

    /// The type that a type in source stands for.
    fn type_from_ref(&self, resolver: Resolver, type_ref: TypeRef) -> (r: Ty)
        ensures
            r@ == self.lowered(resolver, type_ref),
    ;

    closed spec fn path_resolution(&self, resolver: Resolver, path: Path) -> PathResolution {
        arbitrary()
    }

    /// What a path resolves to, as far as it can be resolved without types.
    fn resolve_path_segments(&self, resolver: Resolver, path: &Path) -> (r: PathResolution)
        ensures
            r == self.path_resolution(resolver, *path),
    ;

    closed spec fn full_path_resolution(&self, resolver: Resolver, path: Path) -> PerNs {
        arbitrary()
    }

    /// What a path as a whole resolves to.
    fn resolve_path(&self, resolver: Resolver, path: &Path) -> (r: PerNs)
        ensures
            r == self.full_path_resolution(resolver, *path),
    ;

    closed spec fn crate_of(&self, resolver: Resolver) -> Option<Crate> {
        arbitrary()
    }

    /// The crate that names are resolved in.
    fn krate(&self, resolver: Resolver) -> (r: Option<Crate>)
        ensures
            r == self.crate_of(resolver),
    ;

    closed spec fn type_of_def(&self, def: TypableDef, ns: Namespace) -> TyModel {
        arbitrary()
    }

    /// The type of a definition: as a type, or as a value.
    fn type_for_def(&self, def: TypableDef, ns: Namespace) -> (r: Ty)
        ensures
            r@ == self.type_of_def(def, ns),
    ;

    closed spec fn segment_substs(
        &self,
        resolver: Resolver,
        segment: PathSegment,
        def: TypableDef,
    ) -> Seq<TyModel> {
        arbitrary()
    }

    /// The types that a path segment gives for the parameters of a definition.
    fn substs_from_path_segment(
        &self,
        resolver: Resolver,
        segment: &PathSegment,
        def: TypableDef,
    ) -> (r: Substs)
        ensures
            r@ == self.segment_substs(resolver, *segment, def),
    ;

    closed spec fn path_substs(&self, resolver: Resolver, path: Path, def: TypableDef) -> Seq<TyModel> {
        arbitrary()
    }

    /// The types that a path gives for the parameters of the definition it resolves
    /// to.
    fn substs_from_path(&self, resolver: Resolver, path: &Path, def: TypableDef) -> (r: Substs)
        ensures
            r@ == self.path_substs(resolver, *path, def),
    ;

    closed spec fn items_of_type(&self, ty: TyModel, krate: Crate) -> Seq<ImplItem> {
        arbitrary()
    }

    /// The items of the `impl` blocks for a type.
    fn impl_items(&self, ty: &Ty, krate: Crate) -> (r: Vec<ImplItem>)
        ensures
            r@ == self.items_of_type(ty@, krate),
    ;

    closed spec fn struct_type(&self, strukt: Struct) -> TyModel {
        arbitrary()
    }

    fn struct_ty(&self, strukt: Struct) -> (r: Ty)
        ensures
            r@ == self.struct_type(strukt),
    ;

    closed spec fn enum_type(&self, enum_: Enum) -> TyModel {
        arbitrary()
    }

    fn enum_ty(&self, enum_: Enum) -> (r: Ty)
        ensures
            r@ == self.enum_type(enum_),
    ;

    closed spec fn enum_of(&self, variant: EnumVariant) -> Enum {
        arbitrary()
    }

    /// The enum that a variant belongs to.
    fn parent_enum(&self, variant: EnumVariant) -> (r: Enum)
        ensures
            r == self.enum_of(variant),
    ;

    closed spec fn field_named(&self, def: VariantDef, name: Seq<char>) -> Option<StructField> {
        arbitrary()
    }

    /// The field of that name.
    fn variant_field(&self, def: VariantDef, name: &Name) -> (r: Option<StructField>)
        ensures
            r == self.field_named(def, name@),
    ;

    closed spec fn field_type(&self, field: StructField) -> TyModel {
        arbitrary()
    }

    fn field_ty(&self, field: StructField) -> (r: Ty)
        ensures
            r@ == self.field_type(field),
    ;

    closed spec fn method_named(&self, ty: TyModel, name: Seq<char>, resolver: Resolver) -> Option<
        (TyModel, Function),
    > {
        arbitrary()
    }

    /// The method of that name on a type, and the type that it was found on after
    /// dereferencing.
    fn lookup_method(&self, ty: &Ty, name: &Name, resolver: Resolver) -> (r: Option<(Ty, Function)>)
        ensures
            match r {
                Some((t, f)) => self.method_named(ty@, name@, resolver) == Some((t@, f)),
                None => self.method_named(ty@, name@, resolver) is None,
            },
    ;

    closed spec fn signature_of_callable(&self, ty: TyModel) -> Option<FnSigModel> {
        arbitrary()
    }

    /// The signature of a type that can be called.
    fn callable_sig(&self, ty: &Ty) -> (r: Option<FnSig>)
        ensures
            match r {
                Some(sig) => self.signature_of_callable(ty@) == Some(sig@),
                None => self.signature_of_callable(ty@) is None,
            },
    ;

    closed spec fn derefs(&self, ty: TyModel) -> Seq<TyModel> {
        arbitrary()
    }

    /// The type and those that it dereferences to, one after the other.
    fn autoderef(&self, ty: &Ty) -> (r: Vec<Ty>)
        ensures
            ty::models(r@) == self.derefs(ty@),
    ;

    closed spec fn answer(&self, goal: TraitRefModel) -> GoalAnswerModel {
        arbitrary()
    }

    /// How a trait obligation can hold.
    fn solve(&self, goal: &TraitRef) -> (r: GoalAnswer)
        ensures
            r@ == self.answer(goal@),
    ;

    closed spec fn rhs_expectation(&self, op: BinaryOp, lhs_ty: TyModel) -> TyModel {
        arbitrary()
    }

    /// The type that the right operand of an operator should have.
    fn binary_op_rhs_expectation(&self, op: BinaryOp, lhs_ty: &Ty) -> (r: Ty)
        ensures
            r@ == self.rhs_expectation(op, lhs_ty@),
    ;

    closed spec fn op_result(&self, op: BinaryOp, rhs_ty: TyModel) -> TyModel {
        arbitrary()
    }

    /// The type of the result of an operator.
    fn binary_op_return_ty(&self, op: BinaryOp, rhs_ty: &Ty) -> (r: Ty)
        ensures
            r@ == self.op_result(op, rhs_ty@),
    ;

    closed spec fn file_of(&self, func: Function) -> HirFileId {
        arbitrary()
    }

    /// The file that a function is written in.
    fn source_file(&self, func: Function) -> (r: HirFileId)
        ensures
            r == self.file_of(func),
    ;

    closed spec fn syntax_of_field(&self, func: Function, expr: ExprId, field: usize) -> Option<
        FieldSyntax,
    > {
        arbitrary()
    }

    /// Where a field of a struct literal in the body of a function is written.
    fn field_syntax(&self, func: Function, expr: ExprId, field: usize) -> (r: Option<FieldSyntax>)
        ensures
            r == self.syntax_of_field(func, expr, field),
    ;
}

} // verus!
