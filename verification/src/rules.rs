//! The typing rules that do not walk into other expressions.

use vstd::prelude::*;

use crate::body::{Literal, UnaryOp};
use crate::context::{Env, InferenceContext, Model, Run};
use crate::db::HirDatabase;
use crate::defs::{AdtDef, ExprId, ExprOrPatId, StructField, TypeRef, VariantDef};
use crate::error::InferError;
use crate::name::Name;
use crate::primitive::{IntTy, Signedness, UncertainIntTy};
use crate::ty::{InferTy, Mutability, Ty, TyModel, TypeCtor};
use crate::{context, fresh, name, ty};

verus! {

/// When inferring an expression, we propagate downward whatever type hint we
/// are able in the form of an `Expectation`.
#[derive(Debug)]
pub struct Expectation {
    pub ty: Ty,
}

impl View for Expectation {
    type V = TyModel;

    open spec fn view(&self) -> TyModel {
        self.ty@
    }
}

impl Expectation {
    /// The expectation that the type of the expression needs to equal the given
    /// type.
    pub fn has_type(ty: Ty) -> (r: Expectation)
        ensures
            r@ == ty@,
    {
        Expectation { ty }
    }

    /// This expresses no expectation on the type.
    pub fn none() -> (r: Expectation)
        ensures
            r@ == TyModel::Unknown,
    {
        Expectation { ty: Ty::Unknown }
    }
}

impl Clone for Expectation {
    fn clone(&self) -> (r: Expectation)
        ensures
            r@ == self@,
    {
        Expectation { ty: self.ty.clone() }
    }
}

pub open spec fn bool_ty() -> TyModel {
    ty::simple(TypeCtor::Bool)
}

pub open spec fn never_ty() -> TyModel {
    ty::simple(TypeCtor::Never)
}

pub open spec fn int_ty(known: IntTy) -> TyModel {
    ty::simple(TypeCtor::Int(UncertainIntTy::Known(known)))
}

/// The type of a literal.
pub open spec fn literal_ty(literal: Literal) -> TyModel {
    match literal {
        Literal::Bool(_) => bool_ty(),
        Literal::String(_) => ty::apply_one(
            TypeCtor::Ref(Mutability::Shared),
            ty::simple(TypeCtor::Str),
        ),
        Literal::ByteString(_) => ty::apply_one(
            TypeCtor::Ref(Mutability::Shared),
            ty::apply_one(TypeCtor::Slice, int_ty(IntTy::u8())),
        ),
        Literal::Char(_) => ty::simple(TypeCtor::Char),
        Literal::Int(_, uncertain) => ty::simple(TypeCtor::Int(uncertain)),
        Literal::Float(_, float) => ty::simple(TypeCtor::Float(float)),
    }
}

/// Whether a value of the type can be negated without a trait.
pub open spec fn has_builtin_neg(ty: TyModel) -> bool {
    match ty {
        TyModel::Apply { ctor: TypeCtor::Int(UncertainIntTy::Unknown), .. } => true,
        TyModel::Apply { ctor: TypeCtor::Int(UncertainIntTy::Known(known)), .. } => known.signedness
            == Signedness::Signed,
        TyModel::Apply { ctor: TypeCtor::Float(_), .. } => true,
        TyModel::Infer(InferTy::IntVar(_)) | TyModel::Infer(InferTy::FloatVar(_)) => true,
        _ => false,
    }
}

/// Whether `!` can be applied to a value of the type without a trait.
pub open spec fn has_builtin_not(ty: TyModel) -> bool {
    match ty {
        TyModel::Apply { ctor: TypeCtor::Bool, .. } | TyModel::Apply {
            ctor: TypeCtor::Int(_),
            ..
        } => true,
        TyModel::Infer(InferTy::IntVar(_)) => true,
        _ => false,
    }
}

/// The type of a unary operation on a value of the given type.
pub open spec fn unary_ty(op: UnaryOp, inner: TyModel) -> Result<TyModel, InferError> {
    match op {
        UnaryOp::Deref => match ty::builtin_deref(inner) {
            Err(e) => Err(e),
            Ok(Some(ty)) => Ok(ty),
            Ok(None) => Ok(TyModel::Unknown),
        },
        UnaryOp::Neg => Ok(
            if has_builtin_neg(inner) {
                inner
            } else {
                TyModel::Unknown
            },
        ),
        UnaryOp::Not => Ok(
            if has_builtin_not(inner) {
                inner
            } else {
                TyModel::Unknown
            },
        ),
    }
}

/// The type of the elements of an array where a type is expected of the whole.
pub open spec fn element_ty(s: Model, expected: TyModel) -> Run<TyModel> {
    match expected {
        TyModel::Apply { ctor: TypeCtor::Slice, params } | TyModel::Apply {
            ctor: TypeCtor::Array,
            params,
        } => match ty::single(params) {
            Ok(ty) => Ok((s, ty)),
            Err(e) => Err(e),
        },
        _ => context::on_vars(s, fresh::new_type_var(s.vars)),
    }
}

/// What is expected of the arms of a `match`: as of the whole, with a new variable
/// if nothing is expected.
pub open spec fn arm_expectation(s: Model, expected: TyModel) -> Run<TyModel> {
    if expected == TyModel::Unknown {
        context::on_vars(s, fresh::new_type_var(s.vars))
    } else {
        Ok((s, expected))
    }
}

/// What is expected behind a reference where a type is expected of the reference.
pub open spec fn referent_expectation(expected: TyModel) -> Result<TyModel, InferError> {
    match ty::reference(expected) {
        Err(e) => Err(e),
        Ok(Some((inner, _))) => Ok(inner),
        Ok(None) => Ok(TyModel::Unknown),
    }
}

/// The type of a field of a type, and the field if it is that of a struct.
pub open spec fn own_field<D: HirDatabase>(db: &D, ty: TyModel, name: Seq<char>) -> Option<
    (TyModel, Option<StructField>),
> {
    match ty {
        TyModel::Apply { ctor: TypeCtor::Tuple, params } => match name::tuple_index(name) {
            Some(i) => if i < params.len() {
                Some((params[i as int], None))
            } else {
                None
            },
            None => None,
        },
        TyModel::Apply { ctor: TypeCtor::Adt(AdtDef::Struct(strukt)), params } => {
            match db.field_named(VariantDef::Struct(strukt), name) {
                Some(field) => Some((ty::subst(db.field_type(field), params), Some(field))),
                None => None,
            }
        },
        _ => None,
    }
}

/// The field of the first of these types that has one.
pub open spec fn first_field<D: HirDatabase>(db: &D, tys: Seq<TyModel>, name: Seq<char>) -> Option<
    (TyModel, Option<StructField>),
>
    decreases tys.len(),
{
    if tys.len() == 0 {
        None
    } else {
        match own_field(db, tys[0], name) {
            Some(found) => Some(found),
            None => first_field(db, tys.skip(1), name),
        }
    }
}

/// The type of a field access on a value of some type.
#[verifier::opaque]
pub open spec fn field_access<D: HirDatabase>(
    env: Env<D>,
    s: Model,
    expr: ExprId,
    receiver: TyModel,
    name: Seq<char>,
) -> Run<TyModel> {
    match first_field(env.db, env.db.derefs(receiver), name) {
        Some((ty, Some(field))) => context::insert_in(
            Model {
                field_resolutions: s.field_resolutions.insert(ExprOrPatId::ExprId(expr), field),
                ..s
            },
            ty,
        ),
        Some((ty, None)) => context::insert_in(s, ty),
        None => context::insert_in(s, TyModel::Unknown),
    }
}

/// Records the type of an expression, after it has been made equal to what is
/// expected.
#[verifier::opaque]
pub open spec fn record_expr<D: HirDatabase>(
    env: Env<D>,
    s: Model,
    expr: ExprId,
    ty: TyModel,
    expected: TyModel,
) -> Run<TyModel> {
    match context::insert_shallow_in(s, ty) {
        Err(e) => Err(e),
        Ok((s, ty)) => match context::unify_in(s, ty, expected) {
            Err(e) => Err(e),
            Ok((s, _)) => match context::resolved(env.db, s, ty) {
                Err(e) => Err(e),
                Ok((s, ty)) => Ok(
                    (Model { type_of_expr: s.type_of_expr.insert(expr.0, ty), ..s }, ty),
                ),
            },
        },
    }
}

/// The type that is declared for something, with variables for what it leaves open.
pub open spec fn declared_ty<D: HirDatabase>(
    env: Env<D>,
    s: Model,
    type_ref: Option<TypeRef>,
) -> Run<TyModel> {
    match type_ref {
        Some(type_ref) => context::make_ty(env.db, env.resolver(), s, type_ref),
        None => Ok((s, TyModel::Unknown)),
    }
}

pub fn type_of_literal(literal: &Literal) -> (r: Ty)
    ensures
        r@ == literal_ty(*literal),
{
    match literal {
        Literal::Bool(_) => Ty::simple(TypeCtor::Bool),
        Literal::String(_) => {
            Ty::apply_one(TypeCtor::Ref(Mutability::Shared), Ty::simple(TypeCtor::Str))
        },
        Literal::ByteString(_) => {
            let byte_type = Ty::simple(TypeCtor::Int(UncertainIntTy::Known(IntTy::u8())));
            let slice_type = Ty::apply_one(TypeCtor::Slice, byte_type);
            Ty::apply_one(TypeCtor::Ref(Mutability::Shared), slice_type)
        },
        Literal::Char(_) => Ty::simple(TypeCtor::Char),
        Literal::Int(_, uncertain) => Ty::simple(TypeCtor::Int(*uncertain)),
        Literal::Float(_, float) => Ty::simple(TypeCtor::Float(*float)),
    }
}

fn can_neg(ty: &Ty) -> (r: bool)
    ensures
        r == has_builtin_neg(ty@),
{
    match ty {
        Ty::Apply(a_ty) => {
            proof {
                ty::lemma_apply_model(*a_ty);
            }
            match a_ty.ctor {
                TypeCtor::Int(UncertainIntTy::Unknown) => true,
                TypeCtor::Int(UncertainIntTy::Known(known)) => known.signedness == Signedness::Signed,
                TypeCtor::Float(_) => true,
                _ => false,
            }
        },
        Ty::Infer(InferTy::IntVar(_)) | Ty::Infer(InferTy::FloatVar(_)) => true,
        _ => false,
    }
}

fn can_not(ty: &Ty) -> (r: bool)
    ensures
        r == has_builtin_not(ty@),
{
    match ty {
        Ty::Apply(a_ty) => {
            proof {
                ty::lemma_apply_model(*a_ty);
            }
            match a_ty.ctor {
                TypeCtor::Bool | TypeCtor::Int(_) => true,
                _ => false,
            }
        },
        Ty::Infer(InferTy::IntVar(_)) => true,
        _ => false,
    }
}

pub fn type_of_unary(op: UnaryOp, inner_ty: Ty) -> (r: Result<Ty, InferError>)
    ensures
        match unary_ty(op, inner_ty@) {
            Ok(ty) => r is Ok && r->Ok_0@ == ty,
            Err(e) => r == Err::<Ty, InferError>(e),
        },
{
    match op {
        UnaryOp::Deref => match inner_ty.builtin_deref()? {
            Some(derefed_ty) => Ok(derefed_ty),
            None => Ok(Ty::Unknown),
        },
        UnaryOp::Neg => if can_neg(&inner_ty) {
            Ok(inner_ty)
        } else {
            Ok(Ty::Unknown)
        },
        UnaryOp::Not => if can_not(&inner_ty) {
            Ok(inner_ty)
        } else {
            Ok(Ty::Unknown)
        },
    }
}

impl<'a, D: HirDatabase> InferenceContext<'a, D> {
    pub fn element_ty(&mut self, expected: &Ty) -> (r: Result<Ty, InferError>)
        ensures
            final(self).env == old(self).env,
            context::inferred(r, final(self)@, element_ty(old(self)@, expected@)),
    {
        match expected {
            Ty::Apply(a_ty) => {
                proof {
                    ty::lemma_apply_model(*a_ty);
                }
                match a_ty.ctor {
                    TypeCtor::Slice | TypeCtor::Array => {
                        let ty = a_ty.parameters.as_single()?;
                        Ok(ty.clone())
                    },
                    _ => self.new_type_var(),
                }
            },
            _ => self.new_type_var(),
        }
    }

    fn own_field(&self, ty: &Ty, name: &Name) -> (r: Option<(Ty, Option<StructField>)>)
        ensures
            match own_field(self.env.db, ty@, name@) {
                Some((t, f)) => r matches Some(found) && found.0@ == t && found.1 == f,
                None => r is None,
            },
    {
        match ty {
            Ty::Apply(a_ty) => {
                proof {
                    ty::lemma_apply_model(*a_ty);
                }
                match a_ty.ctor {
                    TypeCtor::Tuple => match name.as_tuple_index() {
                        Some(i) => if i < a_ty.parameters.0.len() {
                            Some((a_ty.parameters.0[i].clone(), None))
                        } else {
                            None
                        },
                        None => None,
                    },
                    TypeCtor::Adt(AdtDef::Struct(s)) => {
                        match self.env.db.variant_field(VariantDef::Struct(s), name) {
                            Some(field) => {
                                let ty = self.env.db.field_ty(field).subst(&a_ty.parameters);
                                Some((ty, Some(field)))
                            },
                            None => None,
                        }
                    },
                    _ => None,
                }
            },
            _ => None,
        }
    }

    fn first_field(&self, tys: &Vec<Ty>, name: &Name) -> (r: Option<(Ty, Option<StructField>)>)
        ensures
            match first_field(self.env.db, ty::models(tys@), name@) {
                Some((t, f)) => r matches Some(found) && found.0@ == t && found.1 == f,
                None => r is None,
            },
    {
        let ghost all = ty::models(tys@);
        let mut i: usize = 0;
        assert(all.skip(0) =~= all);
        while i < tys.len()
            invariant
                i <= tys.len(),
                all == ty::models(tys@),
                first_field(self.env.db, all, name@) == first_field(
                    self.env.db,
                    all.skip(i as int),
                    name@,
                ),
            decreases tys.len() - i,
        {
            assert(all.skip(i as int)[0] == tys@[i as int]@);
            assert(all.skip(i as int).skip(1) =~= all.skip(i + 1));
            let found = self.own_field(&tys[i], name);
            if found.is_some() {
                return found;
            }
            i += 1;
        }
        None
    }

    /// The type of a field access, which is recorded.
    pub fn field_access(&mut self, tgt_expr: ExprId, receiver_ty: &Ty, name: &Name) -> (r:
        Result<Ty, InferError>)
        ensures
            final(self).env == old(self).env,
            context::inferred(
                r,
                final(self)@,
                field_access(old(self).env, old(self)@, tgt_expr, receiver_ty@, name@),
            ),
    {
        reveal(field_access);
        let derefed_tys = self.env.db.autoderef(receiver_ty);
        let ty = match self.first_field(&derefed_tys, name) {
            Some((ty, Some(field))) => {
                self.write_field_resolution(tgt_expr, field);
                ty
            },
            Some((ty, None)) => ty,
            None => Ty::Unknown,
        };
        self.insert_type_vars(&ty)
    }

    pub fn record_expr(&mut self, expr: ExprId, ty: Ty, expected: &Ty) -> (r: Result<Ty, InferError>)
        ensures
            final(self).env == old(self).env,
            context::inferred(
                r,
                final(self)@,
                record_expr(old(self).env, old(self)@, expr, ty@, expected@),
            ),
    {
        reveal(record_expr);
        // use a new type variable if the type is unknown
        let ty = self.insert_type_vars_shallow(ty)?;
        self.unify(&ty, expected)?;
        let ty = self.resolved(&ty)?;
        self.write_expr_ty(expr, ty.clone());
        Ok(ty)
    }

    pub fn declared_ty(&mut self, type_ref: Option<TypeRef>) -> (r: Result<Ty, InferError>)
        ensures
            final(self).env == old(self).env,
            context::inferred(
                r,
                final(self)@,
                declared_ty(old(self).env, old(self)@, type_ref),
            ),
    {
        match type_ref {
            Some(type_ref) => self.make_ty(type_ref),
            None => Ok(Ty::Unknown),
        }
    }
}

} // verus!
