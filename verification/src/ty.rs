//! Types, with the placeholders that stand for types not known yet.

use vstd::prelude::*;

use crate::defs::{AdtDef, CallableDef};
use crate::error::InferError;
use crate::name::Name;
use crate::primitive::{FloatTy, IntTy, UncertainFloatTy, UncertainIntTy};

verus! {

#[derive(Copy, Clone, PartialEq, Eq, Debug, Structural)]
pub enum Mutability {
    Shared,
    Mut,
}

/// The ID of a type variable.
#[derive(Copy, Clone, PartialEq, Eq, Hash, Debug, Structural)]
pub struct TypeVarId(pub u32);

/// The kinds of placeholders that inference needs. There are separate ones for
/// general types, and for integer and float variables. The latter two are used
/// for literals: `100` could be of one of several integer types.
#[derive(Copy, Clone, PartialEq, Eq, Hash, Debug, Structural)]
pub enum InferTy {
    TypeVar(TypeVarId),
    IntVar(TypeVarId),
    FloatVar(TypeVarId),
}

/// The head of a type, without its parameters.
#[derive(Copy, Clone, PartialEq, Eq, Debug, Structural)]
pub enum TypeCtor {
    Bool,
    Char,
    Int(UncertainIntTy),
    Float(UncertainFloatTy),
    Adt(AdtDef),
    Str,
    Slice,
    Array,
    RawPtr(Mutability),
    Ref(Mutability),
    FnDef(CallableDef),
    FnPtr,
    Never,
    Tuple,
}

/// A type.
#[derive(Debug)]
pub enum Ty {
    /// A type constructor applied to type parameters.
    Apply(ApplicationTy),
    /// A parameter of the generic definition around it, found by its index.
    Param { idx: u32, name: Name },
    /// A placeholder.
    Infer(InferTy),
    /// A type that is not known, or an erroneous one.
    Unknown,
}

#[derive(Debug)]
pub struct ApplicationTy {
    pub ctor: TypeCtor,
    pub parameters: Substs,
}

/// A list of types to put in place of type parameters.
#[derive(Debug)]
pub struct Substs(pub Vec<Ty>);

/// A type as a mathematical value.
#[verifier::ext_equal]
pub enum TyModel {
    Apply { ctor: TypeCtor, params: Seq<TyModel> },
    Param { idx: u32, name: Seq<char> },
    Infer(InferTy),
    Unknown,
}

impl Ty {
    pub open spec fn model(self) -> TyModel
        decreases self,
    {
        match self {
            Ty::Apply(a) => TyModel::Apply {
                ctor: a.ctor,
                params: Seq::new(
                    a.parameters.0@.len(),
                    |i: int|
                        if 0 <= i < a.parameters.0@.len() {
                            a.parameters.0@[i].model()
                        } else {
                            TyModel::Unknown
                        },
                ),
            },
            Ty::Param { idx, name } => TyModel::Param { idx, name: name@ },
            Ty::Infer(tv) => TyModel::Infer(tv),
            Ty::Unknown => TyModel::Unknown,
        }
    }
}

/// The types of a list as mathematical values.
pub open spec fn models(tys: Seq<Ty>) -> Seq<TyModel> {
    Seq::new(tys.len(), |i: int| tys[i].model())
}

/// The types from the `i`th on; none if there are fewer.
pub open spec fn from_nth(tys: Seq<TyModel>, i: int) -> Seq<TyModel> {
    if i <= tys.len() {
        tys.skip(i)
    } else {
        Seq::empty()
    }
}

pub open spec fn opt_model(ty: Option<Ty>) -> Option<TyModel> {
    match ty {
        Some(ty) => Some(ty.model()),
        None => None,
    }
}

impl View for Ty {
    type V = TyModel;

    open spec fn view(&self) -> TyModel {
        self.model()
    }
}

impl View for Substs {
    type V = Seq<TyModel>;

    open spec fn view(&self) -> Seq<TyModel> {
        models(self.0@)
    }
}

/// A type made of a constructor and its parameters is what they are.
pub proof fn lemma_apply_model(a: ApplicationTy)
    ensures
        Ty::Apply(a)@ == (TyModel::Apply { ctor: a.ctor, params: a.parameters@ }),
{
    assert(Ty::Apply(a)@->params =~= a.parameters@);
}

/// A type without parameters.
pub open spec fn simple(ctor: TypeCtor) -> TyModel {
    TyModel::Apply { ctor, params: Seq::empty() }
}

/// A type with one parameter.
pub open spec fn apply_one(ctor: TypeCtor, param: TyModel) -> TyModel {
    TyModel::Apply { ctor, params: seq![param] }
}

pub open spec fn unit() -> TyModel {
    simple(TypeCtor::Tuple)
}

/// The parameters of a type that has a constructor.
pub open spec fn substs_of(ty: TyModel) -> Option<Seq<TyModel>> {
    match ty {
        TyModel::Apply { params, .. } => Some(params),
        _ => None,
    }
}

/// The parameters of a type; none if it has no constructor.
pub open spec fn params_of(ty: TyModel) -> Seq<TyModel> {
    match ty {
        TyModel::Apply { params, .. } => params,
        _ => Seq::empty(),
    }
}

/// The only type of a list.
pub open spec fn single(params: Seq<TyModel>) -> Result<TyModel, InferError> {
    if params.len() == 1 {
        Ok(params[0])
    } else {
        Err(InferError::NotSingleParameter)
    }
}

/// The type that a reference type refers to, and its mutability.
pub open spec fn reference(ty: TyModel) -> Result<Option<(TyModel, Mutability)>, InferError> {
    match ty {
        TyModel::Apply { ctor: TypeCtor::Ref(m), params } => match single(params) {
            Ok(inner) => Ok(Some((inner, m))),
            Err(e) => Err(e),
        },
        _ => Ok(None),
    }
}

/// The types of the fields of a tuple type.
pub open spec fn tuple_fields(ty: TyModel) -> Option<Seq<TyModel>> {
    match ty {
        TyModel::Apply { ctor: TypeCtor::Tuple, params } => Some(params),
        _ => None,
    }
}

/// The type behind a reference or a raw pointer.
pub open spec fn builtin_deref(ty: TyModel) -> Result<Option<TyModel>, InferError> {
    match ty {
        TyModel::Apply { ctor: TypeCtor::Ref(_), params }
        | TyModel::Apply { ctor: TypeCtor::RawPtr(_), params } => match single(params) {
            Ok(inner) => Ok(Some(inner)),
            Err(e) => Err(e),
        },
        _ => Ok(None),
    }
}

/// The type with the given parameters in place of its own.
pub open spec fn with_params(ty: TyModel, params: Seq<TyModel>) -> TyModel {
    match ty {
        TyModel::Apply { ctor, .. } => TyModel::Apply { ctor, params },
        _ => ty,
    }
}

/// The type with each type parameter replaced by the type at its index; one
/// beyond the list stays.
pub open spec fn subst(ty: TyModel, substs: Seq<TyModel>) -> TyModel
    decreases ty,
{
    match ty {
        TyModel::Apply { ctor, params } => TyModel::Apply {
            ctor,
            params: Seq::new(
                params.len(),
                |i: int|
                    if 0 <= i < params.len() {
                        subst(params[i], substs)
                    } else {
                        TyModel::Unknown
                    },
            ),
        },
        TyModel::Param { idx, .. } => if (idx as int) < substs.len() {
            substs[idx as int]
        } else {
            ty
        },
        _ => ty,
    }
}

/// The variable of a placeholder.
pub open spec fn inner_var(tv: InferTy) -> TypeVarId {
    match tv {
        InferTy::TypeVar(v) | InferTy::IntVar(v) | InferTy::FloatVar(v) => v,
    }
}

/// The type that a placeholder stands for when nothing more is known of it.
pub open spec fn fallback(tv: InferTy) -> TyModel {
    match tv {
        InferTy::TypeVar(_) => TyModel::Unknown,
        InferTy::IntVar(_) => simple(TypeCtor::Int(UncertainIntTy::Known(IntTy::i32()))),
        InferTy::FloatVar(_) => simple(TypeCtor::Float(UncertainFloatTy::Known(FloatTy::double()))),
    }
}

impl InferTy {
    /// The variable of the placeholder, whatever its kind.
    pub fn to_inner(self) -> (r: TypeVarId)
        ensures
            r == inner_var(self),
    {
        match self {
            InferTy::TypeVar(v) => v,
            InferTy::IntVar(v) => v,
            InferTy::FloatVar(v) => v,
        }
    }

    /// The type to use when nothing is known of the placeholder: for an integer
    /// variable the signed type of 32 bits, for a float variable the type of 64
    /// bits, else an unknown type.
    pub fn fallback_value(self) -> (r: Ty)
        ensures
            r@ == fallback(self),
    {
        match self {
            InferTy::TypeVar(_) => Ty::Unknown,
            InferTy::IntVar(_) => Ty::simple(TypeCtor::Int(UncertainIntTy::Known(IntTy::i32()))),
            InferTy::FloatVar(_) => Ty::simple(
                TypeCtor::Float(UncertainFloatTy::Known(FloatTy::double())),
            ),
        }
    }
}

impl Substs {
    pub fn empty() -> (r: Substs)
        ensures
            r@ == Seq::<TyModel>::empty(),
    {
        let r = Substs(Vec::new());
        assert(r@ =~= Seq::<TyModel>::empty());
        r
    }

    /// The first `n` types, or all if there are fewer.
    pub fn prefix(&self, n: usize) -> (r: Substs)
        ensures
            r@ == (if n <= self@.len() {
                self@.take(n as int)
            } else {
                self@
            }),
    {
        let len = if n <= self.0.len() {
            n
        } else {
            self.0.len()
        };
        let mut tys: Vec<Ty> = Vec::new();
        let mut i: usize = 0;
        while i < len
            invariant
                i <= len <= self.0@.len(),
                tys.len() == i,
                forall|j: int| 0 <= j < i ==> (#[trigger] tys@[j])@ == self.0@[j]@,
            decreases len - i,
        {
            tys.push(self.0[i].clone());
            i += 1;
        }
        assert(models(tys@) =~= self@.take(len as int));
        assert(self@.take(self@.len() as int) =~= self@);
        Substs(tys)
    }

    /// The only type of the list.
    pub fn as_single(&self) -> (r: Result<&Ty, InferError>)
        ensures
            match r {
                Ok(ty) => single(self@) == Ok::<TyModel, InferError>(ty@),
                Err(e) => single(self@) == Err::<TyModel, InferError>(e),
            },
    {
        if self.0.len() == 1 {
            Ok(&self.0[0])
        } else {
            Err(InferError::NotSingleParameter)
        }
    }
}

impl Clone for Substs {
    fn clone(&self) -> (r: Substs)
        ensures
            r@ == self@,
        decreases self,
    {
        let mut tys: Vec<Ty> = Vec::new();
        let mut i: usize = 0;
        while i < self.0.len()
            invariant
                i <= self.0@.len(),
                tys.len() == i,
                forall|j: int| 0 <= j < i ==> (#[trigger] tys@[j])@ == self.0@[j]@,
            decreases self.0.len() - i,
        {
            let ty = self.0[i].clone();
            tys.push(ty);
            i += 1;
        }
        assert(models(tys@) =~= self@);
        Substs(tys)
    }
}

impl Clone for Ty {
    fn clone(&self) -> (r: Ty)
        ensures
            r@ == self@,
        decreases self,
    {
        match self {
            Ty::Apply(a) => {
                let r = ApplicationTy { ctor: a.ctor, parameters: a.parameters.clone() };
                proof {
                    lemma_apply_model(r);
                    lemma_apply_model(*a);
                }
                Ty::Apply(r)
            },
            Ty::Param { idx, name } => Ty::Param { idx: *idx, name: name.clone() },
            Ty::Infer(tv) => Ty::Infer(*tv),
            Ty::Unknown => Ty::Unknown,
        }
    }
}

impl Ty {
    fn same(&self, other: &Ty) -> (r: bool)
        ensures
            r == (self@ == other@),
        decreases self,
    {
        match (self, other) {
            (Ty::Apply(a), Ty::Apply(b)) => {
                proof {
                    lemma_apply_model(*a);
                    lemma_apply_model(*b);
                }
                let xs = &a.parameters.0;
                let ys = &b.parameters.0;
                if a.ctor != b.ctor || xs.len() != ys.len() {
                    assert(models(xs@).len() == xs.len() && models(ys@).len() == ys.len());
                    return false;
                }
                let mut i: usize = 0;
                while i < xs.len()
                    invariant
                        i <= xs.len(),
                        xs.len() == ys.len(),
                        decreases_to!(*self => xs@),
                        self@ == (TyModel::Apply { ctor: a.ctor, params: models(xs@) }),
                        other@ == (TyModel::Apply { ctor: b.ctor, params: models(ys@) }),
                        forall|j: int| 0 <= j < i ==> models(xs@)[j] == models(ys@)[j],
                    decreases xs.len() - i,
                {
                    if !xs[i].same(&ys[i]) {
                        assert(models(xs@)[i as int] != models(ys@)[i as int]);
                        return false;
                    }
                    i += 1;
                }
                assert(models(xs@) =~= models(ys@));
                true
            },
            (Ty::Param { idx: i, name: n }, Ty::Param { idx: j, name: m }) => *i == *j && *n == *m,
            (Ty::Infer(a), Ty::Infer(b)) => *a == *b,
            (Ty::Unknown, Ty::Unknown) => true,
            _ => false,
        }
    }

    pub fn simple(ctor: TypeCtor) -> (r: Ty)
        ensures
            r@ == simple(ctor),
    {
        Ty::apply(ctor, Substs::empty())
    }

    pub fn apply(ctor: TypeCtor, parameters: Substs) -> (r: Ty)
        ensures
            r@ == (TyModel::Apply { ctor, params: parameters@ }),
    {
        let a = ApplicationTy { ctor, parameters };
        proof {
            lemma_apply_model(a);
        }
        Ty::Apply(a)
    }

    pub fn apply_one(ctor: TypeCtor, param: Ty) -> (r: Ty)
        ensures
            r@ == apply_one(ctor, param@),
    {
        let mut tys: Vec<Ty> = Vec::new();
        tys.push(param);
        assert(models(tys@) =~= seq![param@]);
        Ty::apply(ctor, Substs(tys))
    }

    pub fn unit() -> (r: Ty)
        ensures
            r@ == unit(),
    {
        Ty::simple(TypeCtor::Tuple)
    }

    /// The parameters of a type that has a constructor.
    pub fn substs(&self) -> (r: Option<Substs>)
        ensures
            match r {
                Some(s) => substs_of(self@) == Some(s@),
                None => substs_of(self@) is None,
            },
    {
        match self {
            Ty::Apply(a) => {
                proof {
                    lemma_apply_model(*a);
                }
                Some(a.parameters.clone())
            },
            _ => None,
        }
    }

    /// The parameters of the type; none if it has no constructor.
    pub fn substs_or_empty(&self) -> (r: Substs)
        ensures
            r@ == params_of(self@),
    {
        match self.substs() {
            Some(s) => s,
            None => Substs::empty(),
        }
    }

    /// The type that a reference type refers to, and its mutability.
    pub fn as_reference(&self) -> (r: Result<Option<(&Ty, Mutability)>, InferError>)
        ensures
            match r {
                Ok(Some((ty, m))) => reference(self@) == Ok::<_, InferError>(Some((ty@, m))) && (
                decreases_to!(self@ => ty@)),
                Ok(None) => reference(self@) matches Ok(None),
                Err(e) => reference(self@) == Err::<Option<(TyModel, Mutability)>, _>(e),
            },
    {
        match self {
            Ty::Apply(a) => {
                proof {
                    lemma_apply_model(*a);
                }
                match a.ctor {
                    TypeCtor::Ref(m) => {
                        let inner = a.parameters.as_single()?;
                        assert(inner@ == self@->params[0]);
                        Ok(Some((inner, m)))
                    },
                    _ => Ok(None),
                }
            },
            _ => Ok(None),
        }
    }

    /// The types of the fields of a tuple type.
    pub fn as_tuple(&self) -> (r: Option<&Substs>)
        ensures
            match r {
                Some(s) => tuple_fields(self@) == Some(s@),
                None => tuple_fields(self@) is None,
            },
    {
        match self {
            Ty::Apply(a) => {
                proof {
                    lemma_apply_model(*a);
                }
                match a.ctor {
                    TypeCtor::Tuple => Some(&a.parameters),
                    _ => None,
                }
            },
            _ => None,
        }
    }

    /// The type behind a reference or a raw pointer.
    pub fn builtin_deref(&self) -> (r: Result<Option<Ty>, InferError>)
        ensures
            match r {
                Ok(Some(ty)) => builtin_deref(self@) == Ok::<_, InferError>(Some(ty@)),
                Ok(None) => builtin_deref(self@) matches Ok(None),
                Err(e) => builtin_deref(self@) == Err::<Option<TyModel>, _>(e),
            },
    {
        match self {
            Ty::Apply(a) => {
                proof {
                    lemma_apply_model(*a);
                }
                match a.ctor {
                    TypeCtor::Ref(_) | TypeCtor::RawPtr(_) => {
                        let inner = a.parameters.as_single()?;
                        Ok(Some(inner.clone()))
                    },
                    _ => Ok(None),
                }
            },
            _ => Ok(None),
        }
    }

    /// The type with the given parameters in place of its own.
    pub fn apply_substs(self, substs: Substs) -> (r: Ty)
        ensures
            r@ == with_params(self@, substs@),
    {
        match self {
            Ty::Apply(a) => Ty::apply(a.ctor, substs),
            _ => self,
        }
    }

    /// Replaces type parameters: if the type is `&[T]`, where `T` has index 0, and
    /// the list has `u32` at index 0, the result is `&[u32]`.
    pub fn subst(&self, substs: &Substs) -> (r: Ty)
        ensures
            r@ == subst(self@, substs@),
        decreases self,
    {
        match self {
            Ty::Apply(a) => {
                proof {
                    lemma_apply_model(*a);
                }
                let xs = &a.parameters.0;
                let mut tys: Vec<Ty> = Vec::new();
                let mut i: usize = 0;
                while i < xs.len()
                    invariant
                        i <= xs.len(),
                        tys.len() == i,
                        decreases_to!(*self => xs@),
                        forall|j: int| 0 <= j < i ==> (#[trigger] tys@[j])@ == subst(xs@[j]@, substs@),
                    decreases xs.len() - i,
                {
                    let ty = xs[i].subst(substs);
                    tys.push(ty);
                    i += 1;
                }
                let r = Ty::apply(a.ctor, Substs(tys));
                assert(r@->params =~= subst(self@, substs@)->params);
                r
            },
            Ty::Param { idx, .. } => {
                if (*idx as usize) < substs.0.len() {
                    substs.0[*idx as usize].clone()
                } else {
                    self.clone()
                }
            },
            _ => self.clone(),
        }
    }
}

impl Eq for Ty {

}

impl PartialEq for Ty {
    fn eq(&self, other: &Ty) -> (r: bool) {
        self.same(other)
    }
}

impl vstd::std_specs::cmp::PartialEqSpecImpl for Ty {
    open spec fn obeys_eq_spec() -> bool {
        true
    }

    open spec fn eq_spec(&self, other: &Ty) -> bool {
        self@ == other@
    }
}

} // verus!
