//! The types of patterns.

use vstd::prelude::*;

use crate::body::{BindingAnnotation, FieldPat, Pat, Path};
use crate::context::{Env, InferenceContext, Model, Run};
use crate::db::HirDatabase;
use crate::defs::{ExprId, ExprOrPatId, PatId, Resolver, VariantDef};
use crate::error::InferError;
use crate::name::Name;
use crate::rules::Expectation;
use crate::ty::{Mutability, Substs, Ty, TyModel, TypeCtor};
use crate::{body, context, expr, name, path, ty};

verus! {

/// Binding modes inferred for patterns.
/// <https://doc.rust-lang.org/reference/patterns.html#binding-modes>
#[derive(Copy, Clone, PartialEq, Eq, Debug, Structural)]
pub enum BindingMode {
    Move,
    Ref(Mutability),
}

/// The binding mode that an annotation stands for.
pub open spec fn annotated_mode(annotation: BindingAnnotation) -> BindingMode {
    match annotation {
        BindingAnnotation::Unannotated | BindingAnnotation::Mutable => BindingMode::Move,
        BindingAnnotation::Ref => BindingMode::Ref(Mutability::Shared),
        BindingAnnotation::RefMut => BindingMode::Ref(Mutability::Mut),
    }
}

impl BindingMode {
    pub fn convert(annotation: &BindingAnnotation) -> (r: BindingMode)
        ensures
            r == annotated_mode(*annotation),
    {
        match annotation {
            BindingAnnotation::Unannotated | BindingAnnotation::Mutable => BindingMode::Move,
            BindingAnnotation::Ref => BindingMode::Ref(Mutability::Shared),
            BindingAnnotation::RefMut => BindingMode::Ref(Mutability::Mut),
        }
    }
}

impl Default for BindingMode {
    fn default() -> (r: BindingMode)
        ensures
            r == BindingMode::Move,
    {
        BindingMode::Move
    }
}

/// The binding mode behind a reference: once it is a shared reference it stays one.
pub open spec fn mode_behind(mode: BindingMode, mutability: Mutability) -> BindingMode {
    match mode {
        BindingMode::Ref(Mutability::Shared) => BindingMode::Ref(Mutability::Shared),
        _ => BindingMode::Ref(mutability),
    }
}

/// The type behind all references, and the binding mode there.
pub open spec fn behind_references(expected: TyModel, mode: BindingMode) -> Result<
    (TyModel, BindingMode),
    InferError,
>
    decreases expected,
{
    match expected {
        TyModel::Apply { ctor: TypeCtor::Ref(m), params } => if params.len() == 1 {
            behind_references(params[0], mode_behind(mode, m))
        } else {
            Err(InferError::NotSingleParameter)
        },
        _ => Ok((expected, mode)),
    }
}

/// Whether a reference may stand where the pattern is matched: the pattern then
/// applies to what is behind it.
pub open spec fn looks_behind_references(pat: Pat) -> bool {
    match pat {
        Pat::Tuple(_)
        | Pat::TupleStruct { .. }
        | Pat::Struct { .. }
        | Pat::Range { .. }
        | Pat::Slice { .. }
        | Pat::Path(_)
        | Pat::Lit(_) => true,
        Pat::Wild | Pat::Bind { .. } | Pat::Ref { .. } | Pat::Missing => false,
    }
}

/// The type that a pattern is matched with and the binding mode in it, where the
/// surroundings expect a type and have a binding mode. A reference pattern sets the
/// mode back.
pub open spec fn pat_expectation(pat: Pat, expected: TyModel, mode: BindingMode) -> Result<
    (TyModel, BindingMode),
    InferError,
> {
    if looks_behind_references(pat) {
        behind_references(expected, mode)
    } else if pat is Ref {
        Ok((expected, BindingMode::Move))
    } else {
        Ok((expected, mode))
    }
}

/// The type of a variable that is bound in some mode.
pub open spec fn bound_ty(mode: BindingMode, ty: TyModel) -> TyModel {
    match mode {
        BindingMode::Ref(m) => ty::apply_one(TypeCtor::Ref(m), ty),
        BindingMode::Move => ty,
    }
}

/// The type that a field of a variant has, with types for the variant's parameters.
pub open spec fn field_expectation<D: HirDatabase>(
    db: &D,
    def: Option<VariantDef>,
    name: Seq<char>,
    substs: Seq<TyModel>,
) -> TyModel {
    let declared = match def {
        Some(def) => match db.field_named(def, name) {
            Some(field) => db.field_type(field),
            None => TyModel::Unknown,
        },
        None => TyModel::Unknown,
    };
    ty::subst(declared, substs)
}

/// The patterns of a tuple struct pattern, with the names of their fields.
pub open spec fn numbered(pats: Seq<PatId>) -> Seq<(Seq<char>, PatId)> {
    Seq::new(pats.len(), |i: int| (name::decimal(i as nat), pats[i]))
}

/// The patterns of a struct pattern, with the names of their fields.
pub open spec fn named(args: Seq<FieldPat>) -> Seq<(Seq<char>, PatId)> {
    Seq::new(args.len(), |i: int| (args[i].name@, args[i].pat))
}

/// Whether the patterns for fields may be parts of a pattern.
pub open spec fn fields_inside(
    pats: Seq<Pat>,
    parent: PatId,
    fields: Seq<(Seq<char>, PatId)>,
) -> bool {
    forall|i: int|
        0 <= i < fields.len() ==> body::pat_inside(pats, parent, (#[trigger] fields[i]).1)
}

/// Records the type of a pattern, after it has been made equal to what is expected.
#[verifier::opaque]
pub open spec fn record_pat<D: HirDatabase>(
    env: Env<D>,
    s: Model,
    pat: PatId,
    ty: TyModel,
    expected: TyModel,
) -> Run<TyModel> {
    match context::insert_shallow_in(s, ty) {
        Err(e) => Err(e),
        Ok((s, ty)) => match context::unify_in(s, ty, expected) {
            Err(e) => Err(e),
            Ok((s, _)) => match context::resolved(env.db, s, ty) {
                Err(e) => Err(e),
                Ok((s, ty)) => Ok(
                    (Model { type_of_pat: s.type_of_pat.insert(pat.0, ty), ..s }, ty),
                ),
            },
        },
    }
}

/// Records the type of a binding, and gives the type of what it is bound to.
#[verifier::opaque]
pub open spec fn record_binding<D: HirDatabase>(
    env: Env<D>,
    s: Model,
    pat: PatId,
    mode: BindingMode,
    inner: TyModel,
) -> Run<TyModel> {
    match context::insert_shallow_in(s, inner) {
        Err(e) => Err(e),
        Ok((s, inner)) => match context::resolved(env.db, s, inner) {
            Err(e) => Err(e),
            Ok((s, inner)) => Ok(
                (
                    Model {
                        type_of_pat: s.type_of_pat.insert(pat.0, bound_ty(mode, inner)),
                        ..s
                    },
                    inner,
                ),
            ),
        },
    }
}

/// The type of a pattern, where a type is expected and a binding mode is given by
/// the surroundings.
pub open spec fn pat_ty<D: HirDatabase>(
    env: Env<D>,
    s: Model,
    pat: PatId,
    expected: TyModel,
    mode: BindingMode,
) -> Run<TyModel>
    decreases body::pat_limit(env.body.pat_seq(), pat), 0nat, pat.0, 1nat, 0nat,
{
    let node = env.body.pat_seq()[pat.0 as int];
    match pat_expectation(node, expected, mode) {
        Err(e) => Err(e),
        Ok((expected, mode)) => match node {
            Pat::Bind { mode: annotation, subpat, .. } => {
                let own_mode = if annotation is Unannotated {
                    mode
                } else {
                    annotated_mode(annotation)
                };
                match subpat {
                    None => record_binding(env, s, pat, own_mode, expected),
                    Some(sub) => if body::pat_inside(env.body.pat_seq(), pat, sub) {
                        match pat_ty(env, s, sub, expected, mode) {
                            Err(e) => Err(e),
                            Ok((s, inner)) => record_binding(env, s, pat, own_mode, inner),
                        }
                    } else {
                        arbitrary()
                    },
                }
            },
            Pat::Tuple(args) => {
                let fields = match ty::tuple_fields(expected) {
                    Some(fields) => fields,
                    None => Seq::empty(),
                };
                match tuple_pats(env, s, pat, args@, fields, mode) {
                    Err(e) => Err(e),
                    Ok((s, params)) => record_pat(
                        env,
                        s,
                        pat,
                        TyModel::Apply { ctor: TypeCtor::Tuple, params },
                        expected,
                    ),
                }
            },
            Pat::Ref { pat: sub, mutability } => match ty::reference(expected) {
                Err(e) => Err(e),
                Ok(behind) => if body::pat_inside(env.body.pat_seq(), pat, sub) {
                    let inner = match behind {
                        Some((inner, _)) => inner,
                        None => TyModel::Unknown,
                    };
                    match pat_ty(env, s, sub, inner, mode) {
                        Err(e) => Err(e),
                        Ok((s, ty)) => record_pat(
                            env,
                            s,
                            pat,
                            ty::apply_one(TypeCtor::Ref(mutability), ty),
                            expected,
                        ),
                    }
                } else {
                    arbitrary()
                },
            },
            Pat::TupleStruct { path, args } => match variant_pat(
                env,
                s,
                pat,
                path,
                numbered(args@),
                expected,
                mode,
            ) {
                Err(e) => Err(e),
                Ok((s, ty)) => record_pat(env, s, pat, ty, expected),
            },
            Pat::Struct { path, args } => match variant_pat(
                env,
                s,
                pat,
                path,
                named(args@),
                expected,
                mode,
            ) {
                Err(e) => Err(e),
                Ok((s, ty)) => record_pat(env, s, pat, ty, expected),
            },
            Pat::Path(path) => match path::path_ty(
                env,
                s,
                env.resolver(),
                path,
                ExprOrPatId::PatId(pat),
            ) {
                Err(e) => Err(e),
                Ok((s, ty)) => record_pat(
                    env,
                    s,
                    pat,
                    match ty {
                        Some(ty) => ty,
                        None => TyModel::Unknown,
                    },
                    expected,
                ),
            },
            Pat::Slice { .. } => match tuple_pats(
                env,
                s,
                pat,
                body::subpats(node),
                Seq::empty(),
                mode,
            ) {
                Err(e) => Err(e),
                Ok((s, _)) => record_pat(env, s, pat, TyModel::Unknown, expected),
            },
            Pat::Range { .. } | Pat::Lit(_) => match after_pat_exprs(
                env,
                s,
                pat,
                body::pat_exprs(node),
            ) {
                Err(e) => Err(e),
                Ok(s) => record_pat(env, s, pat, TyModel::Unknown, expected),
            },
            Pat::Missing | Pat::Wild => record_pat(env, s, pat, TyModel::Unknown, expected),
        },
    }
}

/// The types of the patterns in a tuple or slice pattern; nothing is expected of those
/// beyond the fields of the expected type.
pub open spec fn tuple_pats<D: HirDatabase>(
    env: Env<D>,
    s: Model,
    parent: PatId,
    pats: Seq<PatId>,
    fields: Seq<TyModel>,
    mode: BindingMode,
) -> Run<Seq<TyModel>>
    decreases body::pat_limit(env.body.pat_seq(), parent), 0nat, parent.0, 0nat, pats.len(),
{
    if pats.len() == 0 {
        Ok((s, Seq::empty()))
    } else if body::pat_inside(env.body.pat_seq(), parent, pats[0]) {
        let (expected, rest) = if fields.len() > 0 {
            (fields[0], fields.skip(1))
        } else {
            (TyModel::Unknown, fields)
        };
        match pat_ty(env, s, pats[0], expected, mode) {
            Err(e) => Err(e),
            Ok((s, t)) => match tuple_pats(env, s, parent, pats.skip(1), rest, mode) {
                Err(e) => Err(e),
                Ok((s, ts)) => Ok((s, seq![t] + ts)),
            },
        }
    } else {
        arbitrary()
    }
}

/// The type of a pattern that names a variant, with patterns for its fields.
pub open spec fn variant_pat<D: HirDatabase>(
    env: Env<D>,
    s: Model,
    parent: PatId,
    path: Option<Path>,
    fields: Seq<(Seq<char>, PatId)>,
    expected: TyModel,
    mode: BindingMode,
) -> Run<TyModel>
    decreases body::pat_limit(env.body.pat_seq(), parent), 0nat, parent.0, 0nat, fields.len() + 1,
{
    match path::variant_of_path(env, s, path) {
        Err(e) => Err(e),
        Ok((s, (ty, def))) => match context::unify_in(s, ty, expected) {
            Err(e) => Err(e),
            Ok((s, _)) => match field_pats(env, s, parent, fields, def, ty::params_of(ty), mode) {
                Err(e) => Err(e),
                Ok(s) => context::resolved(env.db, s, ty),
            },
        },
    }
}

/// What is known after the patterns for the fields of a variant.
pub open spec fn field_pats<D: HirDatabase>(
    env: Env<D>,
    s: Model,
    parent: PatId,
    fields: Seq<(Seq<char>, PatId)>,
    def: Option<VariantDef>,
    substs: Seq<TyModel>,
    mode: BindingMode,
) -> Result<Model, InferError>
    decreases body::pat_limit(env.body.pat_seq(), parent), 0nat, parent.0, 0nat, fields.len(),
{
    if fields.len() == 0 {
        Ok(s)
    } else if body::pat_inside(env.body.pat_seq(), parent, fields[0].1) {
        match pat_ty(
            env,
            s,
            fields[0].1,
            field_expectation(env.db, def, fields[0].0, substs),
            mode,
        ) {
            Err(e) => Err(e),
            Ok((s, _)) => field_pats(env, s, parent, fields.skip(1), def, substs, mode),
        }
    } else {
        arbitrary()
    }
}

/// What is known after the expressions in a pattern, of which nothing is expected.
pub open spec fn after_pat_exprs<D: HirDatabase>(
    env: Env<D>,
    s: Model,
    parent: PatId,
    exprs: Seq<ExprId>,
) -> Result<Model, InferError>
    decreases body::pat_limit(env.body.pat_seq(), parent), 0nat, parent.0, 0nat, exprs.len(),
{
    if exprs.len() == 0 {
        Ok(s)
    } else if exprs[0].0 < body::pat_limit(env.body.pat_seq(), parent) {
        match expr::expr_ty(env, s, exprs[0], TyModel::Unknown) {
            Err(e) => Err(e),
            Ok((s, _)) => after_pat_exprs(env, s, parent, exprs.skip(1)),
        }
    } else {
        arbitrary()
    }
}

fn strip_references(expected: &Ty, mode: BindingMode) -> (r: Result<
    (&Ty, BindingMode),
    InferError,
>)
    ensures
        match behind_references(expected@, mode) {
            Ok((ty, m)) => r is Ok && r->Ok_0.0@ == ty && r->Ok_0.1 == m,
            Err(e) => r == Err::<(&Ty, BindingMode), InferError>(e),
        },
{
    let mut ty = expected;
    let mut m = mode;
    loop
        invariant
            behind_references(expected@, mode) == behind_references(ty@, m),
        decreases ty@,
    {
        match ty.as_reference()? {
            Some((inner, mutability)) => {
                m = match m {
                    BindingMode::Ref(Mutability::Shared) => BindingMode::Ref(Mutability::Shared),
                    _ => BindingMode::Ref(mutability),
                };
                ty = inner;
            },
            None => {
                return Ok((ty, m));
            },
        }
    }
}

impl<'a, D: HirDatabase> InferenceContext<'a, D> {
    /// The type of the field with that name, with types for the parameters of the
    /// definition; unknown if there is no such field.
    pub fn field_expectation(&self, def: Option<VariantDef>, name: &Name, substs: &Substs) -> (r: Ty)
        ensures
            r@ == field_expectation(self.env.db, def, name@, substs@),
    {
        let field = match def {
            Some(def) => self.env.db.variant_field(def, name),
            None => None,
        };
        let declared = match field {
            Some(field) => self.env.db.field_ty(field),
            None => Ty::Unknown,
        };
        declared.subst(substs)
    }

    fn record_pat(&mut self, pat: PatId, ty: Ty, expected: &Ty) -> (r: Result<Ty, InferError>)
        ensures
            final(self).env == old(self).env,
            context::inferred(
                r,
                final(self)@,
                record_pat(old(self).env, old(self)@, pat, ty@, expected@),
            ),
    {
        reveal(record_pat);
        // use a new type variable if the type is unknown
        let ty = self.insert_type_vars_shallow(ty)?;
        self.unify(&ty, expected)?;
        let ty = self.resolved(&ty)?;
        self.write_pat_ty(pat, ty.clone());
        Ok(ty)
    }

    fn record_binding(&mut self, pat: PatId, mode: BindingMode, inner: Ty) -> (r: Result<
        Ty,
        InferError,
    >)
        ensures
            final(self).env == old(self).env,
            context::inferred(
                r,
                final(self)@,
                record_binding(old(self).env, old(self)@, pat, mode, inner@),
            ),
    {
        reveal(record_binding);
        let inner = self.insert_type_vars_shallow(inner)?;
        let inner = self.resolved(&inner)?;
        let bound = match mode {
            BindingMode::Ref(m) => Ty::apply_one(TypeCtor::Ref(m), inner.clone()),
            BindingMode::Move => inner.clone(),
        };
        self.write_pat_ty(pat, bound);
        Ok(inner)
    }

    fn tuple_pats(
        &mut self,
        parent: PatId,
        pats: &Vec<PatId>,
        fields: &Substs,
        mode: BindingMode,
    ) -> (r: Result<Vec<Ty>, InferError>)
        requires
            old(self).env.body.wf(),
            parent.0 <= old(self).env.body.pat_seq().len(),
            body::all_pats_inside(old(self).env.body.pat_seq(), parent, pats@),
        ensures
            final(self).env == old(self).env,
            match tuple_pats(
                old(self).env,
                old(self)@,
                parent,
                pats@,
                fields@,
                mode,
            ) {
                Ok((s, tys)) => r is Ok && ty::models(r->Ok_0@) == tys && final(self)@ == s,
                Err(e) => r == Err::<Vec<Ty>, InferError>(e),
            },
        decreases body::pat_limit(old(self).env.body.pat_seq(), parent), 0nat, parent.0, 0nat,
    {
        let ghost total = tuple_pats(self.env, self@, parent, pats@, fields@, mode);
        let mut tys: Vec<Ty> = Vec::new();
        let mut i: usize = 0;
        proof {
            assert(pats@.skip(0) =~= pats@);
            assert(fields@.skip(0) =~= fields@);
            if let Ok((_, ts)) = total {
                assert(ty::models(tys@) + ts =~= ts);
            }
        }
        while i < pats.len()
            invariant
                i <= pats.len(),
                self.env == old(self).env,
                old(self).env.body.wf(),
                parent.0 <= old(self).env.body.pat_seq().len(),
                body::all_pats_inside(old(self).env.body.pat_seq(), parent, pats@),
                context::after_front(
                    ty::models(tys@),
                    tuple_pats(
                        self.env,
                        self@,
                        parent,
                        pats@.skip(i as int),
                        ty::from_nth(fields@, i as int),
                        mode,
                    ),
                ) == total,
                total == tuple_pats(old(self).env, old(self)@, parent, pats@, fields@, mode),
            decreases pats.len() - i,
        {
            let unknown = Ty::Unknown;
            let sub_expected = if i < fields.0.len() {
                &fields.0[i]
            } else {
                &unknown
            };
            proof {
                assert(pats@.skip(i as int)[0] == pats@[i as int]);
                assert(pats@.skip(i as int).skip(1) =~= pats@.skip(i + 1));
                if i < fields.0.len() {
                    assert(ty::from_nth(fields@, i as int)[0] == fields.0@[i as int]@);
                    assert(ty::from_nth(fields@, i as int).skip(1) =~= ty::from_nth(fields@, i + 1));
                } else {
                    assert(ty::from_nth(fields@, i as int) =~= Seq::empty());
                    assert(ty::from_nth(fields@, i + 1) =~= Seq::empty());
                }
            }
            let t = self.infer_pat(pats[i], sub_expected, mode)?;
            let ghost before = ty::models(tys@);
            tys.push(t);
            proof {
                assert(ty::models(tys@) =~= before.push(t@));
                if let Ok((_, ts)) = tuple_pats(
                    self.env,
                    self@,
                    parent,
                    pats@.skip(i + 1),
                    ty::from_nth(fields@, i + 1),
                    mode,
                ) {
                    assert(before + (seq![t@] + ts) =~= before.push(t@) + ts);
                }
            }
            i += 1;
        }
        assert(ty::models(tys@) + Seq::<TyModel>::empty() =~= ty::models(tys@));
        Ok(tys)
    }

    fn after_pat_exprs(&mut self, parent: PatId, exprs: &Vec<ExprId>) -> (r: Result<(), InferError>)
        requires
            old(self).env.body.wf(),
            body::all_exprs_inside(old(self).env.body.pat_seq(), parent, exprs@),
            body::all_exprs_below(exprs@, old(self).env.body.expr_seq().len()),
        ensures
            final(self).env == old(self).env,
            context::became(
                r,
                final(self)@,
                after_pat_exprs(old(self).env, old(self)@, parent, exprs@),
            ),
        decreases body::pat_limit(old(self).env.body.pat_seq(), parent), 0nat, parent.0, 0nat,
    {
        let ghost total = after_pat_exprs(self.env, self@, parent, exprs@);
        let mut i: usize = 0;
        assert(exprs@.skip(0) =~= exprs@);
        while i < exprs.len()
            invariant
                i <= exprs.len(),
                self.env == old(self).env,
                old(self).env.body.wf(),
                body::all_exprs_inside(old(self).env.body.pat_seq(), parent, exprs@),
                body::all_exprs_below(exprs@, old(self).env.body.expr_seq().len()),
                total == after_pat_exprs(old(self).env, old(self)@, parent, exprs@),
                total == after_pat_exprs(self.env, self@, parent, exprs@.skip(i as int)),
            decreases exprs.len() - i,
        {
            assert(exprs@.skip(i as int)[0] == exprs@[i as int]);
            assert(exprs@.skip(i as int).skip(1) =~= exprs@.skip(i + 1));
            self.infer_expr(exprs[i], &Expectation::none())?;
            i += 1;
        }
        Ok(())
    }

    pub fn infer_tuple_struct_pat(
        &mut self,
        parent: PatId,
        path: &Option<Path>,
        subpats: &Vec<PatId>,
        expected: &Ty,
        default_bm: BindingMode,
    ) -> (r: Result<Ty, InferError>)
        requires
            old(self).env.body.wf(),
            parent.0 <= old(self).env.body.pat_seq().len(),
            body::all_pats_inside(old(self).env.body.pat_seq(), parent, subpats@),
        ensures
            final(self).env == old(self).env,
            context::inferred(
                r,
                final(self)@,
                variant_pat(
                    old(self).env,
                    old(self)@,
                    parent,
                    *path,
                    numbered(subpats@),
                    expected@,
                    default_bm,
                ),
            ),
        decreases body::pat_limit(old(self).env.body.pat_seq(), parent), 0nat, parent.0, 0nat,
    {
        let (ty, def) = self.resolve_variant(path)?;
        self.unify(&ty, expected)?;
        let substs = ty.substs_or_empty();
        let ghost fields = numbered(subpats@);
        let ghost total = field_pats(self.env, self@, parent, fields, def, substs@, default_bm);
        let mut i: usize = 0;
        assert(fields.skip(0) =~= fields);
        while i < subpats.len()
            invariant
                i <= subpats.len(),
                self.env == old(self).env,
                old(self).env.body.wf(),
                parent.0 <= old(self).env.body.pat_seq().len(),
                body::all_pats_inside(old(self).env.body.pat_seq(), parent, subpats@),
                fields == numbered(subpats@),
                total == field_pats(
                    self.env,
                    self@,
                    parent,
                    fields.skip(i as int),
                    def,
                    substs@,
                    default_bm,
                ),
                total is Err ==> variant_pat(
                    old(self).env,
                    old(self)@,
                    parent,
                    *path,
                    fields,
                    expected@,
                    default_bm,
                ) == Err::<(Model, TyModel), InferError>(total->Err_0),
            decreases subpats.len() - i,
        {
            assert(fields.skip(i as int)[0] == fields[i as int]);
            assert(fields.skip(i as int).skip(1) =~= fields.skip(i + 1));
            let expected_ty = self.field_expectation(def, &Name::tuple_field_name(i), &substs);
            self.infer_pat(subpats[i], &expected_ty, default_bm)?;
            i += 1;
        }
        self.resolved(&ty)
    }

    pub fn infer_struct_pat(
        &mut self,
        parent: PatId,
        path: &Option<Path>,
        subpats: &Vec<FieldPat>,
        expected: &Ty,
        default_bm: BindingMode,
    ) -> (r: Result<Ty, InferError>)
        requires
            old(self).env.body.wf(),
            parent.0 <= old(self).env.body.pat_seq().len(),
            forall|i: int|
                0 <= i < subpats@.len() ==> body::pat_inside(
                    old(self).env.body.pat_seq(),
                    parent,
                    (#[trigger] subpats@[i]).pat,
                ),
        ensures
            final(self).env == old(self).env,
            context::inferred(
                r,
                final(self)@,
                variant_pat(
                    old(self).env,
                    old(self)@,
                    parent,
                    *path,
                    named(subpats@),
                    expected@,
                    default_bm,
                ),
            ),
        decreases body::pat_limit(old(self).env.body.pat_seq(), parent), 0nat, parent.0, 0nat,
    {
        let (ty, def) = self.resolve_variant(path)?;
        self.unify(&ty, expected)?;
        let substs = ty.substs_or_empty();
        let ghost fields = named(subpats@);
        let ghost total = field_pats(self.env, self@, parent, fields, def, substs@, default_bm);
        let mut i: usize = 0;
        assert(fields.skip(0) =~= fields);
        while i < subpats.len()
            invariant
                i <= subpats.len(),
                self.env == old(self).env,
                old(self).env.body.wf(),
                parent.0 <= old(self).env.body.pat_seq().len(),
                forall|i: int|
                    0 <= i < subpats@.len() ==> body::pat_inside(
                        old(self).env.body.pat_seq(),
                        parent,
                        (#[trigger] subpats@[i]).pat,
                    ),
                fields == named(subpats@),
                total == field_pats(
                    self.env,
                    self@,
                    parent,
                    fields.skip(i as int),
                    def,
                    substs@,
                    default_bm,
                ),
                total is Err ==> variant_pat(
                    old(self).env,
                    old(self)@,
                    parent,
                    *path,
                    fields,
                    expected@,
                    default_bm,
                ) == Err::<(Model, TyModel), InferError>(total->Err_0),
            decreases subpats.len() - i,
        {
            assert(fields.skip(i as int)[0] == fields[i as int]);
            assert(fields.skip(i as int).skip(1) =~= fields.skip(i + 1));
            let expected_ty = self.field_expectation(def, &subpats[i].name, &substs);
            self.infer_pat(subpats[i].pat, &expected_ty, default_bm)?;
            i += 1;
        }
        self.resolved(&ty)
    }

    /// Infers the type of a pattern, where a type is expected and a binding mode is
    /// given by the surroundings.
    pub fn infer_pat(&mut self, pat: PatId, expected: &Ty, default_bm: BindingMode) -> (r: Result<
        Ty,
        InferError,
    >)
        requires
            old(self).env.body.wf(),
            pat.0 < old(self).env.body.pat_seq().len(),
        ensures
            final(self).env == old(self).env,
            context::inferred(
                r,
                final(self)@,
                pat_ty(old(self).env, old(self)@, pat, expected@, default_bm),
            ),
        decreases body::pat_limit(old(self).env.body.pat_seq(), pat), 0nat, pat.0, 1nat,
    {
        let node = self.env.body.pat(pat);
        proof {
            body::lemma_parts_inside(
                self.env.body.expr_seq().len(),
                self.env.body.pat_seq(),
                pat,
            );
        }
        let ghost subs = body::subpats(*node);
        let (expected, default_bm) = match node {
            Pat::Tuple(_)
            | Pat::TupleStruct { .. }
            | Pat::Struct { .. }
            | Pat::Range { .. }
            | Pat::Slice { .. }
            | Pat::Path(_)
            | Pat::Lit(_) => strip_references(expected, default_bm)?,
            // When there is a `&pat` pattern, reset to Move. This is so that `w` is by
            // value: `let (_, &w) = &(1, &2);`
            Pat::Ref { .. } => (expected, BindingMode::Move),
            Pat::Wild | Pat::Bind { .. } | Pat::Missing => (expected, default_bm),
        };
        let ty = match node {
            Pat::Tuple(args) => {
                let no_fields = Substs::empty();
                let fields = match expected.as_tuple() {
                    Some(fields) => fields,
                    None => &no_fields,
                };
                let inner_tys = self.tuple_pats(pat, args, fields, default_bm)?;
                Ty::apply(TypeCtor::Tuple, Substs(inner_tys))
            },
            Pat::Ref { pat: sub, mutability } => {
                let unknown = Ty::Unknown;
                let expectation = match expected.as_reference()? {
                    Some((inner_ty, _)) => inner_ty,
                    None => &unknown,
                };
                assert(subs[0] == *sub);
                let subty = self.infer_pat(*sub, expectation, default_bm)?;
                Ty::apply_one(TypeCtor::Ref(*mutability), subty)
            },
            Pat::TupleStruct { path, args } => {
                self.infer_tuple_struct_pat(pat, path, args, expected, default_bm)?
            },
            Pat::Struct { path, args } => {
                assert forall|i: int| 0 <= i < args@.len() implies body::pat_inside(
                    self.env.body.pat_seq(),
                    pat,
                    (#[trigger] args@[i]).pat,
                ) by {
                    assert(subs[i] == args@[i].pat);
                }
                self.infer_struct_pat(pat, path, args, expected, default_bm)?
            },
            Pat::Path(path) => {
                let resolver = Resolver::Def(self.env.owner);
                match self.infer_path_expr(resolver, path, ExprOrPatId::PatId(pat))? {
                    Some(ty) => ty,
                    None => Ty::Unknown,
                }
            },
            Pat::Bind { mode, subpat, .. } => {
                let own_mode = if *mode == BindingAnnotation::Unannotated {
                    default_bm
                } else {
                    BindingMode::convert(mode)
                };
                let inner_ty = match subpat {
                    Some(sub) => {
                        assert(subs[0] == *sub);
                        self.infer_pat(*sub, expected, default_bm)?
                    },
                    None => expected.clone(),
                };
                return self.record_binding(pat, own_mode, inner_ty);
            },
            Pat::Slice { .. } => {
                self.tuple_pats(pat, &node.subpats(), &Substs::empty(), default_bm)?;
                Ty::Unknown
            },
            Pat::Range { .. } | Pat::Lit(_) => {
                self.after_pat_exprs(pat, &node.exprs())?;
                Ty::Unknown
            },
            Pat::Missing | Pat::Wild => Ty::Unknown,
        };
        self.record_pat(pat, ty, expected)
    }
}

} // verus!
