//! The types of paths.

use vstd::prelude::*;

use crate::body::Path;
use crate::context::{Env, InferenceContext, Model, Run};
use crate::db::HirDatabase;
use crate::defs::{
    Crate, ExprOrPatId, ImplItem, ModuleDef, Namespace, Resolution, Resolver, TypableDef,
    VariantDef,
};
use crate::error::InferError;
use crate::name::Name;
use crate::ty::{Substs, Ty, TyModel};
use crate::{context, db, defs, ty};

verus! {

/// The definition that an associated item is.
pub open spec fn item_def(item: ImplItem) -> ModuleDef {
    match item {
        ImplItem::Method(func) => ModuleDef::Function(func),
        ImplItem::Const(konst) => ModuleDef::Const(konst),
        ImplItem::TypeAlias(alias) => ModuleDef::TypeAlias(alias),
    }
}

/// Whether a path segment of that name can refer to the item. Associated types are
/// not found this way.
pub open spec fn item_matches<D: HirDatabase>(db: &D, item: ImplItem, name: Seq<char>) -> bool {
    match item {
        ImplItem::Method(func) => db.fn_signature_of(func).name@ == name,
        ImplItem::Const(konst) => db.const_signature_of(konst).name@ == name,
        ImplItem::TypeAlias(_) => false,
    }
}

/// The first item that a path segment of that name can refer to.
pub open spec fn matching_item<D: HirDatabase>(
    db: &D,
    items: Seq<ImplItem>,
    name: Seq<char>,
) -> Option<ImplItem>
    decreases items.len(),
{
    if items.len() == 0 {
        None
    } else if item_matches(db, items[0], name) {
        Some(items[0])
    } else {
        matching_item(db, items.skip(1), name)
    }
}

/// Where the resolution of a path has come to: what it resolves to, and the type
/// that the last segment was looked up on.
pub type Walked = Option<(Resolution, Option<TyModel>)>;

/// The type that the segment at `i` of a path is looked up on.
pub open spec fn segment_base<D: HirDatabase>(
    env: Env<D>,
    path: Path,
    i: nat,
    def: TypableDef,
) -> TyModel {
    ty::subst(
        env.db.type_of_def(def, Namespace::Types),
        env.db.segment_substs(env.resolver(), path.segments@[i - 1], def),
    )
}

/// Resolves the segments of a path from the `i`th on, each as an associated item of
/// the type that the ones before it stand for; `start` is the first that was left.
pub open spec fn walk<D: HirDatabase>(
    env: Env<D>,
    s: Model,
    krate: Option<Crate>,
    path: Path,
    id: ExprOrPatId,
    start: nat,
    i: nat,
    at: (Resolution, Option<TyModel>),
) -> Run<Walked>
    decreases path.segments@.len() - i,
{
    if i >= path.segments@.len() {
        Ok((s, Some(at)))
    } else {
        match at.0 {
            Resolution::Def(def) => match defs::typable_def(def) {
                None => Ok((s, None)),
                Some(typable) => if start == 0 {
                    Err(InferError::PathIndex)
                } else {
                    let base = segment_base(env, path, i, typable);
                    match krate {
                        None => Ok((s, None)),
                        Some(krate) => match matching_item(
                            env.db,
                            env.db.items_of_type(base, krate),
                            path.segments@[i as int].name@,
                        ) {
                            None => Ok((s, None)),
                            Some(item) => walk(
                                env,
                                Model {
                                    assoc_resolutions: s.assoc_resolutions.insert(id, item),
                                    ..s
                                },
                                Some(krate),
                                path,
                                id,
                                start,
                                i + 1,
                                (Resolution::Def(item_def(item)), Some(base)),
                            ),
                        },
                    }
                },
            },
            // a local binding, a generic parameter or a self type has no associated
            // items that are found this way
            _ => Ok((s, None)),
        }
    }
}

/// The types for the parameters of an `impl` block, where its type has the
/// parameters in the places of the first list, and the type at hand has the types
/// of the second.
pub open spec fn link_params(
    linked: Seq<TyModel>,
    params: Seq<TyModel>,
    actual: Seq<TyModel>,
) -> Seq<TyModel>
    decreases params.len(),
{
    if params.len() == 0 || actual.len() == 0 {
        linked
    } else {
        let next = match params[0] {
            TyModel::Param { idx, .. } => if (idx as int) < linked.len() {
                linked.update(idx as int, actual[0])
            } else {
                linked
            },
            _ => linked,
        };
        link_params(next, params.skip(1), actual.skip(1))
    }
}

/// The types for the parameters of the `impl` block around a function, as the type
/// that the function was found on gives them.
pub open spec fn self_types<D: HirDatabase>(
    db: &D,
    def: ModuleDef,
    actual_def_ty: Option<TyModel>,
) -> Result<Option<Seq<TyModel>>, InferError> {
    match (def, actual_def_ty) {
        (ModuleDef::Function(func), Some(actual)) => match db::counted(
            db.fn_generics_of(func).parent_total(),
        ) {
            Err(e) => Err(e),
            Ok(n) => match db.impl_target_of(func) {
                Some(target) if n > 0 => match (ty::substs_of(target), ty::substs_of(actual)) {
                    (Some(params), Some(args)) => Ok(
                        Some(
                            link_params(
                                Seq::new(n as nat, |i: int| TyModel::Unknown),
                                params,
                                args,
                            ),
                        ),
                    ),
                    _ => Ok(None),
                },
                _ => Ok(None),
            },
        },
        _ => Ok(None),
    }
}

/// The type with the parameters replaced, if there is something to replace them by.
pub open spec fn maybe_subst(ty: TyModel, substs: Option<Seq<TyModel>>) -> TyModel {
    match substs {
        Some(substs) => ty::subst(ty, substs),
        None => ty,
    }
}

/// A type that is there.
pub open spec fn some_ty(r: Run<TyModel>) -> Run<Option<TyModel>> {
    match r {
        Ok((s, ty)) => Ok((s, Some(ty))),
        Err(e) => Err(e),
    }
}

/// The type of what a path resolves to as a value, if it has one.
pub open spec fn value_ty<D: HirDatabase>(
    env: Env<D>,
    s: Model,
    path: Path,
    at: (Resolution, Option<TyModel>),
) -> Run<Option<TyModel>> {
    match at.0 {
        Resolution::Def(def) => match defs::typable_def(def) {
            None => Ok((s, None)),
            Some(typable) => match self_types(env.db, def, at.1) {
                Err(e) => Err(e),
                Ok(self_substs) => {
                    let ty = maybe_subst(
                        env.db.type_of_def(typable, Namespace::Values),
                        self_substs,
                    );
                    let substs = env.db.path_substs(env.resolver(), path, typable);
                    some_ty(context::insert_in(s, ty::subst(ty, substs)))
                },
            },
        },
        Resolution::LocalBinding(pat) => if s.type_of_pat.contains_key(pat.0) {
            some_ty(context::resolved(env.db, s, s.type_of_pat[pat.0]))
        } else {
            Ok((s, None))
        },
        _ => Ok((s, None)),
    }
}

/// The type of a path as a value, if it has one. A path that is resolved as a whole
/// is looked up among the values; else its front part is looked up among the types,
/// and the rest as associated items.
#[verifier::opaque]
pub open spec fn path_ty<D: HirDatabase>(
    env: Env<D>,
    s: Model,
    resolver: Resolver,
    path: Path,
    id: ExprOrPatId,
) -> Run<Option<TyModel>> {
    let found = env.db.path_resolution(resolver, path);
    let len = path.segments@.len();
    let (first, start) = match found.remaining_index {
        None => (found.def.values, len),
        Some(i) => (found.def.types, i as nat),
    };
    match first {
        None => Ok((s, None)),
        Some(first) => if start > len {
            Err(InferError::PathIndex)
        } else {
            match walk(
                env,
                s,
                env.db.crate_of(resolver),
                path,
                id,
                start,
                start,
                (first, None),
            ) {
                Err(e) => Err(e),
                Ok((s, None)) => Ok((s, None)),
                Ok((s, Some(at))) => value_ty(env, s, path, at),
            }
        },
    }
}

/// The type and the definition of a struct or an enum variant that a path names,
/// with variables for what is left open.
#[verifier::opaque]
pub open spec fn variant_of_path<D: HirDatabase>(env: Env<D>, s: Model, path: Option<Path>) -> Run<
    (TyModel, Option<VariantDef>),
> {
    let nothing: Run<(TyModel, Option<VariantDef>)> = Ok((s, (TyModel::Unknown, None)));
    match path {
        None => nothing,
        Some(path) => match env.db.full_path_resolution(env.resolver(), path).types {
            Some(Resolution::Def(def)) => match defs::typable_def(def) {
                Some(TypableDef::Struct(strukt)) => with_variant(
                    context::insert_in(
                        s,
                        ty::with_params(
                            env.db.struct_type(strukt),
                            env.db.path_substs(env.resolver(), path, TypableDef::Struct(strukt)),
                        ),
                    ),
                    VariantDef::Struct(strukt),
                ),
                Some(TypableDef::EnumVariant(variant)) => with_variant(
                    context::insert_in(
                        s,
                        ty::with_params(
                            env.db.enum_type(env.db.enum_of(variant)),
                            env.db.path_substs(
                                env.resolver(),
                                path,
                                TypableDef::EnumVariant(variant),
                            ),
                        ),
                    ),
                    VariantDef::EnumVariant(variant),
                ),
                _ => nothing,
            },
            _ => nothing,
        },
    }
}

pub open spec fn with_variant(r: Run<TyModel>, def: VariantDef) -> Run<
    (TyModel, Option<VariantDef>),
> {
    match r {
        Ok((s, ty)) => Ok((s, (ty, Some(def)))),
        Err(e) => Err(e),
    }
}

/// Whether a call that may give a type had the outcome.
pub open spec fn maybe_inferred(
    r: Result<Option<Ty>, InferError>,
    after: Model,
    m: Run<Option<TyModel>>,
) -> bool {
    match m {
        Ok((s, t)) => r is Ok && ty::opt_model(r->Ok_0) == t && after == s,
        Err(e) => r == Err::<Option<Ty>, InferError>(e),
    }
}

/// Whether a call that finds a variant had the outcome.
pub open spec fn found_variant(
    r: Result<(Ty, Option<VariantDef>), InferError>,
    after: Model,
    m: Run<(TyModel, Option<VariantDef>)>,
) -> bool {
    match m {
        Ok((s, (t, def))) => r is Ok && r->Ok_0.0@ == t && r->Ok_0.1 == def && after == s,
        Err(e) => r == Err::<(Ty, Option<VariantDef>), InferError>(e),
    }
}

fn find_item<D: HirDatabase>(db: &D, items: &Vec<ImplItem>, name: &Name) -> (r: Option<ImplItem>)
    ensures
        r == matching_item(db, items@, name@),
{
    let mut i: usize = 0;
    assert(items@.skip(0) =~= items@);
    while i < items.len()
        invariant
            i <= items.len(),
            matching_item(db, items@, name@) == matching_item(db, items@.skip(i as int), name@),
        decreases items.len() - i,
    {
        assert(items@.skip(i as int).skip(1) =~= items@.skip(i + 1));
        let matches = match items[i] {
            ImplItem::Method(func) => db.fn_signature(func).name == *name,
            ImplItem::Const(konst) => db.const_signature(konst).name == *name,
            ImplItem::TypeAlias(_) => false,
        };
        if matches {
            return Some(items[i]);
        }
        i += 1;
    }
    None
}

impl ImplItem {
    fn def(self) -> (r: ModuleDef)
        ensures
            r == item_def(self),
    {
        match self {
            ImplItem::Method(func) => ModuleDef::Function(func),
            ImplItem::Const(konst) => ModuleDef::Const(konst),
            ImplItem::TypeAlias(alias) => ModuleDef::TypeAlias(alias),
        }
    }
}

fn unknown_types(n: usize) -> (r: Vec<Ty>)
    ensures
        ty::models(r@) == Seq::new(n as nat, |i: int| TyModel::Unknown),
{
    let mut tys: Vec<Ty> = Vec::new();
    let mut i: usize = 0;
    while i < n
        invariant
            i <= n,
            tys.len() == i,
            forall|j: int| 0 <= j < i ==> (#[trigger] tys@[j])@ == TyModel::Unknown,
        decreases n - i,
    {
        tys.push(Ty::Unknown);
        i += 1;
    }
    assert(ty::models(tys@) =~= Seq::new(n as nat, |i: int| TyModel::Unknown));
    tys
}

impl<'a, D: HirDatabase> InferenceContext<'a, D> {
    /// The types for the parameters of the `impl` block around a function, as the
    /// type that the function was found on gives them.
    pub fn find_self_types(&self, def: ModuleDef, actual_def_ty: &Option<Ty>) -> (r: Result<
        Option<Substs>,
        InferError,
    >)
        ensures
            match self_types(self.env.db, def, ty::opt_model(*actual_def_ty)) {
                Ok(Some(tys)) => r matches Ok(Some(substs)) && substs@ == tys,
                Ok(None) => r matches Ok(None),
                Err(e) => r == Err::<Option<Substs>, InferError>(e),
            },
    {
        let actual = match actual_def_ty {
            Some(ty) => ty,
            None => {
                return Ok(None);
            },
        };
        let func = match def {
            ModuleDef::Function(func) => func,
            _ => {
                return Ok(None);
            },
        };
        let n = self.env.db.fn_generic_params(func).count_parent_params()?;
        let target = match self.env.db.impl_target_ty(func) {
            Some(ty) => ty,
            None => {
                return Ok(None);
            },
        };
        if n == 0 {
            return Ok(None);
        }
        let params = match target.substs() {
            Some(substs) => substs,
            None => {
                return Ok(None);
            },
        };
        let args = match actual.substs() {
            Some(substs) => substs,
            None => {
                return Ok(None);
            },
        };
        let mut linked = unknown_types(n);
        let ghost total = link_params(ty::models(linked@), params@, args@);
        let mut i: usize = 0;
        assert(params@.skip(0) =~= params@);
        assert(args@.skip(0) =~= args@);
        while i < params.0.len() && i < args.0.len()
            invariant
                i <= params.0.len(),
                i <= args.0.len(),
                total == link_params(
                    ty::models(linked@),
                    params@.skip(i as int),
                    args@.skip(i as int),
                ),
            decreases params.0.len() - i,
        {
            assert(params@.skip(i as int)[0] == params.0@[i as int]@);
            assert(args@.skip(i as int)[0] == args.0@[i as int]@);
            assert(params@.skip(i as int).skip(1) =~= params@.skip(i + 1));
            assert(args@.skip(i as int).skip(1) =~= args@.skip(i + 1));
            if let Ty::Param { idx, .. } = &params.0[i] {
                let idx = *idx as usize;
                if idx < linked.len() {
                    let ghost before = ty::models(linked@);
                    let arg = args.0[i].clone();
                    linked.set(idx, arg);
                    assert(ty::models(linked@) =~= before.update(idx as int, arg@));
                }
            }
            i += 1;
        }
        Ok(Some(Substs(linked)))
    }

    /// Resolves the segments of a path from `start` on as associated items.
    fn walk_segments(
        &mut self,
        krate: Option<Crate>,
        path: &Path,
        id: ExprOrPatId,
        start: usize,
        first: Resolution,
    ) -> (r: Result<Option<(Resolution, Option<Ty>)>, InferError>)
        requires
            start <= path.segments@.len(),
        ensures
            final(self).env == old(self).env,
            match walk(
                old(self).env,
                old(self)@,
                krate,
                *path,
                id,
                start as nat,
                start as nat,
                (first, None),
            ) {
                Ok((s, Some(at))) => {
                    &&& final(self)@ == s
                    &&& r matches Ok(Some((res, ty))) && res == at.0 && ty::opt_model(ty) == at.1
                },
                Ok((s, None)) => final(self)@ == s && r matches Ok(None),
                Err(e) => r == Err::<Option<(Resolution, Option<Ty>)>, InferError>(e),
            },
    {
        let mut resolved = first;
        let mut actual_def_ty: Option<Ty> = None;
        let mut i: usize = start;
        while i < path.segments.len()
            invariant
                start <= i <= path.segments@.len(),
                self.env == old(self).env,
                walk(
                    old(self).env,
                    old(self)@,
                    krate,
                    *path,
                    id,
                    start as nat,
                    start as nat,
                    (first, None),
                ) == walk(
                    self.env,
                    self@,
                    krate,
                    *path,
                    id,
                    start as nat,
                    i as nat,
                    (resolved, ty::opt_model(actual_def_ty)),
                ),
            decreases path.segments.len() - i,
        {
            let def = match resolved {
                Resolution::Def(def) => def,
                // can't have a local binding in an associated item path
                _ => {
                    return Ok(None);
                },
            };
            let typable = match def.typable() {
                Some(typable) => typable,
                None => {
                    return Ok(None);
                },
            };
            if start == 0 {
                return Err(InferError::PathIndex);
            }
            let ty = self.env.db.type_for_def(typable, Namespace::Types);
            // For example, this substs will take `Gen::*<u32>*::make`
            let substs = self.env.db.substs_from_path_segment(
                Resolver::Def(self.env.owner),
                &path.segments[i - 1],
                typable,
            );
            let ty = ty.subst(&substs);
            let item = match krate {
                Some(krate) => {
                    let items = self.env.db.impl_items(&ty, krate);
                    find_item(self.env.db, &items, &path.segments[i].name)
                },
                None => {
                    return Ok(None);
                },
            };
            let item = match item {
                Some(item) => item,
                None => {
                    return Ok(None);
                },
            };
            self.write_assoc_resolution(id, item);
            resolved = Resolution::Def(item.def());
            actual_def_ty = Some(ty);
            i += 1;
        }
        Ok(Some((resolved, actual_def_ty)))
    }

    /// The type of a path as a value, if it has one.
    pub fn infer_path_expr(&mut self, resolver: Resolver, path: &Path, id: ExprOrPatId) -> (r:
        Result<Option<Ty>, InferError>)
        ensures
            final(self).env == old(self).env,
            maybe_inferred(
                r,
                final(self)@,
                path_ty(old(self).env, old(self)@, resolver, *path, id),
            ),
    {
        reveal(path_ty);
        let found = self.env.db.resolve_path_segments(resolver, path);
        // Without a remaining index the path is fully resolved, and what it resolves
        // to is a value. Otherwise it was resolved in part, maybe to a type for which
        // there is an associated item named by the segments that remain.
        let (first, start) = match found.remaining_index {
            None => (found.def.values, path.segments.len()),
            Some(i) => (found.def.types, i),
        };
        let first = match first {
            Some(first) => first,
            None => {
                return Ok(None);
            },
        };
        if start > path.segments.len() {
            return Err(InferError::PathIndex);
        }
        let krate = self.env.db.krate(resolver);
        let (resolved, actual_def_ty) = match self.walk_segments(krate, path, id, start, first)? {
            Some(at) => at,
            None => {
                return Ok(None);
            },
        };
        match resolved {
            Resolution::Def(def) => {
                let typable = match def.typable() {
                    Some(typable) => typable,
                    None => {
                        return Ok(None);
                    },
                };
                let mut ty = self.env.db.type_for_def(typable, Namespace::Values);
                if let Some(self_substs) = self.find_self_types(def, &actual_def_ty)? {
                    ty = ty.subst(&self_substs);
                }
                let substs = self.env.db.substs_from_path(
                    Resolver::Def(self.env.owner),
                    path,
                    typable,
                );
                let ty = ty.subst(&substs);
                let ty = self.insert_type_vars(&ty)?;
                Ok(Some(ty))
            },
            Resolution::LocalBinding(pat) => {
                let ty = match self.type_of_pat.get(pat.0) {
                    Some(ty) => ty.clone(),
                    None => {
                        return Ok(None);
                    },
                };
                let ty = self.resolved(&ty)?;
                Ok(Some(ty))
            },
            // generic params can't refer to values
            Resolution::GenericParam(_) => Ok(None),
            Resolution::SelfType(_) => Ok(None),
        }
    }

    /// The type and the definition of a struct or an enum variant that a path names,
    /// with variables for what is left open.
    pub fn resolve_variant(&mut self, path: &Option<Path>) -> (r: Result<
        (Ty, Option<VariantDef>),
        InferError,
    >)
        ensures
            final(self).env == old(self).env,
            found_variant(
                r,
                final(self)@,
                variant_of_path(old(self).env, old(self)@, *path),
            ),
    {
        reveal(variant_of_path);
        let path = match path {
            Some(path) => path,
            None => {
                return Ok((Ty::Unknown, None));
            },
        };
        let resolver = Resolver::Def(self.env.owner);
        let typable = match self.env.db.resolve_path(resolver, path).types {
            Some(Resolution::Def(def)) => def.typable(),
            _ => None,
        };
        let def = match typable {
            Some(def) => def,
            None => {
                return Ok((Ty::Unknown, None));
            },
        };
        let substs = self.env.db.substs_from_path(resolver, path, def);
        match def {
            TypableDef::Struct(strukt) => {
                let ty = self.env.db.struct_ty(strukt);
                let ty = self.insert_type_vars(&ty.apply_substs(substs))?;
                Ok((ty, Some(VariantDef::Struct(strukt))))
            },
            TypableDef::EnumVariant(variant) => {
                let ty = self.env.db.enum_ty(self.env.db.parent_enum(variant));
                let ty = self.insert_type_vars(&ty.apply_substs(substs))?;
                Ok((ty, Some(VariantDef::EnumVariant(variant))))
            },
            TypableDef::TypeAlias(_)
            | TypableDef::Function(_)
            | TypableDef::Enum(_)
            | TypableDef::Const(_)
            | TypableDef::Static(_) => Ok((Ty::Unknown, None)),
        }
    }
}

} // verus!
