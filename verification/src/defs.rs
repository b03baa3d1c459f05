//! Identifiers of definitions, expressions and patterns.

use vstd::prelude::*;

verus! {

/// An expression of a body.
#[derive(Copy, Clone, PartialEq, Eq, Debug, Structural)]
pub struct ExprId(pub u32);

/// A pattern of a body.
#[derive(Copy, Clone, PartialEq, Eq, Debug, Structural)]
pub struct PatId(pub u32);

/// An expression or a pattern.
#[derive(Copy, Clone, PartialEq, Eq, Debug, Structural)]
pub enum ExprOrPatId {
    ExprId(ExprId),
    PatId(PatId),
}

/// A type as it is written in source; the database knows what it stands for.
#[derive(Copy, Clone, PartialEq, Eq, Debug, Structural)]
pub struct TypeRef(pub u32);

#[derive(Copy, Clone, PartialEq, Eq, Debug, Structural)]
pub struct Module(pub u32);

#[derive(Copy, Clone, PartialEq, Eq, Debug, Structural)]
pub struct Function(pub u32);

#[derive(Copy, Clone, PartialEq, Eq, Debug, Structural)]
pub struct Struct(pub u32);

#[derive(Copy, Clone, PartialEq, Eq, Debug, Structural)]
pub struct Enum(pub u32);

#[derive(Copy, Clone, PartialEq, Eq, Debug, Structural)]
pub struct EnumVariant(pub u32);

#[derive(Copy, Clone, PartialEq, Eq, Debug, Structural)]
pub struct Const(pub u32);

#[derive(Copy, Clone, PartialEq, Eq, Debug, Structural)]
pub struct Static(pub u32);

#[derive(Copy, Clone, PartialEq, Eq, Debug, Structural)]
pub struct Trait(pub u32);

#[derive(Copy, Clone, PartialEq, Eq, Debug, Structural)]
pub struct TypeAlias(pub u32);

#[derive(Copy, Clone, PartialEq, Eq, Debug, Structural)]
pub struct ImplBlock(pub u32);

#[derive(Copy, Clone, PartialEq, Eq, Debug, Structural)]
pub struct Crate(pub u32);

/// A field of a struct or of an enum variant.
#[derive(Copy, Clone, PartialEq, Eq, Debug, Structural)]
pub struct StructField(pub u32);

/// A source file.
#[derive(Copy, Clone, PartialEq, Eq, Debug, Structural)]
pub struct HirFileId(pub u32);

/// The place where a field of a struct literal is written.
#[derive(Copy, Clone, PartialEq, Eq, Debug, Structural)]
pub struct FieldSyntax(pub u32);

/// What a path in a module can refer to.
#[derive(Copy, Clone, PartialEq, Eq, Debug, Structural)]
pub enum ModuleDef {
    Module(Module),
    Function(Function),
    Struct(Struct),
    Enum(Enum),
    EnumVariant(EnumVariant),
    Const(Const),
    Static(Static),
    Trait(Trait),
    TypeAlias(TypeAlias),
}

/// A definition that has a type.
#[derive(Copy, Clone, PartialEq, Eq, Debug, Structural)]
pub enum TypableDef {
    Function(Function),
    Struct(Struct),
    Enum(Enum),
    EnumVariant(EnumVariant),
    TypeAlias(TypeAlias),
    Const(Const),
    Static(Static),
}

/// A definition that can be called.
#[derive(Copy, Clone, PartialEq, Eq, Debug, Structural)]
pub enum CallableDef {
    Function(Function),
    Struct(Struct),
    EnumVariant(EnumVariant),
}

#[derive(Copy, Clone, PartialEq, Eq, Debug, Structural)]
pub enum AdtDef {
    Struct(Struct),
    Enum(Enum),
}

/// A definition that has fields.
#[derive(Copy, Clone, PartialEq, Eq, Debug, Structural)]
pub enum VariantDef {
    Struct(Struct),
    EnumVariant(EnumVariant),
}

/// An item of an `impl` block.
#[derive(Copy, Clone, PartialEq, Eq, Debug, Structural)]
pub enum ImplItem {
    Method(Function),
    Const(Const),
    TypeAlias(TypeAlias),
}

/// A definition that has a body to infer.
#[derive(Copy, Clone, PartialEq, Eq, Debug, Structural)]
pub enum DefWithBody {
    Function(Function),
    Const(Const),
    Static(Static),
}

/// The place that names are resolved from: a definition as a whole, or an
/// expression in its body, where local bindings are in scope.
#[derive(Copy, Clone, PartialEq, Eq, Debug, Structural)]
pub enum Resolver {
    Def(DefWithBody),
    Expr(DefWithBody, ExprId),
}

#[derive(Copy, Clone, PartialEq, Eq, Debug, Structural)]
pub enum Namespace {
    Types,
    Values,
}

/// What a path, or the front part of one, resolves to.
#[derive(Copy, Clone, PartialEq, Eq, Debug, Structural)]
pub enum Resolution {
    Def(ModuleDef),
    LocalBinding(PatId),
    GenericParam(u32),
    SelfType(ImplBlock),
}

/// What a path resolves to in each namespace.
#[derive(Copy, Clone, PartialEq, Eq, Debug, Structural)]
pub struct PerNs {
    pub types: Option<Resolution>,
    pub values: Option<Resolution>,
}

/// What the front part of a path resolves to. Without a remaining index the
/// whole path was resolved; otherwise the segments from that index on were not.
#[derive(Copy, Clone, PartialEq, Eq, Debug, Structural)]
pub struct PathResolution {
    pub def: PerNs,
    pub remaining_index: Option<usize>,
}

/// The definition as one that has a type, if it has one.
pub open spec fn typable_def(def: ModuleDef) -> Option<TypableDef> {
    match def {
        ModuleDef::Function(it) => Some(TypableDef::Function(it)),
        ModuleDef::Struct(it) => Some(TypableDef::Struct(it)),
        ModuleDef::Enum(it) => Some(TypableDef::Enum(it)),
        ModuleDef::EnumVariant(it) => Some(TypableDef::EnumVariant(it)),
        ModuleDef::TypeAlias(it) => Some(TypableDef::TypeAlias(it)),
        ModuleDef::Const(it) => Some(TypableDef::Const(it)),
        ModuleDef::Static(it) => Some(TypableDef::Static(it)),
        ModuleDef::Module(_) | ModuleDef::Trait(_) => None,
    }
}

impl ModuleDef {
    /// The definition as one that has a type; modules and traits have none.
    pub fn typable(self) -> (r: Option<TypableDef>)
        ensures
            r == typable_def(self),
    {
        match self {
            ModuleDef::Function(it) => Some(TypableDef::Function(it)),
            ModuleDef::Struct(it) => Some(TypableDef::Struct(it)),
            ModuleDef::Enum(it) => Some(TypableDef::Enum(it)),
            ModuleDef::EnumVariant(it) => Some(TypableDef::EnumVariant(it)),
            ModuleDef::TypeAlias(it) => Some(TypableDef::TypeAlias(it)),
            ModuleDef::Const(it) => Some(TypableDef::Const(it)),
            ModuleDef::Static(it) => Some(TypableDef::Static(it)),
            ModuleDef::Module(_) | ModuleDef::Trait(_) => None,
        }
    }
}

} // verus!
