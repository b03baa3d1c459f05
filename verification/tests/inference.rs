use ty_infer::body::{
    Array, BinaryOp, BindingAnnotation, Body, Expr, FieldPat, GenericArg, GenericArgs, Literal,
    MatchArm, Pat, Path, PathKind, PathSegment, Statement, StructLitField, UnaryOp,
};
use ty_infer::context::InferenceContext;
use ty_infer::db::{
    ConstSignature, FnSig, FnSignature, GenericParams, GoalAnswer, Guidance, HirDatabase, Solution,
    TraitRef,
};
use ty_infer::defs::{
    AdtDef, CallableDef, Const, Crate, DefWithBody, Enum, EnumVariant, ExprId, ExprOrPatId,
    FieldSyntax, Function, HirFileId, ImplBlock, ImplItem, ModuleDef, Namespace, PatId,
    PathResolution, PerNs, Resolution, Resolver, Static, Struct, StructField, Trait, TypableDef,
    TypeAlias, TypeRef, VariantDef,
};
use ty_infer::diagnostics::{DiagnosticSink, InferenceDiagnostic, NoSuchField};
use ty_infer::error::InferError;
use ty_infer::infer::infer;
use ty_infer::name::Name;
use ty_infer::pat::BindingMode;
use ty_infer::primitive::{FloatTy, IntTy, UncertainFloatTy, UncertainIntTy};
use ty_infer::result::InferenceResult;
use ty_infer::rules::Expectation;
use ty_infer::ty::{InferTy, Mutability, Substs, Ty, TypeCtor, TypeVarId};

const MAIN: Function = Function(0);

fn i32_ty() -> Ty {
    Ty::simple(TypeCtor::Int(UncertainIntTy::Known(IntTy::i32())))
}

fn u8_ty() -> Ty {
    Ty::simple(TypeCtor::Int(UncertainIntTy::Known(IntTy::u8())))
}

fn usize_ty() -> Ty {
    Ty::simple(TypeCtor::Int(UncertainIntTy::Known(IntTy::usize())))
}

fn double_ty() -> Ty {
    Ty::simple(TypeCtor::Float(UncertainFloatTy::Known(FloatTy::double())))
}

fn bool_ty() -> Ty {
    Ty::simple(TypeCtor::Bool)
}

fn never_ty() -> Ty {
    Ty::simple(TypeCtor::Never)
}

fn str_ref_ty() -> Ty {
    reference(Ty::simple(TypeCtor::Str))
}

fn reference(ty: Ty) -> Ty {
    Ty::apply_one(TypeCtor::Ref(Mutability::Shared), ty)
}

fn mut_reference(ty: Ty) -> Ty {
    Ty::apply_one(TypeCtor::Ref(Mutability::Mut), ty)
}

fn tuple(tys: Vec<Ty>) -> Ty {
    Ty::apply(TypeCtor::Tuple, Substs(tys))
}

fn array(ty: Ty) -> Ty {
    Ty::apply_one(TypeCtor::Array, ty)
}

fn param(idx: u32) -> Ty {
    Ty::Param { idx, name: Name::new("T") }
}

fn fn_def(func: u32, tys: Vec<Ty>) -> Ty {
    Ty::apply(TypeCtor::FnDef(CallableDef::Function(Function(func))), Substs(tys))
}

fn strukt(id: u32, tys: Vec<Ty>) -> Ty {
    Ty::apply(TypeCtor::Adt(AdtDef::Struct(Struct(id))), Substs(tys))
}

fn enum_ty(id: u32, tys: Vec<Ty>) -> Ty {
    Ty::apply(TypeCtor::Adt(AdtDef::Enum(Enum(id))), Substs(tys))
}

fn no_params() -> GenericParams {
    GenericParams { parent_params: None, params: vec![] }
}

fn path(names: &[&str]) -> Path {
    Path {
        kind: PathKind::Plain,
        segments: names.iter().map(|n| PathSegment { name: Name::new(n), args: None }).collect(),
    }
}

fn same_names(path: &Path, names: &[&str]) -> bool {
    path.segments.len() == names.len()
        && path.segments.iter().zip(names.iter()).all(|(s, n)| s.name == Name::new(n))
}

/// A function of the program under test.
struct Func {
    signature: FnSignature,
    generics: GenericParams,
    parent_trait: Option<Trait>,
    impl_target: Option<Ty>,
    ty: Ty,
    sig: Option<(Vec<Ty>, Ty)>,
}

fn func(name: &str, tys: Vec<Ty>, sig: Option<(Vec<Ty>, Ty)>, id: u32) -> Func {
    Func {
        signature: FnSignature { name: Name::new(name), params: vec![], ret_type: TypeRef(0) },
        generics: no_params(),
        parent_trait: None,
        impl_target: None,
        ty: fn_def(id, tys),
        sig,
    }
}

/// A program that is given by tables.
struct Program {
    body: Body,
    konst: ConstSignature,
    statik: ConstSignature,
    funcs: Vec<Func>,
    trait_generics: GenericParams,
    type_refs: Vec<Ty>,
    paths: Vec<(Vec<&'static str>, PathResolution)>,
    krate: Option<Crate>,
    segment_substs: Vec<Ty>,
    path_substs: Vec<Ty>,
    impls: Vec<(Ty, Vec<ImplItem>)>,
    structs: Vec<Ty>,
    enums: Vec<Ty>,
    fields: Vec<(VariantDef, &'static str, StructField)>,
    field_types: Vec<Ty>,
    methods: Vec<(Ty, &'static str, Function)>,
    answers: Vec<(Trait, fn() -> GoalAnswer)>,
    syntax: bool,
}

impl Program {
    fn new(code: Code, root: ExprId) -> Program {
        Program::with_params(code, vec![], root)
    }

    fn with_params(code: Code, params: Vec<PatId>, root: ExprId) -> Program {
        let body = Body::new(code.exprs, code.pats, params, root).unwrap();
        Program {
            body,
            konst: ConstSignature { name: Name::new("K"), type_ref: TypeRef(0) },
            statik: ConstSignature { name: Name::new("S"), type_ref: TypeRef(0) },
            funcs: vec![func("main", vec![], Some((vec![], Ty::Unknown)), 0)],
            trait_generics: no_params(),
            type_refs: vec![],
            paths: vec![],
            krate: Some(Crate(0)),
            segment_substs: vec![],
            path_substs: vec![],
            impls: vec![],
            structs: vec![],
            enums: vec![],
            fields: vec![],
            field_types: vec![],
            methods: vec![],
            answers: vec![],
            syntax: true,
        }
    }

    fn local(mut self, name: &'static str, pat: PatId) -> Program {
        let values = Some(Resolution::LocalBinding(pat));
        self.paths.push((
            vec![name],
            PathResolution { def: PerNs { types: None, values }, remaining_index: None },
        ));
        self
    }

    fn value(mut self, name: &'static str, def: ModuleDef) -> Program {
        let def = Some(Resolution::Def(def));
        self.paths.push((
            vec![name],
            PathResolution { def: PerNs { types: def, values: def }, remaining_index: None },
        ));
        self
    }

    fn infer(&self) -> std::sync::Arc<InferenceResult> {
        infer(self, DefWithBody::Function(MAIN)).unwrap()
    }

    fn error(&self) -> InferError {
        infer(self, DefWithBody::Function(MAIN)).err().unwrap()
    }
}

impl HirDatabase for Program {
    fn body(&self, _def: DefWithBody) -> &Body {
        &self.body
    }

    fn fn_signature(&self, func: Function) -> &FnSignature {
        &self.funcs[func.0 as usize].signature
    }

    fn const_signature(&self, _konst: Const) -> &ConstSignature {
        &self.konst
    }

    fn static_signature(&self, _static_: Static) -> &ConstSignature {
        &self.statik
    }

    fn fn_generic_params(&self, func: Function) -> &GenericParams {
        &self.funcs[func.0 as usize].generics
    }

    fn trait_generic_params(&self, _trait: Trait) -> &GenericParams {
        &self.trait_generics
    }

    fn parent_trait(&self, func: Function) -> Option<Trait> {
        self.funcs[func.0 as usize].parent_trait
    }

    fn impl_target_ty(&self, func: Function) -> Option<Ty> {
        self.funcs[func.0 as usize].impl_target.clone()
    }

    fn type_from_ref(&self, _resolver: Resolver, type_ref: TypeRef) -> Ty {
        self.type_refs.get(type_ref.0 as usize).cloned().unwrap_or(Ty::Unknown)
    }

    fn resolve_path_segments(&self, _resolver: Resolver, path: &Path) -> PathResolution {
        let nothing = PathResolution {
            def: PerNs { types: None, values: None },
            remaining_index: None,
        };
        self.paths.iter().find(|it| same_names(path, &it.0)).map_or(nothing, |it| it.1)
    }

    fn resolve_path(&self, resolver: Resolver, path: &Path) -> PerNs {
        self.resolve_path_segments(resolver, path).def
    }

    fn krate(&self, _resolver: Resolver) -> Option<Crate> {
        self.krate
    }

    fn type_for_def(&self, def: TypableDef, _ns: Namespace) -> Ty {
        match def {
            TypableDef::Function(f) => self.funcs[f.0 as usize].ty.clone(),
            TypableDef::Struct(s) => self.structs[s.0 as usize].clone(),
            TypableDef::Const(_) => usize_ty(),
            _ => Ty::Unknown,
        }
    }

    fn substs_from_path_segment(
        &self,
        _resolver: Resolver,
        _segment: &PathSegment,
        _def: TypableDef,
    ) -> Substs {
        Substs(self.segment_substs.clone())
    }

    fn substs_from_path(&self, _resolver: Resolver, _path: &Path, _def: TypableDef) -> Substs {
        Substs(self.path_substs.clone())
    }

    fn impl_items(&self, ty: &Ty, _krate: Crate) -> Vec<ImplItem> {
        self.impls.iter().find(|it| it.0 == *ty).map_or(vec![], |it| it.1.clone())
    }

    fn struct_ty(&self, strukt: Struct) -> Ty {
        self.structs[strukt.0 as usize].clone()
    }

    fn enum_ty(&self, enum_: Enum) -> Ty {
        self.enums[enum_.0 as usize].clone()
    }

    fn parent_enum(&self, _variant: EnumVariant) -> Enum {
        Enum(0)
    }

    fn variant_field(&self, def: VariantDef, name: &Name) -> Option<StructField> {
        self.fields.iter().find(|it| it.0 == def && Name::new(it.1) == *name).map(|it| it.2)
    }

    fn field_ty(&self, field: StructField) -> Ty {
        self.field_types[field.0 as usize].clone()
    }

    fn lookup_method(&self, ty: &Ty, name: &Name, _resolver: Resolver) -> Option<(Ty, Function)> {
        for derefed in self.autoderef(ty) {
            for it in &self.methods {
                if it.0 == derefed && Name::new(it.1) == *name {
                    return Some((derefed, it.2));
                }
            }
        }
        None
    }

    fn callable_sig(&self, ty: &Ty) -> Option<FnSig> {
        match ty {
            Ty::Apply(a) => match a.ctor {
                TypeCtor::FnDef(CallableDef::Function(f)) => {
                    let (params, ret) = self.funcs[f.0 as usize].sig.as_ref()?;
                    Some(FnSig {
                        params: params.iter().map(|p| p.subst(&a.parameters)).collect(),
                        ret: ret.subst(&a.parameters),
                    })
                }
                _ => None,
            },
            _ => None,
        }
    }

    fn autoderef(&self, ty: &Ty) -> Vec<Ty> {
        let mut tys = vec![ty.clone()];
        while let Ok(Some(next)) = tys.last().unwrap().builtin_deref() {
            tys.push(next);
        }
        tys
    }

    fn solve(&self, goal: &TraitRef) -> GoalAnswer {
        match self.answers.iter().find(|it| it.0 == goal.trait_) {
            Some(it) => (it.1)(),
            None => GoalAnswer { solution: None, var_mapping: vec![] },
        }
    }

    fn binary_op_rhs_expectation(&self, op: BinaryOp, lhs_ty: &Ty) -> Ty {
        match op {
            BinaryOp::BooleanAnd | BinaryOp::BooleanOr => bool_ty(),
            _ => lhs_ty.clone(),
        }
    }

    fn binary_op_return_ty(&self, op: BinaryOp, rhs_ty: &Ty) -> Ty {
        match op {
            BinaryOp::Addition => rhs_ty.clone(),
            _ => bool_ty(),
        }
    }

    fn source_file(&self, _func: Function) -> HirFileId {
        HirFileId(7)
    }

    fn field_syntax(&self, _func: Function, expr: ExprId, field: usize) -> Option<FieldSyntax> {
        if self.syntax {
            Some(FieldSyntax(100 * expr.0 + field as u32))
        } else {
            None
        }
    }
}

/// The parts of a body.
struct Code {
    exprs: Vec<Expr>,
    pats: Vec<Pat>,
}

impl Code {
    fn new() -> Code {
        Code { exprs: vec![], pats: vec![] }
    }

    fn expr(&mut self, expr: Expr) -> ExprId {
        self.exprs.push(expr);
        ExprId(self.exprs.len() as u32 - 1)
    }

    fn pat(&mut self, pat: Pat) -> PatId {
        self.pats.push(pat);
        PatId(self.pats.len() as u32 - 1)
    }

    fn number(&mut self) -> ExprId {
        self.expr(Expr::Literal(Literal::Int(1, UncertainIntTy::Unknown)))
    }

    fn byte(&mut self) -> ExprId {
        self.expr(Expr::Literal(Literal::Int(1, UncertainIntTy::Known(IntTy::u8()))))
    }

    fn float(&mut self) -> ExprId {
        self.expr(Expr::Literal(Literal::Float(0, UncertainFloatTy::Unknown)))
    }

    fn boolean(&mut self) -> ExprId {
        self.expr(Expr::Literal(Literal::Bool(true)))
    }

    fn string(&mut self) -> ExprId {
        self.expr(Expr::Literal(Literal::String("s".to_string())))
    }

    fn name(&mut self, name: &str) -> ExprId {
        self.expr(Expr::Path(path(&[name])))
    }

    fn bind(&mut self, name: &str) -> PatId {
        self.pat(Pat::Bind {
            mode: BindingAnnotation::Unannotated,
            name: Name::new(name),
            subpat: None,
        })
    }

    fn let_(&mut self, pat: PatId, type_ref: Option<TypeRef>, init: ExprId) -> Statement {
        Statement::Let { pat, type_ref, initializer: Some(init) }
    }

    fn block(&mut self, statements: Vec<Statement>, tail: Option<ExprId>) -> ExprId {
        self.expr(Expr::Block { statements, tail })
    }
}

/// The type of an expression that is the whole body.
fn type_of(code: Code, root: ExprId) -> Ty {
    Program::new(code, root).infer()[root].clone()
}

#[test]
fn literals_have_their_types() {
    let cases = vec![
        (Literal::Bool(true), bool_ty()),
        (Literal::Char('x'), Ty::simple(TypeCtor::Char)),
        (Literal::String("s".to_string()), str_ref_ty()),
        (
            Literal::ByteString(vec![1]),
            reference(Ty::apply_one(TypeCtor::Slice, u8_ty())),
        ),
        (Literal::Int(1, UncertainIntTy::Known(IntTy::u8())), u8_ty()),
        (Literal::Int(1, UncertainIntTy::Unknown), i32_ty()),
        (Literal::Float(0, UncertainFloatTy::Known(FloatTy::double())), double_ty()),
        (Literal::Float(0, UncertainFloatTy::Unknown), double_ty()),
    ];
    for (literal, expected) in cases {
        let mut code = Code::new();
        let root = code.expr(Expr::Literal(literal));
        assert_eq!(type_of(code, root), expected);
    }
}

#[test]
fn a_literal_takes_the_declared_type() {
    // { let x: u8 = 1; x }
    let mut code = Code::new();
    let one = code.number();
    let x = code.bind("x");
    let st = code.let_(x, Some(TypeRef(1)), one);
    let tail = code.name("x");
    let root = code.block(vec![st], Some(tail));
    let mut program = Program::new(code, root).local("x", x);
    program.type_refs = vec![Ty::Unknown, u8_ty()];
    let result = program.infer();
    assert_eq!(result[one], u8_ty());
    assert_eq!(result[x], u8_ty());
    assert_eq!(result[tail], u8_ty());
    assert_eq!(result[root], u8_ty());
}

#[test]
fn a_later_use_decides_an_earlier_type() {
    // { let x = 1; let y: u8 = x; }
    let mut code = Code::new();
    let one = code.number();
    let x = code.bind("x");
    let first = code.let_(x, None, one);
    let use_x = code.name("x");
    let y = code.bind("y");
    let second = code.let_(y, Some(TypeRef(1)), use_x);
    let root = code.block(vec![first, second], None);
    let mut program = Program::new(code, root).local("x", x);
    program.type_refs = vec![Ty::Unknown, u8_ty()];
    let result = program.infer();
    assert_eq!(result[one], u8_ty());
    assert_eq!(result[x], u8_ty());
    assert_eq!(result[root], Ty::unit());
}

#[test]
fn a_let_without_initializer_takes_its_type_later() {
    // { let x; x = 1; } with the assignment giving the left type to the right operand
    let mut code = Code::new();
    let x = code.bind("x");
    let decl = Statement::Let { pat: x, type_ref: None, initializer: None };
    let use_x = code.name("x");
    let byte = code.byte();
    let assign =
        code.expr(Expr::BinaryOp { lhs: use_x, rhs: byte, op: Some(BinaryOp::Assignment) });
    let root = code.block(vec![decl, Statement::Expr(assign)], None);
    let result = Program::new(code, root).local("x", x).infer();
    assert_eq!(result[x], u8_ty());
    assert_eq!(result[use_x], u8_ty());
}

#[test]
fn if_branches_are_expected_to_be_alike() {
    // if true { 1 } else { 1u8 } where a u8 is to be returned
    let mut code = Code::new();
    let condition = code.boolean();
    let then_branch = code.number();
    let other = code.byte();
    let root =
        code.expr(Expr::If { condition, then_branch, else_branch: Some(other) });
    let mut program = Program::new(code, root);
    program.type_refs = vec![u8_ty()];
    let result = program.infer();
    assert_eq!(result[condition], bool_ty());
    assert_eq!(result[then_branch], u8_ty());
    assert_eq!(result[other], u8_ty());
    assert_eq!(result[root], u8_ty());
}

#[test]
fn an_if_without_else_has_no_value() {
    // if c { unknown }
    let mut code = Code::new();
    let condition = code.name("c");
    let then_branch = code.expr(Expr::Missing);
    let root = code.expr(Expr::If { condition, then_branch, else_branch: None });
    let result = Program::new(code, root).infer();
    assert_eq!(result[condition], bool_ty());
    assert_eq!(result[root], Ty::unit());
}

#[test]
fn loops_and_jumps() {
    // { loop {}; while true {}; break; continue }
    let mut code = Code::new();
    let empty = code.block(vec![], None);
    let looped = code.expr(Expr::Loop { body: empty });
    let condition = code.boolean();
    let empty2 = code.block(vec![], None);
    let whiled = code.expr(Expr::While { condition, body: empty2 });
    let value = code.number();
    let broke = code.expr(Expr::Break { expr: Some(value) });
    let tail = code.expr(Expr::Continue);
    let root = code.block(
        vec![Statement::Expr(looped), Statement::Expr(whiled), Statement::Expr(broke)],
        Some(tail),
    );
    let result = Program::new(code, root).infer();
    assert_eq!(result[looped], never_ty());
    assert_eq!(result[whiled], Ty::unit());
    assert_eq!(result[broke], never_ty());
    assert_eq!(result[value], i32_ty());
    assert_eq!(result[root], never_ty());
}

#[test]
fn return_expects_the_return_type() {
    let mut code = Code::new();
    let value = code.number();
    let root = code.expr(Expr::Return { expr: Some(value) });
    let mut program = Program::new(code, root);
    program.type_refs = vec![u8_ty()];
    let result = program.infer();
    assert_eq!(result[value], u8_ty());
    assert_eq!(result[root], never_ty());
}

#[test]
fn a_for_pattern_is_not_known() {
    let mut code = Code::new();
    let iterable = code.string();
    let pat = code.bind("x");
    let body = code.block(vec![], None);
    let root = code.expr(Expr::For { iterable, pat, body });
    let result = Program::new(code, root).infer();
    assert_eq!(result[iterable], str_ref_ty());
    assert_eq!(result[pat], Ty::Unknown);
    assert_eq!(result[root], Ty::unit());
}

#[test]
fn match_arms_share_one_type() {
    // match true { x if x => 1, _ => 1u8 }
    let mut code = Code::new();
    let scrutinee = code.boolean();
    let x = code.bind("x");
    let guard = code.name("x");
    let first = code.number();
    let wild = code.pat(Pat::Wild);
    let second = code.byte();
    let root = code.expr(Expr::Match {
        expr: scrutinee,
        arms: vec![
            MatchArm { pats: vec![x], guard: Some(guard), expr: first },
            MatchArm { pats: vec![wild], guard: None, expr: second },
        ],
    });
    let result = Program::new(code, root).local("x", x).infer();
    assert_eq!(result[x], bool_ty());
    assert_eq!(result[guard], bool_ty());
    assert_eq!(result[wild], bool_ty());
    assert_eq!(result[first], u8_ty());
    assert_eq!(result[second], u8_ty());
    assert_eq!(result[root], u8_ty());
}

#[test]
fn tuples_and_arrays() {
    // ([1, 1u8], ["s"; 3], 1.0)
    let mut code = Code::new();
    let a = code.number();
    let b = code.byte();
    let list = code.expr(Expr::Array(Array::ElementList(vec![a, b])));
    let s = code.string();
    let n = code.number();
    let repeated = code.expr(Expr::Array(Array::Repeat { initializer: s, repeat: n }));
    let f = code.float();
    let root = code.expr(Expr::Tuple { exprs: vec![list, repeated, f] });
    let result = Program::new(code, root).infer();
    assert_eq!(result[a], u8_ty());
    assert_eq!(result[list], array(u8_ty()));
    assert_eq!(result[repeated], array(str_ref_ty()));
    assert_eq!(result[n], usize_ty());
    assert_eq!(result[root], tuple(vec![array(u8_ty()), array(str_ref_ty()), double_ty()]));
}

#[test]
fn array_elements_take_the_expected_type() {
    let mut code = Code::new();
    let a = code.number();
    let root = code.expr(Expr::Array(Array::ElementList(vec![a])));
    let mut program = Program::new(code, root);
    program.type_refs = vec![array(u8_ty())];
    let result = program.infer();
    assert_eq!(result[a], u8_ty());
    assert_eq!(result[root], array(u8_ty()));
}

#[test]
fn a_malformed_array_type_is_an_error() {
    let mut code = Code::new();
    let a = code.number();
    let root = code.expr(Expr::Array(Array::ElementList(vec![a])));
    let mut program = Program::new(code, root);
    program.type_refs = vec![Ty::simple(TypeCtor::Array)];
    assert_eq!(program.error(), InferError::NotSingleParameter);
}

#[test]
fn references_and_operators() {
    // (&1, *&1u8, -1, -1u8, !true, !1.0)
    let mut code = Code::new();
    let a = code.number();
    let ref_a = code.expr(Expr::Ref { expr: a, mutability: Mutability::Shared });
    let b = code.byte();
    let ref_b = code.expr(Expr::Ref { expr: b, mutability: Mutability::Mut });
    let deref = code.expr(Expr::UnaryOp { expr: ref_b, op: UnaryOp::Deref });
    let c = code.number();
    let neg = code.expr(Expr::UnaryOp { expr: c, op: UnaryOp::Neg });
    let d = code.byte();
    let bad_neg = code.expr(Expr::UnaryOp { expr: d, op: UnaryOp::Neg });
    let e = code.boolean();
    let not = code.expr(Expr::UnaryOp { expr: e, op: UnaryOp::Not });
    let f = code.float();
    let bad_not = code.expr(Expr::UnaryOp { expr: f, op: UnaryOp::Not });
    let g = code.boolean();
    let bad_deref = code.expr(Expr::UnaryOp { expr: g, op: UnaryOp::Deref });
    let root = code
        .expr(Expr::Tuple { exprs: vec![ref_a, deref, neg, bad_neg, not, bad_not, bad_deref] });
    let result = Program::new(code, root).infer();
    assert_eq!(result[ref_a], reference(i32_ty()));
    assert_eq!(result[ref_b], mut_reference(u8_ty()));
    assert_eq!(result[deref], u8_ty());
    assert_eq!(result[neg], i32_ty());
    assert_eq!(result[bad_neg], Ty::Unknown);
    assert_eq!(result[not], bool_ty());
    assert_eq!(result[bad_not], Ty::Unknown);
    assert_eq!(result[bad_deref], Ty::Unknown);
}

#[test]
fn a_reference_passes_the_expectation_on() {
    let mut code = Code::new();
    let a = code.number();
    let root = code.expr(Expr::Ref { expr: a, mutability: Mutability::Shared });
    let mut program = Program::new(code, root);
    program.type_refs = vec![reference(u8_ty())];
    assert_eq!(program.infer()[a], u8_ty());
}

#[test]
fn binary_operators_ask_for_their_operands() {
    // 1u8 + 1, x && y
    let mut code = Code::new();
    let a = code.byte();
    let b = code.number();
    let sum = code.expr(Expr::BinaryOp { lhs: a, rhs: b, op: Some(BinaryOp::Addition) });
    let x = code.expr(Expr::Missing);
    let y = code.expr(Expr::Missing);
    let and = code.expr(Expr::BinaryOp { lhs: x, rhs: y, op: Some(BinaryOp::BooleanAnd) });
    let root = code.expr(Expr::Tuple { exprs: vec![sum, and] });
    let result = Program::new(code, root).infer();
    assert_eq!(result[b], u8_ty());
    assert_eq!(result[sum], u8_ty());
    assert_eq!(result[x], bool_ty());
    assert_eq!(result[y], bool_ty());
    assert_eq!(result[and], bool_ty());
}

#[test]
fn operands_without_operator_are_inferred() {
    let mut code = Code::new();
    let a = code.byte();
    let b = code.number();
    let root = code.expr(Expr::BinaryOp { lhs: a, rhs: b, op: None });
    let result = Program::new(code, root).infer();
    assert_eq!(result[a], u8_ty());
    // nothing is expected of the second operand
    assert_eq!(result[b], i32_ty());
    assert_eq!(result[root], Ty::Unknown);
}

#[test]
fn casts_and_tries() {
    let mut code = Code::new();
    let a = code.boolean();
    let cast = code.expr(Expr::Cast { expr: a, type_ref: TypeRef(1) });
    let b = code.boolean();
    let tried = code.expr(Expr::Try { expr: b });
    let root = code.expr(Expr::Tuple { exprs: vec![cast, tried] });
    let mut program = Program::new(code, root);
    program.type_refs = vec![Ty::Unknown, u8_ty()];
    let result = program.infer();
    assert_eq!(result[a], bool_ty());
    assert_eq!(result[cast], u8_ty());
    assert_eq!(result[tried], Ty::Unknown);
}

#[test]
fn closures_are_walked_through() {
    // |x: u8, y| x
    let mut code = Code::new();
    let x = code.bind("x");
    let y = code.bind("y");
    let body = code.name("x");
    let root = code.expr(Expr::Lambda {
        args: vec![x, y],
        arg_types: vec![Some(TypeRef(1)), None],
        body,
    });
    let mut program = Program::new(code, root).local("x", x);
    program.type_refs = vec![Ty::Unknown, u8_ty()];
    let result = program.infer();
    assert_eq!(result[x], u8_ty());
    assert_eq!(result[y], Ty::Unknown);
    assert_eq!(result[body], u8_ty());
    assert_eq!(result[root], Ty::Unknown);
}

#[test]
fn a_closure_needs_a_type_for_each_parameter() {
    let mut code = Code::new();
    let x = code.bind("x");
    let body = code.number();
    let root = code.expr(Expr::Lambda { args: vec![x], arg_types: vec![], body });
    assert_eq!(Program::new(code, root).error(), InferError::ClosureArity);
}

#[test]
fn parameters_have_their_declared_types() {
    // fn main(x: u8, (y, z): (bool, &str)) -> bool { y }
    let mut code = Code::new();
    let x = code.bind("x");
    let y = code.bind("y");
    let z = code.bind("z");
    let both = code.pat(Pat::Tuple(vec![y, z]));
    let root = code.name("y");
    let mut program = Program::with_params(code, vec![x, both], root).local("y", y);
    program.type_refs =
        vec![bool_ty(), u8_ty(), tuple(vec![bool_ty(), str_ref_ty()])];
    program.funcs[0].signature.params = vec![TypeRef(1), TypeRef(2)];
    let result = program.infer();
    assert_eq!(result[x], u8_ty());
    assert_eq!(result[y], bool_ty());
    assert_eq!(result[z], str_ref_ty());
    assert_eq!(result[both], tuple(vec![bool_ty(), str_ref_ty()]));
    assert_eq!(result[root], bool_ty());
}

#[test]
fn constants_and_statics_have_their_declared_types() {
    for def in [DefWithBody::Const(Const(0)), DefWithBody::Static(Static(0))] {
        let mut code = Code::new();
        let root = code.number();
        let mut program = Program::new(code, root);
        program.type_refs = vec![Ty::Unknown, u8_ty(), usize_ty()];
        program.konst.type_ref = TypeRef(1);
        program.statik.type_ref = TypeRef(2);
        let result = infer(&program, def).unwrap();
        let expected = match def {
            DefWithBody::Const(_) => u8_ty(),
            _ => usize_ty(),
        };
        assert_eq!(result[root], expected);
    }
}

#[test]
fn patterns_look_behind_references() {
    // let (a, ref mut b, &c) = &(1u8, 1u8, &1u8);
    let mut code = Code::new();
    let parts: Vec<ExprId> = (0..2).map(|_| code.byte()).collect();
    let third = code.byte();
    let third = code.expr(Expr::Ref { expr: third, mutability: Mutability::Shared });
    let whole = code.expr(Expr::Tuple { exprs: vec![parts[0], parts[1], third] });
    let init = code.expr(Expr::Ref { expr: whole, mutability: Mutability::Shared });
    let a = code.bind("a");
    let b = code.pat(Pat::Bind {
        mode: BindingAnnotation::RefMut,
        name: Name::new("b"),
        subpat: None,
    });
    let c = code.bind("c");
    let ref_c = code.pat(Pat::Ref { pat: c, mutability: Mutability::Shared });
    let pat = code.pat(Pat::Tuple(vec![a, b, ref_c]));
    let st = code.let_(pat, None, init);
    let root = code.block(vec![st], None);
    let result = Program::new(code, root).infer();
    assert_eq!(result[a], reference(u8_ty()));
    assert_eq!(result[b], mut_reference(u8_ty()));
    // a reference pattern sets the mode back
    assert_eq!(result[c], u8_ty());
    assert_eq!(result[ref_c], reference(u8_ty()));
    assert_eq!(result[pat], tuple(vec![u8_ty(), u8_ty(), reference(u8_ty())]));
}

#[test]
fn a_shared_reference_outside_wins() {
    // let (a,) = &&mut (1u8,)  and  let (b,) = &mut &(1u8,)  and  let (c,) = &mut &mut (1u8,)
    for (outer, inner, expected) in [
        (Mutability::Shared, Mutability::Mut, Mutability::Shared),
        (Mutability::Mut, Mutability::Shared, Mutability::Shared),
        (Mutability::Mut, Mutability::Mut, Mutability::Mut),
    ] {
        let mut code = Code::new();
        let byte = code.byte();
        let whole = code.expr(Expr::Tuple { exprs: vec![byte] });
        let first = code.expr(Expr::Ref { expr: whole, mutability: inner });
        let init = code.expr(Expr::Ref { expr: first, mutability: outer });
        let a = code.bind("a");
        let pat = code.pat(Pat::Tuple(vec![a]));
        let st = code.let_(pat, None, init);
        let root = code.block(vec![st], None);
        let result = Program::new(code, root).infer();
        assert_eq!(result[a], Ty::apply_one(TypeCtor::Ref(expected), u8_ty()));
    }
}

#[test]
fn a_binding_with_a_subpattern() {
    // let whole @ (a, _) = (1u8, true);
    let mut code = Code::new();
    let byte = code.byte();
    let yes = code.boolean();
    let init = code.expr(Expr::Tuple { exprs: vec![byte, yes] });
    let a = code.bind("a");
    let wild = code.pat(Pat::Wild);
    let sub = code.pat(Pat::Tuple(vec![a, wild]));
    let pat = code.pat(Pat::Bind {
        mode: BindingAnnotation::Unannotated,
        name: Name::new("whole"),
        subpat: Some(sub),
    });
    let st = code.let_(pat, None, init);
    let root = code.block(vec![st], None);
    let result = Program::new(code, root).infer();
    let whole = tuple(vec![u8_ty(), bool_ty()]);
    assert_eq!(result[a], u8_ty());
    assert_eq!(result[wild], bool_ty());
    assert_eq!(result[sub], whole);
    assert_eq!(result[pat], whole);
}

#[test]
fn literal_and_range_patterns_are_walked_through() {
    // match 1u8 { true | 1..1.0 => 1 }
    let mut code = Code::new();
    let scrutinee = code.byte();
    let yes = code.boolean();
    let lit = code.pat(Pat::Lit(yes));
    let start = code.number();
    let end = code.float();
    let range = code.pat(Pat::Range { start, end });
    let value = code.number();
    let root = code.expr(Expr::Match {
        expr: scrutinee,
        arms: vec![MatchArm { pats: vec![lit, range], guard: None, expr: value }],
    });
    let result = Program::new(code, root).infer();
    assert_eq!(result[yes], bool_ty());
    assert_eq!(result[start], i32_ty());
    assert_eq!(result[end], double_ty());
    // the patterns have the type that they are matched with
    assert_eq!(result[lit], u8_ty());
    assert_eq!(result[range], u8_ty());
}

#[test]
fn slice_patterns_are_walked_through() {
    // let [&a, (b, _), "s"] = x;
    let mut code = Code::new();
    let init = code.expr(Expr::Missing);
    let a = code.bind("a");
    let first = code.pat(Pat::Ref { pat: a, mutability: Mutability::Shared });
    let b = code.bind("b");
    let wild = code.pat(Pat::Wild);
    let rest = code.pat(Pat::Tuple(vec![b, wild]));
    let text = code.string();
    let last = code.pat(Pat::Lit(text));
    let pat = code.pat(Pat::Slice {
        prefix: vec![first],
        rest: Some(rest),
        suffix: vec![last],
    });
    let st = code.let_(pat, None, init);
    let root = code.block(vec![st], None);
    let result = Program::new(code, root).infer();
    assert_eq!(result[first], reference(Ty::Unknown));
    assert_eq!(result[rest], tuple(vec![Ty::Unknown, Ty::Unknown]));
    assert_eq!(result[text], str_ref_ty());
    assert_eq!(result[pat], Ty::Unknown);
}

#[test]
fn a_binding_has_a_resolved_type() {
    let mut code = Code::new();
    let a = code.bind("a");
    let by_ref = code.pat(Pat::Bind {
        mode: BindingAnnotation::Ref,
        name: Name::new("b"),
        subpat: None,
    });
    let root = code.number();
    let program = Program::with_params(code, vec![a, by_ref], root);
    let mut ctx =
        InferenceContext::new(&program, &program.body, DefWithBody::Function(MAIN));
    let v = ctx.new_type_var().unwrap();
    assert_eq!(ctx.unify(&v, &u8_ty()), Ok(true));
    assert_eq!(ctx.infer_pat(a, &v, BindingMode::Move), Ok(u8_ty()));
    assert_eq!(ctx.infer_pat(by_ref, &v, BindingMode::Move), Ok(u8_ty()));
    let result = ctx.resolve_all().unwrap();
    assert_eq!(result[a], u8_ty());
    assert_eq!(result[by_ref], reference(u8_ty()));
}

#[test]
fn a_local_variable_has_a_resolved_type() {
    let mut code = Code::new();
    let a = code.bind("a");
    let root = code.name("a");
    let program = Program::with_params(code, vec![a], root).local("a", a);
    let mut ctx =
        InferenceContext::new(&program, &program.body, DefWithBody::Function(MAIN));
    let v = ctx.new_type_var().unwrap();
    ctx.write_pat_ty(a, v.clone());
    assert_eq!(ctx.unify(&v, &u8_ty()), Ok(true));
    let resolver = Resolver::Expr(DefWithBody::Function(MAIN), root);
    let found = ctx.infer_path_expr(resolver, &path(&["a"]), ExprOrPatId::ExprId(root));
    assert_eq!(found, Ok(Some(u8_ty())));
}

#[test]
fn an_inferred_type_is_never_unknown() {
    let mut code = Code::new();
    let root = code.expr(Expr::Missing);
    let wild = code.pat(Pat::Wild);
    let program = Program::with_params(code, vec![wild], root);
    let mut ctx =
        InferenceContext::new(&program, &program.body, DefWithBody::Function(MAIN));
    let first = Ty::Infer(InferTy::TypeVar(TypeVarId(0)));
    assert_eq!(ctx.infer_expr(root, &Expectation::none()), Ok(first));
    let second = Ty::Infer(InferTy::TypeVar(TypeVarId(1)));
    assert_eq!(ctx.infer_pat(wild, &Ty::Unknown, BindingMode::Move), Ok(second));
}

#[test]
fn a_malformed_reference_type_is_an_error() {
    let mut code = Code::new();
    let a = code.bind("a");
    let pat = code.pat(Pat::Tuple(vec![a]));
    let root = code.number();
    let mut program = Program::with_params(code, vec![pat], root);
    program.type_refs = vec![Ty::Unknown, Ty::simple(TypeCtor::Ref(Mutability::Shared))];
    program.funcs[0].signature.params = vec![TypeRef(1)];
    assert_eq!(program.error(), InferError::NotSingleParameter);
}

fn with_struct(mut program: Program) -> Program {
    // struct S<T> { x: T, y: bool }
    program.structs = vec![strukt(0, vec![Ty::Unknown])];
    program.fields = vec![
        (VariantDef::Struct(Struct(0)), "x", StructField(0)),
        (VariantDef::Struct(Struct(0)), "y", StructField(1)),
        (VariantDef::Struct(Struct(0)), "0", StructField(0)),
        (VariantDef::EnumVariant(EnumVariant(0)), "0", StructField(0)),
    ];
    program.field_types = vec![param(0), bool_ty()];
    program.enums = vec![enum_ty(0, vec![Ty::Unknown])];
    program.path_substs = vec![Ty::Unknown];
    program
        .value("S", ModuleDef::Struct(Struct(0)))
        .value("V", ModuleDef::EnumVariant(EnumVariant(0)))
}

#[test]
fn struct_literals_and_fields() {
    // { let s = S { x: 1u8, y: true }; s.x }
    let mut code = Code::new();
    let x = code.byte();
    let y = code.expr(Expr::Missing);
    let literal = code.expr(Expr::StructLit {
        path: Some(path(&["S"])),
        fields: vec![
            StructLitField { name: Name::new("x"), expr: x },
            StructLitField { name: Name::new("y"), expr: y },
        ],
        spread: None,
    });
    let s = code.bind("s");
    let st = code.let_(s, None, literal);
    let use_s = code.name("s");
    let access = code.expr(Expr::Field { expr: use_s, name: Name::new("x") });
    let root = code.block(vec![st], Some(access));
    let result = with_struct(Program::new(code, root)).local("s", s).infer();
    assert_eq!(result[literal], strukt(0, vec![u8_ty()]));
    assert_eq!(result[y], bool_ty());
    assert_eq!(result[s], strukt(0, vec![u8_ty()]));
    assert_eq!(result[access], u8_ty());
    assert_eq!(result.field_resolution(access), Some(StructField(0)));
    assert_eq!(result.field_resolution(use_s), None);
    assert_eq!(result.diagnostics().len(), 0);
}

#[test]
fn a_spread_has_the_type_of_the_literal() {
    let mut code = Code::new();
    let base = code.expr(Expr::Missing);
    let root = code.expr(Expr::StructLit {
        path: Some(path(&["S"])),
        fields: vec![],
        spread: Some(base),
    });
    let result = with_struct(Program::new(code, root)).infer();
    assert_eq!(result[base], strukt(0, vec![Ty::Unknown]));
}

#[test]
fn a_missing_field_is_told() {
    // S { x: 1, z: 2, w: 3 }
    let mut code = Code::new();
    let a = code.number();
    let b = code.number();
    let c = code.number();
    let root = code.expr(Expr::StructLit {
        path: Some(path(&["S"])),
        fields: vec![
            StructLitField { name: Name::new("x"), expr: a },
            StructLitField { name: Name::new("z"), expr: b },
            StructLitField { name: Name::new("w"), expr: c },
        ],
        spread: None,
    });
    let mut program = with_struct(Program::new(code, root));
    let result = program.infer();
    assert_eq!(
        *result.diagnostics(),
        vec![
            InferenceDiagnostic::NoSuchField { expr: root, field: 1 },
            InferenceDiagnostic::NoSuchField { expr: root, field: 2 },
        ]
    );
    assert_eq!(result[b], i32_ty());
    let mut sink = DiagnosticSink::new();
    assert_eq!(result.add_diagnostics(&program, MAIN, &mut sink), Ok(()));
    assert_eq!(
        sink.told,
        vec![
            NoSuchField { file: HirFileId(7), field: FieldSyntax(301) },
            NoSuchField { file: HirFileId(7), field: FieldSyntax(302) },
        ]
    );
    program.syntax = false;
    assert_eq!(
        result.add_diagnostics(&program, MAIN, &mut sink),
        Err(InferError::NoSuchSyntax)
    );
    assert_eq!(sink.told.len(), 2);
}

#[test]
fn nothing_is_told_of_an_unknown_struct() {
    let mut code = Code::new();
    let a = code.number();
    let root = code.expr(Expr::StructLit {
        path: Some(path(&["Nowhere"])),
        fields: vec![StructLitField { name: Name::new("x"), expr: a }],
        spread: None,
    });
    let result = with_struct(Program::new(code, root)).infer();
    assert_eq!(result.diagnostics().len(), 0);
    assert_eq!(result[root], Ty::Unknown);
    assert_eq!(result[a], i32_ty());
}

#[test]
fn struct_and_tuple_struct_patterns() {
    // { let S { x: a, q: b } = s; let V(c) = v; } with s: S<u8> and v: E<u8>
    let mut code = Code::new();
    let s = code.expr(Expr::Cast { expr: ExprId(0), type_ref: TypeRef(1) });
    code.exprs.insert(0, Expr::Missing);
    let s = ExprId(s.0 + 1);
    let a = code.bind("a");
    let b = code.bind("b");
    let pat = code.pat(Pat::Struct {
        path: Some(path(&["S"])),
        args: vec![
            FieldPat { name: Name::new("x"), pat: a },
            FieldPat { name: Name::new("q"), pat: b },
        ],
    });
    let first = code.let_(pat, None, s);
    let missing = code.expr(Expr::Missing);
    let v = code.expr(Expr::Cast { expr: missing, type_ref: TypeRef(2) });
    let c = code.bind("c");
    let variant = code.pat(Pat::TupleStruct { path: Some(path(&["V"])), args: vec![c] });
    let second = code.let_(variant, None, v);
    let root = code.block(vec![first, second], None);
    let mut program = with_struct(Program::new(code, root));
    program.type_refs = vec![
        Ty::Unknown,
        strukt(0, vec![u8_ty()]),
        enum_ty(0, vec![bool_ty()]),
    ];
    let result = program.infer();
    assert_eq!(result[a], u8_ty());
    assert_eq!(result[b], Ty::Unknown);
    assert_eq!(result[pat], strukt(0, vec![u8_ty()]));
    assert_eq!(result[c], bool_ty());
    assert_eq!(result[variant], enum_ty(0, vec![bool_ty()]));
}

#[test]
fn patterns_of_variants_have_resolved_types() {
    // S { x: a } matched with S<u8>, V(c) matched with E<bool>
    let mut code = Code::new();
    let a = code.bind("a");
    let args = vec![FieldPat { name: Name::new("x"), pat: a }];
    let s_pat = code.pat(Pat::Struct { path: Some(path(&["S"])), args });
    let c = code.bind("c");
    let v_pat = code.pat(Pat::TupleStruct { path: Some(path(&["V"])), args: vec![c] });
    let root = code.number();
    let program = with_struct(Program::with_params(code, vec![s_pat, v_pat], root));
    let mut ctx =
        InferenceContext::new(&program, &program.body, DefWithBody::Function(MAIN));
    let expected = strukt(0, vec![u8_ty()]);
    let found = ctx.infer_struct_pat(
        s_pat,
        &Some(path(&["S"])),
        &vec![FieldPat { name: Name::new("x"), pat: a }],
        &expected,
        BindingMode::Move,
    );
    assert_eq!(found, Ok(expected));
    let expected = enum_ty(0, vec![bool_ty()]);
    let found = ctx.infer_tuple_struct_pat(
        v_pat,
        &Some(path(&["V"])),
        &vec![c],
        &expected,
        BindingMode::Move,
    );
    assert_eq!(found, Ok(expected));
}

#[test]
fn tuple_fields_are_found_by_number_and_through_references() {
    // (&(1u8, true)).1 , (1u8,).7
    let mut code = Code::new();
    let a = code.byte();
    let b = code.boolean();
    let pair = code.expr(Expr::Tuple { exprs: vec![a, b] });
    let r = code.expr(Expr::Ref { expr: pair, mutability: Mutability::Shared });
    let access = code.expr(Expr::Field { expr: r, name: Name::new("1") });
    let c = code.byte();
    let single = code.expr(Expr::Tuple { exprs: vec![c] });
    let beyond = code.expr(Expr::Field { expr: single, name: Name::new("7") });
    let root = code.expr(Expr::Tuple { exprs: vec![access, beyond] });
    let result = Program::new(code, root).infer();
    assert_eq!(result[access], bool_ty());
    assert_eq!(result[beyond], Ty::Unknown);
    assert_eq!(result.field_resolution(access), None);
}

#[test]
fn calls_expect_the_parameter_types() {
    // f(1, 2, 3) with fn f<T>(u8, T) -> T
    let mut code = Code::new();
    let callee = code.name("f");
    let a = code.number();
    let b = code.boolean();
    let c = code.float();
    let root = code.expr(Expr::Call { callee, args: vec![a, b, c] });
    let mut program = Program::new(code, root).value("f", ModuleDef::Function(Function(1)));
    program.funcs.push(func("f", vec![param(0)], Some((vec![u8_ty(), param(0)], param(0))), 1));
    program.path_substs = vec![Ty::Unknown];
    let result = program.infer();
    assert_eq!(result[a], u8_ty());
    assert_eq!(result[b], bool_ty());
    // there is no parameter for the last argument
    assert_eq!(result[c], double_ty());
    assert_eq!(result[root], bool_ty());
    assert_eq!(result[callee], fn_def(1, vec![bool_ty()]));
}

#[test]
fn what_is_not_callable_has_no_result_type() {
    let mut code = Code::new();
    let callee = code.boolean();
    let a = code.number();
    let root = code.expr(Expr::Call { callee, args: vec![a] });
    let result = Program::new(code, root).infer();
    assert_eq!(result[root], Ty::Unknown);
    assert_eq!(result[a], i32_ty());
}

/// A program with a method `get<U>(&self, T, U) -> U` of a trait, found on `bool`.
fn with_method(mut program: Program) -> Program {
    let mut get = func(
        "get",
        vec![param(0), param(1)],
        Some((vec![reference(param(0)), u8_ty(), param(1)], param(1))),
        1,
    );
    get.generics = GenericParams {
        parent_params: Some(Box::new(GenericParams {
            parent_params: None,
            params: vec![Name::new("Self")],
        })),
        params: vec![Name::new("U")],
    };
    program.funcs.push(get);
    program.methods = vec![(bool_ty(), "get", Function(1))];
    program
}

fn method_call(code: &mut Code, generic_args: Option<GenericArgs>) -> (ExprId, ExprId, ExprId) {
    let receiver = code.boolean();
    let receiver = code.expr(Expr::Ref { expr: receiver, mutability: Mutability::Shared });
    let a = code.number();
    let b = code.number();
    let call = code.expr(Expr::MethodCall {
        receiver,
        method_name: Name::new("get"),
        args: vec![a, b],
        generic_args,
    });
    (a, b, call)
}

#[test]
fn method_calls_are_resolved() {
    let mut code = Code::new();
    let (a, b, call) = method_call(&mut code, None);
    let result = with_method(Program::new(code, call)).infer();
    assert_eq!(result.method_resolution(call), Some(Function(1)));
    assert_eq!(result.method_resolution(a), None);
    assert_eq!(result[a], u8_ty());
    assert_eq!(result[b], i32_ty());
    assert_eq!(result[call], i32_ty());
}

#[test]
fn a_method_call_has_a_resolved_type() {
    let mut code = Code::new();
    let receiver = code.boolean();
    let a = code.number();
    let b = code.byte();
    let call = code.expr(Expr::MethodCall {
        receiver,
        method_name: Name::new("get"),
        args: vec![a, b],
        generic_args: None,
    });
    let program = with_method(Program::new(code, call));
    let mut ctx =
        InferenceContext::new(&program, &program.body, DefWithBody::Function(MAIN));
    let found = ctx.infer_method_call(call, receiver, &vec![a, b], &Name::new("get"), &None);
    assert_eq!(found, Ok(u8_ty()));
}

#[test]
fn written_type_arguments_are_used() {
    let mut code = Code::new();
    let args = GenericArgs {
        args: vec![GenericArg::Type(TypeRef(1)), GenericArg::Type(TypeRef(2))],
    };
    let (_, b, call) = method_call(&mut code, Some(args));
    let mut program = with_method(Program::new(code, call));
    program.type_refs = vec![Ty::Unknown, usize_ty(), bool_ty()];
    let result = program.infer();
    assert_eq!(result[b], usize_ty());
    assert_eq!(result[call], usize_ty());
}

#[test]
fn an_unknown_method_leaves_the_arguments_open() {
    let mut code = Code::new();
    let receiver = code.byte();
    let a = code.number();
    let call = code.expr(Expr::MethodCall {
        receiver,
        method_name: Name::new("get"),
        args: vec![a],
        generic_args: None,
    });
    let result = with_method(Program::new(code, call)).infer();
    assert_eq!(result.method_resolution(call), None);
    assert_eq!(result[a], i32_ty());
    assert_eq!(result[call], Ty::Unknown);
}

/// A call of a method of a trait, whose obligation gets the given answer. The type
/// argument of the method is the first variable.
fn answered(answer: fn() -> GoalAnswer) -> Program {
    let mut code = Code::new();
    let receiver = code.boolean();
    let a = code.expr(Expr::Missing);
    let b = code.expr(Expr::Missing);
    let call = code.expr(Expr::MethodCall {
        receiver,
        method_name: Name::new("get"),
        args: vec![a, b],
        generic_args: None,
    });
    let mut program = with_method(Program::new(code, call));
    program.funcs[1].parent_trait = Some(Trait(4));
    program.trait_generics = GenericParams {
        parent_params: None,
        params: vec![Name::new("Self"), Name::new("X")],
    };
    program.answers = vec![(Trait(4), answer)];
    program
}

const CALL: ExprId = ExprId(3);

/// The variable for the type argument: the first is that for the declared type.
const ARGUMENT: TypeVarId = TypeVarId(1);

#[test]
fn a_unique_solution_is_used() {
    let program = answered(|| GoalAnswer {
        solution: Some(Solution::Unique(Substs(vec![u8_ty()]))),
        var_mapping: vec![ARGUMENT],
    });
    let result = program.infer();
    assert_eq!(result[CALL], u8_ty());
    assert_eq!(result[ExprId(2)], u8_ty());
}

#[test]
fn definite_guidance_is_used() {
    let program = answered(|| GoalAnswer {
        solution: Some(Solution::Ambig(Guidance::Definite(Substs(vec![u8_ty()])))),
        var_mapping: vec![ARGUMENT],
    });
    assert_eq!(program.infer()[CALL], u8_ty());
}

#[test]
fn other_guidance_is_not_used() {
    for answer in [
        (|| GoalAnswer {
            solution: Some(Solution::Ambig(Guidance::Suggested(Substs(vec![u8_ty()])))),
            var_mapping: vec![ARGUMENT],
        }) as fn() -> GoalAnswer,
        || GoalAnswer {
            solution: Some(Solution::Ambig(Guidance::Unknown)),
            var_mapping: vec![ARGUMENT],
        },
        || GoalAnswer { solution: None, var_mapping: vec![ARGUMENT] },
    ] {
        assert_eq!(answered(answer).infer()[CALL], Ty::Unknown);
    }
}

#[test]
fn a_solution_must_fit_the_goal() {
    let program = answered(|| GoalAnswer {
        solution: Some(Solution::Unique(Substs(vec![u8_ty(), bool_ty()]))),
        var_mapping: vec![ARGUMENT],
    });
    assert_eq!(program.error(), InferError::NoSuchGoalVariable);
}

#[test]
fn everything_is_recorded_whatever_the_solver_answers() {
    // the answer speaks of the variable for the declared type, which is not in the goal
    let program = answered(|| GoalAnswer {
        solution: Some(Solution::Unique(Substs(vec![array(Ty::Infer(InferTy::TypeVar(
            TypeVarId(0),
        )))]))),
        var_mapping: vec![ARGUMENT],
    });
    let result = program.infer();
    assert_eq!(result[ExprId(0)], bool_ty());
    assert_eq!(result[ExprId(1)], u8_ty());
    // the declared type is made equal to an array of itself, which is cut off
    assert_eq!(result[ExprId(2)], array(array(Ty::Unknown)));
    assert_eq!(result[CALL], array(array(Ty::Unknown)));
    assert_eq!(result.method_resolution(CALL), Some(Function(1)));
}

#[test]
fn a_solution_for_a_missing_variable_is_an_error() {
    let program = answered(|| GoalAnswer {
        solution: Some(Solution::Unique(Substs(vec![u8_ty()]))),
        var_mapping: vec![TypeVarId(1000)],
    });
    assert_eq!(program.error(), InferError::NoSuchVariable);
}

#[test]
fn a_type_with_a_foreign_variable_is_an_error() {
    let mut code = Code::new();
    let root = code.number();
    let mut program = Program::new(code, root);
    program.type_refs = vec![Ty::Infer(InferTy::TypeVar(TypeVarId(9)))];
    assert_eq!(program.error(), InferError::NoSuchVariable);
}

/// A program in which `S::make` is found as an item of the type `S<u8>`.
fn with_assoc(code: Code, root: ExprId) -> Program {
    let mut program = with_struct(Program::new(code, root));
    program.structs = vec![strukt(0, vec![param(0)])];
    let mut make = func("make", vec![param(0)], Some((vec![], param(0))), 1);
    make.generics = GenericParams {
        parent_params: Some(Box::new(GenericParams {
            parent_params: None,
            params: vec![Name::new("T")],
        })),
        params: vec![],
    };
    make.impl_target = Some(strukt(0, vec![param(0)]));
    program.funcs.push(make);
    program.segment_substs = vec![u8_ty()];
    program.path_substs = vec![Ty::Unknown];
    program.impls = vec![(
        strukt(0, vec![u8_ty()]),
        vec![
            ImplItem::TypeAlias(TypeAlias(0)),
            ImplItem::Const(Const(0)),
            ImplItem::Method(Function(1)),
        ],
    )];
    let types = Some(Resolution::Def(ModuleDef::Struct(Struct(0))));
    for name in ["make", "K", "other"] {
        program.paths.push((
            vec!["S", name],
            PathResolution { def: PerNs { types, values: None }, remaining_index: Some(1) },
        ));
    }
    program
}

#[test]
fn associated_functions_are_resolved_with_the_types_of_their_impl() {
    let mut code = Code::new();
    let callee = code.expr(Expr::Path(path(&["S", "make"])));
    let root = code.expr(Expr::Call { callee, args: vec![] });
    let result = with_assoc(code, root).infer();
    assert_eq!(
        result.assoc_resolutions_for_expr(callee),
        Some(ImplItem::Method(Function(1)))
    );
    assert_eq!(result.assoc_resolutions_for_expr(root), None);
    assert_eq!(result.assoc_resolutions_for_pat(PatId(0)), None);
    assert_eq!(result[callee], fn_def(1, vec![u8_ty()]));
    assert_eq!(result[root], u8_ty());
}

#[test]
fn associated_constants_are_resolved_in_patterns() {
    let mut code = Code::new();
    let scrutinee = code.number();
    let pat = code.pat(Pat::Path(path(&["S", "K"])));
    let arm = code.boolean();
    let root = code.expr(Expr::Match {
        expr: scrutinee,
        arms: vec![MatchArm { pats: vec![pat], guard: None, expr: arm }],
    });
    let result = with_assoc(code, root).infer();
    assert_eq!(result.assoc_resolutions_for_pat(pat), Some(ImplItem::Const(Const(0))));
    assert_eq!(result.assoc_resolutions_for_expr(ExprId(0)), None);
    assert_eq!(result[pat], usize_ty());
    assert_eq!(result[scrutinee], usize_ty());
}

#[test]
fn an_unknown_associated_item_has_no_type() {
    let mut code = Code::new();
    let root = code.expr(Expr::Path(path(&["S", "other"])));
    let result = with_assoc(code, root).infer();
    assert_eq!(result.assoc_resolutions_for_expr(root), None);
    assert_eq!(result[root], Ty::Unknown);
    let mut code = Code::new();
    let root = code.expr(Expr::Path(path(&["S", "make"])));
    let mut program = with_assoc(code, root);
    program.krate = None;
    assert_eq!(program.infer()[root], Ty::Unknown);
}

#[test]
fn a_path_index_must_fit_the_path() {
    let types = Some(Resolution::Def(ModuleDef::Struct(Struct(0))));
    for index in [0usize, 3] {
        let mut code = Code::new();
        let root = code.expr(Expr::Path(path(&["S", "odd"])));
        let mut program = with_assoc(code, root);
        program.paths.push((
            vec!["S", "odd"],
            PathResolution { def: PerNs { types, values: None }, remaining_index: Some(index) },
        ));
        assert_eq!(program.error(), InferError::PathIndex);
    }
}

#[test]
fn what_is_no_value_has_no_type() {
    for resolution in [
        Resolution::GenericParam(0),
        Resolution::SelfType(ImplBlock(0)),
        Resolution::LocalBinding(PatId(5)),
        Resolution::Def(ModuleDef::Trait(Trait(0))),
    ] {
        let mut code = Code::new();
        let root = code.name("x");
        let mut program = Program::new(code, root);
        let values = Some(resolution);
        program.paths.push((
            vec!["x"],
            PathResolution { def: PerNs { types: None, values }, remaining_index: None },
        ));
        assert_eq!(program.infer()[root], Ty::Unknown);
    }
}

#[test]
fn a_type_in_itself_is_cut_off() {
    // { let x; let y; [x, (y,)]; [y, (x,)]; }
    let mut code = Code::new();
    let x = code.bind("x");
    let y = code.bind("y");
    let mut statements = vec![
        Statement::Let { pat: x, type_ref: None, initializer: None },
        Statement::Let { pat: y, type_ref: None, initializer: None },
    ];
    for (first, second) in [("x", "y"), ("y", "x")] {
        let a = code.name(first);
        let b = code.name(second);
        let b = code.expr(Expr::Tuple { exprs: vec![b] });
        let list = code.expr(Expr::Array(Array::ElementList(vec![a, b])));
        statements.push(Statement::Expr(list));
    }
    let root = code.block(statements, None);
    let result = Program::new(code, root).local("x", x).local("y", y).infer();
    // x is (y,), and y is ((y,),), where the inner y is left unknown
    let y_ty = tuple(vec![tuple(vec![Ty::Unknown])]);
    assert_eq!(result[y], y_ty);
    assert_eq!(result[x], tuple(vec![y_ty]));
}

#[test]
fn a_body_has_no_cycles() {
    let looped = vec![Expr::Loop { body: ExprId(0) }];
    assert!(Body::new(looped, vec![], vec![], ExprId(0)).is_none());
    let missing_pat = vec![Expr::Missing];
    assert!(Body::new(missing_pat, vec![], vec![PatId(0)], ExprId(0)).is_none());
    assert!(Body::new(vec![], vec![], vec![], ExprId(0)).is_none());
    let bad_pat = vec![Pat::Ref { pat: PatId(1), mutability: Mutability::Shared }, Pat::Wild];
    assert!(Body::new(vec![Expr::Missing], bad_pat, vec![], ExprId(0)).is_none());
    assert!(Body::new(vec![Expr::Missing], vec![Pat::Wild], vec![PatId(0)], ExprId(0)).is_some());
}

#[test]
fn an_expression_in_a_pattern_comes_before_the_one_around_it() {
    fn with_literal(literal: u32) -> Option<Body> {
        let exprs = vec![
            Expr::Missing,
            Expr::Lambda { args: vec![PatId(1)], arg_types: vec![None], body: ExprId(0) },
            Expr::Missing,
        ];
        let pats = vec![
            Pat::Lit(ExprId(literal)),
            Pat::Slice { prefix: vec![], rest: Some(PatId(0)), suffix: vec![] },
        ];
        Body::new(exprs, pats, vec![], ExprId(1))
    }
    assert!(with_literal(0).is_some());
    // the closure itself, one that comes after it, and one that is not there
    assert!(with_literal(1).is_none());
    assert!(with_literal(2).is_none());
    assert!(with_literal(3).is_none());
}

#[test]
fn every_inferred_type_is_free_of_variables() {
    fn free(ty: &Ty) -> bool {
        match ty {
            Ty::Apply(a) => a.parameters.0.iter().all(free),
            Ty::Infer(_) => false,
            _ => true,
        }
    }
    // { let x = (1, 1.0, unknown); match x { y => [y] } }
    let mut code = Code::new();
    let a = code.number();
    let b = code.float();
    let c = code.expr(Expr::Missing);
    let init = code.expr(Expr::Tuple { exprs: vec![a, b, c] });
    let x = code.bind("x");
    let st = code.let_(x, None, init);
    let scrutinee = code.name("x");
    let y = code.bind("y");
    let use_y = code.name("y");
    let list = code.expr(Expr::Array(Array::ElementList(vec![use_y])));
    let matched = code.expr(Expr::Match {
        expr: scrutinee,
        arms: vec![MatchArm { pats: vec![y], guard: None, expr: list }],
    });
    let root = code.block(vec![st], Some(matched));
    let n = code.exprs.len() as u32;
    let result = Program::new(code, root).local("x", x).local("y", y).infer();
    for i in 0..n {
        assert!(free(&result[ExprId(i)]));
    }
    assert!(free(&result[x]) && free(&result[y]));
    assert_eq!(
        result[root],
        array(tuple(vec![i32_ty(), double_ty(), Ty::Unknown]))
    );
    // and every expression has got one
    assert_eq!(result[c], Ty::Unknown);
    assert_eq!(result[use_y], tuple(vec![i32_ty(), double_ty(), Ty::Unknown]));
}
