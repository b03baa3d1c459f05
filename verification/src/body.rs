//! The body of a function, constant or static: its expressions and patterns.

use vstd::prelude::*;

use crate::defs::{ExprId, PatId, TypeRef};
use crate::name::Name;
use crate::primitive::{UncertainFloatTy, UncertainIntTy};
use crate::ty::Mutability;

verus! {

#[derive(Copy, Clone, PartialEq, Eq, Debug, Structural)]
pub enum GenericArg {
    Type(TypeRef),
}

/// The generic arguments that are written after a path segment or a method name.
#[derive(Debug)]
pub struct GenericArgs {
    pub args: Vec<GenericArg>,
}

#[derive(Debug)]
pub struct PathSegment {
    pub name: Name,
    pub args: Option<GenericArgs>,
}

/// How a path starts.
#[derive(Copy, Clone, PartialEq, Eq, Debug, Structural)]
pub enum PathKind {
    Plain,
    FromSelf,
    FromSuper,
    FromCrate,
    Absolute,
}

#[derive(Debug)]
pub struct Path {
    pub kind: PathKind,
    pub segments: Vec<PathSegment>,
}

#[derive(Debug)]
pub enum Literal {
    String(String),
    ByteString(Vec<u8>),
    Char(char),
    Bool(bool),
    Int(u64, UncertainIntTy),
    /// The value is kept as its bits.
    Float(u64, UncertainFloatTy),
}

#[derive(Copy, Clone, PartialEq, Eq, Debug, Structural)]
pub enum UnaryOp {
    Deref,
    Not,
    Neg,
}

#[derive(Copy, Clone, PartialEq, Eq, Debug, Structural)]
pub enum BinaryOp {
    BooleanOr,
    BooleanAnd,
    EqualityTest,
    LesserEqualTest,
    GreaterEqualTest,
    LesserTest,
    GreaterTest,
    Addition,
    Multiplication,
    Subtraction,
    Division,
    Remainder,
    LeftShift,
    RightShift,
    BitwiseXor,
    BitwiseOr,
    BitwiseAnd,
    RangeRightOpen,
    RangeRightClosed,
    Assignment,
    AddAssign,
    DivAssign,
    MulAssign,
    RemAssign,
    ShrAssign,
    ShlAssign,
    SubAssign,
    BitOrAssign,
    BitAndAssign,
    BitXorAssign,
}

#[derive(Debug)]
pub struct MatchArm {
    pub pats: Vec<PatId>,
    pub guard: Option<ExprId>,
    pub expr: ExprId,
}

#[derive(Debug)]
pub struct StructLitField {
    pub name: Name,
    pub expr: ExprId,
}

#[derive(Debug)]
pub enum Statement {
    Let { pat: PatId, type_ref: Option<TypeRef>, initializer: Option<ExprId> },
    Expr(ExprId),
}

#[derive(Debug)]
pub enum Array {
    ElementList(Vec<ExprId>),
    Repeat { initializer: ExprId, repeat: ExprId },
}

#[derive(Debug)]
pub enum Expr {
    Missing,
    Path(Path),
    If { condition: ExprId, then_branch: ExprId, else_branch: Option<ExprId> },
    Block { statements: Vec<Statement>, tail: Option<ExprId> },
    Loop { body: ExprId },
    While { condition: ExprId, body: ExprId },
    For { iterable: ExprId, pat: PatId, body: ExprId },
    Call { callee: ExprId, args: Vec<ExprId> },
    MethodCall {
        receiver: ExprId,
        method_name: Name,
        args: Vec<ExprId>,
        generic_args: Option<GenericArgs>,
    },
    Match { expr: ExprId, arms: Vec<MatchArm> },
    Continue,
    Break { expr: Option<ExprId> },
    Return { expr: Option<ExprId> },
    StructLit { path: Option<Path>, fields: Vec<StructLitField>, spread: Option<ExprId> },
    Field { expr: ExprId, name: Name },
    Try { expr: ExprId },
    Cast { expr: ExprId, type_ref: TypeRef },
    Ref { expr: ExprId, mutability: Mutability },
    UnaryOp { expr: ExprId, op: UnaryOp },
    BinaryOp { lhs: ExprId, rhs: ExprId, op: Option<BinaryOp> },
    Lambda { args: Vec<PatId>, arg_types: Vec<Option<TypeRef>>, body: ExprId },
    Tuple { exprs: Vec<ExprId> },
    Array(Array),
    Literal(Literal),
}

/// How a binding is written.
#[derive(Copy, Clone, PartialEq, Eq, Debug, Structural)]
pub enum BindingAnnotation {
    /// No annotation: `x`.
    Unannotated,
    /// `mut x`.
    Mutable,
    /// `ref x`.
    Ref,
    /// `ref mut x`.
    RefMut,
}

#[derive(Debug)]
pub struct FieldPat {
    pub name: Name,
    pub pat: PatId,
}

#[derive(Debug)]
pub enum Pat {
    Missing,
    Wild,
    Tuple(Vec<PatId>),
    Struct { path: Option<Path>, args: Vec<FieldPat> },
    Range { start: ExprId, end: ExprId },
    Slice { prefix: Vec<PatId>, rest: Option<PatId>, suffix: Vec<PatId> },
    Path(Path),
    Lit(ExprId),
    Bind { mode: BindingAnnotation, name: Name, subpat: Option<PatId> },
    TupleStruct { path: Option<Path>, args: Vec<PatId> },
    Ref { pat: PatId, mutability: Mutability },
}

pub open spec fn all_exprs_below(ids: Seq<ExprId>, n: nat) -> bool {
    forall|i: int| 0 <= i < ids.len() ==> (#[trigger] ids[i]).0 < n
}

pub open spec fn all_pats_below(ids: Seq<PatId>, n: nat) -> bool {
    forall|i: int| 0 <= i < ids.len() ==> (#[trigger] ids[i]).0 < n
}

pub open spec fn opt_expr_below(id: Option<ExprId>, n: nat) -> bool {
    id matches Some(e) ==> e.0 < n
}

/// The patterns that a pattern is made of.
pub open spec fn subpats(node: Pat) -> Seq<PatId> {
    match node {
        Pat::Tuple(args) => args@,
        Pat::Struct { args, .. } => Seq::new(args@.len(), |i: int| args@[i].pat),
        Pat::Slice { prefix, rest, suffix } => slice_parts(prefix@, rest, suffix@),
        Pat::Bind { subpat: Some(sub), .. } => seq![sub],
        Pat::TupleStruct { args, .. } => args@,
        Pat::Ref { pat, .. } => seq![pat],
        _ => Seq::empty(),
    }
}

/// The parts of a slice pattern, from the first to the last.
pub open spec fn slice_parts(prefix: Seq<PatId>, rest: Option<PatId>, suffix: Seq<PatId>) -> Seq<
    PatId,
> {
    match rest {
        Some(rest) => prefix.push(rest) + suffix,
        None => prefix + suffix,
    }
}

/// The expressions that a pattern is made of.
pub open spec fn pat_exprs(node: Pat) -> Seq<ExprId> {
    match node {
        Pat::Lit(e) => seq![e],
        Pat::Range { start, end } => seq![start, end],
        _ => Seq::empty(),
    }
}

/// The first number behind those of the expressions.
pub open spec fn exprs_limit(exprs: Seq<ExprId>) -> nat
    decreases exprs.len(),
{
    if exprs.len() == 0 {
        0
    } else {
        larger(exprs[0].0 as nat + 1, exprs_limit(exprs.skip(1)))
    }
}

pub open spec fn larger(a: nat, b: nat) -> nat {
    if a < b {
        b
    } else {
        a
    }
}

/// The first number behind those of the expressions in a pattern and the patterns it is
/// made of.
pub open spec fn pat_limit(pats: Seq<Pat>, p: PatId) -> nat
    decreases p.0, 1nat, 0nat,
{
    let node = pats[p.0 as int];
    larger(exprs_limit(pat_exprs(node)), pats_limit(pats, p, subpats(node)))
}

/// The same of patterns that come before another.
pub open spec fn pats_limit(pats: Seq<Pat>, parent: PatId, ids: Seq<PatId>) -> nat
    decreases parent.0, 0nat, ids.len(),
{
    if ids.len() == 0 {
        0
    } else if ids[0].0 < parent.0 {
        larger(pat_limit(pats, ids[0]), pats_limit(pats, parent, ids.skip(1)))
    } else {
        pats_limit(pats, parent, ids.skip(1))
    }
}

pub proof fn lemma_exprs_limit(exprs: Seq<ExprId>, i: int)
    requires
        0 <= i < exprs.len(),
    ensures
        exprs[i].0 < exprs_limit(exprs),
    decreases exprs.len(),
{
    if i > 0 {
        lemma_exprs_limit(exprs.skip(1), i - 1);
    }
}

pub proof fn lemma_pats_limit(pats: Seq<Pat>, parent: PatId, ids: Seq<PatId>, i: int)
    requires
        0 <= i < ids.len(),
        ids[i].0 < parent.0,
    ensures
        pat_limit(pats, ids[i]) <= pats_limit(pats, parent, ids),
    decreases ids.len(),
{
    if i > 0 {
        lemma_pats_limit(pats, parent, ids.skip(1), i - 1);
    }
}

/// Whether a pattern may be part of another: it comes before it, and the expressions in it
/// come before the limit of the other.
pub open spec fn pat_inside(pats: Seq<Pat>, parent: PatId, id: PatId) -> bool {
    id.0 < parent.0 && pat_limit(pats, id) <= pat_limit(pats, parent)
}

pub open spec fn all_pats_inside(pats: Seq<Pat>, parent: PatId, ids: Seq<PatId>) -> bool {
    forall|i: int| 0 <= i < ids.len() ==> pat_inside(pats, parent, #[trigger] ids[i])
}

/// Whether expressions come before the limit of a pattern.
pub open spec fn all_exprs_inside(pats: Seq<Pat>, parent: PatId, ids: Seq<ExprId>) -> bool {
    forall|i: int| 0 <= i < ids.len() ==> (#[trigger] ids[i]).0 < pat_limit(pats, parent)
}

/// What a pattern is made of comes before it.
pub proof fn lemma_parts_inside(exprs: nat, pats: Seq<Pat>, p: PatId)
    requires
        pats_in_order(exprs, pats),
        p.0 < pats.len(),
    ensures
        all_pats_inside(pats, p, subpats(pats[p.0 as int])),
        all_exprs_inside(pats, p, pat_exprs(pats[p.0 as int])),
        all_exprs_below(pat_exprs(pats[p.0 as int]), exprs),
        pat_limit(pats, p) == larger(
            exprs_limit(pat_exprs(pats[p.0 as int])),
            pats_limit(pats, p, subpats(pats[p.0 as int])),
        ),
{
    let node = pats[p.0 as int];
    assert(node.below(exprs, p.0 as nat));
    assert forall|i: int| 0 <= i < subpats(node).len() implies pat_inside(
        pats,
        p,
        #[trigger] subpats(node)[i],
    ) by {
        lemma_pats_limit(pats, p, subpats(node), i);
    }
    assert forall|i: int| 0 <= i < pat_exprs(node).len() implies (#[trigger] pat_exprs(node)[i]).0
        < pat_limit(pats, p) by {
        lemma_exprs_limit(pat_exprs(node), i);
    }
}

/// Whether a pattern exists, and the expressions in it are among the first.
pub open spec fn pat_within(id: PatId, exprs: nat, pats: Seq<Pat>) -> bool {
    id.0 < pats.len() && pat_limit(pats, id) <= exprs
}

pub open spec fn all_pats_within(ids: Seq<PatId>, exprs: nat, pats: Seq<Pat>) -> bool {
    forall|i: int| 0 <= i < ids.len() ==> pat_within(#[trigger] ids[i], exprs, pats)
}

impl Statement {
    /// Whether the statement is made of the first expressions only, and of patterns made
    /// of those.
    pub open spec fn below(self, exprs: nat, pats: Seq<Pat>) -> bool {
        match self {
            Statement::Let { pat, initializer, .. } => pat_within(pat, exprs, pats)
                && opt_expr_below(initializer, exprs),
            Statement::Expr(e) => e.0 < exprs,
        }
    }
}

impl MatchArm {
    /// Whether the arm is made of the first expressions only, and of patterns made of
    /// those.
    pub open spec fn below(self, exprs: nat, pats: Seq<Pat>) -> bool {
        all_pats_within(self.pats@, exprs, pats) && opt_expr_below(self.guard, exprs) && self.expr.0
            < exprs
    }
}

impl Expr {
    /// Whether the expression is made of the first expressions only, and of patterns made
    /// of those.
    pub open spec fn below(self, exprs: nat, pats: Seq<Pat>) -> bool {
        match self {
            Expr::Missing | Expr::Path(_) | Expr::Continue | Expr::Literal(_) => true,
            Expr::If { condition, then_branch, else_branch } => {
                condition.0 < exprs && then_branch.0 < exprs && opt_expr_below(else_branch, exprs)
            },
            Expr::Block { statements, tail } => {
                &&& forall|i: int|
                    0 <= i < statements@.len() ==> (#[trigger] statements@[i]).below(exprs, pats)
                &&& opt_expr_below(tail, exprs)
            },
            Expr::Loop { body } => body.0 < exprs,
            Expr::While { condition, body } => condition.0 < exprs && body.0 < exprs,
            Expr::For { iterable, pat, body } => iterable.0 < exprs && pat_within(pat, exprs, pats)
                && body.0 < exprs,
            Expr::Call { callee, args } => callee.0 < exprs && all_exprs_below(args@, exprs),
            Expr::MethodCall { receiver, args, .. } => receiver.0 < exprs && all_exprs_below(
                args@,
                exprs,
            ),
            Expr::Match { expr, arms } => {
                &&& expr.0 < exprs
                &&& forall|i: int| 0 <= i < arms@.len() ==> (#[trigger] arms@[i]).below(exprs, pats)
            },
            Expr::Break { expr } | Expr::Return { expr } => opt_expr_below(expr, exprs),
            Expr::StructLit { fields, spread, .. } => {
                &&& forall|i: int| 0 <= i < fields@.len() ==> (#[trigger] fields@[i]).expr.0 < exprs
                &&& opt_expr_below(spread, exprs)
            },
            Expr::Field { expr, .. } => expr.0 < exprs,
            Expr::Try { expr } => expr.0 < exprs,
            Expr::Cast { expr, .. } => expr.0 < exprs,
            Expr::Ref { expr, .. } => expr.0 < exprs,
            Expr::UnaryOp { expr, .. } => expr.0 < exprs,
            Expr::BinaryOp { lhs, rhs, .. } => lhs.0 < exprs && rhs.0 < exprs,
            Expr::Lambda { args, body, .. } => all_pats_within(
                args@,
                exprs,
                pats,
            ) && body.0 < exprs,
            Expr::Tuple { exprs: ids } => all_exprs_below(ids@, exprs),
            Expr::Array(Array::ElementList(ids)) => all_exprs_below(ids@, exprs),
            Expr::Array(Array::Repeat { initializer, repeat }) => initializer.0 < exprs && repeat.0
                < exprs,
        }
    }
}

impl Pat {
    /// Whether the pattern is made of the first expressions and the first patterns only.
    pub open spec fn below(self, exprs: nat, pats: nat) -> bool {
        all_exprs_below(pat_exprs(self), exprs) && all_pats_below(subpats(self), pats)
    }
}

fn exprs_below(ids: &Vec<ExprId>, n: usize) -> (r: bool)
    ensures
        r == all_exprs_below(ids@, n as nat),
{
    let mut i: usize = 0;
    while i < ids.len()
        invariant
            i <= ids.len(),
            forall|j: int| 0 <= j < i ==> (#[trigger] ids@[j]).0 < n,
        decreases ids.len() - i,
    {
        if ids[i].0 as usize >= n {
            return false;
        }
        i += 1;
    }
    true
}

fn pats_below(ids: &Vec<PatId>, n: usize) -> (r: bool)
    ensures
        r == all_pats_below(ids@, n as nat),
{
    let mut i: usize = 0;
    while i < ids.len()
        invariant
            i <= ids.len(),
            forall|j: int| 0 <= j < i ==> (#[trigger] ids@[j]).0 < n,
        decreases ids.len() - i,
    {
        if ids[i].0 as usize >= n {
            return false;
        }
        i += 1;
    }
    true
}

fn expr_below(id: ExprId, n: usize) -> (r: bool)
    ensures
        r == (id.0 < n),
{
    (id.0 as usize) < n
}

fn maybe_expr_below(id: &Option<ExprId>, n: usize) -> (r: bool)
    ensures
        r == opt_expr_below(*id, n as nat),
{
    match id {
        Some(e) => expr_below(*e, n),
        None => true,
    }
}

/// Whether the limits of patterns are these.
spec fn are_limits(limits: Seq<usize>, pats: Seq<Pat>) -> bool {
    &&& limits.len() == pats.len()
    &&& forall|p: PatId| (p.0 as int) < pats.len() ==> limits[p.0 as int] == #[trigger] pat_limit(
        pats,
        p,
    )
}

fn is_pat_within(
    id: PatId,
    n: usize,
    limits: &Vec<usize>,
    Ghost(pats): Ghost<Seq<Pat>>,
) -> (r: bool)
    requires
        are_limits(limits@, pats),
    ensures
        r == pat_within(id, n as nat, pats),
{
    (id.0 as usize) < limits.len() && limits[id.0 as usize] <= n
}

fn are_pats_within(
    ids: &Vec<PatId>,
    n: usize,
    limits: &Vec<usize>,
    Ghost(pats): Ghost<Seq<Pat>>,
) -> (r: bool)
    requires
        are_limits(limits@, pats),
    ensures
        r == all_pats_within(ids@, n as nat, pats),
{
    let mut i: usize = 0;
    while i < ids.len()
        invariant
            i <= ids.len(),
            are_limits(limits@, pats),
            forall|j: int| 0 <= j < i ==> pat_within(#[trigger] ids@[j], n as nat, pats),
        decreases ids.len() - i,
    {
        if !is_pat_within(ids[i], n, limits, Ghost(pats)) {
            return false;
        }
        i += 1;
    }
    true
}

impl Statement {
    fn is_below(&self, exprs: usize, limits: &Vec<usize>, Ghost(pats): Ghost<Seq<Pat>>) -> (r: bool)
        requires
            are_limits(limits@, pats),
        ensures
            r == self.below(exprs as nat, pats),
    {
        match self {
            Statement::Let { pat, initializer, .. } => {
                is_pat_within(*pat, exprs, limits, Ghost(pats)) && maybe_expr_below(
                    initializer,
                    exprs,
                )
            },
            Statement::Expr(e) => expr_below(*e, exprs),
        }
    }
}

impl MatchArm {
    fn is_below(&self, exprs: usize, limits: &Vec<usize>, Ghost(pats): Ghost<Seq<Pat>>) -> (r: bool)
        requires
            are_limits(limits@, pats),
        ensures
            r == self.below(exprs as nat, pats),
    {
        are_pats_within(&self.pats, exprs, limits, Ghost(pats)) && maybe_expr_below(
            &self.guard,
            exprs,
        ) && expr_below(self.expr, exprs)
    }
}

fn statements_below(
    statements: &Vec<Statement>,
    exprs: usize,
    limits: &Vec<usize>,
    Ghost(pats): Ghost<Seq<Pat>>,
) -> (r: bool)
    requires
        are_limits(limits@, pats),
    ensures
        r == (forall|i: int|
            0 <= i < statements@.len() ==> (#[trigger] statements@[i]).below(
                exprs as nat,
                pats,
            )),
{
    let mut i: usize = 0;
    while i < statements.len()
        invariant
            i <= statements.len(),
            are_limits(limits@, pats),
            forall|j: int|
                0 <= j < i ==> (#[trigger] statements@[j]).below(exprs as nat, pats),
        decreases statements.len() - i,
    {
        if !statements[i].is_below(exprs, limits, Ghost(pats)) {
            return false;
        }
        i += 1;
    }
    true
}

fn arms_below(
    arms: &Vec<MatchArm>,
    exprs: usize,
    limits: &Vec<usize>,
    Ghost(pats): Ghost<Seq<Pat>>,
) -> (r: bool)
    requires
        are_limits(limits@, pats),
    ensures
        r == (forall|i: int|
            0 <= i < arms@.len() ==> (#[trigger] arms@[i]).below(exprs as nat, pats)),
{
    let mut i: usize = 0;
    while i < arms.len()
        invariant
            i <= arms.len(),
            are_limits(limits@, pats),
            forall|j: int| 0 <= j < i ==> (#[trigger] arms@[j]).below(exprs as nat, pats),
        decreases arms.len() - i,
    {
        if !arms[i].is_below(exprs, limits, Ghost(pats)) {
            return false;
        }
        i += 1;
    }
    true
}

fn fields_below(fields: &Vec<StructLitField>, exprs: usize) -> (r: bool)
    ensures
        r == (forall|i: int| 0 <= i < fields@.len() ==> (#[trigger] fields@[i]).expr.0 < exprs),
{
    let mut i: usize = 0;
    while i < fields.len()
        invariant
            i <= fields.len(),
            forall|j: int| 0 <= j < i ==> (#[trigger] fields@[j]).expr.0 < exprs,
        decreases fields.len() - i,
    {
        if !expr_below(fields[i].expr, exprs) {
            return false;
        }
        i += 1;
    }
    true
}

impl Expr {
    fn is_below(&self, exprs: usize, limits: &Vec<usize>, Ghost(pats): Ghost<Seq<Pat>>) -> (r: bool)
        requires
            are_limits(limits@, pats),
        ensures
            r == self.below(exprs as nat, pats),
    {
        match self {
            Expr::Missing | Expr::Path(_) | Expr::Continue | Expr::Literal(_) => true,
            Expr::If { condition, then_branch, else_branch } => {
                expr_below(*condition, exprs) && expr_below(*then_branch, exprs)
                    && maybe_expr_below(else_branch, exprs)
            },
            Expr::Block { statements, tail } => {
                statements_below(statements, exprs, limits, Ghost(pats)) && maybe_expr_below(
                    tail,
                    exprs,
                )
            },
            Expr::Loop { body } => expr_below(*body, exprs),
            Expr::While { condition, body } => expr_below(*condition, exprs) && expr_below(
                *body,
                exprs,
            ),
            Expr::For { iterable, pat, body } => {
                expr_below(*iterable, exprs) && is_pat_within(*pat, exprs, limits, Ghost(pats))
                    && expr_below(*body, exprs)
            },
            Expr::Call { callee, args } => expr_below(*callee, exprs) && exprs_below(args, exprs),
            Expr::MethodCall { receiver, args, .. } => {
                expr_below(*receiver, exprs) && exprs_below(args, exprs)
            },
            Expr::Match { expr, arms } => expr_below(*expr, exprs) && arms_below(
                arms,
                exprs,
                limits,
                Ghost(pats),
            ),
            Expr::Break { expr } | Expr::Return { expr } => maybe_expr_below(expr, exprs),
            Expr::StructLit { fields, spread, .. } => {
                fields_below(fields, exprs) && maybe_expr_below(spread, exprs)
            },
            Expr::Field { expr, .. } => expr_below(*expr, exprs),
            Expr::Try { expr } => expr_below(*expr, exprs),
            Expr::Cast { expr, .. } => expr_below(*expr, exprs),
            Expr::Ref { expr, .. } => expr_below(*expr, exprs),
            Expr::UnaryOp { expr, .. } => expr_below(*expr, exprs),
            Expr::BinaryOp { lhs, rhs, .. } => expr_below(*lhs, exprs) && expr_below(*rhs, exprs),
            Expr::Lambda { args, body, .. } => {
                are_pats_within(args, exprs, limits, Ghost(pats)) && expr_below(*body, exprs)
            },
            Expr::Tuple { exprs: ids } => exprs_below(ids, exprs),
            Expr::Array(Array::ElementList(ids)) => exprs_below(ids, exprs),
            Expr::Array(Array::Repeat { initializer, repeat }) => {
                expr_below(*initializer, exprs) && expr_below(*repeat, exprs)
            },
        }
    }
}

/// The parts of a slice pattern, from the first to the last.
fn parts_of_slice(prefix: &Vec<PatId>, rest: Option<PatId>, suffix: &Vec<PatId>) -> (r: Vec<
    PatId,
>)
    ensures
        r@ == slice_parts(prefix@, rest, suffix@),
{
    let mut parts: Vec<PatId> = Vec::new();
    push_all(&mut parts, prefix);
    if let Some(rest) = rest {
        parts.push(rest);
    }
    push_all(&mut parts, suffix);
    assert(parts@ =~= slice_parts(prefix@, rest, suffix@));
    parts
}

fn push_all(parts: &mut Vec<PatId>, more: &Vec<PatId>)
    ensures
        final(parts)@ == old(parts)@ + more@,
{
    let mut i: usize = 0;
    assert(parts@ =~= old(parts)@ + more@.take(0));
    while i < more.len()
        invariant
            i <= more.len(),
            parts@ == old(parts)@ + more@.take(i as int),
        decreases more.len() - i,
    {
        parts.push(more[i]);
        assert(more@.take(i + 1) =~= more@.take(i as int).push(more@[i as int]));
        assert(parts@ =~= old(parts)@ + more@.take(i + 1));
        i += 1;
    }
    assert(more@.take(i as int) =~= more@);
}

impl Pat {
    /// The patterns that the pattern is made of.
    pub fn subpats(&self) -> (r: Vec<PatId>)
        ensures
            r@ == subpats(*self),
    {
        let mut ids: Vec<PatId> = Vec::new();
        match self {
            Pat::Tuple(args) => push_all(&mut ids, args),
            Pat::Struct { args, .. } => {
                let mut i: usize = 0;
                while i < args.len()
                    invariant
                        i <= args.len(),
                        ids.len() == i,
                        forall|j: int| 0 <= j < i ==> ids@[j] == (#[trigger] args@[j]).pat,
                    decreases args.len() - i,
                {
                    ids.push(args[i].pat);
                    i += 1;
                }
            },
            Pat::Slice { prefix, rest, suffix } => {
                ids = parts_of_slice(prefix, *rest, suffix);
            },
            Pat::Bind { subpat: Some(sub), .. } => ids.push(*sub),
            Pat::TupleStruct { args, .. } => push_all(&mut ids, args),
            Pat::Ref { pat, .. } => ids.push(*pat),
            _ => {},
        }
        assert(ids@ =~= subpats(*self));
        ids
    }

    /// The expressions that the pattern is made of.
    pub fn exprs(&self) -> (r: Vec<ExprId>)
        ensures
            r@ == pat_exprs(*self),
    {
        let mut ids: Vec<ExprId> = Vec::new();
        match self {
            Pat::Lit(e) => ids.push(*e),
            Pat::Range { start, end } => {
                ids.push(*start);
                ids.push(*end);
            },
            _ => {},
        }
        assert(ids@ =~= pat_exprs(*self));
        ids
    }
}

/// The limit of a pattern that comes after those with the given limits, if it is made of
/// those and of expressions that there are.
fn limit_of(
    node: &Pat,
    exprs: usize,
    limits: &Vec<usize>,
    Ghost(pats): Ghost<Seq<Pat>>,
    Ghost(p): Ghost<PatId>,
) -> (r: Option<usize>)
    requires
        p.0 == limits@.len(),
        limits@.len() < pats.len(),
        *node == pats[p.0 as int],
        forall|q: PatId| q.0 < p.0 ==> limits@[q.0 as int] == #[trigger] pat_limit(pats, q),
        forall|q: PatId| q.0 < p.0 ==> #[trigger] pat_limit(pats, q) <= exprs,
    ensures
        match r {
            Some(limit) => {
                &&& node.below(exprs as nat, p.0 as nat)
                &&& limit == pat_limit(pats, p)
                &&& limit <= exprs
            },
            None => !node.below(exprs as nat, p.0 as nat),
        },
{
    let parts = node.exprs();
    let ids = node.subpats();
    if !exprs_below(&parts, exprs) || !pats_below(&ids, limits.len()) {
        return None;
    }
    let mut limit: usize = 0;
    let ghost all = parts@;
    let mut i: usize = parts.len();
    assert(all.skip(i as int) =~= Seq::empty());
    while i > 0
        invariant
            i <= parts.len(),
            all == parts@,
            all_exprs_below(all, exprs as nat),
            limit <= exprs,
            limit == exprs_limit(all.skip(i as int)),
        decreases i,
    {
        i -= 1;
        assert(all.skip(i as int)[0] == all[i as int]);
        assert(all.skip(i as int).skip(1) =~= all.skip(i + 1));
        let behind = parts[i].0 as usize;
        if limit <= behind {
            limit = behind + 1;
        }
    }
    assert(all.skip(0) =~= all);
    let mut sub_limit: usize = 0;
    let ghost subs = ids@;
    let mut i: usize = ids.len();
    assert(subs.skip(i as int) =~= Seq::empty());
    while i > 0
        invariant
            i <= ids.len(),
            subs == ids@,
            p.0 == limits@.len(),
            all_pats_below(subs, p.0 as nat),
            forall|q: PatId| q.0 < p.0 ==> limits@[q.0 as int] == #[trigger] pat_limit(pats, q),
            forall|q: PatId| q.0 < p.0 ==> #[trigger] pat_limit(pats, q) <= exprs,
            sub_limit <= exprs,
            sub_limit == pats_limit(pats, p, subs.skip(i as int)),
        decreases i,
    {
        i -= 1;
        assert(subs.skip(i as int)[0] == subs[i as int]);
        assert(subs.skip(i as int).skip(1) =~= subs.skip(i + 1));
        let one = limits[ids[i].0 as usize];
        assert(one == pat_limit(pats, subs[i as int]));
        if sub_limit < one {
            sub_limit = one;
        }
    }
    assert(subs.skip(0) =~= subs);
    if limit < sub_limit {
        Some(sub_limit)
    } else {
        Some(limit)
    }
}

/// Whether each expression is made of expressions that come before it, and of patterns
/// made of such.
pub open spec fn exprs_in_order(exprs: Seq<Expr>, pats: Seq<Pat>) -> bool {
    forall|i: int| 0 <= i < exprs.len() ==> (#[trigger] exprs[i]).below(i as nat, pats)
}

/// Whether each pattern is made of patterns that come before it, and of expressions that
/// there are.
pub open spec fn pats_in_order(exprs: nat, pats: Seq<Pat>) -> bool {
    forall|i: int| 0 <= i < pats.len() ==> (#[trigger] pats[i]).below(exprs, i as nat)
}

/// Whether these are the parts of a body: each expression and each pattern comes
/// after those that it is made of, the parameters and the whole are there, and each
/// pattern has a number.
pub open spec fn is_body(
    exprs: Seq<Expr>,
    pats: Seq<Pat>,
    params: Seq<PatId>,
    body_expr: ExprId,
) -> bool {
    &&& pats.len() <= u32::MAX + 1
    &&& exprs_in_order(exprs, pats)
    &&& pats_in_order(exprs.len(), pats)
    &&& all_pats_below(params, pats.len())
    &&& body_expr.0 < exprs.len()
}

/// A body. An expression or a pattern comes after those that it is made of, and an
/// expression after those in its patterns, so a body has no cycles.
#[derive(Debug)]
pub struct Body {
    exprs: Vec<Expr>,
    pats: Vec<Pat>,
    params: Vec<PatId>,
    body_expr: ExprId,
}

impl Body {
    pub closed spec fn expr_seq(&self) -> Seq<Expr> {
        self.exprs@
    }

    pub closed spec fn pat_seq(&self) -> Seq<Pat> {
        self.pats@
    }

    /// The patterns of the parameters.
    pub closed spec fn param_seq(&self) -> Seq<PatId> {
        self.params@
    }

    /// The expression that is the body as a whole.
    pub closed spec fn root(&self) -> ExprId {
        self.body_expr
    }

    pub open spec fn wf(&self) -> bool {
        is_body(self.expr_seq(), self.pat_seq(), self.param_seq(), self.root())
    }

    #[verifier::type_invariant]
    closed spec fn inv(self) -> bool {
        self.wf()
    }

    /// A body of the given expressions and patterns, if they are in order.
    pub fn new(exprs: Vec<Expr>, pats: Vec<Pat>, params: Vec<PatId>, body_expr: ExprId) -> (r:
        Option<Body>)
        ensures
            match r {
                Some(body) => {
                    &&& body.wf()
                    &&& body.expr_seq() == exprs@
                    &&& body.pat_seq() == pats@
                    &&& body.param_seq() == params@
                    &&& body.root() == body_expr
                },
                None => !is_body(exprs@, pats@, params@, body_expr),
            },
    {
        if pats.len() > u32::MAX as usize && pats.len() - 1 > u32::MAX as usize {
            return None;
        }
        let mut limits: Vec<usize> = Vec::new();
        let mut i: usize = 0;
        while i < pats.len()
            invariant
                i <= pats.len() <= u32::MAX + 1,
                limits@.len() == i,
                forall|j: int| 0 <= j < i ==> (#[trigger] pats@[j]).below(exprs@.len(), j as nat),
                forall|q: PatId| q.0 < i ==> limits@[q.0 as int] == #[trigger] pat_limit(pats@, q),
                forall|q: PatId| q.0 < i ==> #[trigger] pat_limit(pats@, q) <= exprs@.len(),
            decreases pats.len() - i,
        {
            let ghost p = PatId(i as u32);
            match limit_of(&pats[i], exprs.len(), &limits, Ghost(pats@), Ghost(p)) {
                Some(limit) => {
                    limits.push(limit);
                },
                None => {
                    return None;
                },
            }
            assert forall|q: PatId| q.0 < i + 1 implies limits@[q.0 as int] == #[trigger] pat_limit(
                pats@,
                q,
            ) && pat_limit(pats@, q) <= exprs@.len() by {
                if q.0 == i {
                    assert(q == p);
                }
            }
            i += 1;
        }
        let mut i: usize = 0;
        while i < exprs.len()
            invariant
                i <= exprs.len(),
                are_limits(limits@, pats@),
                forall|j: int| 0 <= j < i ==> (#[trigger] exprs@[j]).below(j as nat, pats@),
            decreases exprs.len() - i,
        {
            if !exprs[i].is_below(i, &limits, Ghost(pats@)) {
                return None;
            }
            i += 1;
        }
        if pats_below(&params, pats.len()) && expr_below(body_expr, exprs.len()) {
            Some(Body { exprs, pats, params, body_expr })
        } else {
            None
        }
    }

    pub fn expr(&self, id: ExprId) -> (r: &Expr)
        requires
            id.0 < self.expr_seq().len(),
        ensures
            *r == self.expr_seq()[id.0 as int],
    {
        &self.exprs[id.0 as usize]
    }

    pub fn pat(&self, id: PatId) -> (r: &Pat)
        requires
            id.0 < self.pat_seq().len(),
        ensures
            *r == self.pat_seq()[id.0 as int],
    {
        &self.pats[id.0 as usize]
    }

    /// The patterns of the parameters.
    pub fn params(&self) -> (r: &Vec<PatId>)
        ensures
            r@ == self.param_seq(),
            self.wf(),
    {
        proof {
            use_type_invariant(self);
        }
        &self.params
    }

    /// The expression that is the body as a whole.
    pub fn body_expr(&self) -> (r: ExprId)
        ensures
            r == self.root(),
            self.wf(),
    {
        proof {
            use_type_invariant(self);
        }
        self.body_expr
    }
}

} // verus!
