//! What there is to tell the user about a body.

use vstd::prelude::*;

use crate::db::HirDatabase;
use crate::defs::{ExprId, FieldSyntax, Function, HirFileId};
use crate::error::InferError;

verus! {

/// Something to tell the user about the body.
#[derive(Copy, Clone, PartialEq, Eq, Debug, Structural)]
pub enum InferenceDiagnostic {
    /// A struct literal names a field that the struct does not have; the field is
    /// given by its position in the literal.
    NoSuchField { expr: ExprId, field: usize },
}

/// A field that its struct does not have, where it is written.
#[derive(Copy, Clone, PartialEq, Eq, Debug, Structural)]
pub struct NoSuchField {
    pub file: HirFileId,
    pub field: FieldSyntax,
}

/// Takes what the user is told, in order.
#[derive(Debug)]
pub struct DiagnosticSink {
    pub told: Vec<NoSuchField>,
}

impl View for DiagnosticSink {
    type V = Seq<NoSuchField>;

    open spec fn view(&self) -> Seq<NoSuchField> {
        self.told@
    }
}

impl DiagnosticSink {
    pub fn new() -> (r: DiagnosticSink)
        ensures
            r@ == Seq::<NoSuchField>::empty(),
    {
        DiagnosticSink { told: Vec::new() }
    }

    pub fn push(&mut self, diagnostic: NoSuchField)
        ensures
            final(self)@ == old(self)@.push(diagnostic),
    {
        self.told.push(diagnostic);
    }
}

/// What the user is told: the field, in the file of the function.
pub open spec fn located<D: HirDatabase>(
    db: &D,
    owner: Function,
    diagnostic: InferenceDiagnostic,
) -> Result<NoSuchField, InferError> {
    match diagnostic {
        InferenceDiagnostic::NoSuchField { expr, field } => match db.syntax_of_field(
            owner,
            expr,
            field,
        ) {
            Some(field) => Ok(NoSuchField { file: db.file_of(owner), field }),
            None => Err(InferError::NoSuchSyntax),
        },
    }
}

/// What the user is told by several diagnostics, up to one of which the place is not
/// found.
pub open spec fn all_located<D: HirDatabase>(
    db: &D,
    owner: Function,
    diagnostics: Seq<InferenceDiagnostic>,
) -> (Seq<NoSuchField>, Result<(), InferError>)
    decreases diagnostics.len(),
{
    if diagnostics.len() == 0 {
        (Seq::empty(), Ok(()))
    } else {
        match located(db, owner, diagnostics[0]) {
            Err(e) => (Seq::empty(), Err(e)),
            Ok(first) => {
                let (rest, r) = all_located(db, owner, diagnostics.skip(1));
                (seq![first] + rest, r)
            },
        }
    }
}

impl InferenceDiagnostic {
    /// Tells the user.
    pub fn add_to<D: HirDatabase>(&self, db: &D, owner: Function, sink: &mut DiagnosticSink) -> (r:
        Result<(), InferError>)
        ensures
            match located(db, owner, *self) {
                Ok(diagnostic) => r is Ok && final(sink)@ == old(sink)@.push(diagnostic),
                Err(e) => r == Err::<(), InferError>(e) && final(sink)@ == old(sink)@,
            },
    {
        match self {
            InferenceDiagnostic::NoSuchField { expr, field } => {
                let file = db.source_file(owner);
                match db.field_syntax(owner, *expr, *field) {
                    Some(field) => {
                        sink.push(NoSuchField { file, field });
                        Ok(())
                    },
                    None => Err(InferError::NoSuchSyntax),
                }
            },
        }
    }
}

/// Tells the user all of it, in order.
pub fn add_all<D: HirDatabase>(
    diagnostics: &Vec<InferenceDiagnostic>,
    db: &D,
    owner: Function,
    sink: &mut DiagnosticSink,
) -> (r: Result<(), InferError>)
    ensures
        final(sink)@ == old(sink)@ + all_located(db, owner, diagnostics@).0,
        r == all_located(db, owner, diagnostics@).1,
{
    let ghost all = diagnostics@;
    let mut i: usize = 0;
    assert(all.skip(0) =~= all);
    while i < diagnostics.len()
        invariant
            i <= diagnostics.len(),
            all == diagnostics@,
            sink@ + all_located(db, owner, all.skip(i as int)).0 =~= old(sink)@ + all_located(
                db,
                owner,
                all,
            ).0,
            all_located(db, owner, all.skip(i as int)).1 == all_located(db, owner, all).1,
        decreases diagnostics.len() - i,
    {
        assert(all.skip(i as int)[0] == all[i as int]);
        assert(all.skip(i as int).skip(1) =~= all.skip(i + 1));
        diagnostics[i].add_to(db, owner, sink)?;
        i += 1;
    }
    Ok(())
}

} // verus!
