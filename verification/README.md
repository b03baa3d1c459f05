# ty_infer

Type inference for the bodies of Rust functions, constants and statics: it walks through a
body and determines the type of each expression and pattern.

`infer::infer(db, def)` is the entry point. It asks a `db::HirDatabase` about the program
around the body, records what it finds out about type variables in the union-find table of
the `ena` crate, and returns a `result::InferenceResult`.

## Layout

- `defs`, `name`, `primitive`, `ty`, `body`: definitions, names, types and bodies.
- `table`, `unify`, `resolve`, `fresh`: type variables, unification, and what types stand for.
- `db`: the questions that inference asks of the program around a body.
- `context`, `maps`, `diagnostics`: what is known and recorded on the way.
- `path`, `pat`, `call`, `rules`, `expr`: the typing rules, each as a function from what is
  known before to what is known after, with the code that follows them.
- `infer_expr`, `infer`, `result`: the walk through a body, and its result.
- `laws`: what holds of inference as a whole. `records`, `pat_records` and `expr_records` hold
  the proofs on what is recorded; `solution`, `kinds`, `settled`, `agreement`, `upkeep`,
  `pat_upkeep` and `expr_upkeep` those on the variables.

Contracts are stated over mathematical values: `ty::TyModel` for a type, `table::VarModel`
for a type variable, `context::Model` for all that inference knows at some point. Where the
input breaks an assumption of inference, an `error::InferError` is returned.

What is not proved here is said where it is used: the contracts of the calls into `ena` (in
`table`), of the hash map under the hasher of `rustc-hash` (in `maps`), and of the methods of
`HirDatabase` (in `db`), which whoever implements the trait has to keep. Some laws also ask
that the database answers in the terms of the question (`upkeep::faithful`).

`app/` holds the entry points for an application that can be cancelled and that panics where
inference gives up.
