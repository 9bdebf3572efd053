# legend_pure (verified core)

The compiler core for the Pure modelling language, written in Verus: the
compiled model and its package tree, type expressions and multiplicities,
the ordering of declarations after their supertypes,
name and type resolution, subtyping and least upper bounds, generic
binding and substitution, overload narrowing, milestoning synthesis and
date propagation, the `.purem` header and the model walkers.

- `src/` holds the verified library; every public function states its
  result over spec functions and views, and the laws of the library stand
  there as public proof functions.
- `tests/` exercises the library on concrete values.
- `app/` is ordinary Rust around the library: the error messages and the
  framing of serialized repositories.
