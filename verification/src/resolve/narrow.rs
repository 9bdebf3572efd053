//! Overload narrowing: of the functions a call may dispatch to, keep
//! those whose parameters accept the arguments, then the most specific.

use vstd::prelude::*;

use crate::expr::{ExprKind, Parameter, ValueSpec};
use crate::generics::{find_binding, names_unique};
use crate::ids::{any_id, ElementId};
use crate::model::{Element, PureModel};
use crate::multiplicity::{is_multiplicity_compatible, mult_compatible, mult_specificity, specificity};
use crate::resolve::{
    column_ids_valid, columns_compatible, extract_function_type_return_mult,
    first_function_return_mult, function_return_mult, is_relation_columns_compatible, is_subtype, hierarchy_wf_from, distances_fit_to, subtype_from,
    is_type_compatible, type_distance,
};
use crate::types::{lemma_te_view_parts, MultView, Multiplicity, TypeExpr, TypeExprView};

verus! {

// ---------------------------------------------------------------------------
// What the narrowing reads of the arguments
// ---------------------------------------------------------------------------

/// The inferred type of argument `i` (unknown past the list).
pub open spec fn type_at(arg_types: Seq<Option<ElementId>>, i: int) -> Option<ElementId> {
    if 0 <= i < arg_types.len() {
        arg_types[i]
    } else {
        None
    }
}

/// The view of an optional multiplicity.
pub open spec fn opt_mult(m: Option<Multiplicity>) -> Option<MultView> {
    match m {
        Some(x) => Some(x@),
        None => None,
    }
}

/// The inferred multiplicity of argument `i` (unknown past the list).
pub open spec fn mult_at(arg_mults: Seq<Option<Multiplicity>>, i: int) -> Option<MultView> {
    if 0 <= i < arg_mults.len() {
        opt_mult(arg_mults[i])
    } else {
        None
    }
}

/// The argument is a lambda.
pub open spec fn is_lambda(a: ValueSpec) -> bool {
    *a.kind is Lambda
}

/// A lambda argument fits a parameter of function type when its body's
/// result multiplicity (`body_mult`, inferred from its last expression)
/// fits the declared one; an empty body, a parameter without a function
/// type or an unknown multiplicity is accepted, except that a `Named`
/// parameter other than `Any` without a function type rejects a lambda.
/// Anything that is not a lambda fits.
pub open spec fn lambda_fits(a: ValueSpec, body_mult: Option<Multiplicity>, param: TypeExpr) -> bool {
    match *a.kind {
        ExprKind::Lambda { body, .. } => match param {
            TypeExpr::Named { element, type_arguments, .. } => match first_function_return_mult(
                type_arguments@,
            ) {
                None => element == any_id(),
                Some(em) => body.len() == 0 || mult_compatible(opt_mult(body_mult), em@),
            },
            TypeExpr::FunctionType { return_multiplicity, .. } => body.len() == 0 || mult_compatible(
                opt_mult(body_mult),
                return_multiplicity@,
            ),
            _ => true,
        },
        _ => true,
    }
}

/// Parameter `p`, at position `i`, accepts the `i`-th argument: nominal
/// type, multiplicity, lambda result and relation columns all fit.
pub open spec fn param_fits(
    m: PureModel,
    args: Seq<ValueSpec>,
    arg_types: Seq<Option<ElementId>>,
    arg_mults: Seq<Option<Multiplicity>>,
    body_mults: Seq<Option<Multiplicity>>,
    i: int,
    p: Parameter,
) -> bool {
    &&& m.type_compatible(type_at(arg_types, i), p.type_expr@)
    &&& mult_compatible(mult_at(arg_mults, i), p.multiplicity@)
    &&& (0 <= i < args.len() ==> lambda_fits(args[i], body_mults[i], p.type_expr))
    &&& (0 <= i < args.len() ==> match args[i].type_info {
        Some(rt) => columns_compatible(m, rt.type_expr, p.type_expr),
        None => true,
    })
}

/// The candidate is a function every parameter of which accepts its
/// argument.
pub open spec fn candidate_fits(
    m: PureModel,
    args: Seq<ValueSpec>,
    arg_types: Seq<Option<ElementId>>,
    arg_mults: Seq<Option<Multiplicity>>,
    body_mults: Seq<Option<Multiplicity>>,
    eid: ElementId,
) -> bool {
    match m.elem(eid) {
        Element::Function(f) => forall|i: int|
            0 <= i < f.parameters.len() ==> #[trigger] param_fits(
                m,
                args,
                arg_types,
                arg_mults,
                body_mults,
                i,
                f.parameters@[i],
            ),
        _ => false,
    }
}

/// How specifically parameter `p` matches the `i`-th argument: 3 for the
/// same type, 1 for a subtype; 4 for the same multiplicity, else the
/// parameter multiplicity's specificity; for a lambda against a function
/// type, the specificity of its result multiplicity; 3 for a lambda
/// against a function type, 2 for a non-lambda against a non-function
/// type.
pub open spec fn param_score(
    m: PureModel,
    args: Seq<ValueSpec>,
    arg_types: Seq<Option<ElementId>>,
    arg_mults: Seq<Option<Multiplicity>>,
    i: int,
    p: Parameter,
) -> int {
    let type_part = match (type_at(arg_types, i), p.type_expr@) {
        (Some(at), TypeExprView::Named { element: pe, .. }) => if at == pe {
            3int
        } else if subtype_from(m, at, pe) {
            1int
        } else {
            0int
        },
        _ => 0int,
    };
    let mult_part = match mult_at(arg_mults, i) {
        Some(am) => if am == p.multiplicity@ {
            4int
        } else {
            specificity(p.multiplicity@) as int
        },
        None => specificity(p.multiplicity@) as int,
    };
    let lam = 0 <= i < args.len() && is_lambda(args[i]);
    let ft = function_return_mult(p.type_expr);
    let lambda_part = if lam {
        match ft {
            Some(fm) => specificity(fm@) as int,
            None => 0int,
        }
    } else {
        0int
    };
    let shape_part = if lam && ft is Some {
        3int
    } else if !lam && ft is None {
        2int
    } else {
        0int
    };
    type_part + mult_part + lambda_part + shape_part
}

/// The score of the first `n` parameters.
pub open spec fn params_score(
    m: PureModel,
    args: Seq<ValueSpec>,
    arg_types: Seq<Option<ElementId>>,
    arg_mults: Seq<Option<Multiplicity>>,
    ps: Seq<Parameter>,
    n: int,
) -> int
    decreases n,
{
    if n <= 0 {
        0
    } else {
        params_score(m, args, arg_types, arg_mults, ps, n - 1) + param_score(
            m,
            args,
            arg_types,
            arg_mults,
            n - 1,
            ps[n - 1],
        )
    }
}

/// The specificity score of a candidate function.
pub open spec fn score(
    m: PureModel,
    args: Seq<ValueSpec>,
    arg_types: Seq<Option<ElementId>>,
    arg_mults: Seq<Option<Multiplicity>>,
    eid: ElementId,
) -> int {
    match m.elem(eid) {
        Element::Function(f) => params_score(
            m,
            args,
            arg_types,
            arg_mults,
            f.parameters@,
            f.parameters.len() as int,
        ),
        _ => 0,
    }
}

// ---------------------------------------------------------------------------
// Per-candidate checks
// ---------------------------------------------------------------------------

/// The preconditions the checks of one candidate need: one inferred
/// type, multiplicity and body multiplicity per argument; each inferred
/// type in the model, with the supertypes reachable from it in the model
/// and acyclic; and the relation columns of each argument's resolved type
/// likewise.
pub open spec fn narrowing_ok(
    m: PureModel,
    args: Seq<ValueSpec>,
    arg_types: Seq<Option<ElementId>>,
    arg_mults: Seq<Option<Multiplicity>>,
    body_mults: Seq<Option<Multiplicity>>,
) -> bool {
    &&& arg_types.len() == args.len()
    &&& arg_mults.len() == args.len()
    &&& body_mults.len() == args.len()
    &&& forall|i: int|
        0 <= i < arg_types.len() ==> (#[trigger] arg_types[i] matches Some(a) ==> m.valid_id(a)
            && hierarchy_wf_from(m, a))
    &&& forall|i: int|
        0 <= i < args.len() ==> (#[trigger] args[i].type_info matches Some(rt) ==> column_ids_valid(
            m,
            rt.type_expr,
        ))
}

/// Whether the `i`-th argument fits parameter `p`.
fn param_fits_exec(
    model: &PureModel,
    args: &[ValueSpec],
    arg_types: &[Option<ElementId>],
    arg_mults: &[Option<Multiplicity>],
    body_mults: &[Option<Multiplicity>],
    i: usize,
    p: &Parameter,
) -> (r: bool)
    requires
        narrowing_ok(*model, args@, arg_types@, arg_mults@, body_mults@),
    ensures
        r == param_fits(*model, args@, arg_types@, arg_mults@, body_mults@, i as int, *p),
{
    let at: Option<ElementId> = if i < arg_types.len() {
        arg_types[i]
    } else {
        None
    };
    assert(at == type_at(arg_types@, i as int));
    if !is_type_compatible(at, &p.type_expr, model) {
        return false;
    }
    let am: Option<&Multiplicity> = if i < arg_mults.len() {
        match &arg_mults[i] {
            Some(m) => Some(m),
            None => None,
        }
    } else {
        None
    };
    assert(match am {
        Some(a) => Some(a@),
        None => None,
    } == mult_at(arg_mults@, i as int));
    if !is_multiplicity_compatible(am, &p.multiplicity) {
        return false;
    }
    if i < args.len() {
        if !is_lambda_compatible(&args[i], &body_mults[i], &p.type_expr) {
            return false;
        }
        match &args[i].type_info {
            Some(rt) => {
                if !is_relation_columns_compatible(&rt.type_expr, &p.type_expr, model) {
                    return false;
                }
            },
            None => {},
        }
    }
    true
}

/// Whether a lambda argument fits a function-typed parameter (see
/// [`lambda_fits`]).
fn is_lambda_compatible(a: &ValueSpec, body_mult: &Option<Multiplicity>, param: &TypeExpr) -> (r: bool)
    ensures
        r == lambda_fits(*a, *body_mult, *param),
{
    let empty_body = match &*a.kind {
        ExprKind::Lambda { body, .. } => body.len() == 0,
        _ => {
            return true;
        },
    };
    let bm: Option<&Multiplicity> = match body_mult {
        Some(m) => Some(m),
        None => None,
    };
    assert(match bm {
        Some(x) => Some(x@),
        None => None,
    } == opt_mult(*body_mult));
    match param {
        TypeExpr::Named { element, .. } => match extract_function_type_return_mult(param) {
            None => *element == any_id(),
            Some(em) => empty_body || is_multiplicity_compatible(bm, em),
        },
        TypeExpr::FunctionType { return_multiplicity, .. } => empty_body || is_multiplicity_compatible(
            bm,
            return_multiplicity,
        ),
        _ => true,
    }
}

/// Whether candidate `eid` is a function whose parameters all accept the
/// arguments.
fn candidate_fits_exec(
    model: &PureModel,
    eid: ElementId,
    args: &[ValueSpec],
    arg_types: &[Option<ElementId>],
    arg_mults: &[Option<Multiplicity>],
    body_mults: &[Option<Multiplicity>],
) -> (r: bool)
    requires
        narrowing_ok(*model, args@, arg_types@, arg_mults@, body_mults@),
        model.valid_id(eid),
    ensures
        r == candidate_fits(*model, args@, arg_types@, arg_mults@, body_mults@, eid),
{
    let f = match model.get_element(eid) {
        Element::Function(f) => f,
        _ => {
            return false;
        },
    };
    let mut i: usize = 0;
    while i < f.parameters.len()
        invariant
            narrowing_ok(*model, args@, arg_types@, arg_mults@, body_mults@),
            model.elem(eid) == Element::Function(*f),
            i <= f.parameters.len(),
            forall|j: int|
                0 <= j < i ==> #[trigger] param_fits(
                    *model,
                    args@,
                    arg_types@,
                    arg_mults@,
                    body_mults@,
                    j,
                    f.parameters@[j],
                ),
        decreases f.parameters.len() - i,
    {
        if !param_fits_exec(model, args, arg_types, arg_mults, body_mults, i, &f.parameters[i]) {
            return false;
        }
        i = i + 1;
    }
    true
}

/// The score of parameter `p` at position `i` (see [`param_score`]).
fn param_score_exec(
    model: &PureModel,
    args: &[ValueSpec],
    arg_types: &[Option<ElementId>],
    arg_mults: &[Option<Multiplicity>],
    i: usize,
    p: &Parameter,
) -> (r: i32)
    requires
        forall|k: int| 0 <= k < arg_types@.len() ==> (#[trigger] arg_types@[k] matches Some(a) ==> model.valid_id(a) && hierarchy_wf_from(*model, a)),
    ensures
        r as int == param_score(*model, args@, arg_types@, arg_mults@, i as int, *p),
        0 <= r <= 14,
{
    proof {
        lemma_te_view_parts(p.type_expr);
    }
    let at: Option<ElementId> = if i < arg_types.len() {
        arg_types[i]
    } else {
        None
    };
    let type_part: i32 = match (at, &p.type_expr) {
        (Some(a), TypeExpr::Named { element: pe, .. }) => {
            if a == *pe {
                3
            } else if is_subtype(a, *pe, model) {
                1
            } else {
                0
            }
        },
        _ => 0,
    };
    let am: Option<&Multiplicity> = if i < arg_mults.len() {
        match &arg_mults[i] {
            Some(m) => Some(m),
            None => None,
        }
    } else {
        None
    };
    assert(match am {
        Some(a) => Some(a@),
        None => None,
    } == mult_at(arg_mults@, i as int));
    let mult_part: i32 = match am {
        Some(m) => if m.same_as(&p.multiplicity) {
            4
        } else {
            mult_specificity(&p.multiplicity)
        },
        None => mult_specificity(&p.multiplicity),
    };
    let lam = i < args.len() && match &*args[i].kind {
        ExprKind::Lambda { .. } => true,
        _ => false,
    };
    let ft = extract_function_type_return_mult(&p.type_expr);
    let lambda_part: i32 = if lam {
        match ft {
            Some(fm) => mult_specificity(fm),
            None => 0,
        }
    } else {
        0
    };
    let shape_part: i32 = if lam && ft.is_some() {
        3
    } else if !lam && ft.is_none() {
        2
    } else {
        0
    };
    type_part + mult_part + lambda_part + shape_part
}

/// The specificity score of candidate `eid` (see [`score`]).
fn score_exec(
    model: &PureModel,
    eid: ElementId,
    args: &[ValueSpec],
    arg_types: &[Option<ElementId>],
    arg_mults: &[Option<Multiplicity>],
) -> (r: i32)
    requires
        model.valid_id(eid),
        forall|k: int| 0 <= k < arg_types@.len() ==> (#[trigger] arg_types@[k] matches Some(a) ==> model.valid_id(a) && hierarchy_wf_from(*model, a)),
        model.elem(eid) matches Element::Function(f) ==> f.parameters.len() * 14 <= i32::MAX,
    ensures
        r as int == score(*model, args@, arg_types@, arg_mults@, eid),
{
    let f = match model.get_element(eid) {
        Element::Function(f) => f,
        _ => {
            return 0;
        },
    };
    let mut total: i32 = 0;
    let mut i: usize = 0;
    while i < f.parameters.len()
        invariant
            forall|k: int| 0 <= k < arg_types@.len() ==> (#[trigger] arg_types@[k] matches Some(a) ==> model.valid_id(a) && hierarchy_wf_from(*model, a)),
            model.elem(eid) == Element::Function(*f),
            f.parameters.len() * 14 <= i32::MAX,
            i <= f.parameters.len(),
            total as int == params_score(*model, args@, arg_types@, arg_mults@, f.parameters@, i as int),
            0 <= total <= 14 * i,
        decreases f.parameters.len() - i,
    {
        let s = param_score_exec(model, args, arg_types, arg_mults, i, &f.parameters[i]);
        total = total + s;
        i = i + 1;
    }
    total
}

// ---------------------------------------------------------------------------
// Arguments that read an uninferred lambda parameter
// ---------------------------------------------------------------------------

/// `var_types` binds `name` to a type the compiler could not infer.
pub open spec fn unresolved_var(vt: Seq<(String, (TypeExpr, Multiplicity))>, name: Seq<char>) -> bool {
    exists|i: int| 0 <= i < vt.len() && #[trigger] vt[i].0@ == name && vt[i].1.0 is Unresolved
}

/// The expression reads, directly or through collection elements and
/// call arguments, a variable of uninferred type.
pub open spec fn reads_unresolved(e: ValueSpec, vt: Seq<(String, (TypeExpr, Multiplicity))>) -> bool
    decreases e, 0int,
{
    match *e.kind {
        ExprKind::Variable { name } => unresolved_var(vt, name@),
        ExprKind::Collection { elements } => any_reads_unresolved(elements@, vt, elements@.len() as int),
        ExprKind::FunctionCall(d) => any_reads_unresolved(d.arguments@, vt, d.arguments@.len() as int),
        ExprKind::PropertyCall(d) => any_reads_unresolved(d.arguments@, vt, d.arguments@.len() as int),
        ExprKind::QualifiedPropertyCall(d) => any_reads_unresolved(
            d.arguments@,
            vt,
            d.arguments@.len() as int,
        ),
        _ => false,
    }
}

/// One of the first `n` expressions reads a variable of uninferred type.
pub open spec fn any_reads_unresolved(
    s: Seq<ValueSpec>,
    vt: Seq<(String, (TypeExpr, Multiplicity))>,
    n: int,
) -> bool
    decreases s, n,
{
    if n <= 0 || n > s.len() {
        false
    } else {
        any_reads_unresolved(s, vt, n - 1) || reads_unresolved(s[n - 1], vt)
    }
}

/// Whether `e` reads a variable of uninferred type.
fn reads_unresolved_exec(e: &ValueSpec, var_types: &Vec<(String, (TypeExpr, Multiplicity))>) -> (r:
    bool)
    requires
        names_unique(var_types@),
    ensures
        r == reads_unresolved(*e, var_types@),
    decreases e, 0int,
{
    match &*e.kind {
        ExprKind::Variable { name } => {
            match find_binding(var_types, name.as_str()) {
                Some(i) => {
                    let r = match &var_types[i].1.0 {
                        TypeExpr::Unresolved => true,
                        _ => false,
                    };
                    proof {
                        if unresolved_var(var_types@, name@) {
                            let j = choose|j: int|
                                0 <= j < var_types@.len() && #[trigger] var_types@[j].0@ == name@
                                    && var_types@[j].1.0 is Unresolved;
                            if j != i {
                                if j < i {
                                    assert(var_types@[j].0@ != var_types@[i as int].0@);
                                } else {
                                    assert(var_types@[i as int].0@ != var_types@[j].0@);
                                }
                            }
                        }
                    }
                    r
                },
                None => false,
            }
        },
        ExprKind::Collection { elements } => any_reads_unresolved_exec(elements, var_types),
        ExprKind::FunctionCall(d) => any_reads_unresolved_exec(&d.arguments, var_types),
        ExprKind::PropertyCall(d) => any_reads_unresolved_exec(&d.arguments, var_types),
        ExprKind::QualifiedPropertyCall(d) => any_reads_unresolved_exec(&d.arguments, var_types),
        _ => false,
    }
}

/// Whether one of `s` reads a variable of uninferred type.
fn any_reads_unresolved_exec(s: &Vec<ValueSpec>, var_types: &Vec<(String, (TypeExpr, Multiplicity))>) -> (r:
    bool)
    requires
        names_unique(var_types@),
    ensures
        r == any_reads_unresolved(s@, var_types@, s@.len() as int),
    decreases s, 0int,
{
    let mut i: usize = 0;
    while i < s.len()
        invariant
            names_unique(var_types@),
            i <= s.len(),
            !any_reads_unresolved(s@, var_types@, i as int),
        decreases s.len() - i,
    {
        proof {
            vstd::std_specs::vec::axiom_vec_index_decreases(*s, i as int);
        }
        if reads_unresolved_exec(&s[i], var_types) {
            proof {
                lemma_any_reads_grows(s@, var_types@, i + 1, s@.len() as int);
            }
            return true;
        }
        i = i + 1;
    }
    false
}

/// Once a prefix reads an uninferred variable, every longer prefix does.
proof fn lemma_any_reads_grows(
    s: Seq<ValueSpec>,
    vt: Seq<(String, (TypeExpr, Multiplicity))>,
    n: int,
    k: int,
)
    requires
        0 < n <= k <= s.len(),
        any_reads_unresolved(s, vt, n),
    ensures
        any_reads_unresolved(s, vt, k),
    decreases k - n,
{
    if n < k {
        lemma_any_reads_grows(s, vt, n, k - 1);
    }
}

/// Whether one of the call's arguments reads a lambda parameter whose
/// type could not be inferred.
pub fn any_arg_reads_unresolved(args: &[ValueSpec], var_types: &Vec<(String, (TypeExpr, Multiplicity))>) -> (r:
    bool)
    requires
        names_unique(var_types@),
    ensures
        r == exists|k: int| 0 <= k < args@.len() && reads_unresolved(#[trigger] args@[k], var_types@),
{
    let mut i: usize = 0;
    while i < args.len()
        invariant
            names_unique(var_types@),
            i <= args.len(),
            forall|k: int| 0 <= k < i ==> !reads_unresolved(#[trigger] args@[k], var_types@),
        decreases args.len() - i,
    {
        if reads_unresolved_exec(&args[i], var_types) {
            return true;
        }
        i = i + 1;
    }
    false
}

// ---------------------------------------------------------------------------
// The narrowing
// ---------------------------------------------------------------------------

/// A candidate can be inspected: it is in the model; if a function, its
/// score fits an `i32` (each parameter adds at most 14) and its `Named`
/// parameter types are in the model, with the supertypes reachable from
/// them in the model and acyclic.
pub open spec fn cand_ok(m: PureModel, e: ElementId) -> bool {
    &&& m.valid_id(e)
    &&& m.elem(e) matches Element::Function(f) ==> {
        &&& f.parameters.len() * 14 <= i32::MAX
        &&& forall|i: int|
            0 <= i < f.parameters.len() ==> (#[trigger] f.parameters@[i].type_expr matches TypeExpr::Named {
                element,
                ..
            } ==> m.valid_id(element) && hierarchy_wf_from(m, element))
    }
}

/// Every candidate can be inspected.
pub open spec fn candidates_ok(m: PureModel, cands: Seq<ElementId>) -> bool {
    forall|k: int| 0 <= k < cands.len() ==> cand_ok(m, #[trigger] cands[k])
}

/// Every supertype distance, read on the hierarchy reachable from its
/// first element, is below `usize::MAX`, so that one more hop still fits
/// a machine word.
pub open spec fn distances_fit(m: PureModel) -> bool {
    forall|p: ElementId| #[trigger] distances_fit_to(m, p)
}

/// Every prefix sum of candidate `e`'s parameter distances (see
/// [`dist_sum`]) is below `usize::MAX`: the sum is kept in a machine word.
pub open spec fn sums_fit(m: PureModel, arg_types: Seq<Option<ElementId>>, e: ElementId) -> bool {
    m.elem(e) matches Element::Function(f) ==> forall|k: int|
        0 <= k <= f.parameters.len() && k <= arg_types.len() ==> (#[trigger] dist_sum(
            m,
            f.parameters@,
            arg_types,
            k,
        ) matches Some(t) ==> t < usize::MAX)
}

/// The candidates accepting the arguments.
pub open spec fn fits_pred(
    m: PureModel,
    args: Seq<ValueSpec>,
    arg_types: Seq<Option<ElementId>>,
    arg_mults: Seq<Option<Multiplicity>>,
    body_mults: Seq<Option<Multiplicity>>,
) -> spec_fn(ElementId) -> bool {
    |e: ElementId| candidate_fits(m, args, arg_types, arg_mults, body_mults, e)
}

/// The candidates of score `best`.
pub open spec fn score_pred(
    m: PureModel,
    args: Seq<ValueSpec>,
    arg_types: Seq<Option<ElementId>>,
    arg_mults: Seq<Option<Multiplicity>>,
    best: int,
) -> spec_fn(ElementId) -> bool {
    |e: ElementId| score(m, args, arg_types, arg_mults, e) == best
}

/// The largest score among `s`.
pub open spec fn max_score(
    m: PureModel,
    args: Seq<ValueSpec>,
    arg_types: Seq<Option<ElementId>>,
    arg_mults: Seq<Option<Multiplicity>>,
    s: Seq<ElementId>,
) -> int
    decreases s.len(),
{
    if s.len() == 0 {
        0
    } else if s.len() == 1 {
        score(m, args, arg_types, arg_mults, s[0])
    } else {
        let rest = max_score(m, args, arg_types, arg_mults, s.drop_last());
        let x = score(m, args, arg_types, arg_mults, s.last());
        if x > rest {
            x
        } else {
            rest
        }
    }
}

/// A parameter type at least as specific as another at the same
/// position: a `Named` type equal to or below a `Named` one, a `Named`
/// type against a type parameter, and any pair not involving a `Named`
/// type; a type parameter is not as specific as a `Named` type.
pub open spec fn position_dominates(m: PureModel, a: TypeExpr, b: TypeExpr) -> bool {
    match (a, b) {
        (TypeExpr::Named { element: x, .. }, TypeExpr::Named { element: y, .. }) => x == y || subtype_from(
            m,
            x,
            y,
        ),
        (TypeExpr::Named { .. }, TypeExpr::Generic(_)) => true,
        (TypeExpr::Generic(_), TypeExpr::Named { .. }) => false,
        _ => true,
    }
}

/// Function `a` is at least as specific as `b` at every position both have.
pub open spec fn dominates(m: PureModel, a: ElementId, b: ElementId) -> bool {
    match (m.elem(a), m.elem(b)) {
        (Element::Function(fa), Element::Function(fb)) => forall|k: int|
            0 <= k < fa.parameters.len() && 0 <= k < fb.parameters.len() ==> #[trigger] position_dominates(
                m,
                fa.parameters@[k].type_expr,
                fb.parameters@[k].type_expr,
            ),
        _ => false,
    }
}

/// Marking done by candidate `i` from position `j` on: each candidate it
/// dominates, other than itself and those already marked, is marked.
pub open spec fn dom_row(m: PureModel, t: Seq<ElementId>, d: Seq<bool>, i: int, j: int) -> Seq<bool>
    decreases t.len() - j,
{
    if j >= t.len() || j < 0 {
        d
    } else {
        let d2 = if j != i && !d[j] && dominates(m, t[i], t[j]) {
            d.update(j, true)
        } else {
            d
        };
        dom_row(m, t, d2, i, j + 1)
    }
}

/// The marks after the first `i` candidates have had their turn, in
/// order; a marked candidate marks nothing.
pub open spec fn dom_upto(m: PureModel, t: Seq<ElementId>, i: int) -> Seq<bool>
    decreases i,
{
    if i <= 0 {
        Seq::new(t.len(), |k: int| false)
    } else {
        let d = dom_upto(m, t, i - 1);
        if d[i - 1] {
            d
        } else {
            dom_row(m, t, d, i - 1, 0)
        }
    }
}

/// The unmarked among the first `n` candidates.
pub open spec fn undominated(t: Seq<ElementId>, d: Seq<bool>, n: int) -> Seq<ElementId>
    decreases n,
{
    if n <= 0 {
        Seq::empty()
    } else {
        undominated(t, d, n - 1) + if d[n - 1] {
            Seq::empty()
        } else {
            seq![t[n - 1]]
        }
    }
}

/// The summed supertype distance from the first `n` argument types to
/// the parameter types (100 for an unrelated pair); none when a pair has
/// a non-`Named` parameter type or an unknown argument type.
pub open spec fn dist_sum(
    m: PureModel,
    ps: Seq<Parameter>,
    arg_types: Seq<Option<ElementId>>,
    n: int,
) -> Option<int>
    decreases n,
{
    if n <= 0 {
        Some(0)
    } else {
        match dist_sum(m, ps, arg_types, n - 1) {
            None => None,
            Some(t) => match (ps[n - 1].type_expr, arg_types[n - 1]) {
                (TypeExpr::Named { element, .. }, Some(a)) => Some(
                    t + match m.distance(a, element) {
                        Some(d) => d as int,
                        None => 100int,
                    },
                ),
                _ => None,
            },
        }
    }
}

/// The distance of a candidate function over the positions both its
/// parameters and the arguments have.
pub open spec fn candidate_distance(m: PureModel, arg_types: Seq<Option<ElementId>>, e: ElementId) -> Option<
    int,
> {
    match m.elem(e) {
        Element::Function(f) => dist_sum(
            m,
            f.parameters@,
            arg_types,
            if f.parameters.len() < arg_types.len() {
                f.parameters.len() as int
            } else {
                arg_types.len() as int
            },
        ),
        _ => None,
    }
}

/// Candidate `i` has a distance, strictly smaller than every other
/// candidate's that has one.
pub open spec fn is_unique_closest(m: PureModel, arg_types: Seq<Option<ElementId>>, r: Seq<ElementId>, i: int) -> bool {
    &&& 0 <= i < r.len()
    &&& candidate_distance(m, arg_types, r[i]) is Some
    &&& forall|j: int|
        0 <= j < r.len() && j != i && (#[trigger] candidate_distance(m, arg_types, r[j])) is Some
            ==> candidate_distance(m, arg_types, r[j])->0 > candidate_distance(m, arg_types, r[i])->0
}

/// The position of the unique closest candidate, if there is one.
pub open spec fn closest(m: PureModel, arg_types: Seq<Option<ElementId>>, r: Seq<ElementId>) -> Option<int> {
    if exists|i: int| is_unique_closest(m, arg_types, r, i) {
        Some(choose|i: int| is_unique_closest(m, arg_types, r, i))
    } else {
        None
    }
}

/// The overloads kept for a call. With at most one candidate, all of
/// them. Otherwise the candidates accepting the arguments (all of them if
/// none does); of several, those of the best score; of several, those no
/// other dominates (all candidates if none is left); of several, the
/// unique closest by supertype distance, or else all of them when an
/// argument reads a lambda parameter of uninferred type, or else the
/// first.
pub open spec fn narrowed(
    m: PureModel,
    cands: Seq<ElementId>,
    args: Seq<ValueSpec>,
    arg_types: Seq<Option<ElementId>>,
    arg_mults: Seq<Option<Multiplicity>>,
    body_mults: Seq<Option<Multiplicity>>,
    vt: Seq<(String, (TypeExpr, Multiplicity))>,
) -> Seq<ElementId> {
    if cands.len() <= 1 {
        cands
    } else {
        let compat = cands.filter(fits_pred(m, args, arg_types, arg_mults, body_mults));
        if compat.len() == 0 {
            cands
        } else if compat.len() == 1 {
            compat
        } else {
            let best = max_score(m, args, arg_types, arg_mults, compat);
            let tied = compat.filter(score_pred(m, args, arg_types, arg_mults, best));
            if tied.len() <= 1 {
                tied
            } else {
                let kept = undominated(tied, dom_upto(m, tied, tied.len() as int), tied.len() as int);
                if kept.len() == 0 {
                    cands
                } else if kept.len() == 1 {
                    kept
                } else {
                    match closest(m, arg_types, kept) {
                        Some(i) => seq![kept[i]],
                        None => if exists|k: int| 0 <= k < args.len() && reads_unresolved(#[trigger] args[k], vt) {
                            kept
                        } else {
                            seq![kept[0]]
                        },
                    }
                }
            }
        }
    }
}

/// A copy of the candidate list.
fn copy_ids(s: &[ElementId]) -> (r: Vec<ElementId>)
    ensures
        r@ == s@,
{
    let mut r: Vec<ElementId> = Vec::new();
    let mut i: usize = 0;
    while i < s.len()
        invariant
            i <= s.len(),
            r@ == s@.take(i as int),
        decreases s.len() - i,
    {
        r.push(s[i]);
        assert(r@ =~= s@.take(i + 1));
        i = i + 1;
    }
    assert(s@.take(s.len() as int) =~= s@);
    r
}

/// The candidates accepting the arguments, in order.
fn keep_fitting(
    model: &PureModel,
    candidates: &[ElementId],
    args: &[ValueSpec],
    arg_types: &[Option<ElementId>],
    arg_mults: &[Option<Multiplicity>],
    body_mults: &[Option<Multiplicity>],
) -> (r: Vec<ElementId>)
    requires
        narrowing_ok(*model, args@, arg_types@, arg_mults@, body_mults@),
        candidates_ok(*model, candidates@),
    ensures
        r@ == candidates@.filter(fits_pred(*model, args@, arg_types@, arg_mults@, body_mults@)),
        candidates_ok(*model, r@),
{
    let ghost pred = fits_pred(*model, args@, arg_types@, arg_mults@, body_mults@);
    let mut r: Vec<ElementId> = Vec::new();
    let mut i: usize = 0;
    proof {
        reveal(Seq::filter);
        assert(candidates@.take(0) =~= Seq::<ElementId>::empty());
    }
    while i < candidates.len()
        invariant
            narrowing_ok(*model, args@, arg_types@, arg_mults@, body_mults@),
            candidates_ok(*model, candidates@),
            pred == fits_pred(*model, args@, arg_types@, arg_mults@, body_mults@),
            i <= candidates.len(),
            r@ == candidates@.take(i as int).filter(pred),
            candidates_ok(*model, r@),
        decreases candidates.len() - i,
    {
        proof {
            reveal(Seq::filter);
            assert(candidates@.take(i + 1).drop_last() =~= candidates@.take(i as int));
            assert(candidates@.take(i + 1).last() == candidates@[i as int]);
            assert(cand_ok(*model, candidates@[i as int]));
        }
        let e = candidates[i];
        if candidate_fits_exec(model, e, args, arg_types, arg_mults, body_mults) {
            r.push(e);
        }
        i = i + 1;
    }
    assert(candidates@.take(candidates.len() as int) =~= candidates@);
    r
}

/// The candidates of the best score, in order.
fn keep_best(
    model: &PureModel,
    compat: &Vec<ElementId>,
    args: &[ValueSpec],
    arg_types: &[Option<ElementId>],
    arg_mults: &[Option<Multiplicity>],
) -> (r: Vec<ElementId>)
    requires
        forall|k: int| 0 <= k < arg_types@.len() ==> (#[trigger] arg_types@[k] matches Some(a) ==> model.valid_id(a) && hierarchy_wf_from(*model, a)),
        candidates_ok(*model, compat@),
    ensures
        r@ == compat@.filter(
            score_pred(*model, args@, arg_types@, arg_mults@, max_score(*model, args@, arg_types@, arg_mults@, compat@)),
        ),
        candidates_ok(*model, r@),
{
    let mut scores: Vec<i32> = Vec::new();
    let mut best: i32 = 0;
    let mut i: usize = 0;
    while i < compat.len()
        invariant
            forall|k: int| 0 <= k < arg_types@.len() ==> (#[trigger] arg_types@[k] matches Some(a) ==> model.valid_id(a) && hierarchy_wf_from(*model, a)),
            candidates_ok(*model, compat@),
            i <= compat.len(),
            scores.len() == i,
            forall|k: int| 0 <= k < i ==> #[trigger] scores@[k] as int == score(*model, args@, arg_types@, arg_mults@, compat@[k]),
            i > 0 ==> best as int == max_score(*model, args@, arg_types@, arg_mults@, compat@.take(i as int)),
        decreases compat.len() - i,
    {
        assert(cand_ok(*model, compat@[i as int]));
        let sc_i = score_exec(model, compat[i], args, arg_types, arg_mults);
        proof {
            let t = compat@.take(i + 1);
            assert(t.drop_last() =~= compat@.take(i as int));
            assert(t.last() == compat@[i as int]);
            if i == 0 {
                assert(t[0] == compat@[0]);
            }
        }
        if i == 0 || sc_i > best {
            best = sc_i;
        }
        scores.push(sc_i);
        i = i + 1;
    }
    assert(compat@.take(compat.len() as int) =~= compat@);
    let ghost pred = score_pred(*model, args@, arg_types@, arg_mults@, best as int);
    let mut r: Vec<ElementId> = Vec::new();
    let mut i: usize = 0;
    proof {
        reveal(Seq::filter);
        assert(compat@.take(0) =~= Seq::<ElementId>::empty());
    }
    while i < compat.len()
        invariant
            candidates_ok(*model, compat@),
            scores.len() == compat.len(),
            forall|k: int| 0 <= k < compat.len() ==> #[trigger] scores@[k] as int == score(*model, args@, arg_types@, arg_mults@, compat@[k]),
            pred == score_pred(*model, args@, arg_types@, arg_mults@, best as int),
            i <= compat.len(),
            r@ == compat@.take(i as int).filter(pred),
            candidates_ok(*model, r@),
        decreases compat.len() - i,
    {
        proof {
            reveal(Seq::filter);
            assert(compat@.take(i + 1).drop_last() =~= compat@.take(i as int));
            assert(compat@.take(i + 1).last() == compat@[i as int]);
            assert(cand_ok(*model, compat@[i as int]));
        }
        if scores[i] == best {
            r.push(compat[i]);
        }
        i = i + 1;
    }
    assert(compat@.take(compat.len() as int) =~= compat@);
    proof {
        if compat.len() == 0 {
            assert(compat@.filter(pred) =~= Seq::<ElementId>::empty()) by {
                reveal(Seq::filter);
            }
            assert(compat@.filter(score_pred(*model, args@, arg_types@, arg_mults@, max_score(*model, args@, arg_types@, arg_mults@, compat@))) =~= Seq::<ElementId>::empty()) by {
                reveal(Seq::filter);
            }
        }
    }
    r
}

/// Whether candidate `a` dominates candidate `b` (see [`dominates`]).
fn dominates_exec(model: &PureModel, a: ElementId, b: ElementId) -> (r: bool)
    requires
        cand_ok(*model, a),
        cand_ok(*model, b),
    ensures
        r == dominates(*model, a, b),
{
    let (fa, fb) = match (model.get_element(a), model.get_element(b)) {
        (Element::Function(fa), Element::Function(fb)) => (fa, fb),
        _ => {
            return false;
        },
    };
    let n = if fa.parameters.len() < fb.parameters.len() {
        fa.parameters.len()
    } else {
        fb.parameters.len()
    };
    let mut k: usize = 0;
    while k < n
        invariant
            cand_ok(*model, a),
            model.elem(a) == Element::Function(*fa),
            model.elem(b) == Element::Function(*fb),
            n <= fa.parameters.len(),
            n <= fb.parameters.len(),
            k <= n,
            forall|j: int|
                0 <= j < k ==> #[trigger] position_dominates(
                    *model,
                    fa.parameters@[j].type_expr,
                    fb.parameters@[j].type_expr,
                ),
        decreases n - k,
    {
        let ok = match (&fa.parameters[k].type_expr, &fb.parameters[k].type_expr) {
            (TypeExpr::Named { element: x, .. }, TypeExpr::Named { element: y, .. }) => {
                *x == *y || is_subtype(*x, *y, model)
            },
            (TypeExpr::Named { .. }, TypeExpr::Generic(_)) => true,
            (TypeExpr::Generic(_), TypeExpr::Named { .. }) => false,
            _ => true,
        };
        assert(ok == position_dominates(
            *model,
            fa.parameters@[k as int].type_expr,
            fb.parameters@[k as int].type_expr,
        ));
        if !ok {
            return false;
        }
        k = k + 1;
    }
    true
}

/// The marks left once every candidate has had its turn (see [`dom_upto`]).
fn dominance_marks(model: &PureModel, tied: &Vec<ElementId>) -> (d: Vec<bool>)
    requires
        candidates_ok(*model, tied@),
    ensures
        d@ == dom_upto(*model, tied@, tied.len() as int),
{
    let n = tied.len();
    let mut d: Vec<bool> = Vec::new();
    let mut k: usize = 0;
    while k < n
        invariant
            k <= n,
            d@ == Seq::new(k as nat, |x: int| false),
        decreases n - k,
    {
        d.push(false);
        assert(d@ =~= Seq::new((k + 1) as nat, |x: int| false));
        k = k + 1;
    }
    let mut i: usize = 0;
    while i < n
        invariant
            candidates_ok(*model, tied@),
            n == tied.len(),
            i <= n,
            d@ == dom_upto(*model, tied@, i as int),
            d.len() == n,
        decreases n - i,
    {
        proof {
            lemma_dom_upto_len(*model, tied@, i as int);
        }
        let ghost start = d@;
        if !d[i] {
            let mut j: usize = 0;
            while j < n
                invariant
                    candidates_ok(*model, tied@),
                    n == tied.len(),
                    i < n,
                    j <= n,
                    d.len() == n,
                    dom_row(*model, tied@, start, i as int, 0) == dom_row(*model, tied@, d@, i as int, j as int),
                decreases n - j,
            {
                assert(cand_ok(*model, tied@[i as int]));
                assert(cand_ok(*model, tied@[j as int]));
                if j != i && !d[j] && dominates_exec(model, tied[i], tied[j]) {
                    d.set(j, true);
                }
                j = j + 1;
            }
        }
        i = i + 1;
    }
    d
}

/// `dom_row` and `dom_upto` keep the length of the marks.
proof fn lemma_dom_row_len(m: PureModel, t: Seq<ElementId>, d: Seq<bool>, i: int, j: int)
    requires
        d.len() == t.len(),
    ensures
        dom_row(m, t, d, i, j).len() == t.len(),
    decreases t.len() - j,
{
    if 0 <= j < t.len() {
        let d2 = if j != i && !d[j] && dominates(m, t[i], t[j]) {
            d.update(j, true)
        } else {
            d
        };
        lemma_dom_row_len(m, t, d2, i, j + 1);
    }
}

proof fn lemma_dom_upto_len(m: PureModel, t: Seq<ElementId>, i: int)
    ensures
        dom_upto(m, t, i).len() == t.len(),
    decreases i,
{
    if i > 0 {
        lemma_dom_upto_len(m, t, i - 1);
        let d = dom_upto(m, t, i - 1);
        lemma_dom_row_len(m, t, d, i - 1, 0);
    }
}

/// The unmarked candidates, in order.
fn keep_undominated(tied: &Vec<ElementId>, d: &Vec<bool>) -> (r: Vec<ElementId>)
    requires
        d.len() == tied.len(),
    ensures
        r@ == undominated(tied@, d@, tied.len() as int),
        forall|k: int| 0 <= k < r@.len() ==> tied@.contains(#[trigger] r@[k]),
{
    let mut r: Vec<ElementId> = Vec::new();
    let mut i: usize = 0;
    while i < tied.len()
        invariant
            d.len() == tied.len(),
            i <= tied.len(),
            r@ == undominated(tied@, d@, i as int),
            forall|k: int| 0 <= k < r@.len() ==> tied@.contains(#[trigger] r@[k]),
        decreases tied.len() - i,
    {
        let ghost before = r@;
        if !d[i] {
            r.push(tied[i]);
            assert(tied@.contains(tied@[i as int]));
        }
        assert(r@ =~= undominated(tied@, d@, i + 1));
        i = i + 1;
    }
    r
}

/// The summed supertype distance of candidate `e` (see
/// [`candidate_distance`]).
fn distance_of(model: &PureModel, arg_types: &[Option<ElementId>], e: ElementId) -> (r: Option<u64>)
    requires
        distances_fit(*model),
        cand_ok(*model, e),
        sums_fit(*model, arg_types@, e),
        forall|k: int| 0 <= k < arg_types@.len() ==> (#[trigger] arg_types@[k] matches Some(a) ==> model.valid_id(a) && hierarchy_wf_from(*model, a)),
    ensures
        match r {
            Some(t) => candidate_distance(*model, arg_types@, e) == Some(t as int) && t < usize::MAX,
            None => candidate_distance(*model, arg_types@, e) is None,
        },
{
    let f = match model.get_element(e) {
        Element::Function(f) => f,
        _ => {
            return None;
        },
    };
    let n = if f.parameters.len() < arg_types.len() {
        f.parameters.len()
    } else {
        arg_types.len()
    };
    let mut total: u64 = 0;
    let mut k: usize = 0;
    while k < n
        invariant
            distances_fit(*model),
            cand_ok(*model, e),
            sums_fit(*model, arg_types@, e),
            forall|j: int| 0 <= j < arg_types@.len() ==> (#[trigger] arg_types@[j] matches Some(a) ==> model.valid_id(a) && hierarchy_wf_from(*model, a)),
            model.elem(e) == Element::Function(*f),
            n == (if f.parameters.len() < arg_types.len() {
                f.parameters.len()
            } else {
                arg_types.len()
            }),
            k <= n,
            dist_sum(*model, f.parameters@, arg_types@, k as int) == Some(total as int),
            total < usize::MAX,
        decreases n - k,
    {
        let step: u64 = match (&f.parameters[k].type_expr, arg_types[k]) {
            (TypeExpr::Named { element, .. }, Some(a)) => {
                proof {
                    assert(f.parameters@[k as int].type_expr matches TypeExpr::Named { .. });
                    assert(distances_fit_to(*model, *element));
                }
                match type_distance(a, *element, model) {
                    Some(d) => {
                        assert(model.distance(a, *element) == Some(d as nat));
                        d as u64
                    },
                    None => 100,
                }
            },
            _ => {
                proof {
                    assert(dist_sum(*model, f.parameters@, arg_types@, k + 1) is None);
                    lemma_dist_sum_none(*model, f.parameters@, arg_types@, k + 1, n as int);
                }
                return None;
            },
        };
        assert(dist_sum(*model, f.parameters@, arg_types@, k + 1) == Some(total + step));
        assert(total + step < usize::MAX);
        total = total + step;
        k = k + 1;
    }
    Some(total)
}

/// Once a prefix has no distance, no longer prefix has one.
proof fn lemma_dist_sum_none(
    m: PureModel,
    ps: Seq<Parameter>,
    arg_types: Seq<Option<ElementId>>,
    k: int,
    n: int,
)
    requires
        0 <= k <= n,
        dist_sum(m, ps, arg_types, k) is None,
    ensures
        dist_sum(m, ps, arg_types, n) is None,
    decreases n - k,
{
    if k < n {
        lemma_dist_sum_none(m, ps, arg_types, k, n - 1);
    }
}

/// The position of the unique closest candidate, if any (see
/// [`closest`]).
fn pick_closest(model: &PureModel, arg_types: &[Option<ElementId>], kept: &Vec<ElementId>) -> (r:
    Option<usize>)
    requires
        distances_fit(*model),
        candidates_ok(*model, kept@),
        forall|k: int| 0 <= k < kept@.len() ==> sums_fit(*model, arg_types@, #[trigger] kept@[k]),
        forall|k: int| 0 <= k < arg_types@.len() ==> (#[trigger] arg_types@[k] matches Some(a) ==> model.valid_id(a) && hierarchy_wf_from(*model, a)),
    ensures
        match r {
            Some(i) => closest(*model, arg_types@, kept@) == Some(i as int),
            None => closest(*model, arg_types@, kept@) is None,
        },
{
    let mut best: u64 = u64::MAX;
    let mut best_idx: usize = 0;
    let mut unique = true;
    let mut found = false;
    let mut i: usize = 0;
    while i < kept.len()
        invariant
            distances_fit(*model),
            candidates_ok(*model, kept@),
            forall|k: int| 0 <= k < kept@.len() ==> sums_fit(*model, arg_types@, #[trigger] kept@[k]),
            forall|k: int| 0 <= k < arg_types@.len() ==> (#[trigger] arg_types@[k] matches Some(a) ==> model.valid_id(a) && hierarchy_wf_from(*model, a)),
            i <= kept.len(),
            found <==> exists|j: int| 0 <= j < i && (#[trigger] candidate_distance(*model, arg_types@, kept@[j])) is Some,
            !found ==> best == u64::MAX && unique,
            found ==> {
                &&& best_idx < i
                &&& candidate_distance(*model, arg_types@, kept@[best_idx as int]) == Some(best as int)
                &&& best < usize::MAX
                &&& forall|j: int| 0 <= j < i && (#[trigger] candidate_distance(*model, arg_types@, kept@[j])) is Some ==> candidate_distance(*model, arg_types@, kept@[j])->0 >= best
                &&& (unique <==> forall|j: int|
                    0 <= j < i && j != best_idx && (#[trigger] candidate_distance(*model, arg_types@, kept@[j])) is Some ==> candidate_distance(*model, arg_types@, kept@[j])->0 > best)
            },
        decreases kept.len() - i,
    {
        assert(cand_ok(*model, kept@[i as int]));
        assert(sums_fit(*model, arg_types@, kept@[i as int]));
        match distance_of(model, arg_types, kept[i]) {
            Some(t) => {
                assert(candidate_distance(*model, arg_types@, kept@[i as int]) == Some(t as int));
                if t < best {
                    best = t;
                    best_idx = i;
                    unique = true;
                    found = true;
                } else if t == best {
                    unique = false;
                }
            },
            None => {
                assert(candidate_distance(*model, arg_types@, kept@[i as int]) is None);
            },
        }
        i = i + 1;
    }
    proof {
        if found && unique {
            assert(is_unique_closest(*model, arg_types@, kept@, best_idx as int));
            let c = choose|x: int| is_unique_closest(*model, arg_types@, kept@, x);
            assert(is_unique_closest(*model, arg_types@, kept@, c));
            if c != best_idx {
                assert(candidate_distance(*model, arg_types@, kept@[c]) is Some);
            }
        } else {
            assert forall|x: int| !is_unique_closest(*model, arg_types@, kept@, x) by {
                if is_unique_closest(*model, arg_types@, kept@, x) {
                    assert(candidate_distance(*model, arg_types@, kept@[x]) is Some);
                    if found {
                        let w = choose|j: int|
                            0 <= j < kept.len() && j != best_idx && (#[trigger] candidate_distance(*model, arg_types@, kept@[j])) is Some
                                && !(candidate_distance(*model, arg_types@, kept@[j])->0 > best);
                        if x != best_idx {
                            assert(candidate_distance(*model, arg_types@, kept@[best_idx as int]) is Some);
                        } else {
                            assert(candidate_distance(*model, arg_types@, kept@[w]) is Some);
                        }
                    }
                }
            }
        }
    }
    if found && unique && best < u64::MAX {
        Some(best_idx)
    } else {
        None
    }
}

/// Narrows the overloads a call may dispatch to (see [`narrowed`]):
/// candidates whose parameters reject the arguments are dropped, then
/// the most specific by score, then those no other dominates, then the
/// unique closest by supertype distance, and finally the first declared
/// (unless an argument reads a lambda parameter of uninferred type, when
/// the ambiguity is kept for the caller to report). `arg_types`,
/// `arg_mults` and `body_mults` are what inference found of each
/// argument: its type, its multiplicity and, for a lambda, the
/// multiplicity of its body's last expression.
pub fn narrow_candidates_by_type(
    candidates: &[ElementId],
    lowered_args: &[ValueSpec],
    arg_types: &[Option<ElementId>],
    arg_mults: &[Option<Multiplicity>],
    body_mults: &[Option<Multiplicity>],
    model: &PureModel,
    var_types: &Vec<(String, (TypeExpr, Multiplicity))>,
) -> (r: Vec<ElementId>)
    requires
        narrowing_ok(*model, lowered_args@, arg_types@, arg_mults@, body_mults@),
        candidates_ok(*model, candidates@),
        forall|k: int| 0 <= k < candidates@.len() ==> sums_fit(*model, arg_types@, #[trigger] candidates@[k]),
        distances_fit(*model),
        names_unique(var_types@),
    ensures
        r@ == narrowed(
            *model,
            candidates@,
            lowered_args@,
            arg_types@,
            arg_mults@,
            body_mults@,
            var_types@,
        ),
{
    if candidates.len() <= 1 {
        return copy_ids(candidates);
    }
    let compatible = keep_fitting(model, candidates, lowered_args, arg_types, arg_mults, body_mults);
    if compatible.len() == 0 {
        return copy_ids(candidates);
    }
    if compatible.len() == 1 {
        return compatible;
    }
    let tied = keep_best(model, &compatible, lowered_args, arg_types, arg_mults);
    if tied.len() <= 1 {
        return tied;
    }
    let marks = dominance_marks(model, &tied);
    proof {
        lemma_dom_upto_len(*model, tied@, tied.len() as int);
    }
    let result = keep_undominated(&tied, &marks);
    if result.len() == 0 {
        return copy_ids(candidates);
    }
    if result.len() == 1 {
        return result;
    }
    proof {
        assert forall|k: int| 0 <= k < result@.len() implies cand_ok(*model, #[trigger] result@[k]) by {
            let j = choose|j: int| 0 <= j < tied@.len() && tied@[j] == result@[k];
            assert(cand_ok(*model, tied@[j]));
        }
        assert forall|k: int| 0 <= k < result@.len() implies sums_fit(
            *model,
            arg_types@,
            #[trigger] result@[k],
        ) by {
            let x = result@[k];
            assert(tied@.contains(x));
            lemma_filter_within(
                compatible@,
                score_pred(
                    *model,
                    lowered_args@,
                    arg_types@,
                    arg_mults@,
                    max_score(*model, lowered_args@, arg_types@, arg_mults@, compatible@),
                ),
                x,
            );
            lemma_filter_within(
                candidates@,
                fits_pred(*model, lowered_args@, arg_types@, arg_mults@, body_mults@),
                x,
            );
            let j = choose|j: int| 0 <= j < candidates@.len() && candidates@[j] == x;
            assert(sums_fit(*model, arg_types@, candidates@[j]));
        }
    }
    match pick_closest(model, arg_types, &result) {
        Some(i) => {
            let mut one: Vec<ElementId> = Vec::new();
            one.push(result[i]);
            assert(one@ =~= seq![result@[i as int]]);
            one
        },
        None => {
            if any_arg_reads_unresolved(lowered_args, var_types) {
                result
            } else {
                let mut one: Vec<ElementId> = Vec::new();
                one.push(result[0]);
                assert(one@ =~= seq![result@[0]]);
                one
            }
        },
    }
}

/// A filtered list holds only elements of the list.
proof fn lemma_filter_within(s: Seq<ElementId>, pred: spec_fn(ElementId) -> bool, x: ElementId)
    requires
        s.filter(pred).contains(x),
    ensures
        s.contains(x),
    decreases s.len(),
{
    reveal(Seq::filter);
    if s.len() > 0 {
        let sub = s.drop_last().filter(pred);
        if sub.contains(x) {
            lemma_filter_within(s.drop_last(), pred, x);
            let k = choose|k: int| 0 <= k < s.drop_last().len() && s.drop_last()[k] == x;
            assert(s[k] == x);
        } else {
            assert(x == s.last());
            assert(s[s.len() - 1] == x);
        }
    }
}

/// Some element of a non-empty list has the largest score.
proof fn lemma_max_attained(
    m: PureModel,
    args: Seq<ValueSpec>,
    arg_types: Seq<Option<ElementId>>,
    arg_mults: Seq<Option<Multiplicity>>,
    s: Seq<ElementId>,
) -> (k: int)
    requires
        s.len() > 0,
    ensures
        0 <= k < s.len(),
        score(m, args, arg_types, arg_mults, s[k]) == max_score(m, args, arg_types, arg_mults, s),
    decreases s.len(),
{
    if s.len() == 1 {
        0
    } else {
        let j = lemma_max_attained(m, args, arg_types, arg_mults, s.drop_last());
        let rest = max_score(m, args, arg_types, arg_mults, s.drop_last());
        if score(m, args, arg_types, arg_mults, s.last()) > rest {
            s.len() - 1
        } else {
            assert(s[j] == s.drop_last()[j]);
            j
        }
    }
}

/// The unmarked candidates are candidates.
proof fn lemma_undominated_within(t: Seq<ElementId>, d: Seq<bool>, n: int, x: ElementId)
    requires
        n <= t.len(),
        undominated(t, d, n).contains(x),
    ensures
        t.contains(x),
    decreases n,
{
    if n > 0 {
        let prev = undominated(t, d, n - 1);
        if prev.contains(x) {
            lemma_undominated_within(t, d, n - 1, x);
        } else {
            let k = choose|k: int| 0 <= k < undominated(t, d, n).len() && undominated(t, d, n)[k] == x;
            assert(k >= prev.len());
            assert(t[n - 1] == x);
        }
    }
}

/// Narrowing never invents an overload and never drops them all: every
/// function it keeps is one of the candidates, and it keeps at least one
/// when there is any.
pub proof fn lemma_narrowed_within(
    m: PureModel,
    cands: Seq<ElementId>,
    args: Seq<ValueSpec>,
    arg_types: Seq<Option<ElementId>>,
    arg_mults: Seq<Option<Multiplicity>>,
    body_mults: Seq<Option<Multiplicity>>,
    vt: Seq<(String, (TypeExpr, Multiplicity))>,
)
    ensures
        forall|x: ElementId|
            #[trigger] narrowed(m, cands, args, arg_types, arg_mults, body_mults, vt).contains(x)
                ==> cands.contains(x),
        cands.len() > 0 ==> narrowed(m, cands, args, arg_types, arg_mults, body_mults, vt).len() > 0,
{
    let r = narrowed(m, cands, args, arg_types, arg_mults, body_mults, vt);
    if cands.len() > 1 {
        let fp = fits_pred(m, args, arg_types, arg_mults, body_mults);
        let compat = cands.filter(fp);
        if compat.len() > 1 {
            let best = max_score(m, args, arg_types, arg_mults, compat);
            let sp = score_pred(m, args, arg_types, arg_mults, best);
            let tied = compat.filter(sp);
            let k = lemma_max_attained(m, args, arg_types, arg_mults, compat);
            compat.lemma_filter_contains(sp, k);
            let kept = undominated(tied, dom_upto(m, tied, tied.len() as int), tied.len() as int);
            assert forall|x: ElementId| r.contains(x) implies cands.contains(x) by {
                if tied.len() <= 1 {
                    lemma_filter_within(compat, sp, x);
                    lemma_filter_within(cands, fp, x);
                } else if kept.len() == 0 {
                } else {
                    assert(kept.contains(x)) by {
                        if kept.len() > 1 {
                            match closest(m, arg_types, kept) {
                                Some(i) => {
                                    assert(is_unique_closest(m, arg_types, kept, i));
                                    assert(x == kept[i]);
                                },
                                None => {
                                    if !exists|k: int| 0 <= k < args.len() && reads_unresolved(#[trigger] args[k], vt) {
                                        assert(x == kept[0]);
                                    }
                                },
                            }
                        }
                    }
                    lemma_undominated_within(tied, dom_upto(m, tied, tied.len() as int), tied.len() as int, x);
                    lemma_filter_within(compat, sp, x);
                    lemma_filter_within(cands, fp, x);
                }
            }
        } else {
            assert forall|x: ElementId| r.contains(x) implies cands.contains(x) by {
                if compat.len() == 1 {
                    lemma_filter_within(cands, fp, x);
                }
            }
        }
    }
}

} // verus!
