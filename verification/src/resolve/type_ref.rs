//! Resolution of types as written in source — `pkg::Name<T|m>(values)`,
//! function types `{A[1]->B[*]}`, relation types `(a: Integer[1])` and
//! units `Measure~Unit` — to type expressions.

use vstd::prelude::*;

use crate::generics::{assoc_view, names_unique, opt_te_view, strs_view, types_view};
use crate::ids::ElementId;
use crate::milestoning::str_eq;
use crate::model::{names_view, Element, PureModel};
use crate::ids::PackageId;
use crate::model::lemma_walk_path;
use crate::purem::fqn_path::{element_fqn_path, fqn_path_to_string, join_path, lemma_best_holder};
use crate::resolve::unqualified::{
    dedup_runs, errors_view, import_candidates, in_package, lookup_name, memo_sound, unqualified_outcome, CachedResolution,
    ImportScope, ResolutionError, ResolutionErrorView,
};
use crate::types::{
    consts_view, mults_view, ConstValue, ConstValueView, MultView, Multiplicity, RelationColumnTypeExpr, SourceInfo,
    SourceInfoView, TypeExpr, TypeExprView,
};

verus! {

broadcast use vstd::std_specs::vec::axiom_vec_index_decreases;

// ---------------------------------------------------------------------------
// Types as written
// ---------------------------------------------------------------------------

/// A multiplicity as written.
#[derive(Debug)]
pub enum WrittenMultiplicity {
    ZeroOrOne,
    PureOne,
    ZeroOrMany,
    Variable(String),
    OneOrMany,
    Range { lower: u32, upper: Option<u32> },
}

/// A multiplicity argument as written: a parameter name or a multiplicity.
#[derive(Debug)]
pub enum MultiplicityArgument {
    Identifier(String, SourceInfo),
    Concrete(WrittenMultiplicity, SourceInfo),
}

/// A type-variable value as written (`Varchar(200)`, `Unit('kg')`).
#[derive(Debug)]
pub enum TypeVariableValue {
    Integer(i64, SourceInfo),
    String(String, SourceInfo),
}

/// A type reference as written: an optional package, a name, type and
/// multiplicity arguments and type-variable values.
#[derive(Debug)]
pub struct TypeReference {
    pub package: Option<Vec<String>>,
    pub name: String,
    pub type_arguments: Vec<TypeReference>,
    pub multiplicity_arguments: Vec<MultiplicityArgument>,
    pub type_variable_values: Vec<TypeVariableValue>,
    pub source_info: SourceInfo,
}

/// Name the parser gives a function type written in a type-argument
/// position: its type arguments are the parameter types (each with its
/// multiplicity as first multiplicity argument) and, last, the return
/// type; its first multiplicity argument is the return multiplicity.
pub const FUNCTION_TYPE_SENTINEL: &'static str = "{FunctionType}";

/// Name the parser gives a relation type written in a parameter type:
/// each type argument is a column named as the column, with the column
/// type as first type argument and its multiplicity as first
/// multiplicity argument.
pub const RELATION_TYPE_SENTINEL: &'static str = "(RelationType)";

/// The multiplicity a written one stands for.
pub open spec fn lowered(m: WrittenMultiplicity) -> MultView {
    match m {
        WrittenMultiplicity::ZeroOrOne => MultView::ZeroOrOne,
        WrittenMultiplicity::PureOne => MultView::PureOne,
        WrittenMultiplicity::ZeroOrMany => MultView::ZeroOrMany,
        WrittenMultiplicity::Variable(n) => MultView::Variable(n@),
        WrittenMultiplicity::OneOrMany => MultView::OneOrMany,
        WrittenMultiplicity::Range { lower, upper } => MultView::Range { lower, upper },
    }
}

/// Converts a written multiplicity, one for one.
pub fn lower_multiplicity(m: &WrittenMultiplicity) -> (r: Multiplicity)
    ensures
        r@ == lowered(*m),
{
    match m {
        WrittenMultiplicity::ZeroOrOne => Multiplicity::ZeroOrOne,
        WrittenMultiplicity::PureOne => Multiplicity::PureOne,
        WrittenMultiplicity::ZeroOrMany => Multiplicity::ZeroOrMany,
        WrittenMultiplicity::Variable(name) => Multiplicity::Variable(name.clone()),
        WrittenMultiplicity::OneOrMany => Multiplicity::OneOrMany,
        WrittenMultiplicity::Range { lower, upper } => Multiplicity::Range { lower: *lower, upper: *upper },
    }
}

/// The constant a written type-variable value stands for.
pub open spec fn const_of(v: TypeVariableValue) -> ConstValueView {
    match v {
        TypeVariableValue::Integer(i, _) => ConstValueView::Integer(i),
        TypeVariableValue::String(s, _) => ConstValueView::String(s@),
    }
}

/// Converts a written type-variable value, one for one.
pub fn lower_const_value(v: &TypeVariableValue) -> (r: ConstValue)
    ensures
        r@ == const_of(*v),
{
    match v {
        TypeVariableValue::Integer(i, _) => ConstValue::Integer(*i),
        TypeVariableValue::String(s, _) => ConstValue::String(s.clone()),
    }
}

/// A multiplicity checked against the declared multiplicity parameters
/// `mps`: a parameter the enclosing element does not declare is
/// reported at `si`.
pub open spec fn validated(mps: Seq<Seq<char>>, m: MultView, si: SourceInfoView) -> (
    MultView,
    Seq<ResolutionErrorView>,
) {
    (
        m,
        match m {
            MultView::Variable(n) => if mps.contains(n) {
                Seq::empty()
            } else {
                seq![ResolutionErrorView::UndeclaredMultiplicityParameter { parameter: n, source_info: si }]
            },
            _ => Seq::empty(),
        },
    )
}

/// Lowers a written multiplicity, reporting an undeclared parameter (see
/// [`validated`]).
pub fn resolve_multiplicity_with_validation(
    m: &WrittenMultiplicity,
    span: &SourceInfo,
    multiplicity_parameters: &[String],
    errors: &mut Vec<ResolutionError>,
) -> (r: Multiplicity)
    ensures
        r@ == validated(strs_view(multiplicity_parameters@), lowered(*m), span@).0,
        errors_view(final(errors)@) == errors_view(old(errors)@) + validated(
            strs_view(multiplicity_parameters@),
            lowered(*m),
            span@,
        ).1,
{
    let result = lower_multiplicity(m);
    check_multiplicity_parameter(&result, span, multiplicity_parameters, errors);
    result
}

/// Reports `m` at `span` if it is a parameter not among the declared ones.
fn check_multiplicity_parameter(
    m: &Multiplicity,
    span: &SourceInfo,
    multiplicity_parameters: &[String],
    errors: &mut Vec<ResolutionError>,
)
    ensures
        errors_view(final(errors)@) == errors_view(old(errors)@) + validated(
            strs_view(multiplicity_parameters@),
            m@,
            span@,
        ).1,
{
    match m {
        Multiplicity::Variable(name) => {
            let mut declared = false;
            let mut i: usize = 0;
            while i < multiplicity_parameters.len()
                invariant
                    i <= multiplicity_parameters.len(),
                    declared <==> exists|j: int| 0 <= j < i && #[trigger] multiplicity_parameters@[j]@ == name@,
                decreases multiplicity_parameters.len() - i,
            {
                if str_eq(multiplicity_parameters[i].as_str(), name.as_str()) {
                    declared = true;
                }
                i = i + 1;
            }
            proof {
                if declared {
                    let j = choose|j: int| 0 <= j < multiplicity_parameters@.len() && #[trigger] multiplicity_parameters@[j]@ == name@;
                    assert(strs_view(multiplicity_parameters@)[j] == name@);
                } else {
                    assert forall|j: int| 0 <= j < strs_view(multiplicity_parameters@).len() implies strs_view(multiplicity_parameters@)[j] != name@ by {
                        assert(multiplicity_parameters@[j]@ != name@);
                    }
                }
            }
            if !declared {
                errors.push(ResolutionError::UndeclaredMultiplicityParameter {
                    parameter: name.clone(),
                    source_info: span.duplicate(),
                });
            }
            assert(errors_view(errors@) =~= errors_view(old(errors)@) + validated(
                strs_view(multiplicity_parameters@),
                m@,
                span@,
            ).1);
        },
        _ => {
            assert(errors_view(errors@) =~= errors_view(old(errors)@) + validated(
                strs_view(multiplicity_parameters@),
                m@,
                span@,
            ).1);
        },
    }
}

/// A multiplicity argument, lowered and checked.
pub open spec fn marg(mps: Seq<Seq<char>>, a: MultiplicityArgument) -> (MultView, Seq<ResolutionErrorView>) {
    match a {
        MultiplicityArgument::Identifier(n, si) => validated(mps, MultView::Variable(n@), si@),
        MultiplicityArgument::Concrete(m, si) => validated(mps, lowered(m), si@),
    }
}

/// The first multiplicity argument, lowered and checked (`[1]` when
/// there is none).
pub open spec fn first_marg(mps: Seq<Seq<char>>, s: Seq<MultiplicityArgument>) -> (
    MultView,
    Seq<ResolutionErrorView>,
) {
    if s.len() == 0 {
        (MultView::PureOne, Seq::empty())
    } else {
        marg(mps, s[0])
    }
}

/// Resolves a multiplicity argument (see [`marg`]).
fn resolve_mult_arg(
    a: &MultiplicityArgument,
    multiplicity_parameters: &[String],
    errors: &mut Vec<ResolutionError>,
) -> (r: Multiplicity)
    ensures
        r@ == marg(strs_view(multiplicity_parameters@), *a).0,
        errors_view(final(errors)@) == errors_view(old(errors)@) + marg(
            strs_view(multiplicity_parameters@),
            *a,
        ).1,
{
    match a {
        MultiplicityArgument::Identifier(name, si) => {
            let m = Multiplicity::Variable(name.clone());
            check_multiplicity_parameter(&m, si, multiplicity_parameters, errors);
            m
        },
        MultiplicityArgument::Concrete(m, si) => resolve_multiplicity_with_validation(
            m,
            si,
            multiplicity_parameters,
            errors,
        ),
    }
}


// ---------------------------------------------------------------------------
// Resolving a type reference
// ---------------------------------------------------------------------------

/// What resolving a type reference sees: the model, the section's
/// imports, the package of the element being resolved, and the type and
/// multiplicity parameters in scope.
pub struct ResolutionContext<'a> {
    pub model: &'a PureModel,
    pub import_scopes: &'a [ImportScope],
    pub self_package: Option<&'a Vec<String>>,
    pub type_parameters: &'a [String],
    pub multiplicity_parameters: &'a [String],
}

impl<'a> ResolutionContext<'a> {
    pub open spec fn self_pkg(&self) -> Option<Seq<Seq<char>>> {
        match self.self_package {
            Some(p) => Some(strs_view(p@)),
            None => None,
        }
    }

    pub open spec fn mps(&self) -> Seq<Seq<char>> {
        strs_view(self.multiplicity_parameters@)
    }

    pub open spec fn tps(&self) -> Seq<Seq<char>> {
        strs_view(self.type_parameters@)
    }

    /// What the simple name `name`, met at `si`, resolves to.
    pub open spec fn outcome(&self, name: Seq<char>, si: SourceInfoView) -> Result<ElementId, ResolutionErrorView> {
        unqualified_outcome(*self.model, self.import_scopes@, self.self_pkg(), name, si)
    }

    /// The memo of simple names agrees with these imports.
    pub open spec fn memo_ok(&self, cache: Seq<(String, CachedResolution)>) -> bool {
        &&& names_unique(cache)
        &&& memo_sound(*self.model, self.import_scopes@, self.self_pkg(), assoc_view(cache))
    }

    pub open spec fn valid(&self) -> bool {
        &&& self.model.wf()
        &&& self.model.children_resolvable()
    }
}

/// The element a qualified reference or a simple name designates, or
/// the error reported.
pub open spec fn ref_head(ctx: ResolutionContext, tr: TypeReference) -> Result<ElementId, ResolutionErrorView> {
    match tr.package {
        Some(pkg) => match in_package(*ctx.model, strs_view(pkg@), tr.name@) {
            Some(id) => Ok(id),
            None => Err(
                ResolutionErrorView::UnresolvedElement {
                    path: join_path(strs_view(pkg@).push(tr.name@)),
                    source_info: tr.source_info@,
                },
            ),
        },
        None => ctx.outcome(tr.name@, tr.source_info@),
    }
}

/// A generic class referenced with another number of type arguments than
/// it declares is reported (a class declaring none takes any number).
pub open spec fn arity_errors(m: PureModel, id: ElementId, supplied: nat, si: SourceInfoView) -> Seq<
    ResolutionErrorView,
> {
    if m.valid_id(id) {
        match m.elem(id) {
            Element::Class(c) => if c.type_parameters.len() > 0 && supplied != c.type_parameters.len() {
                seq![
                    ResolutionErrorView::MissingTypeArguments {
                        class_path: join_path(m.element_path(id)),
                        expected: c.type_parameters.len(),
                        got: supplied as usize,
                        source_info: si,
                    },
                ]
            } else {
                Seq::empty()
            },
            _ => Seq::empty(),
        }
    } else {
        Seq::empty()
    }
}

/// `Any`, standing for a type that did not resolve inside a structural type.
pub open spec fn or_any(t: Option<TypeExprView>) -> TypeExprView {
    match t {
        Some(x) => x,
        None => TypeExprView::Generic("Any"@),
    }
}

/// The first `n` multiplicity arguments, lowered and checked.
pub open spec fn margs(mps: Seq<Seq<char>>, s: Seq<MultiplicityArgument>, n: int) -> (
    Seq<MultView>,
    Seq<ResolutionErrorView>,
)
    decreases n,
{
    if n <= 0 || n > s.len() {
        (Seq::empty(), Seq::empty())
    } else {
        let p = margs(mps, s, n - 1);
        let a = marg(mps, s[n - 1]);
        (p.0.push(a.0), p.1 + a.1)
    }
}

/// The multiplicity of a column of a relation type (`[0..1]` when none
/// is written, `[*]` for a parameter name).
pub open spec fn col_mult(s: Seq<MultiplicityArgument>) -> MultView {
    if s.len() == 0 {
        MultView::ZeroOrOne
    } else {
        match s[0] {
            MultiplicityArgument::Concrete(m, _) => lowered(m),
            MultiplicityArgument::Identifier(_, _) => MultView::ZeroOrMany,
        }
    }
}

/// What a type reference resolves to (`None` when it does not) and the
/// errors reported on the way, in order.
pub open spec fn tref(ctx: ResolutionContext, tr: TypeReference) -> (
    Option<TypeExprView>,
    Seq<ResolutionErrorView>,
)
    decreases tr, tr.type_arguments.len() + 2,
{
    if tr.name@ == FUNCTION_TYPE_SENTINEL@ {
        let f = fn_sentinel(ctx, tr);
        (Some(f.0), f.1)
    } else if tr.name@ == RELATION_TYPE_SENTINEL@ {
        let c = rel_cols(ctx, tr, tr.type_arguments.len() as int);
        (Some(TypeExprView::Relation(c.0)), c.1)
    } else if tr.name@ == "?"@ {
        if tr.type_arguments.len() == 0 {
            (Some(TypeExprView::Generic("?"@)), Seq::empty())
        } else {
            let inner = tref(ctx, tr.type_arguments[0]);
            match inner.0 {
                Some(t) => (Some(TypeExprView::Relation(seq![("?"@, t, MultView::PureOne)])), inner.1),
                None => (None, inner.1),
            }
        }
    } else if tr.package is None && ctx.tps().contains(tr.name@) {
        (Some(TypeExprView::Generic(tr.name@)), Seq::empty())
    } else {
        match ref_head(ctx, tr) {
            Err(e) => (None, seq![e]),
            Ok(id) => {
                let a = targs(ctx, tr, tr.type_arguments.len() as int);
                let m = margs(ctx.mps(), tr.multiplicity_arguments@, tr.multiplicity_arguments.len() as int);
                (
                    Some(
                        TypeExprView::Named {
                            element: id,
                            type_arguments: a.0,
                            multiplicity_arguments: m.0,
                            value_arguments: tr.type_variable_values@.map_values(
                                |v: TypeVariableValue| const_of(v),
                            ),
                            source_info: Some(tr.source_info@),
                        },
                    ),
                    a.1 + m.1 + arity_errors(*ctx.model, id, a.0.len(), tr.source_info@),
                )
            },
        }
    }
}

/// The first `n` type arguments that resolve, and the errors reported.
pub open spec fn targs(ctx: ResolutionContext, tr: TypeReference, n: int) -> (
    Seq<TypeExprView>,
    Seq<ResolutionErrorView>,
)
    decreases tr, n,
{
    if n <= 0 || n > tr.type_arguments.len() {
        (Seq::empty(), Seq::empty())
    } else {
        let p = targs(ctx, tr, n - 1);
        let r = tref(ctx, tr.type_arguments[n - 1]);
        (
            match r.0 {
                Some(t) => p.0.push(t),
                None => p.0,
            },
            p.1 + r.1,
        )
    }
}

/// A function type written as a type reference: all type arguments but
/// the last are the parameters, the last is the return type, the first
/// multiplicity argument the return multiplicity.
pub open spec fn fn_sentinel(ctx: ResolutionContext, tr: TypeReference) -> (
    TypeExprView,
    Seq<ResolutionErrorView>,
)
    decreases tr, tr.type_arguments.len() + 1,
{
    let n = tr.type_arguments.len() as int;
    if n == 0 {
        (
            TypeExprView::FunctionType {
                parameters: Seq::empty(),
                return_type: Box::new(TypeExprView::Generic("Any"@)),
                return_multiplicity: MultView::ZeroOrMany,
            },
            Seq::empty(),
        )
    } else {
        let ps = fn_params(ctx, tr, n - 1);
        let r = tref(ctx, tr.type_arguments[n - 1]);
        let rm = first_marg(ctx.mps(), tr.multiplicity_arguments@);
        (
            TypeExprView::FunctionType {
                parameters: ps.0,
                return_type: Box::new(or_any(r.0)),
                return_multiplicity: rm.0,
            },
            ps.1 + r.1 + rm.1,
        )
    }
}

/// The first `n` parameters of a function type written as a type
/// reference, each with its multiplicity.
pub open spec fn fn_params(ctx: ResolutionContext, tr: TypeReference, n: int) -> (
    Seq<(TypeExprView, MultView)>,
    Seq<ResolutionErrorView>,
)
    decreases tr, n,
{
    if n <= 0 || n > tr.type_arguments.len() {
        (Seq::empty(), Seq::empty())
    } else {
        let p = fn_params(ctx, tr, n - 1);
        let a = tr.type_arguments[n - 1];
        let r = tref(ctx, a);
        let m = first_marg(ctx.mps(), a.multiplicity_arguments@);
        (p.0.push((or_any(r.0), m.0)), p.1 + r.1 + m.1)
    }
}

/// The first `n` columns of a relation type written as a type reference.
pub open spec fn rel_cols(ctx: ResolutionContext, tr: TypeReference, n: int) -> (
    Seq<(Seq<char>, TypeExprView, MultView)>,
    Seq<ResolutionErrorView>,
)
    decreases tr, n,
{
    if n <= 0 || n > tr.type_arguments.len() {
        (Seq::empty(), Seq::empty())
    } else {
        let p = rel_cols(ctx, tr, n - 1);
        let c = tr.type_arguments[n - 1];
        let r = if c.type_arguments.len() == 0 {
            (None, Seq::empty())
        } else {
            tref(ctx, c.type_arguments[0])
        };
        (p.0.push((c.name@, or_any(r.0), col_mult(c.multiplicity_arguments@))), p.1 + r.1)
    }
}


// ---------------------------------------------------------------------------
// Resolved elements are listed in a package
// ---------------------------------------------------------------------------

/// Some package lists `id` among its elements.
pub open spec fn listed(m: PureModel, id: ElementId) -> bool {
    exists|p: PackageId| m.valid_pkg(p) && #[trigger] m.holds(p, id)
}

proof fn lemma_child_elem_in_found(m: PureModel, kids: Seq<ElementId>, name: Seq<char>)
    ensures
        m.child_elem_in(kids, name) matches Some(c) ==> kids.contains(c),
    decreases kids.len(),
{
    if kids.len() > 0 {
        if m.node(kids[0]).name@ == name {
            assert(kids[0] == kids[0]);
        } else {
            lemma_child_elem_in_found(m, kids.drop_first(), name);
            if let Some(c) = m.child_elem_in(kids, name) {
                let k = choose|k: int| 0 <= k < kids.drop_first().len() && kids.drop_first()[k] == c;
                assert(kids[k + 1] == c);
            }
        }
    }
}

proof fn lemma_in_package_listed(m: PureModel, pkg: Seq<Seq<char>>, name: Seq<char>)
    requires
        m.wf(),
    ensures
        in_package(m, pkg, name) matches Some(id) ==> listed(m, id),
{
    if let Some(p) = m.walk_pkgs(m.root_package, pkg) {
        lemma_walk_path(m, m.root_package, pkg);
        lemma_child_elem_in_found(m, m.pkg(p).children_elements@, name);
        if let Some(id) = in_package(m, pkg, name) {
            assert(m.holds(p, id));
        }
    }
}

proof fn lemma_path_listed(m: PureModel, path: Seq<Seq<char>>)
    requires
        m.wf(),
    ensures
        m.spec_resolve_by_path(path) matches Some(id) ==> listed(m, id),
{
    if path.len() > 0 {
        lemma_in_package_listed(m, path.drop_last(), path.last());
    }
}

proof fn lemma_candidates_listed(m: PureModel, scopes: Seq<ImportScope>, name: Seq<char>, n: int)
    requires
        m.wf(),
    ensures
        forall|k: int|
            0 <= k < import_candidates(m, scopes, name, n).len() ==> listed(
                m,
                #[trigger] import_candidates(m, scopes, name, n)[k].1,
            ),
    decreases n,
{
    if n > 0 {
        lemma_candidates_listed(m, scopes, name, n - 1);
        lemma_in_package_listed(m, strs_view(scopes[n - 1].package@), name);
        let prev = import_candidates(m, scopes, name, n - 1);
        assert forall|k: int|
            0 <= k < import_candidates(m, scopes, name, n).len() implies listed(
                m,
                #[trigger] import_candidates(m, scopes, name, n)[k].1,
            ) by {
            if k < prev.len() {
                assert(import_candidates(m, scopes, name, n)[k] == prev[k]);
            }
        }
    }
}

proof fn lemma_dedup_within(c: Seq<(int, ElementId)>)
    ensures
        forall|k: int| 0 <= k < dedup_runs(c).len() ==> c.contains(#[trigger] dedup_runs(c)[k]),
    decreases c.len(),
{
    if c.len() > 1 {
        let d = dedup_runs(c.drop_last());
        lemma_dedup_within(c.drop_last());
        assert forall|k: int| 0 <= k < dedup_runs(c).len() implies c.contains(#[trigger] dedup_runs(c)[k]) by {
            if k < d.len() {
                assert(dedup_runs(c)[k] == d[k]);
                assert(c.drop_last().contains(d[k]));
                let j = choose|j: int| 0 <= j < c.drop_last().len() && c.drop_last()[j] == d[k];
                assert(c[j] == d[k]);
            } else {
                assert(c[c.len() - 1] == c.last());
            }
        }
    }
}

/// Whatever a simple name resolves to is listed in a package.
proof fn lemma_outcome_listed(
    m: PureModel,
    scopes: Seq<ImportScope>,
    sp: Option<Seq<Seq<char>>>,
    name: Seq<char>,
    si: SourceInfoView,
)
    requires
        m.wf(),
    ensures
        unqualified_outcome(m, scopes, sp, name, si) matches Ok(id) ==> listed(m, id),
{
    lemma_path_listed(m, seq![name]);
    let c = import_candidates(m, scopes, name, scopes.len() as int);
    lemma_candidates_listed(m, scopes, name, scopes.len() as int);
    if let Some(p) = sp {
        lemma_in_package_listed(m, p, name);
    }
    if c.len() > 1 {
        lemma_dedup_within(c);
        let d = dedup_runs(c);
        if d.len() == 1 {
            assert(c.contains(d[0]));
            let j = choose|j: int| 0 <= j < c.len() && c[j] == d[0];
            assert(listed(m, c[j].1));
        }
    } else if c.len() == 1 {
        assert(listed(m, c[0].1));
    }
}

/// A listed element has a node and a package holding it, so its
/// canonical path can be computed.
proof fn lemma_listed_path(m: PureModel, id: ElementId)
    requires
        m.wf(),
        m.children_resolvable(),
        listed(m, id),
    ensures
        m.valid_node(id),
        m.best_holder(id, m.global_packages.items.len() as nat) is Some,
{
    let p = choose|p: PackageId| m.valid_pkg(p) && #[trigger] m.holds(p, id);
    let j = choose|j: int| 0 <= j < m.pkg(p).children_elements@.len() && m.pkg(p).children_elements@[j] == id;
    assert(m.valid_node(m.pkg(p).children_elements@[j]));
    lemma_best_holder(m, id, m.global_packages.items.len() as nat);
    assert(PackageId(p.0 as int as u32) == p);
}


// ---------------------------------------------------------------------------
// Exec pieces
// ---------------------------------------------------------------------------

/// Whether `name` is among `names`.
fn contains_str(names: &[String], name: &String) -> (r: bool)
    ensures
        r == strs_view(names@).contains(name@),
{
    let mut i: usize = 0;
    while i < names.len()
        invariant
            i <= names.len(),
            forall|j: int| 0 <= j < i ==> #[trigger] names@[j]@ != name@,
        decreases names.len() - i,
    {
        if str_eq(names[i].as_str(), name.as_str()) {
            assert(strs_view(names@)[i as int] == name@);
            return true;
        }
        i = i + 1;
    }
    proof {
        if strs_view(names@).contains(name@) {
            let j = choose|j: int| 0 <= j < strs_view(names@).len() && strs_view(names@)[j] == name@;
            assert(names@[j]@ == name@);
        }
    }
    false
}

/// `pkg::name` as written.
pub(crate) fn qualified_path(pkg: &Vec<String>, name: &String) -> (r: String)
    ensures
        r@ == join_path(strs_view(pkg@).push(name@)),
{
    let mut p: Vec<String> = Vec::new();
    let mut i: usize = 0;
    while i < pkg.len()
        invariant
            i <= pkg.len(),
            p@ == pkg@.take(i as int),
        decreases pkg.len() - i,
    {
        p.push(pkg[i].clone());
        assert(p@ =~= pkg@.take(i + 1));
        i = i + 1;
    }
    assert(pkg@.take(i as int) =~= pkg@);
    p.push(name.clone());
    assert(names_view(p@) =~= strs_view(pkg@).push(name@));
    fqn_path_to_string(p.as_slice())
}

/// Lowers and checks each multiplicity argument (see [`margs`]).
fn resolve_mult_args(
    args: &Vec<MultiplicityArgument>,
    multiplicity_parameters: &[String],
    errors: &mut Vec<ResolutionError>,
) -> (r: Vec<Multiplicity>)
    ensures
        mults_view(r@) == margs(strs_view(multiplicity_parameters@), args@, args@.len() as int).0,
        errors_view(final(errors)@) == errors_view(old(errors)@) + margs(
            strs_view(multiplicity_parameters@),
            args@,
            args@.len() as int,
        ).1,
{
    let ghost mps = strs_view(multiplicity_parameters@);
    let mut r: Vec<Multiplicity> = Vec::new();
    let mut i: usize = 0;
    while i < args.len()
        invariant
            i <= args.len(),
            mps == strs_view(multiplicity_parameters@),
            mults_view(r@) == margs(mps, args@, i as int).0,
            errors_view(errors@) == errors_view(old(errors)@) + margs(mps, args@, i as int).1,
        decreases args.len() - i,
    {
        let ghost e0 = errors_view(errors@);
        let m = resolve_mult_arg(&args[i], multiplicity_parameters, errors);
        let ghost r0 = r@;
        r.push(m);
        proof {
            let a = marg(mps, args@[i as int]);
            assert(mults_view(r@) =~= mults_view(r0).push(m@));
            assert(errors_view(errors@) =~= errors_view(old(errors)@) + (margs(mps, args@, i as int).1
                + a.1));
        }
        i = i + 1;
    }
    r
}

/// Lowers each type-variable value.
fn lower_values(values: &Vec<TypeVariableValue>) -> (r: Vec<ConstValue>)
    ensures
        consts_view(r@) == values@.map_values(|v: TypeVariableValue| const_of(v)),
{
    let mut r: Vec<ConstValue> = Vec::new();
    let mut i: usize = 0;
    while i < values.len()
        invariant
            i <= values.len(),
            consts_view(r@) == values@.take(i as int).map_values(|v: TypeVariableValue| const_of(v)),
        decreases values.len() - i,
    {
        let ghost r0 = r@;
        let c = lower_const_value(&values[i]);
        r.push(c);
        assert(values@.take(i + 1) =~= values@.take(i as int).push(values@[i as int]));
        assert(consts_view(r@) =~= consts_view(r0).push(c@));
        assert(consts_view(r@) =~= values@.take(i + 1).map_values(|v: TypeVariableValue| const_of(v)));
        i = i + 1;
    }
    assert(values@.take(i as int) =~= values@);
    r
}

/// Reports a generic class referenced with the wrong number of type
/// arguments (see [`arity_errors`]).
fn check_arity(
    model: &PureModel,
    id: ElementId,
    supplied: usize,
    si: &SourceInfo,
    errors: &mut Vec<ResolutionError>,
)
    requires
        model.wf(),
        model.children_resolvable(),
        listed(*model, id),
    ensures
        errors_view(final(errors)@) == errors_view(old(errors)@) + arity_errors(
            *model,
            id,
            supplied as nat,
            si@,
        ),
{
    match model.try_get_element(id) {
        Some(Element::Class(class)) => {
            let declared = class.type_parameters.len();
            if declared > 0 && supplied != declared {
                proof {
                    lemma_listed_path(*model, id);
                }
                let path = element_fqn_path(model, id);
                let class_path = fqn_path_to_string(path.as_slice());
                let e = ResolutionError::MissingTypeArguments {
                    class_path,
                    expected: declared,
                    got: supplied,
                    source_info: si.duplicate(),
                };
                errors.push(e);
                assert(errors_view(errors@) =~= errors_view(old(errors)@) + arity_errors(
                    *model,
                    id,
                    supplied as nat,
                    si@,
                ));
            } else {
                assert(errors_view(errors@) =~= errors_view(old(errors)@) + arity_errors(
                    *model,
                    id,
                    supplied as nat,
                    si@,
                ));
            }
        },
        _ => {
            assert(errors_view(errors@) =~= errors_view(old(errors)@) + arity_errors(
                *model,
                id,
                supplied as nat,
                si@,
            ));
        },
    }
}

/// The first multiplicity argument, lowered and checked (see [`first_marg`]).
fn resolve_first_marg(
    args: &Vec<MultiplicityArgument>,
    multiplicity_parameters: &[String],
    errors: &mut Vec<ResolutionError>,
) -> (r: Multiplicity)
    ensures
        r@ == first_marg(strs_view(multiplicity_parameters@), args@).0,
        errors_view(final(errors)@) == errors_view(old(errors)@) + first_marg(
            strs_view(multiplicity_parameters@),
            args@,
        ).1,
{
    if args.len() == 0 {
        assert(errors_view(errors@) =~= errors_view(old(errors)@) + Seq::<ResolutionErrorView>::empty());
        Multiplicity::PureOne
    } else {
        resolve_mult_arg(&args[0], multiplicity_parameters, errors)
    }
}


/// Views of function-type parameters.
pub open spec fn params_view(s: Seq<(TypeExpr, Multiplicity)>) -> Seq<(TypeExprView, MultView)> {
    s.map_values(|p: (TypeExpr, Multiplicity)| (p.0@, p.1@))
}

/// Views of relation columns.
pub open spec fn columns_view(s: Seq<RelationColumnTypeExpr>) -> Seq<(Seq<char>, TypeExprView, MultView)> {
    s.map_values(|c: RelationColumnTypeExpr| (c.name@, c.type_expr@, c.multiplicity@))
}

/// `Any` in place of a type that did not resolve.
fn or_any_exec(t: Option<TypeExpr>) -> (r: TypeExpr)
    ensures
        r@ == or_any(opt_te_view(t)),
{
    match t {
        Some(x) => x,
        None => TypeExpr::Generic("Any".to_owned()),
    }
}

/// The multiplicity of a column of a relation type (see [`col_mult`]).
fn column_multiplicity(args: &Vec<MultiplicityArgument>) -> (r: Multiplicity)
    ensures
        r@ == col_mult(args@),
{
    if args.len() == 0 {
        Multiplicity::ZeroOrOne
    } else {
        match &args[0] {
            MultiplicityArgument::Concrete(m, _) => lower_multiplicity(m),
            MultiplicityArgument::Identifier(_, _) => Multiplicity::ZeroOrMany,
        }
    }
}

/// Resolves a type reference as written: a function-type or relation-type
/// encoding, the `?` wildcard, a type parameter in scope, or an element
/// named by a qualified path or a simple name (through the memo), with
/// its type arguments (those that resolve), multiplicity arguments and
/// values; a generic class given the wrong number of type arguments is
/// reported (see [`tref`]). Returns `None` when the reference does not
/// resolve; the errors reported are appended to `errors`.
pub fn resolve_type_ref(
    type_ref: &TypeReference,
    ctx: &ResolutionContext,
    cache: &mut Vec<(String, CachedResolution)>,
    errors: &mut Vec<ResolutionError>,
) -> (r: Option<TypeExpr>)
    requires
        ctx.valid(),
        ctx.memo_ok(old(cache)@),
    ensures
        ctx.memo_ok(final(cache)@),
        opt_te_view(r) == tref(*ctx, *type_ref).0,
        errors_view(final(errors)@) == errors_view(old(errors)@) + tref(*ctx, *type_ref).1,
    decreases type_ref, type_ref.type_arguments.len() + 2,
{
    if str_eq(type_ref.name.as_str(), FUNCTION_TYPE_SENTINEL) {
        let t = resolve_function_type_sentinel(type_ref, ctx, cache, errors);
        return Some(t);
    }
    if str_eq(type_ref.name.as_str(), RELATION_TYPE_SENTINEL) {
        let t = resolve_relation_type_sentinel(type_ref, ctx, cache, errors);
        return Some(t);
    }
    if str_eq(type_ref.name.as_str(), "?") {
        if type_ref.type_arguments.len() == 0 {
            assert(errors_view(errors@) =~= errors_view(old(errors)@) + Seq::<ResolutionErrorView>::empty());
            return Some(TypeExpr::Generic("?".to_owned()));
        }
        let inner = resolve_type_ref(&type_ref.type_arguments[0], ctx, cache, errors);
        match inner {
            Some(t) => {
                let col = RelationColumnTypeExpr {
                    name: "?".to_owned(),
                    type_expr: t,
                    multiplicity: Multiplicity::PureOne,
                };
                let ghost cv = (col.name@, col.type_expr@, col.multiplicity@);
                let cols = vec![col];
                let r = TypeExpr::Relation(cols);
                proof {
                    let tv = r@;
                    if let TypeExprView::Relation(s) = tv {
                        assert(s =~= seq![cv]);
                    }
                }
                return Some(r);
            },
            None => {
                return None;
            },
        }
    }
    let head = match &type_ref.package {
        Some(pkg) => {
            proof {
                lemma_in_package_listed(*ctx.model, strs_view(pkg@), type_ref.name@);
            }
            match ctx.model.resolve_in_package(pkg.as_slice(), &type_ref.name) {
                Some(id) => id,
                None => {
                    let e = ResolutionError::UnresolvedElement {
                        path: qualified_path(pkg, &type_ref.name),
                        source_info: type_ref.source_info.duplicate(),
                    };
                    errors.push(e);
                    assert(errors_view(errors@) =~= errors_view(old(errors)@) + seq![e@]);
                    return None;
                },
            }
        },
        None => {
            if contains_str(ctx.type_parameters, &type_ref.name) {
                assert(errors_view(errors@) =~= errors_view(old(errors)@) + Seq::<ResolutionErrorView>::empty());
                return Some(TypeExpr::Generic(type_ref.name.clone()));
            }
            proof {
                lemma_outcome_listed(
                    *ctx.model,
                    ctx.import_scopes@,
                    ctx.self_pkg(),
                    type_ref.name@,
                    type_ref.source_info@,
                );
            }
            let ghost e0 = errors_view(errors@);
            match lookup_name(
                &type_ref.name,
                &type_ref.source_info,
                ctx.model,
                ctx.import_scopes,
                ctx.self_package,
                cache,
                errors,
            ) {
                Some(id) => id,
                None => {
                    assert(errors_view(errors@) =~= e0 + seq![errors_view(errors@).last()]);
                    return None;
                },
            }
        },
    };
    let ghost e_head = errors_view(errors@);
    let type_arguments = resolve_type_args(type_ref, ctx, cache, errors);
    let ghost e_args = errors_view(errors@);
    let multiplicity_arguments = resolve_mult_args(
        &type_ref.multiplicity_arguments,
        ctx.multiplicity_parameters,
        errors,
    );
    let ghost e_mults = errors_view(errors@);
    let value_arguments = lower_values(&type_ref.type_variable_values);
    check_arity(ctx.model, head, type_arguments.len(), &type_ref.source_info, errors);
    let ghost targs_v = types_view(type_arguments@);
    let r = TypeExpr::Named {
        element: head,
        type_arguments,
        multiplicity_arguments,
        value_arguments,
        source_info: Some(type_ref.source_info.duplicate()),
    };
    proof {
        let tv = r@;
        if let TypeExprView::Named { type_arguments: ta, .. } = tv {
            assert(ta =~= targs_v);
        }
        let a = targs(*ctx, *type_ref, type_ref.type_arguments.len() as int);
        let m = margs(
            ctx.mps(),
            type_ref.multiplicity_arguments@,
            type_ref.multiplicity_arguments.len() as int,
        );
        assert(errors_view(errors@) =~= errors_view(old(errors)@) + (a.1 + m.1 + arity_errors(
            *ctx.model,
            head,
            a.0.len(),
            type_ref.source_info@,
        )));
    }
    Some(r)
}

/// Resolves the type arguments of a reference, keeping those that
/// resolve (see [`targs`]).
fn resolve_type_args(
    type_ref: &TypeReference,
    ctx: &ResolutionContext,
    cache: &mut Vec<(String, CachedResolution)>,
    errors: &mut Vec<ResolutionError>,
) -> (r: Vec<TypeExpr>)
    requires
        ctx.valid(),
        ctx.memo_ok(old(cache)@),
    ensures
        ctx.memo_ok(final(cache)@),
        types_view(r@) == targs(*ctx, *type_ref, type_ref.type_arguments.len() as int).0,
        errors_view(final(errors)@) == errors_view(old(errors)@) + targs(
            *ctx,
            *type_ref,
            type_ref.type_arguments.len() as int,
        ).1,
    decreases type_ref, type_ref.type_arguments.len() + 1,
{
    let mut r: Vec<TypeExpr> = Vec::new();
    let mut i: usize = 0;
    while i < type_ref.type_arguments.len()
        invariant
            i <= type_ref.type_arguments.len(),
            ctx.valid(),
            ctx.memo_ok(cache@),
            types_view(r@) == targs(*ctx, *type_ref, i as int).0,
            errors_view(errors@) == errors_view(old(errors)@) + targs(*ctx, *type_ref, i as int).1,
        decreases type_ref.type_arguments.len() - i,
    {
        let ghost e0 = errors_view(errors@);
        let ghost r0 = r@;
        let t = resolve_type_ref(&type_ref.type_arguments[i], ctx, cache, errors);
        let ghost tr_i = tref(*ctx, type_ref.type_arguments@[i as int]);
        match t {
            Some(x) => {
                let ghost xv = x@;
                r.push(x);
                assert(types_view(r@) =~= types_view(r0).push(xv));
            },
            None => {},
        }
        assert(errors_view(errors@) =~= errors_view(old(errors)@) + (targs(*ctx, *type_ref, i as int).1
            + tr_i.1));
        i = i + 1;
    }
    r
}

/// Resolves a function type written as a type reference (see
/// [`fn_sentinel`]).
fn resolve_function_type_sentinel(
    type_ref: &TypeReference,
    ctx: &ResolutionContext,
    cache: &mut Vec<(String, CachedResolution)>,
    errors: &mut Vec<ResolutionError>,
) -> (r: TypeExpr)
    requires
        ctx.valid(),
        ctx.memo_ok(old(cache)@),
    ensures
        ctx.memo_ok(final(cache)@),
        r@ == fn_sentinel(*ctx, *type_ref).0,
        errors_view(final(errors)@) == errors_view(old(errors)@) + fn_sentinel(*ctx, *type_ref).1,
    decreases type_ref, type_ref.type_arguments.len() + 1,
{
    let n = type_ref.type_arguments.len();
    if n == 0 {
        let any = or_any_exec(None);
        let r = TypeExpr::FunctionType {
            parameters: Vec::new(),
            return_type: Box::new(any),
            return_multiplicity: Multiplicity::ZeroOrMany,
        };
        proof {
            let tv = r@;
            if let TypeExprView::FunctionType { parameters: ps, return_type: rt, return_multiplicity: rm } = tv {
                assert(ps =~= Seq::<(TypeExprView, MultView)>::empty());
                assert(*rt == TypeExprView::Generic("Any"@));
                assert(rm == MultView::ZeroOrMany);
            }
            assert(tv == fn_sentinel(*ctx, *type_ref).0);
        }
        assert(errors_view(errors@) =~= errors_view(old(errors)@) + Seq::<ResolutionErrorView>::empty());
        return r;
    }
    let mut parameters: Vec<(TypeExpr, Multiplicity)> = Vec::new();
    let mut i: usize = 0;
    while i < n - 1
        invariant
            n == type_ref.type_arguments.len(),
            n > 0,
            i <= n - 1,
            ctx.valid(),
            ctx.memo_ok(cache@),
            params_view(parameters@) == fn_params(*ctx, *type_ref, i as int).0,
            errors_view(errors@) == errors_view(old(errors)@) + fn_params(*ctx, *type_ref, i as int).1,
        decreases n - 1 - i,
    {
        let a = &type_ref.type_arguments[i];
        let ghost p0 = parameters@;
        let ghost ra = tref(*ctx, *a);
        let ghost ma = first_marg(ctx.mps(), a.multiplicity_arguments@);
        let t = resolve_type_ref(a, ctx, cache, errors);
        let t = or_any_exec(t);
        let m = resolve_first_marg(&a.multiplicity_arguments, ctx.multiplicity_parameters, errors);
        let ghost pv = (t@, m@);
        parameters.push((t, m));
        assert(params_view(parameters@) =~= params_view(p0).push(pv));
        assert(errors_view(errors@) =~= errors_view(old(errors)@) + (fn_params(*ctx, *type_ref, i as int).1
            + ra.1 + ma.1));
        i = i + 1;
    }
    let ghost ps = params_view(parameters@);
    let ghost e_params = errors_view(errors@);
    let rt = resolve_type_ref(&type_ref.type_arguments[n - 1], ctx, cache, errors);
    let rt = or_any_exec(rt);
    let rm = resolve_first_marg(&type_ref.multiplicity_arguments, ctx.multiplicity_parameters, errors);
    let r = TypeExpr::FunctionType { parameters, return_type: Box::new(rt), return_multiplicity: rm };
    proof {
        let tv = r@;
        if let TypeExprView::FunctionType { parameters: pv, .. } = tv {
            assert(pv =~= ps);
        }
        let f = fn_params(*ctx, *type_ref, n - 1);
        let t = tref(*ctx, type_ref.type_arguments@[n - 1]);
        let m = first_marg(ctx.mps(), type_ref.multiplicity_arguments@);
        assert(errors_view(errors@) =~= errors_view(old(errors)@) + (f.1 + t.1 + m.1));
    }
    r
}

/// Resolves a relation type written as a type reference (see
/// [`rel_cols`]).
fn resolve_relation_type_sentinel(
    type_ref: &TypeReference,
    ctx: &ResolutionContext,
    cache: &mut Vec<(String, CachedResolution)>,
    errors: &mut Vec<ResolutionError>,
) -> (r: TypeExpr)
    requires
        ctx.valid(),
        ctx.memo_ok(old(cache)@),
    ensures
        ctx.memo_ok(final(cache)@),
        r@ == TypeExprView::Relation(rel_cols(*ctx, *type_ref, type_ref.type_arguments.len() as int).0),
        errors_view(final(errors)@) == errors_view(old(errors)@) + rel_cols(
            *ctx,
            *type_ref,
            type_ref.type_arguments.len() as int,
        ).1,
    decreases type_ref, type_ref.type_arguments.len() + 1,
{
    let mut columns: Vec<RelationColumnTypeExpr> = Vec::new();
    let mut i: usize = 0;
    while i < type_ref.type_arguments.len()
        invariant
            i <= type_ref.type_arguments.len(),
            ctx.valid(),
            ctx.memo_ok(cache@),
            columns_view(columns@) == rel_cols(*ctx, *type_ref, i as int).0,
            errors_view(errors@) == errors_view(old(errors)@) + rel_cols(*ctx, *type_ref, i as int).1,
        decreases type_ref.type_arguments.len() - i,
    {
        let c = &type_ref.type_arguments[i];
        let ghost c0 = columns@;
        let ghost e0 = errors_view(errors@);
        let t = if c.type_arguments.len() == 0 {
            None
        } else {
            resolve_type_ref(&c.type_arguments[0], ctx, cache, errors)
        };
        let ghost rr = if c.type_arguments.len() == 0 {
            (None, Seq::<ResolutionErrorView>::empty())
        } else {
            tref(*ctx, c.type_arguments@[0])
        };
        assert(opt_te_view(t) == rr.0);
        assert(errors_view(errors@) == e0 + rr.1);
        let t = or_any_exec(t);
        let m = column_multiplicity(&c.multiplicity_arguments);
        let col = RelationColumnTypeExpr { name: c.name.clone(), type_expr: t, multiplicity: m };
        let ghost cv = (col.name@, col.type_expr@, col.multiplicity@);
        columns.push(col);
        assert(columns_view(columns@) =~= columns_view(c0).push(cv));
        assert(errors_view(errors@) =~= errors_view(old(errors)@) + (rel_cols(*ctx, *type_ref, i as int).1
            + rr.1));
        i = i + 1;
    }
    let ghost cs = columns_view(columns@);
    let r = TypeExpr::Relation(columns);
    proof {
        let tv = r@;
        if let TypeExprView::Relation(s) = tv {
            assert(s =~= cs);
        }
    }
    r
}


// ---------------------------------------------------------------------------
// Type specifications
// ---------------------------------------------------------------------------

/// A possibly qualified element name as written (`pkg::Name` or `Name`).
#[derive(Debug)]
pub struct QualifiedName {
    pub package: Option<Vec<String>>,
    pub name: String,
}

/// A unit as written: `Measure~Unit`.
#[derive(Debug)]
pub struct UnitReference {
    pub measure: QualifiedName,
    pub unit: String,
    pub source_info: SourceInfo,
}

/// A column of a relation type as written: `name: Type[mult]`.
#[derive(Debug)]
pub struct RelationColumn {
    pub name: String,
    pub type_ref: TypeReference,
    pub multiplicity: Option<WrittenMultiplicity>,
}

/// A relation type as written: `(a: Integer[1], b: String)`.
#[derive(Debug)]
pub struct RelationTypeSpec {
    pub columns: Vec<RelationColumn>,
    pub source_info: SourceInfo,
}

/// A parameter of a function type as written: `Type[mult]`.
#[derive(Debug)]
pub struct FunctionTypeParameter {
    pub type_ref: TypeReference,
    pub multiplicity: WrittenMultiplicity,
    pub source_info: SourceInfo,
}

/// A function type as written: `{A[1], B[*] -> C[m]}`.
#[derive(Debug)]
pub struct FunctionTypeSpec {
    pub parameters: Vec<FunctionTypeParameter>,
    pub return_type: TypeReference,
    pub return_multiplicity: WrittenMultiplicity,
    pub source_info: SourceInfo,
}

/// A type as written in a type position.
#[derive(Debug)]
pub enum TypeSpec {
    Type(TypeReference),
    Unit(UnitReference),
    Relation(RelationTypeSpec),
    Function(FunctionTypeSpec),
}

/// Path of the metamodel class `RelationType`.
pub open spec fn relation_type_path() -> Seq<Seq<char>> {
    seq!["meta"@, "pure"@, "metamodel"@, "relation"@, "RelationType"@]
}

/// The model name of a unit: `Measure~Unit`.
pub open spec fn unit_element_name(ur: UnitReference) -> Seq<char> {
    ur.measure.name@ + "~"@ + ur.unit@
}

/// The unit a unit reference designates: in the measure's package when
/// it is qualified, else at the root.
pub open spec fn unit_target(m: PureModel, ur: UnitReference) -> Option<ElementId> {
    match ur.measure.package {
        Some(pkg) => in_package(m, strs_view(pkg@), unit_element_name(ur)),
        None => m.spec_resolve_by_path(seq![unit_element_name(ur)]),
    }
}

/// A unit reference as written in full: `pkg::Measure~Unit`.
pub open spec fn unit_display(ur: UnitReference) -> Seq<char> {
    let measure = match ur.measure.package {
        Some(pkg) => join_path(strs_view(pkg@).push(ur.measure.name@)),
        None => ur.measure.name@,
    };
    measure + "~"@ + ur.unit@
}

/// The named type `id` with no arguments, recorded at `si`.
pub open spec fn plain_named(id: ElementId, si: SourceInfoView) -> TypeExprView {
    TypeExprView::Named {
        element: id,
        type_arguments: Seq::empty(),
        multiplicity_arguments: Seq::empty(),
        value_arguments: Seq::empty(),
        source_info: Some(si),
    }
}

/// The first `n` columns of a relation type that resolve, each with its
/// multiplicity (`[0..1]` when none is written).
pub open spec fn rcols(ctx: ResolutionContext, cols: Seq<RelationColumn>, n: int) -> (
    Seq<(Seq<char>, TypeExprView, MultView)>,
    Seq<ResolutionErrorView>,
)
    decreases n,
{
    if n <= 0 || n > cols.len() {
        (Seq::empty(), Seq::empty())
    } else {
        let p = rcols(ctx, cols, n - 1);
        let c = cols[n - 1];
        let r = tref(ctx, c.type_ref);
        (
            match r.0 {
                Some(t) => p.0.push(
                    (
                        c.name@,
                        t,
                        match c.multiplicity {
                            Some(m) => lowered(m),
                            None => MultView::ZeroOrOne,
                        },
                    ),
                ),
                None => p.0,
            },
            p.1 + r.1,
        )
    }
}

/// The first `n` parameters of a function type, each with its checked
/// multiplicity.
pub open spec fn fparams(ctx: ResolutionContext, ps: Seq<FunctionTypeParameter>, n: int) -> (
    Seq<(TypeExprView, MultView)>,
    Seq<ResolutionErrorView>,
)
    decreases n,
{
    if n <= 0 || n > ps.len() {
        (Seq::empty(), Seq::empty())
    } else {
        let p = fparams(ctx, ps, n - 1);
        let a = ps[n - 1];
        let r = tref(ctx, a.type_ref);
        let m = validated(ctx.mps(), lowered(a.multiplicity), a.source_info@);
        (p.0.push((or_any(r.0), m.0)), p.1 + r.1 + m.1)
    }
}

/// What a type as written resolves to, and the errors reported: a type
/// reference (see [`tref`]); a unit, to its element; a relation type, to
/// `RelationType` over the columns that resolve (nothing when the
/// metamodel class is not loaded); a function type, structurally.
pub open spec fn tspec(ctx: ResolutionContext, ts: TypeSpec) -> (
    Option<TypeExprView>,
    Seq<ResolutionErrorView>,
) {
    match ts {
        TypeSpec::Type(tr) => tref(ctx, tr),
        TypeSpec::Unit(ur) => match unit_target(*ctx.model, ur) {
            Some(id) => (Some(plain_named(id, ur.source_info@)), Seq::empty()),
            None => (
                None,
                seq![
                    ResolutionErrorView::UnresolvedUnit {
                        path: unit_display(ur),
                        source_info: ur.source_info@,
                    },
                ],
            ),
        },
        TypeSpec::Relation(rt) => match ctx.model.spec_resolve_by_path(relation_type_path()) {
            None => (None, Seq::empty()),
            Some(id) => {
                let c = rcols(ctx, rt.columns@, rt.columns.len() as int);
                (
                    Some(
                        TypeExprView::Named {
                            element: id,
                            type_arguments: seq![TypeExprView::Relation(c.0)],
                            multiplicity_arguments: Seq::empty(),
                            value_arguments: Seq::empty(),
                            source_info: Some(rt.source_info@),
                        },
                    ),
                    c.1,
                )
            },
        },
        TypeSpec::Function(ft) => {
            let p = fparams(ctx, ft.parameters@, ft.parameters.len() as int);
            let r = tref(ctx, ft.return_type);
            let m = validated(ctx.mps(), lowered(ft.return_multiplicity), ft.source_info@);
            (
                Some(
                    TypeExprView::FunctionType {
                        parameters: p.0,
                        return_type: Box::new(or_any(r.0)),
                        return_multiplicity: m.0,
                    },
                ),
                p.1 + r.1 + m.1,
            )
        },
    }
}

/// Resolves a type as written (see [`tspec`]).
pub fn resolve_type_spec(
    type_spec: &TypeSpec,
    ctx: &ResolutionContext,
    cache: &mut Vec<(String, CachedResolution)>,
    errors: &mut Vec<ResolutionError>,
) -> (r: Option<TypeExpr>)
    requires
        ctx.valid(),
        ctx.memo_ok(old(cache)@),
    ensures
        ctx.memo_ok(final(cache)@),
        opt_te_view(r) == tspec(*ctx, *type_spec).0,
        errors_view(final(errors)@) == errors_view(old(errors)@) + tspec(*ctx, *type_spec).1,
{
    match type_spec {
        TypeSpec::Type(tr) => resolve_type_ref(tr, ctx, cache, errors),
        TypeSpec::Unit(ur) => resolve_unit(ur, ctx.model, errors),
        TypeSpec::Relation(rt) => {
            let path = crate::pipeline::path_of(&["meta", "pure", "metamodel", "relation", "RelationType"]);
            assert(names_view(path@) =~= relation_type_path());
            let rt_element = match ctx.model.resolve_by_path(path.as_slice()) {
                Some(id) => id,
                None => {
                    assert(errors_view(errors@) =~= errors_view(old(errors)@) + Seq::<ResolutionErrorView>::empty());
                    return None;
                },
            };
            let columns = resolve_relation_columns(&rt.columns, ctx, cache, errors);
            let ghost cv = columns_view(columns@);
            let inner = TypeExpr::Relation(columns);
            proof {
                let iv = inner@;
                if let TypeExprView::Relation(s) = iv {
                    assert(s =~= cv);
                }
            }
            let ghost innerv = inner@;
            let r = TypeExpr::Named {
                element: rt_element,
                type_arguments: vec![inner],
                multiplicity_arguments: Vec::new(),
                value_arguments: Vec::new(),
                source_info: Some(rt.source_info.duplicate()),
            };
            proof {
                let tv = r@;
                if let TypeExprView::Named { type_arguments: ta, multiplicity_arguments: ma, value_arguments: va, .. } = tv {
                    assert(ta =~= seq![innerv]);
                    assert(ma =~= Seq::<MultView>::empty());
                    assert(va =~= Seq::<ConstValueView>::empty());
                }
            }
            Some(r)
        },
        TypeSpec::Function(ft) => {
            let mut parameters: Vec<(TypeExpr, Multiplicity)> = Vec::new();
            let mut i: usize = 0;
            while i < ft.parameters.len()
                invariant
                    i <= ft.parameters.len(),
                    ctx.valid(),
                    ctx.memo_ok(cache@),
                    params_view(parameters@) == fparams(*ctx, ft.parameters@, i as int).0,
                    errors_view(errors@) == errors_view(old(errors)@) + fparams(*ctx, ft.parameters@, i as int).1,
                decreases ft.parameters.len() - i,
            {
                let a = &ft.parameters[i];
                let ghost p0 = parameters@;
                let ghost ra = tref(*ctx, a.type_ref);
                let ghost ma = validated(ctx.mps(), lowered(a.multiplicity), a.source_info@);
                let t = resolve_type_ref(&a.type_ref, ctx, cache, errors);
                let t = or_any_exec(t);
                let m = resolve_multiplicity_with_validation(
                    &a.multiplicity,
                    &a.source_info,
                    ctx.multiplicity_parameters,
                    errors,
                );
                let ghost pv = (t@, m@);
                parameters.push((t, m));
                assert(params_view(parameters@) =~= params_view(p0).push(pv));
                assert(errors_view(errors@) =~= errors_view(old(errors)@) + (fparams(
                    *ctx,
                    ft.parameters@,
                    i as int,
                ).1 + ra.1 + ma.1));
                i = i + 1;
            }
            let ghost ps = params_view(parameters@);
            let rt = resolve_type_ref(&ft.return_type, ctx, cache, errors);
            let rt = or_any_exec(rt);
            let rm = resolve_multiplicity_with_validation(
                &ft.return_multiplicity,
                &ft.source_info,
                ctx.multiplicity_parameters,
                errors,
            );
            let r = TypeExpr::FunctionType { parameters, return_type: Box::new(rt), return_multiplicity: rm };
            proof {
                let tv = r@;
                if let TypeExprView::FunctionType { parameters: pv, .. } = tv {
                    assert(pv =~= ps);
                }
                let f = fparams(*ctx, ft.parameters@, ft.parameters.len() as int);
                let t = tref(*ctx, ft.return_type);
                let m = validated(ctx.mps(), lowered(ft.return_multiplicity), ft.source_info@);
                assert(errors_view(errors@) =~= errors_view(old(errors)@) + (f.1 + t.1 + m.1));
            }
            Some(r)
        },
    }
}

/// Resolves a unit reference to its element, reporting it when it does
/// not resolve.
fn resolve_unit(ur: &UnitReference, model: &PureModel, errors: &mut Vec<ResolutionError>) -> (r: Option<TypeExpr>)
    requires
        model.wf(),
        model.children_resolvable(),
    ensures
        opt_te_view(r) == (match unit_target(*model, *ur) {
            Some(id) => Some(plain_named(id, ur.source_info@)),
            None => None,
        }),
        errors_view(final(errors)@) == errors_view(old(errors)@) + (match unit_target(*model, *ur) {
            Some(_) => Seq::<ResolutionErrorView>::empty(),
            None => seq![
                ResolutionErrorView::UnresolvedUnit { path: unit_display(*ur), source_info: ur.source_info@ },
            ],
        }),
{
    let mut unit_name = ur.measure.name.clone();
    unit_name.append("~");
    unit_name.append(ur.unit.as_str());
    assert(unit_name@ == unit_element_name(*ur));
    let found = match &ur.measure.package {
        Some(pkg) => model.resolve_in_package(pkg.as_slice(), &unit_name),
        None => {
            let mut path: Vec<String> = Vec::new();
            path.push(unit_name);
            assert(names_view(path@) =~= seq![unit_element_name(*ur)]);
            model.resolve_by_path(path.as_slice())
        },
    };
    match found {
        Some(id) => {
            let r = TypeExpr::Named {
                element: id,
                type_arguments: Vec::new(),
                multiplicity_arguments: Vec::new(),
                value_arguments: Vec::new(),
                source_info: Some(ur.source_info.duplicate()),
            };
            proof {
                let tv = r@;
                if let TypeExprView::Named { type_arguments: ta, multiplicity_arguments: ma, value_arguments: va, .. } = tv {
                    assert(ta =~= Seq::<TypeExprView>::empty());
                    assert(ma =~= Seq::<MultView>::empty());
                    assert(va =~= Seq::<ConstValueView>::empty());
                }
            }
            assert(errors_view(errors@) =~= errors_view(old(errors)@) + Seq::<ResolutionErrorView>::empty());
            Some(r)
        },
        None => {
            let mut display = match &ur.measure.package {
                Some(pkg) => qualified_path(pkg, &ur.measure.name),
                None => ur.measure.name.clone(),
            };
            display.append("~");
            display.append(ur.unit.as_str());
            let e = ResolutionError::UnresolvedUnit { path: display, source_info: ur.source_info.duplicate() };
            errors.push(e);
            assert(errors_view(errors@) =~= errors_view(old(errors)@) + seq![e@]);
            None
        },
    }
}

/// Resolves the columns of a relation type, keeping those whose type
/// resolves (see [`rcols`]).
fn resolve_relation_columns(
    cols: &Vec<RelationColumn>,
    ctx: &ResolutionContext,
    cache: &mut Vec<(String, CachedResolution)>,
    errors: &mut Vec<ResolutionError>,
) -> (r: Vec<RelationColumnTypeExpr>)
    requires
        ctx.valid(),
        ctx.memo_ok(old(cache)@),
    ensures
        ctx.memo_ok(final(cache)@),
        columns_view(r@) == rcols(*ctx, cols@, cols.len() as int).0,
        errors_view(final(errors)@) == errors_view(old(errors)@) + rcols(*ctx, cols@, cols.len() as int).1,
{
    let mut r: Vec<RelationColumnTypeExpr> = Vec::new();
    let mut i: usize = 0;
    while i < cols.len()
        invariant
            i <= cols.len(),
            ctx.valid(),
            ctx.memo_ok(cache@),
            columns_view(r@) == rcols(*ctx, cols@, i as int).0,
            errors_view(errors@) == errors_view(old(errors)@) + rcols(*ctx, cols@, i as int).1,
        decreases cols.len() - i,
    {
        let c = &cols[i];
        let ghost r0 = r@;
        let ghost rr = tref(*ctx, c.type_ref);
        let t = resolve_type_ref(&c.type_ref, ctx, cache, errors);
        match t {
            Some(x) => {
                let m = match &c.multiplicity {
                    Some(w) => lower_multiplicity(w),
                    None => Multiplicity::ZeroOrOne,
                };
                let col = RelationColumnTypeExpr { name: c.name.clone(), type_expr: x, multiplicity: m };
                let ghost cv = (col.name@, col.type_expr@, col.multiplicity@);
                r.push(col);
                assert(columns_view(r@) =~= columns_view(r0).push(cv));
            },
            None => {},
        }
        assert(errors_view(errors@) =~= errors_view(old(errors)@) + (rcols(*ctx, cols@, i as int).1 + rr.1));
        i = i + 1;
    }
    r
}

} // verus!
