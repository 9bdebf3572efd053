//! Element-id traversal: rewrites every element reference inside a type
//! expression through a caller-supplied mapping. Relocating a model slice
//! into a different chunk numbering is one such mapping.

use vstd::prelude::*;

use std::rc::Rc;

use crate::expr::{
    DateValue, ExprKind, FunctionCallData, Parameter, PathStep, RelationColumnLowered, ResolvedType,
    ValueSpec,
};
use crate::ids::ElementId;
use crate::model::{names_view, Element};
use crate::nodes::{
    Association, Class, Constraint, EnumValue, Enumeration, Function, Measure, PrimitiveType, Property,
    QualifiedProperty, StereotypeRef, TaggedValueRef, Unit,
};
use crate::types::{source_view, te_view, Multiplicity, RelationColumnTypeExpr, TypeExpr, TypeExprView};

verus! {

broadcast use vstd::std_specs::vec::axiom_vec_index_decreases;

/// `b` is `a` with every element reference `e` replaced by an output of
/// `visit` on `e`; everything else is unchanged.
pub open spec fn type_ids_mapped<F: Fn(ElementId) -> ElementId>(
    visit: F,
    a: TypeExprView,
    b: TypeExprView,
) -> bool
    decreases a,
{
    match a {
        TypeExprView::Named {
            element,
            type_arguments,
            multiplicity_arguments,
            value_arguments,
            source_info,
        } => match b {
            TypeExprView::Named {
                element: e2,
                type_arguments: t2,
                multiplicity_arguments: m2,
                value_arguments: v2,
                source_info: s2,
            } => {
                &&& call_ensures(visit, (element,), e2)
                &&& t2.len() == type_arguments.len()
                &&& forall|i: int|
                    0 <= i < type_arguments.len() ==> type_ids_mapped(
                        visit,
                        type_arguments[i],
                        #[trigger] t2[i],
                    )
                &&& m2 == multiplicity_arguments
                &&& v2 == value_arguments
                &&& s2 == source_info
            },
            _ => false,
        },
        TypeExprView::FunctionType { parameters, return_type, return_multiplicity } => match b {
            TypeExprView::FunctionType {
                parameters: p2,
                return_type: r2,
                return_multiplicity: rm2,
            } => {
                &&& p2.len() == parameters.len()
                &&& forall|i: int|
                    0 <= i < parameters.len() ==> type_ids_mapped(
                        visit,
                        parameters[i].0,
                        (#[trigger] p2[i]).0,
                    ) && p2[i].1 == parameters[i].1
                &&& type_ids_mapped(visit, *return_type, *r2)
                &&& rm2 == return_multiplicity
            },
            _ => false,
        },
        TypeExprView::AlgebraUnion(x, y) => match b {
            TypeExprView::AlgebraUnion(x2, y2) => type_ids_mapped(visit, *x, *x2) && type_ids_mapped(
                visit,
                *y,
                *y2,
            ),
            _ => false,
        },
        TypeExprView::Relation(cols) => match b {
            TypeExprView::Relation(c2) => {
                &&& c2.len() == cols.len()
                &&& forall|i: int|
                    0 <= i < cols.len() ==> type_ids_mapped(visit, cols[i].1, (#[trigger] c2[i]).1)
                        && c2[i].0 == cols[i].0 && c2[i].2 == cols[i].2
            },
            _ => false,
        },
        _ => b == a,
    }
}

fn map_columns<F: Fn(ElementId) -> ElementId>(v: &Vec<RelationColumnTypeExpr>, visit: &F) -> (r: Vec<
    RelationColumnTypeExpr,
>)
    requires
        forall|e: ElementId| call_requires(*visit, (e,)),
    ensures
        r.len() == v.len(),
        forall|j: int|
            0 <= j < v.len() ==> type_ids_mapped(
                *visit,
                te_view(v@[j].type_expr),
                te_view(#[trigger] r@[j].type_expr),
            ) && r@[j].name@ == v@[j].name@ && r@[j].multiplicity@ == v@[j].multiplicity@,
    decreases v,
{
    let mut r: Vec<RelationColumnTypeExpr> = Vec::new();
    let mut i: usize = 0;
    while i < v.len()
        invariant
            forall|e: ElementId| call_requires(*visit, (e,)),
            i <= v.len(),
            r.len() == i,
            forall|j: int|
                0 <= j < i ==> type_ids_mapped(
                    *visit,
                    te_view(v@[j].type_expr),
                    te_view(#[trigger] r@[j].type_expr),
                ) && r@[j].name@ == v@[j].name@ && r@[j].multiplicity@ == v@[j].multiplicity@,
        decreases v.len() - i,
    {
        proof {
            vstd::std_specs::vec::axiom_vec_index_decreases(*v, i as int);
        }
        let t = map_type(&v[i].type_expr, visit);
        let c = RelationColumnTypeExpr {
            name: v[i].name.clone(),
            type_expr: t,
            multiplicity: v[i].multiplicity.duplicate(),
        };
        r.push(c);
        i = i + 1;
    }
    r
}

fn map_types<F: Fn(ElementId) -> ElementId>(v: &Vec<TypeExpr>, visit: &F) -> (r: Vec<TypeExpr>)
    requires
        forall|e: ElementId| call_requires(*visit, (e,)),
    ensures
        r.len() == v.len(),
        forall|j: int|
            0 <= j < v.len() ==> type_ids_mapped(*visit, te_view(v@[j]), #[trigger] te_view(r@[j])),
    decreases v,
{
    let mut r: Vec<TypeExpr> = Vec::new();
    let mut i: usize = 0;
    while i < v.len()
        invariant
            forall|e: ElementId| call_requires(*visit, (e,)),
            i <= v.len(),
            r.len() == i,
            forall|j: int|
                0 <= j < i ==> type_ids_mapped(*visit, te_view(v@[j]), #[trigger] te_view(r@[j])),
        decreases v.len() - i,
    {
        proof {
            vstd::std_specs::vec::axiom_vec_index_decreases(*v, i as int);
        }
        r.push(map_type(&v[i], visit));
        i = i + 1;
    }
    r
}

fn map_params<F: Fn(ElementId) -> ElementId>(
    v: &Vec<(TypeExpr, Multiplicity)>,
    visit: &F,
) -> (r: Vec<(TypeExpr, Multiplicity)>)
    requires
        forall|e: ElementId| call_requires(*visit, (e,)),
    ensures
        r.len() == v.len(),
        forall|j: int|
            0 <= j < v.len() ==> type_ids_mapped(*visit, te_view(v@[j].0), te_view(#[trigger] r@[j].0))
                && r@[j].1@ == v@[j].1@,
    decreases v,
{
    let mut r: Vec<(TypeExpr, Multiplicity)> = Vec::new();
    let mut i: usize = 0;
    while i < v.len()
        invariant
            forall|e: ElementId| call_requires(*visit, (e,)),
            i <= v.len(),
            r.len() == i,
            forall|j: int|
                0 <= j < i ==> type_ids_mapped(*visit, te_view(v@[j].0), te_view(#[trigger] r@[j].0))
                    && r@[j].1@ == v@[j].1@,
        decreases v.len() - i,
    {
        proof {
            vstd::std_specs::vec::axiom_vec_index_decreases(*v, i as int);
        }
        let t = map_type(&v[i].0, visit);
        let m = v[i].1.duplicate();
        r.push((t, m));
        i = i + 1;
    }
    r
}

/// `ty` with every element reference passed through `visit`.
fn map_type<F: Fn(ElementId) -> ElementId>(ty: &TypeExpr, visit: &F) -> (r: TypeExpr)
    requires
        forall|e: ElementId| call_requires(*visit, (e,)),
    ensures
        type_ids_mapped(*visit, ty@, r@),
    decreases ty,
{
    match ty {
        TypeExpr::Named {
            element,
            type_arguments,
            multiplicity_arguments,
            value_arguments,
            source_info,
        } => {
            let e = visit(*element);
            let ta = map_types(type_arguments, visit);
            let ma = crate::types::dup_mults(multiplicity_arguments);
            let va = crate::types::dup_consts(value_arguments);
            let si = crate::types::dup_source(source_info);
            let r = TypeExpr::Named {
                element: e,
                type_arguments: ta,
                multiplicity_arguments: ma,
                value_arguments: va,
                source_info: si,
            };
            proof {
                let a = te_view(*ty);
                let b = te_view(r);
                assert forall|i: int| 0 <= i < a->type_arguments.len() implies type_ids_mapped(
                    *visit,
                    a->type_arguments[i],
                    #[trigger] b->type_arguments[i],
                ) by {
                    assert(a->type_arguments[i] == te_view(type_arguments@[i]));
                    assert(b->type_arguments[i] == te_view(ta@[i]));
                }
                assert(b->multiplicity_arguments =~= a->multiplicity_arguments);
                assert(b->value_arguments =~= a->value_arguments);
            }
            r
        },
        TypeExpr::FunctionType { parameters, return_type, return_multiplicity } => {
            let ps = map_params(parameters, visit);
            let rt = map_type(&**return_type, visit);
            let rm = return_multiplicity.duplicate();
            let r = TypeExpr::FunctionType {
                parameters: ps,
                return_type: Box::new(rt),
                return_multiplicity: rm,
            };
            proof {
                let a = te_view(*ty);
                let b = te_view(r);
                assert forall|i: int| 0 <= i < a->parameters.len() implies type_ids_mapped(
                    *visit,
                    a->parameters[i].0,
                    (#[trigger] b->parameters[i]).0,
                ) && b->parameters[i].1 == a->parameters[i].1 by {
                    assert(a->parameters[i] == (te_view(parameters@[i].0), parameters@[i].1@));
                    assert(b->parameters[i] == (te_view(ps@[i].0), ps@[i].1@));
                }
            }
            r
        },
        TypeExpr::AlgebraUnion(x, y) => {
            let x2 = map_type(&**x, visit);
            let y2 = map_type(&**y, visit);
            TypeExpr::AlgebraUnion(Box::new(x2), Box::new(y2))
        },
        TypeExpr::Relation(cols) => {
            let cs = map_columns(cols, visit);
            let r = TypeExpr::Relation(cs);
            proof {
                let a = te_view(*ty);
                let b = te_view(r);
                if let TypeExprView::Relation(ca) = a {
                    if let TypeExprView::Relation(cb) = b {
                        assert forall|i: int| 0 <= i < ca.len() implies type_ids_mapped(
                            *visit,
                            ca[i].1,
                            (#[trigger] cb[i]).1,
                        ) && cb[i].0 == ca[i].0 && cb[i].2 == ca[i].2 by {
                            assert(ca[i] == (cols@[i].name@, te_view(cols@[i].type_expr), cols@[i].multiplicity@));
                            assert(cb[i] == (cs@[i].name@, te_view(cs@[i].type_expr), cs@[i].multiplicity@));
                        }
                    }
                }
            }
            r
        },
        _ => ty.duplicate(),
    }
}

/// Passes every element reference inside `ty` through `visit`, in place:
/// the named element and, recursively, type arguments, function-type
/// parameters and return types, the types of relation columns, and both
/// sides of a union. Generics and unresolved types hold no references.
pub fn walk_type<F: Fn(ElementId) -> ElementId>(ty: &mut TypeExpr, visit: &F)
    requires
        forall|e: ElementId| call_requires(*visit, (e,)),
    ensures
        type_ids_mapped(*visit, old(ty)@, final(ty)@),
{
    let r = map_type(ty, visit);
    *ty = r;
}

/// A visitor that hands every id back unchanged leaves a type expression
/// as it was: walking with the identity mapping is a no-op.
pub proof fn lemma_identity_walk_type<F: Fn(ElementId) -> ElementId>(
    visit: F,
    a: TypeExprView,
    b: TypeExprView,
)
    requires
        forall|e: ElementId, y: ElementId| call_ensures(visit, (e,), y) ==> y == e,
        type_ids_mapped(visit, a, b),
    ensures
        b == a,
    decreases a,
{
    match a {
        TypeExprView::Named { type_arguments, .. } => {
            match b {
                TypeExprView::Named { type_arguments: t2, .. } => {
                    assert forall|i: int| 0 <= i < type_arguments.len() implies t2[i]
                        == type_arguments[i] by {
                        lemma_identity_walk_type(visit, type_arguments[i], t2[i]);
                    }
                    assert(t2 =~= type_arguments);
                },
                _ => {},
            }
        },
        TypeExprView::FunctionType { parameters, return_type, .. } => {
            match b {
                TypeExprView::FunctionType { parameters: p2, return_type: r2, .. } => {
                    assert forall|i: int| 0 <= i < parameters.len() implies p2[i] == parameters[i] by {
                        lemma_identity_walk_type(visit, parameters[i].0, p2[i].0);
                    }
                    assert(p2 =~= parameters);
                    lemma_identity_walk_type(visit, *return_type, *r2);
                },
                _ => {},
            }
        },
        TypeExprView::AlgebraUnion(x, y) => {
            match b {
                TypeExprView::AlgebraUnion(x2, y2) => {
                    lemma_identity_walk_type(visit, *x, *x2);
                    lemma_identity_walk_type(visit, *y, *y2);
                },
                _ => {},
            }
        },
        TypeExprView::Relation(cols) => {
            match b {
                TypeExprView::Relation(c2) => {
                    assert forall|i: int| 0 <= i < cols.len() implies c2[i] == cols[i] by {
                        lemma_identity_walk_type(visit, cols[i].1, c2[i].1);
                    }
                    assert(c2 =~= cols);
                },
                _ => {},
            }
        },
        _ => {},
    }
}

/// An optional element reference, passed through `visit`.
pub open spec fn opt_id_mapped<F: Fn(ElementId) -> ElementId>(
    visit: F,
    a: Option<ElementId>,
    b: Option<ElementId>,
) -> bool {
    match (a, b) {
        (Some(x), Some(y)) => call_ensures(visit, (x,), y),
        (None, None) => true,
        _ => false,
    }
}

/// A parameter with its type's references passed through `visit`.
pub open spec fn param_mapped<F: Fn(ElementId) -> ElementId>(visit: F, a: Parameter, b: Parameter) -> bool {
    &&& b.name@ == a.name@
    &&& type_ids_mapped(visit, a.type_expr@, b.type_expr@)
    &&& b.multiplicity@ == a.multiplicity@
    &&& source_view(b.source_info) == source_view(a.source_info)
}

/// A relation column with its element passed through `visit`.
pub open spec fn column_mapped<F: Fn(ElementId) -> ElementId>(
    visit: F,
    a: RelationColumnLowered,
    b: RelationColumnLowered,
) -> bool {
    &&& b.name@ == a.name@
    &&& call_ensures(visit, (a.type_element,), b.type_element)
    &&& b.multiplicity@ == a.multiplicity@
}

/// `b` is the expression `a` with every element reference passed
/// through `visit`: in its inferred type and throughout its node.
pub open spec fn value_mapped<F: Fn(ElementId) -> ElementId>(visit: F, a: ValueSpec, b: ValueSpec) -> bool
    decreases a, 1nat,
{
    &&& b.source_info@ == a.source_info@
    &&& match (a.type_info, b.type_info) {
        (None, None) => true,
        (Some(x), Some(y)) => type_ids_mapped(visit, x.type_expr@, y.type_expr@) && y.multiplicity@
            == x.multiplicity@,
        _ => false,
    }
    &&& kind_mapped(visit, *a.kind, *b.kind)
}

/// Call data with the callee and every argument mapped.
pub open spec fn call_mapped<F: Fn(ElementId) -> ElementId>(
    visit: F,
    a: FunctionCallData,
    b: FunctionCallData,
) -> bool
    decreases a, 0nat,
{
    &&& opt_id_mapped(visit, a.function, b.function)
    &&& b.function_name@ == a.function_name@
    &&& b.arguments.len() == a.arguments.len()
    &&& forall|i: int|
        0 <= i < a.arguments.len() ==> value_mapped(visit, a.arguments@[i], #[trigger] b.arguments@[i])
}

/// An expression node with every element reference mapped.
pub open spec fn kind_mapped<F: Fn(ElementId) -> ElementId>(visit: F, a: ExprKind, b: ExprKind) -> bool
    decreases a, 0nat,
{
    match a {
        ExprKind::FunctionCall(d) => b matches ExprKind::FunctionCall(e) && call_mapped(visit, d, e),
        ExprKind::PropertyCall(d) => b matches ExprKind::PropertyCall(e) && call_mapped(visit, d, e),
        ExprKind::QualifiedPropertyCall(d) => b matches ExprKind::QualifiedPropertyCall(e) && call_mapped(
            visit,
            d,
            e,
        ),
        ExprKind::EnumValue { enum_element, value } => b matches ExprKind::EnumValue {
            enum_element: e2,
            value: v2,
        } && call_ensures(visit, (enum_element,), e2) && v2@ == value@,
        ExprKind::Lambda { parameters, body } => b matches ExprKind::Lambda {
            parameters: p2,
            body: b2,
        } && p2.len() == parameters.len() && (forall|i: int|
            0 <= i < parameters.len() ==> param_mapped(visit, parameters@[i], #[trigger] p2@[i]))
            && b2.len() == body.len() && (forall|i: int|
            0 <= i < body.len() ==> value_mapped(visit, body@[i], #[trigger] b2@[i])),
        ExprKind::Collection { elements } => b matches ExprKind::Collection { elements: e2 }
            && e2.len() == elements.len() && (forall|i: int|
            0 <= i < elements.len() ==> value_mapped(visit, elements@[i], #[trigger] e2@[i])),
        ExprKind::TypeReference { type_expr } => b matches ExprKind::TypeReference {
            type_expr: t2,
        } && type_ids_mapped(visit, type_expr@, t2@),
        ExprKind::MultiplicityReference { multiplicity } => b matches ExprKind::MultiplicityReference {
            multiplicity: m2,
        } && m2@ == multiplicity@,
        ExprKind::PackageableElementRef { element } => b matches ExprKind::PackageableElementRef {
            element: e2,
        } && call_ensures(visit, (element,), e2),
        ExprKind::RelationLiteral { columns } => b matches ExprKind::RelationLiteral { columns: c2 }
            && c2.len() == columns.len() && (forall|i: int|
            0 <= i < columns.len() ==> column_mapped(visit, columns@[i], #[trigger] c2@[i])),
        ExprKind::ColSpecArrayLiteral { columns, names } => b matches ExprKind::ColSpecArrayLiteral {
            columns: c2,
            names: n2,
        } && c2.len() == columns.len() && (forall|i: int|
            0 <= i < columns.len() ==> column_mapped(visit, columns@[i], #[trigger] c2@[i]))
            && names_view(n2@) == names_view(names@),
        ExprKind::ColSpecLiteral { column, name } => b matches ExprKind::ColSpecLiteral {
            column: c2,
            name: n2,
        } && column_mapped(visit, column, c2) && n2@ == name@,
        ExprKind::PathLiteral { start_type, steps } => b matches ExprKind::PathLiteral {
            start_type: t2,
            steps: s2,
        } && type_ids_mapped(visit, start_type@, t2@) && s2.len() == steps.len() && (forall|i: int|
            0 <= i < steps.len() ==> step_mapped(visit, steps@[i], #[trigger] s2@[i])),
        _ => b == a,
    }
}

/// A path step with its parameters mapped.
pub open spec fn step_mapped<F: Fn(ElementId) -> ElementId>(visit: F, a: PathStep, b: PathStep) -> bool
    decreases a, 0nat,
{
    &&& b.name@ == a.name@
    &&& b.parameters.len() == a.parameters.len()
    &&& forall|i: int|
        0 <= i < a.parameters.len() ==> value_mapped(
            visit,
            a.parameters@[i],
            #[trigger] b.parameters@[i],
        )
}

fn dup_date(d: &DateValue) -> (r: DateValue)
    ensures
        r == *d,
{
    match d {
        DateValue::StrictDate(s) => DateValue::StrictDate(s.clone()),
        DateValue::DateTime(s) => DateValue::DateTime(s.clone()),
        DateValue::StrictTime(s) => DateValue::StrictTime(s.clone()),
        DateValue::Latest => DateValue::Latest,
    }
}

fn dup_names(v: &Vec<String>) -> (r: Vec<String>)
    ensures
        r@ == v@,
{
    let mut r: Vec<String> = Vec::new();
    let mut i: usize = 0;
    while i < v.len()
        invariant
            i <= v.len(),
            r@ == v@.take(i as int),
        decreases v.len() - i,
    {
        r.push(v[i].clone());
        assert(r@ =~= v@.take(i + 1));
        i = i + 1;
    }
    assert(v@.take(i as int) =~= v@);
    r
}

fn map_param<F: Fn(ElementId) -> ElementId>(p: &Parameter, visit: &F) -> (r: Parameter)
    requires
        forall|e: ElementId| call_requires(*visit, (e,)),
    ensures
        param_mapped(*visit, *p, r),
{
    Parameter {
        name: p.name.clone(),
        type_expr: map_type(&p.type_expr, visit),
        multiplicity: p.multiplicity.duplicate(),
        source_info: crate::types::dup_source(&p.source_info),
    }
}

fn map_param_list<F: Fn(ElementId) -> ElementId>(v: &Vec<Parameter>, visit: &F) -> (r: Vec<Parameter>)
    requires
        forall|e: ElementId| call_requires(*visit, (e,)),
    ensures
        r.len() == v.len(),
        forall|i: int| 0 <= i < v.len() ==> param_mapped(*visit, v@[i], #[trigger] r@[i]),
{
    let mut r: Vec<Parameter> = Vec::new();
    let mut i: usize = 0;
    while i < v.len()
        invariant
            forall|e: ElementId| call_requires(*visit, (e,)),
            i <= v.len(),
            r.len() == i,
            forall|j: int| 0 <= j < i ==> param_mapped(*visit, v@[j], #[trigger] r@[j]),
        decreases v.len() - i,
    {
        r.push(map_param(&v[i], visit));
        i = i + 1;
    }
    r
}

fn map_column<F: Fn(ElementId) -> ElementId>(c: &RelationColumnLowered, visit: &F) -> (r:
    RelationColumnLowered)
    requires
        forall|e: ElementId| call_requires(*visit, (e,)),
    ensures
        column_mapped(*visit, *c, r),
{
    RelationColumnLowered {
        name: c.name.clone(),
        type_element: visit(c.type_element),
        multiplicity: c.multiplicity.duplicate(),
    }
}

fn map_column_list<F: Fn(ElementId) -> ElementId>(
    v: &Vec<RelationColumnLowered>,
    visit: &F,
) -> (r: Vec<RelationColumnLowered>)
    requires
        forall|e: ElementId| call_requires(*visit, (e,)),
    ensures
        r.len() == v.len(),
        forall|i: int| 0 <= i < v.len() ==> column_mapped(*visit, v@[i], #[trigger] r@[i]),
{
    let mut r: Vec<RelationColumnLowered> = Vec::new();
    let mut i: usize = 0;
    while i < v.len()
        invariant
            forall|e: ElementId| call_requires(*visit, (e,)),
            i <= v.len(),
            r.len() == i,
            forall|j: int| 0 <= j < i ==> column_mapped(*visit, v@[j], #[trigger] r@[j]),
        decreases v.len() - i,
    {
        r.push(map_column(&v[i], visit));
        i = i + 1;
    }
    r
}

fn map_value_list<F: Fn(ElementId) -> ElementId>(v: &Vec<ValueSpec>, visit: &F) -> (r: Vec<ValueSpec>)
    requires
        forall|e: ElementId| call_requires(*visit, (e,)),
    ensures
        r.len() == v.len(),
        forall|i: int| 0 <= i < v.len() ==> value_mapped(*visit, v@[i], #[trigger] r@[i]),
    decreases v,
{
    let mut r: Vec<ValueSpec> = Vec::new();
    let mut i: usize = 0;
    while i < v.len()
        invariant
            forall|e: ElementId| call_requires(*visit, (e,)),
            i <= v.len(),
            r.len() == i,
            forall|j: int| 0 <= j < i ==> value_mapped(*visit, v@[j], #[trigger] r@[j]),
        decreases v.len() - i,
    {
        proof {
            vstd::std_specs::vec::axiom_vec_index_decreases(*v, i as int);
        }
        r.push(map_value(&v[i], visit));
        i = i + 1;
    }
    r
}

fn map_call<F: Fn(ElementId) -> ElementId>(d: &FunctionCallData, visit: &F) -> (r: FunctionCallData)
    requires
        forall|e: ElementId| call_requires(*visit, (e,)),
    ensures
        call_mapped(*visit, *d, r),
    decreases d,
{
    let function = match d.function {
        Some(f) => Some(visit(f)),
        None => None,
    };
    FunctionCallData {
        function,
        function_name: d.function_name.clone(),
        arguments: map_value_list(&d.arguments, visit),
    }
}

fn map_step<F: Fn(ElementId) -> ElementId>(st: &PathStep, visit: &F) -> (r: PathStep)
    requires
        forall|e: ElementId| call_requires(*visit, (e,)),
    ensures
        step_mapped(*visit, *st, r),
    decreases st,
{
    PathStep { name: st.name.clone(), parameters: map_value_list(&st.parameters, visit) }
}

fn map_step_list<F: Fn(ElementId) -> ElementId>(v: &Vec<PathStep>, visit: &F) -> (r: Vec<PathStep>)
    requires
        forall|e: ElementId| call_requires(*visit, (e,)),
    ensures
        r.len() == v.len(),
        forall|i: int| 0 <= i < v.len() ==> step_mapped(*visit, v@[i], #[trigger] r@[i]),
    decreases v,
{
    let mut r: Vec<PathStep> = Vec::new();
    let mut i: usize = 0;
    while i < v.len()
        invariant
            forall|e: ElementId| call_requires(*visit, (e,)),
            i <= v.len(),
            r.len() == i,
            forall|j: int| 0 <= j < i ==> step_mapped(*visit, v@[j], #[trigger] r@[j]),
        decreases v.len() - i,
    {
        proof {
            vstd::std_specs::vec::axiom_vec_index_decreases(*v, i as int);
        }
        r.push(map_step(&v[i], visit));
        i = i + 1;
    }
    r
}

fn map_kind<F: Fn(ElementId) -> ElementId>(k: &ExprKind, visit: &F) -> (r: ExprKind)
    requires
        forall|e: ElementId| call_requires(*visit, (e,)),
    ensures
        kind_mapped(*visit, *k, r),
    decreases k,
{
    match k {
        ExprKind::IntegerLiteral(i) => ExprKind::IntegerLiteral(*i),
        ExprKind::FloatLiteral(s) => ExprKind::FloatLiteral(s.clone()),
        ExprKind::DecimalLiteral(s) => ExprKind::DecimalLiteral(s.clone()),
        ExprKind::StringLiteral(s) => ExprKind::StringLiteral(s.clone()),
        ExprKind::BooleanLiteral(b) => ExprKind::BooleanLiteral(*b),
        ExprKind::DateLiteral(d) => ExprKind::DateLiteral(dup_date(d)),
        ExprKind::Variable { name } => ExprKind::Variable { name: name.clone() },
        ExprKind::FunctionCall(d) => ExprKind::FunctionCall(map_call(d, visit)),
        ExprKind::PropertyCall(d) => ExprKind::PropertyCall(map_call(d, visit)),
        ExprKind::QualifiedPropertyCall(d) => ExprKind::QualifiedPropertyCall(map_call(d, visit)),
        ExprKind::EnumValue { enum_element, value } => ExprKind::EnumValue {
            enum_element: visit(*enum_element),
            value: value.clone(),
        },
        ExprKind::Lambda { parameters, body } => ExprKind::Lambda {
            parameters: map_param_list(parameters, visit),
            body: map_value_list(body, visit),
        },
        ExprKind::Collection { elements } => ExprKind::Collection {
            elements: map_value_list(elements, visit),
        },
        ExprKind::TypeReference { type_expr } => ExprKind::TypeReference {
            type_expr: map_type(type_expr, visit),
        },
        ExprKind::MultiplicityReference { multiplicity } => ExprKind::MultiplicityReference {
            multiplicity: multiplicity.duplicate(),
        },
        ExprKind::PackageableElementRef { element } => ExprKind::PackageableElementRef {
            element: visit(*element),
        },
        ExprKind::Column { name } => ExprKind::Column { name: name.clone() },
        ExprKind::RelationLiteral { columns } => ExprKind::RelationLiteral {
            columns: map_column_list(columns, visit),
        },
        ExprKind::ColSpecArrayLiteral { columns, names } => ExprKind::ColSpecArrayLiteral {
            columns: map_column_list(columns, visit),
            names: dup_names(names),
        },
        ExprKind::ColSpecLiteral { column, name } => ExprKind::ColSpecLiteral {
            column: map_column(column, visit),
            name: name.clone(),
        },
        ExprKind::PathLiteral { start_type, steps } => ExprKind::PathLiteral {
            start_type: map_type(start_type, visit),
            steps: map_step_list(steps, visit),
        },
    }
}

fn map_value<F: Fn(ElementId) -> ElementId>(vs: &ValueSpec, visit: &F) -> (r: ValueSpec)
    requires
        forall|e: ElementId| call_requires(*visit, (e,)),
    ensures
        value_mapped(*visit, *vs, r),
    decreases vs,
{
    let type_info = match &vs.type_info {
        Some(t) => Some(
            ResolvedType {
                type_expr: map_type(&t.type_expr, visit),
                multiplicity: t.multiplicity.duplicate(),
            },
        ),
        None => None,
    };
    let kind = map_kind(&*vs.kind, visit);
    ValueSpec { kind: Rc::new(kind), source_info: vs.source_info.duplicate(), type_info }
}

/// Passes every element reference of an expression through `visit`, in
/// place: in its inferred type and throughout its node (callees,
/// arguments, enumerations, element and type references, lambda
/// parameters and bodies, collections, relation columns, path steps).
pub fn walk_value_spec<F: Fn(ElementId) -> ElementId>(vs: &mut ValueSpec, visit: &F)
    requires
        forall|e: ElementId| call_requires(*visit, (e,)),
    ensures
        value_mapped(*visit, *old(vs), *final(vs)),
{
    let r = map_value(vs, visit);
    *vs = r;
}

/// Passes every element reference of an expression node through `visit`,
/// in place.
pub fn walk_expr_kind<F: Fn(ElementId) -> ElementId>(kind: &mut ExprKind, visit: &F)
    requires
        forall|e: ElementId| call_requires(*visit, (e,)),
    ensures
        kind_mapped(*visit, *old(kind), *final(kind)),
{
    let r = map_kind(kind, visit);
    *kind = r;
}

/// Passes the callee and every argument's references through `visit`, in
/// place.
pub fn walk_function_call_data<F: Fn(ElementId) -> ElementId>(d: &mut FunctionCallData, visit: &F)
    requires
        forall|e: ElementId| call_requires(*visit, (e,)),
    ensures
        call_mapped(*visit, *old(d), *final(d)),
{
    let r = map_call(d, visit);
    *d = r;
}

/// Passes the references of a parameter's type through `visit`, in place.
pub fn walk_param<F: Fn(ElementId) -> ElementId>(p: &mut Parameter, visit: &F)
    requires
        forall|e: ElementId| call_requires(*visit, (e,)),
    ensures
        param_mapped(*visit, *old(p), *final(p)),
{
    let r = map_param(p, visit);
    *p = r;
}

/// A multiplicity holds no element reference: nothing changes.
pub fn walk_multiplicity<F: Fn(ElementId) -> ElementId>(m: &mut Multiplicity, visit: &F)
    ensures
        *final(m) == *old(m),
{
}

// ---------------------------------------------------------------------------
// Element-level traversal
// ---------------------------------------------------------------------------

/// A stereotype application with its profile mapped.
pub open spec fn stereo_mapped<F: Fn(ElementId) -> ElementId>(
    visit: F,
    a: StereotypeRef,
    b: StereotypeRef,
) -> bool {
    &&& call_ensures(visit, (a.profile,), b.profile)
    &&& b.value@ == a.value@
    &&& source_view(b.source_info) == source_view(a.source_info)
}

/// A tagged value with its profile mapped.
pub open spec fn tag_mapped<F: Fn(ElementId) -> ElementId>(
    visit: F,
    a: TaggedValueRef,
    b: TaggedValueRef,
) -> bool {
    &&& call_ensures(visit, (a.profile,), b.profile)
    &&& b.tag@ == a.tag@
    &&& b.value@ == a.value@
    &&& source_view(b.source_info) == source_view(a.source_info)
}

/// Stereotype lists mapped entry by entry.
pub open spec fn stereos_mapped<F: Fn(ElementId) -> ElementId>(
    visit: F,
    a: Seq<StereotypeRef>,
    b: Seq<StereotypeRef>,
) -> bool {
    b.len() == a.len() && forall|i: int| 0 <= i < a.len() ==> stereo_mapped(visit, a[i], #[trigger] b[i])
}

/// Tagged-value lists mapped entry by entry.
pub open spec fn tags_mapped<F: Fn(ElementId) -> ElementId>(
    visit: F,
    a: Seq<TaggedValueRef>,
    b: Seq<TaggedValueRef>,
) -> bool {
    b.len() == a.len() && forall|i: int| 0 <= i < a.len() ==> tag_mapped(visit, a[i], #[trigger] b[i])
}

/// Expression lists mapped entry by entry.
pub open spec fn values_mapped<F: Fn(ElementId) -> ElementId>(
    visit: F,
    a: Seq<ValueSpec>,
    b: Seq<ValueSpec>,
) -> bool {
    b.len() == a.len() && forall|i: int| 0 <= i < a.len() ==> value_mapped(visit, a[i], #[trigger] b[i])
}

/// Parameter lists mapped entry by entry.
pub open spec fn params_mapped<F: Fn(ElementId) -> ElementId>(
    visit: F,
    a: Seq<Parameter>,
    b: Seq<Parameter>,
) -> bool {
    b.len() == a.len() && forall|i: int| 0 <= i < a.len() ==> param_mapped(visit, a[i], #[trigger] b[i])
}

/// Type lists mapped entry by entry.
pub open spec fn types_mapped<F: Fn(ElementId) -> ElementId>(
    visit: F,
    a: Seq<TypeExpr>,
    b: Seq<TypeExpr>,
) -> bool {
    b.len() == a.len() && forall|i: int|
        0 <= i < a.len() ==> type_ids_mapped(visit, a[i]@, (#[trigger] b[i])@)
}

/// An optional expression mapped.
pub open spec fn opt_value_mapped<F: Fn(ElementId) -> ElementId>(
    visit: F,
    a: Option<ValueSpec>,
    b: Option<ValueSpec>,
) -> bool {
    match (a, b) {
        (Some(x), Some(y)) => value_mapped(visit, x, y),
        (None, None) => true,
        _ => false,
    }
}

/// A property with every reference mapped.
pub open spec fn prop_mapped<F: Fn(ElementId) -> ElementId>(visit: F, a: Property, b: Property) -> bool {
    &&& b.name@ == a.name@
    &&& b.source_info@ == a.source_info@
    &&& type_ids_mapped(visit, a.type_expr@, b.type_expr@)
    &&& b.multiplicity@ == a.multiplicity@
    &&& b.aggregation == a.aggregation
    &&& opt_value_mapped(visit, a.default_value, b.default_value)
    &&& stereos_mapped(visit, a.stereotypes@, b.stereotypes@)
    &&& tags_mapped(visit, a.tagged_values@, b.tagged_values@)
}

/// Property lists mapped entry by entry.
pub open spec fn props_mapped<F: Fn(ElementId) -> ElementId>(
    visit: F,
    a: Seq<Property>,
    b: Seq<Property>,
) -> bool {
    b.len() == a.len() && forall|i: int| 0 <= i < a.len() ==> prop_mapped(visit, a[i], #[trigger] b[i])
}

/// A qualified property with every reference mapped.
pub open spec fn qp_mapped<F: Fn(ElementId) -> ElementId>(
    visit: F,
    a: QualifiedProperty,
    b: QualifiedProperty,
) -> bool {
    &&& b.name@ == a.name@
    &&& b.source_info@ == a.source_info@
    &&& params_mapped(visit, a.parameters@, b.parameters@)
    &&& type_ids_mapped(visit, a.return_type@, b.return_type@)
    &&& b.return_multiplicity@ == a.return_multiplicity@
    &&& values_mapped(visit, a.body@, b.body@)
    &&& stereos_mapped(visit, a.stereotypes@, b.stereotypes@)
    &&& tags_mapped(visit, a.tagged_values@, b.tagged_values@)
}

/// Qualified-property lists mapped entry by entry.
pub open spec fn qps_mapped<F: Fn(ElementId) -> ElementId>(
    visit: F,
    a: Seq<QualifiedProperty>,
    b: Seq<QualifiedProperty>,
) -> bool {
    b.len() == a.len() && forall|i: int| 0 <= i < a.len() ==> qp_mapped(visit, a[i], #[trigger] b[i])
}

/// A constraint with its predicate and message mapped.
pub open spec fn constraint_mapped<F: Fn(ElementId) -> ElementId>(
    visit: F,
    a: Constraint,
    b: Constraint,
) -> bool {
    &&& b.name == a.name
    &&& b.source_info@ == a.source_info@
    &&& value_mapped(visit, a.function, b.function)
    &&& b.enforcement_level == a.enforcement_level
    &&& b.external_id == a.external_id
    &&& opt_value_mapped(visit, a.message, b.message)
}

/// Constraint lists mapped entry by entry.
pub open spec fn constraints_mapped<F: Fn(ElementId) -> ElementId>(
    visit: F,
    a: Seq<Constraint>,
    b: Seq<Constraint>,
) -> bool {
    b.len() == a.len() && forall|i: int|
        0 <= i < a.len() ==> constraint_mapped(visit, a[i], #[trigger] b[i])
}

/// A class with every reference mapped: type-variable parameters,
/// supertypes, properties, qualified properties, constraints, stereotypes,
/// tagged values and moved-aside properties.
pub open spec fn class_mapped<F: Fn(ElementId) -> ElementId>(visit: F, a: Class, b: Class) -> bool {
    &&& b.type_parameters == a.type_parameters
    &&& b.type_parameter_variances == a.type_parameter_variances
    &&& b.multiplicity_parameters == a.multiplicity_parameters
    &&& params_mapped(visit, a.type_variable_parameters@, b.type_variable_parameters@)
    &&& types_mapped(visit, a.super_types@, b.super_types@)
    &&& props_mapped(visit, a.properties@, b.properties@)
    &&& qps_mapped(visit, a.qualified_properties@, b.qualified_properties@)
    &&& constraints_mapped(visit, a.constraints@, b.constraints@)
    &&& stereos_mapped(visit, a.stereotypes@, b.stereotypes@)
    &&& tags_mapped(visit, a.tagged_values@, b.tagged_values@)
    &&& props_mapped(visit, a.original_milestoned_properties@, b.original_milestoned_properties@)
}

/// A function with every reference mapped.
pub open spec fn function_mapped<F: Fn(ElementId) -> ElementId>(visit: F, a: Function, b: Function) -> bool {
    &&& b.function_name == a.function_name
    &&& b.is_native == a.is_native
    &&& params_mapped(visit, a.parameters@, b.parameters@)
    &&& type_ids_mapped(visit, a.return_type@, b.return_type@)
    &&& b.return_multiplicity@ == a.return_multiplicity@
    &&& values_mapped(visit, a.body@, b.body@)
    &&& stereos_mapped(visit, a.stereotypes@, b.stereotypes@)
    &&& tags_mapped(visit, a.tagged_values@, b.tagged_values@)
}

/// An enumeration value with its annotations mapped.
pub open spec fn enum_value_mapped<F: Fn(ElementId) -> ElementId>(
    visit: F,
    a: EnumValue,
    b: EnumValue,
) -> bool {
    &&& b.name == a.name
    &&& b.source_info@ == a.source_info@
    &&& stereos_mapped(visit, a.stereotypes@, b.stereotypes@)
    &&& tags_mapped(visit, a.tagged_values@, b.tagged_values@)
}

/// An element with every reference it holds mapped; a profile holds none.
pub open spec fn element_mapped<F: Fn(ElementId) -> ElementId>(visit: F, a: Element, b: Element) -> bool {
    match (a, b) {
        (Element::Class(x), Element::Class(y)) => class_mapped(visit, x, y),
        (Element::Enumeration(x), Element::Enumeration(y)) => {
            &&& y.values.len() == x.values.len()
            &&& forall|i: int|
                0 <= i < x.values.len() ==> enum_value_mapped(visit, x.values@[i], #[trigger] y.values@[i])
            &&& stereos_mapped(visit, x.stereotypes@, y.stereotypes@)
            &&& tags_mapped(visit, x.tagged_values@, y.tagged_values@)
        },
        (Element::Function(x), Element::Function(y)) => function_mapped(visit, x, y),
        (Element::Profile(x), Element::Profile(y)) => y == x,
        (Element::Association(x), Element::Association(y)) => {
            &&& props_mapped(visit, x.properties@, y.properties@)
            &&& qps_mapped(visit, x.qualified_properties@, y.qualified_properties@)
            &&& stereos_mapped(visit, x.stereotypes@, y.stereotypes@)
            &&& tags_mapped(visit, x.tagged_values@, y.tagged_values@)
            &&& props_mapped(
                visit,
                x.original_milestoned_properties@,
                y.original_milestoned_properties@,
            )
        },
        (Element::Measure(x), Element::Measure(y)) => {
            &&& opt_id_mapped(visit, x.canonical_unit, y.canonical_unit)
            &&& y.non_canonical_units.len() == x.non_canonical_units.len()
            &&& forall|i: int|
                0 <= i < x.non_canonical_units.len() ==> call_ensures(
                    visit,
                    (x.non_canonical_units@[i],),
                    #[trigger] y.non_canonical_units@[i],
                )
        },
        (Element::Unit(x), Element::Unit(y)) => {
            &&& call_ensures(visit, (x.measure,), y.measure)
            &&& opt_value_mapped(visit, x.conversion_expression, y.conversion_expression)
        },
        (Element::PrimitiveType(x), Element::PrimitiveType(y)) => {
            &&& opt_id_mapped(visit, x.super_type, y.super_type)
            &&& y.super_type_value_arguments == x.super_type_value_arguments
            &&& params_mapped(visit, x.type_variable_parameters@, y.type_variable_parameters@)
            &&& constraints_mapped(visit, x.constraints@, y.constraints@)
        },
        _ => false,
    }
}

fn map_stereo<F: Fn(ElementId) -> ElementId>(s: &StereotypeRef, visit: &F) -> (r: StereotypeRef)
    requires
        forall|e: ElementId| call_requires(*visit, (e,)),
    ensures
        stereo_mapped(*visit, *s, r),
{
    StereotypeRef {
        profile: visit(s.profile),
        value: s.value.clone(),
        source_info: crate::types::dup_source(&s.source_info),
    }
}

fn map_stereos<F: Fn(ElementId) -> ElementId>(v: &Vec<StereotypeRef>, visit: &F) -> (r: Vec<StereotypeRef>)
    requires
        forall|e: ElementId| call_requires(*visit, (e,)),
    ensures
        stereos_mapped(*visit, v@, r@),
{
    let mut r: Vec<StereotypeRef> = Vec::new();
    let mut i: usize = 0;
    while i < v.len()
        invariant
            forall|e: ElementId| call_requires(*visit, (e,)),
            i <= v.len(),
            r.len() == i,
            forall|j: int| 0 <= j < i ==> stereo_mapped(*visit, v@[j], #[trigger] r@[j]),
        decreases v.len() - i,
    {
        r.push(map_stereo(&v[i], visit));
        i = i + 1;
    }
    r
}

fn map_tags<F: Fn(ElementId) -> ElementId>(v: &Vec<TaggedValueRef>, visit: &F) -> (r: Vec<TaggedValueRef>)
    requires
        forall|e: ElementId| call_requires(*visit, (e,)),
    ensures
        tags_mapped(*visit, v@, r@),
{
    let mut r: Vec<TaggedValueRef> = Vec::new();
    let mut i: usize = 0;
    while i < v.len()
        invariant
            forall|e: ElementId| call_requires(*visit, (e,)),
            i <= v.len(),
            r.len() == i,
            forall|j: int| 0 <= j < i ==> tag_mapped(*visit, v@[j], #[trigger] r@[j]),
        decreases v.len() - i,
    {
        let t = &v[i];
        r.push(
            TaggedValueRef {
                profile: visit(t.profile),
                tag: t.tag.clone(),
                value: t.value.clone(),
                source_info: crate::types::dup_source(&t.source_info),
            },
        );
        i = i + 1;
    }
    r
}

fn map_opt_value<F: Fn(ElementId) -> ElementId>(v: &Option<ValueSpec>, visit: &F) -> (r: Option<ValueSpec>)
    requires
        forall|e: ElementId| call_requires(*visit, (e,)),
    ensures
        opt_value_mapped(*visit, *v, r),
{
    match v {
        Some(x) => Some(map_value(x, visit)),
        None => None,
    }
}

fn map_prop<F: Fn(ElementId) -> ElementId>(p: &Property, visit: &F) -> (r: Property)
    requires
        forall|e: ElementId| call_requires(*visit, (e,)),
    ensures
        prop_mapped(*visit, *p, r),
{
    Property {
        name: p.name.clone(),
        source_info: p.source_info.duplicate(),
        type_expr: map_type(&p.type_expr, visit),
        multiplicity: p.multiplicity.duplicate(),
        aggregation: p.aggregation,
        default_value: map_opt_value(&p.default_value, visit),
        stereotypes: map_stereos(&p.stereotypes, visit),
        tagged_values: map_tags(&p.tagged_values, visit),
    }
}

fn map_props<F: Fn(ElementId) -> ElementId>(v: &Vec<Property>, visit: &F) -> (r: Vec<Property>)
    requires
        forall|e: ElementId| call_requires(*visit, (e,)),
    ensures
        props_mapped(*visit, v@, r@),
{
    let mut r: Vec<Property> = Vec::new();
    let mut i: usize = 0;
    while i < v.len()
        invariant
            forall|e: ElementId| call_requires(*visit, (e,)),
            i <= v.len(),
            r.len() == i,
            forall|j: int| 0 <= j < i ==> prop_mapped(*visit, v@[j], #[trigger] r@[j]),
        decreases v.len() - i,
    {
        r.push(map_prop(&v[i], visit));
        i = i + 1;
    }
    r
}

fn map_qp<F: Fn(ElementId) -> ElementId>(q: &QualifiedProperty, visit: &F) -> (r: QualifiedProperty)
    requires
        forall|e: ElementId| call_requires(*visit, (e,)),
    ensures
        qp_mapped(*visit, *q, r),
{
    QualifiedProperty {
        name: q.name.clone(),
        source_info: q.source_info.duplicate(),
        parameters: map_param_list(&q.parameters, visit),
        return_type: map_type(&q.return_type, visit),
        return_multiplicity: q.return_multiplicity.duplicate(),
        body: map_value_list(&q.body, visit),
        stereotypes: map_stereos(&q.stereotypes, visit),
        tagged_values: map_tags(&q.tagged_values, visit),
    }
}

fn map_qps<F: Fn(ElementId) -> ElementId>(v: &Vec<QualifiedProperty>, visit: &F) -> (r: Vec<QualifiedProperty>)
    requires
        forall|e: ElementId| call_requires(*visit, (e,)),
    ensures
        qps_mapped(*visit, v@, r@),
{
    let mut r: Vec<QualifiedProperty> = Vec::new();
    let mut i: usize = 0;
    while i < v.len()
        invariant
            forall|e: ElementId| call_requires(*visit, (e,)),
            i <= v.len(),
            r.len() == i,
            forall|j: int| 0 <= j < i ==> qp_mapped(*visit, v@[j], #[trigger] r@[j]),
        decreases v.len() - i,
    {
        r.push(map_qp(&v[i], visit));
        i = i + 1;
    }
    r
}

fn dup_opt_string(s: &Option<String>) -> (r: Option<String>)
    ensures
        r == *s,
{
    match s {
        Some(x) => Some(x.clone()),
        None => None,
    }
}

fn map_constraint<F: Fn(ElementId) -> ElementId>(c: &Constraint, visit: &F) -> (r: Constraint)
    requires
        forall|e: ElementId| call_requires(*visit, (e,)),
    ensures
        constraint_mapped(*visit, *c, r),
{
    Constraint {
        name: dup_opt_string(&c.name),
        source_info: c.source_info.duplicate(),
        function: map_value(&c.function, visit),
        enforcement_level: dup_opt_string(&c.enforcement_level),
        external_id: dup_opt_string(&c.external_id),
        message: map_opt_value(&c.message, visit),
    }
}

fn map_constraints<F: Fn(ElementId) -> ElementId>(v: &Vec<Constraint>, visit: &F) -> (r: Vec<Constraint>)
    requires
        forall|e: ElementId| call_requires(*visit, (e,)),
    ensures
        constraints_mapped(*visit, v@, r@),
{
    let mut r: Vec<Constraint> = Vec::new();
    let mut i: usize = 0;
    while i < v.len()
        invariant
            forall|e: ElementId| call_requires(*visit, (e,)),
            i <= v.len(),
            r.len() == i,
            forall|j: int| 0 <= j < i ==> constraint_mapped(*visit, v@[j], #[trigger] r@[j]),
        decreases v.len() - i,
    {
        r.push(map_constraint(&v[i], visit));
        i = i + 1;
    }
    r
}

/// Passes a stereotype application's profile through `visit`.
pub fn walk_stereo<F: Fn(ElementId) -> ElementId>(s: &mut StereotypeRef, visit: &F)
    requires
        forall|e: ElementId| call_requires(*visit, (e,)),
    ensures
        stereo_mapped(*visit, *old(s), *final(s)),
{
    s.profile = visit(s.profile);
}

/// Passes a tagged value's profile through `visit`.
pub fn walk_tag<F: Fn(ElementId) -> ElementId>(t: &mut TaggedValueRef, visit: &F)
    requires
        forall|e: ElementId| call_requires(*visit, (e,)),
    ensures
        tag_mapped(*visit, *old(t), *final(t)),
{
    t.profile = visit(t.profile);
}

/// Passes every reference of a property through `visit`: its type,
/// default value and annotations.
pub fn walk_property<F: Fn(ElementId) -> ElementId>(p: &mut Property, visit: &F)
    requires
        forall|e: ElementId| call_requires(*visit, (e,)),
    ensures
        prop_mapped(*visit, *old(p), *final(p)),
{
    let r = map_prop(p, visit);
    *p = r;
}

/// Passes every reference of a qualified property through `visit`: its
/// parameters, return type, body and annotations.
pub fn walk_qualified_property<F: Fn(ElementId) -> ElementId>(qp: &mut QualifiedProperty, visit: &F)
    requires
        forall|e: ElementId| call_requires(*visit, (e,)),
    ensures
        qp_mapped(*visit, *old(qp), *final(qp)),
{
    let r = map_qp(qp, visit);
    *qp = r;
}

/// Passes the references of a constraint's predicate and message through
/// `visit`.
pub fn walk_constraint<F: Fn(ElementId) -> ElementId>(c: &mut Constraint, visit: &F)
    requires
        forall|e: ElementId| call_requires(*visit, (e,)),
    ensures
        constraint_mapped(*visit, *old(c), *final(c)),
{
    let r = map_constraint(c, visit);
    *c = r;
}

/// Passes every reference of a class through `visit`.
pub fn walk_class<F: Fn(ElementId) -> ElementId>(c: &mut Class, visit: &F)
    requires
        forall|e: ElementId| call_requires(*visit, (e,)),
    ensures
        class_mapped(*visit, *old(c), *final(c)),
{
    c.type_variable_parameters = map_param_list(&c.type_variable_parameters, visit);
    c.super_types = map_types(&c.super_types, visit);
    c.properties = map_props(&c.properties, visit);
    c.qualified_properties = map_qps(&c.qualified_properties, visit);
    c.constraints = map_constraints(&c.constraints, visit);
    c.stereotypes = map_stereos(&c.stereotypes, visit);
    c.tagged_values = map_tags(&c.tagged_values, visit);
    c.original_milestoned_properties = map_props(&c.original_milestoned_properties, visit);
}

/// Passes every reference of a function through `visit`: parameters,
/// return type, body and annotations.
pub fn walk_function<F: Fn(ElementId) -> ElementId>(f: &mut Function, visit: &F)
    requires
        forall|e: ElementId| call_requires(*visit, (e,)),
    ensures
        function_mapped(*visit, *old(f), *final(f)),
{
    f.parameters = map_param_list(&f.parameters, visit);
    f.return_type = map_type(&f.return_type, visit);
    f.body = map_value_list(&f.body, visit);
    f.stereotypes = map_stereos(&f.stereotypes, visit);
    f.tagged_values = map_tags(&f.tagged_values, visit);
}

/// Passes every element reference held by `element` through `visit`, in
/// place. Profiles hold names only and are left as they are.
pub fn walk_element_ids<F: Fn(ElementId) -> ElementId>(element: &mut Element, visit: &F)
    requires
        forall|e: ElementId| call_requires(*visit, (e,)),
    ensures
        element_mapped(*visit, *old(element), *final(element)),
{
    match element {
        Element::Class(c) => walk_class(c, visit),
        Element::Enumeration(en) => {
            en.stereotypes = map_stereos(&en.stereotypes, visit);
            en.tagged_values = map_tags(&en.tagged_values, visit);
            let mut values: Vec<EnumValue> = Vec::new();
            let mut i: usize = 0;
            while i < en.values.len()
                invariant
                    forall|e: ElementId| call_requires(*visit, (e,)),
                    i <= en.values.len(),
                    values.len() == i,
                    forall|j: int|
                        0 <= j < i ==> enum_value_mapped(*visit, en.values@[j], #[trigger] values@[j]),
                decreases en.values.len() - i,
            {
                let v = &en.values[i];
                values.push(
                    EnumValue {
                        name: v.name.clone(),
                        source_info: v.source_info.duplicate(),
                        stereotypes: map_stereos(&v.stereotypes, visit),
                        tagged_values: map_tags(&v.tagged_values, visit),
                    },
                );
                i = i + 1;
            }
            en.values = values;
        },
        Element::Function(f) => walk_function(f, visit),
        Element::Profile(_) => {},
        Element::Association(a) => {
            a.properties = map_props(&a.properties, visit);
            a.qualified_properties = map_qps(&a.qualified_properties, visit);
            a.stereotypes = map_stereos(&a.stereotypes, visit);
            a.tagged_values = map_tags(&a.tagged_values, visit);
            a.original_milestoned_properties = map_props(&a.original_milestoned_properties, visit);
        },
        Element::Measure(m) => {
            match m.canonical_unit {
                Some(c) => {
                    m.canonical_unit = Some(visit(c));
                },
                None => {},
            }
            let mut units: Vec<ElementId> = Vec::new();
            let mut i: usize = 0;
            while i < m.non_canonical_units.len()
                invariant
                    forall|e: ElementId| call_requires(*visit, (e,)),
                    i <= m.non_canonical_units.len(),
                    units.len() == i,
                    forall|j: int|
                        0 <= j < i ==> call_ensures(
                            *visit,
                            (m.non_canonical_units@[j],),
                            #[trigger] units@[j],
                        ),
                decreases m.non_canonical_units.len() - i,
            {
                units.push(visit(m.non_canonical_units[i]));
                i = i + 1;
            }
            m.non_canonical_units = units;
        },
        Element::Unit(u) => {
            u.measure = visit(u.measure);
            u.conversion_expression = map_opt_value(&u.conversion_expression, visit);
        },
        Element::PrimitiveType(p) => {
            match p.super_type {
                Some(s) => {
                    p.super_type = Some(visit(s));
                },
                None => {},
            }
            p.type_variable_parameters = map_param_list(&p.type_variable_parameters, visit);
            p.constraints = map_constraints(&p.constraints, visit);
        },
    }
}

} // verus!
