//! Fix-ups of the bootstrap (metamodel) chunk, run once after it is built:
//! names the metamodel reader left unresolved are bound to the chunk's own
//! classes, parentless classes extend `Any`, and `Any` gains its two
//! reflective properties.

pub mod topo;

use vstd::prelude::*;

use crate::expr::Parameter;
use crate::generics::{strs_view, types_view};
use crate::ids::{any_id, ElementId};
use crate::milestoning::str_eq;
use crate::milestoning::synthesis::{bare_named, bare_named_type, synth_prop_view};
use crate::model::{names_view, Element, PureModel};
use crate::nodes::{props_view, Class, Property, PropertyView, QualifiedProperty, SpannedString};
use crate::types::{
    dup_consts, dup_mults, dup_source, ConstValue, ConstValueView, MultView, Multiplicity,
    SourceInfo, SourceInfoView, TypeExpr, TypeExprView,
};

verus! {

/// The name table of the bootstrap chunk: `(name, id)` for each of its
/// first `n` elements, in index order.
pub open spec fn bootstrap_names(m: PureModel, n: int) -> Seq<(Seq<char>, ElementId)> {
    Seq::new(
        n as nat,
        |i: int| (m.chunks@[0].nodes.items@[i].name@, ElementId { chunk_id: 0, local_idx: i as u32 }),
    )
}

/// Views of a name table.
pub open spec fn table_view(s: Seq<(String, ElementId)>) -> Seq<(Seq<char>, ElementId)> {
    s.map_values(|p: (String, ElementId)| (p.0@, p.1))
}

/// The last entry of `names` called `name`: a later element shadows an
/// earlier one of the same name.
pub open spec fn last_named(names: Seq<(Seq<char>, ElementId)>, name: Seq<char>) -> Option<ElementId>
    decreases names.len(),
{
    if names.len() == 0 {
        None
    } else if names.last().0 == name {
        Some(names.last().1)
    } else {
        last_named(names.drop_last(), name)
    }
}

/// The class a metamodel marker type stands for: the reader writes a type
/// given by name as `Any` carrying the raw name as its only value argument.
pub open spec fn marker_target(
    names: Seq<(Seq<char>, ElementId)>,
    element: ElementId,
    value_arguments: Seq<ConstValueView>,
) -> Option<ElementId> {
    if element == any_id() && value_arguments.len() == 1 {
        match value_arguments[0] {
            ConstValueView::String(raw) => last_named(names, raw),
            _ => None,
        }
    } else {
        None
    }
}

/// A bootstrap type with its names bound: a type parameter name that is
/// not one of the class's own (`tps`) becomes the bootstrap class of that
/// name; a marker type becomes the class it names; type arguments are
/// resolved the same way. Anything else is left as it is.
pub open spec fn m3_resolve(
    t: TypeExprView,
    names: Seq<(Seq<char>, ElementId)>,
    tps: Seq<Seq<char>>,
) -> TypeExprView
    decreases t,
{
    match t {
        TypeExprView::Generic(name) => if tps.contains(name) {
            t
        } else {
            match last_named(names, name) {
                Some(id) => bare_named(id),
                None => t,
            }
        },
        TypeExprView::Named {
            element,
            type_arguments,
            multiplicity_arguments,
            value_arguments,
            source_info,
        } => {
            let target = marker_target(names, element, value_arguments);
            TypeExprView::Named {
                element: match target {
                    Some(id) => id,
                    None => element,
                },
                type_arguments: Seq::new(
                    type_arguments.len(),
                    |i: int| if 0 <= i < type_arguments.len() { m3_resolve(type_arguments[i], names, tps) } else { TypeExprView::Unresolved },
                ),
                multiplicity_arguments,
                value_arguments: match target {
                    Some(_) => Seq::empty(),
                    None => value_arguments,
                },
                source_info,
            }
        },
        _ => t,
    }
}

/// A property whose type was resolved, everything else kept.
pub open spec fn prop_resolved(
    b: Property,
    a: Property,
    names: Seq<(Seq<char>, ElementId)>,
    tps: Seq<Seq<char>>,
) -> bool {
    &&& a.type_expr@ == m3_resolve(b.type_expr@, names, tps)
    &&& a.name == b.name
    &&& a.source_info == b.source_info
    &&& a.multiplicity == b.multiplicity
    &&& a.aggregation == b.aggregation
    &&& a.default_value == b.default_value
    &&& a.stereotypes == b.stereotypes
    &&& a.tagged_values == b.tagged_values
}

/// A parameter whose type was resolved, everything else kept.
pub open spec fn param_resolved(
    b: Parameter,
    a: Parameter,
    names: Seq<(Seq<char>, ElementId)>,
    tps: Seq<Seq<char>>,
) -> bool {
    &&& a.type_expr@ == m3_resolve(b.type_expr@, names, tps)
    &&& a.name == b.name
    &&& a.multiplicity == b.multiplicity
    &&& a.source_info == b.source_info
}

/// A qualified property whose return and parameter types were resolved,
/// everything else kept.
pub open spec fn qp_resolved(
    b: QualifiedProperty,
    a: QualifiedProperty,
    names: Seq<(Seq<char>, ElementId)>,
    tps: Seq<Seq<char>>,
) -> bool {
    &&& a.return_type@ == m3_resolve(b.return_type@, names, tps)
    &&& a.parameters.len() == b.parameters.len()
    &&& forall|j: int|
        0 <= j < b.parameters.len() ==> param_resolved(
            b.parameters@[j],
            #[trigger] a.parameters@[j],
            names,
            tps,
        )
    &&& a.name == b.name
    &&& a.source_info == b.source_info
    &&& a.return_multiplicity == b.return_multiplicity
    &&& a.body == b.body
    &&& a.stereotypes == b.stereotypes
    &&& a.tagged_values == b.tagged_values
}

/// The supertypes of a bootstrap class once fixed: each resolved, and
/// `Any` for a class (other than `Any` itself) that declares none.
pub open spec fn fixed_supers(
    before: Class,
    names: Seq<(Seq<char>, ElementId)>,
    is_any: bool,
) -> Seq<TypeExprView> {
    let tps = strs_view(before.type_parameters@);
    if !is_any && before.super_types.len() == 0 {
        seq![bare_named(any_id())]
    } else {
        Seq::new(
            before.super_types.len() as nat,
            |k: int| m3_resolve(before.super_types@[k]@, names, tps),
        )
    }
}

/// A bootstrap class after the fix-up: supertypes, property types and
/// qualified-property signatures resolved against `names` (the class's
/// own type parameters staying parameters), `Any` added as the supertype
/// of a class declaring none; nothing else changed.
pub open spec fn class_fixed(
    before: Class,
    after: Class,
    names: Seq<(Seq<char>, ElementId)>,
    is_any: bool,
) -> bool {
    let tps = strs_view(before.type_parameters@);
    &&& types_view(after.super_types@) == fixed_supers(before, names, is_any)
    &&& after.properties.len() == before.properties.len()
    &&& forall|k: int|
        0 <= k < before.properties.len() ==> prop_resolved(
            before.properties@[k],
            #[trigger] after.properties@[k],
            names,
            tps,
        )
    &&& after.qualified_properties.len() == before.qualified_properties.len()
    &&& forall|k: int|
        0 <= k < before.qualified_properties.len() ==> qp_resolved(
            before.qualified_properties@[k],
            #[trigger] after.qualified_properties@[k],
            names,
            tps,
        )
    &&& after.type_parameters == before.type_parameters
    &&& after.type_parameter_variances == before.type_parameter_variances
    &&& after.multiplicity_parameters == before.multiplicity_parameters
    &&& after.type_variable_parameters == before.type_variable_parameters
    &&& after.constraints == before.constraints
    &&& after.stereotypes == before.stereotypes
    &&& after.tagged_values == before.tagged_values
    &&& after.original_milestoned_properties == before.original_milestoned_properties
}

/// Everything outside the bootstrap chunk's element payloads is the same.
pub open spec fn same_but_bootstrap_elements(before: PureModel, after: PureModel) -> bool {
    &&& after.global_packages == before.global_packages
    &&& after.root_package == before.root_package
    &&& after.derived == before.derived
    &&& after.chunks.len() == before.chunks.len()
    &&& forall|c: int| 1 <= c < before.chunks.len() ==> #[trigger] after.chunks@[c] == before.chunks@[c]
    &&& after.chunks@[0].chunk_id == before.chunks@[0].chunk_id
    &&& after.chunks@[0].nodes == before.chunks@[0].nodes
    &&& after.chunks@[0].elements.items.len() == before.chunks@[0].elements.items.len()
}

/// The whole bootstrap fix-up: every class of the bootstrap chunk fixed
/// (see [`class_fixed`]) against the chunk's name table, every other
/// element and chunk untouched.
pub open spec fn m3_fixed(before: PureModel, after: PureModel) -> bool {
    let n = before.chunks@[0].elements.items.len() as int;
    let names = bootstrap_names(before, n);
    &&& same_but_bootstrap_elements(before, after)
    &&& forall|i: int|
        0 <= i < n ==> match #[trigger] before.chunks@[0].elements.items@[i] {
            Element::Class(c) => match after.chunks@[0].elements.items@[i] {
                Element::Class(c2) => class_fixed(c, c2, names, i == 0),
                _ => false,
            },
            e => after.chunks@[0].elements.items@[i] == e,
        }
}

/// The last entry of the table called `name`.
fn lookup_last(names: &Vec<(String, ElementId)>, name: &str) -> (r: Option<ElementId>)
    ensures
        r == last_named(table_view(names@), name@),
{
    let ghost t = table_view(names@);
    assert(t.take(names.len() as int) =~= t);
    let mut i: usize = names.len();
    while i > 0
        invariant
            i <= names.len(),
            t == table_view(names@),
            last_named(t, name@) == last_named(t.take(i as int), name@),
        decreases i,
    {
        let ghost pre = t.take(i as int);
        assert(pre.drop_last() =~= t.take(i - 1));
        i = i - 1;
        if str_eq(names[i].0.as_str(), name) {
            return Some(names[i].1);
        }
    }
    assert(t.take(0) =~= Seq::<(Seq<char>, ElementId)>::empty());
    None
}

/// Whether `name` is one of `v`.
fn has_name(v: &Vec<String>, name: &String) -> (r: bool)
    ensures
        r == strs_view(v@).contains(name@),
{
    let mut i: usize = 0;
    while i < v.len()
        invariant
            i <= v.len(),
            forall|j: int| 0 <= j < i ==> v@[j]@ != name@,
        decreases v.len() - i,
    {
        if str_eq(v[i].as_str(), name.as_str()) {
            assert(strs_view(v@)[i as int] == name@);
            return true;
        }
        i = i + 1;
    }
    proof {
        if strs_view(v@).contains(name@) {
            let j = choose|j: int| 0 <= j < strs_view(v@).len() && strs_view(v@)[j] == name@;
            assert(v@[j]@ == name@);
        }
    }
    false
}

/// A copy of a list of names.
fn copy_names(v: &Vec<String>) -> (r: Vec<String>)
    ensures
        strs_view(r@) == strs_view(v@),
{
    let mut r: Vec<String> = Vec::new();
    let mut i: usize = 0;
    while i < v.len()
        invariant
            i <= v.len(),
            r@ == v@.take(i as int),
        decreases v.len() - i,
    {
        r.push(v[i].clone());
        assert(r@ =~= v@.take(i + 1));
        i = i + 1;
    }
    assert(v@.take(v.len() as int) =~= v@);
    r
}

/// Resolves one bootstrap type (see [`m3_resolve`]).
fn resolve_m3_type(ty: &TypeExpr, names: &Vec<(String, ElementId)>, tps: &Vec<String>) -> (r:
    TypeExpr)
    ensures
        r@ == m3_resolve(ty@, table_view(names@), strs_view(tps@)),
    decreases ty,
{
    proof {
        crate::types::lemma_te_view_parts(*ty);
    }
    match ty {
        TypeExpr::Generic(name) => {
            if has_name(tps, name) {
                TypeExpr::Generic(name.clone())
            } else {
                match lookup_last(names, name.as_str()) {
                    Some(id) => bare_named_type(id),
                    None => TypeExpr::Generic(name.clone()),
                }
            }
        },
        TypeExpr::Named {
            element,
            type_arguments,
            multiplicity_arguments,
            value_arguments,
            source_info,
        } => {
            let target: Option<ElementId> = if *element == any_id() && value_arguments.len() == 1 {
                match &value_arguments[0] {
                    ConstValue::String(raw) => lookup_last(names, raw.as_str()),
                    _ => None,
                }
            } else {
                None
            };
            proof {
                if value_arguments.len() == 1 {
                    assert(crate::types::consts_view(value_arguments@)[0] == value_arguments@[0]@);
                }
            }
            assert(target == marker_target(
                table_view(names@),
                *element,
                crate::types::consts_view(value_arguments@),
            ));
            let ta = resolve_m3_types(type_arguments, names, tps);
            let (el, va) = match target {
                Some(id) => (id, Vec::new()),
                None => (*element, dup_consts(value_arguments)),
            };
            let r = TypeExpr::Named {
                element: el,
                type_arguments: ta,
                multiplicity_arguments: dup_mults(multiplicity_arguments),
                value_arguments: va,
                source_info: dup_source(source_info),
            };
            proof {
                crate::types::lemma_te_view_parts(r);
                let want = m3_resolve(ty@, table_view(names@), strs_view(tps@));
                assert(r@->type_arguments =~= want->type_arguments) by {
                    assert forall|j: int| 0 <= j < ta.len() implies r@->type_arguments[j]
                        == want->type_arguments[j] by {
                        assert(r@->type_arguments[j] == ta@[j]@);
                        assert(ty@->type_arguments[j] == type_arguments@[j]@);
                    }
                }
                assert(r@->value_arguments =~= want->value_arguments);
            }
            r
        },
        _ => ty.duplicate(),
    }
}

/// Resolves each of a list of bootstrap types.
fn resolve_m3_types(v: &Vec<TypeExpr>, names: &Vec<(String, ElementId)>, tps: &Vec<String>) -> (r:
    Vec<TypeExpr>)
    ensures
        r.len() == v.len(),
        forall|j: int|
            0 <= j < v.len() ==> #[trigger] r@[j]@ == m3_resolve(
                v@[j]@,
                table_view(names@),
                strs_view(tps@),
            ),
    decreases v,
{
    let mut r: Vec<TypeExpr> = Vec::new();
    let mut i: usize = 0;
    while i < v.len()
        invariant
            i <= v.len(),
            r.len() == i,
            forall|j: int|
                0 <= j < i ==> #[trigger] r@[j]@ == m3_resolve(
                    v@[j]@,
                    table_view(names@),
                    strs_view(tps@),
                ),
        decreases v.len() - i,
    {
        proof {
            vstd::std_specs::vec::axiom_vec_index_decreases(*v, i as int);
        }
        r.push(resolve_m3_type(&v[i], names, tps));
        i = i + 1;
    }
    r
}

/// Resolves the parameter types of a qualified property in place.
fn resolve_m3_params(ps: &mut Vec<Parameter>, names: &Vec<(String, ElementId)>, tps: &Vec<String>)
    ensures
        final(ps).len() == old(ps).len(),
        forall|j: int|
            0 <= j < old(ps).len() ==> param_resolved(
                old(ps)@[j],
                #[trigger] final(ps)@[j],
                table_view(names@),
                strs_view(tps@),
            ),
{
    let ghost p0 = ps@;
    let mut j: usize = 0;
    while j < ps.len()
        invariant
            j <= ps.len(),
            ps.len() == p0.len(),
            forall|k: int|
                0 <= k < j ==> param_resolved(p0[k], #[trigger] ps@[k], table_view(names@), strs_view(tps@)),
            forall|k: int| j <= k < p0.len() ==> #[trigger] ps@[k] == p0[k],
        decreases ps.len() - j,
    {
        let t = resolve_m3_type(&ps[j].type_expr, names, tps);
        ps[j].type_expr = t;
        j = j + 1;
    }
}

/// Fixes one bootstrap class in place (see [`class_fixed`]).
fn fix_m3_class(c: &mut Class, names: &Vec<(String, ElementId)>, is_any: bool)
    ensures
        class_fixed(*old(c), *final(c), table_view(names@), is_any),
{
    let ghost c0 = *c;
    let tps = copy_names(&c.type_parameters);
    let mut k: usize = 0;
    while k < c.properties.len()
        invariant
            k <= c.properties.len(),
            c.properties.len() == c0.properties.len(),
            strs_view(tps@) == strs_view(c0.type_parameters@),
            forall|j: int|
                0 <= j < k ==> prop_resolved(
                    c0.properties@[j],
                    #[trigger] c.properties@[j],
                    table_view(names@),
                    strs_view(tps@),
                ),
            forall|j: int| k <= j < c0.properties.len() ==> #[trigger] c.properties@[j] == c0.properties@[j],
            c.super_types == c0.super_types,
            c.qualified_properties == c0.qualified_properties,
            c.type_parameters == c0.type_parameters,
            c.type_parameter_variances == c0.type_parameter_variances,
            c.multiplicity_parameters == c0.multiplicity_parameters,
            c.type_variable_parameters == c0.type_variable_parameters,
            c.constraints == c0.constraints,
            c.stereotypes == c0.stereotypes,
            c.tagged_values == c0.tagged_values,
            c.original_milestoned_properties == c0.original_milestoned_properties,
        decreases c.properties.len() - k,
    {
        let t = resolve_m3_type(&c.properties[k].type_expr, names, &tps);
        c.properties[k].type_expr = t;
        k = k + 1;
    }
    let ghost c1 = *c;
    let mut k: usize = 0;
    while k < c.qualified_properties.len()
        invariant
            k <= c.qualified_properties.len(),
            c.qualified_properties.len() == c0.qualified_properties.len(),
            strs_view(tps@) == strs_view(c0.type_parameters@),
            forall|j: int|
                0 <= j < k ==> qp_resolved(
                    c0.qualified_properties@[j],
                    #[trigger] c.qualified_properties@[j],
                    table_view(names@),
                    strs_view(tps@),
                ),
            forall|j: int|
                k <= j < c0.qualified_properties.len() ==> #[trigger] c.qualified_properties@[j]
                    == c0.qualified_properties@[j],
            c.properties == c1.properties,
            c.super_types == c0.super_types,
            c.type_parameters == c0.type_parameters,
            c.type_parameter_variances == c0.type_parameter_variances,
            c.multiplicity_parameters == c0.multiplicity_parameters,
            c.type_variable_parameters == c0.type_variable_parameters,
            c.constraints == c0.constraints,
            c.stereotypes == c0.stereotypes,
            c.tagged_values == c0.tagged_values,
            c.original_milestoned_properties == c0.original_milestoned_properties,
        decreases c.qualified_properties.len() - k,
    {
        let t = resolve_m3_type(&c.qualified_properties[k].return_type, names, &tps);
        c.qualified_properties[k].return_type = t;
        resolve_m3_params(&mut c.qualified_properties[k].parameters, names, &tps);
        k = k + 1;
    }
    let mut sup: Vec<TypeExpr> = Vec::new();
    let mut k: usize = 0;
    while k < c.super_types.len()
        invariant
            k <= c.super_types.len(),
            c.super_types == c0.super_types,
            strs_view(tps@) == strs_view(c0.type_parameters@),
            sup.len() == k,
            forall|j: int|
                0 <= j < k ==> #[trigger] sup@[j]@ == m3_resolve(
                    c0.super_types@[j]@,
                    table_view(names@),
                    strs_view(tps@),
                ),
        decreases c.super_types.len() - k,
    {
        sup.push(resolve_m3_type(&c.super_types[k], names, &tps));
        k = k + 1;
    }
    if !is_any && sup.len() == 0 {
        sup.push(bare_named_type(any_id()));
    }
    c.super_types = sup;
    assert(types_view(c.super_types@) =~= fixed_supers(c0, table_view(names@), is_any));
}

/// Binds the names the metamodel reader left unresolved in the bootstrap
/// chunk to the chunk's own classes, and makes `Any` the supertype of
/// every bootstrap class (other than `Any`) that declares none (see
/// [`m3_fixed`]).
pub fn resolve_m3_supertypes(model: &mut PureModel)
    requires
        old(model).chunks.len() > 0,
        old(model).chunks@[0].elements.items.len() <= old(model).chunks@[0].nodes.items.len(),
        old(model).chunks@[0].elements.items.len() <= u32::MAX,
    ensures
        m3_fixed(*old(model), *final(model)),
{
    let ghost m0 = *model;
    let m3_count = model.chunks[0].elements.items.len();
    let mut names: Vec<(String, ElementId)> = Vec::new();
    let mut i: usize = 0;
    while i < m3_count
        invariant
            i <= m3_count,
            *model == m0,
            m3_count == m0.chunks@[0].elements.items.len(),
            m3_count <= m0.chunks@[0].nodes.items.len(),
            m3_count <= u32::MAX,
            m0.chunks.len() > 0,
            names.len() == i,
            table_view(names@) == bootstrap_names(m0, i as int),
        decreases m3_count - i,
    {
        let name = model.chunks[0].nodes.items[i].name.clone();
        let ghost before = names@;
        names.push((name, ElementId { chunk_id: 0, local_idx: i as u32 }));
        assert(names@ == before.push((name, ElementId { chunk_id: 0, local_idx: i as u32 })));
        assert(table_view(names@) =~= bootstrap_names(m0, i + 1)) by {
            assert forall|j: int| 0 <= j < i + 1 implies table_view(names@)[j] == bootstrap_names(m0, i + 1)[j] by {
                if j < i {
                    assert(table_view(names@)[j] == table_view(before)[j]);
                    assert(table_view(before)[j] == bootstrap_names(m0, i as int)[j]);
                }
            }
        }
        i = i + 1;
    }
    let ghost nv = bootstrap_names(m0, m3_count as int);
    let mut k: usize = 0;
    while k < m3_count
        invariant
            k <= m3_count,
            m3_count == m0.chunks@[0].elements.items.len(),
            m0.chunks.len() > 0,
            table_view(names@) == nv,
            nv == bootstrap_names(m0, m3_count as int),
            same_but_bootstrap_elements(m0, *model),
            forall|j: int|
                0 <= j < k ==> match #[trigger] m0.chunks@[0].elements.items@[j] {
                    Element::Class(c) => match model.chunks@[0].elements.items@[j] {
                        Element::Class(c2) => class_fixed(c, c2, nv, j == 0),
                        _ => false,
                    },
                    e => model.chunks@[0].elements.items@[j] == e,
                },
            forall|j: int|
                k <= j < m3_count ==> #[trigger] model.chunks@[0].elements.items@[j]
                    == m0.chunks@[0].elements.items@[j],
        decreases m3_count - k,
    {
        match &mut model.chunks[0].elements.items[k] {
            Element::Class(c) => {
                fix_m3_class(c, &names, k == 0);
            },
            _ => {},
        }
        k = k + 1;
    }
}


/// Path of the metamodel class `GenericType`.
pub open spec fn generic_type_path() -> Seq<Seq<char>> {
    seq!["meta"@, "pure"@, "metamodel"@, "type"@, "generics"@, "GenericType"@]
}

/// Path of the metamodel class `ElementOverride`.
pub open spec fn element_override_path() -> Seq<Seq<char>> {
    seq!["meta"@, "pure"@, "metamodel"@, "type"@, "ElementOverride"@]
}

/// Source position recorded on `Any`'s reflective properties.
pub open spec fn reflective_source() -> SourceInfoView {
    SourceInfoView {
        source: "<bootstrap-Any-properties>"@,
        start_line: 0,
        start_column: 0,
        end_line: 0,
        end_column: 0,
    }
}

/// `Any`'s two reflective properties, typed by the resolved classes.
pub open spec fn reflective_props(gt: ElementId, eo: ElementId) -> Seq<PropertyView> {
    seq![
        synth_prop_view("classifierGenericType"@, reflective_source(), bare_named(gt), MultView::ZeroOrOne, None),
        synth_prop_view("elementOverride"@, reflective_source(), bare_named(eo), MultView::ZeroOrOne, None),
    ]
}

/// The class already has one of the reflective properties.
pub open spec fn has_reflective(c: Class) -> bool {
    exists|k: int|
        0 <= k < c.properties.len() && (#[trigger] c.properties@[k].name@ == "classifierGenericType"@
            || c.properties@[k].name@ == "elementOverride"@)
}

/// `Any` (bootstrap slot 0) gains its reflective properties when both
/// metamodel classes resolve, `Any` is a class and neither property is
/// there yet; otherwise nothing changes.
pub open spec fn any_wired(before: PureModel, after: PureModel) -> bool {
    let gt = before.spec_resolve_by_path(generic_type_path());
    let eo = before.spec_resolve_by_path(element_override_path());
    if gt is Some && eo is Some && before.chunks.len() > 0 && before.chunks@[0].elements.items.len() > 0 {
        match before.chunks@[0].elements.items@[0] {
            Element::Class(c) => if has_reflective(c) {
                after == before
            } else {
                &&& same_but_bootstrap_elements(before, after)
                &&& forall|i: int|
                    1 <= i < before.chunks@[0].elements.items.len() ==> #[trigger] after.chunks@[0].elements.items@[i]
                        == before.chunks@[0].elements.items@[i]
                &&& match after.chunks@[0].elements.items@[0] {
                    Element::Class(c2) => {
                        &&& props_view(c2.properties@) == props_view(c.properties@) + reflective_props(
                            gt->0,
                            eo->0,
                        )
                        &&& c2.super_types == c.super_types
                        &&& c2.qualified_properties == c.qualified_properties
                        &&& c2.type_parameters == c.type_parameters
                        &&& c2.type_parameter_variances == c.type_parameter_variances
                        &&& c2.multiplicity_parameters == c.multiplicity_parameters
                        &&& c2.type_variable_parameters == c.type_variable_parameters
                        &&& c2.constraints == c.constraints
                        &&& c2.stereotypes == c.stereotypes
                        &&& c2.tagged_values == c.tagged_values
                        &&& c2.original_milestoned_properties == c.original_milestoned_properties
                    },
                    _ => false,
                }
            },
            _ => after == before,
        }
    } else {
        after == before
    }
}

/// A path given as literal segments.
pub(crate) fn path_of(segs: &[&str]) -> (r: Vec<String>)
    ensures
        names_view(r@) == segs@.map_values(|s: &str| s@),
{
    let mut r: Vec<String> = Vec::new();
    let mut i: usize = 0;
    while i < segs.len()
        invariant
            i <= segs.len(),
            names_view(r@) == segs@.map_values(|s: &str| s@).take(i as int),
        decreases segs.len() - i,
    {
        let ghost before = r@;
        r.push(segs[i].to_owned());
        assert(names_view(r@) =~= names_view(before).push(segs@[i as int]@));
        assert(names_view(r@) =~= segs@.map_values(|s: &str| s@).take(i + 1));
        i = i + 1;
    }
    assert(segs@.map_values(|s: &str| s@).take(segs.len() as int) =~= segs@.map_values(|s: &str| s@));
    r
}

/// The reflective property `name: Class[0..1]`.
fn reflective_property(name: &str, class: ElementId) -> (r: Property)
    ensures
        r@ == synth_prop_view(name@, reflective_source(), bare_named(class), MultView::ZeroOrOne, None),
{
    let si = SourceInfo {
        source: "<bootstrap-Any-properties>".to_owned(),
        start_line: 0,
        start_column: 0,
        end_line: 0,
        end_column: 0,
    };
    let r = Property {
        name: name.to_owned(),
        source_info: si,
        type_expr: bare_named_type(class),
        multiplicity: Multiplicity::ZeroOrOne,
        aggregation: None,
        default_value: None,
        stereotypes: Vec::new(),
        tagged_values: Vec::new(),
    };
    assert(r@.stereotypes =~= crate::milestoning::synthesis::marker_list(None));
    assert(r@.tagged_values =~= Seq::<crate::nodes::TaggedValueRefView>::empty());
    r
}

/// Adds to `Any` the reflective properties `classifierGenericType` and
/// `elementOverride`, which the metamodel declares in a form its reader
/// skips (see [`any_wired`]).
pub fn wire_any_reflective_properties(model: &mut PureModel)
    requires
        old(model).wf(),
        old(model).children_resolvable(),
    ensures
        any_wired(*old(model), *final(model)),
{
    let gt_path = path_of(&["meta", "pure", "metamodel", "type", "generics", "GenericType"]);
    let eo_path = path_of(&["meta", "pure", "metamodel", "type", "ElementOverride"]);
    assert(names_view(gt_path@) =~= generic_type_path());
    assert(names_view(eo_path@) =~= element_override_path());
    let generic_type_id = match model.resolve_by_path(gt_path.as_slice()) {
        Some(id) => id,
        None => {
            return;
        },
    };
    let element_override_id = match model.resolve_by_path(eo_path.as_slice()) {
        Some(id) => id,
        None => {
            return;
        },
    };
    if model.chunks.len() == 0 || model.chunks[0].elements.items.len() == 0 {
        return;
    }
    let wanted = match &model.chunks[0].elements.items[0] {
        Element::Class(any_cls) => {
            let mut found = false;
            let mut k: usize = 0;
            while k < any_cls.properties.len()
                invariant
                    k <= any_cls.properties.len(),
                    found <==> exists|j: int|
                        0 <= j < k && (#[trigger] any_cls.properties@[j].name@ == "classifierGenericType"@
                            || any_cls.properties@[j].name@ == "elementOverride"@),
                decreases any_cls.properties.len() - k,
            {
                let nm = any_cls.properties[k].name.as_str();
                if str_eq(nm, "classifierGenericType") || str_eq(nm, "elementOverride") {
                    found = true;
                }
                k = k + 1;
            }
            !found
        },
        _ => false,
    };
    if !wanted {
        return;
    }
    let ghost m0 = *model;
    match &mut model.chunks[0].elements.items[0] {
        Element::Class(any_cls) => {
            let ghost p0 = any_cls.properties@;
            any_cls.properties.push(reflective_property("classifierGenericType", generic_type_id));
            any_cls.properties.push(reflective_property("elementOverride", element_override_id));
            assert(props_view(any_cls.properties@) =~= props_view(p0) + reflective_props(
                generic_type_id,
                element_override_id,
            ));
        },
        _ => {},
    }
    proof {
        assert forall|c: int| 1 <= c < m0.chunks.len() implies #[trigger] model.chunks@[c] == m0.chunks@[c] by {}
        assert forall|i: int| 1 <= i < m0.chunks@[0].elements.items.len() implies #[trigger] model.chunks@[0].elements.items@[i]
            == m0.chunks@[0].elements.items@[i] by {}
    }
}

/// Wiring `Any` twice is wiring it once: a second run finds the
/// reflective properties already there (or the same reason to do
/// nothing) and leaves the model as it is.
pub proof fn lemma_wire_any_idempotent(m0: PureModel, m1: PureModel, m2: PureModel)
    requires
        any_wired(m0, m1),
        any_wired(m1, m2),
    ensures
        m2 == m1,
{
    if m1 != m0 {
        let c1 = match m1.chunks@[0].elements.items@[0] {
            Element::Class(c) => c,
            _ => arbitrary(),
        };
        let c0 = match m0.chunks@[0].elements.items@[0] {
            Element::Class(c) => c,
            _ => arbitrary(),
        };
        let n = c0.properties.len() as int;
        assert(props_view(c1.properties@)[n] == reflective_props(
            m0.spec_resolve_by_path(generic_type_path())->0,
            m0.spec_resolve_by_path(element_override_path())->0,
        )[0]);
        assert(c1.properties@[n].name@ == "classifierGenericType"@);
        assert(has_reflective(c1));
    }
}


// ---------------------------------------------------------------------------
// Element shells
// ---------------------------------------------------------------------------

/// A parameter as declared in source.
#[derive(Debug)]
pub struct SourceParameter {
    pub name: String,
    pub source_info: SourceInfo,
}

/// What the first pass reads of a parsed element: its kind and the
/// syntactic facts known before any resolution.
#[derive(Debug)]
pub enum SourceElement {
    Class { type_parameters: Vec<String>, multiplicity_parameters: Vec<String> },
    Enumeration,
    Function { name: String, parameters: Vec<SourceParameter> },
    NativeFunction { name: String, parameters: Vec<SourceParameter> },
    Profile { stereotype_names: Vec<SpannedString>, tag_names: Vec<SpannedString> },
    Association,
    Measure,
    Primitive,
}

/// `b` holds the same names and spans as `a`.
pub open spec fn spanned_same(a: Seq<SpannedString>, b: Seq<SpannedString>) -> bool {
    &&& b.len() == a.len()
    &&& forall|i: int|
        0 <= i < a.len() ==> #[trigger] b[i].value@ == a[i].value@ && b[i].source_info@ == a[i].source_info@
}

/// The placeholder parameters of a function shell: the declared names and
/// spans, typed `Any[1]` until the signature is resolved.
pub open spec fn placeholder_params(src: Seq<SourceParameter>, ps: Seq<Parameter>) -> bool {
    &&& ps.len() == src.len()
    &&& forall|i: int|
        0 <= i < src.len() ==> {
            &&& (#[trigger] ps[i]).name@ == src[i].name@
            &&& ps[i].type_expr@ == bare_named(any_id())
            &&& ps[i].multiplicity@ == MultView::PureOne
            &&& ps[i].source_info matches Some(si) && si@ == src[i].source_info@
        }
}

/// A function shell: the declared name and placeholder parameters,
/// returning `Any[1]`, with an empty body and no annotations.
pub open spec fn function_shell(f: crate::nodes::Function, name: String, params: Seq<SourceParameter>, native: bool) -> bool {
    &&& f.function_name@ == name@
    &&& f.is_native == native
    &&& placeholder_params(params, f.parameters@)
    &&& f.return_type@ == bare_named(any_id())
    &&& f.return_multiplicity@ == MultView::PureOne
    &&& f.body@.len() == 0
    &&& f.stereotypes@.len() == 0
    &&& f.tagged_values@.len() == 0
}

/// `r` is the first-pass shell of `e`: the element of the same kind
/// carrying only what is known from the source (a class's type and
/// multiplicity parameters, all invariant; a function's name and
/// placeholder parameters; a profile's stereotype and tag names), every
/// other part empty.
pub open spec fn is_shell_of(e: SourceElement, r: Element) -> bool {
    match e {
        SourceElement::Class { type_parameters, multiplicity_parameters } => match r {
            Element::Class(c) => {
                &&& strs_view(c.type_parameters@) == strs_view(type_parameters@)
                &&& c.type_parameter_variances@.len() == type_parameters.len()
                &&& forall|i: int|
                    0 <= i < type_parameters.len() ==> #[trigger] c.type_parameter_variances@[i]
                        == crate::nodes::Variance::Invariant
                &&& strs_view(c.multiplicity_parameters@) == strs_view(multiplicity_parameters@)
                &&& c.type_variable_parameters@.len() == 0
                &&& c.super_types@.len() == 0
                &&& c.properties@.len() == 0
                &&& c.qualified_properties@.len() == 0
                &&& c.constraints@.len() == 0
                &&& c.stereotypes@.len() == 0
                &&& c.tagged_values@.len() == 0
                &&& c.original_milestoned_properties@.len() == 0
            },
            _ => false,
        },
        SourceElement::Enumeration => match r {
            Element::Enumeration(x) => x.values@.len() == 0 && x.stereotypes@.len() == 0
                && x.tagged_values@.len() == 0,
            _ => false,
        },
        SourceElement::Function { name, parameters } => match r {
            Element::Function(f) => function_shell(f, name, parameters@, false),
            _ => false,
        },
        SourceElement::NativeFunction { name, parameters } => match r {
            Element::Function(f) => function_shell(f, name, parameters@, true),
            _ => false,
        },
        SourceElement::Profile { stereotype_names, tag_names } => match r {
            Element::Profile(p) => spanned_same(stereotype_names@, p.stereotypes@) && spanned_same(
                tag_names@,
                p.tags@,
            ),
            _ => false,
        },
        SourceElement::Association => match r {
            Element::Association(a) => a.properties@.len() == 0 && a.qualified_properties@.len() == 0
                && a.stereotypes@.len() == 0 && a.tagged_values@.len() == 0
                && a.original_milestoned_properties@.len() == 0,
            _ => false,
        },
        SourceElement::Measure => match r {
            Element::Measure(x) => x.canonical_unit is None && x.non_canonical_units@.len() == 0,
            _ => false,
        },
        SourceElement::Primitive => match r {
            Element::PrimitiveType(x) => x.super_type is None && x.super_type_value_arguments@.len() == 0
                && x.type_variable_parameters@.len() == 0 && x.constraints@.len() == 0,
            _ => false,
        },
    }
}

fn copy_spanned(v: &Vec<SpannedString>) -> (r: Vec<SpannedString>)
    ensures
        spanned_same(v@, r@),
{
    let mut r: Vec<SpannedString> = Vec::new();
    let mut i: usize = 0;
    while i < v.len()
        invariant
            i <= v.len(),
            r.len() == i,
            forall|k: int|
                0 <= k < i ==> #[trigger] r@[k].value@ == v@[k].value@ && r@[k].source_info@ == v@[k].source_info@,
        decreases v.len() - i,
    {
        r.push(SpannedString { value: v[i].value.clone(), source_info: v[i].source_info.duplicate() });
        i = i + 1;
    }
    r
}

fn placeholders(src: &Vec<SourceParameter>) -> (r: Vec<Parameter>)
    ensures
        placeholder_params(src@, r@),
{
    let mut r: Vec<Parameter> = Vec::new();
    let mut i: usize = 0;
    while i < src.len()
        invariant
            i <= src.len(),
            r.len() == i,
            forall|k: int|
                0 <= k < i ==> {
                    &&& (#[trigger] r@[k]).name@ == src@[k].name@
                    &&& r@[k].type_expr@ == bare_named(any_id())
                    &&& r@[k].multiplicity@ == MultView::PureOne
                    &&& r@[k].source_info matches Some(si) && si@ == src@[k].source_info@
                },
        decreases src.len() - i,
    {
        r.push(
            Parameter {
                name: src[i].name.clone(),
                type_expr: bare_named_type(any_id()),
                multiplicity: Multiplicity::PureOne,
                source_info: Some(src[i].source_info.duplicate()),
            },
        );
        i = i + 1;
    }
    r
}

fn function_shell_of(name: &String, parameters: &Vec<SourceParameter>, native: bool) -> (r: crate::nodes::Function)
    ensures
        function_shell(r, *name, parameters@, native),
{
    crate::nodes::Function {
        function_name: name.clone(),
        is_native: native,
        parameters: placeholders(parameters),
        return_type: bare_named_type(any_id()),
        return_multiplicity: Multiplicity::PureOne,
        body: Vec::new(),
        stereotypes: Vec::new(),
        tagged_values: Vec::new(),
    }
}

/// The first-pass shell of a parsed element (see [`is_shell_of`]).
pub fn create_shell(element: &SourceElement) -> (r: Element)
    ensures
        is_shell_of(*element, r),
{
    match element {
        SourceElement::Class { type_parameters, multiplicity_parameters } => {
            let mut variances: Vec<crate::nodes::Variance> = Vec::new();
            let mut i: usize = 0;
            while i < type_parameters.len()
                invariant
                    i <= type_parameters.len(),
                    variances.len() == i,
                    forall|k: int| 0 <= k < i ==> #[trigger] variances@[k] == crate::nodes::Variance::Invariant,
                decreases type_parameters.len() - i,
            {
                variances.push(crate::nodes::Variance::Invariant);
                i = i + 1;
            }
            Element::Class(
                Class {
                    type_parameters: copy_names(type_parameters),
                    type_parameter_variances: variances,
                    multiplicity_parameters: copy_names(multiplicity_parameters),
                    type_variable_parameters: Vec::new(),
                    super_types: Vec::new(),
                    properties: Vec::new(),
                    qualified_properties: Vec::new(),
                    constraints: Vec::new(),
                    stereotypes: Vec::new(),
                    tagged_values: Vec::new(),
                    original_milestoned_properties: Vec::new(),
                },
            )
        },
        SourceElement::Enumeration => Element::Enumeration(
            crate::nodes::Enumeration { values: Vec::new(), stereotypes: Vec::new(), tagged_values: Vec::new() },
        ),
        SourceElement::Function { name, parameters } => Element::Function(
            function_shell_of(name, parameters, false),
        ),
        SourceElement::NativeFunction { name, parameters } => Element::Function(
            function_shell_of(name, parameters, true),
        ),
        SourceElement::Profile { stereotype_names, tag_names } => Element::Profile(
            crate::nodes::Profile { stereotypes: copy_spanned(stereotype_names), tags: copy_spanned(tag_names) },
        ),
        SourceElement::Association => Element::Association(
            crate::nodes::Association {
                properties: Vec::new(),
                qualified_properties: Vec::new(),
                stereotypes: Vec::new(),
                tagged_values: Vec::new(),
                original_milestoned_properties: Vec::new(),
            },
        ),
        SourceElement::Measure => Element::Measure(
            crate::nodes::Measure { canonical_unit: None, non_canonical_units: Vec::new() },
        ),
        SourceElement::Primitive => Element::PrimitiveType(
            crate::nodes::PrimitiveType {
                super_type: None,
                super_type_value_arguments: Vec::new(),
                type_variable_parameters: Vec::new(),
                constraints: Vec::new(),
            },
        ),
    }
}

} // verus!
