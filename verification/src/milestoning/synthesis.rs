//! Milestoning synthesis: the date properties and carrier slot of a
//! milestoned class, and, for every property whose target class is
//! milestoned, the edge-point property and the qualified-property
//! signatures that replace it.

use vstd::prelude::*;

use crate::expr::{params_view, Parameter, ParameterView};
use crate::ids::{date_id, ElementId};
use crate::milestoning::validate::{issues_view, report_edge_point_collision, IssueView, MilestoningIssue};
use crate::milestoning::{
    edge_point_property_name, range_property_name, MilestoningStereotype,
    GENERATED_MILESTONING_DATE_STEREOTYPE, GENERATED_MILESTONING_STEREOTYPE, MILESTONING_SLOT_NAME,
};
use crate::model::{names_view, Element, PureModel};
use crate::milestoning::{carrier_path, milestoning_profile_path, resolve_milestoning_profile, resolve_temporal_profile, temporal_profile_path, direct_temporal, direct_temporal_stereotypes, inherited_temporal_stereotype, resolve_carrier};
use crate::hierarchy::some_property_named;
use crate::nodes::{Association, Class};
use crate::multiplicity::{widen, widen_to_many};
use crate::nodes::{
    props_view, qps_view, Property, PropertyView, QualifiedProperty, QualifiedPropertyView,
    StereotypeRef, StereotypeRefView,
};
use crate::types::{
    ConstValueView, MultView, Multiplicity, SourceInfo, SourceInfoView, TypeExpr, TypeExprView,
};

verus! {

/// The carrier classes of the three stereotypes, where the model has them.
#[derive(Clone, Copy, Debug)]
pub struct CarrierIds {
    pub business_date: Option<ElementId>,
    pub processing_date: Option<ElementId>,
    pub bitemporal: Option<ElementId>,
}

impl CarrierIds {
    /// The carrier class bound to the `milestoning` slot for `s`.
    pub fn for_stereotype(self, s: MilestoningStereotype) -> (r: Option<ElementId>)
        ensures
            r == match s {
                MilestoningStereotype::BusinessTemporal => self.business_date,
                MilestoningStereotype::ProcessingTemporal => self.processing_date,
                MilestoningStereotype::Bitemporal => self.bitemporal,
            },
    {
        match s {
            MilestoningStereotype::BusinessTemporal => self.business_date,
            MilestoningStereotype::ProcessingTemporal => self.processing_date,
            MilestoningStereotype::Bitemporal => self.bitemporal,
        }
    }
}

/// The view of a bare named type `element`.
pub open spec fn bare_named(element: ElementId) -> TypeExprView {
    TypeExprView::Named {
        element,
        type_arguments: Seq::empty(),
        multiplicity_arguments: Seq::empty(),
        value_arguments: Seq::empty(),
        source_info: None,
    }
}

pub(crate) fn bare_named_type(element: ElementId) -> (r: TypeExpr)
    ensures
        r@ == bare_named(element),
{
    let r = TypeExpr::Named {
        element,
        type_arguments: Vec::new(),
        multiplicity_arguments: Vec::new(),
        value_arguments: Vec::new(),
        source_info: None,
    };
    assert(r@->type_arguments =~= Seq::<TypeExprView>::empty());
    assert(r@->multiplicity_arguments =~= Seq::<MultView>::empty());
    assert(r@->value_arguments =~= Seq::<ConstValueView>::empty());
    r
}

/// A stereotype application of `value` on `profile`, when the profile is
/// known.
pub open spec fn marker_view(profile: Option<ElementId>, value: Seq<char>) -> Option<StereotypeRefView> {
    match profile {
        Some(p) => Some(StereotypeRefView { profile: p, value, source_info: None }),
        None => None,
    }
}

/// The marker on synthesized date properties and the carrier slot.
pub fn date_stereotype_ref(milestoning_profile: Option<ElementId>) -> (r: Option<StereotypeRef>)
    ensures
        opt_stereo_view(r) == marker_view(milestoning_profile, GENERATED_MILESTONING_DATE_STEREOTYPE@),
{
    match milestoning_profile {
        Some(profile) => Some(
            StereotypeRef {
                profile,
                value: GENERATED_MILESTONING_DATE_STEREOTYPE.to_owned(),
                source_info: None,
            },
        ),
        None => None,
    }
}

/// The marker on synthesized edge-point and qualified properties.
pub fn generated_stereotype_ref(milestoning_profile: Option<ElementId>) -> (r: Option<StereotypeRef>)
    ensures
        opt_stereo_view(r) == marker_view(milestoning_profile, GENERATED_MILESTONING_STEREOTYPE@),
{
    match milestoning_profile {
        Some(profile) => Some(
            StereotypeRef {
                profile,
                value: GENERATED_MILESTONING_STEREOTYPE.to_owned(),
                source_info: None,
            },
        ),
        None => None,
    }
}

/// View of an optional stereotype application.
pub open spec fn opt_stereo_view(s: Option<StereotypeRef>) -> Option<StereotypeRefView> {
    match s {
        Some(x) => Some(x@),
        None => None,
    }
}

/// The stereotype list holding the marker, if any.
pub open spec fn marker_list(m: Option<StereotypeRefView>) -> Seq<StereotypeRefView> {
    match m {
        Some(x) => seq![x],
        None => Seq::empty(),
    }
}

fn marker_vec(m: Option<StereotypeRef>) -> (r: Vec<StereotypeRef>)
    ensures
        crate::nodes::stereos_view(r@) == marker_list(opt_stereo_view(m)),
{
    let mut v: Vec<StereotypeRef> = Vec::new();
    match m {
        Some(x) => {
            v.push(x);
        },
        None => {},
    }
    assert(crate::nodes::stereos_view(v@) =~= marker_list(opt_stereo_view(m)));
    v
}

fn marker_vec_ref(m: Option<&StereotypeRef>) -> (r: Vec<StereotypeRef>)
    ensures
        crate::nodes::stereos_view(r@) == marker_list(
            match m {
                Some(x) => Some(x@),
                None => None,
            },
        ),
{
    let mut v: Vec<StereotypeRef> = Vec::new();
    match m {
        Some(x) => {
            v.push(x.duplicate());
        },
        None => {},
    }
    assert(crate::nodes::stereos_view(v@) =~= marker_list(
        match m {
            Some(x) => Some(x@),
            None => None,
        },
    ));
    v
}

/// A synthesized property `name: type[mult]`, marked, without tags,
/// aggregation or default.
pub open spec fn synth_prop_view(
    name: Seq<char>,
    si: SourceInfoView,
    t: TypeExprView,
    m: MultView,
    marker: Option<StereotypeRefView>,
) -> PropertyView {
    PropertyView {
        name,
        source_info: si,
        type_expr: t,
        multiplicity: m,
        aggregation: None,
        default_value: None,
        stereotypes: marker_list(marker),
        tagged_values: Seq::empty(),
    }
}

/// The date property `name: Date[1]`.
pub fn synth_date_property(
    name: &str,
    source_info: SourceInfo,
    generated_date_stereotype: Option<StereotypeRef>,
) -> (r: Property)
    ensures
        r@ == synth_prop_view(
            name@,
            source_info@,
            bare_named(date_id()),
            MultView::PureOne,
            opt_stereo_view(generated_date_stereotype),
        ),
{
    let r = Property {
        name: name.to_owned(),
        source_info,
        type_expr: bare_named_type(date_id()),
        multiplicity: Multiplicity::PureOne,
        aggregation: None,
        default_value: None,
        stereotypes: marker_vec(generated_date_stereotype),
        tagged_values: Vec::new(),
    };
    assert(r@.tagged_values =~= Seq::<crate::nodes::TaggedValueRefView>::empty());
    r
}

/// The carrier slot `milestoning: Carrier[0..1]`.
pub fn synth_milestoning_slot_property(
    carrier: ElementId,
    source_info: SourceInfo,
    generated_date_stereotype: Option<StereotypeRef>,
) -> (r: Property)
    ensures
        r@ == synth_prop_view(
            MILESTONING_SLOT_NAME@,
            source_info@,
            bare_named(carrier),
            MultView::ZeroOrOne,
            opt_stereo_view(generated_date_stereotype),
        ),
{
    let r = Property {
        name: MILESTONING_SLOT_NAME.to_owned(),
        source_info,
        type_expr: bare_named_type(carrier),
        multiplicity: Multiplicity::ZeroOrOne,
        aggregation: None,
        default_value: None,
        stereotypes: marker_vec(generated_date_stereotype),
        tagged_values: Vec::new(),
    };
    assert(r@.tagged_values =~= Seq::<crate::nodes::TaggedValueRefView>::empty());
    r
}

/// The date parameter `name: Date[1]`.
pub open spec fn date_param_view(name: Seq<char>, si: SourceInfoView) -> ParameterView {
    ParameterView {
        name,
        type_expr: bare_named(date_id()),
        multiplicity: MultView::PureOne,
        source_info: Some(si),
    }
}

/// A date parameter `name: Date[1]`.
pub fn synth_date_param(name: &str, source_info: SourceInfo) -> (r: Parameter)
    ensures
        r@ == date_param_view(name@, source_info@),
{
    Parameter {
        name: name.to_owned(),
        type_expr: bare_named_type(date_id()),
        multiplicity: Multiplicity::PureOne,
        source_info: Some(source_info),
    }
}

/// A qualified-property signature named `name` with `params`, returning
/// what `original` holds; empty body, marked, no tags.
pub open spec fn signature_view(
    name: Seq<char>,
    params: Seq<ParameterView>,
    original: Property,
    marker: Option<StereotypeRefView>,
) -> QualifiedPropertyView {
    QualifiedPropertyView {
        name,
        source_info: original.source_info@,
        parameters: params,
        return_type: original.type_expr@,
        return_multiplicity: original.multiplicity@,
        body: Seq::empty(),
        stereotypes: marker_list(marker),
        tagged_values: Seq::empty(),
    }
}

/// The signature `name(params): T[m]` of a synthesized qualified
/// property, `T[m]` being the original property's type.
pub fn synth_qualified_property_signature(
    name: String,
    parameters: Vec<Parameter>,
    original: &Property,
    generated_stereotype: Option<&StereotypeRef>,
) -> (r: QualifiedProperty)
    ensures
        r@ == signature_view(
            name@,
            params_view(parameters@),
            *original,
            match generated_stereotype {
                Some(x) => Some(x@),
                None => None,
            },
        ),
{
    let r = QualifiedProperty {
        name,
        source_info: original.source_info.duplicate(),
        parameters,
        return_type: original.type_expr.duplicate(),
        return_multiplicity: original.multiplicity.duplicate(),
        body: Vec::new(),
        stereotypes: marker_vec_ref(generated_stereotype),
        tagged_values: Vec::new(),
    };
    assert(r@.body =~= Seq::<crate::expr::ValueSpecView>::empty());
    assert(r@.tagged_values =~= Seq::<crate::nodes::TaggedValueRefView>::empty());
    r
}

fn contains_name(names: &[String], name: &String) -> (r: bool)
    ensures
        r == names_view(names@).contains(name@),
{
    let mut i: usize = 0;
    while i < names.len()
        invariant
            i <= names@.len(),
            forall|j: int| 0 <= j < i ==> names@[j]@ != name@,
        decreases names.len() - i,
    {
        if names[i] == *name {
            assert(names_view(names@)[i as int] == name@);
            return true;
        }
        i = i + 1;
    }
    assert forall|j: int| 0 <= j < names_view(names@).len() implies names_view(names@)[j]
        != name@ by {
        assert(names_view(names@)[j] == names@[j]@);
    }
    false
}

/// The edge-point name of `p`.
pub open spec fn edge_name(p: Seq<char>) -> Seq<char> {
    p + "AllVersions"@
}

/// The range-property name of `p`.
pub open spec fn range_name(p: Seq<char>) -> Seq<char> {
    p + "AllVersionsInRange"@
}

/// The qualified properties synthesized for `original` (edge point not
/// blocked): `p()` when asked for, `p(pd, bd)` for a bitemporal target,
/// `p(td)`, and `pAllVersionsInRange(start, end)` unless its name is taken.
pub open spec fn synthesized_qps(
    original: Property,
    target: MilestoningStereotype,
    emit_no_arg: bool,
    marker: Option<StereotypeRefView>,
    range_taken: bool,
) -> Seq<QualifiedPropertyView> {
    let si = original.source_info@;
    let name = original.name@;
    let no_arg = if emit_no_arg {
        seq![signature_view(name, Seq::empty(), original, marker)]
    } else {
        Seq::empty()
    };
    let bi = if target == MilestoningStereotype::Bitemporal {
        seq![
            signature_view(
                name,
                seq![date_param_view("pd"@, si), date_param_view("bd"@, si)],
                original,
                marker,
            ),
        ]
    } else {
        Seq::empty()
    };
    let single = seq![signature_view(name, seq![date_param_view("td"@, si)], original, marker)];
    let range = if range_taken {
        Seq::empty()
    } else {
        seq![
            signature_view(
                range_name(name),
                seq![date_param_view("start"@, si), date_param_view("end"@, si)],
                original,
                marker,
            ),
        ]
    };
    no_arg + bi + single + range
}

/// The edge-point property replacing `original`: same type, multiplicity
/// widened to a many upper bound, aggregation kept.
pub open spec fn edge_prop_view(original: Property, marker: Option<StereotypeRefView>) -> PropertyView {
    PropertyView {
        name: edge_name(original.name@),
        source_info: original.source_info@,
        type_expr: original.type_expr@,
        multiplicity: widen(original.multiplicity@),
        aggregation: original.aggregation,
        default_value: None,
        stereotypes: marker_list(marker),
        tagged_values: Seq::empty(),
    }
}

/// What synthesizing for one property adds: properties, qualified
/// properties and reported clashes. A taken edge-point name blocks
/// everything (one clash); a taken range name drops the range signature
/// (one clash).
pub open spec fn synth_delta(
    original: Property,
    target: MilestoningStereotype,
    emit_no_arg: bool,
    marker: Option<StereotypeRefView>,
    owner: Seq<char>,
    surv_props: Seq<Seq<char>>,
    surv_qps: Seq<Seq<char>>,
) -> (Seq<PropertyView>, Seq<QualifiedPropertyView>, Seq<IssueView>) {
    let name = original.name@;
    let si = original.source_info@;
    if surv_props.contains(edge_name(name)) {
        (
            Seq::empty(),
            Seq::empty(),
            seq![
                IssueView::EdgePointCollision {
                    class_name: owner,
                    user_property_name: edge_name(name),
                    synthesized_name: edge_name(name),
                    source_info: si,
                },
            ],
        )
    } else {
        let range_taken = surv_qps.contains(range_name(name)) || surv_props.contains(
            range_name(name),
        );
        (
            seq![edge_prop_view(original, marker)],
            synthesized_qps(original, target, emit_no_arg, marker, range_taken),
            if range_taken {
                seq![
                    IssueView::EdgePointCollision {
                        class_name: owner,
                        user_property_name: range_name(name),
                        synthesized_name: range_name(name),
                        source_info: si,
                    },
                ]
            } else {
                Seq::empty()
            },
        )
    }
}

fn push_qp(qps: &mut Vec<QualifiedProperty>, q: QualifiedProperty)
    ensures
        qps_view(final(qps)@) == qps_view(old(qps)@).push(q@),
{
    qps.push(q);
    assert(qps_view(qps@) =~= qps_view(old(qps)@).push(q@));
}

/// Synthesizes the replacement surface of a property whose target class
/// carries `target`: the edge-point property `pAllVersions`, and the
/// qualified-property signatures. When a surviving property already has
/// the edge-point name, nothing is synthesized and the clash is reported;
/// when the range name is taken by a surviving property or qualified
/// property, that one signature is left out and the clash is reported.
pub fn synthesize_for_property(
    original: &Property,
    target: MilestoningStereotype,
    emit_no_arg_variant: bool,
    generated_stereotype: Option<&StereotypeRef>,
    owner_name: &String,
    survivor_property_names: &[String],
    survivor_qp_names: &[String],
    to_append_props: &mut Vec<Property>,
    to_append_qps: &mut Vec<QualifiedProperty>,
    errors: &mut Vec<MilestoningIssue>,
)
    ensures
        ({
            let d = synth_delta(
                *original,
                target,
                emit_no_arg_variant,
                match generated_stereotype {
                    Some(x) => Some(x@),
                    None => None,
                },
                owner_name@,
                names_view(survivor_property_names@),
                names_view(survivor_qp_names@),
            );
            &&& props_view(final(to_append_props)@) == props_view(old(to_append_props)@) + d.0
            &&& qps_view(final(to_append_qps)@) == qps_view(old(to_append_qps)@) + d.1
            &&& issues_view(final(errors)@) == issues_view(old(errors)@) + d.2
        }),
{
    let ghost marker = match generated_stereotype {
        Some(x) => Some(x@),
        None => None,
    };
    let edge = edge_point_property_name(original.name.as_str());
    if contains_name(survivor_property_names, &edge) {
        let stand_in = Property {
            name: edge.clone(),
            source_info: original.source_info.duplicate(),
            type_expr: original.type_expr.duplicate(),
            multiplicity: original.multiplicity.duplicate(),
            aggregation: None,
            default_value: None,
            stereotypes: Vec::new(),
            tagged_values: Vec::new(),
        };
        report_edge_point_collision(owner_name, &stand_in, edge.as_str(), errors);
        assert(props_view(to_append_props@) =~= props_view(old(to_append_props)@) + Seq::<
            PropertyView,
        >::empty());
        assert(qps_view(to_append_qps@) =~= qps_view(old(to_append_qps)@) + Seq::<
            QualifiedPropertyView,
        >::empty());
        assert(issues_view(errors@) =~= issues_view(old(errors)@) + seq![
            IssueView::EdgePointCollision {
                class_name: owner_name@,
                user_property_name: edge_name(original.name@),
                synthesized_name: edge_name(original.name@),
                source_info: original.source_info@,
            },
        ]);
        return;
    }
    let edge_mult = widen_to_many(&original.multiplicity);
    let edge_prop = Property {
        name: edge,
        source_info: original.source_info.duplicate(),
        type_expr: original.type_expr.duplicate(),
        multiplicity: edge_mult,
        aggregation: original.aggregation,
        default_value: None,
        stereotypes: marker_vec_ref(generated_stereotype),
        tagged_values: Vec::new(),
    };
    assert(edge_prop@.tagged_values =~= Seq::<crate::nodes::TaggedValueRefView>::empty());
    assert(edge_prop@ == edge_prop_view(*original, marker));
    to_append_props.push(edge_prop);
    assert(props_view(to_append_props@) =~= props_view(old(to_append_props)@) + seq![
        edge_prop_view(*original, marker),
    ]);

    let range = range_property_name(original.name.as_str());
    let range_collides = contains_name(survivor_qp_names, &range) || contains_name(
        survivor_property_names,
        &range,
    );
    if range_collides {
        let stand_in = Property {
            name: range.clone(),
            source_info: original.source_info.duplicate(),
            type_expr: original.type_expr.duplicate(),
            multiplicity: original.multiplicity.duplicate(),
            aggregation: None,
            default_value: None,
            stereotypes: Vec::new(),
            tagged_values: Vec::new(),
        };
        report_edge_point_collision(owner_name, &stand_in, range.as_str(), errors);
        assert(issues_view(errors@) =~= issues_view(old(errors)@) + seq![
            IssueView::EdgePointCollision {
                class_name: owner_name@,
                user_property_name: range_name(original.name@),
                synthesized_name: range_name(original.name@),
                source_info: original.source_info@,
            },
        ]);
    } else {
        assert(issues_view(errors@) =~= issues_view(old(errors)@) + Seq::<IssueView>::empty());
    }
    let ghost si = original.source_info@;
    let ghost name = original.name@;
    let ghost start = qps_view(to_append_qps@);
    let ghost no_arg = if emit_no_arg_variant {
        seq![signature_view(name, Seq::empty(), *original, marker)]
    } else {
        Seq::empty()
    };
    if emit_no_arg_variant {
        let no_params: Vec<Parameter> = Vec::new();
        assert(params_view(no_params@) =~= Seq::<ParameterView>::empty());
        let q = synth_qualified_property_signature(
            original.name.clone(),
            no_params,
            original,
            generated_stereotype,
        );
        push_qp(to_append_qps, q);
    }
    assert(qps_view(to_append_qps@) =~= start + no_arg);
    let ghost bi = if target == MilestoningStereotype::Bitemporal {
        seq![
            signature_view(
                name,
                seq![date_param_view("pd"@, si), date_param_view("bd"@, si)],
                *original,
                marker,
            ),
        ]
    } else {
        Seq::empty()
    };
    match target {
        MilestoningStereotype::Bitemporal => {
            let mut params: Vec<Parameter> = Vec::new();
            params.push(synth_date_param("pd", original.source_info.duplicate()));
            params.push(synth_date_param("bd", original.source_info.duplicate()));
            assert(params_view(params@) =~= seq![
                date_param_view("pd"@, si),
                date_param_view("bd"@, si),
            ]);
            let q = synth_qualified_property_signature(
                original.name.clone(),
                params,
                original,
                generated_stereotype,
            );
            push_qp(to_append_qps, q);
        },
        _ => {},
    }
    assert(qps_view(to_append_qps@) =~= start + no_arg + bi);
    let mut params: Vec<Parameter> = Vec::new();
    params.push(synth_date_param("td", original.source_info.duplicate()));
    assert(params_view(params@) =~= seq![date_param_view("td"@, si)]);
    let q = synth_qualified_property_signature(
        original.name.clone(),
        params,
        original,
        generated_stereotype,
    );
    push_qp(to_append_qps, q);
    if !range_collides {
        let mut params: Vec<Parameter> = Vec::new();
        params.push(synth_date_param("start", original.source_info.duplicate()));
        params.push(synth_date_param("end", original.source_info.duplicate()));
        assert(params_view(params@) =~= seq![
            date_param_view("start"@, si),
            date_param_view("end"@, si),
        ]);
        let q = synth_qualified_property_signature(range, params, original, generated_stereotype);
        push_qp(to_append_qps, q);
    }
    assert(qps_view(to_append_qps@) =~= start + synthesized_qps(
        *original,
        target,
        emit_no_arg_variant,
        marker,
        range_collides,
    ));
}

/// One property to rewrite: its position among the owner's properties,
/// its target class's stereotype, and whether the no-argument variant is
/// synthesized.
#[derive(Clone, Copy, Debug, PartialEq, Eq, Structural)]
pub struct PropertyRewritePlan {
    pub original_index: usize,
    pub target_stereotype: MilestoningStereotype,
    pub emit_no_arg_variant: bool,
}

/// The no-argument variant `p()` is synthesized when the owner is
/// milestoned like the target, or bitemporal.
pub open spec fn emits_no_arg(owner: Option<MilestoningStereotype>, target: MilestoningStereotype) -> bool {
    match owner {
        Some(o) => o == target || o == MilestoningStereotype::Bitemporal,
        None => false,
    }
}

/// The plans for the first `n` properties: one per property whose type is
/// a class with an (inherited) temporal stereotype.
pub open spec fn plans_upto(
    m: PureModel,
    props: Seq<Property>,
    owner: Option<MilestoningStereotype>,
    profile: ElementId,
    n: int,
) -> Seq<PropertyRewritePlan>
    decreases n,
{
    if n <= 0 {
        Seq::empty()
    } else {
        let prev = plans_upto(m, props, owner, profile, n - 1);
        match props[n - 1].type_expr {
            TypeExpr::Named { element, .. } => match m.inherited_temporal(element, profile) {
                Some(t) => prev.push(
                    PropertyRewritePlan {
                        original_index: (n - 1) as usize,
                        target_stereotype: t,
                        emit_no_arg_variant: emits_no_arg(owner, t),
                    },
                ),
                None => prev,
            },
            _ => prev,
        }
    }
}

/// Plans the rewrite of every property whose target class is milestoned
/// (directly or through its supertypes), in property order.
pub fn build_property_rewrite_plans(
    properties: &[Property],
    owner_stereotype: Option<MilestoningStereotype>,
    model: &PureModel,
    temporal_profile: ElementId,
) -> (r: Vec<PropertyRewritePlan>)
    requires
        model.hierarchy_wf(),
    ensures
        r@ == plans_upto(*model, properties@, owner_stereotype, temporal_profile, properties@.len() as int),
{
    let mut plans: Vec<PropertyRewritePlan> = Vec::new();
    let mut i: usize = 0;
    while i < properties.len()
        invariant
            model.hierarchy_wf(),
            i <= properties@.len(),
            plans@ == plans_upto(*model, properties@, owner_stereotype, temporal_profile, i as int),
        decreases properties.len() - i,
    {
        match &properties[i].type_expr {
            TypeExpr::Named { element, .. } => {
                match inherited_temporal_stereotype(model, *element, temporal_profile) {
                    Some(target_st) => {
                        let emit = match owner_stereotype {
                            Some(owner) => owner == target_st || owner
                                == MilestoningStereotype::Bitemporal,
                            None => false,
                        };
                        plans.push(
                            PropertyRewritePlan {
                                original_index: i,
                                target_stereotype: target_st,
                                emit_no_arg_variant: emit,
                            },
                        );
                    },
                    None => {},
                }
            },
            _ => {},
        }
        i = i + 1;
    }
    plans
}

/// The plans name distinct properties in range.
pub open spec fn plans_fit(plans: Seq<PropertyRewritePlan>, n: int) -> bool {
    &&& forall|k: int| 0 <= k < plans.len() ==> (#[trigger] plans[k]).original_index < n
    &&& forall|a: int, b: int|
        0 <= a < plans.len() && 0 <= b < plans.len() && a != b ==> plans[a].original_index
            != plans[b].original_index
}

/// Some plan rewrites property `i`.
pub open spec fn planned(plans: Seq<PropertyRewritePlan>, i: int) -> bool {
    exists|k: int| 0 <= k < plans.len() && (#[trigger] plans[k]).original_index == i
}

/// The properties from position `i` on that no plan rewrites.
pub open spec fn kept_from(props: Seq<Property>, plans: Seq<PropertyRewritePlan>, i: int) -> Seq<Property>
    decreases props.len() - i,
{
    if i >= props.len() || i < 0 {
        Seq::empty()
    } else {
        (if planned(plans, i) {
            Seq::empty()
        } else {
            seq![props[i]]
        }) + kept_from(props, plans, i + 1)
    }
}

/// The properties from position `i` on that a plan rewrites, last first.
pub open spec fn moved_from(props: Seq<Property>, plans: Seq<PropertyRewritePlan>, i: int) -> Seq<Property>
    decreases props.len() - i,
{
    if i >= props.len() || i < 0 {
        Seq::empty()
    } else {
        moved_from(props, plans, i + 1) + if planned(plans, i) {
            seq![props[i]]
        } else {
            Seq::empty()
        }
    }
}

/// What the plans add, plan by plan: properties, qualified properties and
/// clashes.
pub open spec fn rewrite_outcome(
    props: Seq<Property>,
    plans: Seq<PropertyRewritePlan>,
    marker: Option<StereotypeRefView>,
    owner: Seq<char>,
    surv_props: Seq<Seq<char>>,
    surv_qps: Seq<Seq<char>>,
) -> (Seq<PropertyView>, Seq<QualifiedPropertyView>, Seq<IssueView>)
    decreases plans.len(),
{
    if plans.len() == 0 {
        (Seq::empty(), Seq::empty(), Seq::empty())
    } else {
        let prev = rewrite_outcome(props, plans.drop_last(), marker, owner, surv_props, surv_qps);
        let pl = plans.last();
        let d = synth_delta(
            props[pl.original_index as int],
            pl.target_stereotype,
            pl.emit_no_arg_variant,
            marker,
            owner,
            surv_props,
            surv_qps,
        );
        (prev.0 + d.0, prev.1 + d.1, prev.2 + d.2)
    }
}

/// Names of a list of properties.
pub open spec fn prop_names(s: Seq<Property>) -> Seq<Seq<char>> {
    s.map_values(|p: Property| p.name@)
}

/// Names of a list of qualified properties.
pub open spec fn qp_names_view(s: Seq<QualifiedProperty>) -> Seq<Seq<char>> {
    s.map_values(|q: QualifiedProperty| q.name@)
}

fn is_planned(plans: &Vec<PropertyRewritePlan>, i: usize) -> (r: bool)
    ensures
        r == planned(plans@, i as int),
{
    let mut k: usize = 0;
    while k < plans.len()
        invariant
            k <= plans.len(),
            forall|j: int| 0 <= j < k ==> plans@[j].original_index != i,
        decreases plans.len() - k,
    {
        if plans[k].original_index == i {
            return true;
        }
        k = k + 1;
    }
    false
}

fn qp_names(qps: &Vec<QualifiedProperty>) -> (r: Vec<String>)
    ensures
        names_view(r@) == qp_names_view(qps@),
{
    let mut r: Vec<String> = Vec::new();
    let mut i: usize = 0;
    while i < qps.len()
        invariant
            i <= qps.len(),
            names_view(r@) == qp_names_view(qps@.take(i as int)),
        decreases qps.len() - i,
    {
        let ghost before = r@;
        r.push(qps[i].name.clone());
        assert(names_view(r@) =~= names_view(before).push(qps@[i as int].name@));
        assert(qp_names_view(qps@.take(i + 1)) =~= qp_names_view(qps@.take(i as int)).push(
            qps@[i as int].name@,
        ));
        i = i + 1;
    }
    assert(qps@.take(i as int) =~= qps@);
    r
}

/// Names of the properties that no plan rewrites.
fn kept_names(props: &Vec<Property>, plans: &Vec<PropertyRewritePlan>) -> (r: Vec<String>)
    ensures
        names_view(r@) == prop_names(kept_from(props@, plans@, 0)),
{
    let mut r: Vec<String> = Vec::new();
    let mut i: usize = props.len();
    assert(kept_from(props@, plans@, props@.len() as int) =~= Seq::<Property>::empty());
    while i > 0
        invariant
            i <= props@.len(),
            names_view(r@) == prop_names(kept_from(props@, plans@, i as int)),
        decreases i,
    {
        i = i - 1;
        let ghost before = r@;
        if !is_planned(plans, i) {
            r.insert(0, props[i].name.clone());
            assert(names_view(r@) =~= seq![props@[i as int].name@] + names_view(before));
        }
        assert(prop_names(kept_from(props@, plans@, i as int)) =~= prop_names(
            if planned(plans@, i as int) {
                Seq::empty()
            } else {
                seq![props@[i as int]]
            },
        ) + prop_names(kept_from(props@, plans@, i + 1)));
    }
    r
}

fn extend_props(dst: &mut Vec<Property>, src: Vec<Property>)
    ensures
        final(dst)@ == old(dst)@ + src@,
{
    let mut src = src;
    let mut rev: Vec<Property> = Vec::new();
    let ghost orig = src@;
    while src.len() > 0
        invariant
            src@ + rev@.reverse() == orig,
        decreases src.len(),
    {
        let x = src.pop().unwrap();
        let ghost before = rev@;
        rev.push(x);
        assert(rev@.reverse() =~= seq![x] + before.reverse());
    }
    let ghost start = dst@;
    while rev.len() > 0
        invariant
            start + orig == dst@ + rev@.reverse(),
        decreases rev.len(),
    {
        let x = rev.pop().unwrap();
        let ghost before = rev@;
        dst.push(x);
        assert(before.push(x).reverse() =~= seq![x] + before.reverse());
    }
    assert(dst@ + rev@.reverse() =~= dst@);
}

fn extend_qps(dst: &mut Vec<QualifiedProperty>, src: Vec<QualifiedProperty>)
    ensures
        final(dst)@ == old(dst)@ + src@,
{
    let mut src = src;
    let mut rev: Vec<QualifiedProperty> = Vec::new();
    let ghost orig = src@;
    while src.len() > 0
        invariant
            src@ + rev@.reverse() == orig,
        decreases src.len(),
    {
        let x = src.pop().unwrap();
        let ghost before = rev@;
        rev.push(x);
        assert(rev@.reverse() =~= seq![x] + before.reverse());
    }
    let ghost start = dst@;
    while rev.len() > 0
        invariant
            start + orig == dst@ + rev@.reverse(),
        decreases rev.len(),
    {
        let x = rev.pop().unwrap();
        let ghost before = rev@;
        dst.push(x);
        assert(before.push(x).reverse() =~= seq![x] + before.reverse());
    }
    assert(dst@ + rev@.reverse() =~= dst@);
}

/// Applies rewrite plans to an owner's property lists: synthesizes each
/// plan's surface (plan order), moves the rewritten properties aside (last
/// first) and appends what was synthesized.
fn apply_rewrites_to(
    properties: &mut Vec<Property>,
    qualified_properties: &mut Vec<QualifiedProperty>,
    moved_aside: &mut Vec<Property>,
    owner_name: &String,
    plans: Vec<PropertyRewritePlan>,
    milestoning_profile: Option<ElementId>,
    errors: &mut Vec<MilestoningIssue>,
)
    requires
        plans_fit(plans@, old(properties)@.len() as int),
    ensures
        ({
            let out = rewrite_outcome(
                old(properties)@,
                plans@,
                marker_view(milestoning_profile, GENERATED_MILESTONING_STEREOTYPE@),
                owner_name@,
                prop_names(kept_from(old(properties)@, plans@, 0)),
                qp_names_view(old(qualified_properties)@),
            );
            &&& props_view(final(properties)@) == props_view(kept_from(old(properties)@, plans@, 0))
                + out.0
            &&& qps_view(final(qualified_properties)@) == qps_view(old(qualified_properties)@)
                + out.1
            &&& final(moved_aside)@ == old(moved_aside)@ + moved_from(old(properties)@, plans@, 0)
            &&& issues_view(final(errors)@) == issues_view(old(errors)@) + out.2
        }),
{
    let generated = generated_stereotype_ref(milestoning_profile);
    let ghost marker = marker_view(milestoning_profile, GENERATED_MILESTONING_STEREOTYPE@);
    let survivor_property_names = kept_names(properties, &plans);
    let survivor_qp_names = qp_names(qualified_properties);
    let ghost sp = names_view(survivor_property_names@);
    let ghost sq = names_view(survivor_qp_names@);
    let ghost props0 = properties@;
    let ghost start_issues = issues_view(errors@);
    let mut to_append_props: Vec<Property> = Vec::new();
    let mut to_append_qps: Vec<QualifiedProperty> = Vec::new();
    let mut k: usize = 0;
    assert(plans@.take(0) =~= Seq::<PropertyRewritePlan>::empty());
    assert(props_view(to_append_props@) =~= Seq::<PropertyView>::empty());
    assert(qps_view(to_append_qps@) =~= Seq::<QualifiedPropertyView>::empty());
    assert(start_issues + Seq::<IssueView>::empty() =~= start_issues);
    while k < plans.len()
        invariant
            k <= plans@.len(),
            properties@ == props0,
            plans_fit(plans@, props0.len() as int),
            opt_stereo_view(generated) == marker,
            sp == names_view(survivor_property_names@),
            sq == names_view(survivor_qp_names@),
            ({
                let out = rewrite_outcome(props0, plans@.take(k as int), marker, owner_name@, sp, sq);
                &&& props_view(to_append_props@) == out.0
                &&& qps_view(to_append_qps@) == out.1
                &&& issues_view(errors@) == start_issues + out.2
            }),
        decreases plans.len() - k,
    {
        let plan = plans[k];
        assert(plans@.take(k + 1).drop_last() =~= plans@.take(k as int));
        assert(plans@.take(k + 1).last() == plans@[k as int]);
        assert(plan.original_index < props0.len());
        let gref = match &generated {
            Some(g) => Some(g),
            None => None,
        };
        synthesize_for_property(
            &properties[plan.original_index],
            plan.target_stereotype,
            plan.emit_no_arg_variant,
            gref,
            owner_name,
            survivor_property_names.as_slice(),
            survivor_qp_names.as_slice(),
            &mut to_append_props,
            &mut to_append_qps,
            errors,
        );
        proof {
            let prev = rewrite_outcome(props0, plans@.take(k as int), marker, owner_name@, sp, sq);
            let d = synth_delta(
                props0[plan.original_index as int],
                plan.target_stereotype,
                plan.emit_no_arg_variant,
                marker,
                owner_name@,
                sp,
                sq,
            );
            assert(rewrite_outcome(props0, plans@.take(k + 1), marker, owner_name@, sp, sq) == (
                prev.0 + d.0,
                prev.1 + d.1,
                prev.2 + d.2,
            ));
            assert(props_view(to_append_props@) == prev.0 + d.0);
            assert(qps_view(to_append_qps@) == prev.1 + d.1);
            assert(start_issues + prev.2 + synth_delta(
                props0[plan.original_index as int],
                plan.target_stereotype,
                plan.emit_no_arg_variant,
                marker,
                owner_name@,
                sp,
                sq,
            ).2 =~= start_issues + (prev.2 + synth_delta(
                props0[plan.original_index as int],
                plan.target_stereotype,
                plan.emit_no_arg_variant,
                marker,
                owner_name@,
                sp,
                sq,
            ).2));
        }
        k = k + 1;
    }
    assert(plans@.take(k as int) =~= plans@);
    // Split the properties into those kept and those moved aside.
    let mut old_props: Vec<Property> = Vec::new();
    std::mem::swap(&mut old_props, properties);
    let mut kept: Vec<Property> = Vec::new();
    let mut moved: Vec<Property> = Vec::new();
    let mut i: usize = old_props.len();
    assert(old_props@.take(i as int) =~= props0);
    while i > 0
        invariant
            i == old_props@.len(),
            i <= props0.len(),
            old_props@ == props0.take(i as int),
            kept@ == kept_from(props0, plans@, i as int),
            moved@ == moved_from(props0, plans@, i as int),
        decreases i,
    {
        let p = old_props.pop().unwrap();
        i = i - 1;
        assert(p == props0[i as int]);
        assert(old_props@ =~= props0.take(i as int));
        if is_planned(&plans, i) {
            moved.push(p);
        } else {
            kept.insert(0, p);
        }
        assert(kept@ =~= kept_from(props0, plans@, i as int));
        assert(moved@ =~= moved_from(props0, plans@, i as int));
    }
    *properties = kept;
    extend_props(moved_aside, moved);
    extend_props(properties, to_append_props);
    extend_qps(qualified_properties, to_append_qps);
    assert(props_view(properties@) =~= props_view(kept_from(props0, plans@, 0)) + props_view(
        to_append_props@,
    ));
}

/// The outcome of applying `plans` to the property lists of a class.
pub open spec fn class_outcome(
    before: Class,
    owner_name: Seq<char>,
    plans: Seq<PropertyRewritePlan>,
    milestoning_profile: Option<ElementId>,
) -> (Seq<PropertyView>, Seq<QualifiedPropertyView>, Seq<IssueView>) {
    rewrite_outcome(
        before.properties@,
        plans,
        marker_view(milestoning_profile, GENERATED_MILESTONING_STEREOTYPE@),
        owner_name,
        prop_names(kept_from(before.properties@, plans, 0)),
        qp_names_view(before.qualified_properties@),
    )
}

/// The class after its rewrite plans are applied: declared properties
/// kept, then the synthesized ones; rewritten properties moved aside;
/// synthesized signatures appended; everything else unchanged.
pub open spec fn rewritten(
    before: Class,
    after: Class,
    owner_name: Seq<char>,
    plans: Seq<PropertyRewritePlan>,
    milestoning_profile: Option<ElementId>,
) -> bool {
    let out = class_outcome(before, owner_name, plans, milestoning_profile);
    &&& props_view(after.properties@) == props_view(kept_from(before.properties@, plans, 0))
        + out.0
    &&& qps_view(after.qualified_properties@) == qps_view(before.qualified_properties@) + out.1
    &&& after.original_milestoned_properties@ == before.original_milestoned_properties@
        + moved_from(before.properties@, plans, 0)
    &&& after.type_parameters == before.type_parameters
    &&& after.type_parameter_variances == before.type_parameter_variances
    &&& after.multiplicity_parameters == before.multiplicity_parameters
    &&& after.type_variable_parameters == before.type_variable_parameters
    &&& after.super_types == before.super_types
    &&& after.constraints == before.constraints
    &&& after.stereotypes == before.stereotypes
    &&& after.tagged_values == before.tagged_values
}

/// Applies rewrite plans to a class (see [`rewritten`]); clashes are
/// appended to `errors`.
pub fn apply_property_rewrites(
    class: &mut Class,
    owner_name: &String,
    plans: Vec<PropertyRewritePlan>,
    milestoning_profile: Option<ElementId>,
    errors: &mut Vec<MilestoningIssue>,
)
    requires
        plans_fit(plans@, old(class).properties@.len() as int),
    ensures
        rewritten(*old(class), *final(class), owner_name@, plans@, milestoning_profile),
        issues_view(final(errors)@) == issues_view(old(errors)@) + class_outcome(
            *old(class),
            owner_name@,
            plans@,
            milestoning_profile,
        ).2,
{
    apply_rewrites_to(
        &mut class.properties,
        &mut class.qualified_properties,
        &mut class.original_milestoned_properties,
        owner_name,
        plans,
        milestoning_profile,
        errors,
    );
}

/// Applies rewrite plans to an association: the same as for a class, on
/// the association's property lists.
pub fn apply_property_rewrites_assoc(
    assoc: &mut Association,
    owner_name: &String,
    plans: Vec<PropertyRewritePlan>,
    milestoning_profile: Option<ElementId>,
    errors: &mut Vec<MilestoningIssue>,
)
    requires
        plans_fit(plans@, old(assoc).properties@.len() as int),
    ensures
        ({
            let out = rewrite_outcome(
                old(assoc).properties@,
                plans@,
                marker_view(milestoning_profile, GENERATED_MILESTONING_STEREOTYPE@),
                owner_name@,
                prop_names(kept_from(old(assoc).properties@, plans@, 0)),
                qp_names_view(old(assoc).qualified_properties@),
            );
            &&& props_view(final(assoc).properties@) == props_view(
                kept_from(old(assoc).properties@, plans@, 0),
            ) + out.0
            &&& qps_view(final(assoc).qualified_properties@) == qps_view(
                old(assoc).qualified_properties@,
            ) + out.1
            &&& final(assoc).original_milestoned_properties@
                == old(assoc).original_milestoned_properties@ + moved_from(
                old(assoc).properties@,
                plans@,
                0,
            )
            &&& final(assoc).stereotypes == old(assoc).stereotypes
            &&& final(assoc).tagged_values == old(assoc).tagged_values
            &&& issues_view(final(errors)@) == issues_view(old(errors)@) + out.2
        }),
{
    apply_rewrites_to(
        &mut assoc.properties,
        &mut assoc.qualified_properties,
        &mut assoc.original_milestoned_properties,
        owner_name,
        plans,
        milestoning_profile,
        errors,
    );
}

/// The date properties and carrier slot synthesized on a class of
/// stereotype `s`.
pub open spec fn date_props_view(
    s: MilestoningStereotype,
    si: SourceInfoView,
    marker: Option<StereotypeRefView>,
    carrier: Option<ElementId>,
) -> Seq<PropertyView> {
    Seq::new(
        s.date_names().len(),
        |i: int| synth_prop_view(s.date_names()[i], si, bare_named(date_id()), MultView::PureOne, marker),
    ) + match carrier {
        Some(c) => seq![
            synth_prop_view(MILESTONING_SLOT_NAME@, si, bare_named(c), MultView::ZeroOrOne, marker),
        ],
        None => Seq::empty(),
    }
}

/// What date synthesis appends to a class: nothing when it carries no
/// temporal stereotype or already has its `milestoning` slot; otherwise
/// the date properties of its first temporal stereotype and, when the
/// carrier class is known, the slot.
pub open spec fn class_date_additions(
    c: Class,
    si: SourceInfoView,
    temporal_profile: ElementId,
    milestoning_profile: Option<ElementId>,
    carriers: CarrierIds,
) -> Seq<PropertyView> {
    let d = direct_temporal(c.stereotypes@, temporal_profile);
    if d.len() == 0 || some_property_named(c.properties@, MILESTONING_SLOT_NAME@) {
        Seq::empty()
    } else {
        date_props_view(
            d[0],
            si,
            marker_view(milestoning_profile, GENERATED_MILESTONING_DATE_STEREOTYPE@),
            match d[0] {
                MilestoningStereotype::BusinessTemporal => carriers.business_date,
                MilestoningStereotype::ProcessingTemporal => carriers.processing_date,
                MilestoningStereotype::Bitemporal => carriers.bitemporal,
            },
        )
    }
}

fn dup_marker(m: &Option<StereotypeRef>) -> (r: Option<StereotypeRef>)
    ensures
        opt_stereo_view(r) == opt_stereo_view(*m),
{
    match m {
        Some(x) => Some(x.duplicate()),
        None => None,
    }
}

/// Adds a milestoned class's date properties and carrier slot (once: a
/// class that already has its `milestoning` slot is left alone).
#[verifier::loop_isolation(false)]
pub fn synthesize_class_dates(
    class: &mut Class,
    class_si: &SourceInfo,
    temporal_profile: ElementId,
    milestoning_profile: Option<ElementId>,
    carrier_ids: &CarrierIds,
)
    ensures
        props_view(final(class).properties@) == props_view(old(class).properties@)
            + class_date_additions(
            *old(class),
            class_si@,
            temporal_profile,
            milestoning_profile,
            *carrier_ids,
        ),
        final(class).qualified_properties == old(class).qualified_properties,
        final(class).original_milestoned_properties == old(class).original_milestoned_properties,
        final(class).stereotypes == old(class).stereotypes,
        final(class).super_types == old(class).super_types,
        final(class).tagged_values == old(class).tagged_values,
        final(class).constraints == old(class).constraints,
        final(class).type_parameters == old(class).type_parameters,
        final(class).type_parameter_variances == old(class).type_parameter_variances,
        final(class).multiplicity_parameters == old(class).multiplicity_parameters,
        final(class).type_variable_parameters == old(class).type_variable_parameters,
{
    let temporal = direct_temporal_stereotypes(class.stereotypes.as_slice(), temporal_profile);
    if temporal.len() == 0 {
        assert(props_view(class.properties@) + Seq::<PropertyView>::empty() =~= props_view(
            class.properties@,
        ));
        return;
    }
    let stereotype = temporal[0];
    let mut has_slot = false;
    let mut i: usize = 0;
    while i < class.properties.len()
        invariant
            i <= class.properties@.len(),
            has_slot <==> exists|j: int|
                0 <= j < i && (#[trigger] class.properties@[j]).name@ == MILESTONING_SLOT_NAME@,
        decreases class.properties.len() - i,
    {
        if crate::milestoning::str_eq(class.properties[i].name.as_str(), MILESTONING_SLOT_NAME) {
            has_slot = true;
        }
        i = i + 1;
    }
    if has_slot {
        assert(props_view(class.properties@) + Seq::<PropertyView>::empty() =~= props_view(
            class.properties@,
        ));
        return;
    }
    let generated = date_stereotype_ref(milestoning_profile);
    let ghost marker = marker_view(milestoning_profile, GENERATED_MILESTONING_DATE_STEREOTYPE@);
    let names = stereotype.temporal_date_property_names();
    let ghost dn = stereotype.date_names();
    let mut added: Vec<Property> = Vec::new();
    let mut k: usize = 0;
    while k < names.len()
        invariant
            k <= names@.len(),
            crate::milestoning::strs_view(names@) == dn,
            opt_stereo_view(generated) == marker,
            props_view(added@) == Seq::new(
                k as nat,
                |i: int| synth_prop_view(dn[i], class_si@, bare_named(date_id()), MultView::PureOne, marker),
            ),
        decreases names.len() - k,
    {
        let p = synth_date_property(names[k], class_si.duplicate(), dup_marker(&generated));
        assert(names@[k as int]@ == dn[k as int]);
        assert(p@ == synth_prop_view(
            dn[k as int],
            class_si@,
            bare_named(date_id()),
            MultView::PureOne,
            marker,
        ));
        let ghost before = props_view(added@);
        added.push(p);
        assert(props_view(added@) =~= before.push(p@));
        assert(props_view(added@) =~= Seq::new(
            (k + 1) as nat,
            |i: int| synth_prop_view(dn[i], class_si@, bare_named(date_id()), MultView::PureOne, marker),
        ));
        k = k + 1;
    }
    let ghost after_dates = props_view(added@);
    match carrier_ids.for_stereotype(stereotype) {
        Some(carrier) => {
            let p = synth_milestoning_slot_property(carrier, class_si.duplicate(), dup_marker(&generated));
            added.push(p);
            assert(props_view(added@) =~= after_dates.push(p@));
        },
        None => {},
    }
    assert(props_view(added@) =~= class_date_additions(
        *old(class),
        class_si@,
        temporal_profile,
        milestoning_profile,
        *carrier_ids,
    ));
    let ghost start = class.properties@;
    extend_props(&mut class.properties, added);
    assert(props_view(class.properties@) =~= props_view(start) + props_view(added@));
}


/// The carrier class that `carriers` binds to stereotype `s`.
pub open spec fn carrier_of(carriers: CarrierIds, s: MilestoningStereotype) -> Option<ElementId> {
    match s {
        MilestoningStereotype::BusinessTemporal => carriers.business_date,
        MilestoningStereotype::ProcessingTemporal => carriers.processing_date,
        MilestoningStereotype::Bitemporal => carriers.bitemporal,
    }
}

/// Date synthesis runs once: on a class that has just received its date
/// properties and carrier slot, a second run adds nothing. (Where the
/// carrier class is unknown no slot is added, and a second run would add
/// the dates again; the law leaves that case out.)
pub proof fn lemma_class_dates_idempotent(
    c: Class,
    c2: Class,
    si: SourceInfoView,
    temporal_profile: ElementId,
    milestoning_profile: Option<ElementId>,
    carriers: CarrierIds,
)
    requires
        c2.stereotypes@ == c.stereotypes@,
        props_view(c2.properties@) == props_view(c.properties@) + class_date_additions(
            c,
            si,
            temporal_profile,
            milestoning_profile,
            carriers,
        ),
        direct_temporal(c.stereotypes@, temporal_profile).len() > 0 ==> carrier_of(
            carriers,
            direct_temporal(c.stereotypes@, temporal_profile)[0],
        ) is Some,
    ensures
        class_date_additions(c2, si, temporal_profile, milestoning_profile, carriers)
            == Seq::<PropertyView>::empty(),
{
    let d = direct_temporal(c.stereotypes@, temporal_profile);
    let slot = MILESTONING_SLOT_NAME@;
    let pv = props_view(c.properties@);
    let pv2 = props_view(c2.properties@);
    if d.len() > 0 {
        if some_property_named(c.properties@, slot) {
            let i = choose|i: int| 0 <= i < c.properties@.len() && (#[trigger] c.properties@[i]).name@
                == slot;
            assert(pv[i].name == slot);
            assert(pv2[i] == pv[i]);
            assert(c2.properties@[i]@ == pv2[i]);
            assert(some_property_named(c2.properties@, slot));
        } else {
            let add = class_date_additions(c, si, temporal_profile, milestoning_profile, carriers);
            let k = pv.len() + add.len() - 1;
            assert(add.len() > 0);
            assert(pv2.len() == c2.properties@.len());
            assert(0 <= k < c2.properties@.len());
            assert(add.last().name == slot);
            assert(pv2[k] == add.last());
            assert(c2.properties@[k]@ == pv2[k]);
            assert(some_property_named(c2.properties@, slot));
        }
    }
}


/// The carrier classes the model resolves.
pub open spec fn carriers_of(m: PureModel) -> CarrierIds {
    CarrierIds {
        business_date: m.spec_resolve_by_path(carrier_path(MilestoningStereotype::BusinessTemporal)),
        processing_date: m.spec_resolve_by_path(carrier_path(MilestoningStereotype::ProcessingTemporal)),
        bitemporal: m.spec_resolve_by_path(carrier_path(MilestoningStereotype::Bitemporal)),
    }
}

impl CarrierIds {
    /// Resolves the three carrier classes by their paths.
    pub fn resolve(model: &PureModel) -> (r: CarrierIds)
        requires
            model.wf(),
            model.children_resolvable(),
        ensures
            r == carriers_of(*model),
    {
        CarrierIds {
            business_date: resolve_carrier(model, MilestoningStereotype::BusinessTemporal),
            processing_date: resolve_carrier(model, MilestoningStereotype::ProcessingTemporal),
            bitemporal: resolve_carrier(model, MilestoningStereotype::Bitemporal),
        }
    }
}

/// Date synthesis applied to one class (see [`synthesize_class_dates`]).
pub open spec fn dates_synthesized(
    before: Class,
    after: Class,
    si: SourceInfoView,
    temporal_profile: ElementId,
    milestoning_profile: Option<ElementId>,
    carriers: CarrierIds,
) -> bool {
    &&& props_view(after.properties@) == props_view(before.properties@) + class_date_additions(
        before,
        si,
        temporal_profile,
        milestoning_profile,
        carriers,
    )
    &&& after.qualified_properties == before.qualified_properties
    &&& after.original_milestoned_properties == before.original_milestoned_properties
    &&& after.stereotypes == before.stereotypes
    &&& after.super_types == before.super_types
    &&& after.tagged_values == before.tagged_values
    &&& after.constraints == before.constraints
    &&& after.type_parameters == before.type_parameters
    &&& after.type_parameter_variances == before.type_parameter_variances
    &&& after.multiplicity_parameters == before.multiplicity_parameters
    &&& after.type_variable_parameters == before.type_variable_parameters
}

/// The element at position `(c, i)` after date synthesis: a class has its
/// dates synthesized, anything else is unchanged.
pub open spec fn date_done(
    before: PureModel,
    after: PureModel,
    c: int,
    i: int,
    temporal_profile: ElementId,
    milestoning_profile: Option<ElementId>,
    carriers: CarrierIds,
) -> bool {
    match before.chunks@[c].elements.items@[i] {
        Element::Class(k) => match after.chunks@[c].elements.items@[i] {
            Element::Class(k2) => dates_synthesized(
                k,
                k2,
                before.chunks@[c].nodes.items@[i].source_info@,
                temporal_profile,
                milestoning_profile,
                carriers,
            ),
            _ => false,
        },
        e => after.chunks@[c].elements.items@[i] == e,
    }
}

/// Date synthesis over the whole model.
pub open spec fn dates_phase(
    before: PureModel,
    after: PureModel,
    temporal_profile: ElementId,
    milestoning_profile: Option<ElementId>,
    carriers: CarrierIds,
) -> bool {
    &&& before.same_layout(after)
    &&& forall|c: int, i: int|
        0 <= c < before.chunks.len() && 0 <= i < before.chunks@[c].elements.items.len()
            ==> #[trigger] date_done(before, after, c, i, temporal_profile, milestoning_profile, carriers)
}

/// Every chunk's node and element arenas line up.
pub open spec fn arenas_parallel(m: PureModel) -> bool {
    forall|c: int| 0 <= c < m.chunks.len() ==> (#[trigger] m.chunks@[c]).parallel()
}

/// Every milestoned class of `m` has its carrier class among `carriers`.
pub open spec fn carriers_known(m: PureModel, temporal_profile: ElementId, carriers: CarrierIds) -> bool {
    forall|c: int, i: int|
        0 <= c < m.chunks.len() && 0 <= i < m.chunks@[c].elements.items.len() ==> match #[trigger] m.chunks@[c].elements.items@[i] {
            Element::Class(k) => direct_temporal(k.stereotypes@, temporal_profile).len() > 0 ==> carrier_of(
                carriers,
                direct_temporal(k.stereotypes@, temporal_profile)[0],
            ) is Some,
            _ => true,
        }
}

/// `after` holds what `before` holds: the same layout; each class with
/// the same properties (view for view) and everything else unchanged;
/// every other element unchanged.
pub open spec fn dates_unchanged(before: PureModel, after: PureModel) -> bool {
    &&& before.same_layout(after)
    &&& forall|c: int, i: int|
        0 <= c < before.chunks.len() && 0 <= i < before.chunks@[c].elements.items.len() ==> match #[trigger] before.chunks@[c].elements.items@[i] {
            Element::Class(k) => match after.chunks@[c].elements.items@[i] {
                Element::Class(k2) => {
                    &&& props_view(k2.properties@) == props_view(k.properties@)
                    &&& k2.qualified_properties == k.qualified_properties
                    &&& k2.original_milestoned_properties == k.original_milestoned_properties
                    &&& k2.stereotypes == k.stereotypes
                    &&& k2.super_types == k.super_types
                    &&& k2.tagged_values == k.tagged_values
                    &&& k2.constraints == k.constraints
                    &&& k2.type_parameters == k.type_parameters
                    &&& k2.type_parameter_variances == k.type_parameter_variances
                    &&& k2.multiplicity_parameters == k.multiplicity_parameters
                    &&& k2.type_variable_parameters == k.type_variable_parameters
                },
                _ => false,
            },
            e => after.chunks@[c].elements.items@[i] == e,
        }
}

/// Date synthesis over a model runs once: run again on its own result it
/// changes nothing, each milestoned class being skipped because it
/// already has its `milestoning` slot. (A milestoned class whose carrier
/// class is unknown gets no slot, and a second run would add its dates
/// again; the law leaves that case out.)
pub proof fn lemma_dates_phase_idempotent(
    m0: PureModel,
    m1: PureModel,
    m2: PureModel,
    temporal_profile: ElementId,
    milestoning_profile: Option<ElementId>,
    carriers: CarrierIds,
)
    requires
        dates_phase(m0, m1, temporal_profile, milestoning_profile, carriers),
        dates_phase(m1, m2, temporal_profile, milestoning_profile, carriers),
        carriers_known(m0, temporal_profile, carriers),
    ensures
        dates_unchanged(m1, m2),
{
    assert(m1.same_layout(m2));
    assert forall|c: int, i: int|
        0 <= c < m1.chunks.len() && 0 <= i < m1.chunks@[c].elements.items.len() implies match #[trigger] m1.chunks@[c].elements.items@[i] {
        Element::Class(k) => match m2.chunks@[c].elements.items@[i] {
            Element::Class(k2) => {
                &&& props_view(k2.properties@) == props_view(k.properties@)
                &&& k2.qualified_properties == k.qualified_properties
                &&& k2.original_milestoned_properties == k.original_milestoned_properties
                &&& k2.stereotypes == k.stereotypes
                &&& k2.super_types == k.super_types
                &&& k2.tagged_values == k.tagged_values
                &&& k2.constraints == k.constraints
                &&& k2.type_parameters == k.type_parameters
                &&& k2.type_parameter_variances == k.type_parameter_variances
                &&& k2.multiplicity_parameters == k.multiplicity_parameters
                &&& k2.type_variable_parameters == k.type_variable_parameters
            },
            _ => false,
        },
        e => m2.chunks@[c].elements.items@[i] == e,
    } by {
        assert(date_done(m0, m1, c, i, temporal_profile, milestoning_profile, carriers));
        assert(date_done(m1, m2, c, i, temporal_profile, milestoning_profile, carriers));
        let si = m0.chunks@[c].nodes.items@[i].source_info@;
        assert(m1.chunks@[c].nodes == m0.chunks@[c].nodes);
        match m0.chunks@[c].elements.items@[i] {
            Element::Class(k0) => {
                let e0 = m0.chunks@[c].elements.items@[i];
                assert(match e0 {
                    Element::Class(k) => direct_temporal(k.stereotypes@, temporal_profile).len() > 0
                        ==> carrier_of(carriers, direct_temporal(k.stereotypes@, temporal_profile)[0]) is Some,
                    _ => true,
                });
                match m1.chunks@[c].elements.items@[i] {
                    Element::Class(k1) => {
                        lemma_class_dates_idempotent(
                            k0,
                            k1,
                            si,
                            temporal_profile,
                            milestoning_profile,
                            carriers,
                        );
                        assert(class_date_additions(k1, si, temporal_profile, milestoning_profile, carriers)
                            =~= Seq::<PropertyView>::empty());
                        match m2.chunks@[c].elements.items@[i] {
                            Element::Class(k2) => {
                                assert(props_view(k2.properties@) =~= props_view(k1.properties@));
                            },
                            _ => {},
                        }
                    },
                    _ => {},
                }
            },
            _ => {},
        }
    }
}

/// Synthesizes the date properties of every milestoned class of the model.
fn synthesize_dates_pass(
    model: &mut PureModel,
    temporal_profile: ElementId,
    milestoning_profile: Option<ElementId>,
    carrier_ids: &CarrierIds,
)
    requires
        arenas_parallel(*old(model)),
    ensures
        dates_phase(*old(model), *final(model), temporal_profile, milestoning_profile, *carrier_ids),
{
    let ghost m0 = *model;
    let mut c: usize = 0;
    while c < model.chunks.len()
        invariant
            c <= model.chunks.len(),
            arenas_parallel(m0),
            m0.same_layout(*model),
            forall|c2: int, i: int|
                0 <= c2 < c && 0 <= i < m0.chunks@[c2].elements.items.len() ==> #[trigger] date_done(
                    m0,
                    *model,
                    c2,
                    i,
                    temporal_profile,
                    milestoning_profile,
                    *carrier_ids,
                ),
            forall|c2: int| c <= c2 < m0.chunks.len() ==> #[trigger] model.chunks@[c2] == m0.chunks@[c2],
        decreases model.chunks.len() - c,
    {
        let n = model.chunks[c].elements.items.len();
        let mut i: usize = 0;
        while i < n
            invariant
                c < model.chunks.len(),
                i <= n,
                n == m0.chunks@[c as int].elements.items.len(),
                arenas_parallel(m0),
                m0.same_layout(*model),
                forall|c2: int, j: int|
                    0 <= c2 < c && 0 <= j < m0.chunks@[c2].elements.items.len() ==> #[trigger] date_done(
                        m0,
                        *model,
                        c2,
                        j,
                        temporal_profile,
                        milestoning_profile,
                        *carrier_ids,
                    ),
                forall|j: int|
                    0 <= j < i ==> #[trigger] date_done(
                        m0,
                        *model,
                        c as int,
                        j,
                        temporal_profile,
                        milestoning_profile,
                        *carrier_ids,
                    ),
                forall|j: int|
                    i <= j < n ==> #[trigger] model.chunks@[c as int].elements.items@[j]
                        == m0.chunks@[c as int].elements.items@[j],
                forall|c2: int|
                    c < c2 < m0.chunks.len() ==> #[trigger] model.chunks@[c2] == m0.chunks@[c2],
            decreases n - i,
        {
            assert(m0.chunks@[c as int].parallel());
            let si = model.chunks[c].nodes.items[i].source_info.duplicate();
            let ghost before = *model;
            match &mut model.chunks[c].elements.items[i] {
                Element::Class(k) => {
                    synthesize_class_dates(k, &si, temporal_profile, milestoning_profile, carrier_ids);
                },
                _ => {},
            }
            proof {
                assert forall|c2: int, j: int|
                    0 <= c2 < c && 0 <= j < m0.chunks@[c2].elements.items.len() implies #[trigger] date_done(
                    m0,
                    *model,
                    c2,
                    j,
                    temporal_profile,
                    milestoning_profile,
                    *carrier_ids,
                ) by {
                    assert(model.chunks@[c2] == before.chunks@[c2]);
                    assert(date_done(m0, before, c2, j, temporal_profile, milestoning_profile, *carrier_ids));
                }
                assert forall|j: int| 0 <= j < i + 1 implies #[trigger] date_done(
                    m0,
                    *model,
                    c as int,
                    j,
                    temporal_profile,
                    milestoning_profile,
                    *carrier_ids,
                ) by {
                    if j < i {
                        assert(model.chunks@[c as int].elements.items@[j]
                            == before.chunks@[c as int].elements.items@[j]);
                        assert(date_done(m0, before, c as int, j, temporal_profile, milestoning_profile, *carrier_ids));
                    }
                }
            }
            i = i + 1;
        }
        c = c + 1;
    }
}


/// Plans name distinct properties among the first `n`.
pub proof fn lemma_plans_upto_fit(
    m: PureModel,
    props: Seq<Property>,
    owner: Option<MilestoningStereotype>,
    profile: ElementId,
    n: int,
)
    requires
        0 <= n <= props.len(),
        n <= usize::MAX,
    ensures
        plans_fit(plans_upto(m, props, owner, profile, n), n),
    decreases n,
{
    if n > 0 {
        lemma_plans_upto_fit(m, props, owner, profile, n - 1);
        let prev = plans_upto(m, props, owner, profile, n - 1);
        let cur = plans_upto(m, props, owner, profile, n);
        if cur.len() > prev.len() {
            assert(cur.last().original_index == n - 1);
            assert(cur.drop_last() == prev);
        }
        assert forall|k: int| 0 <= k < cur.len() implies (#[trigger] cur[k]).original_index < n by {
            if k < prev.len() {
                assert(cur[k] == prev[k]);
            }
        }
        assert forall|a: int, b: int|
            0 <= a < cur.len() && 0 <= b < cur.len() && a != b implies cur[a].original_index
            != cur[b].original_index by {
            if a < prev.len() {
                assert(cur[a] == prev[a]);
                assert(prev[a].original_index < n - 1);
            }
            if b < prev.len() {
                assert(cur[b] == prev[b]);
                assert(prev[b].original_index < n - 1);
            }
        }
    }
}

/// Date synthesis keeps every supertype edge, so it keeps the hierarchy
/// well formed.
proof fn lemma_dates_keep_hierarchy(
    m0: PureModel,
    m1: PureModel,
    temporal_profile: ElementId,
    milestoning_profile: Option<ElementId>,
    carriers: CarrierIds,
)
    requires
        dates_phase(m0, m1, temporal_profile, milestoning_profile, carriers),
        m0.hierarchy_wf(),
    ensures
        m1.hierarchy_wf(),
        forall|id: ElementId|
            #![trigger m1.direct_supers(id)]
            m1.direct_supers(id) == m0.direct_supers(id) && m1.valid_id(id) == m0.valid_id(id),
{
    assert forall|id: ElementId|
        #![trigger m1.direct_supers(id)]
        m1.direct_supers(id) == m0.direct_supers(id) && m1.valid_id(id) == m0.valid_id(id) by {
        let c = id.chunk_id as int;
        let i = id.local_idx as int;
        if c < m0.chunks.len() {
            assert(m1.chunks@[c].elements.items.len() == m0.chunks@[c].elements.items.len());
            if i < m0.chunks@[c].elements.items.len() {
                assert(date_done(m0, m1, c, i, temporal_profile, milestoning_profile, carriers));
            }
        }
    }
    let r = m0.the_rank();
    assert(m0.ranked(r));
    assert(m1.ranked(r)) by {
        assert forall|id: ElementId, k: int| 0 <= k < m1.direct_supers(id).len() implies {
            &&& m1.valid_id(#[trigger] m1.direct_supers(id)[k])
            &&& r(m1.direct_supers(id)[k]) < r(id)
        } by {
            assert(m1.direct_supers(id) == m0.direct_supers(id));
            let s = m0.direct_supers(id)[k];
            assert(m1.direct_supers(s) == m0.direct_supers(s));
        }
    }
}

/// The first temporal stereotype a class carries directly.
pub open spec fn owner_temporal(k: Class, temporal_profile: ElementId) -> Option<MilestoningStereotype> {
    let d = direct_temporal(k.stereotypes@, temporal_profile);
    if d.len() > 0 {
        Some(d[0])
    } else {
        None
    }
}

/// The rewrite plans of an owner: for a class, planned with its first
/// temporal stereotype as the owner's; for an association, with none.
pub open spec fn owner_plans(m: PureModel, e: Element, temporal_profile: ElementId) -> Seq<
    PropertyRewritePlan,
> {
    match e {
        Element::Class(k) => plans_upto(
            m,
            k.properties@,
            owner_temporal(k, temporal_profile),
            temporal_profile,
            k.properties.len() as int,
        ),
        Element::Association(a) => plans_upto(
            m,
            a.properties@,
            None,
            temporal_profile,
            a.properties.len() as int,
        ),
        _ => Seq::empty(),
    }
}

/// The rewrite plans of the element at `(c, i)`.
fn plan_owner(model: &PureModel, c: usize, i: usize, temporal_profile: ElementId) -> (r: Vec<
    PropertyRewritePlan,
>)
    requires
        model.hierarchy_wf(),
        c < model.chunks.len(),
        i < model.chunks@[c as int].elements.items.len(),
    ensures
        r@ == owner_plans(*model, model.chunks@[c as int].elements.items@[i as int], temporal_profile),
{
    match &model.chunks[c].elements.items[i] {
        Element::Class(k) => {
            let d = direct_temporal_stereotypes(k.stereotypes.as_slice(), temporal_profile);
            let owner = if d.len() > 0 {
                Some(d[0])
            } else {
                None
            };
            build_property_rewrite_plans(k.properties.as_slice(), owner, model, temporal_profile)
        },
        Element::Association(a) => build_property_rewrite_plans(
            a.properties.as_slice(),
            None,
            model,
            temporal_profile,
        ),
        _ => Vec::new(),
    }
}

/// The rewrite plans of every element, by position.
fn plan_all(model: &PureModel, temporal_profile: ElementId) -> (r: Vec<Vec<Vec<PropertyRewritePlan>>>)
    requires
        model.hierarchy_wf(),
    ensures
        r.len() == model.chunks.len(),
        forall|c: int|
            0 <= c < model.chunks.len() ==> (#[trigger] r@[c]).len()
                == model.chunks@[c].elements.items.len(),
        forall|c: int, i: int|
            0 <= c < model.chunks.len() && 0 <= i < model.chunks@[c].elements.items.len()
                ==> #[trigger] r@[c]@[i]@ == owner_plans(
                *model,
                model.chunks@[c].elements.items@[i],
                temporal_profile,
            ),
{
    let mut r: Vec<Vec<Vec<PropertyRewritePlan>>> = Vec::new();
    let mut c: usize = 0;
    while c < model.chunks.len()
        invariant
            model.hierarchy_wf(),
            c <= model.chunks.len(),
            r.len() == c,
            forall|c2: int|
                0 <= c2 < c ==> (#[trigger] r@[c2]).len() == model.chunks@[c2].elements.items.len(),
            forall|c2: int, i: int|
                0 <= c2 < c && 0 <= i < model.chunks@[c2].elements.items.len() ==> #[trigger] r@[c2]@[i]@
                    == owner_plans(*model, model.chunks@[c2].elements.items@[i], temporal_profile),
        decreases model.chunks.len() - c,
    {
        let mut row: Vec<Vec<PropertyRewritePlan>> = Vec::new();
        let n = model.chunks[c].elements.items.len();
        let mut i: usize = 0;
        while i < n
            invariant
                model.hierarchy_wf(),
                c < model.chunks.len(),
                n == model.chunks@[c as int].elements.items.len(),
                i <= n,
                row.len() == i,
                forall|j: int|
                    0 <= j < i ==> #[trigger] row@[j]@ == owner_plans(
                        *model,
                        model.chunks@[c as int].elements.items@[j],
                        temporal_profile,
                    ),
            decreases n - i,
        {
            row.push(plan_owner(model, c, i, temporal_profile));
            i = i + 1;
        }
        r.push(row);
        c = c + 1;
    }
    r
}

/// An association after its rewrite plans are applied (see
/// [`apply_property_rewrites_assoc`]).
pub open spec fn assoc_rewritten(
    before: Association,
    after: Association,
    owner_name: Seq<char>,
    plans: Seq<PropertyRewritePlan>,
    milestoning_profile: Option<ElementId>,
) -> bool {
    let out = assoc_outcome(before, owner_name, plans, milestoning_profile);
    &&& props_view(after.properties@) == props_view(kept_from(before.properties@, plans, 0)) + out.0
    &&& qps_view(after.qualified_properties@) == qps_view(before.qualified_properties@) + out.1
    &&& after.original_milestoned_properties@ == before.original_milestoned_properties@
        + moved_from(before.properties@, plans, 0)
    &&& after.stereotypes == before.stereotypes
    &&& after.tagged_values == before.tagged_values
}

/// The outcome of applying `plans` to the property lists of an
/// association.
pub open spec fn assoc_outcome(
    before: Association,
    owner_name: Seq<char>,
    plans: Seq<PropertyRewritePlan>,
    milestoning_profile: Option<ElementId>,
) -> (Seq<PropertyView>, Seq<QualifiedPropertyView>, Seq<IssueView>) {
    rewrite_outcome(
        before.properties@,
        plans,
        marker_view(milestoning_profile, GENERATED_MILESTONING_STEREOTYPE@),
        owner_name,
        prop_names(kept_from(before.properties@, plans, 0)),
        qp_names_view(before.qualified_properties@),
    )
}

/// The element at `(c, i)` after the rewrite pass over the owners of one
/// kind (associations when `assoc`, classes otherwise): an owner of that
/// kind with plans has them applied; anything else is unchanged.
pub open spec fn rewrite_done(
    before: PureModel,
    after: PureModel,
    c: int,
    i: int,
    assoc: bool,
    temporal_profile: ElementId,
    milestoning_profile: Option<ElementId>,
) -> bool {
    let e = before.chunks@[c].elements.items@[i];
    let plans = owner_plans(before, e, temporal_profile);
    let name = before.chunks@[c].nodes.items@[i].name@;
    if plans.len() == 0 {
        after.chunks@[c].elements.items@[i] == e
    } else {
        match e {
            Element::Class(k) => if assoc {
                after.chunks@[c].elements.items@[i] == e
            } else {
                match after.chunks@[c].elements.items@[i] {
                    Element::Class(k2) => rewritten(k, k2, name, plans, milestoning_profile),
                    _ => false,
                }
            },
            Element::Association(a) => if assoc {
                match after.chunks@[c].elements.items@[i] {
                    Element::Association(a2) => assoc_rewritten(a, a2, name, plans, milestoning_profile),
                    _ => false,
                }
            } else {
                after.chunks@[c].elements.items@[i] == e
            },
            _ => after.chunks@[c].elements.items@[i] == e,
        }
    }
}

/// The clashes reported for the element at `(c, i)` when the owners of
/// its kind are rewritten.
pub open spec fn owner_issues(
    m: PureModel,
    c: int,
    i: int,
    assoc: bool,
    temporal_profile: ElementId,
    milestoning_profile: Option<ElementId>,
) -> Seq<IssueView> {
    let e = m.chunks@[c].elements.items@[i];
    let plans = owner_plans(m, e, temporal_profile);
    let name = m.chunks@[c].nodes.items@[i].name@;
    match e {
        Element::Class(k) => if assoc {
            Seq::empty()
        } else {
            class_outcome(k, name, plans, milestoning_profile).2
        },
        Element::Association(a) => if assoc {
            assoc_outcome(a, name, plans, milestoning_profile).2
        } else {
            Seq::empty()
        },
        _ => Seq::empty(),
    }
}

/// The clashes of the first `n` elements of chunk `c`, in order.
pub open spec fn chunk_issues(
    m: PureModel,
    c: int,
    n: int,
    assoc: bool,
    temporal_profile: ElementId,
    milestoning_profile: Option<ElementId>,
) -> Seq<IssueView>
    decreases n,
{
    if n <= 0 {
        Seq::empty()
    } else {
        chunk_issues(m, c, n - 1, assoc, temporal_profile, milestoning_profile) + owner_issues(
            m,
            c,
            n - 1,
            assoc,
            temporal_profile,
            milestoning_profile,
        )
    }
}

/// The clashes of the first `nc` chunks, in order.
pub open spec fn issues_upto(
    m: PureModel,
    nc: int,
    assoc: bool,
    temporal_profile: ElementId,
    milestoning_profile: Option<ElementId>,
) -> Seq<IssueView>
    decreases nc,
{
    if nc <= 0 {
        Seq::empty()
    } else {
        issues_upto(m, nc - 1, assoc, temporal_profile, milestoning_profile) + chunk_issues(
            m,
            nc - 1,
            m.chunks@[nc - 1].elements.items.len() as int,
            assoc,
            temporal_profile,
            milestoning_profile,
        )
    }
}

/// A copy of a list of plans.
fn copy_plans(v: &Vec<PropertyRewritePlan>) -> (r: Vec<PropertyRewritePlan>)
    ensures
        r@ == v@,
{
    let mut r: Vec<PropertyRewritePlan> = Vec::new();
    let mut i: usize = 0;
    while i < v.len()
        invariant
            i <= v.len(),
            r@ == v@.take(i as int),
        decreases v.len() - i,
    {
        r.push(v[i]);
        assert(r@ =~= v@.take(i + 1));
        i = i + 1;
    }
    assert(v@.take(v.len() as int) =~= v@);
    r
}

/// The element is an owner of the kind a rewrite pass handles
/// (associations when `assoc`, classes otherwise).
pub open spec fn owner_kind(e: Element, assoc: bool) -> bool {
    if assoc {
        e is Association
    } else {
        e is Class
    }
}

/// The element at `(c, i)` once a rewrite pass has been over it: an owner
/// of the pass's kind is rewritten (see [`rewrite_done`]), anything else
/// is as it was in `start`.
pub open spec fn pass_done(
    reference: PureModel,
    start: PureModel,
    after: PureModel,
    c: int,
    i: int,
    assoc: bool,
    temporal_profile: ElementId,
    milestoning_profile: Option<ElementId>,
) -> bool {
    if owner_kind(reference.chunks@[c].elements.items@[i], assoc) {
        rewrite_done(reference, after, c, i, assoc, temporal_profile, milestoning_profile)
    } else {
        after.chunks@[c].elements.items@[i] == start.chunks@[c].elements.items@[i]
    }
}

/// Applies the planned rewrites to every owner of one kind (associations
/// when `assoc`, classes otherwise), in position order. `reference` is
/// the model the plans were made on; the owners of the pass's kind are
/// still as they are there.
fn rewrite_pass(
    model: &mut PureModel,
    plans: &Vec<Vec<Vec<PropertyRewritePlan>>>,
    assoc: bool,
    Ghost(reference): Ghost<PureModel>,
    temporal_profile: ElementId,
    milestoning_profile: Option<ElementId>,
    errors: &mut Vec<MilestoningIssue>,
)
    requires
        arenas_parallel(reference),
        reference.same_layout(*old(model)),
        plans.len() == reference.chunks.len(),
        forall|c: int|
            0 <= c < reference.chunks.len() ==> (#[trigger] plans@[c]).len()
                == reference.chunks@[c].elements.items.len(),
        forall|c: int, i: int|
            0 <= c < reference.chunks.len() && 0 <= i < reference.chunks@[c].elements.items.len()
                ==> #[trigger] plans@[c]@[i]@ == owner_plans(
                reference,
                reference.chunks@[c].elements.items@[i],
                temporal_profile,
            ),
        forall|c: int, i: int|
            0 <= c < reference.chunks.len() && 0 <= i < reference.chunks@[c].elements.items.len()
                ==> owner_kind(#[trigger] old(model).chunks@[c].elements.items@[i], assoc)
                == owner_kind(reference.chunks@[c].elements.items@[i], assoc),
        forall|c: int, i: int|
            0 <= c < reference.chunks.len() && 0 <= i < reference.chunks@[c].elements.items.len()
                && owner_kind(reference.chunks@[c].elements.items@[i], assoc)
                ==> #[trigger] old(model).chunks@[c].elements.items@[i]
                == reference.chunks@[c].elements.items@[i],
    ensures
        reference.same_layout(*final(model)),
        forall|c: int, i: int|
            0 <= c < reference.chunks.len() && 0 <= i < reference.chunks@[c].elements.items.len()
                ==> #[trigger] pass_done(
                reference,
                *old(model),
                *final(model),
                c,
                i,
                assoc,
                temporal_profile,
                milestoning_profile,
            ),
        issues_view(final(errors)@) == issues_view(old(errors)@) + issues_upto(
            reference,
            reference.chunks.len() as int,
            assoc,
            temporal_profile,
            milestoning_profile,
        ),
{
    let ghost r = reference;
    let ghost m0 = *model;
    let ghost e0 = issues_view(errors@);
    let mut c: usize = 0;
    while c < model.chunks.len()
        invariant
            c <= model.chunks.len(),
            arenas_parallel(r),
            r.same_layout(m0),
            r.same_layout(*model),
            plans.len() == r.chunks.len(),
            forall|c2: int|
                0 <= c2 < r.chunks.len() ==> (#[trigger] plans@[c2]).len()
                    == r.chunks@[c2].elements.items.len(),
            forall|c2: int, i: int|
                0 <= c2 < r.chunks.len() && 0 <= i < r.chunks@[c2].elements.items.len()
                    ==> #[trigger] plans@[c2]@[i]@ == owner_plans(
                    r,
                    r.chunks@[c2].elements.items@[i],
                    temporal_profile,
                ),
            forall|c2: int, i: int|
                0 <= c2 < r.chunks.len() && 0 <= i < r.chunks@[c2].elements.items.len()
                    ==> owner_kind(#[trigger] m0.chunks@[c2].elements.items@[i], assoc)
                    == owner_kind(r.chunks@[c2].elements.items@[i], assoc),
            forall|c2: int, i: int|
                0 <= c2 < r.chunks.len() && 0 <= i < r.chunks@[c2].elements.items.len()
                    && owner_kind(r.chunks@[c2].elements.items@[i], assoc)
                    ==> #[trigger] m0.chunks@[c2].elements.items@[i] == r.chunks@[c2].elements.items@[i],
            forall|c2: int, i: int|
                0 <= c2 < c && 0 <= i < r.chunks@[c2].elements.items.len() ==> #[trigger] pass_done(
                    r,
                    m0,
                    *model,
                    c2,
                    i,
                    assoc,
                    temporal_profile,
                    milestoning_profile,
                ),
            forall|c2: int| c <= c2 < r.chunks.len() ==> #[trigger] model.chunks@[c2] == m0.chunks@[c2],
            issues_view(errors@) == e0 + issues_upto(
                r,
                c as int,
                assoc,
                temporal_profile,
                milestoning_profile,
            ),
        decreases model.chunks.len() - c,
    {
        let n = model.chunks[c].elements.items.len();
        let mut i: usize = 0;
        while i < n
            invariant
                c < model.chunks.len(),
                n == r.chunks@[c as int].elements.items.len(),
                i <= n,
                arenas_parallel(r),
                r.same_layout(m0),
                r.same_layout(*model),
                plans.len() == r.chunks.len(),
                forall|c2: int|
                    0 <= c2 < r.chunks.len() ==> (#[trigger] plans@[c2]).len()
                        == r.chunks@[c2].elements.items.len(),
                forall|c2: int, j: int|
                    0 <= c2 < r.chunks.len() && 0 <= j < r.chunks@[c2].elements.items.len()
                        ==> #[trigger] plans@[c2]@[j]@ == owner_plans(
                        r,
                        r.chunks@[c2].elements.items@[j],
                        temporal_profile,
                    ),
                forall|c2: int, j: int|
                    0 <= c2 < r.chunks.len() && 0 <= j < r.chunks@[c2].elements.items.len()
                        ==> owner_kind(#[trigger] m0.chunks@[c2].elements.items@[j], assoc)
                        == owner_kind(r.chunks@[c2].elements.items@[j], assoc),
                forall|c2: int, j: int|
                    0 <= c2 < r.chunks.len() && 0 <= j < r.chunks@[c2].elements.items.len()
                        && owner_kind(r.chunks@[c2].elements.items@[j], assoc)
                        ==> #[trigger] m0.chunks@[c2].elements.items@[j]
                        == r.chunks@[c2].elements.items@[j],
                forall|c2: int, j: int|
                    0 <= c2 < c && 0 <= j < r.chunks@[c2].elements.items.len() ==> #[trigger] pass_done(
                        r,
                        m0,
                        *model,
                        c2,
                        j,
                        assoc,
                        temporal_profile,
                        milestoning_profile,
                    ),
                forall|j: int|
                    0 <= j < i ==> #[trigger] pass_done(
                        r,
                        m0,
                        *model,
                        c as int,
                        j,
                        assoc,
                        temporal_profile,
                        milestoning_profile,
                    ),
                forall|j: int|
                    i <= j < n ==> #[trigger] model.chunks@[c as int].elements.items@[j]
                        == m0.chunks@[c as int].elements.items@[j],
                forall|c2: int|
                    c < c2 < r.chunks.len() ==> #[trigger] model.chunks@[c2] == m0.chunks@[c2],
                issues_view(errors@) == e0 + issues_upto(
                    r,
                    c as int,
                    assoc,
                    temporal_profile,
                    milestoning_profile,
                ) + chunk_issues(r, c as int, i as int, assoc, temporal_profile, milestoning_profile),
            decreases n - i,
        {
            let ghost before = *model;
            let ghost err_before = issues_view(errors@);
            let ghost pl = owner_plans(r, r.chunks@[c as int].elements.items@[i as int], temporal_profile);
            assert(plans@[c as int]@[i as int]@ == pl);
            assert(r.chunks@[c as int].parallel());
            assert(owner_kind(m0.chunks@[c as int].elements.items@[i as int], assoc) == owner_kind(
                r.chunks@[c as int].elements.items@[i as int],
                assoc,
            ));
            if plans[c][i].len() > 0 {
                let owner_name = model.chunks[c].nodes.items[i].name.clone();
                let these = copy_plans(&plans[c][i]);
                match &mut model.chunks[c].elements.items[i] {
                    Element::Class(k) => {
                        if !assoc {
                            proof {
                                lemma_plans_upto_fit(
                                    r,
                                    k.properties@,
                                    owner_temporal(*k, temporal_profile),
                                    temporal_profile,
                                    k.properties.len() as int,
                                );
                            }
                            apply_property_rewrites(k, &owner_name, these, milestoning_profile, errors);
                        }
                    },
                    Element::Association(a) => {
                        if assoc {
                            proof {
                                lemma_plans_upto_fit(
                                    r,
                                    a.properties@,
                                    None,
                                    temporal_profile,
                                    a.properties.len() as int,
                                );
                            }
                            apply_property_rewrites_assoc(a, &owner_name, these, milestoning_profile, errors);
                        }
                    },
                    _ => {},
                }
            }
            proof {
                assert(issues_view(errors@) == err_before + owner_issues(
                    r,
                    c as int,
                    i as int,
                    assoc,
                    temporal_profile,
                    milestoning_profile,
                ));
                assert(pass_done(r, m0, *model, c as int, i as int, assoc, temporal_profile, milestoning_profile));
                assert(chunk_issues(r, c as int, i + 1, assoc, temporal_profile, milestoning_profile)
                    == chunk_issues(r, c as int, i as int, assoc, temporal_profile, milestoning_profile)
                    + owner_issues(r, c as int, i as int, assoc, temporal_profile, milestoning_profile));
                assert forall|c2: int, j: int|
                    0 <= c2 < c && 0 <= j < r.chunks@[c2].elements.items.len() implies #[trigger] pass_done(
                    r,
                    m0,
                    *model,
                    c2,
                    j,
                    assoc,
                    temporal_profile,
                    milestoning_profile,
                ) by {
                    assert(model.chunks@[c2] == before.chunks@[c2]);
                    assert(pass_done(r, m0, before, c2, j, assoc, temporal_profile, milestoning_profile));
                }
                assert forall|j: int| 0 <= j < i + 1 implies #[trigger] pass_done(
                    r,
                    m0,
                    *model,
                    c as int,
                    j,
                    assoc,
                    temporal_profile,
                    milestoning_profile,
                ) by {
                    if j < i {
                        assert(model.chunks@[c as int].elements.items@[j]
                            == before.chunks@[c as int].elements.items@[j]);
                        assert(pass_done(r, m0, before, c as int, j, assoc, temporal_profile, milestoning_profile));
                    }
                }
                assert forall|c2: int| c < c2 < r.chunks.len() implies #[trigger] model.chunks@[c2]
                    == m0.chunks@[c2] by {
                    assert(model.chunks@[c2] == before.chunks@[c2]);
                }
                assert(issues_view(errors@) =~= e0 + issues_upto(
                    r,
                    c as int,
                    assoc,
                    temporal_profile,
                    milestoning_profile,
                ) + chunk_issues(r, c as int, i + 1, assoc, temporal_profile, milestoning_profile));
            }
            i = i + 1;
        }
        assert(issues_upto(r, c + 1, assoc, temporal_profile, milestoning_profile) == issues_upto(
            r,
            c as int,
            assoc,
            temporal_profile,
            milestoning_profile,
        ) + chunk_issues(r, c as int, n as int, assoc, temporal_profile, milestoning_profile));
        assert(issues_view(errors@) =~= e0 + issues_upto(
            r,
            c + 1,
            assoc,
            temporal_profile,
            milestoning_profile,
        ));
        c = c + 1;
    }
}

/// The element at `(c, i)` after both rewrite passes: associations by
/// the association pass, everything else by the class pass.
pub open spec fn owner_rewritten(
    mid: PureModel,
    after: PureModel,
    c: int,
    i: int,
    temporal_profile: ElementId,
    milestoning_profile: Option<ElementId>,
) -> bool {
    rewrite_done(
        mid,
        after,
        c,
        i,
        mid.chunks@[c].elements.items@[i] is Association,
        temporal_profile,
        milestoning_profile,
    )
}

/// Both rewrite passes over the whole model.
pub open spec fn rewrites_phase(
    mid: PureModel,
    after: PureModel,
    temporal_profile: ElementId,
    milestoning_profile: Option<ElementId>,
) -> bool {
    &&& mid.same_layout(after)
    &&& forall|c: int, i: int|
        0 <= c < mid.chunks.len() && 0 <= i < mid.chunks@[c].elements.items.len()
            ==> #[trigger] owner_rewritten(mid, after, c, i, temporal_profile, milestoning_profile)
}

/// What the synthesis pass does. Without the `temporal` profile nothing
/// changes. Otherwise, with the profiles and carrier classes the model
/// resolves: date synthesis over every class gives a model `mid`; then
/// every class, and after them every association, has the rewrites
/// planned on `mid` applied; the clashes are reported in that order.
pub open spec fn synthesis_outcome(
    before: PureModel,
    after: PureModel,
    issues_before: Seq<IssueView>,
    issues_after: Seq<IssueView>,
) -> bool {
    match before.spec_resolve_by_path(temporal_profile_path()) {
        None => after == before && issues_after == issues_before,
        Some(tp) => {
            let mp = before.spec_resolve_by_path(milestoning_profile_path());
            let carriers = carriers_of(before);
            exists|mid: PureModel|
                #![trigger dates_phase(before, mid, tp, mp, carriers)]
                {
                    &&& dates_phase(before, mid, tp, mp, carriers)
                    &&& rewrites_phase(mid, after, tp, mp)
                    &&& issues_after == issues_before + issues_upto(
                        mid,
                        mid.chunks.len() as int,
                        false,
                        tp,
                        mp,
                    ) + issues_upto(mid, mid.chunks.len() as int, true, tp, mp)
                }
        },
    }
}

/// Runs milestoning synthesis over the model: date properties and carrier
/// slot for every milestoned class, then the property rewrites of every
/// class and association (see [`synthesis_outcome`]). Skipped when the
/// `temporal` profile is not loaded.
pub fn synthesize(model: &mut PureModel, errors: &mut Vec<MilestoningIssue>)
    requires
        old(model).wf(),
        old(model).children_resolvable(),
        arenas_parallel(*old(model)),
        old(model).hierarchy_wf(),
    ensures
        synthesis_outcome(*old(model), *final(model), issues_view(old(errors)@), issues_view(final(errors)@)),
{
    let temporal_profile = match resolve_temporal_profile(model) {
        Some(p) => p,
        None => {
            return;
        },
    };
    let milestoning_profile = resolve_milestoning_profile(model);
    let carrier_ids = CarrierIds::resolve(model);
    let ghost m0 = *model;
    let ghost e0 = issues_view(errors@);
    synthesize_dates_pass(model, temporal_profile, milestoning_profile, &carrier_ids);
    let ghost m1 = *model;
    proof {
        lemma_dates_keep_hierarchy(m0, m1, temporal_profile, milestoning_profile, carrier_ids);
        assert forall|c: int| 0 <= c < m1.chunks.len() implies (#[trigger] m1.chunks@[c]).parallel() by {
            assert(m0.chunks@[c].parallel());
        }
    }
    let plans = plan_all(model, temporal_profile);
    rewrite_pass(model, &plans, false, Ghost(m1), temporal_profile, milestoning_profile, errors);
    let ghost m2 = *model;
    proof {
        assert forall|c: int, i: int|
            0 <= c < m1.chunks.len() && 0 <= i < m1.chunks@[c].elements.items.len() implies owner_kind(
            #[trigger] m2.chunks@[c].elements.items@[i],
            true,
        ) == owner_kind(m1.chunks@[c].elements.items@[i], true) && (owner_kind(
            m1.chunks@[c].elements.items@[i],
            true,
        ) ==> m2.chunks@[c].elements.items@[i] == m1.chunks@[c].elements.items@[i]) by {
            assert(pass_done(m1, m1, m2, c, i, false, temporal_profile, milestoning_profile));
        }
    }
    rewrite_pass(model, &plans, true, Ghost(m1), temporal_profile, milestoning_profile, errors);
    proof {
        assert forall|c: int, i: int|
            0 <= c < m1.chunks.len() && 0 <= i < m1.chunks@[c].elements.items.len()
                implies #[trigger] owner_rewritten(m1, *model, c, i, temporal_profile, milestoning_profile) by {
            assert(pass_done(m1, m1, m2, c, i, false, temporal_profile, milestoning_profile));
            assert(pass_done(m1, m2, *model, c, i, true, temporal_profile, milestoning_profile));
        }
        assert(dates_phase(m0, m1, temporal_profile, milestoning_profile, carrier_ids));
        assert(rewrites_phase(m1, *model, temporal_profile, milestoning_profile));
    }
}

} // verus!
