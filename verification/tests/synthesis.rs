use legend_pure::ids::{date_id, ElementId};
use legend_pure::milestoning::synthesis::{
    apply_property_rewrites, synthesize, synthesize_class_dates, synthesize_for_property, CarrierIds,
    PropertyRewritePlan,
};
use legend_pure::model::{Element, ElementNode, ModelChunk, PureModel};
use legend_pure::nodes::{Association, PrimitiveType, Profile};
use legend_pure::milestoning::validate::{
    validate_at_most_one_temporal_stereotype, validate_reserved_property_names,
    validate_temporal_hierarchy_consistency, MilestoningIssue,
};
use legend_pure::milestoning::MilestoningStereotype;
use legend_pure::nodes::{Class, Property, QualifiedProperty, StereotypeRef};
use legend_pure::types::{Multiplicity, SourceInfo, TypeExpr};

const TEMPORAL: ElementId = ElementId { chunk_id: 2, local_idx: 0 };
const MILESTONING: ElementId = ElementId { chunk_id: 2, local_idx: 1 };
const ADDRESS: ElementId = ElementId { chunk_id: 3, local_idx: 0 };
const CARRIER: ElementId = ElementId { chunk_id: 2, local_idx: 5 };

fn si(line: u32) -> SourceInfo {
    SourceInfo { source: "m.pure".to_string(), start_line: line, start_column: 1, end_line: line, end_column: 9 }
}

fn named(element: ElementId) -> TypeExpr {
    TypeExpr::Named {
        element,
        type_arguments: vec![],
        multiplicity_arguments: vec![],
        value_arguments: vec![],
        source_info: None,
    }
}

fn prop(name: &str, t: ElementId, m: Multiplicity, line: u32) -> Property {
    Property {
        name: name.to_string(),
        source_info: si(line),
        type_expr: named(t),
        multiplicity: m,
        aggregation: None,
        default_value: None,
        stereotypes: vec![],
        tagged_values: vec![],
    }
}

fn stereo(value: &str, line: Option<u32>) -> StereotypeRef {
    StereotypeRef { profile: TEMPORAL, value: value.to_string(), source_info: line.map(si) }
}

fn class_with(props: Vec<Property>, stereotypes: Vec<StereotypeRef>) -> Class {
    Class {
        type_parameters: vec![],
        type_parameter_variances: vec![],
        multiplicity_parameters: vec![],
        type_variable_parameters: vec![],
        super_types: vec![],
        properties: props,
        qualified_properties: vec![],
        constraints: vec![],
        stereotypes,
        tagged_values: vec![],
        original_milestoned_properties: vec![],
    }
}

fn names(props: &[Property]) -> Vec<String> {
    props.iter().map(|p| p.name.clone()).collect()
}

fn qp_names(qps: &[QualifiedProperty]) -> Vec<(String, Vec<String>)> {
    qps.iter().map(|q| (q.name.clone(), q.parameters.iter().map(|p| p.name.clone()).collect())).collect()
}

#[test]
fn class_dates_for_bitemporal_class() {
    let mut c = class_with(vec![prop("id", ADDRESS, Multiplicity::PureOne, 1)], vec![stereo("bitemporal", None)]);
    let carriers = CarrierIds { business_date: None, processing_date: None, bitemporal: Some(CARRIER) };
    synthesize_class_dates(&mut c, &si(9), TEMPORAL, Some(MILESTONING), &carriers);
    assert_eq!(names(&c.properties), vec!["id", "processingDate", "businessDate", "milestoning"]);
    assert_eq!(c.properties[1].type_expr, named(date_id()));
    assert_eq!(c.properties[3].type_expr, named(CARRIER));
    assert_eq!(c.properties[3].multiplicity, Multiplicity::ZeroOrOne);
    assert_eq!(c.properties[1].stereotypes[0].value, "generatedmilestoningdateproperty");
    // running again changes nothing: the slot is already there
    synthesize_class_dates(&mut c, &si(9), TEMPORAL, Some(MILESTONING), &carriers);
    assert_eq!(c.properties.len(), 4);
}

#[test]
fn class_dates_without_carrier_or_stereotype() {
    let mut c = class_with(vec![], vec![stereo("businesstemporal", None)]);
    let none = CarrierIds { business_date: None, processing_date: None, bitemporal: None };
    synthesize_class_dates(&mut c, &si(9), TEMPORAL, None, &none);
    assert_eq!(names(&c.properties), vec!["businessDate"]);
    assert!(c.properties[0].stereotypes.is_empty());
    let mut plain = class_with(vec![], vec![]);
    synthesize_class_dates(&mut plain, &si(9), TEMPORAL, None, &none);
    assert!(plain.properties.is_empty());
}

#[test]
fn rewrite_surface_for_bitemporal_target() {
    let original = prop("address", ADDRESS, Multiplicity::ZeroOrOne, 4);
    let mut props = Vec::new();
    let mut qps = Vec::new();
    let mut errors = Vec::new();
    synthesize_for_property(
        &original,
        MilestoningStereotype::Bitemporal,
        true,
        None,
        &"Person".to_string(),
        &[],
        &[],
        &mut props,
        &mut qps,
        &mut errors,
    );
    assert_eq!(names(&props), vec!["addressAllVersions"]);
    assert_eq!(props[0].multiplicity, Multiplicity::ZeroOrMany);
    assert_eq!(
        qp_names(&qps),
        vec![
            ("address".to_string(), vec![]),
            ("address".to_string(), vec!["pd".to_string(), "bd".to_string()]),
            ("address".to_string(), vec!["td".to_string()]),
            ("addressAllVersionsInRange".to_string(), vec!["start".to_string(), "end".to_string()]),
        ]
    );
    assert!(errors.is_empty());
}

#[test]
fn rewrite_surface_reports_collisions() {
    let original = prop("address", ADDRESS, Multiplicity::PureOne, 4);
    let mut props = Vec::new();
    let mut qps = Vec::new();
    let mut errors = Vec::new();
    synthesize_for_property(
        &original,
        MilestoningStereotype::BusinessTemporal,
        false,
        None,
        &"Person".to_string(),
        &["addressAllVersions".to_string()],
        &[],
        &mut props,
        &mut qps,
        &mut errors,
    );
    assert!(props.is_empty() && qps.is_empty());
    assert!(matches!(&errors[0], MilestoningIssue::EdgePointCollision { synthesized_name, .. } if synthesized_name == "addressAllVersions"));

    let mut errors = Vec::new();
    synthesize_for_property(
        &original,
        MilestoningStereotype::BusinessTemporal,
        false,
        None,
        &"Person".to_string(),
        &[],
        &["addressAllVersionsInRange".to_string()],
        &mut props,
        &mut qps,
        &mut errors,
    );
    assert_eq!(props[0].multiplicity, Multiplicity::OneOrMany);
    assert_eq!(qp_names(&qps), vec![("address".to_string(), vec!["td".to_string()])]);
    assert_eq!(errors.len(), 1);
}

#[test]
fn applying_plans_moves_originals_aside() {
    let mut c = class_with(
        vec![
            prop("a", ADDRESS, Multiplicity::PureOne, 1),
            prop("b", ADDRESS, Multiplicity::PureOne, 2),
            prop("c", ADDRESS, Multiplicity::PureOne, 3),
        ],
        vec![],
    );
    let plans = vec![
        PropertyRewritePlan { original_index: 0, target_stereotype: MilestoningStereotype::ProcessingTemporal, emit_no_arg_variant: false },
        PropertyRewritePlan { original_index: 2, target_stereotype: MilestoningStereotype::ProcessingTemporal, emit_no_arg_variant: false },
    ];
    let mut errors = Vec::new();
    apply_property_rewrites(&mut c, &"Owner".to_string(), plans, Some(MILESTONING), &mut errors);
    assert_eq!(names(&c.properties), vec!["b", "aAllVersions", "cAllVersions"]);
    assert_eq!(names(&c.original_milestoned_properties), vec!["c", "a"]);
    assert_eq!(c.qualified_properties.len(), 4);
    assert_eq!(c.properties[1].stereotypes[0].value, "generatedmilestoningproperty");
    assert!(errors.is_empty());
}

#[test]
fn validators_report_each_problem() {
    let stereotypes = vec![
        stereo("businesstemporal", Some(1)),
        stereo("businesstemporal", Some(2)),
        stereo("processingtemporal", Some(3)),
    ];
    let mut errors = Vec::new();
    validate_at_most_one_temporal_stereotype(&stereotypes, TEMPORAL, &"C".to_string(), &si(9), &mut errors);
    match &errors[0] {
        MilestoningIssue::StereotypeConflict { stereotypes, source_info, .. } => {
            assert_eq!(
                stereotypes,
                &vec![MilestoningStereotype::BusinessTemporal, MilestoningStereotype::ProcessingTemporal]
            );
            assert_eq!(source_info.start_line, 3);
        }
        other => panic!("unexpected {other:?}"),
    }

    let mut errors = Vec::new();
    validate_at_most_one_temporal_stereotype(&stereotypes[..2], TEMPORAL, &"C".to_string(), &si(9), &mut errors);
    assert!(errors.is_empty());

    let props = vec![prop("businessDate", ADDRESS, Multiplicity::PureOne, 5), prop("x", ADDRESS, Multiplicity::PureOne, 6), prop("thru", ADDRESS, Multiplicity::PureOne, 7)];
    let mut errors = Vec::new();
    validate_reserved_property_names(&props, &stereotypes, TEMPORAL, &"C".to_string(), &mut errors);
    assert_eq!(errors.len(), 2);

    let supers = vec![
        ("A".to_string(), Some(MilestoningStereotype::BusinessTemporal)),
        ("B".to_string(), Some(MilestoningStereotype::Bitemporal)),
        ("D".to_string(), None),
    ];
    let mut errors = Vec::new();
    validate_temporal_hierarchy_consistency(&stereotypes, &supers, TEMPORAL, &"C".to_string(), &si(9), &mut errors);
    assert_eq!(errors.len(), 1);
    assert!(matches!(&errors[0], MilestoningIssue::HierarchyMismatch { super_class_name, .. } if super_class_name == "B"));
}

fn strings(path: &[&str]) -> Vec<String> {
    path.iter().map(|s| s.to_string()).collect()
}

fn plain_class(props: Vec<Property>, stereotypes: Vec<StereotypeRef>) -> Class {
    class_with(props, stereotypes)
}

fn bootstrap_prim() -> PrimitiveType {
    PrimitiveType {
        super_type: None,
        super_type_value_arguments: vec![],
        type_variable_parameters: vec![],
        constraints: vec![],
    }
}

/// Bootstrap chunk, a platform chunk (the two profiles and the business
/// date carrier) and a user chunk: `Address` (business temporal),
/// `Person.address: Address[0..1]` and an association end
/// `home: Address[1]`.
fn temporal_model(with_platform: bool) -> PureModel {
    let temporal = ElementId { chunk_id: 1, local_idx: 0 };
    let mut model = PureModel::new();
    let profiles = model.get_or_create_package(&strings(&["meta", "pure", "profiles"]));
    let ms = model.get_or_create_package(&strings(&["meta", "pure", "milestoning"]));
    let app = model.get_or_create_package(&strings(&["app"]));
    let root = model.root_package;
    let node = |name: &str, pkg| ElementNode { name: name.to_string(), source_info: si(1), parent_package: pkg };
    let mut c0 = ModelChunk::new(0);
    c0.alloc_element(node("Any", root), Element::Class(plain_class(vec![], vec![])));
    c0.alloc_element(node("Nil", root), Element::Class(plain_class(vec![], vec![])));
    c0.alloc_element(node("Boolean", root), Element::PrimitiveType(bootstrap_prim()));
    c0.alloc_element(node("String", root), Element::PrimitiveType(bootstrap_prim()));
    c0.alloc_element(node("Date", root), Element::PrimitiveType(bootstrap_prim()));
    let mut c1 = ModelChunk::new(1);
    let profile = || Element::Profile(Profile { stereotypes: vec![], tags: vec![] });
    c1.alloc_element(node("temporal", profiles), profile());
    c1.alloc_element(node("milestoning", profiles), profile());
    c1.alloc_element(node("BusinessDateMilestoning", ms), Element::Class(plain_class(vec![], vec![])));
    let address_id = ElementId { chunk_id: 2, local_idx: 0 };
    let mut c2 = ModelChunk::new(2);
    c2.alloc_element(
        node("Address", app),
        Element::Class(plain_class(
            vec![],
            vec![StereotypeRef { profile: temporal, value: "businesstemporal".to_string(), source_info: None }],
        )),
    );
    c2.alloc_element(
        node("Person", app),
        Element::Class(plain_class(vec![prop("address", address_id, Multiplicity::ZeroOrOne, 3)], vec![])),
    );
    c2.alloc_element(
        node("Residence", app),
        Element::Association(Association {
            properties: vec![prop("home", address_id, Multiplicity::PureOne, 4)],
            qualified_properties: vec![],
            stereotypes: vec![],
            tagged_values: vec![],
            original_milestoned_properties: vec![],
        }),
    );
    model.chunks.push(c0);
    model.chunks.push(c1);
    model.chunks.push(c2);
    if with_platform {
        model.register_element(profiles, ElementId { chunk_id: 1, local_idx: 0 });
        model.register_element(profiles, ElementId { chunk_id: 1, local_idx: 1 });
        model.register_element(ms, ElementId { chunk_id: 1, local_idx: 2 });
    }
    model.register_element(app, address_id);
    model
}

fn class_in(model: &PureModel, c: usize, i: usize) -> &Class {
    match &model.chunks[c].elements.items[i] {
        Element::Class(k) => k,
        _ => panic!("not a class"),
    }
}

#[test]
fn synthesis_over_a_model() {
    let mut model = temporal_model(true);
    let mut errors = Vec::new();
    synthesize(&mut model, &mut errors);
    assert!(errors.is_empty());
    let address = class_in(&model, 2, 0);
    assert_eq!(names(&address.properties), vec!["businessDate", "milestoning"]);
    assert_eq!(address.properties[1].type_expr, named(ElementId { chunk_id: 1, local_idx: 2 }));
    assert_eq!(address.properties[0].stereotypes[0].profile, ElementId { chunk_id: 1, local_idx: 1 });
    let person = class_in(&model, 2, 1);
    assert_eq!(names(&person.properties), vec!["addressAllVersions"]);
    assert_eq!(names(&person.original_milestoned_properties), vec!["address"]);
    let qps: Vec<String> = person.qualified_properties.iter().map(|q| q.name.clone()).collect();
    assert_eq!(qps, vec!["address", "addressAllVersionsInRange"]);
    assert_eq!(person.properties[0].stereotypes[0].value, "generatedmilestoningproperty");
    match &model.chunks[2].elements.items[2] {
        Element::Association(a) => {
            assert_eq!(names(&a.properties), vec!["homeAllVersions"]);
            assert_eq!(names(&a.original_milestoned_properties), vec!["home"]);
        }
        _ => panic!("not an association"),
    }
}

#[test]
fn synthesis_needs_the_temporal_profile() {
    let mut model = temporal_model(false);
    let mut errors = Vec::new();
    synthesize(&mut model, &mut errors);
    assert!(errors.is_empty());
    assert_eq!(names(&class_in(&model, 2, 1).properties), vec!["address"]);
    assert!(class_in(&model, 2, 0).properties.is_empty());
}

#[test]
fn a_second_synthesis_adds_no_class_dates() {
    let mut model = temporal_model(true);
    let mut errors = Vec::new();
    synthesize(&mut model, &mut errors);
    synthesize(&mut model, &mut errors);
    let address = class_in(&model, 2, 0);
    assert_eq!(names(&address.properties), vec!["businessDate", "milestoning"]);
}
