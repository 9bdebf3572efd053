use legend_pure::hierarchy::{
    all_declared_properties_with_inheritance, class_has_property_in_hierarchy,
    find_property_full_with_inheritance, find_property_multiplicity,
    find_property_with_inheritance, hierarchy_classes,
};
use legend_pure::ids::{any_id, nil_id, ElementId};
use legend_pure::model::{Element, ElementNode, ModelChunk, PureModel};
use legend_pure::nodes::{Association, Class, PrimitiveType, Property, QualifiedProperty};
use legend_pure::resolve::{
    collect_ancestors, get_first_supertype, is_subtype, is_type_compatible, least_upper_bound_ids, typeexpr_lub,
};
use legend_pure::types::{Multiplicity, SourceInfo, TypeExpr};

fn si() -> SourceInfo {
    SourceInfo { source: "h.pure".to_string(), start_line: 1, start_column: 1, end_line: 1, end_column: 5 }
}

fn named(element: ElementId) -> TypeExpr {
    TypeExpr::Named {
        element,
        type_arguments: vec![],
        multiplicity_arguments: vec![],
        value_arguments: vec![],
        source_info: None,
    }
}

fn prop(name: &str, t: ElementId, m: Multiplicity) -> Property {
    Property {
        name: name.to_string(),
        source_info: si(),
        type_expr: named(t),
        multiplicity: m,
        aggregation: None,
        default_value: None,
        stereotypes: vec![],
        tagged_values: vec![],
    }
}

fn qp(name: &str, t: ElementId) -> QualifiedProperty {
    QualifiedProperty {
        name: name.to_string(),
        source_info: si(),
        parameters: vec![],
        return_type: named(t),
        return_multiplicity: Multiplicity::ZeroOrMany,
        body: vec![],
        stereotypes: vec![],
        tagged_values: vec![],
    }
}

fn class(supers: &[ElementId], props: Vec<Property>, qps: Vec<QualifiedProperty>) -> Class {
    Class {
        type_parameters: vec![],
        type_parameter_variances: vec![],
        multiplicity_parameters: vec![],
        type_variable_parameters: vec![],
        super_types: supers.iter().map(|s| named(*s)).collect(),
        properties: props,
        qualified_properties: qps,
        constraints: vec![],
        stereotypes: vec![],
        tagged_values: vec![],
        original_milestoned_properties: vec![],
    }
}

fn prim() -> PrimitiveType {
    PrimitiveType {
        super_type: None,
        super_type_value_arguments: vec![],
        type_variable_parameters: vec![],
        constraints: vec![],
    }
}

fn node(name: &str, model: &PureModel) -> ElementNode {
    ElementNode { name: name.to_string(), source_info: si(), parent_package: model.root_package }
}

const STRING: ElementId = ElementId { chunk_id: 0, local_idx: 3 };
const ANIMAL: ElementId = ElementId { chunk_id: 1, local_idx: 0 };
const PET: ElementId = ElementId { chunk_id: 1, local_idx: 1 };
const DOG: ElementId = ElementId { chunk_id: 1, local_idx: 2 };
const CAT: ElementId = ElementId { chunk_id: 1, local_idx: 3 };
const OWNER: ElementId = ElementId { chunk_id: 1, local_idx: 4 };
const OWNS: ElementId = ElementId { chunk_id: 1, local_idx: 5 };

/// Any, Nil, Boolean, String, Date in chunk 0; in chunk 1:
/// Animal <- Pet <- Dog (Dog also extends Animal directly), Animal <- Cat,
/// Owner, and an association Owner.pets / Pet.owner.
fn zoo() -> PureModel {
    let mut model = PureModel::new();
    let mut c0 = ModelChunk::new(0);
    c0.alloc_element(node("Any", &model), Element::Class(class(&[], vec![], vec![])));
    c0.alloc_element(node("Nil", &model), Element::Class(class(&[], vec![], vec![])));
    c0.alloc_element(node("Boolean", &model), Element::PrimitiveType(prim()));
    c0.alloc_element(node("String", &model), Element::PrimitiveType(prim()));
    c0.alloc_element(node("Date", &model), Element::PrimitiveType(prim()));
    let mut c1 = ModelChunk::new(1);
    c1.alloc_element(
        node("Animal", &model),
        Element::Class(class(
            &[any_id()],
            vec![prop("name", STRING, Multiplicity::PureOne), prop("legs", STRING, Multiplicity::ZeroOrOne)],
            vec![qp("describe", STRING)],
        )),
    );
    c1.alloc_element(
        node("Pet", &model),
        Element::Class(class(&[ANIMAL], vec![prop("nickname", STRING, Multiplicity::ZeroOrMany)], vec![])),
    );
    c1.alloc_element(
        node("Dog", &model),
        Element::Class(class(&[PET, ANIMAL], vec![prop("legs", STRING, Multiplicity::PureOne)], vec![])),
    );
    c1.alloc_element(node("Cat", &model), Element::Class(class(&[ANIMAL], vec![], vec![])));
    c1.alloc_element(node("Owner", &model), Element::Class(class(&[any_id()], vec![], vec![])));
    c1.alloc_element(
        node("Owns", &model),
        Element::Association(Association {
            properties: vec![
                prop("owner", OWNER, Multiplicity::ZeroOrOne),
                prop("pets", PET, Multiplicity::ZeroOrMany),
            ],
            qualified_properties: vec![],
            stereotypes: vec![],
            tagged_values: vec![],
            original_milestoned_properties: vec![],
        }),
    );
    model.chunks.push(c0);
    model.chunks.push(c1);
    model.rebuild_derived_indexes();
    model
}

#[test]
fn derived_indexes_record_specializations_and_ends() {
    let model = zoo();
    assert_eq!(model.specializations(ANIMAL), &[PET, DOG, CAT]);
    assert_eq!(model.specializations(PET), &[DOG]);
    assert_eq!(model.specializations(any_id()), &[ANIMAL, OWNER]);
    assert!(model.specializations(DOG).is_empty());
    assert_eq!(model.association_properties(OWNER), &[(OWNS, 0)]);
    assert_eq!(model.association_properties(PET), &[(OWNS, 1)]);
}

#[test]
fn subtyping_and_lub() {
    let model = zoo();
    assert!(is_subtype(DOG, ANIMAL, &model));
    assert!(is_subtype(DOG, any_id(), &model));
    assert!(is_subtype(nil_id(), DOG, &model));
    assert!(!is_subtype(CAT, PET, &model));
    assert!(is_subtype(CAT, CAT, &model));
    assert_eq!(least_upper_bound_ids(DOG, CAT, &model), ANIMAL);
    assert_eq!(least_upper_bound_ids(DOG, PET, &model), PET);
    assert_eq!(least_upper_bound_ids(CAT, OWNER, &model), any_id());
    assert_eq!(get_first_supertype(DOG, &model), Some(PET));
    let mut chain = Vec::new();
    collect_ancestors(DOG, &model, &mut chain);
    assert_eq!(chain, vec![DOG, PET, ANIMAL, any_id()]);
    assert!(is_type_compatible(Some(DOG), &named(ANIMAL), &model));
    assert!(!is_type_compatible(Some(CAT), &named(PET), &model));
    assert!(is_type_compatible(None, &named(PET), &model));
}

#[test]
fn breadth_first_order_visits_each_class_once() {
    let model = zoo();
    assert_eq!(hierarchy_classes(&model, DOG), vec![DOG, PET, ANIMAL, any_id()]);
    assert_eq!(hierarchy_classes(&model, ElementId { chunk_id: 7, local_idx: 0 }), vec![]);
    assert_eq!(hierarchy_classes(&model, STRING), vec![]);
}

#[test]
fn property_existence_through_hierarchy_and_associations() {
    let model = zoo();
    assert!(class_has_property_in_hierarchy(&model, DOG, "name"));
    assert!(class_has_property_in_hierarchy(&model, DOG, "describe"));
    assert!(class_has_property_in_hierarchy(&model, DOG, "owner"));
    assert!(class_has_property_in_hierarchy(&model, OWNER, "pets"));
    assert!(!class_has_property_in_hierarchy(&model, CAT, "owner"));
    assert!(!class_has_property_in_hierarchy(&model, DOG, "colour"));
    assert!(!class_has_property_in_hierarchy(&model, ElementId { chunk_id: 9, local_idx: 9 }, "name"));
}

#[test]
fn property_lookup_takes_the_nearest_declaration() {
    let model = zoo();
    let (t, params) = find_property_with_inheritance(DOG, "legs", &model).expect("legs");
    assert_eq!(t, named(STRING));
    assert!(params.is_empty());
    assert_eq!(find_property_multiplicity(DOG, "legs", &model), Some(Multiplicity::PureOne));
    assert_eq!(find_property_multiplicity(CAT, "legs", &model), Some(Multiplicity::ZeroOrOne));
    assert_eq!(find_property_multiplicity(CAT, "describe", &model), Some(Multiplicity::ZeroOrMany));
    assert!(find_property_with_inheritance(CAT, "nickname", &model).is_none());
    let owner = find_property_full_with_inheritance(DOG, "owner", &model).expect("association end");
    assert_eq!(owner.name, "owner");
    assert!(find_property_full_with_inheritance(DOG, "describe", &model).is_none());
}

#[test]
fn declared_properties_shadow_inherited_ones() {
    let model = zoo();
    let names: Vec<String> = all_declared_properties_with_inheritance(DOG, &model)
        .iter()
        .map(|p| p.name.clone())
        .collect();
    assert_eq!(names, vec!["legs", "nickname", "name"]);
    let dog_legs = all_declared_properties_with_inheritance(DOG, &model)[0].multiplicity.clone();
    assert_eq!(dog_legs, Multiplicity::PureOne);
}

#[test]
fn lub_is_commutative_with_nil_as_identity() {
    let model = zoo();
    for a in [DOG, CAT, PET, ANIMAL, OWNER] {
        assert_eq!(least_upper_bound_ids(nil_id(), a, &model), a);
        for b in [DOG, CAT, PET, ANIMAL, OWNER] {
            assert_eq!(least_upper_bound_ids(a, b, &model), least_upper_bound_ids(b, a, &model));
        }
    }
}

#[test]
fn element_lub_of_type_expressions() {
    let model = zoo();
    assert_eq!(typeexpr_lub(&named(DOG), &named(CAT), &model), named(ANIMAL));
    assert_eq!(typeexpr_lub(&named(DOG), &named(DOG), &model), named(DOG));
    let g = TypeExpr::Generic("T".to_string());
    assert_eq!(typeexpr_lub(&g, &named(DOG), &model), g);
}

#[test]
fn subtyping_reads_only_the_reachable_hierarchy() {
    let mut model = zoo();
    // A chunk whose two classes extend each other, and a class whose
    // supertype is not in the model: none of them is reachable from the
    // zoo's classes.
    let loop_a = ElementId { chunk_id: 2, local_idx: 0 };
    let loop_b = ElementId { chunk_id: 2, local_idx: 1 };
    let dangling = ElementId { chunk_id: 9, local_idx: 0 };
    let mut c2 = ModelChunk::new(2);
    c2.alloc_element(node("LoopA", &model), Element::Class(class(&[loop_b], vec![], vec![])));
    c2.alloc_element(node("LoopB", &model), Element::Class(class(&[loop_a], vec![], vec![])));
    c2.alloc_element(node("Orphan", &model), Element::Class(class(&[dangling], vec![], vec![])));
    model.chunks.push(c2);
    assert!(is_subtype(DOG, ANIMAL, &model));
    assert!(!is_subtype(CAT, PET, &model));
    assert!(is_subtype(nil_id(), loop_a, &model));
    assert_eq!(least_upper_bound_ids(DOG, CAT, &model), ANIMAL);
    assert_eq!(least_upper_bound_ids(nil_id(), CAT, &model), CAT);
    assert_eq!(least_upper_bound_ids(DOG, nil_id(), &model), DOG);
    assert_eq!(typeexpr_lub(&named(DOG), &named(CAT), &model), named(ANIMAL));
    assert!(is_type_compatible(Some(DOG), &named(PET), &model));
    assert!(!is_type_compatible(Some(CAT), &named(PET), &model));
}
