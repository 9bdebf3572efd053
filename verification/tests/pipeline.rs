use legend_pure::expr::Parameter;
use legend_pure::ids::{any_id, ElementId};
use legend_pure::model::{Element, ElementNode, ModelChunk, PureModel};
use legend_pure::nodes::{Class, PrimitiveType, Property, QualifiedProperty};
use legend_pure::pipeline::{create_shell, resolve_m3_supertypes, wire_any_reflective_properties, SourceElement, SourceParameter};
use legend_pure::nodes::{SpannedString, Variance};
use legend_pure::types::{ConstValue, Multiplicity, SourceInfo, TypeExpr};

fn si() -> SourceInfo {
    SourceInfo { source: "m3.pure".to_string(), start_line: 1, start_column: 1, end_line: 1, end_column: 2 }
}

fn named(element: ElementId) -> TypeExpr {
    TypeExpr::Named {
        element,
        type_arguments: vec![],
        multiplicity_arguments: vec![],
        value_arguments: vec![],
        source_info: None,
    }
}

fn generic(name: &str) -> TypeExpr {
    TypeExpr::Generic(name.to_string())
}

fn marker(raw: &str) -> TypeExpr {
    TypeExpr::Named {
        element: any_id(),
        type_arguments: vec![],
        multiplicity_arguments: vec![],
        value_arguments: vec![ConstValue::String(raw.to_string())],
        source_info: None,
    }
}

fn prop(name: &str, t: TypeExpr) -> Property {
    Property {
        name: name.to_string(),
        source_info: si(),
        type_expr: t,
        multiplicity: Multiplicity::PureOne,
        aggregation: None,
        default_value: None,
        stereotypes: vec![],
        tagged_values: vec![],
    }
}

fn class(type_params: &[&str], supers: Vec<TypeExpr>, props: Vec<Property>, qps: Vec<QualifiedProperty>) -> Class {
    Class {
        type_parameters: type_params.iter().map(|s| s.to_string()).collect(),
        type_parameter_variances: vec![],
        multiplicity_parameters: vec![],
        type_variable_parameters: vec![],
        super_types: supers,
        properties: props,
        qualified_properties: qps,
        constraints: vec![],
        stereotypes: vec![],
        tagged_values: vec![],
        original_milestoned_properties: vec![],
    }
}

fn prim() -> PrimitiveType {
    PrimitiveType {
        super_type: None,
        super_type_value_arguments: vec![],
        type_variable_parameters: vec![],
        constraints: vec![],
    }
}

fn node(name: &str, model: &PureModel) -> ElementNode {
    ElementNode { name: name.to_string(), source_info: si(), parent_package: model.root_package }
}

fn class_at(model: &PureModel, idx: usize) -> &Class {
    match &model.chunks[0].elements.items[idx] {
        Element::Class(c) => c,
        _ => panic!("not a class"),
    }
}

const TYPE: ElementId = ElementId { chunk_id: 0, local_idx: 5 };
const FUNCTION: ElementId = ElementId { chunk_id: 0, local_idx: 6 };
const SECOND_DUP: ElementId = ElementId { chunk_id: 0, local_idx: 8 };

/// A bootstrap chunk as the metamodel reader leaves it.
fn raw_bootstrap() -> PureModel {
    let mut model = PureModel::new();
    let mut c0 = ModelChunk::new(0);
    c0.alloc_element(node("Any", &model), Element::Class(class(&[], vec![], vec![], vec![])));
    c0.alloc_element(node("Nil", &model), Element::Class(class(&[], vec![], vec![], vec![])));
    c0.alloc_element(node("Boolean", &model), Element::PrimitiveType(prim()));
    c0.alloc_element(node("String", &model), Element::PrimitiveType(prim()));
    c0.alloc_element(node("Date", &model), Element::PrimitiveType(prim()));
    c0.alloc_element(node("Type", &model), Element::Class(class(&[], vec![], vec![], vec![])));
    let eval = QualifiedProperty {
        name: "eval".to_string(),
        source_info: si(),
        parameters: vec![Parameter {
            name: "f".to_string(),
            type_expr: generic("Function"),
            multiplicity: Multiplicity::PureOne,
            source_info: None,
        }],
        return_type: marker("Function"),
        return_multiplicity: Multiplicity::PureOne,
        body: vec![],
        stereotypes: vec![],
        tagged_values: vec![],
    };
    let nested = TypeExpr::Named {
        element: TYPE,
        type_arguments: vec![generic("Type"), generic("T")],
        multiplicity_arguments: vec![],
        value_arguments: vec![],
        source_info: None,
    };
    c0.alloc_element(
        node("Function", &model),
        Element::Class(class(
            &["T"],
            vec![generic("Type")],
            vec![
                prop("own", generic("T")),
                prop("kind", generic("Type")),
                prop("unknown", generic("Missing")),
                prop("nested", nested),
                prop("dup", generic("Dup")),
            ],
            vec![eval],
        )),
    );
    c0.alloc_element(node("Dup", &model), Element::Class(class(&[], vec![], vec![], vec![])));
    c0.alloc_element(node("Dup", &model), Element::Class(class(&[], vec![], vec![], vec![])));
    model.chunks.push(c0);
    model
}

#[test]
fn m3_names_resolve_to_bootstrap_classes() {
    let mut model = raw_bootstrap();
    resolve_m3_supertypes(&mut model);
    let f = class_at(&model, 6);
    assert_eq!(f.super_types, vec![named(TYPE)]);
    assert_eq!(f.properties[0].type_expr, generic("T"));
    assert_eq!(f.properties[1].type_expr, named(TYPE));
    assert_eq!(f.properties[2].type_expr, generic("Missing"));
    let nested = TypeExpr::Named {
        element: TYPE,
        type_arguments: vec![named(TYPE), generic("T")],
        multiplicity_arguments: vec![],
        value_arguments: vec![],
        source_info: None,
    };
    assert_eq!(f.properties[3].type_expr, nested);
    // a later element shadows an earlier one of the same name
    assert_eq!(f.properties[4].type_expr, named(SECOND_DUP));
    assert_eq!(f.qualified_properties[0].return_type, named(FUNCTION));
    assert_eq!(f.qualified_properties[0].parameters[0].type_expr, named(FUNCTION));
    assert_eq!(f.qualified_properties[0].parameters[0].name, "f");
}

#[test]
fn m3_parentless_classes_extend_any() {
    let mut model = raw_bootstrap();
    resolve_m3_supertypes(&mut model);
    assert!(class_at(&model, 0).super_types.is_empty());
    assert_eq!(class_at(&model, 1).super_types, vec![named(any_id())]);
    assert_eq!(class_at(&model, 5).super_types, vec![named(any_id())]);
    assert!(matches!(model.chunks[0].elements.items[2], Element::PrimitiveType(_)));
}

#[test]
fn m3_marker_without_class_is_kept() {
    let mut model = raw_bootstrap();
    if let Element::Class(c) = &mut model.chunks[0].elements.items[5] {
        c.properties.push(prop("odd", marker("Nowhere")));
    }
    resolve_m3_supertypes(&mut model);
    assert_eq!(class_at(&model, 5).properties[0].type_expr, marker("Nowhere"));
}

fn strings(path: &[&str]) -> Vec<String> {
    path.iter().map(|s| s.to_string()).collect()
}

const GENERIC_TYPE: ElementId = ElementId { chunk_id: 1, local_idx: 0 };
const ELEMENT_OVERRIDE: ElementId = ElementId { chunk_id: 1, local_idx: 1 };

fn with_metamodel() -> PureModel {
    let mut model = raw_bootstrap();
    let generics = model.get_or_create_package(&strings(&["meta", "pure", "metamodel", "type", "generics"]));
    let types = model.get_or_create_package(&strings(&["meta", "pure", "metamodel", "type"]));
    let mut c1 = ModelChunk::new(1);
    c1.alloc_element(
        ElementNode { name: "GenericType".to_string(), source_info: si(), parent_package: generics },
        Element::Class(class(&[], vec![], vec![], vec![])),
    );
    c1.alloc_element(
        ElementNode { name: "ElementOverride".to_string(), source_info: si(), parent_package: types },
        Element::Class(class(&[], vec![], vec![], vec![])),
    );
    model.chunks.push(c1);
    model.register_element(generics, GENERIC_TYPE);
    model.register_element(types, ELEMENT_OVERRIDE);
    model
}

#[test]
fn any_gets_reflective_properties_once() {
    let mut model = with_metamodel();
    wire_any_reflective_properties(&mut model);
    let any = class_at(&model, 0);
    let names: Vec<&str> = any.properties.iter().map(|p| p.name.as_str()).collect();
    assert_eq!(names, vec!["classifierGenericType", "elementOverride"]);
    assert_eq!(any.properties[0].type_expr, named(GENERIC_TYPE));
    assert_eq!(any.properties[1].type_expr, named(ELEMENT_OVERRIDE));
    assert_eq!(any.properties[0].multiplicity, Multiplicity::ZeroOrOne);
    assert_eq!(any.properties[0].source_info.source, "<bootstrap-Any-properties>");
    wire_any_reflective_properties(&mut model);
    assert_eq!(class_at(&model, 0).properties.len(), 2);
}

#[test]
fn any_left_alone_without_metamodel() {
    let mut model = raw_bootstrap();
    wire_any_reflective_properties(&mut model);
    assert!(class_at(&model, 0).properties.is_empty());
}

#[test]
fn shells_carry_only_what_the_source_says() {
    let si = SourceInfo { source: "s.pure".to_string(), start_line: 1, start_column: 2, end_line: 1, end_column: 4 };
    match create_shell(&SourceElement::Class {
        type_parameters: vec!["T".to_string(), "U".to_string()],
        multiplicity_parameters: vec!["m".to_string()],
    }) {
        legend_pure::model::Element::Class(c) => {
            assert_eq!(c.type_parameters, vec!["T".to_string(), "U".to_string()]);
            assert_eq!(c.type_parameter_variances, vec![Variance::Invariant, Variance::Invariant]);
            assert_eq!(c.multiplicity_parameters, vec!["m".to_string()]);
            assert!(c.properties.is_empty() && c.super_types.is_empty());
        }
        other => panic!("class expected, got {other:?}"),
    }
    match create_shell(&SourceElement::NativeFunction {
        name: "plus".to_string(),
        parameters: vec![SourceParameter { name: "a".to_string(), source_info: si.clone() }],
    }) {
        legend_pure::model::Element::Function(f) => {
            assert_eq!(f.function_name, "plus");
            assert!(f.is_native);
            assert_eq!(f.parameters.len(), 1);
            assert_eq!(f.parameters[0].name, "a");
            assert_eq!(f.parameters[0].multiplicity, Multiplicity::PureOne);
            assert_eq!(f.parameters[0].source_info, Some(si.clone()));
            assert!(matches!(&f.parameters[0].type_expr, TypeExpr::Named { element, .. } if *element == any_id()));
            assert!(f.body.is_empty());
        }
        other => panic!("function expected, got {other:?}"),
    }
    match create_shell(&SourceElement::Profile {
        stereotype_names: vec![SpannedString { value: "s".to_string(), source_info: si.clone() }],
        tag_names: vec![],
    }) {
        legend_pure::model::Element::Profile(p) => {
            assert_eq!(p.stereotypes.len(), 1);
            assert_eq!(p.stereotypes[0].value, "s");
            assert!(p.tags.is_empty());
        }
        other => panic!("profile expected, got {other:?}"),
    }
}
