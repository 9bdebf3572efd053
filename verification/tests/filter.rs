use legend_pure::ids::ElementId;
use legend_pure::model::{Element, ElementNode, ModelChunk, PureModel};
use legend_pure::nodes::{Class, Enumeration, StereotypeRef};
use legend_pure::purem::filter::{
    estimate_survivor_count, has_access_private, is_test_stereotyped, package_has_test_segment,
    resolve_package_or_element, test_candidates,
};
use legend_pure::resolve::annotations::ResolvedRef;
use legend_pure::types::SourceInfo;

fn si() -> SourceInfo {
    SourceInfo { source: "t.pure".to_string(), start_line: 1, start_column: 1, end_line: 1, end_column: 2 }
}

const TEST_PROFILE: ElementId = ElementId { chunk_id: 0, local_idx: 7 };
const PCT_PROFILE: ElementId = ElementId { chunk_id: 0, local_idx: 8 };
const ACCESS_PROFILE: ElementId = ElementId { chunk_id: 0, local_idx: 9 };

fn stereo(profile: ElementId, value: &str) -> StereotypeRef {
    StereotypeRef { profile, value: value.to_string(), source_info: None }
}

fn class(stereotypes: Vec<StereotypeRef>) -> Element {
    Element::Class(Class {
        type_parameters: vec![],
        type_parameter_variances: vec![],
        multiplicity_parameters: vec![],
        type_variable_parameters: vec![],
        super_types: vec![],
        properties: vec![],
        qualified_properties: vec![],
        constraints: vec![],
        stereotypes,
        tagged_values: vec![],
        original_milestoned_properties: vec![],
    })
}

#[test]
fn test_and_private_markers() {
    assert!(is_test_stereotyped(&class(vec![stereo(TEST_PROFILE, "ToFix")]), Some(TEST_PROFILE), None));
    assert!(!is_test_stereotyped(&class(vec![stereo(TEST_PROFILE, "Other")]), Some(TEST_PROFILE), None));
    assert!(is_test_stereotyped(&class(vec![stereo(PCT_PROFILE, "test")]), None, Some(PCT_PROFILE)));
    assert!(!is_test_stereotyped(&class(vec![stereo(PCT_PROFILE, "adapter")]), None, Some(PCT_PROFILE)));
    assert!(!is_test_stereotyped(&class(vec![stereo(TEST_PROFILE, "Test")]), None, None));
    let e = Element::Enumeration(Enumeration { values: vec![], stereotypes: vec![stereo(ACCESS_PROFILE, "private")], tagged_values: vec![] });
    assert!(has_access_private(&e, Some(ACCESS_PROFILE)));
    assert!(!has_access_private(&e, None));
    assert!(!has_access_private(&class(vec![stereo(ACCESS_PROFILE, "protected")]), Some(ACCESS_PROFILE)));
}

#[test]
fn candidates_skip_the_bootstrap_chunk() {
    let mut model = PureModel::new();
    let tests_pkg = model.get_or_create_package(&vec!["a".to_string(), "tests".to_string()]);
    let plain_pkg = model.get_or_create_package(&vec!["a".to_string()]);
    assert!(package_has_test_segment(&model, tests_pkg));
    assert!(!package_has_test_segment(&model, plain_pkg));
    let mut c0 = ModelChunk::new(0);
    c0.alloc_element(
        ElementNode { name: "Boot".to_string(), source_info: si(), parent_package: plain_pkg },
        class(vec![stereo(TEST_PROFILE, "Test")]),
    );
    let mut c1 = ModelChunk::new(1);
    let entries = vec![
        (plain_pkg, class(vec![stereo(TEST_PROFILE, "Test")])),
        (tests_pkg, class(vec![stereo(ACCESS_PROFILE, "private")])),
        (plain_pkg, class(vec![stereo(ACCESS_PROFILE, "private")])),
        (tests_pkg, class(vec![])),
    ];
    for (pkg, e) in entries {
        c1.alloc_element(ElementNode { name: "E".to_string(), source_info: si(), parent_package: pkg }, e);
    }
    model.chunks.push(c0);
    model.chunks.push(c1);
    let r = test_candidates(&model, Some(TEST_PROFILE), Some(PCT_PROFILE), Some(ACCESS_PROFILE));
    assert_eq!(r, vec![ElementId { chunk_id: 1, local_idx: 0 }, ElementId { chunk_id: 1, local_idx: 1 }]);
}

#[test]
fn paths_to_elements_or_packages() {
    let mut model = PureModel::new();
    let a = model.get_or_create_package(&vec!["a".to_string()]);
    let mut c0 = ModelChunk::new(0);
    c0.alloc_element(ElementNode { name: "X".to_string(), source_info: si(), parent_package: a }, class(vec![]));
    model.chunks.push(c0);
    let x = ElementId { chunk_id: 0, local_idx: 0 };
    model.register_element(a, x);
    let p = |v: &[&str]| v.iter().map(|s| s.to_string()).collect::<Vec<String>>();
    assert_eq!(resolve_package_or_element(&model, &[]), Some(ResolvedRef::Package(model.root_package)));
    assert_eq!(resolve_package_or_element(&model, &p(&["a", "X"])), Some(ResolvedRef::Element(x)));
    assert_eq!(resolve_package_or_element(&model, &p(&["a"])), Some(ResolvedRef::Package(a)));
    assert_eq!(resolve_package_or_element(&model, &p(&["b"])), None);
    assert_eq!(estimate_survivor_count(&model, 0, 1, None), 1);
    assert_eq!(estimate_survivor_count(&model, 0, 0, None), 0);
    assert_eq!(estimate_survivor_count(&model, 0, 1, Some(&vec![x, x])), 2);
}
