use legend_pure::ids::{ElementId, PackageId};
use legend_pure::lowering::build_fqn;
use legend_pure::model::{Element, ElementNode, ModelChunk, PureModel};
use legend_pure::nodes::{Class, PrimitiveType};
use legend_pure::purem::fqn_path::{
    build_fqn_index, element_fqn_path, fqn_path_to_string, package_path, resolve_fqn_path,
};
use legend_pure::types::SourceInfo;

fn test_source() -> SourceInfo {
    SourceInfo {
        source: "test.pure".to_string(),
        start_line: 1,
        start_column: 1,
        end_line: 1,
        end_column: 10,
    }
}

fn empty_class() -> Class {
    Class {
        type_parameters: vec![],
        type_parameter_variances: vec![],
        multiplicity_parameters: vec![],
        type_variable_parameters: vec![],
        super_types: vec![],
        properties: vec![],
        qualified_properties: vec![],
        constraints: vec![],
        stereotypes: vec![],
        tagged_values: vec![],
        original_milestoned_properties: vec![],
    }
}

fn segs(path: &[&str]) -> Vec<String> {
    path.iter().map(|s| s.to_string()).collect()
}

#[test]
fn new_model_has_root_package() {
    let model = PureModel::new();
    let root = model.get_package(model.root_package);
    assert_eq!(root.name, "");
    assert!(root.parent.is_none());
    assert!(root.children_packages.is_empty());
    assert!(root.children_elements.is_empty());
}

#[test]
fn model_chunk_parallel_arenas() {
    let mut chunk = ModelChunk::new(1);
    let node_idx = chunk.nodes.allocate(ElementNode {
        name: "Person".to_string(),
        source_info: test_source(),
        parent_package: PackageId(0),
    });
    let elem_idx = chunk.elements.allocate(Element::Class(empty_class()));

    // Parallel: same index in both arenas
    assert_eq!(node_idx, elem_idx);
    assert_eq!(chunk.nodes.get(node_idx).name, "Person");
    assert!(matches!(chunk.elements.get(elem_idx), Element::Class(_)));
}

#[test]
fn model_get_element_and_node() {
    let mut model = PureModel::new();
    let mut chunk = ModelChunk::new(0);
    chunk.nodes.allocate(ElementNode {
        name: "String".to_string(),
        source_info: test_source(),
        parent_package: model.root_package,
    });
    chunk.elements.allocate(Element::PrimitiveType(PrimitiveType {
        super_type: None,
        super_type_value_arguments: vec![],
        type_variable_parameters: vec![],
        constraints: vec![],
    }));
    model.chunks.push(chunk);

    let id = ElementId { chunk_id: 0, local_idx: 0 };
    assert_eq!(model.get_node(id).name, "String");
    assert!(matches!(model.get_element(id), Element::PrimitiveType(_)));
}

#[test]
fn model_default_is_empty() {
    let model = PureModel::default();
    assert!(model.chunks.is_empty());
    assert!(model.derived().specializations.is_empty());
}

#[test]
fn package_path_for_root_is_empty() {
    let model = PureModel::new();
    let path = package_path(&model, model.root_package);
    assert!(path.is_empty());
}

#[test]
fn fqn_path_string_form() {
    let path = vec!["meta".to_string(), "pure".to_string(), "Class".to_string()];
    assert_eq!(fqn_path_to_string(&path), "meta::pure::Class");
}

#[test]
fn build_fqn_root() {
    let fqn = build_fqn(&[], &"Person".to_string());
    assert_eq!(fqn, "Person");
}

#[test]
fn build_fqn_with_package() {
    let fqn = build_fqn(&segs(&["model", "domain"]), &"Person".to_string());
    assert_eq!(fqn, "model::domain::Person");
}

/// A model with `meta::pure::Class` registered both at the root and in
/// its package, and `model::Person` in its package.
fn small_model() -> (PureModel, ElementId, ElementId) {
    let mut model = PureModel::new();
    let meta_pure = model.get_or_create_package(&segs(&["meta", "pure"]));
    let pkg_model = model.get_or_create_package(&segs(&["model"]));
    let mut chunk = ModelChunk::new(0);
    chunk.alloc_element(
        ElementNode { name: "Class".to_string(), source_info: test_source(), parent_package: model.root_package },
        Element::Class(empty_class()),
    );
    chunk.alloc_element(
        ElementNode { name: "Person".to_string(), source_info: test_source(), parent_package: pkg_model },
        Element::Class(empty_class()),
    );
    model.chunks.push(chunk);
    let class_id = ElementId { chunk_id: 0, local_idx: 0 };
    let person_id = ElementId { chunk_id: 0, local_idx: 1 };
    let root = model.root_package;
    model.register_element(root, class_id);
    model.register_element(meta_pure, class_id);
    model.register_element(pkg_model, person_id);
    (model, class_id, person_id)
}

#[test]
fn element_path_prefers_longest_registration() {
    let (model, class_id, person_id) = small_model();
    assert_eq!(element_fqn_path(&model, class_id), segs(&["meta", "pure", "Class"]));
    assert_eq!(element_fqn_path(&model, person_id), segs(&["model", "Person"]));
    let back = resolve_fqn_path(&model, &element_fqn_path(&model, class_id));
    assert_eq!(back, Some(class_id));
    assert_eq!(resolve_fqn_path(&model, &[]), None);
    assert_eq!(resolve_fqn_path(&model, &segs(&["model", "Nobody"])), None);
}

#[test]
fn fqn_index_agrees_with_element_paths() {
    let (model, class_id, person_id) = small_model();
    let index = build_fqn_index(&model);
    assert_eq!(index.len(), 2);
    for (id, path) in &index {
        assert_eq!(path, &element_fqn_path(&model, *id));
    }
    assert!(index.iter().any(|(id, _)| *id == class_id));
    assert!(index.iter().any(|(id, _)| *id == person_id));
}

#[test]
fn package_path_of_nested_package() {
    let mut model = PureModel::new();
    let p = model.get_or_create_package(&segs(&["a", "b", "c"]));
    assert_eq!(package_path(&model, p), segs(&["a", "b", "c"]));
    let again = model.get_or_create_package(&segs(&["a", "b", "c"]));
    assert_eq!(again, p);
    assert_eq!(model.resolve_package(&segs(&["a", "b"])).map(|q| package_path(&model, q)), Some(segs(&["a", "b"])));
}
