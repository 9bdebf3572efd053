use legend_pure::ids::ElementId;
use legend_pure::model::{Element, ElementNode, ModelChunk, PureModel};
use legend_pure::nodes::{Class, PrimitiveType};
use legend_pure::resolve::unqualified::{
    resolve_unqualified, resolve_unqualified_cached, CachedResolution, ImportScope, ResolutionError,
};
use legend_pure::types::SourceInfo;

fn si(line: u32) -> SourceInfo {
    SourceInfo { source: "t.pure".to_string(), start_line: line, start_column: 1, end_line: line, end_column: 1 }
}

fn class(type_parameters: &[&str]) -> Class {
    Class {
        type_parameters: type_parameters.iter().map(|s| s.to_string()).collect(),
        type_parameter_variances: vec![],
        multiplicity_parameters: vec![],
        type_variable_parameters: vec![],
        super_types: vec![],
        properties: vec![],
        qualified_properties: vec![],
        constraints: vec![],
        stereotypes: vec![],
        tagged_values: vec![],
        original_milestoned_properties: vec![],
    }
}

fn strings(path: &[&str]) -> Vec<String> {
    path.iter().map(|s| s.to_string()).collect()
}

#[test]
fn import_scope_from_path_str() {
    let scope = ImportScope::from_path_str("meta::pure::profiles");
    assert_eq!(scope.package, strings(&["meta", "pure", "profiles"]));
    assert_eq!(scope.path_string(), "meta::pure::profiles");
    assert_eq!(ImportScope::from_path_str("a").package, strings(&["a"]));
    assert_eq!(ImportScope::from_path_str("a:::b").package, strings(&["a", ":b"]));
}

#[test]
fn unqualified_import_shadows_root_metaclass_alias() {
    let mut model = PureModel::new();
    model.chunks.push(ModelChunk::new(0));
    let chunk_id = 1u16;
    let mut chunk = ModelChunk::new(chunk_id);
    let root_foo_idx = chunk.alloc_element(
        ElementNode { name: "Foo".to_string(), source_info: si(1), parent_package: model.root_package },
        Element::Class(class(&["T"])),
    );
    let pkg_id = model.get_or_create_package(&strings(&["pkg", "sub"]));
    let import_foo_idx = chunk.alloc_element(
        ElementNode { name: "Foo".to_string(), source_info: si(1), parent_package: pkg_id },
        Element::Class(class(&[])),
    );
    model.chunks.push(chunk);
    let root_foo_id = ElementId { chunk_id, local_idx: root_foo_idx };
    let import_foo_id = ElementId { chunk_id, local_idx: import_foo_idx };
    let root = model.root_package;
    model.register_element(root, root_foo_id);
    model.register_element(pkg_id, import_foo_id);

    let scopes = vec![ImportScope::from_path_str("pkg::sub")];
    let mut errors = Vec::new();
    let resolved = resolve_unqualified(&"Foo".to_string(), &si(1), &model, &scopes, None, &mut errors);
    assert_eq!(resolved, Some(import_foo_id));
    assert!(errors.is_empty());

    let no_scopes: Vec<ImportScope> = Vec::new();
    let mut errors2 = Vec::new();
    let resolved2 = resolve_unqualified(&"Foo".to_string(), &si(1), &model, &no_scopes, None, &mut errors2);
    assert_eq!(resolved2, Some(root_foo_id));
    assert!(errors2.is_empty());
}

/// Root `Integer` (a primitive), `a::X`, `b::X`, `c::Y` and `a::Integer`.
fn packages_model() -> (PureModel, Vec<ElementId>) {
    let mut model = PureModel::new();
    let a = model.get_or_create_package(&strings(&["a"]));
    let b = model.get_or_create_package(&strings(&["b"]));
    let c = model.get_or_create_package(&strings(&["c"]));
    let root = model.root_package;
    let mut chunk = ModelChunk::new(0);
    let entries: Vec<(&str, _, Element)> = vec![
        ("Integer", root, Element::PrimitiveType(PrimitiveType { super_type: None, super_type_value_arguments: vec![], type_variable_parameters: vec![], constraints: vec![] })),
        ("X", a, Element::Class(class(&[]))),
        ("X", b, Element::Class(class(&[]))),
        ("Y", c, Element::Class(class(&[]))),
        ("Integer", a, Element::Class(class(&[]))),
    ];
    let mut ids = Vec::new();
    let mut owners = Vec::new();
    for (name, pkg, e) in entries {
        let idx = chunk.alloc_element(ElementNode { name: name.to_string(), source_info: si(1), parent_package: pkg }, e);
        ids.push(ElementId { chunk_id: 0, local_idx: idx });
        owners.push(pkg);
    }
    model.chunks.push(chunk);
    for (id, pkg) in ids.iter().zip(owners) {
        model.register_element(pkg, *id);
    }
    (model, ids)
}

#[test]
fn primitives_shadow_imports() {
    let (model, ids) = packages_model();
    let scopes = vec![ImportScope::from_path_str("a")];
    let mut errors = Vec::new();
    assert_eq!(resolve_unqualified(&"Integer".to_string(), &si(1), &model, &scopes, None, &mut errors), Some(ids[0]));
    assert!(errors.is_empty());
}

#[test]
fn ambiguous_and_unresolved_names() {
    let (model, ids) = packages_model();
    let scopes = vec![ImportScope::from_path_str("a"), ImportScope::from_path_str("b")];
    let mut errors = Vec::new();
    assert_eq!(resolve_unqualified(&"X".to_string(), &si(4), &model, &scopes, None, &mut errors), None);
    match &errors[0] {
        ResolutionError::AmbiguousImport { name, candidates, source_info } => {
            assert_eq!(name, "X");
            assert_eq!(candidates, &strings(&["a::X", "b::X"]));
            assert_eq!(source_info.start_line, 4);
        }
        other => panic!("unexpected {other:?}"),
    }
    // the same package imported twice brings one element
    let twice = vec![ImportScope::from_path_str("a"), ImportScope::from_path_str("a")];
    let mut errors = Vec::new();
    assert_eq!(resolve_unqualified(&"X".to_string(), &si(4), &model, &twice, None, &mut errors), Some(ids[1]));
    assert!(errors.is_empty());
    // the using element's own package, when no import brings the name
    let own = strings(&["c"]);
    assert_eq!(resolve_unqualified(&"Y".to_string(), &si(4), &model, &scopes, Some(&own), &mut errors), Some(ids[3]));
    assert_eq!(resolve_unqualified(&"Z".to_string(), &si(5), &model, &scopes, Some(&own), &mut errors), None);
    assert!(matches!(&errors[0], ResolutionError::UnresolvedElement { path, .. } if path == "Z"));
}

#[test]
fn memo_reports_a_failure_again() {
    let (model, ids) = packages_model();
    let scopes = vec![ImportScope::from_path_str("a"), ImportScope::from_path_str("b")];
    let mut cache: Vec<(String, CachedResolution)> = Vec::new();
    let mut errors = Vec::new();
    assert_eq!(resolve_unqualified_cached(&"X".to_string(), &si(1), &model, &scopes, None, &mut cache, &mut errors), None);
    assert_eq!(resolve_unqualified_cached(&"X".to_string(), &si(2), &model, &scopes, None, &mut cache, &mut errors), None);
    assert_eq!(errors.len(), 2);
    match (&errors[0], &errors[1]) {
        (ResolutionError::AmbiguousImport { source_info: s1, .. }, ResolutionError::AmbiguousImport { source_info: s2, candidates, .. }) => {
            assert_eq!((s1.start_line, s2.start_line), (1, 2));
            assert_eq!(candidates.len(), 2);
        }
        other => panic!("unexpected {other:?}"),
    }
    assert_eq!(resolve_unqualified_cached(&"Y".to_string(), &si(3), &model, &[ImportScope::from_path_str("c")], None, &mut cache, &mut errors), Some(ids[3]));
    assert_eq!(resolve_unqualified_cached(&"Y".to_string(), &si(3), &model, &[], None, &mut cache, &mut errors), Some(ids[3]));
    assert_eq!(cache.len(), 2);
}
