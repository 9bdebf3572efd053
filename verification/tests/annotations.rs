use legend_pure::ids::ElementId;
use legend_pure::model::{Element, ElementNode, ModelChunk, PureModel};
use legend_pure::nodes::{Class, Profile, SpannedString};
use legend_pure::resolve::annotations::{
    resolve_element_ptr, resolve_stereotypes, resolve_tagged_values, ResolvedRef, StereotypePtr, TaggedValuePtr,
};
use legend_pure::resolve::type_ref::{QualifiedName, ResolutionContext};
use legend_pure::resolve::unqualified::{CachedResolution, ResolutionError};
use legend_pure::types::SourceInfo;

fn si(line: u32) -> SourceInfo {
    SourceInfo { source: "a.pure".to_string(), start_line: line, start_column: 1, end_line: line, end_column: 9 }
}

fn class() -> Class {
    Class {
        type_parameters: vec![],
        type_parameter_variances: vec![],
        multiplicity_parameters: vec![],
        type_variable_parameters: vec![],
        super_types: vec![],
        properties: vec![],
        qualified_properties: vec![],
        constraints: vec![],
        stereotypes: vec![],
        tagged_values: vec![],
        original_milestoned_properties: vec![],
    }
}

const PERSON: ElementId = ElementId { chunk_id: 0, local_idx: 0 };
const DOC: ElementId = ElementId { chunk_id: 0, local_idx: 1 };

/// Root class `Person`, root profile `doc` (stereotype `deprecated`, tag
/// `note`) and a package `meta` holding nothing.
fn model() -> PureModel {
    let mut model = PureModel::new();
    model.get_or_create_package(&vec!["meta".to_string()]);
    let root = model.root_package;
    let mut chunk = ModelChunk::new(0);
    chunk.alloc_element(
        ElementNode { name: "Person".to_string(), source_info: si(1), parent_package: root },
        Element::Class(class()),
    );
    chunk.alloc_element(
        ElementNode { name: "doc".to_string(), source_info: si(2), parent_package: root },
        Element::Profile(Profile {
            stereotypes: vec![SpannedString { value: "deprecated".to_string(), source_info: si(3) }],
            tags: vec![SpannedString { value: "note".to_string(), source_info: si(4) }],
        }),
    );
    model.chunks.push(chunk);
    model.register_element(root, PERSON);
    model.register_element(root, DOC);
    model
}

fn name(n: &str) -> QualifiedName {
    QualifiedName { package: None, name: n.to_string() }
}

fn stereo(profile: &str, value: &str, line: u32) -> StereotypePtr {
    StereotypePtr { profile: name(profile), value: value.to_string(), source_info: si(line) }
}

#[test]
fn element_pointers() {
    let m = model();
    let ctx = ResolutionContext {
        model: &m,
        import_scopes: &[],
        self_package: None,
        type_parameters: &[],
        multiplicity_parameters: &[],
    };
    let mut cache: Vec<(String, CachedResolution)> = Vec::new();
    let mut errors = Vec::new();
    assert_eq!(resolve_element_ptr(&name(""), &si(1), &ctx, &mut cache, &mut errors), Some(ResolvedRef::Package(m.root_package)));
    assert_eq!(resolve_element_ptr(&name("Root"), &si(1), &ctx, &mut cache, &mut errors), Some(ResolvedRef::Package(m.root_package)));
    assert_eq!(resolve_element_ptr(&name("Person"), &si(1), &ctx, &mut cache, &mut errors), Some(ResolvedRef::Element(PERSON)));
    assert!(errors.is_empty());
    // a root child package, with the element failure withdrawn
    assert!(matches!(resolve_element_ptr(&name("meta"), &si(1), &ctx, &mut cache, &mut errors), Some(ResolvedRef::Package(_))));
    assert!(errors.is_empty());
    // a qualified pointer that does not resolve
    let q = QualifiedName { package: Some(vec!["meta".to_string()]), name: "X".to_string() };
    assert_eq!(resolve_element_ptr(&q, &si(5), &ctx, &mut cache, &mut errors), None);
    assert!(matches!(&errors[0], ResolutionError::UnresolvedElement { path, .. } if path == "meta::X"));
}

#[test]
fn stereotypes_are_checked_against_their_profile() {
    let m = model();
    let ctx = ResolutionContext {
        model: &m,
        import_scopes: &[],
        self_package: None,
        type_parameters: &[],
        multiplicity_parameters: &[],
    };
    let mut cache = Vec::new();
    let mut errors = Vec::new();
    let r = resolve_stereotypes(
        &[
            stereo("doc", "deprecated", 10),
            stereo("doc", "missing", 11),
            stereo("Person", "x", 12),
            stereo("meta", "x", 13),
            stereo("nothing", "x", 14),
        ],
        &ctx,
        &mut cache,
        &mut errors,
    );
    assert_eq!(r.len(), 3);
    assert_eq!(r[0].profile, DOC);
    assert_eq!(r[0].value, "deprecated");
    assert_eq!(r[0].source_info, Some(si(10)));
    assert_eq!(r[2].profile, PERSON);
    assert_eq!(errors.len(), 4);
    match &errors[0] {
        ResolutionError::UnknownAnnotation { profile, name, available, for_tag, .. } => {
            assert_eq!(profile, "doc");
            assert_eq!(name, "missing");
            assert_eq!(available, &vec!["deprecated".to_string()]);
            assert!(!for_tag);
        }
        other => panic!("unexpected {other:?}"),
    }
    assert!(matches!(&errors[1], ResolutionError::NotAProfile { target, .. } if target == "Person"));
    assert!(matches!(&errors[2], ResolutionError::UnresolvedProfile { path, for_tag: false, .. } if path == "meta"));
    assert!(matches!(&errors[3], ResolutionError::UnresolvedElement { path, .. } if path == "nothing"));
}

#[test]
fn tagged_values_are_checked_against_their_profile() {
    let m = model();
    let ctx = ResolutionContext {
        model: &m,
        import_scopes: &[],
        self_package: None,
        type_parameters: &[],
        multiplicity_parameters: &[],
    };
    let mut cache = Vec::new();
    let mut errors = Vec::new();
    let tv = |tag: &str, line: u32| TaggedValuePtr {
        profile: name("doc"),
        tag: tag.to_string(),
        value: "v".to_string(),
        source_info: si(line),
    };
    let r = resolve_tagged_values(&[tv("note", 20), tv("other", 21)], &ctx, &mut cache, &mut errors);
    assert_eq!(r.len(), 2);
    assert_eq!(r[0].tag, "note");
    assert_eq!(r[0].value, "v");
    assert_eq!(r[1].source_info, Some(si(21)));
    assert_eq!(errors.len(), 1);
    assert!(matches!(&errors[0], ResolutionError::UnknownAnnotation { for_tag: true, available, .. } if available == &vec!["note".to_string()]));
}
