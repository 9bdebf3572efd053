use legend_pure::ids::ElementId;
use legend_pure::model::{Element, ElementNode, ModelChunk, PureModel};
use legend_pure::nodes::{Class, Profile, SpannedString, StereotypeRef, BOOTSTRAP_SOURCE};
use legend_pure::refs::{
    build_reference_index, walk_element_references, walk_stereotypes, walk_type_expr,
    walk_value_spec_in_scope, RefKind, Reference, ReferenceIndex,
};
use legend_pure::expr::{ExprKind, FunctionCallData, Parameter, ResolvedType, ValueSpec};
use legend_pure::nodes::{Function, Property, TaggedValueRef};
use std::rc::Rc;
use legend_pure::types::{Multiplicity, SourceInfo, TypeExpr};

fn span(file: &str, l1: u32, c1: u32, l2: u32, c2: u32) -> SourceInfo {
    SourceInfo { source: file.to_string(), start_line: l1, start_column: c1, end_line: l2, end_column: c2 }
}

fn class() -> Class {
    Class {
        type_parameters: vec![],
        type_parameter_variances: vec![],
        multiplicity_parameters: vec![],
        type_variable_parameters: vec![],
        super_types: vec![],
        properties: vec![],
        qualified_properties: vec![],
        constraints: vec![],
        stereotypes: vec![],
        tagged_values: vec![],
        original_milestoned_properties: vec![],
    }
}

const PERSON: ElementId = ElementId { chunk_id: 0, local_idx: 0 };
const DOC: ElementId = ElementId { chunk_id: 0, local_idx: 1 };

fn model() -> PureModel {
    let mut model = PureModel::new();
    let root = model.root_package;
    let mut chunk = ModelChunk::new(0);
    chunk.alloc_element(
        ElementNode { name: "Person".to_string(), source_info: span("m.pure", 3, 7, 3, 12), parent_package: root },
        Element::Class(class()),
    );
    chunk.alloc_element(
        ElementNode { name: "doc".to_string(), source_info: span("m.pure", 6, 9, 6, 11), parent_package: root },
        Element::Profile(Profile {
            stereotypes: vec![
                SpannedString { value: "deprecated".to_string(), source_info: span("m.pure", 7, 3, 7, 12) },
                SpannedString { value: "legacy".to_string(), source_info: span(BOOTSTRAP_SOURCE, 0, 0, 0, 0) },
            ],
            tags: vec![],
        }),
    );
    model.chunks.push(chunk);
    model
}

fn reference(file: &str, l1: u32, c1: u32, l2: u32, c2: u32, target: Option<ElementId>) -> Reference {
    Reference {
        range: span(file, l1, c1, l2, c2),
        kind: RefKind::TypeRef,
        target_element: target,
        target: span("m.pure", 3, 7, 3, 12),
    }
}

#[test]
fn find_at_picks_the_narrowest_range() {
    let mut index = ReferenceIndex::new();
    index.push(reference("a.pure", 1, 1, 1, 30, Some(PERSON)));
    index.push(reference("a.pure", 1, 5, 1, 10, None));
    index.push(reference("a.pure", 1, 6, 1, 11, Some(DOC)));
    index.push(reference("b.pure", 1, 1, 1, 3, Some(PERSON)));
    // column 7 lies in all three ranges of a.pure; the two narrow ones tie,
    // the first of them wins
    let hit = index.find_at("a.pure", 1, 7).unwrap();
    assert_eq!(hit.range, span("a.pure", 1, 5, 1, 10));
    // the end column is inclusive
    let hit = index.find_at("a.pure", 1, 11).unwrap();
    assert_eq!(hit.target_element, Some(DOC));
    assert_eq!(index.find_at("a.pure", 1, 31).map(|r| r.range.clone()), None);
    assert!(index.find_at("c.pure", 1, 1).is_none());
    assert_eq!(index.find_at("b.pure", 1, 2).unwrap().range, span("b.pure", 1, 1, 1, 3));
}

#[test]
fn usages_are_listed_per_target() {
    let mut index = ReferenceIndex::new();
    index.push(reference("a.pure", 1, 1, 1, 30, Some(PERSON)));
    index.push(reference("b.pure", 2, 1, 2, 3, Some(PERSON)));
    index.push(reference("a.pure", 4, 1, 4, 3, None));
    let usages = index.usages_of(PERSON).unwrap();
    assert_eq!(usages.len(), 2);
    assert_eq!(usages[0].canonical_path, "a.pure");
    assert_eq!(usages[1].range, span("b.pure", 2, 1, 2, 3));
    assert_eq!(usages[1].kind, RefKind::TypeRef);
    assert!(index.usages_of(DOC).is_none());
}

#[test]
fn type_references_are_walked_in_order() {
    let m = model();
    let inner = TypeExpr::Named {
        element: PERSON,
        type_arguments: vec![],
        multiplicity_arguments: vec![],
        value_arguments: vec![],
        source_info: Some(span("f.pure", 2, 10, 2, 15)),
    };
    let unknown = TypeExpr::Named {
        element: ElementId { chunk_id: 5, local_idx: 0 },
        type_arguments: vec![],
        multiplicity_arguments: vec![],
        value_arguments: vec![],
        source_info: Some(span("f.pure", 2, 17, 2, 18)),
    };
    let outer = TypeExpr::Named {
        element: PERSON,
        type_arguments: vec![inner, unknown],
        multiplicity_arguments: vec![],
        value_arguments: vec![],
        source_info: Some(span("f.pure", 2, 3, 2, 20)),
    };
    let fun = TypeExpr::FunctionType {
        parameters: vec![(outer, Multiplicity::PureOne)],
        return_type: Box::new(TypeExpr::Generic("T".to_string())),
        return_multiplicity: Multiplicity::PureOne,
    };
    let mut out = Vec::new();
    walk_type_expr(&m, &fun, &mut out);
    assert_eq!(out.len(), 2);
    assert_eq!(out[0].range, span("f.pure", 2, 3, 2, 20));
    assert_eq!(out[1].range, span("f.pure", 2, 10, 2, 15));
    assert_eq!(out[1].target, span("m.pure", 3, 7, 3, 12));
    assert_eq!(out[1].kind, RefKind::TypeRef);
}

#[test]
fn stereotypes_lead_to_their_declaration() {
    let m = model();
    let stereos = vec![
        StereotypeRef { profile: DOC, value: "deprecated".to_string(), source_info: Some(span("f.pure", 1, 3, 1, 16)) },
        StereotypeRef { profile: DOC, value: "legacy".to_string(), source_info: Some(span("f.pure", 1, 20, 1, 29)) },
        StereotypeRef { profile: DOC, value: "deprecated".to_string(), source_info: None },
    ];
    let mut out = Vec::new();
    walk_stereotypes(&m, &stereos, &mut out);
    assert_eq!(out.len(), 2);
    assert_eq!(out[0].target, span("m.pure", 7, 3, 7, 12));
    assert_eq!(out[0].kind, RefKind::StereotypeRef);
    // a bootstrap declaration leads to the profile itself
    assert_eq!(out[1].target, span("m.pure", 6, 9, 6, 11));
    assert_eq!(out[1].target_element, Some(DOC));
}

fn value(kind: ExprKind, si: SourceInfo, type_info: Option<ResolvedType>) -> ValueSpec {
    ValueSpec { kind: Rc::new(kind), source_info: si, type_info }
}

fn param(name: &str, line: u32) -> Parameter {
    Parameter {
        name: name.to_string(),
        type_expr: TypeExpr::Generic("T".to_string()),
        multiplicity: Multiplicity::PureOne,
        source_info: Some(span("f.pure", line, 1, line, 3)),
    }
}

fn with_property(mut m: PureModel) -> PureModel {
    let prop = Property {
        name: "name".to_string(),
        source_info: span("m.pure", 4, 3, 4, 6),
        type_expr: TypeExpr::Generic("T".to_string()),
        multiplicity: Multiplicity::PureOne,
        aggregation: None,
        default_value: None,
        stereotypes: vec![],
        tagged_values: vec![],
    };
    if let Element::Class(c) = &mut m.chunks[0].elements.items[0] {
        c.properties.push(prop);
    }
    m
}

#[test]
fn expression_references_in_scope() {
    let m = with_property(model());
    let person_type = ResolvedType {
        type_expr: TypeExpr::Named {
            element: PERSON,
            type_arguments: vec![],
            multiplicity_arguments: vec![],
            value_arguments: vec![],
            source_info: None,
        },
        multiplicity: Multiplicity::PureOne,
    };
    // {p | $p.name}->map(...)-style: a lambda whose body reads $p and $p.name
    let var_p = value(ExprKind::Variable { name: "p".to_string() }, span("f.pure", 5, 10, 5, 11), Some(person_type));
    let access = value(
        ExprKind::PropertyCall(FunctionCallData {
            function: None,
            function_name: "name".to_string(),
            arguments: vec![var_p],
        }),
        span("f.pure", 5, 13, 5, 16),
        None,
    );
    let lambda = value(
        ExprKind::Lambda { parameters: vec![param("p", 5)], body: vec![access] },
        span("f.pure", 5, 1, 5, 20),
        None,
    );
    // a call of Person (as a function) with the lambda as first argument: arrow form
    let call = value(
        ExprKind::FunctionCall(FunctionCallData {
            function: Some(PERSON),
            function_name: "go".to_string(),
            arguments: vec![lambda],
        }),
        span("f.pure", 5, 1, 5, 30),
        None,
    );
    let outer = vec![param("q", 2)];
    let scope: Vec<&Vec<Parameter>> = vec![&outer];
    let mut out = Vec::new();
    walk_value_spec_in_scope(&m, &call, &scope, &mut out);
    assert_eq!(out.len(), 3);
    assert_eq!(out[0].kind, RefKind::FunctionCall);
    // the name follows `lambda->`: columns 22..24
    assert_eq!(out[0].range, span("f.pure", 5, 22, 5, 24));
    assert_eq!(out[0].target, span("m.pure", 3, 7, 3, 12));
    assert_eq!(out[1].kind, RefKind::PropertyCall);
    assert_eq!(out[1].target, span("m.pure", 4, 3, 4, 6));
    assert_eq!(out[2].kind, RefKind::Variable);
    assert_eq!(out[2].target, span("f.pure", 5, 1, 5, 3));

    // an unbound variable yields nothing; an outer parameter is found
    let mut out = Vec::new();
    let unbound = value(ExprKind::Variable { name: "z".to_string() }, span("f.pure", 6, 1, 6, 2), None);
    walk_value_spec_in_scope(&m, &unbound, &scope, &mut out);
    assert!(out.is_empty());
    let bound = value(ExprKind::Variable { name: "q".to_string() }, span("f.pure", 6, 1, 6, 2), None);
    walk_value_spec_in_scope(&m, &bound, &scope, &mut out);
    assert_eq!(out[0].target, span("f.pure", 2, 1, 2, 3));
}

#[test]
fn direct_call_name_span_and_element_refs() {
    let m = model();
    let call = value(
        ExprKind::FunctionCall(FunctionCallData { function: Some(PERSON), function_name: "go".to_string(), arguments: vec![] }),
        span("f.pure", 9, 4, 9, 8),
        None,
    );
    let mut out = Vec::new();
    walk_value_spec_in_scope(&m, &call, &vec![], &mut out);
    assert_eq!(out[0].range, span("f.pure", 9, 4, 9, 6));
    let elref = value(ExprKind::PackageableElementRef { element: DOC }, span("f.pure", 9, 10, 9, 12), None);
    walk_value_spec_in_scope(&m, &elref, &vec![], &mut out);
    assert_eq!(out[1].kind, RefKind::TypeRef);
    assert_eq!(out[1].target_element, Some(DOC));
}

#[test]
fn index_over_a_model() {
    let mut m = model();
    let f = Function {
        function_name: "go".to_string(),
        is_native: false,
        parameters: vec![param("x", 12)],
        return_type: TypeExpr::Named {
            element: PERSON,
            type_arguments: vec![],
            multiplicity_arguments: vec![],
            value_arguments: vec![],
            source_info: Some(span("g.pure", 12, 20, 12, 25)),
        },
        return_multiplicity: Multiplicity::PureOne,
        body: vec![value(ExprKind::Variable { name: "x".to_string() }, span("g.pure", 13, 3, 13, 4), None)],
        stereotypes: vec![StereotypeRef {
            profile: DOC,
            value: "deprecated".to_string(),
            source_info: Some(span("g.pure", 11, 3, 11, 16)),
        }],
        tagged_values: vec![TaggedValueRef {
            profile: DOC,
            tag: "note".to_string(),
            value: "v".to_string(),
            source_info: Some(span("g.pure", 11, 20, 11, 30)),
        }],
    };
    let root = m.root_package;
    m.chunks[0].alloc_element(
        ElementNode { name: "go".to_string(), source_info: span("g.pure", 12, 1, 12, 3), parent_package: root },
        Element::Function(f),
    );
    let mut out = Vec::new();
    walk_element_references(&m, &m.chunks[0].elements.items[2], &mut out);
    assert_eq!(
        out.iter().map(|r| r.kind).collect::<Vec<_>>(),
        vec![RefKind::StereotypeRef, RefKind::TaggedValueRef, RefKind::TypeRef, RefKind::Variable]
    );
    let index = build_reference_index(&m);
    // sorted by start: line 11 col 3, line 11 col 20, line 12, line 13
    let hit = index.find_at("g.pure", 13, 3).unwrap();
    assert_eq!(hit.kind, RefKind::Variable);
    assert_eq!(index.find_at("g.pure", 11, 25).unwrap().kind, RefKind::TaggedValueRef);
    assert_eq!(index.usages_of(DOC).unwrap().len(), 2);
    assert_eq!(index.usages_of(PERSON).unwrap().len(), 1);
}

#[test]
fn finalize_sorts_each_file_stably() {
    let mut index = ReferenceIndex::new();
    index.push(reference("a.pure", 3, 1, 3, 4, None));
    index.push(reference("a.pure", 1, 5, 1, 9, Some(PERSON)));
    index.push(reference("a.pure", 1, 5, 1, 6, None));
    index.push(reference("a.pure", 1, 2, 1, 3, None));
    index.finalize();
    let starts: Vec<(u32, u32, u32)> = index.by_file[0]
        .1
        .iter()
        .map(|r| (r.range.start_line, r.range.start_column, r.range.end_column))
        .collect();
    assert_eq!(starts, vec![(1, 2, 3), (1, 5, 9), (1, 5, 6), (3, 1, 4)]);
}
