use std::rc::Rc;

use legend_pure::expr::{ExprKind, FunctionCallData, ResolvedType, ValueSpec};
use legend_pure::ids::ElementId;
use legend_pure::model::Element;
use legend_pure::nodes::{Class, Property, StereotypeRef};
use legend_pure::purem::walk::{walk_element_ids, walk_type, walk_value_spec};
use legend_pure::types::{Multiplicity, RelationColumnTypeExpr, SourceInfo, TypeExpr};

fn id(c: u16, l: u32) -> ElementId {
    ElementId { chunk_id: c, local_idx: l }
}

fn named(element: ElementId, args: Vec<TypeExpr>) -> TypeExpr {
    TypeExpr::Named {
        element,
        type_arguments: args,
        multiplicity_arguments: vec![Multiplicity::PureOne],
        value_arguments: vec![],
        source_info: None,
    }
}

fn si() -> SourceInfo {
    SourceInfo { source: "w.pure".to_string(), start_line: 2, start_column: 3, end_line: 2, end_column: 9 }
}

fn shift(e: ElementId) -> ElementId {
    ElementId { chunk_id: e.chunk_id + 10, local_idx: e.local_idx }
}

#[test]
fn walk_type_rewrites_every_reference() {
    let mut t = TypeExpr::FunctionType {
        parameters: vec![(named(id(1, 1), vec![named(id(1, 2), vec![])]), Multiplicity::ZeroOrOne)],
        return_type: Box::new(TypeExpr::AlgebraUnion(
            Box::new(named(id(1, 3), vec![])),
            Box::new(TypeExpr::Generic("T".to_string())),
        )),
        return_multiplicity: Multiplicity::ZeroOrMany,
    };
    walk_type(&mut t, &shift);
    let expected = TypeExpr::FunctionType {
        parameters: vec![(named(id(11, 1), vec![named(id(11, 2), vec![])]), Multiplicity::ZeroOrOne)],
        return_type: Box::new(TypeExpr::AlgebraUnion(
            Box::new(named(id(11, 3), vec![])),
            Box::new(TypeExpr::Generic("T".to_string())),
        )),
        return_multiplicity: Multiplicity::ZeroOrMany,
    };
    assert_eq!(t, expected);
}

#[test]
fn walk_type_reaches_relation_columns() {
    let col = RelationColumnTypeExpr {
        name: "a".to_string(),
        type_expr: named(id(1, 1), vec![]),
        multiplicity: Multiplicity::PureOne,
    };
    let mut t = TypeExpr::Relation(vec![col]);
    walk_type(&mut t, &shift);
    match &t {
        TypeExpr::Relation(cols) => {
            assert_eq!(cols[0].type_expr, named(id(11, 1), vec![]));
            assert_eq!(cols[0].name, "a");
            assert_eq!(cols[0].multiplicity, Multiplicity::PureOne);
        }
        _ => panic!("relation expected"),
    }
}

#[test]
fn identity_walk_changes_nothing() {
    let mut t = named(id(3, 4), vec![named(id(5, 6), vec![])]);
    let before = t.duplicate();
    walk_type(&mut t, &|e: ElementId| e);
    assert_eq!(t, before);
}

#[test]
fn walk_value_spec_reaches_calls_and_types() {
    let arg = ValueSpec {
        kind: Rc::new(ExprKind::PackageableElementRef { element: id(2, 7) }),
        source_info: si(),
        type_info: None,
    };
    let mut call = ValueSpec {
        kind: Rc::new(ExprKind::FunctionCall(FunctionCallData {
            function: Some(id(2, 1)),
            function_name: "f".to_string(),
            arguments: vec![arg],
        })),
        source_info: si(),
        type_info: Some(ResolvedType { type_expr: named(id(2, 2), vec![]), multiplicity: Multiplicity::PureOne }),
    };
    walk_value_spec(&mut call, &shift);
    match call.kind.as_ref() {
        ExprKind::FunctionCall(d) => {
            assert_eq!(d.function, Some(id(12, 1)));
            assert_eq!(d.function_name, "f");
            assert!(matches!(d.arguments[0].kind.as_ref(), ExprKind::PackageableElementRef { element } if *element == id(12, 7)));
        }
        _ => panic!("call expected"),
    }
    assert_eq!(call.type_info.unwrap().type_expr, named(id(12, 2), vec![]));
}

#[test]
fn walk_element_reaches_class_parts() {
    let class = Class {
        type_parameters: vec!["T".to_string()],
        type_parameter_variances: vec![],
        multiplicity_parameters: vec![],
        type_variable_parameters: vec![],
        super_types: vec![named(id(1, 0), vec![])],
        properties: vec![Property {
            name: "p".to_string(),
            source_info: si(),
            type_expr: named(id(1, 5), vec![]),
            multiplicity: Multiplicity::PureOne,
            aggregation: None,
            default_value: None,
            stereotypes: vec![StereotypeRef { profile: id(4, 4), value: "s".to_string(), source_info: None }],
            tagged_values: vec![],
        }],
        qualified_properties: vec![],
        constraints: vec![],
        stereotypes: vec![],
        tagged_values: vec![],
        original_milestoned_properties: vec![],
    };
    let mut e = Element::Class(class);
    walk_element_ids(&mut e, &shift);
    match &e {
        Element::Class(c) => {
            assert_eq!(c.super_types[0], named(id(11, 0), vec![]));
            assert_eq!(c.properties[0].type_expr, named(id(11, 5), vec![]));
            assert_eq!(c.properties[0].stereotypes[0].profile, id(14, 4));
            assert_eq!(c.type_parameters, vec!["T".to_string()]);
        }
        _ => panic!("class expected"),
    }
}
