use std::rc::Rc;

use legend_pure::expr::{DateValue, ExprKind, ResolvedType, ValueSpec};
use legend_pure::ids::{any_id, boolean_id, date_id, string_id, ElementId};
use legend_pure::lowering::{patch_property_default_values, patch_qp_bodies, ConstraintSlotName};
use legend_pure::milestoning::propagation::{
    class_id_of_first_arg, is_date_typed_expr, resolved_class_of, target_class_of_property,
};
use legend_pure::nodes::{Property, QualifiedProperty};
use legend_pure::resolve::{
    extract_function_type_return_mult, extract_relation_columns,
};
use legend_pure::types::{Multiplicity, RelationColumnTypeExpr, SourceInfo, TypeExpr};

fn si() -> SourceInfo {
    SourceInfo { source: "r.pure".to_string(), start_line: 1, start_column: 1, end_line: 1, end_column: 2 }
}

fn named(element: ElementId, args: Vec<TypeExpr>) -> TypeExpr {
    TypeExpr::Named {
        element,
        type_arguments: args,
        multiplicity_arguments: vec![],
        value_arguments: vec![],
        source_info: None,
    }
}

fn col(name: &str, t: ElementId) -> RelationColumnTypeExpr {
    RelationColumnTypeExpr { name: name.to_string(), type_expr: named(t, vec![]), multiplicity: Multiplicity::PureOne }
}

fn value(kind: ExprKind, t: Option<TypeExpr>) -> ValueSpec {
    ValueSpec {
        kind: Rc::new(kind),
        source_info: si(),
        type_info: t.map(|type_expr| ResolvedType { type_expr, multiplicity: Multiplicity::PureOne }),
    }
}

#[test]
fn relation_columns_found_through_first_type_argument() {
    let rel = TypeExpr::Relation(vec![col("a", string_id()), col("b", boolean_id())]);
    let wrapped = named(ElementId { chunk_id: 0, local_idx: 40 }, vec![named(ElementId { chunk_id: 0, local_idx: 41 }, vec![rel])]);
    let cols = extract_relation_columns(&wrapped).expect("columns");
    assert_eq!(cols.len(), 2);
    assert_eq!(cols[1].name, "b");
    assert!(extract_relation_columns(&named(string_id(), vec![])).is_none());
    assert!(extract_relation_columns(&TypeExpr::Generic("T".to_string())).is_none());
}

#[test]
fn function_type_return_multiplicity() {
    let ft = TypeExpr::FunctionType {
        parameters: vec![],
        return_type: Box::new(named(string_id(), vec![])),
        return_multiplicity: Multiplicity::ZeroOrOne,
    };
    assert_eq!(extract_function_type_return_mult(&ft), Some(&Multiplicity::ZeroOrOne));
    let wrapped = named(any_id(), vec![named(string_id(), vec![]), ft]);
    assert_eq!(extract_function_type_return_mult(&wrapped), Some(&Multiplicity::ZeroOrOne));
    assert_eq!(extract_function_type_return_mult(&named(any_id(), vec![])), None);
}

#[test]
fn date_typed_expressions() {
    let lit = value(ExprKind::DateLiteral(DateValue::Latest), None);
    assert!(is_date_typed_expr(&lit));
    let typed = value(ExprKind::Variable { name: "d".to_string() }, Some(named(date_id(), vec![])));
    assert!(is_date_typed_expr(&typed));
    let other = value(ExprKind::Variable { name: "s".to_string() }, Some(named(string_id(), vec![])));
    assert!(!is_date_typed_expr(&other));
    assert_eq!(resolved_class_of(&other), Some(string_id()));
    assert_eq!(resolved_class_of(&lit), None);
}

#[test]
fn class_designated_by_first_argument() {
    let cls = ElementId { chunk_id: 3, local_idx: 9 };
    let by_ref = value(ExprKind::PackageableElementRef { element: cls }, None);
    let by_type = value(ExprKind::TypeReference { type_expr: named(cls, vec![]) }, None);
    let other = value(ExprKind::IntegerLiteral(3), None);
    assert_eq!(class_id_of_first_arg(&[by_ref]), Some(cls));
    assert_eq!(class_id_of_first_arg(&[by_type, other]), Some(cls));
    assert_eq!(class_id_of_first_arg(&[]), None);
    let p = Property {
        name: "p".to_string(),
        source_info: si(),
        type_expr: named(cls, vec![]),
        multiplicity: Multiplicity::PureOne,
        aggregation: None,
        default_value: None,
        stereotypes: vec![],
        tagged_values: vec![],
    };
    assert_eq!(target_class_of_property(&p), Some(cls));
}

#[test]
fn constraint_slots() {
    assert_eq!(ConstraintSlotName::Body.label(), "body");
    assert_eq!(ConstraintSlotName::Message.label(), "message");
    assert_eq!(ConstraintSlotName::Body.expected_label(), "Boolean[1]");
    assert_eq!(ConstraintSlotName::Message.expected_label(), "String[1]");
    assert_eq!(ConstraintSlotName::Body.expected_type(), named(boolean_id(), vec![]));
    assert_eq!(ConstraintSlotName::Message.expected_type(), named(string_id(), vec![]));
}

fn qp(name: &str) -> QualifiedProperty {
    QualifiedProperty {
        name: name.to_string(),
        source_info: si(),
        parameters: vec![],
        return_type: named(string_id(), vec![]),
        return_multiplicity: Multiplicity::PureOne,
        body: vec![],
        stereotypes: vec![],
        tagged_values: vec![],
    }
}

#[test]
fn patching_zips_and_drops_extras() {
    let mut qps = vec![qp("a"), qp("b")];
    let body = value(ExprKind::BooleanLiteral(true), None);
    patch_qp_bodies(&mut qps, vec![vec![body.duplicate()], vec![], vec![body.duplicate()]]);
    assert_eq!(qps[0].body.len(), 1);
    assert!(qps[1].body.is_empty());

    let mut props = vec![Property {
        name: "p".to_string(),
        source_info: si(),
        type_expr: named(string_id(), vec![]),
        multiplicity: Multiplicity::PureOne,
        aggregation: None,
        default_value: None,
        stereotypes: vec![],
        tagged_values: vec![],
    }];
    patch_property_default_values(&mut props, vec![]);
    assert!(props[0].default_value.is_none());
    patch_property_default_values(&mut props, vec![Some(body.duplicate()), None]);
    assert_eq!(props[0].default_value, Some(body));
}
