use std::rc::Rc;

use legend_pure::expr::{ExprKind, Parameter, ValueSpec};
use legend_pure::ids::ElementId;
use legend_pure::model::{Element, ElementNode, ModelChunk, PureModel};
use legend_pure::nodes::{Class, Function, PrimitiveType};
use legend_pure::resolve::narrow::{any_arg_reads_unresolved, narrow_candidates_by_type};
use legend_pure::types::{Multiplicity, SourceInfo, TypeExpr};

fn si() -> SourceInfo {
    SourceInfo { source: "synth.pure".to_string(), start_line: 1, start_column: 1, end_line: 1, end_column: 1 }
}

fn named(element: ElementId) -> TypeExpr {
    TypeExpr::Named {
        element,
        type_arguments: vec![],
        multiplicity_arguments: vec![],
        value_arguments: vec![],
        source_info: None,
    }
}

fn prim(super_type: Option<ElementId>) -> PrimitiveType {
    PrimitiveType { super_type, super_type_value_arguments: vec![], type_variable_parameters: vec![], constraints: vec![] }
}

fn empty_class() -> Class {
    Class {
        type_parameters: vec![],
        type_parameter_variances: vec![],
        multiplicity_parameters: vec![],
        type_variable_parameters: vec![],
        super_types: vec![],
        properties: vec![],
        qualified_properties: vec![],
        constraints: vec![],
        stereotypes: vec![],
        tagged_values: vec![],
        original_milestoned_properties: vec![],
    }
}

fn function(params: Vec<TypeExpr>) -> Function {
    Function {
        function_name: "myFn".to_string(),
        is_native: true,
        parameters: params
            .into_iter()
            .map(|t| Parameter { name: "value".to_string(), type_expr: t, multiplicity: Multiplicity::PureOne, source_info: Some(si()) })
            .collect(),
        return_type: TypeExpr::Generic("T".to_string()),
        return_multiplicity: Multiplicity::PureOne,
        body: vec![],
        stereotypes: vec![],
        tagged_values: vec![],
    }
}

const INTEGER: ElementId = ElementId { chunk_id: 0, local_idx: 5 };
const NUMBER: ElementId = ElementId { chunk_id: 0, local_idx: 6 };
const SCALAR: ElementId = ElementId { chunk_id: 0, local_idx: 7 };
const STRING: ElementId = ElementId { chunk_id: 0, local_idx: 3 };

/// Bootstrap chunk with `Integer <: Number <: Scalar`, and the given
/// functions in chunk 1 (ids `(1, 0)`, `(1, 1)`, ...).
fn model_with(functions: Vec<Function>) -> (PureModel, Vec<ElementId>) {
    let mut model = PureModel::new();
    let root = model.root_package;
    let node = |name: &str| ElementNode { name: name.to_string(), source_info: si(), parent_package: root };
    let mut c0 = ModelChunk::new(0);
    c0.alloc_element(node("Any"), Element::Class(empty_class()));
    c0.alloc_element(node("Nil"), Element::Class(empty_class()));
    c0.alloc_element(node("Boolean"), Element::PrimitiveType(prim(None)));
    c0.alloc_element(node("String"), Element::PrimitiveType(prim(None)));
    c0.alloc_element(node("Date"), Element::PrimitiveType(prim(None)));
    c0.alloc_element(node("Integer"), Element::PrimitiveType(prim(Some(NUMBER))));
    c0.alloc_element(node("Number"), Element::PrimitiveType(prim(Some(SCALAR))));
    c0.alloc_element(node("Scalar"), Element::PrimitiveType(prim(None)));
    let mut c1 = ModelChunk::new(1);
    let mut ids = Vec::new();
    for (i, f) in functions.into_iter().enumerate() {
        let idx = c1.alloc_element(node(&format!("myFn_{i}")), Element::Function(f));
        ids.push(ElementId { chunk_id: 1, local_idx: idx });
    }
    model.chunks.push(c0);
    model.chunks.push(c1);
    (model, ids)
}

fn var(name: &str) -> ValueSpec {
    ValueSpec { kind: Rc::new(ExprKind::Variable { name: name.to_string() }), source_info: si(), type_info: None }
}

#[test]
fn phase3_named_param_dominates_generic_param() {
    let (model, ids) = model_with(vec![function(vec![TypeExpr::Generic("T".to_string())]), function(vec![named(INTEGER)])]);
    let args = vec![var("x")];
    let narrowed = narrow_candidates_by_type(&ids, &args, &[None], &[None], &[None], &model, &Vec::new());
    assert_eq!(narrowed, vec![ids[1]]);
}

#[test]
fn incompatible_overloads_are_dropped() {
    let (model, ids) = model_with(vec![function(vec![named(STRING)]), function(vec![named(INTEGER)])]);
    let args = vec![var("x")];
    let narrowed =
        narrow_candidates_by_type(&ids, &args, &[Some(INTEGER)], &[Some(Multiplicity::PureOne)], &[None], &model, &Vec::new());
    assert_eq!(narrowed, vec![ids[1]]);
    // nothing fits: every candidate is kept so the ambiguity can be reported
    let narrowed =
        narrow_candidates_by_type(&ids, &args, &[Some(SCALAR)], &[Some(Multiplicity::PureOne)], &[None], &model, &Vec::new());
    assert_eq!(narrowed, ids);
    // a many-valued argument does not fit a to-one parameter
    let narrowed =
        narrow_candidates_by_type(&ids, &args, &[Some(INTEGER)], &[Some(Multiplicity::ZeroOrMany)], &[None], &model, &Vec::new());
    assert_eq!(narrowed, ids);
}

#[test]
fn exact_type_beats_supertype() {
    let (model, ids) = model_with(vec![function(vec![named(NUMBER)]), function(vec![named(INTEGER)])]);
    let args = vec![var("x")];
    let narrowed =
        narrow_candidates_by_type(&ids, &args, &[Some(INTEGER)], &[Some(Multiplicity::PureOne)], &[None], &model, &Vec::new());
    assert_eq!(narrowed, vec![ids[1]]);
}

#[test]
fn closest_overload_by_distance() {
    let (model, ids) = model_with(vec![
        function(vec![named(SCALAR), named(INTEGER)]),
        function(vec![named(INTEGER), named(NUMBER)]),
    ]);
    let args = vec![var("x"), var("y")];
    let types = [Some(INTEGER), Some(INTEGER)];
    let mults = [Some(Multiplicity::PureOne), Some(Multiplicity::PureOne)];
    let narrowed = narrow_candidates_by_type(&ids, &args, &types, &mults, &[None, None], &model, &Vec::new());
    assert_eq!(narrowed, vec![ids[1]]);
}

#[test]
fn declaration_order_breaks_a_remaining_tie() {
    let (model, ids) = model_with(vec![
        function(vec![named(NUMBER), named(INTEGER)]),
        function(vec![named(INTEGER), named(NUMBER)]),
    ]);
    let args = vec![var("x"), var("y")];
    let types = [Some(INTEGER), Some(INTEGER)];
    let mults = [Some(Multiplicity::PureOne), Some(Multiplicity::PureOne)];
    let narrowed = narrow_candidates_by_type(&ids, &args, &types, &mults, &[None, None], &model, &Vec::new());
    assert_eq!(narrowed, vec![ids[0]]);
    // unless an argument reads a lambda parameter of uninferred type
    let var_types = vec![("x".to_string(), (TypeExpr::Unresolved, Multiplicity::PureOne))];
    assert!(any_arg_reads_unresolved(&args, &var_types));
    let narrowed = narrow_candidates_by_type(&ids, &args, &types, &mults, &[None, None], &model, &var_types);
    assert_eq!(narrowed, ids);
}

#[test]
fn lambda_needs_a_function_typed_parameter() {
    let (model, ids) = model_with(vec![function(vec![named(STRING)]), function(vec![named(ElementId { chunk_id: 0, local_idx: 0 })])]);
    let lambda = ValueSpec {
        kind: Rc::new(ExprKind::Lambda { parameters: vec![], body: vec![var("z")] }),
        source_info: si(),
        type_info: None,
    };
    let narrowed = narrow_candidates_by_type(&ids, &[lambda], &[None], &[None], &[None], &model, &Vec::new());
    assert_eq!(narrowed, vec![ids[1]]);
}

#[test]
fn single_candidate_is_kept() {
    let (model, ids) = model_with(vec![function(vec![named(STRING)])]);
    let narrowed = narrow_candidates_by_type(&ids, &[var("x")], &[Some(INTEGER)], &[None], &[None], &model, &Vec::new());
    assert_eq!(narrowed, ids);
}

#[test]
fn narrowing_ignores_unreachable_broken_hierarchy() {
    let (mut model, ids) = model_with(vec![function(vec![named(NUMBER)]), function(vec![named(INTEGER)])]);
    // Two primitives that extend each other, unreachable from the candidates.
    let loop_a = ElementId { chunk_id: 2, local_idx: 0 };
    let loop_b = ElementId { chunk_id: 2, local_idx: 1 };
    let mut c2 = ModelChunk::new(2);
    let node = |name: &str| ElementNode { name: name.to_string(), source_info: si(), parent_package: model.root_package };
    c2.alloc_element(node("LoopA"), Element::PrimitiveType(prim(Some(loop_b))));
    c2.alloc_element(node("LoopB"), Element::PrimitiveType(prim(Some(loop_a))));
    model.chunks.push(c2);
    let args = vec![var("x")];
    let narrowed =
        narrow_candidates_by_type(&ids, &args, &[Some(INTEGER)], &[Some(Multiplicity::PureOne)], &[None], &model, &Vec::new());
    assert_eq!(narrowed, vec![ids[1]]);
}
