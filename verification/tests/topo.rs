use legend_pure::ids::ElementId;
use legend_pure::model::{Element, ElementNode, ModelChunk, PureModel};
use legend_pure::nodes::PrimitiveType;
use legend_pure::pipeline::topo::{pass_topo_sort, CompileError};
use legend_pure::types::SourceInfo;

fn si(line: u32) -> SourceInfo {
    SourceInfo { source: "t.pure".to_string(), start_line: line, start_column: 1, end_line: line, end_column: 9 }
}

fn id(i: u32) -> ElementId {
    ElementId { chunk_id: 0, local_idx: i }
}

/// Five elements named A..E, at lines 1..5.
fn model() -> PureModel {
    let mut model = PureModel::new();
    let mut c0 = ModelChunk::new(0);
    for (k, name) in ["A", "B", "C", "D", "E"].iter().enumerate() {
        let node = ElementNode { name: name.to_string(), source_info: si(k as u32 + 1), parent_package: model.root_package };
        c0.alloc_element(
            node,
            Element::PrimitiveType(PrimitiveType {
                super_type: None,
                super_type_value_arguments: vec![],
                type_variable_parameters: vec![],
                constraints: vec![],
            }),
        );
    }
    model.chunks.push(c0);
    model
}

fn position(order: &[ElementId], x: ElementId) -> usize {
    order.iter().position(|y| *y == x).unwrap()
}

#[test]
fn supertypes_come_before_subtypes() {
    let m = model();
    // C extends B, B extends A, D extends A and C.
    let decls = vec![(id(2), vec![id(1)]), (id(3), vec![id(0), id(2)]), (id(1), vec![id(0)]), (id(0), vec![])];
    let (order, errors) = pass_topo_sort(&decls, &m);
    assert_eq!(order.len(), 4);
    assert!(errors.is_empty());
    assert!(position(&order, id(0)) < position(&order, id(1)));
    assert!(position(&order, id(1)) < position(&order, id(2)));
    assert!(position(&order, id(2)) < position(&order, id(3)));
    assert_eq!(order, vec![id(0), id(1), id(2), id(3)]);
}

#[test]
fn independent_declarations_keep_their_order() {
    let m = model();
    let decls = vec![(id(4), vec![]), (id(1), vec![]), (id(3), vec![])];
    let (order, errors) = pass_topo_sort(&decls, &m);
    assert_eq!(order, vec![id(4), id(1), id(3)]);
    assert!(errors.is_empty());
}

#[test]
fn cyclic_inheritance_is_reported_for_each_left_out_declaration() {
    let m = model();
    // A <-> B form a cycle; C depends on B; D stands alone.
    let decls = vec![(id(0), vec![id(1)]), (id(1), vec![id(0)]), (id(2), vec![id(1)]), (id(3), vec![])];
    let (order, errors) = pass_topo_sort(&decls, &m);
    assert_eq!(order, vec![id(3)]);
    assert_eq!(errors.len(), 3);
    let names: Vec<String> = errors
        .iter()
        .map(|e| match e {
            CompileError::CyclicInheritance { element_name, .. } => element_name.clone(),
        })
        .collect();
    assert_eq!(names, vec!["A".to_string(), "B".to_string(), "C".to_string()]);
    match &errors[2] {
        CompileError::CyclicInheritance { element, source_info, .. } => {
            assert_eq!(*element, id(2));
            assert_eq!(source_info.start_line, 3);
        }
    }
}

#[test]
fn a_class_extending_itself_is_cyclic() {
    let m = model();
    let decls = vec![(id(4), vec![id(4)])];
    let (order, errors) = pass_topo_sort(&decls, &m);
    assert!(order.is_empty());
    assert_eq!(errors.len(), 1);
}

#[test]
fn no_declarations_no_order() {
    let m = model();
    let (order, errors) = pass_topo_sort(&[], &m);
    assert!(order.is_empty());
    assert!(errors.is_empty());
}
