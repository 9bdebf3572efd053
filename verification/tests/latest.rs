use std::rc::Rc;

use legend_pure::expr::{DateValue, ExprKind, FunctionCallData, ValueSpec};
use legend_pure::ids::ElementId;
use legend_pure::milestoning::dates::MilestoningDates;
use legend_pure::milestoning::propagation::PropagationScope;
use legend_pure::milestoning::validate::{walk_for_latest_validation, MilestoningIssue};
use legend_pure::types::SourceInfo;

fn si(line: u32) -> SourceInfo {
    SourceInfo { source: "q.pure".to_string(), start_line: line, start_column: 1, end_line: line, end_column: 2 }
}

fn vs(kind: ExprKind, line: u32) -> ValueSpec {
    ValueSpec { kind: Rc::new(kind), source_info: si(line), type_info: None }
}

fn latest(line: u32) -> ValueSpec {
    vs(ExprKind::DateLiteral(DateValue::Latest), line)
}

fn date(line: u32) -> ValueSpec {
    vs(ExprKind::DateLiteral(DateValue::StrictDate("2024-01-31".to_string())), line)
}

fn call(name: &str, arguments: Vec<ValueSpec>, line: u32) -> ValueSpec {
    vs(ExprKind::FunctionCall(FunctionCallData { function: None, function_name: name.to_string(), arguments }), line)
}

fn class_ref() -> ValueSpec {
    vs(ExprKind::PackageableElementRef { element: ElementId { chunk_id: 1, local_idx: 0 } }, 1)
}

#[test]
fn latest_is_accepted_as_a_fetch_date() {
    let mut errors = Vec::new();
    walk_for_latest_validation(&call("getAll", vec![class_ref(), latest(2)], 1), &"f".to_string(), false, &mut errors);
    assert!(errors.is_empty());
}

#[test]
fn latest_outside_a_milestoning_argument() {
    let mut errors = Vec::new();
    let e = call("plus", vec![vs(ExprKind::Collection { elements: vec![latest(3)] }, 2)], 1);
    walk_for_latest_validation(&e, &"myFunction".to_string(), false, &mut errors);
    assert_eq!(errors.len(), 1);
    match &errors[0] {
        MilestoningIssue::LatestOutsideMilestoningContext { context, source_info } => {
            assert_eq!(context, "myFunction");
            assert_eq!(source_info.start_line, 3);
        }
        other => panic!("unexpected {other:?}"),
    }
}

#[test]
fn latest_is_refused_as_a_range_bound() {
    let mut errors = Vec::new();
    let e = call("getAllVersionsInRange", vec![class_ref(), latest(4), date(5)], 1);
    walk_for_latest_validation(&e, &"f".to_string(), false, &mut errors);
    // the bound is reported, and so is `%latest` outside a fetch date
    assert_eq!(errors.len(), 2);
    assert!(matches!(&errors[0], MilestoningIssue::LatestNotAllowedInRange { arg_position: 1, .. }));
    assert!(matches!(&errors[1], MilestoningIssue::LatestOutsideMilestoningContext { .. }));
}

#[test]
fn scope_lookup_finds_the_innermost_binding() {
    let mut scope = PropagationScope::new();
    assert!(scope.lookup("p").is_none());
    scope.bind("p".to_string(), MilestoningDates { business_date: Some(date(1)), processing_date: None });
    scope.push();
    assert!(scope.lookup("p").is_some());
    scope.bind("p".to_string(), MilestoningDates { business_date: None, processing_date: Some(date(7)) });
    let found = scope.lookup("p").unwrap();
    assert!(found.business_date.is_none());
    assert_eq!(found.processing_date.as_ref().unwrap().source_info.start_line, 7);
}
