use std::rc::Rc;

use legend_pure::expr::{DateValue, ExprKind, ValueSpec};
use legend_pure::ids::ElementId;
use legend_pure::milestoning::dates::MilestoningDates;
use legend_pure::milestoning::{
    direct_temporal_stereotypes, edge_point_property_name, range_property_name,
    reserved_property_names_for, MilestoningStereotype,
};
use legend_pure::nodes::StereotypeRef;
use legend_pure::types::SourceInfo;

#[test]
fn parse_stereotype_value_name() {
    assert_eq!(
        MilestoningStereotype::from_value_name("businesstemporal"),
        Some(MilestoningStereotype::BusinessTemporal)
    );
    assert_eq!(
        MilestoningStereotype::from_value_name("processingtemporal"),
        Some(MilestoningStereotype::ProcessingTemporal)
    );
    assert_eq!(
        MilestoningStereotype::from_value_name("bitemporal"),
        Some(MilestoningStereotype::Bitemporal)
    );
    assert_eq!(MilestoningStereotype::from_value_name("nope"), None);
}

#[test]
fn date_property_names_match_java() {
    assert_eq!(
        MilestoningStereotype::BusinessTemporal.temporal_date_property_names(),
        &["businessDate"]
    );
    assert_eq!(
        MilestoningStereotype::ProcessingTemporal.temporal_date_property_names(),
        &["processingDate"]
    );
    assert_eq!(
        MilestoningStereotype::Bitemporal.temporal_date_property_names(),
        &["processingDate", "businessDate"]
    );
}

#[test]
fn carrier_class_fqns_match_platform() {
    assert_eq!(
        MilestoningStereotype::BusinessTemporal.milestoning_property_class_fqn(),
        "meta::pure::milestoning::BusinessDateMilestoning"
    );
    assert_eq!(
        MilestoningStereotype::ProcessingTemporal.milestoning_property_class_fqn(),
        "meta::pure::milestoning::ProcessingDateMilestoning"
    );
    assert_eq!(
        MilestoningStereotype::Bitemporal.milestoning_property_class_fqn(),
        "meta::pure::milestoning::BiTemporalMilestoning"
    );
}

#[test]
fn edge_point_and_range_names() {
    assert_eq!(edge_point_property_name("address"), "addressAllVersions");
    assert_eq!(range_property_name("address"), "addressAllVersionsInRange");
}

#[test]
fn reserved_names_cover_synthesized_surface() {
    let bt = reserved_property_names_for(MilestoningStereotype::BusinessTemporal);
    assert!(bt.contains(&"businessDate"));
    assert!(bt.contains(&"milestoning"));
    assert!(bt.contains(&"from"));
    assert!(bt.contains(&"thru"));

    let bi = reserved_property_names_for(MilestoningStereotype::Bitemporal);
    assert!(bi.contains(&"businessDate"));
    assert!(bi.contains(&"processingDate"));
    assert!(bi.contains(&"from"));
    assert!(bi.contains(&"thru"));
    assert!(bi.contains(&"in"));
    assert!(bi.contains(&"out"));
}

#[test]
fn value_name_round_trips_through_parse() {
    for s in [
        MilestoningStereotype::BusinessTemporal,
        MilestoningStereotype::ProcessingTemporal,
        MilestoningStereotype::Bitemporal,
    ] {
        assert_eq!(MilestoningStereotype::from_value_name(s.value_name()), Some(s));
    }
}

#[test]
fn milestoning_property_names_in_java_order() {
    assert_eq!(
        MilestoningStereotype::BusinessTemporal.milestoning_property_names(),
        &["from", "thru"]
    );
    assert_eq!(
        MilestoningStereotype::ProcessingTemporal.milestoning_property_names(),
        &["in", "out"]
    );
    assert_eq!(
        MilestoningStereotype::Bitemporal.milestoning_property_names(),
        &["in", "out", "from", "thru"]
    );
}

#[test]
fn reserved_names_exact_order() {
    assert_eq!(
        reserved_property_names_for(MilestoningStereotype::Bitemporal),
        vec!["processingDate", "businessDate", "milestoning", "in", "out", "from", "thru"]
    );
    assert_eq!(
        reserved_property_names_for(MilestoningStereotype::ProcessingTemporal),
        vec!["processingDate", "milestoning", "in", "out"]
    );
}

fn stereo(profile: ElementId, value: &str) -> StereotypeRef {
    StereotypeRef { profile, value: value.to_string(), source_info: None }
}

#[test]
fn direct_stereotypes_dedup_in_first_occurrence_order() {
    let temporal = ElementId { chunk_id: 1, local_idx: 7 };
    let other = ElementId { chunk_id: 1, local_idx: 8 };
    let list = vec![
        stereo(other, "bitemporal"),
        stereo(temporal, "processingtemporal"),
        stereo(temporal, "unknown"),
        stereo(temporal, "businesstemporal"),
        stereo(temporal, "processingtemporal"),
    ];
    assert_eq!(
        direct_temporal_stereotypes(&list, temporal),
        vec![MilestoningStereotype::ProcessingTemporal, MilestoningStereotype::BusinessTemporal]
    );
    assert!(direct_temporal_stereotypes(&list, ElementId { chunk_id: 9, local_idx: 9 }).is_empty());
}

fn si(line: u32) -> SourceInfo {
    SourceInfo {
        source: "dates.pure".to_string(),
        start_line: line,
        start_column: 1,
        end_line: line,
        end_column: 12,
    }
}

fn date_literal(text: &str, line: u32) -> ValueSpec {
    ValueSpec {
        kind: Rc::new(ExprKind::DateLiteral(DateValue::StrictDate(text.to_string()))),
        source_info: si(line),
        type_info: None,
    }
}

#[test]
fn dates_from_source_arity() {
    let d = date_literal("2024-01-31", 1);
    let e = date_literal("2024-02-29", 2);
    assert!(MilestoningDates::from_source(MilestoningStereotype::BusinessTemporal, &[]).is_none());
    assert!(MilestoningDates::from_source(
        MilestoningStereotype::Bitemporal,
        std::slice::from_ref(&d)
    )
    .is_none());
    let one = MilestoningDates::from_source(
        MilestoningStereotype::BusinessTemporal,
        std::slice::from_ref(&d),
    )
    .expect("one date");
    assert_eq!(one.business_date.as_ref(), Some(&d));
    assert!(one.processing_date.is_none());
    let p = MilestoningDates::from_source(
        MilestoningStereotype::ProcessingTemporal,
        std::slice::from_ref(&e),
    )
    .expect("one date");
    assert!(p.business_date.is_none());
    assert_eq!(p.processing_date.as_ref(), Some(&e));
    // bitemporal arguments are [processing, business]
    let bi = MilestoningDates::from_source(MilestoningStereotype::Bitemporal, &[d.duplicate(), e.duplicate()])
        .expect("two dates");
    assert_eq!(bi.processing_date.as_ref(), Some(&d));
    assert_eq!(bi.business_date.as_ref(), Some(&e));
}

#[test]
fn dates_round_trip_for_same_stereotype() {
    let d = date_literal("2024-01-31", 1);
    let e = date_literal("2024-02-29", 2);
    let bi = MilestoningDates::from_source(MilestoningStereotype::Bitemporal, &[d.duplicate(), e.duplicate()])
        .unwrap();
    assert_eq!(bi.for_target_stereotype(MilestoningStereotype::Bitemporal), Some(vec![d.duplicate(), e.duplicate()]));
    let bt = MilestoningDates::from_source(MilestoningStereotype::BusinessTemporal, &[e.duplicate()]).unwrap();
    assert_eq!(bt.for_target_stereotype(MilestoningStereotype::BusinessTemporal), Some(vec![e.duplicate()]));
}

#[test]
fn dates_narrow_and_mismatch() {
    let d = date_literal("2024-01-31", 1);
    let e = date_literal("2024-02-29", 2);
    let bi = MilestoningDates::from_source(MilestoningStereotype::Bitemporal, &[d.duplicate(), e.duplicate()])
        .unwrap();
    assert_eq!(bi.for_target_stereotype(MilestoningStereotype::BusinessTemporal), Some(vec![e.duplicate()]));
    assert_eq!(bi.for_target_stereotype(MilestoningStereotype::ProcessingTemporal), Some(vec![d.duplicate()]));
    let bt = MilestoningDates::from_source(MilestoningStereotype::BusinessTemporal, &[e.duplicate()]).unwrap();
    assert!(bt.for_target_stereotype(MilestoningStereotype::ProcessingTemporal).is_none());
    assert!(bt.for_target_stereotype(MilestoningStereotype::Bitemporal).is_none());
}
