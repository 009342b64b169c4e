//! Tests for the typed slot system: the value store, the requirement
//! schemas, and validation with its three-phase error precedence.

use render_graph::slot::{
    BufferId, Entity, SamplerId, SlotError, SlotRequirementError, SlotRequirements, SlotType,
    SlotValue, SlotValueError, SlotValues, TextureViewId,
};

fn entity(id: u64) -> SlotValue {
    SlotValue::Entity(Entity { id })
}

fn texture(id: u64) -> SlotValue {
    SlotValue::TextureView(TextureViewId { id })
}

#[test]
fn slot_value_round_trip() {
    let values = SlotValues::new().with("x".to_owned(), entity(7));
    assert_eq!(values.get("x"), Ok(entity(7)));
    assert_eq!(values.get_entity("x"), Ok(Entity { id: 7 }));
}

#[test]
fn slot_round_trip_with_other_entries() {
    let values = SlotValues::new()
        .with("a".to_owned(), texture(1))
        .with("x".to_owned(), entity(7))
        .with("b".to_owned(), SlotValue::Buffer(BufferId { id: 3 }));
    assert_eq!(values.get_entity("x"), Ok(Entity { id: 7 }));
    assert_eq!(values.get_texture_view("a"), Ok(TextureViewId { id: 1 }));
    assert_eq!(values.get_buffer("b"), Ok(BufferId { id: 3 }));
}

#[test]
fn slot_overwrite_keeps_last_value() {
    let values = SlotValues::new().with("x".to_owned(), entity(7)).with("x".to_owned(), entity(9));
    assert_eq!(values.get_entity("x"), Ok(Entity { id: 9 }));
}

#[test]
fn slot_read_at_wrong_type_is_mismatch_not_panic() {
    let values = SlotValues::new().with("x".to_owned(), entity(7));
    let read = values.get_texture_view("x");
    assert_eq!(
        read,
        Err(SlotError::SlotTypeError {
            slot_name: "x".to_owned(),
            expected_type: SlotType::TextureView,
            actual_type: SlotType::Entity,
        })
    );
}

#[test]
fn slot_read_of_absent_name_is_name_error() {
    let values = SlotValues::new().with("x".to_owned(), entity(7));
    assert_eq!(values.get("y"), Err(SlotError::SlotNameError("y".to_owned())));
    assert_eq!(values.get_sampler("y"), Err(SlotError::SlotNameError("y".to_owned())));
}

#[test]
fn sampler_round_trip() {
    let values = SlotValues::new().with("s".to_owned(), SlotValue::Sampler(SamplerId { id: 4 }));
    assert_eq!(values.get_sampler("s"), Ok(SamplerId { id: 4 }));
}

#[test]
fn slot_type_tags_and_names() {
    assert_eq!(entity(1).slot_type(), SlotType::Entity);
    assert_eq!(texture(1).slot_type(), SlotType::TextureView);
    assert_eq!(SlotValue::Buffer(BufferId { id: 1 }).slot_type(), SlotType::Buffer);
    assert_eq!(SlotValue::Sampler(SamplerId { id: 1 }).slot_type(), SlotType::Sampler);
    assert_eq!(SlotType::Entity.as_string(), "Entity".to_owned());
    assert_eq!(SlotType::Buffer.as_string(), "Buffer".to_owned());
    assert_eq!(SlotType::Sampler.as_string(), "Sampler".to_owned());
    assert_eq!(SlotType::TextureView.as_string(), "TextureView".to_owned());
}

#[test]
fn validation_accepts_exactly_matching_values() {
    let schema = SlotRequirements::new()
        .with("x".to_owned(), SlotType::Entity)
        .with("t".to_owned(), SlotType::TextureView);
    let values =
        SlotValues::new().with("x".to_owned(), entity(1)).with("t".to_owned(), texture(2));
    assert_eq!(schema.get_slot_value_error(&values), None);
}

#[test]
fn validation_missing_required_name_is_not_provided() {
    // A required, default-less name that is absent surfaces as not
    // provided, no matter how many other valid entries are present.
    let schema = SlotRequirements::new()
        .with("x".to_owned(), SlotType::Entity)
        .with("a".to_owned(), SlotType::TextureView)
        .with("b".to_owned(), SlotType::Buffer)
        .with("c".to_owned(), SlotType::Sampler);
    let values = SlotValues::new()
        .with("a".to_owned(), texture(1))
        .with("b".to_owned(), SlotValue::Buffer(BufferId { id: 2 }))
        .with("c".to_owned(), SlotValue::Sampler(SamplerId { id: 3 }));
    assert_eq!(
        schema.get_slot_value_error(&values),
        Some(SlotValueError::SlotNotProvided { name: "x".to_owned() })
    );
}

#[test]
fn validation_default_allows_omission() {
    let schema = SlotRequirements::new()
        .with("x".to_owned(), SlotType::Entity)
        .with_default("t".to_owned(), texture(5));
    let values = SlotValues::new().with("x".to_owned(), entity(1));
    assert_eq!(schema.get_slot_value_error(&values), None);
}

#[test]
fn validation_unknown_name_is_first_error() {
    // Phase one outranks later phases: an unknown provided name is
    // reported even when a type mismatch and a missing requirement are
    // also present.
    let schema = SlotRequirements::new()
        .with("x".to_owned(), SlotType::Entity)
        .with("t".to_owned(), SlotType::TextureView);
    let values = SlotValues::new()
        .with("unknown".to_owned(), entity(1))
        .with("t".to_owned(), entity(2));
    assert_eq!(
        schema.get_slot_value_error(&values),
        Some(SlotValueError::SlotDoesntExist { name: "unknown".to_owned() })
    );
}

#[test]
fn validation_type_mismatch_names_both_kinds() {
    let schema = SlotRequirements::new().with("y".to_owned(), SlotType::Entity);
    let values = SlotValues::new().with("y".to_owned(), texture(9));
    assert_eq!(
        schema.get_slot_value_error(&values),
        Some(SlotValueError::SlotProvidedTypeError {
            name: "y".to_owned(),
            actual: SlotType::Entity,
            provided: SlotType::TextureView,
        })
    );
}

#[test]
fn validation_mismatch_outranks_missing_requirement() {
    let schema = SlotRequirements::new()
        .with("x".to_owned(), SlotType::Entity)
        .with("t".to_owned(), SlotType::TextureView);
    let values = SlotValues::new().with("t".to_owned(), entity(2));
    assert_eq!(
        schema.get_slot_value_error(&values),
        Some(SlotValueError::SlotProvidedTypeError {
            name: "t".to_owned(),
            actual: SlotType::TextureView,
            provided: SlotType::Entity,
        })
    );
}

#[test]
fn requirement_check_accepts_subset_at_same_kinds() {
    let graph_schema = SlotRequirements::new()
        .with("x".to_owned(), SlotType::Entity)
        .with("t".to_owned(), SlotType::TextureView);
    let node_schema = SlotRequirements::new().with("x".to_owned(), SlotType::Entity);
    assert_eq!(node_schema.get_slot_requirement_error(&graph_schema), None);
}

#[test]
fn requirement_check_rejects_unknown_name() {
    let graph_schema = SlotRequirements::new().with("x".to_owned(), SlotType::Entity);
    let node_schema = SlotRequirements::new().with("y".to_owned(), SlotType::Entity);
    assert_eq!(
        node_schema.get_slot_requirement_error(&graph_schema),
        Some(SlotRequirementError::SlotRequirementDoesntExist { name: "y".to_owned() })
    );
}

#[test]
fn requirement_check_rejects_kind_conflict() {
    let graph_schema = SlotRequirements::new().with("x".to_owned(), SlotType::Entity);
    let node_schema = SlotRequirements::new().with("x".to_owned(), SlotType::Buffer);
    assert_eq!(
        node_schema.get_slot_requirement_error(&graph_schema),
        Some(SlotRequirementError::SlotRequirementTypeError {
            name: "x".to_owned(),
            actual: SlotType::Entity,
            provided: SlotType::Buffer,
        })
    );
}

#[test]
fn requirements_length_and_lookup() {
    let schema = SlotRequirements::new()
        .with("x".to_owned(), SlotType::Entity)
        .with("t".to_owned(), SlotType::TextureView);
    assert_eq!(schema.len(), 2);
    assert!(!schema.is_empty());
    assert_eq!(schema.get_slot_type("x"), Some(SlotType::Entity));
    assert_eq!(schema.get_slot_type("t"), Some(SlotType::TextureView));
    assert_eq!(schema.get_slot_type("nope"), None);
    assert!(SlotRequirements::new().is_empty());
}
