//! Covers.
use hanui::cover::{CoverVM, read_supported_features, read_tilt_attribute};
use hanui::entity::{AttrValue, Attributes, Entity, EntityId};
use hanui::number::Real64;

fn minimal_entity(id: &str, state: &str) -> Entity {
    Entity {
        id: EntityId::from(id),
        state: state.to_string(),
        state_number: state
            .parse::<f64>()
            .ok()
            .map(|n| Real64 { bits: n.to_bits() }),
        attributes: Attributes::new(),
    }
}

fn attr_value(text: &str) -> AttrValue {
    if let Some(rest) = text.strip_prefix('"') {
        AttrValue::Text(rest.trim_end_matches('"').to_string())
    } else if text == "true" || text == "false" {
        AttrValue::Bool(text == "true")
    } else if let Ok(n) = text.parse::<u64>() {
        AttrValue::Unsigned(n)
    } else if let Ok(n) = text.parse::<i64>() {
        AttrValue::Signed(n)
    } else {
        AttrValue::Float(Real64 {
            bits: text.parse::<f64>().expect("a number").to_bits(),
        })
    }
}

fn entity_with_attr(state: &str, key: &str, value_str: &str) -> Entity {
    let mut entity = minimal_entity("cover.test", state);
    entity
        .attributes
        .insert(key.to_string(), attr_value(value_str));
    entity
}

#[test]
fn from_entity_open_state() {
    let entity = minimal_entity("cover.garage", "open");
    let vm = CoverVM::from_entity(&entity);
    assert!(vm.is_open, "open state must produce is_open=true");
    assert!(!vm.is_moving, "open state must produce is_moving=false");
    assert_eq!(vm.position, 100, "open state defaults to position 100");
}

#[test]
fn from_entity_closed_state() {
    let entity = minimal_entity("cover.garage", "closed");
    let vm = CoverVM::from_entity(&entity);
    assert!(!vm.is_open, "closed state must produce is_open=false");
    assert!(!vm.is_moving, "closed state must produce is_moving=false");
    assert_eq!(vm.position, 0, "closed state defaults to position 0");
}

#[test]
fn from_entity_opening_state() {
    let entity = minimal_entity("cover.garage", "opening");
    let vm = CoverVM::from_entity(&entity);
    assert!(
        vm.is_open,
        "opening state colors with destination (is_open=true)"
    );
    assert!(vm.is_moving, "opening state must produce is_moving=true");
}

#[test]
fn from_entity_closing_state() {
    let entity = minimal_entity("cover.garage", "closing");
    let vm = CoverVM::from_entity(&entity);
    assert!(
        !vm.is_open,
        "closing state colors with destination (is_open=false)"
    );
    assert!(vm.is_moving, "closing state must produce is_moving=true");
}

#[test]
fn from_entity_stopped_state() {
    let entity = minimal_entity("cover.garage", "stopped");
    let vm = CoverVM::from_entity(&entity);
    assert!(!vm.is_open, "stopped state must not be 'open'");
    assert!(!vm.is_moving, "stopped state must not be 'moving'");
}

#[test]
fn cover_from_entity_unavailable_state() {
    let entity = minimal_entity("cover.garage", "unavailable");
    let vm = CoverVM::from_entity(&entity);
    assert!(!vm.is_open, "unavailable falls back to is_open=false");
    assert!(!vm.is_moving, "unavailable falls back to is_moving=false");
    assert_eq!(vm.position, 0, "unavailable defaults to position 0");
}

#[test]
fn cover_from_entity_unknown_state_falls_back_safely() {
    let entity = minimal_entity("cover.garage", "garbage_state_name");
    let vm = CoverVM::from_entity(&entity);
    assert!(!vm.is_open);
    assert!(!vm.is_moving);
}

#[test]
fn from_entity_reads_current_position_u64() {
    let entity = entity_with_attr("open", "current_position", "42");
    let vm = CoverVM::from_entity(&entity);
    assert_eq!(vm.position, 42);
}

#[test]
fn from_entity_reads_current_position_zero() {
    let entity = entity_with_attr("closed", "current_position", "0");
    let vm = CoverVM::from_entity(&entity);
    assert_eq!(vm.position, 0);
}

#[test]
fn from_entity_reads_current_position_hundred() {
    let entity = entity_with_attr("open", "current_position", "100");
    let vm = CoverVM::from_entity(&entity);
    assert_eq!(vm.position, 100);
}

#[test]
fn from_entity_position_out_of_range_falls_back() {
    let entity = entity_with_attr("open", "current_position", "150");
    let vm = CoverVM::from_entity(&entity);
    assert_eq!(vm.position, 100);
}

#[test]
fn from_entity_position_negative_falls_back() {
    let entity = entity_with_attr("closed", "current_position", "-5");
    let vm = CoverVM::from_entity(&entity);
    assert_eq!(vm.position, 0);
}

#[test]
fn from_entity_position_float_rounds_to_nearest() {
    let entity = entity_with_attr("open", "current_position", "33.7");
    let vm = CoverVM::from_entity(&entity);
    assert_eq!(vm.position, 34);
}

#[test]
fn read_tilt_attribute_present() {
    let entity = entity_with_attr("open", "current_tilt_position", "75");
    assert_eq!(read_tilt_attribute(&entity), Some(75));
}

#[test]
fn read_tilt_attribute_absent() {
    let entity = minimal_entity("cover.garage", "open");
    assert_eq!(read_tilt_attribute(&entity), None);
}

#[test]
fn read_supported_features_present() {
    let entity = entity_with_attr("open", "supported_features", "11");
    assert_eq!(read_supported_features(&entity), Some(11));
}

#[test]
fn read_supported_features_absent() {
    let entity = minimal_entity("cover.garage", "open");
    assert_eq!(read_supported_features(&entity), None);
}

/// Of a cover on its way no position is implied; only an open one counts as fully
/// open.
#[test]
fn cover_without_a_position() {
    let shown = |state: &str| {
        let vm = CoverVM::from_entity(&minimal_entity("cover.garage", state));
        (vm.position, vm.is_open, vm.is_moving)
    };
    assert_eq!(shown("open"), (100, true, false));
    assert_eq!(shown("opening"), (0, true, true));
    assert_eq!(shown("closing"), (0, false, true));
    assert_eq!(shown("closed"), (0, false, false));
    let vm = CoverVM::from_entity(&entity_with_attr("opening", "current_position", "150"));
    assert_eq!(vm.position, 0);
}
