//! Climate devices.
use hanui::climate::{ClimateVM, read_fan_mode_attribute, read_humidity_attribute, read_swing_mode_attribute};
use hanui::entity::{AttrValue, Attributes, Entity, EntityId};
use hanui::number::{Real32, Real64};

fn minimal_entity(id: &str, state: &str) -> Entity {
    Entity {
        id: EntityId::from(id),
        state: state.to_string(),
        state_number: state
            .parse::<f64>()
            .ok()
            .map(|n| Real64 { bits: n.to_bits() }),
        attributes: Attributes::new(),
    }
}

fn attr_value(text: &str) -> AttrValue {
    if let Some(rest) = text.strip_prefix('"') {
        AttrValue::Text(rest.trim_end_matches('"').to_string())
    } else if text == "true" || text == "false" {
        AttrValue::Bool(text == "true")
    } else if let Ok(n) = text.parse::<u64>() {
        AttrValue::Unsigned(n)
    } else if let Ok(n) = text.parse::<i64>() {
        AttrValue::Signed(n)
    } else {
        AttrValue::Float(Real64 {
            bits: text.parse::<f64>().expect("a number").to_bits(),
        })
    }
}

fn entity_with_attrs(state: &str, attrs_json: &str) -> Entity {
    let mut entity = minimal_entity("climate.test", state);
    let inner = attrs_json.trim_start_matches('{').trim_end_matches('}');
    for pair in inner.split(',') {
        let (key, value) = pair.split_once(':').expect("a key and a value");
        entity
            .attributes
            .insert(key.trim_matches('"').to_string(), attr_value(value));
    }
    entity
}

fn value(reading: Option<Real32>) -> Option<f32> {
    reading.map(|r| f32::from_bits(r.bits))
}

#[test]
fn from_entity_heat_mode() {
    let entity = minimal_entity("climate.living_room", "heat");
    let vm = ClimateVM::from_entity(&entity);
    assert_eq!(vm.state, "heat");
    assert!(vm.is_active, "heat mode must produce is_active=true");
}

#[test]
fn from_entity_cool_mode() {
    let entity = minimal_entity("climate.living_room", "cool");
    let vm = ClimateVM::from_entity(&entity);
    assert_eq!(vm.state, "cool");
    assert!(vm.is_active, "cool mode must produce is_active=true");
}

#[test]
fn from_entity_auto_mode() {
    let entity = minimal_entity("climate.living_room", "auto");
    let vm = ClimateVM::from_entity(&entity);
    assert_eq!(vm.state, "auto");
    assert!(vm.is_active, "auto mode must produce is_active=true");
}

#[test]
fn from_entity_heat_cool_mode() {
    let entity = minimal_entity("climate.living_room", "heat_cool");
    let vm = ClimateVM::from_entity(&entity);
    assert_eq!(vm.state, "heat_cool");
    assert!(vm.is_active, "heat_cool mode must produce is_active=true");
}

#[test]
fn from_entity_dry_mode() {
    let entity = minimal_entity("climate.living_room", "dry");
    let vm = ClimateVM::from_entity(&entity);
    assert_eq!(vm.state, "dry");
    assert!(vm.is_active, "dry mode must produce is_active=true");
}

#[test]
fn from_entity_fan_only_mode() {
    let entity = minimal_entity("climate.living_room", "fan_only");
    let vm = ClimateVM::from_entity(&entity);
    assert_eq!(vm.state, "fan_only");
    assert!(vm.is_active, "fan_only mode must produce is_active=true");
}

#[test]
fn from_entity_off_state_is_idle() {
    let entity = minimal_entity("climate.living_room", "off");
    let vm = ClimateVM::from_entity(&entity);
    assert_eq!(vm.state, "off");
    assert!(!vm.is_active, "off must produce is_active=false");
}

#[test]
fn climate_from_entity_unavailable_state() {
    let entity = minimal_entity("climate.living_room", "unavailable");
    let vm = ClimateVM::from_entity(&entity);
    assert_eq!(vm.state, "unavailable");
    assert!(
        !vm.is_active,
        "unavailable must produce is_active=false (not running)"
    );
}

#[test]
fn climate_from_entity_unknown_state() {
    let entity = minimal_entity("climate.living_room", "unknown");
    let vm = ClimateVM::from_entity(&entity);
    assert_eq!(vm.state, "unknown");
    assert!(!vm.is_active, "unknown must produce is_active=false");
}

#[test]
fn from_entity_vendor_specific_state_is_active() {
    let entity = minimal_entity("climate.living_room", "boost");
    let vm = ClimateVM::from_entity(&entity);
    assert_eq!(vm.state, "boost");
    assert!(vm.is_active, "vendor mode must produce is_active=true");
}

#[test]
fn target_and_current_temperature_attributes() {
    let entity =
        entity_with_attrs("heat", r#"{"current_temperature":21.5,"temperature":23.0}"#);
    let vm = ClimateVM::from_entity(&entity);
    assert_eq!(
        value(vm.current_temperature),
        Some(21.5),
        "current_temperature must read HA's current_temperature attribute"
    );
    assert_eq!(
        value(vm.target_temperature),
        Some(23.0),
        "target_temperature must read HA's `temperature` attribute (not `target_temperature`)"
    );
}

#[test]
fn current_temperature_absent_when_attribute_missing() {
    let entity = minimal_entity("climate.living_room", "heat");
    let vm = ClimateVM::from_entity(&entity);
    assert_eq!(value(vm.current_temperature), None);
    assert_eq!(value(vm.target_temperature), None);
}

#[test]
fn temperature_attributes_accept_integer_values() {
    let entity = entity_with_attrs("heat", r#"{"current_temperature":22,"temperature":24}"#);
    let vm = ClimateVM::from_entity(&entity);
    assert_eq!(value(vm.current_temperature), Some(22.0));
    assert_eq!(value(vm.target_temperature), Some(24.0));
}

#[test]
fn temperature_attribute_string_value_is_none() {
    let entity = entity_with_attrs("heat", r#"{"temperature":"hot"}"#);
    let vm = ClimateVM::from_entity(&entity);
    assert_eq!(value(vm.target_temperature), None);
}

#[test]
fn temperature_attribute_bool_value_is_none() {
    let entity = entity_with_attrs("heat", r#"{"temperature":true}"#);
    let vm = ClimateVM::from_entity(&entity);
    assert_eq!(value(vm.target_temperature), None);
}

#[test]
fn read_humidity_attribute_present() {
    let entity = entity_with_attrs("cool", r#"{"humidity":42.5}"#);
    assert_eq!(value(read_humidity_attribute(&entity)), Some(42.5));
}

#[test]
fn read_humidity_attribute_absent() {
    let entity = minimal_entity("climate.living_room", "heat");
    assert_eq!(value(read_humidity_attribute(&entity)), None);
}

#[test]
fn read_fan_mode_attribute_present() {
    let entity = entity_with_attrs("heat", r#"{"fan_mode":"auto"}"#);
    assert_eq!(read_fan_mode_attribute(&entity).as_deref(), Some("auto"));
}

#[test]
fn read_fan_mode_attribute_absent() {
    let entity = minimal_entity("climate.living_room", "heat");
    assert_eq!(read_fan_mode_attribute(&entity), None);
}

#[test]
fn read_swing_mode_attribute_present() {
    let entity = entity_with_attrs("heat", r#"{"swing_mode":"vertical"}"#);
    assert_eq!(
        read_swing_mode_attribute(&entity).as_deref(),
        Some("vertical")
    );
}

#[test]
fn read_swing_mode_attribute_absent() {
    let entity = minimal_entity("climate.living_room", "heat");
    assert_eq!(read_swing_mode_attribute(&entity), None);
}

#[test]
fn read_fan_mode_attribute_non_string_is_none() {
    let entity = entity_with_attrs("heat", r#"{"fan_mode":42}"#);
    assert_eq!(read_fan_mode_attribute(&entity), None);
}

#[test]
fn climate_vm_remains_lean() {
    assert!(
        std::mem::size_of::<ClimateVM>() <= 56,
        "ClimateVM has grown past the lean-shape budget; \
         did someone add a Vec field?"
    );
}

/// A temperature beyond single precision counts as absent.
#[test]
fn temperature_beyond_single_precision_is_none() {
    let entity = entity_with_attrs("heat", r#"{"current_temperature":1e300,"temperature":-1e39}"#);
    let vm = ClimateVM::from_entity(&entity);
    assert_eq!(vm.current_temperature, None);
    assert_eq!(vm.target_temperature, None);
    let entity = entity_with_attrs("heat", r#"{"humidity":1e300}"#);
    assert_eq!(value(read_humidity_attribute(&entity)), None);
}
