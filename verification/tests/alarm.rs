//! Alarm panels.
use hanui::alarm::{AlarmVM, read_changed_by_attribute, read_code_arm_required_attribute, read_code_format_attribute};
use hanui::entity::{AttrValue, Attributes, Entity, EntityId};
use hanui::number::{Real32, Real64};

fn minimal_entity(id: &str, state: &str) -> Entity {
    Entity {
        id: EntityId::from(id),
        state: state.to_string(),
        state_number: state
            .parse::<f64>()
            .ok()
            .map(|n| Real64 { bits: n.to_bits() }),
        attributes: Attributes::new(),
    }
}

fn attr_value(text: &str) -> AttrValue {
    if let Some(rest) = text.strip_prefix('"') {
        AttrValue::Text(rest.trim_end_matches('"').to_string())
    } else if text == "true" || text == "false" {
        AttrValue::Bool(text == "true")
    } else if let Ok(n) = text.parse::<u64>() {
        AttrValue::Unsigned(n)
    } else if let Ok(n) = text.parse::<i64>() {
        AttrValue::Signed(n)
    } else {
        AttrValue::Float(Real64 {
            bits: text.parse::<f64>().expect("a number").to_bits(),
        })
    }
}

fn entity_with_attrs(state: &str, attrs_json: &str) -> Entity {
    let mut entity = minimal_entity("alarm_control_panel.test", state);
    let inner = attrs_json.trim_start_matches('{').trim_end_matches('}');
    for pair in inner.split(',') {
        let (key, value) = pair.split_once(':').expect("a key and a value");
        entity
            .attributes
            .insert(key.trim_matches('"').to_string(), attr_value(value));
    }
    entity
}

fn value(reading: Option<Real32>) -> Option<f32> {
    reading.map(|r| f32::from_bits(r.bits))
}

#[test]
fn from_entity_disarmed_state() {
    let entity = minimal_entity("alarm_control_panel.home", "disarmed");
    let vm = AlarmVM::from_entity(&entity);
    assert!(!vm.is_armed, "disarmed must produce is_armed=false");
    assert!(!vm.is_triggered, "disarmed must produce is_triggered=false");
    assert!(!vm.is_pending, "disarmed must produce is_pending=false");
    assert_eq!(vm.state, "disarmed");
}

#[test]
fn from_entity_armed_states() {
    for mode in [
        "armed_home",
        "armed_away",
        "armed_night",
        "armed_vacation",
        "armed_custom_bypass",
    ] {
        let entity = minimal_entity("alarm_control_panel.home", mode);
        let vm = AlarmVM::from_entity(&entity);
        assert!(vm.is_armed, "{mode} must produce is_armed=true");
        assert!(!vm.is_triggered, "{mode} must produce is_triggered=false");
        assert!(!vm.is_pending, "{mode} must produce is_pending=false");
        assert_eq!(vm.state, mode);
    }
}

#[test]
fn from_entity_triggered_state() {
    let entity = minimal_entity("alarm_control_panel.home", "triggered");
    let vm = AlarmVM::from_entity(&entity);
    assert!(!vm.is_armed, "triggered must NOT produce is_armed=true");
    assert!(vm.is_triggered, "triggered must produce is_triggered=true");
    assert!(!vm.is_pending);
    assert_eq!(vm.state, "triggered");
}

#[test]
fn from_entity_pending_state() {
    let entity = minimal_entity("alarm_control_panel.home", "pending");
    let vm = AlarmVM::from_entity(&entity);
    assert!(!vm.is_armed);
    assert!(!vm.is_triggered);
    assert!(vm.is_pending, "pending must produce is_pending=true");
    assert_eq!(vm.state, "pending");
}

#[test]
fn alarm_from_entity_unavailable_state() {
    let entity = minimal_entity("alarm_control_panel.home", "unavailable");
    let vm = AlarmVM::from_entity(&entity);
    assert!(!vm.is_armed, "unavailable must fall back to is_armed=false");
    assert!(!vm.is_triggered);
    assert!(!vm.is_pending);
    assert_eq!(vm.state, "unavailable");
}

#[test]
fn alarm_from_entity_unknown_state_falls_back_safely() {
    let entity = minimal_entity("alarm_control_panel.home", "garbage_state_name");
    let vm = AlarmVM::from_entity(&entity);
    assert!(!vm.is_armed);
    assert!(!vm.is_triggered);
    assert!(!vm.is_pending);
    assert_eq!(vm.state, "garbage_state_name");
}

#[test]
fn read_changed_by_attribute_present() {
    let entity = entity_with_attrs("disarmed", r#"{"changed_by":"Master"}"#);
    assert_eq!(
        read_changed_by_attribute(&entity).as_deref(),
        Some("Master")
    );
}

#[test]
fn read_changed_by_attribute_absent() {
    let entity = minimal_entity("alarm_control_panel.home", "disarmed");
    assert_eq!(read_changed_by_attribute(&entity), None);
}

#[test]
fn read_code_format_attribute_present() {
    let entity = entity_with_attrs("disarmed", r#"{"code_format":"number"}"#);
    assert_eq!(
        read_code_format_attribute(&entity).as_deref(),
        Some("number")
    );
}

#[test]
fn read_code_format_attribute_absent() {
    let entity = minimal_entity("alarm_control_panel.home", "disarmed");
    assert_eq!(read_code_format_attribute(&entity), None);
}

#[test]
fn read_code_arm_required_attribute_true() {
    let entity = entity_with_attrs("disarmed", r#"{"code_arm_required":true}"#);
    assert_eq!(read_code_arm_required_attribute(&entity), Some(true));
}

#[test]
fn read_code_arm_required_attribute_false() {
    let entity = entity_with_attrs("disarmed", r#"{"code_arm_required":false}"#);
    assert_eq!(read_code_arm_required_attribute(&entity), Some(false));
}

#[test]
fn read_code_arm_required_attribute_absent() {
    let entity = minimal_entity("alarm_control_panel.home", "disarmed");
    assert_eq!(read_code_arm_required_attribute(&entity), None);
}

#[test]
fn alarm_vm_remains_eq() {
    fn assert_eq_impl<T: Eq>() {}
    assert_eq_impl::<AlarmVM>();
}
