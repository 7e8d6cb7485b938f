//! Climate devices.
use crate::entity::{Entity, EntityModel};
use crate::number::Real32;
use crate::text::{opt_text, reads};
use vstd::prelude::*;

verus! {

/// What a climate device's tile shows.
#[derive(Debug, PartialEq)]
pub struct ClimateVM {
    pub state: String,
    pub current_temperature: Option<Real32>,
    pub target_temperature: Option<Real32>,
    pub is_active: bool,
}

/// Any mode but `off` counts as active.
pub open spec fn active(e: EntityModel) -> bool {
    e.state != "off"@ && !e.out_of_reach()
}

impl Clone for ClimateVM {
    fn clone(&self) -> (r: ClimateVM)
        ensures
            r == *self,
    {
        ClimateVM {
            state: self.state.clone(),
            current_temperature: self.current_temperature,
            target_temperature: self.target_temperature,
            is_active: self.is_active,
        }
    }
}

impl ClimateVM {
    /// Reads the device's mode and temperatures.
    pub fn from_entity(entity: &Entity) -> (r: ClimateVM)
        ensures
            r.state@ == entity@.state,
            r.current_temperature == entity@.reading("current_temperature"@),
            r.target_temperature == entity@.reading("temperature"@),
            r.is_active == active(entity@),
            r.state@ == entity.state@,
            r.is_active <==> entity.state@ != "off"@ && entity.state@ != "unavailable"@
                && entity.state@ != "unknown"@,
    {
        ClimateVM {
            state: entity.state.clone(),
            current_temperature: read_current_temperature_attribute(entity),
            target_temperature: read_target_temperature_attribute(entity),
            is_active: !reads(&entity.state, "off") && !entity.is_out_of_reach(),
        }
    }
}

/// The measured temperature.
pub fn read_current_temperature_attribute(entity: &Entity) -> (r: Option<Real32>)
    ensures
        r == entity@.reading("current_temperature"@),
{
    entity.read_number("current_temperature")
}

/// The temperature that is aimed for, which stands under `temperature`.
pub fn read_target_temperature_attribute(entity: &Entity) -> (r: Option<Real32>)
    ensures
        r == entity@.reading("temperature"@),
{
    entity.read_number("temperature")
}

/// The humidity that is aimed for.
pub fn read_humidity_attribute(entity: &Entity) -> (r: Option<Real32>)
    ensures
        r == entity@.reading("humidity"@),
{
    entity.read_number("humidity")
}

/// The mode of the fan.
pub fn read_fan_mode_attribute(entity: &Entity) -> (r: Option<String>)
    ensures
        opt_text(r) == entity@.text("fan_mode"@),
{
    entity.read_text("fan_mode")
}

/// The mode of the louvres.
pub fn read_swing_mode_attribute(entity: &Entity) -> (r: Option<String>)
    ensures
        opt_text(r) == entity@.text("swing_mode"@),
{
    entity.read_text("swing_mode")
}

} // verus!
