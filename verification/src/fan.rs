//! Fans.
use crate::entity::{Entity, EntityModel};
use crate::text::{opt_text, reads};
use vstd::prelude::*;

verus! {

/// What a fan's tile shows.
#[derive(Debug, PartialEq, Eq)]
pub struct FanVM {
    pub state: String,
    pub is_on: bool,
    pub speed_pct: Option<u8>,
    pub current_speed: Option<String>,
}

/// A fan that regulates itself counts as on.
pub open spec fn running(e: EntityModel) -> bool {
    e.state == "on"@ || e.state == "auto"@
}

impl FanVM {
    /// Reads the fan's state, speed and preset.
    pub fn from_entity(entity: &Entity) -> (r: FanVM)
        ensures
            r.state@ == entity@.state,
            r.is_on == running(entity@),
            r.speed_pct is Some <==> entity@.percent("percentage"@) is Some,
            r.speed_pct matches Some(p) ==> Some(p as int) == entity@.percent("percentage"@),
            opt_text(r.current_speed) == entity@.text("preset_mode"@),
            r.state@ == entity.state@,
            r.is_on <==> (entity.state@ == "on"@ || entity.state@ == "auto"@),
    {
        FanVM {
            state: entity.state.clone(),
            is_on: reads(&entity.state, "on") || reads(&entity.state, "auto"),
            speed_pct: entity.read_percent("percentage"),
            current_speed: entity.read_text("preset_mode"),
        }
    }
}

} // verus!
