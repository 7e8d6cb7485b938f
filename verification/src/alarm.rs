//! Alarm panels.
use crate::entity::{Entity, EntityModel};
use crate::text::{opt_text, reads};
use vstd::prelude::*;

verus! {

/// What an alarm panel's tile shows.
#[derive(Debug, PartialEq, Eq)]
pub struct AlarmVM {
    pub state: String,
    pub is_armed: bool,
    pub is_triggered: bool,
    pub is_pending: bool,
}

/// Armed, in any of the modes that Home Assistant knows.
pub open spec fn armed(e: EntityModel) -> bool {
    ||| e.state == "armed_home"@
    ||| e.state == "armed_away"@
    ||| e.state == "armed_night"@
    ||| e.state == "armed_vacation"@
    ||| e.state == "armed_custom_bypass"@
}

pub open spec fn triggered(e: EntityModel) -> bool {
    e.state == "triggered"@
}

pub open spec fn pending_state(e: EntityModel) -> bool {
    e.state == "pending"@
}

impl Clone for AlarmVM {
    fn clone(&self) -> (r: AlarmVM)
        ensures
            r == *self,
    {
        AlarmVM {
            state: self.state.clone(),
            is_armed: self.is_armed,
            is_triggered: self.is_triggered,
            is_pending: self.is_pending,
        }
    }
}

impl AlarmVM {
    /// Reads the panel's state.
    pub fn from_entity(entity: &Entity) -> (r: AlarmVM)
        ensures
            r.state@ == entity@.state,
            r.is_armed == armed(entity@),
            r.is_triggered == triggered(entity@),
            r.is_pending == pending_state(entity@),
            r.state@ == entity.state@,
            r.is_armed <==> (entity.state@ == "armed_home"@ || entity.state@ == "armed_away"@
                || entity.state@ == "armed_night"@ || entity.state@ == "armed_vacation"@
                || entity.state@ == "armed_custom_bypass"@),
            r.is_triggered <==> entity.state@ == "triggered"@,
            r.is_pending <==> entity.state@ == "pending"@,
    {
        let state: &String = &entity.state;
        AlarmVM {
            state: state.clone(),
            is_armed: reads(state, "armed_home") || reads(state, "armed_away") || reads(
                state,
                "armed_night",
            ) || reads(state, "armed_vacation") || reads(state, "armed_custom_bypass"),
            is_triggered: reads(state, "triggered"),
            is_pending: reads(state, "pending"),
        }
    }
}

/// Who or what changed the panel last.
pub fn read_changed_by_attribute(entity: &Entity) -> (r: Option<String>)
    ensures
        opt_text(r) == entity@.text("changed_by"@),
{
    entity.read_text("changed_by")
}

/// The format of the code that the panel asks for.
pub fn read_code_format_attribute(entity: &Entity) -> (r: Option<String>)
    ensures
        opt_text(r) == entity@.text("code_format"@),
{
    entity.read_text("code_format")
}

/// Whether arming takes a code.
pub fn read_code_arm_required_attribute(entity: &Entity) -> (r: Option<bool>)
    ensures
        r == entity@.boolean("code_arm_required"@),
{
    entity.read_bool("code_arm_required")
}

/// A panel is armed, triggered or pending, or none of these: never two at once.
pub proof fn alarm_flags_exclude_each_other(e: EntityModel)
    ensures
        !(armed(e) && triggered(e)),
        !(armed(e) && pending_state(e)),
        !(triggered(e) && pending_state(e)),
{
    reveal_strlit("armed_home");
    reveal_strlit("armed_away");
    reveal_strlit("armed_night");
    reveal_strlit("armed_vacation");
    reveal_strlit("armed_custom_bypass");
    reveal_strlit("triggered");
    reveal_strlit("pending");
    assert("triggered"@[0] == 't');
    assert("pending"@[0] == 'p');
    if armed(e) {
        assert(e.state[0] == 'a');
    }
}

} // verus!
