//! Covers: blinds, shutters, garage doors.
use crate::entity::{Entity, EntityModel};
use crate::text::reads;
use vstd::prelude::*;

verus! {

/// What a cover's tile shows.
#[derive(Clone, Copy, Debug, PartialEq, Eq, Structural)]
pub struct CoverVM {
    pub position: u8,
    pub is_open: bool,
    pub is_moving: bool,
}

/// A cover that is opening counts as open already.
pub open spec fn open_cover(e: EntityModel) -> bool {
    e.state == "open"@ || e.state == "opening"@
}

pub open spec fn moving_cover(e: EntityModel) -> bool {
    e.state == "opening"@ || e.state == "closing"@
}

/// The reported position, or else 100 for a cover that is open and 0 for any other:
/// of a cover on its way no position is implied.
pub open spec fn cover_position(e: EntityModel) -> int {
    match e.percent("current_position"@) {
        Some(p) => p,
        None => if e.state == "open"@ {
            100
        } else {
            0
        },
    }
}

impl CoverVM {
    /// Reads the cover's state and position.
    pub fn from_entity(entity: &Entity) -> (r: CoverVM)
        ensures
            r.position == cover_position(entity@),
            r.position <= 100,
            r.is_open == open_cover(entity@),
            r.is_moving == moving_cover(entity@),
            r.is_open <==> (entity.state@ == "open"@ || entity.state@ == "opening"@),
            r.is_moving <==> (entity.state@ == "opening"@ || entity.state@ == "closing"@),
            entity@.percent("current_position"@) matches Some(p) ==> r.position == p,
            entity@.percent("current_position"@) is None && entity.state@ == "open"@
                ==> r.position == 100,
            entity@.percent("current_position"@) is None && entity.state@ != "open"@
                ==> r.position == 0,
    {
        let is_opening: bool = reads(&entity.state, "opening");
        let is_still_open: bool = reads(&entity.state, "open");
        let position: u8 = match read_position_attribute(entity) {
            Some(p) => p,
            None => if is_still_open {
                100
            } else {
                0
            },
        };
        CoverVM {
            position,
            is_open: is_still_open || is_opening,
            is_moving: is_opening || reads(&entity.state, "closing"),
        }
    }
}

/// The position in percent.
pub fn read_position_attribute(entity: &Entity) -> (r: Option<u8>)
    ensures
        r is Some <==> entity@.percent("current_position"@) is Some,
        r matches Some(p) ==> Some(p as int) == entity@.percent("current_position"@) && p <= 100,
{
    entity.read_percent("current_position")
}

/// The tilt in percent.
pub fn read_tilt_attribute(entity: &Entity) -> (r: Option<u8>)
    ensures
        r is Some <==> entity@.percent("current_tilt_position"@) is Some,
        r matches Some(p) ==> Some(p as int) == entity@.percent("current_tilt_position"@) && p
            <= 100,
{
    entity.read_percent("current_tilt_position")
}

/// The features of the cover, as a bit mask.
pub fn read_supported_features(entity: &Entity) -> (r: Option<u32>)
    ensures
        r is Some <==> entity@.bit_mask("supported_features"@) is Some,
        r matches Some(m) ==> Some(m as int) == entity@.bit_mask("supported_features"@),
{
    entity.read_bit_mask("supported_features")
}

/// A cover shows a position of 0..=100 whatever is reported.
pub proof fn cover_position_is_a_percentage(entity: Entity)
    ensures
        0 <= cover_position(entity@) <= 100,
{
    let e = entity@;
    let key = "current_position"@;
    if e.has(key) {
        match e.attributes[key] {
            crate::entity::AttrModel::Float(f) => {
                if f.within_percent() && f.significand() != 0 {
                    crate::number::lemma_percent_range(f);
                }
            },
            _ => {},
        }
    }
}

} // verus!
