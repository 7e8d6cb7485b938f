//! Media players.
use crate::entity::{Entity, EntityModel};
use crate::number::Real32;
use crate::text::{opt_text, reads};
use vstd::prelude::*;

verus! {

/// What a media player's tile shows.
#[derive(Debug, PartialEq)]
pub struct MediaPlayerVM {
    pub state: String,
    pub is_playing: bool,
    pub media_title: Option<String>,
    pub artist: Option<String>,
    pub volume_level: Option<Real32>,
}

pub open spec fn playing(e: EntityModel) -> bool {
    e.state == "playing"@
}

/// The volume, moved into `0..=1`, however large the number is.
pub open spec fn volume(e: EntityModel) -> Option<Real32> {
    match e.narrowed("volume_level"@) {
        Some(v) => Some(v.clamped_to_unit()),
        None => None,
    }
}

impl MediaPlayerVM {
    /// Reads what is playing, and how loud.
    pub fn from_entity(entity: &Entity) -> (r: MediaPlayerVM)
        ensures
            r.state@ == entity@.state,
            r.is_playing == playing(entity@),
            opt_text(r.media_title) == entity@.text("media_title"@),
            opt_text(r.artist) == entity@.text("media_artist"@),
            r.volume_level == volume(entity@),
            r.state@ == entity.state@,
            r.is_playing <==> entity.state@ == "playing"@,
    {
        MediaPlayerVM {
            state: entity.state.clone(),
            is_playing: reads(&entity.state, "playing"),
            media_title: entity.read_text("media_title"),
            artist: entity.read_text("media_artist"),
            volume_level: match entity.read_narrowed("volume_level") {
                Some(v) => Some(v.clamp_to_unit()),
                None => None,
            },
        }
    }
}

/// A volume that is shown lies between 0 and 1.
pub proof fn volume_lies_in_the_unit_interval(e: EntityModel)
    ensures
        volume(e) matches Some(v) ==> !v.negative() && v.magnitude() <= Real32::one().magnitude(),
{
}

} // verus!
