//! Cameras.
use crate::entity::{Entity, EntityModel};
use crate::text::{opt_text, reads};
use vstd::prelude::*;

verus! {

/// What a camera's tile shows.
#[derive(Clone, Copy, Debug, PartialEq, Eq, Structural)]
pub struct CameraVM {
    pub is_recording: bool,
    pub is_streaming: bool,
    pub is_available: bool,
}

pub open spec fn recording(e: EntityModel) -> bool {
    e.state == "recording"@
}

pub open spec fn streaming(e: EntityModel) -> bool {
    e.state == "streaming"@
}

impl CameraVM {
    /// Reads the camera's state. Any state but the two that mean the camera is
    /// out of reach counts as available.
    pub fn from_entity(entity: &Entity) -> (r: CameraVM)
        ensures
            r.is_recording == recording(entity@),
            r.is_streaming == streaming(entity@),
            r.is_available == !entity@.out_of_reach(),
            r.is_recording <==> entity.state@ == "recording"@,
            r.is_streaming <==> entity.state@ == "streaming"@,
            r.is_available <==> entity.state@ != "unavailable"@ && entity.state@ != "unknown"@,
    {
        CameraVM {
            is_recording: reads(&entity.state, "recording"),
            is_streaming: reads(&entity.state, "streaming"),
            is_available: !entity.is_out_of_reach(),
        }
    }
}

/// The address of the camera's still picture.
pub fn read_entity_picture_attribute(entity: &Entity) -> (r: Option<String>)
    ensures
        opt_text(r) == entity@.text("entity_picture"@),
{
    entity.read_text("entity_picture")
}

/// When the camera last saw motion.
pub fn read_last_motion_attribute(entity: &Entity) -> (r: Option<String>)
    ensures
        opt_text(r) == entity@.text("last_motion"@),
{
    entity.read_text("last_motion")
}

/// The name that the owner gave the camera.
pub fn read_friendly_name_attribute(entity: &Entity) -> (r: Option<String>)
    ensures
        opt_text(r) == entity@.text("friendly_name"@),
{
    entity.friendly_name()
}

/// The maker of the camera.
pub fn read_brand_attribute(entity: &Entity) -> (r: Option<String>)
    ensures
        opt_text(r) == entity@.text("brand"@),
{
    entity.read_text("brand")
}

/// A camera that records or streams is available, and does not do both.
pub proof fn active_camera_is_available(e: EntityModel)
    ensures
        recording(e) ==> !e.out_of_reach() && !streaming(e),
        streaming(e) ==> !e.out_of_reach() && !recording(e),
{
    reveal_strlit("recording");
    reveal_strlit("streaming");
    reveal_strlit("unavailable");
    reveal_strlit("unknown");
    assert("recording"@[0] == 'r');
    assert("streaming"@[0] == 's');
    assert("unavailable"@[0] == 'u');
    assert("unknown"@[0] == 'u');
}

} // verus!
