//! What the device that draws the dashboard can do.
use vstd::prelude::*;

verus! {

/// How tightly a dashboard is set.
#[derive(Clone, Copy, Debug, PartialEq, Eq, Structural)]
pub enum Density {
    Compact,
    Regular,
    Spacious,
}

/// The word for a density.
pub open spec fn density_text(d: Density) -> Seq<char> {
    match d {
        Density::Compact => "compact"@,
        Density::Regular => "regular"@,
        Density::Spacious => "spacious"@,
    }
}

impl Density {
    /// The word for this density.
    pub fn word(self) -> (r: String)
        ensures
            r@ == density_text(self),
            self is Compact ==> r@ == "compact"@,
            self is Regular ==> r@ == "regular"@,
            self is Spacious ==> r@ == "spacious"@,
    {
        match self {
            Density::Compact => "compact".to_owned(),
            Density::Regular => "regular".to_owned(),
            Density::Spacious => "spacious".to_owned(),
        }
    }
}

/// A device.
#[derive(Clone, Copy, Debug, PartialEq, Eq, Structural)]
pub struct DeviceProfile {
    pub density: Density,
    pub touch_input: bool,
    pub animation_framerate_cap: u32,
    pub max_simultaneous_animations: usize,
}

} // verus!
