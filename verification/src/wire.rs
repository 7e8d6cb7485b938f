//! The properties of the main window.
use crate::kinds::shown;
use crate::layout::{
    copy_sections, copy_slots, DashboardLayout, DashboardSection, DashboardTileSlot,
};
use crate::profiles::DeviceProfile;
use crate::split::{split_tile_vms, SplitTileVms};
use crate::switcher::{copy_views, ViewEntry};
use crate::tile::TileVM;
use vstd::prelude::*;

verus! {

/// Why a window could not be set up.
#[derive(Clone, Copy, Debug, PartialEq, Eq, Structural)]
pub enum WireError {
    /// The frame-rate cap of the device has no 32-bit value.
    FramerateCapOutOfRange,
    /// The number of animations of the device has no 32-bit value.
    MaxSimultaneousOutOfRange,
    /// A gesture time has no 32-bit value.
    GestureTimingOutOfRange,
}

/// What is said of an error.
pub open spec fn error_text(e: WireError) -> Seq<char> {
    match e {
        WireError::FramerateCapOutOfRange =>
            "DeviceProfile.animation_framerate_cap does not fit in i32"@,
        WireError::MaxSimultaneousOutOfRange =>
            "DeviceProfile.max_simultaneous_animations does not fit in i32"@,
        WireError::GestureTimingOutOfRange => "GestureConfig timing field does not fit in i32"@,
    }
}

impl WireError {
    /// What is said of the error.
    pub fn message(self) -> (r: String)
        ensures
            r@ == error_text(self),
            self is FramerateCapOutOfRange ==> r@
                == "DeviceProfile.animation_framerate_cap does not fit in i32"@,
            self is MaxSimultaneousOutOfRange ==> r@
                == "DeviceProfile.max_simultaneous_animations does not fit in i32"@,
            self is GestureTimingOutOfRange ==> r@
                == "GestureConfig timing field does not fit in i32"@,
    {
        match self {
            WireError::FramerateCapOutOfRange =>
                "DeviceProfile.animation_framerate_cap does not fit in i32".to_owned(),
            WireError::MaxSimultaneousOutOfRange =>
                "DeviceProfile.max_simultaneous_animations does not fit in i32".to_owned(),
            WireError::GestureTimingOutOfRange =>
                "GestureConfig timing field does not fit in i32".to_owned(),
        }
    }
}

/// How long a touch lasts to be a tap, a hold or half of a double tap.
#[derive(Clone, Copy, Debug, PartialEq, Eq, Structural)]
pub struct GestureConfig {
    pub tap_max_ms: u64,
    pub hold_min_ms: u64,
    pub double_tap_max_gap_ms: u64,
    pub double_tap_enabled: bool,
}

impl GestureConfig {
    /// The times that hold where nothing else is configured.
    pub open spec fn usual() -> GestureConfig {
        GestureConfig {
            tap_max_ms: 200,
            hold_min_ms: 500,
            double_tap_max_gap_ms: 300,
            double_tap_enabled: true,
        }
    }

    /// Whether a tap waits for a second one: where double taps are enabled,
    /// whatever the gap.
    pub fn arm_double_tap_timer(self) -> (r: bool)
        ensures
            r == self.double_tap_enabled,
    {
        self.double_tap_enabled
    }

    /// All times have a 32-bit value.
    pub open spec fn fits(self) -> bool {
        self.tap_max_ms <= i32::MAX && self.hold_min_ms <= i32::MAX && self.double_tap_max_gap_ms
            <= i32::MAX
    }
}

impl Default for GestureConfig {
    fn default() -> (r: GestureConfig)
        ensures
            r == GestureConfig::usual(),
            r.tap_max_ms == 200,
            r.hold_min_ms == 500,
            r.double_tap_max_gap_ms == 300,
            r.double_tap_enabled,
    {
        GestureConfig {
            tap_max_ms: 200,
            hold_min_ms: 500,
            double_tap_max_gap_ms: 300,
            double_tap_enabled: true,
        }
    }
}

/// Gesture times as window properties.
#[derive(Clone, Copy, Debug, PartialEq, Eq, Structural)]
pub struct GestureConfigProjection {
    pub tap_max_ms: i32,
    pub hold_min_ms: i32,
    pub double_tap_max_gap_ms: i32,
    pub double_tap_enabled: bool,
    pub arm_double_tap_timer: bool,
}

/// The window properties for gesture times that fit.
pub open spec fn projected(config: GestureConfig) -> GestureConfigProjection {
    GestureConfigProjection {
        tap_max_ms: config.tap_max_ms as i32,
        hold_min_ms: config.hold_min_ms as i32,
        double_tap_max_gap_ms: config.double_tap_max_gap_ms as i32,
        double_tap_enabled: config.double_tap_enabled,
        arm_double_tap_timer: config.double_tap_enabled,
    }
}

/// Gesture times as window properties, where they fit.
pub fn project_gesture_config(config: GestureConfig) -> (r: Result<
    GestureConfigProjection,
    WireError,
>)
    ensures
        r == if config.fits() {
            Ok::<GestureConfigProjection, WireError>(projected(config))
        } else {
            Err(WireError::GestureTimingOutOfRange)
        },
        r is Ok <==> config.tap_max_ms <= i32::MAX && config.hold_min_ms <= i32::MAX
            && config.double_tap_max_gap_ms <= i32::MAX,
        r matches Err(e) ==> e is GestureTimingOutOfRange,
        r matches Ok(p) ==> {
            &&& p.tap_max_ms == config.tap_max_ms
            &&& p.hold_min_ms == config.hold_min_ms
            &&& p.double_tap_max_gap_ms == config.double_tap_max_gap_ms
            &&& p.double_tap_enabled == config.double_tap_enabled
            &&& p.arm_double_tap_timer == config.double_tap_enabled
        },
{
    if config.tap_max_ms > 0x7fff_ffff || config.hold_min_ms > 0x7fff_ffff
        || config.double_tap_max_gap_ms > 0x7fff_ffff {
        return Err(WireError::GestureTimingOutOfRange);
    }
    Ok(
        GestureConfigProjection {
            tap_max_ms: config.tap_max_ms as i32,
            hold_min_ms: config.hold_min_ms as i32,
            double_tap_max_gap_ms: config.double_tap_max_gap_ms as i32,
            double_tap_enabled: config.double_tap_enabled,
            arm_double_tap_timer: config.arm_double_tap_timer(),
        },
    )
}

/// How much may move at once.
#[derive(Clone, Copy, Debug, PartialEq, Eq, Structural)]
pub struct AnimationBudget {
    pub framerate_cap: i32,
    pub max_simultaneous: i32,
    /// Steps per second of a spinner that moves in steps, 0 for one that moves
    /// smoothly.
    pub tick_hz_sbc: i32,
    /// The most spinners that move in steps, 0 for no limit.
    pub sbc_spinner_cap: i32,
}

/// The budget of a device. Up to 30 frames per second spinners move in steps.
pub open spec fn budget_for(profile: DeviceProfile) -> AnimationBudget {
    let stepped = profile.animation_framerate_cap <= 30;
    AnimationBudget {
        framerate_cap: profile.animation_framerate_cap as i32,
        max_simultaneous: profile.max_simultaneous_animations as i32,
        tick_hz_sbc: if stepped {
            12
        } else {
            0
        },
        sbc_spinner_cap: if stepped {
            profile.max_simultaneous_animations as i32
        } else {
            0
        },
    }
}

/// The error that a device's budget gives.
pub open spec fn budget_error(profile: DeviceProfile) -> Option<WireError> {
    if profile.animation_framerate_cap > i32::MAX {
        Some(WireError::FramerateCapOutOfRange)
    } else if profile.max_simultaneous_animations > i32::MAX {
        Some(WireError::MaxSimultaneousOutOfRange)
    } else {
        None
    }
}

/// The budget of a device, where it has one.
pub fn animation_budget(profile: &DeviceProfile) -> (r: Result<AnimationBudget, WireError>)
    ensures
        r == match budget_error(*profile) {
            Some(e) => Err::<AnimationBudget, WireError>(e),
            None => Ok(budget_for(*profile)),
        },
        profile.animation_framerate_cap > i32::MAX ==> r == Err::<AnimationBudget, WireError>(
            WireError::FramerateCapOutOfRange,
        ),
        profile.animation_framerate_cap <= i32::MAX && profile.max_simultaneous_animations
            > i32::MAX ==> r == Err::<AnimationBudget, WireError>(
            WireError::MaxSimultaneousOutOfRange,
        ),
        r is Ok <==> profile.animation_framerate_cap <= i32::MAX
            && profile.max_simultaneous_animations <= i32::MAX,
        r matches Ok(b) ==> {
            &&& b.framerate_cap == profile.animation_framerate_cap
            &&& b.max_simultaneous == profile.max_simultaneous_animations
            &&& profile.animation_framerate_cap <= 30 ==> b.tick_hz_sbc == 12 && b.sbc_spinner_cap
                == profile.max_simultaneous_animations
            &&& profile.animation_framerate_cap > 30 ==> b.tick_hz_sbc == 0 && b.sbc_spinner_cap
                == 0
        },
{
    if profile.animation_framerate_cap > 0x7fff_ffff {
        return Err(WireError::FramerateCapOutOfRange);
    }
    if profile.max_simultaneous_animations > 0x7fff_ffff {
        return Err(WireError::MaxSimultaneousOutOfRange);
    }
    let most: i32 = profile.max_simultaneous_animations as i32;
    let tick_hz: i32 = if profile.animation_framerate_cap <= 30 {
        12
    } else {
        0
    };
    Ok(
        AnimationBudget {
            framerate_cap: profile.animation_framerate_cap as i32,
            max_simultaneous: most,
            tick_hz_sbc: tick_hz,
            sbc_spinner_cap: if tick_hz > 0 {
                most
            } else {
                0
            },
        },
    )
}

/// The properties of the main window.
#[derive(Debug)]
pub struct MainWindow {
    pub tiles: SplitTileVms,
    pub budget: AnimationBudget,
    pub gestures: GestureConfigProjection,
    pub views: Vec<ViewEntry>,
    pub active_view_index: i32,
    pub sections: Vec<DashboardSection>,
    pub tile_slots: Vec<DashboardTileSlot>,
}

impl MainWindow {
    /// A window with nothing in it.
    pub fn new() -> (r: MainWindow)
        ensures
            r.tiles.holds(Seq::empty()),
            r.views@.len() == 0,
            r.sections@.len() == 0,
            r.tile_slots@.len() == 0,
            r.active_view_index == 0,
            r.budget == (AnimationBudget {
                framerate_cap: 0,
                max_simultaneous: 0,
                tick_hz_sbc: 0,
                sbc_spinner_cap: 0,
            }),
            r.gestures == (GestureConfigProjection {
                tap_max_ms: 0,
                hold_min_ms: 0,
                double_tap_max_gap_ms: 0,
                double_tap_enabled: false,
                arm_double_tap_timer: false,
            }),
    {
        MainWindow {
            tiles: SplitTileVms::empty(),
            budget: AnimationBudget {
                framerate_cap: 0,
                max_simultaneous: 0,
                tick_hz_sbc: 0,
                sbc_spinner_cap: 0,
            },
            gestures: GestureConfigProjection {
                tap_max_ms: 0,
                hold_min_ms: 0,
                double_tap_max_gap_ms: 0,
                double_tap_enabled: false,
                arm_double_tap_timer: false,
            },
            views: Vec::new(),
            active_view_index: 0,
            sections: Vec::new(),
            tile_slots: Vec::new(),
        }
    }

    /// Switches to another view. Nothing else changes.
    pub fn view_changed(&mut self, index: i32)
        ensures
            *final(self) == (MainWindow { active_view_index: index, ..*old(self) }),
    {
        self.active_view_index = index;
    }
}

/// Sets the gesture times. Where one does not fit, nothing is set.
pub fn write_gesture_config(window: &mut MainWindow, config: GestureConfig) -> (r: Result<
    (),
    WireError,
>)
    ensures
        r == if config.fits() {
            Ok::<(), WireError>(())
        } else {
            Err(WireError::GestureTimingOutOfRange)
        },
        *final(window) == if config.fits() {
            MainWindow { gestures: projected(config), ..*old(window) }
        } else {
            *old(window)
        },
        r is Ok <==> config.tap_max_ms <= i32::MAX && config.hold_min_ms <= i32::MAX
            && config.double_tap_max_gap_ms <= i32::MAX,
        r is Err ==> *final(window) == *old(window),
        r is Ok ==> {
            &&& final(window).gestures.tap_max_ms == config.tap_max_ms
            &&& final(window).gestures.hold_min_ms == config.hold_min_ms
            &&& final(window).gestures.double_tap_max_gap_ms == config.double_tap_max_gap_ms
            &&& final(window).gestures.double_tap_enabled == config.double_tap_enabled
            &&& final(window).gestures.arm_double_tap_timer == config.double_tap_enabled
        },
{
    match project_gesture_config(config) {
        Ok(p) => {
            window.gestures = p;
            Ok(())
        },
        Err(e) => Err(e),
    }
}

/// Sets the tiles, then the animation budget of the device and the usual gesture
/// times. Where the budget does not fit, only the tiles are set.
pub fn wire_window(
    window: &mut MainWindow,
    tiles: &Vec<TileVM>,
    profile: &DeviceProfile,
) -> (r: Result<(), WireError>)
    ensures
        r == match budget_error(*profile) {
            Some(e) => Err::<(), WireError>(e),
            None => Ok(()),
        },
        final(window).tiles.holds(shown(tiles@)),
        *final(window) == (MainWindow {
            tiles: final(window).tiles,
            budget: if budget_error(*profile) is None {
                budget_for(*profile)
            } else {
                old(window).budget
            },
            gestures: if budget_error(*profile) is None {
                projected(GestureConfig::usual())
            } else {
                old(window).gestures
            },
            ..*old(window)
        }),
        r is Ok <==> profile.animation_framerate_cap <= i32::MAX
            && profile.max_simultaneous_animations <= i32::MAX,
        r is Ok ==> {
            &&& final(window).budget.framerate_cap == profile.animation_framerate_cap
            &&& final(window).budget.max_simultaneous == profile.max_simultaneous_animations
            &&& final(window).gestures.tap_max_ms == 200
            &&& final(window).gestures.hold_min_ms == 500
            &&& final(window).gestures.double_tap_max_gap_ms == 300
            &&& final(window).gestures.double_tap_enabled
            &&& final(window).gestures.arm_double_tap_timer
        },
        r is Err ==> final(window).budget == old(window).budget && final(window).gestures
            == old(window).gestures,
{
    window.tiles = split_tile_vms(tiles);
    match animation_budget(profile) {
        Ok(budget) => {
            window.budget = budget;
            write_gesture_config(window, GestureConfig::default())
        },
        Err(e) => Err(e),
    }
}

/// Sets the views, the sections and the slots.
pub fn wire_dashboard_layout(window: &mut MainWindow, layout: &DashboardLayout)
    ensures
        final(window).views@ == layout.views@,
        final(window).active_view_index == layout.active_view_index,
        final(window).sections@ == layout.sections@,
        final(window).tile_slots@ == layout.tile_slots@,
        final(window).tiles == old(window).tiles,
        final(window).budget == old(window).budget,
        final(window).gestures == old(window).gestures,
{
    window.views = copy_views(&layout.views);
    window.active_view_index = layout.active_view_index;
    window.sections = copy_sections(&layout.sections);
    window.tile_slots = copy_slots(&layout.tile_slots);
}

/// A device gets a budget where both of its limits have a 32-bit value, and the
/// frame-rate cap is the one that is complained of first.
pub proof fn budget_needs_both_limits(profile: DeviceProfile)
    ensures
        budget_error(profile) is None <==> profile.animation_framerate_cap <= i32::MAX
            && profile.max_simultaneous_animations <= i32::MAX,
        profile.animation_framerate_cap > i32::MAX ==> budget_error(profile) == Some(
            WireError::FramerateCapOutOfRange,
        ),
{
}

/// A device with a faster display never steps its spinners where a slower one moves
/// them smoothly.
pub proof fn faster_display_is_no_less_smooth(slow: DeviceProfile, fast: DeviceProfile)
    requires
        slow.animation_framerate_cap <= fast.animation_framerate_cap,
    ensures
        budget_for(slow).tick_hz_sbc == 0 ==> budget_for(fast).tick_hz_sbc == 0,
        budget_for(fast).tick_hz_sbc <= budget_for(slow).tick_hz_sbc,
        budget_for(slow).tick_hz_sbc == 0 ==> budget_for(slow).sbc_spinner_cap == 0,
        budget_for(slow).tick_hz_sbc > 0 ==> budget_for(slow).sbc_spinner_cap == budget_for(
            slow,
        ).max_simultaneous,
{
}

} // verus!
