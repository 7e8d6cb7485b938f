//! From the dashboard and the entities to the tiles.
use crate::alarm::AlarmVM;
use crate::camera::CameraVM;
use crate::climate::ClimateVM;
use crate::cover::{read_position_attribute, read_tilt_attribute, CoverVM};
use crate::entity::{
    kind_follows_the_domain, kind_needs_the_domain, kind_of_id, AttrModel, Entity, EntityId,
    EntityKind, EntityModel,
};
use crate::fan::FanVM;
use crate::history::{history_path_commands, path_text, HistoryGraphVM, HistoryWindow};
use crate::lock::LockVM;
use crate::media_player::{volume, MediaPlayerVM};
use crate::number::Real32;
use crate::power_flow::{state_charge, state_reading, PowerFlowVM};
use crate::schema::{
    widget_place, widget_stands_at_its_place, Dashboard, Widget, WidgetKind, WidgetOptions,
};
use crate::store::MemoryStore;
use crate::tile::{
    blank_body, body_for, history_body, kind_of_widget, AlarmTileVM,
    CameraTileVM, ClimateTileVM, CoverTileVM, EntityTileVM, FanTileVM, HistoryGraphTileVM,
    LightTileVM, LockTileVM, MediaPlayerTileVM, PowerFlowTileVM, SensorTileVM, TileBody, TileKind,
    TileModel, TilePlacement, TileVM,
};
use crate::text::opt_text;
use vstd::prelude::*;

verus! {

/// The icon of a tile that is not given one.
pub open spec fn default_icon(kind: EntityKind) -> Seq<char> {
    match kind {
        EntityKind::Light => "mdi:lightbulb"@,
        EntityKind::Sensor => "mdi:thermometer"@,
        EntityKind::Other => "mdi:help-circle"@,
    }
}

/// A tile that shows no write in flight.
pub open spec fn settled(
    name: Seq<char>,
    state: Seq<char>,
    icon_id: Seq<char>,
    preferred_columns: i32,
    preferred_rows: i32,
    placement: TilePlacement,
    body: TileBody,
) -> TileModel {
    TileModel {
        name,
        state,
        icon_id,
        preferred_columns,
        preferred_rows,
        placement,
        pending: false,
        body,
    }
}

/// The reading of a lane that may or may not be configured.
pub open spec fn lane(
    entities: Map<Seq<char>, EntityModel>,
    id: Option<String>,
) -> Option<Real32> {
    match id {
        Some(s) => if entities.contains_key(s@) {
            state_reading(entities[s@])
        } else {
            None
        },
        None => None,
    }
}

/// The reading of a battery's charge that may or may not be configured.
pub open spec fn charge(
    entities: Map<Seq<char>, EntityModel>,
    id: Option<String>,
) -> Option<Real32> {
    match id {
        Some(s) => if entities.contains_key(s@) {
            state_charge(entities[s@])
        } else {
            None
        },
        None => None,
    }
}

/// The lanes of a power-flow tile: those that the options name, or else the grid
/// lane of the widget's own entity, or else none.
pub open spec fn power_body(
    entities: Map<Seq<char>, EntityModel>,
    options: Option<WidgetOptions>,
    wrapper: Option<EntityModel>,
) -> TileBody {
    match options {
        Some(
            WidgetOptions::PowerFlow {
                grid_entity,
                solar_entity,
                battery_entity,
                battery_soc_entity,
                home_entity,
            },
        ) => TileBody::PowerFlow {
            grid_w: lane(entities, Some(grid_entity)),
            solar_w: lane(entities, solar_entity),
            battery_w: lane(entities, battery_entity),
            battery_pct: charge(entities, battery_soc_entity),
            home_w: lane(entities, home_entity),
        },
        _ => match wrapper {
            Some(e) => body_for(TileKind::PowerFlow, e),
            None => blank_body(TileKind::PowerFlow),
        },
    }
}

/// Where a widget asks to sit.
pub open spec fn widget_placement(w: Widget) -> TilePlacement {
    match w.placement {
        Some(p) => TilePlacement::fixed(p),
        None => TilePlacement::sized(
            w.layout.preferred_columns as i32,
            w.layout.preferred_rows as i32,
        ),
    }
}

/// The tile of a widget.
pub open spec fn tile_for(entities: Map<Seq<char>, EntityModel>, w: Widget) -> TileModel {
    let id = w.bound_id();
    let kind = kind_of_widget(w.widget_type);
    let known = entities.contains_key(id);
    let entity = entities[id];
    settled(
        match w.name {
            Some(n) => n@,
            None => if known {
                match entity.text("friendly_name"@) {
                    Some(n) => n,
                    None => id,
                }
            } else {
                id
            },
        },
        if kind == TileKind::PowerFlow {
            Seq::empty()
        } else if known {
            entity.state
        } else {
            "unavailable"@
        },
        match w.icon {
            Some(i) => i@,
            None => if known {
                default_icon(kind_of_id(id))
            } else {
                "mdi:help-circle"@
            },
        },
        w.layout.preferred_columns as i32,
        w.layout.preferred_rows as i32,
        widget_placement(w),
        if kind == TileKind::PowerFlow {
            power_body(
                entities,
                w.options,
                if known {
                    Some(entity)
                } else {
                    None
                },
            )
        } else if known {
            body_for(kind, entity)
        } else {
            blank_body(kind)
        },
    )
}

/// The tiles of some widgets.
pub open spec fn tiles_for(
    entities: Map<Seq<char>, EntityModel>,
    widgets: Seq<Widget>,
) -> Seq<TileModel> {
    Seq::new(widgets.len(), |i: int| tile_for(entities, widgets[i]))
}

/// The icon of a tile that is not given one.
pub fn default_icon_for_kind(kind: EntityKind) -> (r: String)
    ensures
        r@ == default_icon(kind),
        kind is Light ==> r@ == "mdi:lightbulb"@,
        kind is Sensor ==> r@ == "mdi:thermometer"@,
        kind is Other ==> r@ == "mdi:help-circle"@,
{
    match kind {
        EntityKind::Light => "mdi:lightbulb".to_owned(),
        EntityKind::Sensor => "mdi:thermometer".to_owned(),
        EntityKind::Other => "mdi:help-circle".to_owned(),
    }
}

/// The tile of a cover. A position or a tilt counts as given where it is a
/// percentage; where it is not, none is shown.
pub fn compute_cover_tile_vm(
    name: String,
    icon_id: String,
    preferred_columns: i32,
    preferred_rows: i32,
    placement: TilePlacement,
    entity: &Entity,
) -> (r: CoverTileVM)
    ensures
        r@ == settled(
            name@,
            entity@.state,
            icon_id@,
            preferred_columns,
            preferred_rows,
            placement,
            body_for(TileKind::Cover, entity@),
        ),
        r.name@ == name@,
        r.state@ == entity.state@,
        r.icon_id@ == icon_id@,
        r.preferred_columns == preferred_columns,
        r.preferred_rows == preferred_rows,
        r.placement == placement,
        !r.pending,
        r.is_open <==> (entity.state@ == "open"@ || entity.state@ == "opening"@),
        r.is_moving <==> (entity.state@ == "opening"@ || entity.state@ == "closing"@),
        r.has_position == entity@.percent("current_position"@) is Some,
        entity@.percent("current_position"@) matches Some(p) ==> r.position == p,
        r.has_position || r.position == if entity.state@ == "open"@ {
            100int
        } else {
            0
        },
        r.has_tilt == entity@.percent("current_tilt_position"@) is Some,
        entity@.percent("current_tilt_position"@) matches Some(p) ==> r.tilt == p,
        r.has_tilt || r.tilt == 0,
{
    let vm: CoverVM = CoverVM::from_entity(entity);
    let tilt: Option<u8> = read_tilt_attribute(entity);
    let has_position: bool = read_position_attribute(entity).is_some();
    CoverTileVM {
        name,
        state: entity.state.clone(),
        position: vm.position as i32,
        tilt: match tilt {
            Some(t) => t as i32,
            None => 0,
        },
        has_position,
        has_tilt: tilt.is_some(),
        is_open: vm.is_open,
        is_moving: vm.is_moving,
        icon_id,
        preferred_columns,
        preferred_rows,
        placement,
        pending: false,
    }
}

/// The tile of a fan.
pub fn compute_fan_tile_vm(
    name: String,
    icon_id: String,
    preferred_columns: i32,
    preferred_rows: i32,
    placement: TilePlacement,
    entity: &Entity,
) -> (r: FanTileVM)
    ensures
        r@ == settled(
            name@,
            entity@.state,
            icon_id@,
            preferred_columns,
            preferred_rows,
            placement,
            body_for(TileKind::Fan, entity@),
        ),
        r.name@ == name@,
        r.state@ == entity.state@,
        r.icon_id@ == icon_id@,
        r.preferred_columns == preferred_columns,
        r.preferred_rows == preferred_rows,
        r.placement == placement,
        !r.pending,
        r.is_on <==> (entity.state@ == "on"@ || entity.state@ == "auto"@),
        r.has_speed_pct == entity@.percent("percentage"@) is Some,
        entity@.percent("percentage"@) matches Some(p) ==> r.speed_pct == p,
        r.has_speed_pct || r.speed_pct == 0,
        r.has_current_speed == entity@.text("preset_mode"@) is Some,
        entity@.text("preset_mode"@) matches Some(s) ==> r.current_speed@ == s,
        r.has_current_speed || r.current_speed@.len() == 0,
{
    let vm: FanVM = FanVM::from_entity(entity);
    let has_speed_pct: bool = vm.speed_pct.is_some();
    let has_current_speed: bool = vm.current_speed.is_some();
    FanTileVM {
        name,
        state: vm.state,
        speed_pct: match vm.speed_pct {
            Some(p) => p as i32,
            None => 0,
        },
        has_speed_pct,
        is_on: vm.is_on,
        current_speed: match vm.current_speed {
            Some(s) => s,
            None => String::new(),
        },
        has_current_speed,
        icon_id,
        preferred_columns,
        preferred_rows,
        placement,
        pending: false,
    }
}

/// The tile of a lock.
pub fn compute_lock_tile_vm(
    name: String,
    icon_id: String,
    preferred_columns: i32,
    preferred_rows: i32,
    placement: TilePlacement,
    entity: &Entity,
) -> (r: LockTileVM)
    ensures
        r@ == settled(
            name@,
            entity@.state,
            icon_id@,
            preferred_columns,
            preferred_rows,
            placement,
            body_for(TileKind::Lock, entity@),
        ),
        r.name@ == name@,
        r.state@ == entity.state@,
        r.icon_id@ == icon_id@,
        r.preferred_columns == preferred_columns,
        r.preferred_rows == preferred_rows,
        r.placement == placement,
        !r.pending,
        r.is_locked <==> (entity.state@ == "locked"@ || entity.state@ == "locking"@),
{
    let vm: LockVM = LockVM::from_entity(entity);
    LockTileVM {
        name,
        state: vm.state,
        is_locked: vm.is_locked,
        icon_id,
        preferred_columns,
        preferred_rows,
        placement,
        pending: false,
    }
}

/// The tile of an alarm panel.
pub fn compute_alarm_tile_vm(
    name: String,
    icon_id: String,
    preferred_columns: i32,
    preferred_rows: i32,
    placement: TilePlacement,
    entity: &Entity,
) -> (r: AlarmTileVM)
    ensures
        r@ == settled(
            name@,
            entity@.state,
            icon_id@,
            preferred_columns,
            preferred_rows,
            placement,
            body_for(TileKind::Alarm, entity@),
        ),
        r.name@ == name@,
        r.state@ == entity.state@,
        r.icon_id@ == icon_id@,
        r.preferred_columns == preferred_columns,
        r.preferred_rows == preferred_rows,
        r.placement == placement,
        !r.pending,
        r.is_armed <==> (entity.state@ == "armed_home"@ || entity.state@ == "armed_away"@
            || entity.state@ == "armed_night"@ || entity.state@ == "armed_vacation"@ || entity.state@
            == "armed_custom_bypass"@),
        r.is_triggered <==> entity.state@ == "triggered"@,
        r.is_pending <==> entity.state@ == "pending"@,
{
    let vm: AlarmVM = AlarmVM::from_entity(entity);
    AlarmTileVM {
        name,
        state: vm.state,
        is_armed: vm.is_armed,
        is_triggered: vm.is_triggered,
        is_pending: vm.is_pending,
        icon_id,
        preferred_columns,
        preferred_rows,
        placement,
        pending: false,
    }
}

/// The tile of a history graph. There is no window until one has been fetched.
pub fn compute_history_graph_tile_vm(
    name: String,
    icon_id: String,
    preferred_columns: i32,
    preferred_rows: i32,
    placement: TilePlacement,
    entity: &Entity,
    window: Option<&HistoryWindow>,
) -> (r: HistoryGraphTileVM)
    ensures
        r@ == settled(
            name@,
            entity@.state,
            icon_id@,
            preferred_columns,
            preferred_rows,
            placement,
            history_body(
                entity@,
                match window {
                    Some(w) => Some(*w),
                    None => None,
                },
            ),
        ),
        r.name@ == name@,
        r.state@ == entity.state@,
        r.icon_id@ == icon_id@,
        r.preferred_columns == preferred_columns,
        r.preferred_rows == preferred_rows,
        r.placement == placement,
        !r.pending,
        r.is_available <==> entity.state@ != "unavailable"@ && entity.state@ != "unknown"@,
        window is None ==> r.change_count == 0 && r.path_commands@.len() == 0,
        window matches Some(w) ==> r.change_count == if w.points@.len() <= i32::MAX {
            w.points@.len() as int
        } else {
            i32::MAX as int
        },
        window matches Some(w) ==> r.path_commands@ == path_text(
            w.points@,
            w.points@.len() as int,
        ),
{
    let change_count: i32 = match window {
        Some(w) => if w.len() > 0x7fff_ffff {
            0x7fff_ffff
        } else {
            w.len() as i32
        },
        None => 0,
    };
    let vm: HistoryGraphVM = HistoryGraphVM::from_entity(entity, change_count);
    HistoryGraphTileVM {
        name,
        state: entity.state.clone(),
        change_count: vm.change_count,
        is_available: vm.is_available,
        path_commands: match window {
            Some(w) => history_path_commands(w),
            None => String::new(),
        },
        icon_id,
        preferred_columns,
        preferred_rows,
        placement,
        pending: false,
    }
}

/// The tile of a camera.
pub fn compute_camera_tile_vm(
    name: String,
    icon_id: String,
    preferred_columns: i32,
    preferred_rows: i32,
    placement: TilePlacement,
    entity: &Entity,
) -> (r: CameraTileVM)
    ensures
        r@ == settled(
            name@,
            entity@.state,
            icon_id@,
            preferred_columns,
            preferred_rows,
            placement,
            body_for(TileKind::Camera, entity@),
        ),
        r.name@ == name@,
        r.state@ == entity.state@,
        r.icon_id@ == icon_id@,
        r.preferred_columns == preferred_columns,
        r.preferred_rows == preferred_rows,
        r.placement == placement,
        !r.pending,
        r.is_recording <==> entity.state@ == "recording"@,
        r.is_streaming <==> entity.state@ == "streaming"@,
        r.is_available <==> entity.state@ != "unavailable"@ && entity.state@ != "unknown"@,
{
    let vm: CameraVM = CameraVM::from_entity(entity);
    CameraTileVM {
        name,
        state: entity.state.clone(),
        is_recording: vm.is_recording,
        is_streaming: vm.is_streaming,
        is_available: vm.is_available,
        icon_id,
        preferred_columns,
        preferred_rows,
        placement,
        pending: false,
    }
}

/// The tile of a climate device.
pub fn compute_climate_tile_vm(
    name: String,
    icon_id: String,
    preferred_columns: i32,
    preferred_rows: i32,
    placement: TilePlacement,
    entity: &Entity,
) -> (r: ClimateTileVM)
    ensures
        r@ == settled(
            name@,
            entity@.state,
            icon_id@,
            preferred_columns,
            preferred_rows,
            placement,
            body_for(TileKind::Climate, entity@),
        ),
        r.name@ == name@,
        r.state@ == entity.state@,
        r.icon_id@ == icon_id@,
        r.preferred_columns == preferred_columns,
        r.preferred_rows == preferred_rows,
        r.placement == placement,
        !r.pending,
        r.is_active <==> entity.state@ != "off"@ && entity.state@ != "unavailable"@ && entity.state@
            != "unknown"@,
        r.current_temperature == entity@.reading("current_temperature"@),
        r.target_temperature == entity@.reading("temperature"@),
{
    let vm: ClimateVM = ClimateVM::from_entity(entity);
    ClimateTileVM {
        name,
        state: vm.state,
        is_active: vm.is_active,
        current_temperature: vm.current_temperature,
        target_temperature: vm.target_temperature,
        icon_id,
        preferred_columns,
        preferred_rows,
        placement,
        pending: false,
    }
}

/// The tile of a media player.
pub fn compute_media_player_tile_vm(
    name: String,
    icon_id: String,
    preferred_columns: i32,
    preferred_rows: i32,
    placement: TilePlacement,
    entity: &Entity,
) -> (r: MediaPlayerTileVM)
    ensures
        r@ == settled(
            name@,
            entity@.state,
            icon_id@,
            preferred_columns,
            preferred_rows,
            placement,
            body_for(TileKind::MediaPlayer, entity@),
        ),
        r.name@ == name@,
        r.state@ == entity.state@,
        r.icon_id@ == icon_id@,
        r.preferred_columns == preferred_columns,
        r.preferred_rows == preferred_rows,
        r.placement == placement,
        !r.pending,
        r.is_playing <==> entity.state@ == "playing"@,
        opt_text(r.media_title) == entity@.text("media_title"@),
        opt_text(r.artist) == entity@.text("media_artist"@),
        r.volume_level == volume(entity@),
{
    let vm: MediaPlayerVM = MediaPlayerVM::from_entity(entity);
    MediaPlayerTileVM {
        name,
        state: vm.state,
        is_playing: vm.is_playing,
        media_title: vm.media_title,
        artist: vm.artist,
        volume_level: vm.volume_level,
        icon_id,
        preferred_columns,
        preferred_rows,
        placement,
        pending: false,
    }
}

/// Readings for the lanes beside the grid's.
#[derive(Clone, Copy, Debug, PartialEq, Eq, Structural)]
pub struct PowerFlowAuxiliaryReadings {
    pub solar_w: Option<Real32>,
    pub battery_w: Option<Real32>,
    pub battery_pct: Option<Real32>,
    pub home_w: Option<Real32>,
}

impl Default for PowerFlowAuxiliaryReadings {
    /// No readings.
    fn default() -> (r: PowerFlowAuxiliaryReadings)
        ensures
            r.solar_w is None,
            r.battery_w is None,
            r.battery_pct is None,
            r.home_w is None,
    {
        PowerFlowAuxiliaryReadings { solar_w: None, battery_w: None, battery_pct: None, home_w: None }
    }
}

/// The tile of a power flow whose grid entity is known.
pub fn compute_power_flow_tile_vm(
    name: String,
    icon_id: String,
    preferred_columns: i32,
    preferred_rows: i32,
    placement: TilePlacement,
    entity: &Entity,
    auxiliary: PowerFlowAuxiliaryReadings,
) -> (r: PowerFlowTileVM)
    ensures
        r@ == settled(
            name@,
            Seq::empty(),
            icon_id@,
            preferred_columns,
            preferred_rows,
            placement,
            TileBody::PowerFlow {
                grid_w: state_reading(entity@),
                solar_w: auxiliary.solar_w,
                battery_w: auxiliary.battery_w,
                battery_pct: auxiliary.battery_pct,
                home_w: auxiliary.home_w,
            },
        ),
        r.name@ == name@,
        r.icon_id@ == icon_id@,
        r.preferred_columns == preferred_columns,
        r.preferred_rows == preferred_rows,
        r.placement == placement,
        !r.pending,
        r.grid_w == state_reading(entity@),
        r.solar_w == auxiliary.solar_w,
        r.battery_w == auxiliary.battery_w,
        r.battery_pct == auxiliary.battery_pct,
        r.home_w == auxiliary.home_w,
{
    PowerFlowTileVM {
        name,
        grid_w: PowerFlowVM::read_power_watts(entity),
        solar_w: auxiliary.solar_w,
        battery_w: auxiliary.battery_w,
        battery_pct: auxiliary.battery_pct,
        home_w: auxiliary.home_w,
        icon_id,
        preferred_columns,
        preferred_rows,
        placement,
        pending: false,
    }
}

/// What the tile of a power-flow widget is made from.
pub struct PowerFlowBuildArgs<'a> {
    pub name: String,
    pub icon_id: String,
    pub preferred_columns: i32,
    pub preferred_rows: i32,
    pub placement: TilePlacement,
    pub wrapper_entity: Option<&'a Entity>,
    pub options: Option<&'a WidgetOptions>,
}

fn read_lane(store: &MemoryStore, id: &Option<String>) -> (r: Option<Real32>)
    ensures
        r == lane(store@, *id),
{
    match id {
        Some(s) => match store.get(&EntityId::from(s.as_str())) {
            Some(e) => PowerFlowVM::read_power_watts(e),
            None => None,
        },
        None => None,
    }
}

fn read_charge(store: &MemoryStore, id: &Option<String>) -> (r: Option<Real32>)
    ensures
        r == charge(store@, *id),
{
    match id {
        Some(s) => match store.get(&EntityId::from(s.as_str())) {
            Some(e) => PowerFlowVM::read_battery_pct(e),
            None => None,
        },
        None => None,
    }
}

/// The tile of a power-flow widget. Where the options name the lanes' entities,
/// the lanes are read from the store, each on its own: the others show though the
/// grid's is missing.
pub fn compute_power_flow_tile_vm_from_widget(
    args: PowerFlowBuildArgs<'_>,
    store: &MemoryStore,
) -> (r: PowerFlowTileVM)
    ensures
        r@ == settled(
            args.name@,
            Seq::empty(),
            args.icon_id@,
            args.preferred_columns,
            args.preferred_rows,
            args.placement,
            power_body(
                store@,
                match args.options {
                    Some(o) => Some(*o),
                    None => None,
                },
                match args.wrapper_entity {
                    Some(e) => Some(e@),
                    None => None,
                },
            ),
        ),
        r.name@ == args.name@,
        r.icon_id@ == args.icon_id@,
        r.preferred_columns == args.preferred_columns,
        r.preferred_rows == args.preferred_rows,
        r.placement == args.placement,
        !r.pending,
        args.options matches Some(
            WidgetOptions::PowerFlow {
                grid_entity,
                solar_entity,
                battery_entity,
                battery_soc_entity,
                home_entity,
            },
        ) ==> {
            &&& store@.contains_key(grid_entity@) ==> r.grid_w == state_reading(
                store@[grid_entity@],
            )
            &&& !store@.contains_key(grid_entity@) ==> r.grid_w is None
            &&& solar_entity matches Some(id) ==> if store@.contains_key(id@) {
                r.solar_w == state_reading(store@[id@])
            } else {
                r.solar_w is None
            }
            &&& solar_entity is None ==> r.solar_w is None
            &&& battery_entity matches Some(id) ==> if store@.contains_key(id@) {
                r.battery_w == state_reading(store@[id@])
            } else {
                r.battery_w is None
            }
            &&& battery_entity is None ==> r.battery_w is None
            &&& battery_soc_entity matches Some(id) ==> if store@.contains_key(id@) {
                r.battery_pct == state_charge(store@[id@])
            } else {
                r.battery_pct is None
            }
            &&& battery_soc_entity is None ==> r.battery_pct is None
            &&& home_entity matches Some(id) ==> if store@.contains_key(id@) {
                r.home_w == state_reading(store@[id@])
            } else {
                r.home_w is None
            }
            &&& home_entity is None ==> r.home_w is None
        },
        !(args.options matches Some(WidgetOptions::PowerFlow { .. })) ==> {
            &&& args.wrapper_entity matches Some(e) ==> r.grid_w == state_reading(e@)
            &&& args.wrapper_entity is None ==> r.grid_w is None
            &&& r.solar_w is None
            &&& r.battery_w is None
            &&& r.battery_pct is None
            &&& r.home_w is None
        },
{
    match args.options {
        Some(
            WidgetOptions::PowerFlow {
                grid_entity,
                solar_entity,
                battery_entity,
                battery_soc_entity,
                home_entity,
            },
        ) => {
            let auxiliary: PowerFlowAuxiliaryReadings = PowerFlowAuxiliaryReadings {
                solar_w: read_lane(store, solar_entity),
                battery_w: read_lane(store, battery_entity),
                battery_pct: read_charge(store, battery_soc_entity),
                home_w: read_lane(store, home_entity),
            };
            match store.get(&EntityId::from(grid_entity.as_str())) {
                Some(grid) => compute_power_flow_tile_vm(
                    args.name,
                    args.icon_id,
                    args.preferred_columns,
                    args.preferred_rows,
                    args.placement,
                    grid,
                    auxiliary,
                ),
                None => PowerFlowTileVM {
                    name: args.name,
                    grid_w: None,
                    solar_w: auxiliary.solar_w,
                    battery_w: auxiliary.battery_w,
                    battery_pct: auxiliary.battery_pct,
                    home_w: auxiliary.home_w,
                    icon_id: args.icon_id,
                    preferred_columns: args.preferred_columns,
                    preferred_rows: args.preferred_rows,
                    placement: args.placement,
                    pending: false,
                },
            }
        },
        _ => match args.wrapper_entity {
            Some(grid) => compute_power_flow_tile_vm(
                args.name,
                args.icon_id,
                args.preferred_columns,
                args.preferred_rows,
                args.placement,
                grid,
                PowerFlowAuxiliaryReadings::default(),
            ),
            None => PowerFlowTileVM {
                name: args.name,
                grid_w: None,
                solar_w: None,
                battery_w: None,
                battery_pct: None,
                home_w: None,
                icon_id: args.icon_id,
                preferred_columns: args.preferred_columns,
                preferred_rows: args.preferred_rows,
                placement: args.placement,
                pending: false,
            },
        },
    }
}

fn power_flow_tile(
    store: &MemoryStore,
    widget: &Widget,
    entity: Option<&Entity>,
    name: String,
    icon_id: String,
    placement: TilePlacement,
) -> (r: TileVM)
    ensures
        r@ == settled(
            name@,
            Seq::empty(),
            icon_id@,
            widget.layout.preferred_columns as i32,
            widget.layout.preferred_rows as i32,
            placement,
            power_body(
                store@,
                widget.options,
                match entity {
                    Some(e) => Some(e@),
                    None => None,
                },
            ),
        ),
{
    TileVM::PowerFlow(
        compute_power_flow_tile_vm_from_widget(
            PowerFlowBuildArgs {
                name,
                icon_id,
                preferred_columns: widget.layout.preferred_columns as i32,
                preferred_rows: widget.layout.preferred_rows as i32,
                placement,
                wrapper_entity: entity,
                options: match &widget.options {
                    Some(o) => Some(o),
                    None => None,
                },
            },
            store,
        ),
    )
}

/// The tile of a widget whose entity is known.
fn known_tile(store: &MemoryStore, widget: &Widget, entity: &Entity) -> (r: TileVM)
    requires
        store@.contains_key(widget.bound_id()),
        store@[widget.bound_id()] == entity@,
        entity@.id == widget.bound_id(),
    ensures
        r@ == tile_for(store@, *widget),
{
    let name: String = match &widget.name {
        Some(n) => n.clone(),
        None => match entity.friendly_name() {
            Some(n) => n,
            None => entity.id.text.clone(),
        },
    };
    let icon_id: String = match &widget.icon {
        Some(i) => i.clone(),
        None => default_icon_for_kind(EntityKind::from(&entity.id)),
    };
    let preferred_columns: i32 = widget.layout.preferred_columns as i32;
    let preferred_rows: i32 = widget.layout.preferred_rows as i32;
    let placement: TilePlacement = place_widget(widget);
    let state: String = entity.state.clone();
    match widget.widget_type {
        WidgetKind::LightTile => TileVM::Light(
            LightTileVM {
                name,
                state,
                icon_id,
                preferred_columns,
                preferred_rows,
                placement,
                pending: false,
            },
        ),
        WidgetKind::SensorTile => TileVM::Sensor(
            SensorTileVM {
                name,
                state,
                icon_id,
                preferred_columns,
                preferred_rows,
                placement,
                pending: false,
            },
        ),
        WidgetKind::EntityTile => TileVM::Entity(
            EntityTileVM {
                name,
                state,
                icon_id,
                preferred_columns,
                preferred_rows,
                placement,
                pending: false,
            },
        ),
        WidgetKind::Cover => TileVM::Cover(
            compute_cover_tile_vm(
                name,
                icon_id,
                preferred_columns,
                preferred_rows,
                placement,
                entity,
            ),
        ),
        WidgetKind::Fan => TileVM::Fan(
            compute_fan_tile_vm(
                name,
                icon_id,
                preferred_columns,
                preferred_rows,
                placement,
                entity,
            ),
        ),
        WidgetKind::Lock => TileVM::Lock(
            compute_lock_tile_vm(
                name,
                icon_id,
                preferred_columns,
                preferred_rows,
                placement,
                entity,
            ),
        ),
        WidgetKind::Alarm => TileVM::Alarm(
            compute_alarm_tile_vm(
                name,
                icon_id,
                preferred_columns,
                preferred_rows,
                placement,
                entity,
            ),
        ),
        WidgetKind::History => TileVM::History(
            compute_history_graph_tile_vm(
                name,
                icon_id,
                preferred_columns,
                preferred_rows,
                placement,
                entity,
                None,
            ),
        ),
        WidgetKind::Camera => TileVM::Camera(
            compute_camera_tile_vm(
                name,
                icon_id,
                preferred_columns,
                preferred_rows,
                placement,
                entity,
            ),
        ),
        WidgetKind::Climate => TileVM::Climate(
            compute_climate_tile_vm(
                name,
                icon_id,
                preferred_columns,
                preferred_rows,
                placement,
                entity,
            ),
        ),
        WidgetKind::MediaPlayer => TileVM::MediaPlayer(
            compute_media_player_tile_vm(
                name,
                icon_id,
                preferred_columns,
                preferred_rows,
                placement,
                entity,
            ),
        ),
        WidgetKind::PowerFlow => power_flow_tile(
            store,
            widget,
            Some(entity),
            name,
            icon_id,
            placement,
        ),
    }
}

/// The tile of a widget whose entity is not known: of the same kind, so that no
/// row moves when the entity comes or goes.
fn missing_tile(store: &MemoryStore, widget: &Widget) -> (r: TileVM)
    requires
        !store@.contains_key(widget.bound_id()),
    ensures
        r@ == tile_for(store@, *widget),
{
    let name: String = match &widget.name {
        Some(n) => n.clone(),
        None => match &widget.entity {
            Some(id) => id.clone(),
            None => String::new(),
        },
    };
    let icon_id: String = match &widget.icon {
        Some(i) => i.clone(),
        None => "mdi:help-circle".to_owned(),
    };
    let preferred_columns: i32 = widget.layout.preferred_columns as i32;
    let preferred_rows: i32 = widget.layout.preferred_rows as i32;
    let placement: TilePlacement = place_widget(widget);
    let state: String = "unavailable".to_owned();
    match widget.widget_type {
        WidgetKind::LightTile => TileVM::Light(
            LightTileVM {
                name,
                state,
                icon_id,
                preferred_columns,
                preferred_rows,
                placement,
                pending: false,
            },
        ),
        WidgetKind::SensorTile => TileVM::Sensor(
            SensorTileVM {
                name,
                state,
                icon_id,
                preferred_columns,
                preferred_rows,
                placement,
                pending: false,
            },
        ),
        WidgetKind::EntityTile => TileVM::Entity(
            EntityTileVM {
                name,
                state,
                icon_id,
                preferred_columns,
                preferred_rows,
                placement,
                pending: false,
            },
        ),
        WidgetKind::Cover => TileVM::Cover(
            CoverTileVM {
                name,
                state,
                position: 0,
                tilt: 0,
                has_position: false,
                has_tilt: false,
                is_open: false,
                is_moving: false,
                icon_id,
                preferred_columns,
                preferred_rows,
                placement,
                pending: false,
            },
        ),
        WidgetKind::Fan => TileVM::Fan(
            FanTileVM {
                name,
                state,
                speed_pct: 0,
                has_speed_pct: false,
                is_on: false,
                current_speed: String::new(),
                has_current_speed: false,
                icon_id,
                preferred_columns,
                preferred_rows,
                placement,
                pending: false,
            },
        ),
        WidgetKind::Lock => TileVM::Lock(
            LockTileVM {
                name,
                state,
                is_locked: false,
                icon_id,
                preferred_columns,
                preferred_rows,
                placement,
                pending: false,
            },
        ),
        WidgetKind::Alarm => TileVM::Alarm(
            AlarmTileVM {
                name,
                state,
                is_armed: false,
                is_triggered: false,
                is_pending: false,
                icon_id,
                preferred_columns,
                preferred_rows,
                placement,
                pending: false,
            },
        ),
        WidgetKind::History => TileVM::History(
            HistoryGraphTileVM {
                name,
                state,
                change_count: 0,
                is_available: false,
                path_commands: String::new(),
                icon_id,
                preferred_columns,
                preferred_rows,
                placement,
                pending: false,
            },
        ),
        WidgetKind::Camera => TileVM::Camera(
            CameraTileVM {
                name,
                state,
                is_recording: false,
                is_streaming: false,
                is_available: false,
                icon_id,
                preferred_columns,
                preferred_rows,
                placement,
                pending: false,
            },
        ),
        WidgetKind::Climate => TileVM::Climate(
            ClimateTileVM {
                name,
                state,
                is_active: false,
                current_temperature: None,
                target_temperature: None,
                icon_id,
                preferred_columns,
                preferred_rows,
                placement,
                pending: false,
            },
        ),
        WidgetKind::MediaPlayer => TileVM::MediaPlayer(
            MediaPlayerTileVM {
                name,
                state,
                is_playing: false,
                media_title: None,
                artist: None,
                volume_level: None,
                icon_id,
                preferred_columns,
                preferred_rows,
                placement,
                pending: false,
            },
        ),
        WidgetKind::PowerFlow => power_flow_tile(store, widget, None, name, icon_id, placement),
    }
}

fn place_widget(widget: &Widget) -> (r: TilePlacement)
    ensures
        r == widget_placement(*widget),
{
    match &widget.placement {
        Some(p) => TilePlacement::from_placement(p),
        None => TilePlacement::default_for(
            widget.layout.preferred_columns as i32,
            widget.layout.preferred_rows as i32,
        ),
    }
}

/// The tiles of a dashboard: one for each widget, in document order.
pub fn build_tiles(store: &MemoryStore, dashboard: &Dashboard) -> (r: Vec<TileVM>)
    ensures
        r@.len() == dashboard.widgets().len(),
        forall|i: int|
            0 <= i < r@.len() ==> (#[trigger] r@[i])@ == tile_for(store@, dashboard.widgets()[i]),
        forall|i: int|
            0 <= i < r@.len() && dashboard.widgets()[i].name is Some ==> (#[trigger] r@[i])@.name
                == dashboard.widgets()[i].name.unwrap()@,
        forall|i: int|
            0 <= i < r@.len() && dashboard.widgets()[i].icon is Some ==> (
            #[trigger] r@[i])@.icon_id == dashboard.widgets()[i].icon.unwrap()@,
        forall|i: int|
            0 <= i < r@.len() ==> (#[trigger] r@[i])@.preferred_columns
                == dashboard.widgets()[i].layout.preferred_columns && r@[i]@.preferred_rows
                == dashboard.widgets()[i].layout.preferred_rows && !r@[i]@.pending,
        forall|i: int|
            0 <= i < r@.len() && dashboard.widgets()[i].placement is Some ==> {
                let p = dashboard.widgets()[i].placement.unwrap();
                let place = (#[trigger] r@[i])@.placement;
                place.col == p.col && place.row == p.row && place.span_cols == p.span_cols
                    && place.span_rows == p.span_rows
            },
        forall|i: int|
            0 <= i < r@.len() && dashboard.widgets()[i].placement is None ==> {
                let layout = dashboard.widgets()[i].layout;
                let place = (#[trigger] r@[i])@.placement;
                place.col == 0 && place.row == 0 && place.span_cols == layout.preferred_columns
                    && place.span_rows == layout.preferred_rows
            },
        forall|v: int, s: int, w: int|
            0 <= v < dashboard.views@.len() && 0 <= s < dashboard.views@[v].sections@.len() && 0
                <= w < dashboard.views@[v].sections@[s].widgets@.len() ==> (
            #[trigger] r@[widget_place(dashboard.views@, v, s, w)])@ == tile_for(
                store@,
                dashboard.views@[v].sections@[s].widgets@[w],
            ),
{
    let widgets: Vec<&Widget> = dashboard.widget_list();
    let mut tiles: Vec<TileVM> = Vec::new();
    let mut i: usize = 0;
    while i < widgets.len()
        invariant
            i <= widgets@.len() == dashboard.widgets().len(),
            forall|j: int|
                0 <= j < widgets@.len() ==> *(#[trigger] widgets@[j]) == dashboard.widgets()[j],
            tiles@.len() == i,
            forall|j: int|
                0 <= j < i ==> (#[trigger] tiles@[j])@ == tile_for(store@, dashboard.widgets()[j]),
        decreases widgets@.len() - i,
    {
        let widget: &Widget = widgets[i];
        let id: EntityId = match &widget.entity {
            Some(s) => EntityId::from(s.as_str()),
            None => EntityId { text: String::new() },
        };
        assert(id@ == widget.bound_id());
        let tile: TileVM = match store.get(&id) {
            Some(entity) => known_tile(store, widget, entity),
            None => missing_tile(store, widget),
        };
        tiles.push(tile);
        i = i + 1;
    }
    proof {
        assert forall|v: int, s: int, w: int|
            0 <= v < dashboard.views@.len() && 0 <= s < dashboard.views@[v].sections@.len() && 0
                <= w < dashboard.views@[v].sections@[s].widgets@.len() implies (
        #[trigger] tiles@[widget_place(dashboard.views@, v, s, w)])@ == tile_for(
            store@,
            dashboard.views@[v].sections@[s].widgets@[w],
        ) by {
            widget_stands_at_its_place(dashboard.views@, v, s, w);
        }
    }
    tiles
}

/// A configured name and a configured icon are shown, whatever is known of the entity.
pub proof fn configured_name_and_icon_are_shown(
    entities: Map<Seq<char>, EntityModel>,
    w: Widget,
)
    ensures
        w.name matches Some(n) ==> tile_for(entities, w).name == n@,
        w.icon matches Some(i) ==> tile_for(entities, w).icon_id == i@,
{
}

/// What is configured does not change with the entities: two snapshots give a widget
/// tiles at one place, of one size, and with the name and the icon that are configured.
pub proof fn configuration_outlives_a_snapshot(
    a: Map<Seq<char>, EntityModel>,
    b: Map<Seq<char>, EntityModel>,
    w: Widget,
)
    ensures
        w.name is Some ==> tile_for(a, w).name == tile_for(b, w).name,
        w.icon is Some ==> tile_for(a, w).icon_id == tile_for(b, w).icon_id,
        tile_for(a, w).placement == tile_for(b, w).placement,
        tile_for(a, w).preferred_columns == tile_for(b, w).preferred_columns,
        tile_for(a, w).preferred_rows == tile_for(b, w).preferred_rows,
        tile_for(a, w).pending == tile_for(b, w).pending,
{
}

/// A widget without a name goes by the friendly name of its entity, or else by its id.
pub proof fn unnamed_widget_goes_by_its_entity(
    entities: Map<Seq<char>, EntityModel>,
    w: Widget,
    id: Seq<char>,
)
    requires
        w.name is None,
        id == match w.entity {
            Some(s) => s@,
            None => Seq::empty(),
        },
    ensures
        !entities.contains_key(id) ==> tile_for(entities, w).name == id,
        entities.contains_key(id) && entities[id].attributes.contains_key("friendly_name"@) ==> (
        entities[id].attributes["friendly_name"@] matches AttrModel::Text(n) ==> tile_for(
            entities,
            w,
        ).name == n),
        entities.contains_key(id) && entities[id].attributes.contains_key("friendly_name"@) && !(
        entities[id].attributes["friendly_name"@] is Text) ==> tile_for(entities, w).name == id,
        entities.contains_key(id) && !entities[id].attributes.contains_key("friendly_name"@)
            ==> tile_for(entities, w).name == id,
{
}

/// A widget without an icon gets the one of its entity's domain, and the mark of the
/// unknown where the domain has none or the entity is missing.
pub proof fn default_icon_follows_the_domain(
    entities: Map<Seq<char>, EntityModel>,
    w: Widget,
    id: Seq<char>,
    rest: Seq<char>,
)
    requires
        w.icon is None,
        id == match w.entity {
            Some(s) => s@,
            None => Seq::empty(),
        },
    ensures
        entities.contains_key(id) && id == "light."@ + rest ==> tile_for(entities, w).icon_id
            == "mdi:lightbulb"@,
        entities.contains_key(id) && id == "sensor."@ + rest ==> tile_for(entities, w).icon_id
            == "mdi:thermometer"@,
        !entities.contains_key(id) ==> tile_for(entities, w).icon_id == "mdi:help-circle"@,
        (forall|tail: Seq<char>| id != "light."@ + tail && id != "sensor."@ + tail) ==> tile_for(
            entities,
            w,
        ).icon_id == "mdi:help-circle"@,
{
    kind_follows_the_domain(id, rest);
    kind_needs_the_domain(id);
}

/// A tile shows the state of its entity, and `unavailable` where the entity is
/// missing. A power-flow tile shows none.
pub proof fn tile_shows_the_state_of_its_entity(
    entities: Map<Seq<char>, EntityModel>,
    w: Widget,
    id: Seq<char>,
)
    requires
        id == match w.entity {
            Some(s) => s@,
            None => Seq::empty(),
        },
    ensures
        w.widget_type != WidgetKind::PowerFlow && entities.contains_key(id) ==> tile_for(
            entities,
            w,
        ).state == entities[id].state,
        w.widget_type != WidgetKind::PowerFlow && !entities.contains_key(id) ==> tile_for(
            entities,
            w,
        ).state == "unavailable"@,
        w.widget_type == WidgetKind::PowerFlow ==> tile_for(entities, w).state.len() == 0,
{
}

/// The kind of a widget decides the kind of its tile, whether or not the entity is
/// known.
pub proof fn widget_kind_decides_the_tile(entities: Map<Seq<char>, EntityModel>, w: Widget)
    ensures
        w.widget_type is LightTile <==> tile_for(entities, w).body is Light,
        w.widget_type is SensorTile <==> tile_for(entities, w).body is Sensor,
        w.widget_type is EntityTile <==> tile_for(entities, w).body is Entity,
        w.widget_type is Cover <==> tile_for(entities, w).body is Cover,
        w.widget_type is Fan <==> tile_for(entities, w).body is Fan,
        w.widget_type is Lock <==> tile_for(entities, w).body is Lock,
        w.widget_type is Alarm <==> tile_for(entities, w).body is Alarm,
        w.widget_type is History <==> tile_for(entities, w).body is History,
        w.widget_type is Camera <==> tile_for(entities, w).body is Camera,
        w.widget_type is Climate <==> tile_for(entities, w).body is Climate,
        w.widget_type is MediaPlayer <==> tile_for(entities, w).body is MediaPlayer,
        w.widget_type is PowerFlow <==> tile_for(entities, w).body is PowerFlow,
{
}

/// No flag is raised, and nothing is read, of an entity that is missing.
pub proof fn missing_entity_raises_no_flag(entities: Map<Seq<char>, EntityModel>, w: Widget)
    requires
        !entities.contains_key(
            match w.entity {
                Some(s) => s@,
                None => Seq::empty(),
            },
        ),
    ensures
        tile_for(entities, w).body matches TileBody::Cover {
            position,
            tilt,
            has_position,
            has_tilt,
            is_open,
            is_moving,
        } ==> position == 0 && tilt == 0 && !has_position && !has_tilt && !is_open && !is_moving,
        tile_for(entities, w).body matches TileBody::Fan {
            speed_pct,
            has_speed_pct,
            is_on,
            current_speed,
            has_current_speed,
        } ==> speed_pct == 0 && !has_speed_pct && !is_on && current_speed.len() == 0
            && !has_current_speed,
        tile_for(entities, w).body matches TileBody::Lock { is_locked } ==> !is_locked,
        tile_for(entities, w).body matches TileBody::Alarm {
            is_armed,
            is_triggered,
            is_pending,
        } ==> !is_armed && !is_triggered && !is_pending,
        tile_for(entities, w).body matches TileBody::History {
            change_count,
            is_available,
            path_commands,
        } ==> change_count == 0 && !is_available && path_commands.len() == 0,
        tile_for(entities, w).body matches TileBody::Camera {
            is_recording,
            is_streaming,
            is_available,
        } ==> !is_recording && !is_streaming && !is_available,
        tile_for(entities, w).body matches TileBody::Climate {
            is_active,
            current_temperature,
            target_temperature,
        } ==> !is_active && current_temperature is None && target_temperature is None,
        tile_for(entities, w).body matches TileBody::MediaPlayer {
            is_playing,
            media_title,
            artist,
            volume_level,
        } ==> !is_playing && media_title is None && artist is None && volume_level is None,
{
}

/// The flags of a tile say what the state of its entity says.
pub proof fn flags_follow_the_state(
    entities: Map<Seq<char>, EntityModel>,
    w: Widget,
    id: Seq<char>,
    state: Seq<char>,
)
    requires
        id == match w.entity {
            Some(s) => s@,
            None => Seq::empty(),
        },
        entities.contains_key(id),
        entities[id].state == state,
    ensures
        tile_for(entities, w).body matches TileBody::Cover { is_open, is_moving, .. } ==> {
            &&& is_open <==> (state == "open"@ || state == "opening"@)
            &&& is_moving <==> (state == "opening"@ || state == "closing"@)
        },
        tile_for(entities, w).body matches TileBody::Fan { is_on, .. } ==> (is_on <==> (state
            == "on"@ || state == "auto"@)),
        tile_for(entities, w).body matches TileBody::Lock { is_locked } ==> (is_locked <==> (
        state == "locked"@ || state == "locking"@)),
        tile_for(entities, w).body matches TileBody::Alarm {
            is_armed,
            is_triggered,
            is_pending,
        } ==> {
            &&& is_armed <==> (state == "armed_home"@ || state == "armed_away"@ || state
                == "armed_night"@ || state == "armed_vacation"@ || state == "armed_custom_bypass"@)
            &&& is_triggered <==> state == "triggered"@
            &&& is_pending <==> state == "pending"@
        },
        tile_for(entities, w).body matches TileBody::History {
            change_count,
            is_available,
            path_commands,
        } ==> {
            &&& is_available <==> state != "unavailable"@ && state != "unknown"@
            &&& change_count == 0
            &&& path_commands.len() == 0
        },
        tile_for(entities, w).body matches TileBody::Camera {
            is_recording,
            is_streaming,
            is_available,
        } ==> {
            &&& is_recording <==> state == "recording"@
            &&& is_streaming <==> state == "streaming"@
            &&& is_available <==> state != "unavailable"@ && state != "unknown"@
        },
        tile_for(entities, w).body matches TileBody::Climate { is_active, .. } ==> (is_active
            <==> state != "off"@ && state != "unavailable"@ && state != "unknown"@),
        tile_for(entities, w).body matches TileBody::MediaPlayer { is_playing, .. } ==> (
        is_playing <==> state == "playing"@),
{
}

/// The readings of a tile are those of the attributes that carry them.
pub proof fn readings_follow_the_attributes(
    entities: Map<Seq<char>, EntityModel>,
    w: Widget,
    id: Seq<char>,
    e: EntityModel,
)
    requires
        id == match w.entity {
            Some(s) => s@,
            None => Seq::empty(),
        },
        entities.contains_key(id),
        entities[id] == e,
    ensures
        tile_for(entities, w).body matches TileBody::Cover {
            position,
            tilt,
            has_position,
            has_tilt,
            ..
        } ==> {
            &&& has_position == e.percent("current_position"@) is Some
            &&& e.percent("current_position"@) matches Some(p) ==> position == p
            &&& !has_position && e.state == "open"@ ==> position == 100
            &&& !has_position && e.state != "open"@ ==> position == 0
            &&& has_tilt == e.percent("current_tilt_position"@) is Some
            &&& e.percent("current_tilt_position"@) matches Some(p) ==> tilt == p
            &&& !has_tilt ==> tilt == 0
        },
        tile_for(entities, w).body matches TileBody::Fan {
            speed_pct,
            has_speed_pct,
            current_speed,
            has_current_speed,
            ..
        } ==> {
            &&& has_speed_pct == e.percent("percentage"@) is Some
            &&& e.percent("percentage"@) matches Some(p) ==> speed_pct == p
            &&& !has_speed_pct ==> speed_pct == 0
            &&& has_current_speed == e.text("preset_mode"@) is Some
            &&& e.text("preset_mode"@) matches Some(s) ==> current_speed == s
            &&& !has_current_speed ==> current_speed.len() == 0
        },
        tile_for(entities, w).body matches TileBody::Climate {
            current_temperature,
            target_temperature,
            ..
        } ==> {
            &&& current_temperature == e.reading("current_temperature"@)
            &&& target_temperature == e.reading("temperature"@)
        },
        tile_for(entities, w).body matches TileBody::MediaPlayer {
            media_title,
            artist,
            volume_level,
            ..
        } ==> {
            &&& media_title == e.text("media_title"@)
            &&& artist == e.text("media_artist"@)
            &&& volume_level == volume(e)
        },
{
}

/// Each lane of a power-flow tile is read from the entity that the options name for
/// it, and has no reading where that entity is missing or none is named.
pub proof fn lanes_are_read_from_their_own_entities(
    entities: Map<Seq<char>, EntityModel>,
    w: Widget,
    id: Seq<char>,
)
    requires
        w.widget_type == WidgetKind::PowerFlow,
        id == match w.entity {
            Some(s) => s@,
            None => Seq::empty(),
        },
    ensures
        tile_for(entities, w).body matches TileBody::PowerFlow {
            grid_w,
            solar_w,
            battery_w,
            battery_pct,
            home_w,
        } && {
            &&& w.options matches Some(
                WidgetOptions::PowerFlow {
                    grid_entity,
                    solar_entity,
                    battery_entity,
                    battery_soc_entity,
                    home_entity,
                },
            ) ==> {
                &&& entities.contains_key(grid_entity@) ==> grid_w == state_reading(
                    entities[grid_entity@],
                )
                &&& !entities.contains_key(grid_entity@) ==> grid_w is None
                &&& solar_entity matches Some(id) ==> if entities.contains_key(id@) {
                    solar_w == state_reading(entities[id@])
                } else {
                    solar_w is None
                }
                &&& solar_entity is None ==> solar_w is None
                &&& battery_entity matches Some(id) ==> if entities.contains_key(id@) {
                    battery_w == state_reading(entities[id@])
                } else {
                    battery_w is None
                }
                &&& battery_entity is None ==> battery_w is None
                &&& battery_soc_entity matches Some(id) ==> if entities.contains_key(id@) {
                    battery_pct == state_charge(entities[id@])
                } else {
                    battery_pct is None
                }
                &&& battery_soc_entity is None ==> battery_pct is None
                &&& home_entity matches Some(id) ==> if entities.contains_key(id@) {
                    home_w == state_reading(entities[id@])
                } else {
                    home_w is None
                }
                &&& home_entity is None ==> home_w is None
            }
            &&& !(w.options matches Some(WidgetOptions::PowerFlow { .. })) ==> {
                &&& solar_w is None
                &&& battery_w is None
                &&& battery_pct is None
                &&& home_w is None
                &&& if entities.contains_key(id) {
                    grid_w == state_reading(entities[id])
                } else {
                    grid_w is None
                }
            }
        },
{
}

} // verus!
