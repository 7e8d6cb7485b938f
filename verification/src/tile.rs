//! Tiles: the view models that the window draws.
use crate::alarm::{armed, pending_state, triggered};
use crate::camera::{recording, streaming};
use crate::climate::active;
use crate::cover::{cover_position, moving_cover, open_cover};
use crate::entity::EntityModel;
use crate::fan::running;
use crate::history::{path_text, HistoryWindow};
use crate::lock::locked;
use crate::media_player::{playing, volume};
use crate::number::Real32;
use crate::power_flow::state_reading;
use crate::schema::{Placement, WidgetKind};
use crate::text::{copy_opt, opt_text};
use vstd::prelude::*;

verus! {

/// Where a tile sits in the grid of its section, and how much of it it takes.
#[derive(Clone, Copy, Debug, PartialEq, Eq, Structural)]
pub struct TilePlacement {
    pub col: i32,
    pub row: i32,
    pub span_cols: i32,
    pub span_rows: i32,
}

impl TilePlacement {
    /// A configured place.
    pub open spec fn fixed(p: Placement) -> TilePlacement {
        TilePlacement {
            col: p.col as i32,
            row: p.row as i32,
            span_cols: p.span_cols as i32,
            span_rows: p.span_rows as i32,
        }
    }

    /// The place of a tile that only has a preferred size.
    pub open spec fn sized(columns: i32, rows: i32) -> TilePlacement {
        TilePlacement { col: 0, row: 0, span_cols: columns, span_rows: rows }
    }

    pub fn from_placement(p: &Placement) -> (r: TilePlacement)
        ensures
            r == Self::fixed(*p),
            r.col == p.col,
            r.row == p.row,
            r.span_cols == p.span_cols,
            r.span_rows == p.span_rows,
    {
        TilePlacement {
            col: p.col as i32,
            row: p.row as i32,
            span_cols: p.span_cols as i32,
            span_rows: p.span_rows as i32,
        }
    }

    pub fn default_for(preferred_columns: i32, preferred_rows: i32) -> (r: TilePlacement)
        ensures
            r == Self::sized(preferred_columns, preferred_rows),
            r.col == 0,
            r.row == 0,
            r.span_cols == preferred_columns,
            r.span_rows == preferred_rows,
    {
        TilePlacement { col: 0, row: 0, span_cols: preferred_columns, span_rows: preferred_rows }
    }
}

/// The kind of a tile, which is the model that its row lives in.
#[derive(Clone, Copy, Debug, PartialEq, Eq, Hash, Structural)]
pub enum TileKind {
    Light,
    Sensor,
    Entity,
    Cover,
    Fan,
    Lock,
    Alarm,
    History,
    Camera,
    Climate,
    MediaPlayer,
    PowerFlow,
}

/// The kind of tile that a widget becomes, whether or not its entity is known.
pub open spec fn kind_of_widget(kind: WidgetKind) -> TileKind {
    match kind {
        WidgetKind::LightTile => TileKind::Light,
        WidgetKind::SensorTile => TileKind::Sensor,
        WidgetKind::EntityTile => TileKind::Entity,
        WidgetKind::Cover => TileKind::Cover,
        WidgetKind::Fan => TileKind::Fan,
        WidgetKind::Lock => TileKind::Lock,
        WidgetKind::Alarm => TileKind::Alarm,
        WidgetKind::History => TileKind::History,
        WidgetKind::Camera => TileKind::Camera,
        WidgetKind::Climate => TileKind::Climate,
        WidgetKind::MediaPlayer => TileKind::MediaPlayer,
        WidgetKind::PowerFlow => TileKind::PowerFlow,
    }
}

/// The kind of tile that a widget becomes.
pub fn tile_kind_for_widget(kind: &WidgetKind) -> (r: TileKind)
    ensures
        r == kind_of_widget(*kind),
        r is Light <==> *kind is LightTile,
        r is Sensor <==> *kind is SensorTile,
        r is Entity <==> *kind is EntityTile,
        r is Cover <==> *kind is Cover,
        r is Fan <==> *kind is Fan,
        r is Lock <==> *kind is Lock,
        r is Alarm <==> *kind is Alarm,
        r is History <==> *kind is History,
        r is Camera <==> *kind is Camera,
        r is Climate <==> *kind is Climate,
        r is MediaPlayer <==> *kind is MediaPlayer,
        r is PowerFlow <==> *kind is PowerFlow,
{
    match kind {
        WidgetKind::LightTile => TileKind::Light,
        WidgetKind::SensorTile => TileKind::Sensor,
        WidgetKind::EntityTile => TileKind::Entity,
        WidgetKind::Cover => TileKind::Cover,
        WidgetKind::Fan => TileKind::Fan,
        WidgetKind::Lock => TileKind::Lock,
        WidgetKind::Alarm => TileKind::Alarm,
        WidgetKind::History => TileKind::History,
        WidgetKind::Camera => TileKind::Camera,
        WidgetKind::Climate => TileKind::Climate,
        WidgetKind::MediaPlayer => TileKind::MediaPlayer,
        WidgetKind::PowerFlow => TileKind::PowerFlow,
    }
}

/// The word by which the window picks the component that draws a tile.
pub open spec fn kind_text(kind: TileKind) -> Seq<char> {
    match kind {
        TileKind::Light => "light"@,
        TileKind::Sensor => "sensor"@,
        TileKind::Entity => "entity"@,
        TileKind::Cover => "cover"@,
        TileKind::Fan => "fan"@,
        TileKind::Lock => "lock"@,
        TileKind::Alarm => "alarm"@,
        TileKind::History => "history"@,
        TileKind::Camera => "camera"@,
        TileKind::Climate => "climate"@,
        TileKind::MediaPlayer => "media_player"@,
        TileKind::PowerFlow => "power_flow"@,
    }
}

/// The tile of a light.
#[derive(Debug, PartialEq)]
pub struct LightTileVM {
    pub name: String,
    pub state: String,
    pub icon_id: String,
    pub preferred_columns: i32,
    pub preferred_rows: i32,
    pub placement: TilePlacement,
    pub pending: bool,
}

/// The tile of a sensor.
#[derive(Debug, PartialEq)]
pub struct SensorTileVM {
    pub name: String,
    pub state: String,
    pub icon_id: String,
    pub preferred_columns: i32,
    pub preferred_rows: i32,
    pub placement: TilePlacement,
    pub pending: bool,
}

/// The tile of an entity of any kind.
#[derive(Debug, PartialEq)]
pub struct EntityTileVM {
    pub name: String,
    pub state: String,
    pub icon_id: String,
    pub preferred_columns: i32,
    pub preferred_rows: i32,
    pub placement: TilePlacement,
    pub pending: bool,
}

/// The tile of a cover.
#[derive(Debug, PartialEq)]
pub struct CoverTileVM {
    pub name: String,
    pub state: String,
    pub position: i32,
    pub tilt: i32,
    pub has_position: bool,
    pub has_tilt: bool,
    pub is_open: bool,
    pub is_moving: bool,
    pub icon_id: String,
    pub preferred_columns: i32,
    pub preferred_rows: i32,
    pub placement: TilePlacement,
    pub pending: bool,
}

/// The tile of a fan.
#[derive(Debug, PartialEq)]
pub struct FanTileVM {
    pub name: String,
    pub state: String,
    pub speed_pct: i32,
    pub has_speed_pct: bool,
    pub is_on: bool,
    pub current_speed: String,
    pub has_current_speed: bool,
    pub icon_id: String,
    pub preferred_columns: i32,
    pub preferred_rows: i32,
    pub placement: TilePlacement,
    pub pending: bool,
}

/// The tile of a lock.
#[derive(Debug, PartialEq, Eq)]
pub struct LockTileVM {
    pub name: String,
    pub state: String,
    pub is_locked: bool,
    pub icon_id: String,
    pub preferred_columns: i32,
    pub preferred_rows: i32,
    pub placement: TilePlacement,
    pub pending: bool,
}

/// The tile of an alarm panel.
#[derive(Debug, PartialEq, Eq)]
pub struct AlarmTileVM {
    pub name: String,
    pub state: String,
    pub is_armed: bool,
    pub is_triggered: bool,
    pub is_pending: bool,
    pub icon_id: String,
    pub preferred_columns: i32,
    pub preferred_rows: i32,
    pub placement: TilePlacement,
    pub pending: bool,
}

/// The tile of a history graph.
#[derive(Debug, PartialEq, Eq)]
pub struct HistoryGraphTileVM {
    pub name: String,
    pub state: String,
    pub change_count: i32,
    pub is_available: bool,
    pub path_commands: String,
    pub icon_id: String,
    pub preferred_columns: i32,
    pub preferred_rows: i32,
    pub placement: TilePlacement,
    pub pending: bool,
}

/// The tile of a camera.
#[derive(Debug, PartialEq, Eq)]
pub struct CameraTileVM {
    pub name: String,
    pub state: String,
    pub is_recording: bool,
    pub is_streaming: bool,
    pub is_available: bool,
    pub icon_id: String,
    pub preferred_columns: i32,
    pub preferred_rows: i32,
    pub placement: TilePlacement,
    pub pending: bool,
}

/// The tile of a climate device.
#[derive(Debug, PartialEq)]
pub struct ClimateTileVM {
    pub name: String,
    pub state: String,
    pub is_active: bool,
    pub current_temperature: Option<Real32>,
    pub target_temperature: Option<Real32>,
    pub icon_id: String,
    pub preferred_columns: i32,
    pub preferred_rows: i32,
    pub placement: TilePlacement,
    pub pending: bool,
}

/// The tile of a media player.
#[derive(Debug, PartialEq)]
pub struct MediaPlayerTileVM {
    pub name: String,
    pub state: String,
    pub is_playing: bool,
    pub media_title: Option<String>,
    pub artist: Option<String>,
    pub volume_level: Option<Real32>,
    pub icon_id: String,
    pub preferred_columns: i32,
    pub preferred_rows: i32,
    pub placement: TilePlacement,
    pub pending: bool,
}

/// The tile of a power flow.
#[derive(Debug, PartialEq)]
pub struct PowerFlowTileVM {
    pub name: String,
    pub grid_w: Option<Real32>,
    pub solar_w: Option<Real32>,
    pub battery_w: Option<Real32>,
    pub battery_pct: Option<Real32>,
    pub home_w: Option<Real32>,
    pub icon_id: String,
    pub preferred_columns: i32,
    pub preferred_rows: i32,
    pub placement: TilePlacement,
    pub pending: bool,
}

/// No two kinds share a word.
pub proof fn kind_words_differ(a: TileKind, b: TileKind)
    requires
        a != b,
    ensures
        kind_text(a) != kind_text(b),
{
    reveal_strlit("light");
    reveal_strlit("sensor");
    reveal_strlit("entity");
    reveal_strlit("cover");
    reveal_strlit("fan");
    reveal_strlit("lock");
    reveal_strlit("alarm");
    reveal_strlit("history");
    reveal_strlit("camera");
    reveal_strlit("climate");
    reveal_strlit("media_player");
    reveal_strlit("power_flow");
    let x = kind_text(a);
    let y = kind_text(b);
    assert(x.len() != y.len() || x[0] != y[0]);
}

/// What distinguishes a tile of its kind.
pub enum TileBody {
    Light,
    Sensor,
    Entity,
    Cover {
        position: int,
        tilt: int,
        has_position: bool,
        has_tilt: bool,
        is_open: bool,
        is_moving: bool,
    },
    Fan {
        speed_pct: int,
        has_speed_pct: bool,
        is_on: bool,
        current_speed: Seq<char>,
        has_current_speed: bool,
    },
    Lock { is_locked: bool },
    Alarm { is_armed: bool, is_triggered: bool, is_pending: bool },
    History { change_count: int, is_available: bool, path_commands: Seq<char> },
    Camera { is_recording: bool, is_streaming: bool, is_available: bool },
    Climate {
        is_active: bool,
        current_temperature: Option<Real32>,
        target_temperature: Option<Real32>,
    },
    MediaPlayer {
        is_playing: bool,
        media_title: Option<Seq<char>>,
        artist: Option<Seq<char>>,
        volume_level: Option<Real32>,
    },
    PowerFlow {
        grid_w: Option<Real32>,
        solar_w: Option<Real32>,
        battery_w: Option<Real32>,
        battery_pct: Option<Real32>,
        home_w: Option<Real32>,
    },
}

/// What a tile shows. A power-flow tile has no state text: its state is empty.
pub struct TileModel {
    pub name: Seq<char>,
    pub state: Seq<char>,
    pub icon_id: Seq<char>,
    pub preferred_columns: i32,
    pub preferred_rows: i32,
    pub placement: TilePlacement,
    pub pending: bool,
    pub body: TileBody,
}

impl TileBody {
    /// The kind of tile that has this body.
    pub open spec fn kind(self) -> TileKind {
        match self {
            TileBody::Light => TileKind::Light,
            TileBody::Sensor => TileKind::Sensor,
            TileBody::Entity => TileKind::Entity,
            TileBody::Cover { .. } => TileKind::Cover,
            TileBody::Fan { .. } => TileKind::Fan,
            TileBody::Lock { .. } => TileKind::Lock,
            TileBody::Alarm { .. } => TileKind::Alarm,
            TileBody::History { .. } => TileKind::History,
            TileBody::Camera { .. } => TileKind::Camera,
            TileBody::Climate { .. } => TileKind::Climate,
            TileBody::MediaPlayer { .. } => TileKind::MediaPlayer,
            TileBody::PowerFlow { .. } => TileKind::PowerFlow,
        }
    }
}

impl TileModel {
    /// The same tile at another place.
    pub open spec fn at(self, placement: TilePlacement) -> TileModel {
        TileModel { placement, ..self }
    }
}

impl View for LightTileVM {
    type V = TileModel;

    open spec fn view(&self) -> TileModel {
        TileModel {
            name: self.name@,
            state: self.state@,
            icon_id: self.icon_id@,
            preferred_columns: self.preferred_columns,
            preferred_rows: self.preferred_rows,
            placement: self.placement,
            pending: self.pending,
            body: TileBody::Light,
        }
    }
}

impl LightTileVM {
    fn place(&mut self, placement: TilePlacement)
        ensures
            final(self)@ == old(self)@.at(placement),
    {
        self.placement = placement;
    }
}

impl Clone for LightTileVM {
    fn clone(&self) -> (r: LightTileVM)
        ensures
            r == *self,
    {
        LightTileVM {
            name: self.name.clone(),
            state: self.state.clone(),
            icon_id: self.icon_id.clone(),
            preferred_columns: self.preferred_columns,
            preferred_rows: self.preferred_rows,
            placement: self.placement,
            pending: self.pending,
        }
    }
}

impl View for SensorTileVM {
    type V = TileModel;

    open spec fn view(&self) -> TileModel {
        TileModel {
            name: self.name@,
            state: self.state@,
            icon_id: self.icon_id@,
            preferred_columns: self.preferred_columns,
            preferred_rows: self.preferred_rows,
            placement: self.placement,
            pending: self.pending,
            body: TileBody::Sensor,
        }
    }
}

impl SensorTileVM {
    fn place(&mut self, placement: TilePlacement)
        ensures
            final(self)@ == old(self)@.at(placement),
    {
        self.placement = placement;
    }
}

impl Clone for SensorTileVM {
    fn clone(&self) -> (r: SensorTileVM)
        ensures
            r == *self,
    {
        SensorTileVM {
            name: self.name.clone(),
            state: self.state.clone(),
            icon_id: self.icon_id.clone(),
            preferred_columns: self.preferred_columns,
            preferred_rows: self.preferred_rows,
            placement: self.placement,
            pending: self.pending,
        }
    }
}

impl View for EntityTileVM {
    type V = TileModel;

    open spec fn view(&self) -> TileModel {
        TileModel {
            name: self.name@,
            state: self.state@,
            icon_id: self.icon_id@,
            preferred_columns: self.preferred_columns,
            preferred_rows: self.preferred_rows,
            placement: self.placement,
            pending: self.pending,
            body: TileBody::Entity,
        }
    }
}

impl EntityTileVM {
    fn place(&mut self, placement: TilePlacement)
        ensures
            final(self)@ == old(self)@.at(placement),
    {
        self.placement = placement;
    }
}

impl Clone for EntityTileVM {
    fn clone(&self) -> (r: EntityTileVM)
        ensures
            r == *self,
    {
        EntityTileVM {
            name: self.name.clone(),
            state: self.state.clone(),
            icon_id: self.icon_id.clone(),
            preferred_columns: self.preferred_columns,
            preferred_rows: self.preferred_rows,
            placement: self.placement,
            pending: self.pending,
        }
    }
}

impl View for CoverTileVM {
    type V = TileModel;

    open spec fn view(&self) -> TileModel {
        TileModel {
            name: self.name@,
            state: self.state@,
            icon_id: self.icon_id@,
            preferred_columns: self.preferred_columns,
            preferred_rows: self.preferred_rows,
            placement: self.placement,
            pending: self.pending,
            body: TileBody::Cover {
                position: self.position as int,
                tilt: self.tilt as int,
                has_position: self.has_position,
                has_tilt: self.has_tilt,
                is_open: self.is_open,
                is_moving: self.is_moving,
            },
        }
    }
}

impl CoverTileVM {
    fn place(&mut self, placement: TilePlacement)
        ensures
            final(self)@ == old(self)@.at(placement),
    {
        self.placement = placement;
    }
}

impl Clone for CoverTileVM {
    fn clone(&self) -> (r: CoverTileVM)
        ensures
            r == *self,
    {
        CoverTileVM {
            name: self.name.clone(),
            state: self.state.clone(),
            position: self.position,
            tilt: self.tilt,
            has_position: self.has_position,
            has_tilt: self.has_tilt,
            is_open: self.is_open,
            is_moving: self.is_moving,
            icon_id: self.icon_id.clone(),
            preferred_columns: self.preferred_columns,
            preferred_rows: self.preferred_rows,
            placement: self.placement,
            pending: self.pending,
        }
    }
}

impl View for FanTileVM {
    type V = TileModel;

    open spec fn view(&self) -> TileModel {
        TileModel {
            name: self.name@,
            state: self.state@,
            icon_id: self.icon_id@,
            preferred_columns: self.preferred_columns,
            preferred_rows: self.preferred_rows,
            placement: self.placement,
            pending: self.pending,
            body: TileBody::Fan {
                speed_pct: self.speed_pct as int,
                has_speed_pct: self.has_speed_pct,
                is_on: self.is_on,
                current_speed: self.current_speed@,
                has_current_speed: self.has_current_speed,
            },
        }
    }
}

impl FanTileVM {
    fn place(&mut self, placement: TilePlacement)
        ensures
            final(self)@ == old(self)@.at(placement),
    {
        self.placement = placement;
    }
}

impl Clone for FanTileVM {
    fn clone(&self) -> (r: FanTileVM)
        ensures
            r == *self,
    {
        FanTileVM {
            name: self.name.clone(),
            state: self.state.clone(),
            speed_pct: self.speed_pct,
            has_speed_pct: self.has_speed_pct,
            is_on: self.is_on,
            current_speed: self.current_speed.clone(),
            has_current_speed: self.has_current_speed,
            icon_id: self.icon_id.clone(),
            preferred_columns: self.preferred_columns,
            preferred_rows: self.preferred_rows,
            placement: self.placement,
            pending: self.pending,
        }
    }
}

impl View for LockTileVM {
    type V = TileModel;

    open spec fn view(&self) -> TileModel {
        TileModel {
            name: self.name@,
            state: self.state@,
            icon_id: self.icon_id@,
            preferred_columns: self.preferred_columns,
            preferred_rows: self.preferred_rows,
            placement: self.placement,
            pending: self.pending,
            body: TileBody::Lock {
                is_locked: self.is_locked,
            },
        }
    }
}

impl LockTileVM {
    fn place(&mut self, placement: TilePlacement)
        ensures
            final(self)@ == old(self)@.at(placement),
    {
        self.placement = placement;
    }
}

impl Clone for LockTileVM {
    fn clone(&self) -> (r: LockTileVM)
        ensures
            r == *self,
    {
        LockTileVM {
            name: self.name.clone(),
            state: self.state.clone(),
            is_locked: self.is_locked,
            icon_id: self.icon_id.clone(),
            preferred_columns: self.preferred_columns,
            preferred_rows: self.preferred_rows,
            placement: self.placement,
            pending: self.pending,
        }
    }
}

impl View for AlarmTileVM {
    type V = TileModel;

    open spec fn view(&self) -> TileModel {
        TileModel {
            name: self.name@,
            state: self.state@,
            icon_id: self.icon_id@,
            preferred_columns: self.preferred_columns,
            preferred_rows: self.preferred_rows,
            placement: self.placement,
            pending: self.pending,
            body: TileBody::Alarm {
                is_armed: self.is_armed,
                is_triggered: self.is_triggered,
                is_pending: self.is_pending,
            },
        }
    }
}

impl AlarmTileVM {
    fn place(&mut self, placement: TilePlacement)
        ensures
            final(self)@ == old(self)@.at(placement),
    {
        self.placement = placement;
    }
}

impl Clone for AlarmTileVM {
    fn clone(&self) -> (r: AlarmTileVM)
        ensures
            r == *self,
    {
        AlarmTileVM {
            name: self.name.clone(),
            state: self.state.clone(),
            is_armed: self.is_armed,
            is_triggered: self.is_triggered,
            is_pending: self.is_pending,
            icon_id: self.icon_id.clone(),
            preferred_columns: self.preferred_columns,
            preferred_rows: self.preferred_rows,
            placement: self.placement,
            pending: self.pending,
        }
    }
}

impl View for HistoryGraphTileVM {
    type V = TileModel;

    open spec fn view(&self) -> TileModel {
        TileModel {
            name: self.name@,
            state: self.state@,
            icon_id: self.icon_id@,
            preferred_columns: self.preferred_columns,
            preferred_rows: self.preferred_rows,
            placement: self.placement,
            pending: self.pending,
            body: TileBody::History {
                change_count: self.change_count as int,
                is_available: self.is_available,
                path_commands: self.path_commands@,
            },
        }
    }
}

impl HistoryGraphTileVM {
    fn place(&mut self, placement: TilePlacement)
        ensures
            final(self)@ == old(self)@.at(placement),
    {
        self.placement = placement;
    }
}

impl Clone for HistoryGraphTileVM {
    fn clone(&self) -> (r: HistoryGraphTileVM)
        ensures
            r == *self,
    {
        HistoryGraphTileVM {
            name: self.name.clone(),
            state: self.state.clone(),
            change_count: self.change_count,
            is_available: self.is_available,
            path_commands: self.path_commands.clone(),
            icon_id: self.icon_id.clone(),
            preferred_columns: self.preferred_columns,
            preferred_rows: self.preferred_rows,
            placement: self.placement,
            pending: self.pending,
        }
    }
}

impl View for CameraTileVM {
    type V = TileModel;

    open spec fn view(&self) -> TileModel {
        TileModel {
            name: self.name@,
            state: self.state@,
            icon_id: self.icon_id@,
            preferred_columns: self.preferred_columns,
            preferred_rows: self.preferred_rows,
            placement: self.placement,
            pending: self.pending,
            body: TileBody::Camera {
                is_recording: self.is_recording,
                is_streaming: self.is_streaming,
                is_available: self.is_available,
            },
        }
    }
}

impl CameraTileVM {
    fn place(&mut self, placement: TilePlacement)
        ensures
            final(self)@ == old(self)@.at(placement),
    {
        self.placement = placement;
    }
}

impl Clone for CameraTileVM {
    fn clone(&self) -> (r: CameraTileVM)
        ensures
            r == *self,
    {
        CameraTileVM {
            name: self.name.clone(),
            state: self.state.clone(),
            is_recording: self.is_recording,
            is_streaming: self.is_streaming,
            is_available: self.is_available,
            icon_id: self.icon_id.clone(),
            preferred_columns: self.preferred_columns,
            preferred_rows: self.preferred_rows,
            placement: self.placement,
            pending: self.pending,
        }
    }
}

impl View for ClimateTileVM {
    type V = TileModel;

    open spec fn view(&self) -> TileModel {
        TileModel {
            name: self.name@,
            state: self.state@,
            icon_id: self.icon_id@,
            preferred_columns: self.preferred_columns,
            preferred_rows: self.preferred_rows,
            placement: self.placement,
            pending: self.pending,
            body: TileBody::Climate {
                is_active: self.is_active,
                current_temperature: self.current_temperature,
                target_temperature: self.target_temperature,
            },
        }
    }
}

impl ClimateTileVM {
    fn place(&mut self, placement: TilePlacement)
        ensures
            final(self)@ == old(self)@.at(placement),
    {
        self.placement = placement;
    }
}

impl Clone for ClimateTileVM {
    fn clone(&self) -> (r: ClimateTileVM)
        ensures
            r == *self,
    {
        ClimateTileVM {
            name: self.name.clone(),
            state: self.state.clone(),
            is_active: self.is_active,
            current_temperature: self.current_temperature,
            target_temperature: self.target_temperature,
            icon_id: self.icon_id.clone(),
            preferred_columns: self.preferred_columns,
            preferred_rows: self.preferred_rows,
            placement: self.placement,
            pending: self.pending,
        }
    }
}

impl View for MediaPlayerTileVM {
    type V = TileModel;

    open spec fn view(&self) -> TileModel {
        TileModel {
            name: self.name@,
            state: self.state@,
            icon_id: self.icon_id@,
            preferred_columns: self.preferred_columns,
            preferred_rows: self.preferred_rows,
            placement: self.placement,
            pending: self.pending,
            body: TileBody::MediaPlayer {
                is_playing: self.is_playing,
                media_title: opt_text(self.media_title),
                artist: opt_text(self.artist),
                volume_level: self.volume_level,
            },
        }
    }
}

impl MediaPlayerTileVM {
    fn place(&mut self, placement: TilePlacement)
        ensures
            final(self)@ == old(self)@.at(placement),
    {
        self.placement = placement;
    }
}

impl Clone for MediaPlayerTileVM {
    fn clone(&self) -> (r: MediaPlayerTileVM)
        ensures
            r == *self,
    {
        MediaPlayerTileVM {
            name: self.name.clone(),
            state: self.state.clone(),
            is_playing: self.is_playing,
            media_title: copy_opt(&self.media_title),
            artist: copy_opt(&self.artist),
            volume_level: self.volume_level,
            icon_id: self.icon_id.clone(),
            preferred_columns: self.preferred_columns,
            preferred_rows: self.preferred_rows,
            placement: self.placement,
            pending: self.pending,
        }
    }
}

impl View for PowerFlowTileVM {
    type V = TileModel;

    open spec fn view(&self) -> TileModel {
        TileModel {
            name: self.name@,
            state: Seq::empty(),
            icon_id: self.icon_id@,
            preferred_columns: self.preferred_columns,
            preferred_rows: self.preferred_rows,
            placement: self.placement,
            pending: self.pending,
            body: TileBody::PowerFlow {
                grid_w: self.grid_w,
                solar_w: self.solar_w,
                battery_w: self.battery_w,
                battery_pct: self.battery_pct,
                home_w: self.home_w,
            },
        }
    }
}

impl PowerFlowTileVM {
    fn place(&mut self, placement: TilePlacement)
        ensures
            final(self)@ == old(self)@.at(placement),
    {
        self.placement = placement;
    }
}

impl Clone for PowerFlowTileVM {
    fn clone(&self) -> (r: PowerFlowTileVM)
        ensures
            r == *self,
    {
        PowerFlowTileVM {
            name: self.name.clone(),
            grid_w: self.grid_w,
            solar_w: self.solar_w,
            battery_w: self.battery_w,
            battery_pct: self.battery_pct,
            home_w: self.home_w,
            icon_id: self.icon_id.clone(),
            preferred_columns: self.preferred_columns,
            preferred_rows: self.preferred_rows,
            placement: self.placement,
            pending: self.pending,
        }
    }
}

/// A tile of any kind.
#[derive(Debug, PartialEq)]
pub enum TileVM {
    Light(LightTileVM),
    Sensor(SensorTileVM),
    Entity(EntityTileVM),
    Cover(CoverTileVM),
    Fan(FanTileVM),
    Lock(LockTileVM),
    Alarm(AlarmTileVM),
    History(HistoryGraphTileVM),
    Camera(CameraTileVM),
    Climate(ClimateTileVM),
    MediaPlayer(MediaPlayerTileVM),
    PowerFlow(PowerFlowTileVM),
}

impl View for TileVM {
    type V = TileModel;

    open spec fn view(&self) -> TileModel {
        match self {
            TileVM::Light(vm) => vm@,
            TileVM::Sensor(vm) => vm@,
            TileVM::Entity(vm) => vm@,
            TileVM::Cover(vm) => vm@,
            TileVM::Fan(vm) => vm@,
            TileVM::Lock(vm) => vm@,
            TileVM::Alarm(vm) => vm@,
            TileVM::History(vm) => vm@,
            TileVM::Camera(vm) => vm@,
            TileVM::Climate(vm) => vm@,
            TileVM::MediaPlayer(vm) => vm@,
            TileVM::PowerFlow(vm) => vm@,
        }
    }
}

impl Clone for TileVM {
    fn clone(&self) -> (r: TileVM)
        ensures
            r == *self,
    {
        match self {
            TileVM::Light(vm) => TileVM::Light(vm.clone()),
            TileVM::Sensor(vm) => TileVM::Sensor(vm.clone()),
            TileVM::Entity(vm) => TileVM::Entity(vm.clone()),
            TileVM::Cover(vm) => TileVM::Cover(vm.clone()),
            TileVM::Fan(vm) => TileVM::Fan(vm.clone()),
            TileVM::Lock(vm) => TileVM::Lock(vm.clone()),
            TileVM::Alarm(vm) => TileVM::Alarm(vm.clone()),
            TileVM::History(vm) => TileVM::History(vm.clone()),
            TileVM::Camera(vm) => TileVM::Camera(vm.clone()),
            TileVM::Climate(vm) => TileVM::Climate(vm.clone()),
            TileVM::MediaPlayer(vm) => TileVM::MediaPlayer(vm.clone()),
            TileVM::PowerFlow(vm) => TileVM::PowerFlow(vm.clone()),
        }
    }
}

impl TileVM {
    /// The kind of the tile.
    pub fn kind(&self) -> (r: TileKind)
        ensures
            r == self@.body.kind(),
            r is Light <==> *self is Light,
            r is Sensor <==> *self is Sensor,
            r is Entity <==> *self is Entity,
            r is Cover <==> *self is Cover,
            r is Fan <==> *self is Fan,
            r is Lock <==> *self is Lock,
            r is Alarm <==> *self is Alarm,
            r is History <==> *self is History,
            r is Camera <==> *self is Camera,
            r is Climate <==> *self is Climate,
            r is MediaPlayer <==> *self is MediaPlayer,
            r is PowerFlow <==> *self is PowerFlow,
    {
        match self {
            TileVM::Light(_) => TileKind::Light,
            TileVM::Sensor(_) => TileKind::Sensor,
            TileVM::Entity(_) => TileKind::Entity,
            TileVM::Cover(_) => TileKind::Cover,
            TileVM::Fan(_) => TileKind::Fan,
            TileVM::Lock(_) => TileKind::Lock,
            TileVM::Alarm(_) => TileKind::Alarm,
            TileVM::History(_) => TileKind::History,
            TileVM::Camera(_) => TileKind::Camera,
            TileVM::Climate(_) => TileKind::Climate,
            TileVM::MediaPlayer(_) => TileKind::MediaPlayer,
            TileVM::PowerFlow(_) => TileKind::PowerFlow,
        }
    }

    /// Where the tile sits.
    pub fn placement(&self) -> (r: TilePlacement)
        ensures
            r == self@.placement,
            *self matches TileVM::Light(vm) ==> r == vm.placement,
            *self matches TileVM::Sensor(vm) ==> r == vm.placement,
            *self matches TileVM::Entity(vm) ==> r == vm.placement,
            *self matches TileVM::Cover(vm) ==> r == vm.placement,
            *self matches TileVM::Fan(vm) ==> r == vm.placement,
            *self matches TileVM::Lock(vm) ==> r == vm.placement,
            *self matches TileVM::Alarm(vm) ==> r == vm.placement,
            *self matches TileVM::History(vm) ==> r == vm.placement,
            *self matches TileVM::Camera(vm) ==> r == vm.placement,
            *self matches TileVM::Climate(vm) ==> r == vm.placement,
            *self matches TileVM::MediaPlayer(vm) ==> r == vm.placement,
            *self matches TileVM::PowerFlow(vm) ==> r == vm.placement,
    {
        match self {
            TileVM::Light(vm) => vm.placement,
            TileVM::Sensor(vm) => vm.placement,
            TileVM::Entity(vm) => vm.placement,
            TileVM::Cover(vm) => vm.placement,
            TileVM::Fan(vm) => vm.placement,
            TileVM::Lock(vm) => vm.placement,
            TileVM::Alarm(vm) => vm.placement,
            TileVM::History(vm) => vm.placement,
            TileVM::Camera(vm) => vm.placement,
            TileVM::Climate(vm) => vm.placement,
            TileVM::MediaPlayer(vm) => vm.placement,
            TileVM::PowerFlow(vm) => vm.placement,
        }
    }

    /// Moves the tile.
    pub fn set_placement(&mut self, placement: TilePlacement)
        ensures
            final(self)@ == old(self)@.at(placement),
    {
        match self {
            TileVM::Light(vm) => vm.place(placement),
            TileVM::Sensor(vm) => vm.place(placement),
            TileVM::Entity(vm) => vm.place(placement),
            TileVM::Cover(vm) => vm.place(placement),
            TileVM::Fan(vm) => vm.place(placement),
            TileVM::Lock(vm) => vm.place(placement),
            TileVM::Alarm(vm) => vm.place(placement),
            TileVM::History(vm) => vm.place(placement),
            TileVM::Camera(vm) => vm.place(placement),
            TileVM::Climate(vm) => vm.place(placement),
            TileVM::MediaPlayer(vm) => vm.place(placement),
            TileVM::PowerFlow(vm) => vm.place(placement),
        }
    }
}

/// The word by which the window picks the component that draws a tile.
pub fn tile_vm_kind_str(tile: &TileVM) -> (r: &'static str)
    ensures
        r@ == kind_text(tile@.body.kind()),
        *tile is Light ==> r@ == "light"@,
        *tile is Sensor ==> r@ == "sensor"@,
        *tile is Entity ==> r@ == "entity"@,
        *tile is Cover ==> r@ == "cover"@,
        *tile is Fan ==> r@ == "fan"@,
        *tile is Lock ==> r@ == "lock"@,
        *tile is Alarm ==> r@ == "alarm"@,
        *tile is History ==> r@ == "history"@,
        *tile is Camera ==> r@ == "camera"@,
        *tile is Climate ==> r@ == "climate"@,
        *tile is MediaPlayer ==> r@ == "media_player"@,
        *tile is PowerFlow ==> r@ == "power_flow"@,
{
    match tile {
        TileVM::Light(_) => "light",
        TileVM::Sensor(_) => "sensor",
        TileVM::Entity(_) => "entity",
        TileVM::Cover(_) => "cover",
        TileVM::Fan(_) => "fan",
        TileVM::Lock(_) => "lock",
        TileVM::Alarm(_) => "alarm",
        TileVM::History(_) => "history",
        TileVM::Camera(_) => "camera",
        TileVM::Climate(_) => "climate",
        TileVM::MediaPlayer(_) => "media_player",
        TileVM::PowerFlow(_) => "power_flow",
    }
}

/// The body of a tile whose entity is known, but for a history graph's trace and
/// a power-flow tile's lanes.
pub open spec fn body_for(kind: TileKind, e: EntityModel) -> TileBody {
    match kind {
        TileKind::Light => TileBody::Light,
        TileKind::Sensor => TileBody::Sensor,
        TileKind::Entity => TileBody::Entity,
        TileKind::Cover => TileBody::Cover {
            position: cover_position(e),
            tilt: match e.percent("current_tilt_position"@) {
                Some(p) => p,
                None => 0,
            },
            has_position: e.percent("current_position"@) is Some,
            has_tilt: e.percent("current_tilt_position"@) is Some,
            is_open: open_cover(e),
            is_moving: moving_cover(e),
        },
        TileKind::Fan => TileBody::Fan {
            speed_pct: match e.percent("percentage"@) {
                Some(p) => p,
                None => 0,
            },
            has_speed_pct: e.percent("percentage"@) is Some,
            is_on: running(e),
            current_speed: match e.text("preset_mode"@) {
                Some(s) => s,
                None => Seq::empty(),
            },
            has_current_speed: e.text("preset_mode"@) is Some,
        },
        TileKind::Lock => TileBody::Lock { is_locked: locked(e) },
        TileKind::Alarm => TileBody::Alarm {
            is_armed: armed(e),
            is_triggered: triggered(e),
            is_pending: pending_state(e),
        },
        TileKind::History => history_body(e, None),
        TileKind::Camera => TileBody::Camera {
            is_recording: recording(e),
            is_streaming: streaming(e),
            is_available: !e.out_of_reach(),
        },
        TileKind::Climate => TileBody::Climate {
            is_active: active(e),
            current_temperature: e.reading("current_temperature"@),
            target_temperature: e.reading("temperature"@),
        },
        TileKind::MediaPlayer => TileBody::MediaPlayer {
            is_playing: playing(e),
            media_title: e.text("media_title"@),
            artist: e.text("media_artist"@),
            volume_level: volume(e),
        },
        TileKind::PowerFlow => TileBody::PowerFlow {
            grid_w: state_reading(e),
            solar_w: None,
            battery_w: None,
            battery_pct: None,
            home_w: None,
        },
    }
}

/// The body of a history graph's tile.
pub open spec fn history_body(e: EntityModel, window: Option<HistoryWindow>) -> TileBody {
    TileBody::History {
        change_count: match window {
            Some(w) => if w.points@.len() > i32::MAX {
                i32::MAX as int
            } else {
                w.points@.len() as int
            },
            None => 0,
        },
        is_available: !e.out_of_reach(),
        path_commands: match window {
            Some(w) => path_text(w.points@, w.points@.len() as int),
            None => Seq::empty(),
        },
    }
}

/// The body of a tile whose entity is not known.
pub open spec fn blank_body(kind: TileKind) -> TileBody {
    match kind {
        TileKind::Light => TileBody::Light,
        TileKind::Sensor => TileBody::Sensor,
        TileKind::Entity => TileBody::Entity,
        TileKind::Cover => TileBody::Cover {
            position: 0,
            tilt: 0,
            has_position: false,
            has_tilt: false,
            is_open: false,
            is_moving: false,
        },
        TileKind::Fan => TileBody::Fan {
            speed_pct: 0,
            has_speed_pct: false,
            is_on: false,
            current_speed: Seq::empty(),
            has_current_speed: false,
        },
        TileKind::Lock => TileBody::Lock { is_locked: false },
        TileKind::Alarm => TileBody::Alarm {
            is_armed: false,
            is_triggered: false,
            is_pending: false,
        },
        TileKind::History => TileBody::History {
            change_count: 0,
            is_available: false,
            path_commands: Seq::empty(),
        },
        TileKind::Camera => TileBody::Camera {
            is_recording: false,
            is_streaming: false,
            is_available: false,
        },
        TileKind::Climate => TileBody::Climate {
            is_active: false,
            current_temperature: None,
            target_temperature: None,
        },
        TileKind::MediaPlayer => TileBody::MediaPlayer {
            is_playing: false,
            media_title: None,
            artist: None,
            volume_level: None,
        },
        TileKind::PowerFlow => TileBody::PowerFlow {
            grid_w: None,
            solar_w: None,
            battery_w: None,
            battery_pct: None,
            home_w: None,
        },
    }
}

/// A tile shows its own fields, each under its name.
pub proof fn tile_shows_its_fields(t: TileVM)
    ensures
        t matches TileVM::Light(vm) ==> {
            &&& t@.name == vm.name@
            &&& t@.state == vm.state@
            &&& t@.icon_id == vm.icon_id@
            &&& t@.preferred_columns == vm.preferred_columns
            &&& t@.preferred_rows == vm.preferred_rows
            &&& t@.placement == vm.placement
            &&& t@.pending == vm.pending
            &&& t@.body == TileBody::Light
        },
        t matches TileVM::Sensor(vm) ==> {
            &&& t@.name == vm.name@
            &&& t@.state == vm.state@
            &&& t@.icon_id == vm.icon_id@
            &&& t@.preferred_columns == vm.preferred_columns
            &&& t@.preferred_rows == vm.preferred_rows
            &&& t@.placement == vm.placement
            &&& t@.pending == vm.pending
            &&& t@.body == TileBody::Sensor
        },
        t matches TileVM::Entity(vm) ==> {
            &&& t@.name == vm.name@
            &&& t@.state == vm.state@
            &&& t@.icon_id == vm.icon_id@
            &&& t@.preferred_columns == vm.preferred_columns
            &&& t@.preferred_rows == vm.preferred_rows
            &&& t@.placement == vm.placement
            &&& t@.pending == vm.pending
            &&& t@.body == TileBody::Entity
        },
        t matches TileVM::Cover(vm) ==> {
            &&& t@.name == vm.name@
            &&& t@.state == vm.state@
            &&& t@.icon_id == vm.icon_id@
            &&& t@.preferred_columns == vm.preferred_columns
            &&& t@.preferred_rows == vm.preferred_rows
            &&& t@.placement == vm.placement
            &&& t@.pending == vm.pending
            &&& t@.body matches TileBody::Cover { position, tilt, has_position, has_tilt, is_open, is_moving }
            &&& position == vm.position
            &&& tilt == vm.tilt
            &&& has_position == vm.has_position
            &&& has_tilt == vm.has_tilt
            &&& is_open == vm.is_open
            &&& is_moving == vm.is_moving
        },
        t matches TileVM::Fan(vm) ==> {
            &&& t@.name == vm.name@
            &&& t@.state == vm.state@
            &&& t@.icon_id == vm.icon_id@
            &&& t@.preferred_columns == vm.preferred_columns
            &&& t@.preferred_rows == vm.preferred_rows
            &&& t@.placement == vm.placement
            &&& t@.pending == vm.pending
            &&& t@.body matches TileBody::Fan { speed_pct, has_speed_pct, is_on, current_speed, has_current_speed }
            &&& speed_pct == vm.speed_pct
            &&& has_speed_pct == vm.has_speed_pct
            &&& is_on == vm.is_on
            &&& current_speed == vm.current_speed@
            &&& has_current_speed == vm.has_current_speed
        },
        t matches TileVM::Lock(vm) ==> {
            &&& t@.name == vm.name@
            &&& t@.state == vm.state@
            &&& t@.icon_id == vm.icon_id@
            &&& t@.preferred_columns == vm.preferred_columns
            &&& t@.preferred_rows == vm.preferred_rows
            &&& t@.placement == vm.placement
            &&& t@.pending == vm.pending
            &&& t@.body matches TileBody::Lock { is_locked }
            &&& is_locked == vm.is_locked
        },
        t matches TileVM::Alarm(vm) ==> {
            &&& t@.name == vm.name@
            &&& t@.state == vm.state@
            &&& t@.icon_id == vm.icon_id@
            &&& t@.preferred_columns == vm.preferred_columns
            &&& t@.preferred_rows == vm.preferred_rows
            &&& t@.placement == vm.placement
            &&& t@.pending == vm.pending
            &&& t@.body matches TileBody::Alarm { is_armed, is_triggered, is_pending }
            &&& is_armed == vm.is_armed
            &&& is_triggered == vm.is_triggered
            &&& is_pending == vm.is_pending
        },
        t matches TileVM::History(vm) ==> {
            &&& t@.name == vm.name@
            &&& t@.state == vm.state@
            &&& t@.icon_id == vm.icon_id@
            &&& t@.preferred_columns == vm.preferred_columns
            &&& t@.preferred_rows == vm.preferred_rows
            &&& t@.placement == vm.placement
            &&& t@.pending == vm.pending
            &&& t@.body matches TileBody::History { change_count, is_available, path_commands }
            &&& change_count == vm.change_count
            &&& is_available == vm.is_available
            &&& path_commands == vm.path_commands@
        },
        t matches TileVM::Camera(vm) ==> {
            &&& t@.name == vm.name@
            &&& t@.state == vm.state@
            &&& t@.icon_id == vm.icon_id@
            &&& t@.preferred_columns == vm.preferred_columns
            &&& t@.preferred_rows == vm.preferred_rows
            &&& t@.placement == vm.placement
            &&& t@.pending == vm.pending
            &&& t@.body matches TileBody::Camera { is_recording, is_streaming, is_available }
            &&& is_recording == vm.is_recording
            &&& is_streaming == vm.is_streaming
            &&& is_available == vm.is_available
        },
        t matches TileVM::Climate(vm) ==> {
            &&& t@.name == vm.name@
            &&& t@.state == vm.state@
            &&& t@.icon_id == vm.icon_id@
            &&& t@.preferred_columns == vm.preferred_columns
            &&& t@.preferred_rows == vm.preferred_rows
            &&& t@.placement == vm.placement
            &&& t@.pending == vm.pending
            &&& t@.body matches TileBody::Climate { is_active, current_temperature, target_temperature }
            &&& is_active == vm.is_active
            &&& current_temperature == vm.current_temperature
            &&& target_temperature == vm.target_temperature
        },
        t matches TileVM::MediaPlayer(vm) ==> {
            &&& t@.name == vm.name@
            &&& t@.state == vm.state@
            &&& t@.icon_id == vm.icon_id@
            &&& t@.preferred_columns == vm.preferred_columns
            &&& t@.preferred_rows == vm.preferred_rows
            &&& t@.placement == vm.placement
            &&& t@.pending == vm.pending
            &&& t@.body matches TileBody::MediaPlayer { is_playing, media_title, artist, volume_level }
            &&& is_playing == vm.is_playing
            &&& media_title == opt_text(vm.media_title)
            &&& artist == opt_text(vm.artist)
            &&& volume_level == vm.volume_level
        },
        t matches TileVM::PowerFlow(vm) ==> {
            &&& t@.name == vm.name@
            &&& t@.state.len() == 0
            &&& t@.icon_id == vm.icon_id@
            &&& t@.preferred_columns == vm.preferred_columns
            &&& t@.preferred_rows == vm.preferred_rows
            &&& t@.placement == vm.placement
            &&& t@.pending == vm.pending
            &&& t@.body matches TileBody::PowerFlow { grid_w, solar_w, battery_w, battery_pct, home_w }
            &&& grid_w == vm.grid_w
            &&& solar_w == vm.solar_w
            &&& battery_w == vm.battery_w
            &&& battery_pct == vm.battery_pct
            &&& home_w == vm.home_w
        },
{
}

/// A tile that is moved keeps all but its place.
pub proof fn moved_tile_keeps_the_rest(m: TileModel, placement: TilePlacement)
    ensures
        m.at(placement).placement == placement,
        m.at(placement).name == m.name,
        m.at(placement).state == m.state,
        m.at(placement).icon_id == m.icon_id,
        m.at(placement).preferred_columns == m.preferred_columns,
        m.at(placement).preferred_rows == m.preferred_rows,
        m.at(placement).pending == m.pending,
        m.at(placement).body == m.body,
{
}

} // verus!
