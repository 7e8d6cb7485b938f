//! The rows that the window's models hold.
//!
//! The window has one model for each kind of tile. An optional reading becomes a
//! plain one, zero or empty where it is missing, beside a flag that tells.
use crate::arith::{append_one_decimal, one_decimal_text};
use crate::kinds::{of_kind, row_of, shown, tile_kinds, tile_stands_at_its_row};
use crate::number::Real32;
use crate::tile::{
    AlarmTileVM, CameraTileVM, ClimateTileVM, CoverTileVM, EntityTileVM, FanTileVM,
    HistoryGraphTileVM, LightTileVM, LockTileVM, MediaPlayerTileVM, PowerFlowTileVM, SensorTileVM,
    TileBody, TileKind, TileModel, TilePlacement, TileVM,
};
use vstd::prelude::*;
use vstd::string::*;

verus! {

/// A reading, or zero where there is none.
pub open spec fn or_zero(v: Option<Real32>) -> Real32 {
    match v {
        Some(x) => x,
        None => Real32::zero(),
    }
}

/// A text, or the empty one where there is none.
pub open spec fn or_empty(v: Option<Seq<char>>) -> Seq<char> {
    match v {
        Some(s) => s,
        None => Seq::empty(),
    }
}

/// A lane with no reading, or with less than one watt on it, is idle.
pub open spec fn lane_idle(v: Option<Real32>) -> bool {
    match v {
        Some(w) => w.below_one(),
        None => true,
    }
}

/// A lane flows forward where its reading is above zero.
pub open spec fn lane_forward(v: Option<Real32>) -> bool {
    match v {
        Some(w) => w.positive(),
        None => false,
    }
}

/// The row of a climate device.
#[derive(Debug, PartialEq)]
pub struct ClimateRow {
    pub name: String,
    pub state: String,
    pub is_active: bool,
    pub current_temperature: Real32,
    pub has_current_temperature: bool,
    pub target_temperature: Real32,
    pub has_target_temperature: bool,
    pub icon_id: String,
    pub preferred_columns: i32,
    pub preferred_rows: i32,
    pub placement: TilePlacement,
    pub pending: bool,
}

/// Row `r` shows tile `m`.
pub open spec fn climate_row_shows(r: ClimateRow, m: TileModel) -> bool {
    &&& r.name@ == m.name
    &&& r.state@ == m.state
    &&& r.icon_id@ == m.icon_id
    &&& r.preferred_columns == m.preferred_columns
    &&& r.preferred_rows == m.preferred_rows
    &&& r.placement == m.placement
    &&& r.pending == m.pending
    &&& m.body matches TileBody::Climate { is_active, current_temperature, target_temperature }
    &&& r.is_active == is_active
    &&& r.current_temperature == or_zero(current_temperature)
    &&& r.has_current_temperature == current_temperature is Some
    &&& r.target_temperature == or_zero(target_temperature)
    &&& r.has_target_temperature == target_temperature is Some
}

/// The row of a media player.
#[derive(Debug, PartialEq)]
pub struct MediaPlayerRow {
    pub name: String,
    pub state: String,
    pub is_playing: bool,
    pub media_title: String,
    pub has_media_title: bool,
    pub artist: String,
    pub has_artist: bool,
    pub volume_level: Real32,
    pub has_volume_level: bool,
    pub icon_id: String,
    pub preferred_columns: i32,
    pub preferred_rows: i32,
    pub placement: TilePlacement,
    pub pending: bool,
}

/// Row `r` shows tile `m`.
pub open spec fn media_player_row_shows(r: MediaPlayerRow, m: TileModel) -> bool {
    &&& r.name@ == m.name
    &&& r.state@ == m.state
    &&& r.icon_id@ == m.icon_id
    &&& r.preferred_columns == m.preferred_columns
    &&& r.preferred_rows == m.preferred_rows
    &&& r.placement == m.placement
    &&& r.pending == m.pending
    &&& m.body matches TileBody::MediaPlayer { is_playing, media_title, artist, volume_level }
    &&& r.is_playing == is_playing
    &&& r.media_title@ == or_empty(media_title)
    &&& r.has_media_title == media_title is Some
    &&& r.artist@ == or_empty(artist)
    &&& r.has_artist == artist is Some
    &&& r.volume_level == or_zero(volume_level)
    &&& r.has_volume_level == volume_level is Some
}

/// The label of a lane: its watts with one decimal.
pub open spec fn watts_text(w: Real32) -> Seq<char> {
    one_decimal_text(w) + " W"@
}

/// The label of a lane.
pub fn power_format_watts(w: Real32) -> (r: String)
    ensures
        r@ == watts_text(w),
{
    let mut label: String = String::new();
    append_one_decimal(&mut label, w);
    label.append(" W");
    assert(label@ =~= watts_text(w));
    label
}

/// The row of a power flow.
#[derive(Debug, PartialEq)]
pub struct PowerFlowRow {
    pub name: String,
    pub grid_w: Real32,
    pub grid_label: String,
    pub grid_importing: bool,
    pub grid_idle: bool,
    pub has_solar: bool,
    pub solar_w: Real32,
    pub solar_label: String,
    pub solar_idle: bool,
    pub has_battery: bool,
    pub battery_w: Real32,
    pub battery_label: String,
    pub battery_charging: bool,
    pub battery_idle: bool,
    pub has_battery_pct: bool,
    pub battery_pct: Real32,
    pub has_home: bool,
    pub home_w: Real32,
    pub home_label: String,
    pub home_idle: bool,
    pub is_available: bool,
    pub icon_id: String,
    pub preferred_columns: i32,
    pub preferred_rows: i32,
    pub placement: TilePlacement,
    pub pending: bool,
}

/// Row `r` shows tile `m`. The tile counts as available where the grid's reading
/// is there.
pub open spec fn power_flow_row_shows(r: PowerFlowRow, m: TileModel) -> bool {
    &&& r.name@ == m.name
    &&& m.state == Seq::<char>::empty()
    &&& r.icon_id@ == m.icon_id
    &&& r.preferred_columns == m.preferred_columns
    &&& r.preferred_rows == m.preferred_rows
    &&& r.placement == m.placement
    &&& r.pending == m.pending
    &&& m.body matches TileBody::PowerFlow { grid_w, solar_w, battery_w, battery_pct, home_w }
    &&& r.grid_w == or_zero(grid_w)
    &&& r.grid_label@ == watts_text(or_zero(grid_w))
    &&& r.grid_importing == lane_forward(grid_w)
    &&& r.grid_idle == lane_idle(grid_w)
    &&& r.is_available == grid_w is Some
    &&& r.solar_w == or_zero(solar_w)
    &&& r.solar_label@ == watts_text(or_zero(solar_w))
    &&& r.has_solar == solar_w is Some
    &&& r.solar_idle == lane_idle(solar_w)
    &&& r.battery_w == or_zero(battery_w)
    &&& r.battery_label@ == watts_text(or_zero(battery_w))
    &&& r.has_battery == battery_w is Some
    &&& r.battery_charging == lane_forward(battery_w)
    &&& r.battery_idle == lane_idle(battery_w)
    &&& r.battery_pct == or_zero(battery_pct)
    &&& r.has_battery_pct == battery_pct is Some
    &&& r.home_w == or_zero(home_w)
    &&& r.home_label@ == watts_text(or_zero(home_w))
    &&& r.has_home == home_w is Some
    &&& r.home_idle == lane_idle(home_w)
}

fn value_or_zero(v: Option<Real32>) -> (r: Real32)
    ensures
        r == or_zero(v),
{
    match v {
        Some(x) => x,
        None => Real32::nought(),
    }
}

fn is_idle(v: Option<Real32>) -> (r: bool)
    ensures
        r == lane_idle(v),
{
    match v {
        Some(w) => w.is_below_one(),
        None => true,
    }
}

fn is_forward(v: Option<Real32>) -> (r: bool)
    ensures
        r == lane_forward(v),
{
    match v {
        Some(w) => w.is_positive(),
        None => false,
    }
}

fn text_or_empty(v: &Option<String>) -> (r: String)
    ensures
        r@ == or_empty(crate::text::opt_text(*v)),
{
    match v {
        Some(s) => s.clone(),
        None => String::new(),
    }
}

/// The row of a power-flow tile.
pub fn slint_power_flow_tile_vm(vm: &PowerFlowTileVM) -> (r: PowerFlowRow)
    ensures
        power_flow_row_shows(r, vm@),
        r.name@ == vm.name@,
        r.icon_id@ == vm.icon_id@,
        r.preferred_columns == vm.preferred_columns,
        r.preferred_rows == vm.preferred_rows,
        r.placement == vm.placement,
        r.pending == vm.pending,
        vm.grid_w matches Some(w) ==> r.grid_w == w && r.grid_label@ == one_decimal_text(w) + " W"@,
        vm.grid_w matches Some(w) ==> r.grid_idle == w.below_one(),
        vm.grid_w matches Some(w) ==> r.grid_importing == w.positive(),
        vm.grid_w is None ==> r.grid_w == (Real32 { bits: 0 }) && r.grid_label@ == one_decimal_text(
            Real32 { bits: 0 },
        ) + " W"@ && r.grid_idle && !r.grid_importing,
        r.is_available == vm.grid_w is Some,
        vm.solar_w matches Some(w) ==> r.solar_w == w && r.solar_label@ == one_decimal_text(w) + " W"@,
        vm.solar_w matches Some(w) ==> r.solar_idle == w.below_one(),
        vm.solar_w is None ==> r.solar_w == (Real32 { bits: 0 }) && r.solar_label@ == one_decimal_text(
            Real32 { bits: 0 },
        ) + " W"@ && r.solar_idle,
        r.has_solar == vm.solar_w is Some,
        vm.battery_w matches Some(w) ==> r.battery_w == w && r.battery_label@ == one_decimal_text(w) + " W"@,
        vm.battery_w matches Some(w) ==> r.battery_idle == w.below_one(),
        vm.battery_w matches Some(w) ==> r.battery_charging == w.positive(),
        vm.battery_w is None ==> r.battery_w == (Real32 { bits: 0 }) && r.battery_label@ == one_decimal_text(
            Real32 { bits: 0 },
        ) + " W"@ && r.battery_idle && !r.battery_charging,
        r.has_battery == vm.battery_w is Some,
        vm.home_w matches Some(w) ==> r.home_w == w && r.home_label@ == one_decimal_text(w) + " W"@,
        vm.home_w matches Some(w) ==> r.home_idle == w.below_one(),
        vm.home_w is None ==> r.home_w == (Real32 { bits: 0 }) && r.home_label@ == one_decimal_text(
            Real32 { bits: 0 },
        ) + " W"@ && r.home_idle,
        r.has_home == vm.home_w is Some,
        vm.battery_pct matches Some(p) ==> r.battery_pct == p && r.has_battery_pct,
        vm.battery_pct is None ==> r.battery_pct == (Real32 { bits: 0 }) && !r.has_battery_pct,
{
    PowerFlowRow {
        name: vm.name.clone(),
        grid_w: value_or_zero(vm.grid_w),
        grid_label: power_format_watts(value_or_zero(vm.grid_w)),
        grid_importing: is_forward(vm.grid_w),
        grid_idle: is_idle(vm.grid_w),
        has_solar: vm.solar_w.is_some(),
        solar_w: value_or_zero(vm.solar_w),
        solar_label: power_format_watts(value_or_zero(vm.solar_w)),
        solar_idle: is_idle(vm.solar_w),
        has_battery: vm.battery_w.is_some(),
        battery_w: value_or_zero(vm.battery_w),
        battery_label: power_format_watts(value_or_zero(vm.battery_w)),
        battery_charging: is_forward(vm.battery_w),
        battery_idle: is_idle(vm.battery_w),
        has_battery_pct: vm.battery_pct.is_some(),
        battery_pct: value_or_zero(vm.battery_pct),
        has_home: vm.home_w.is_some(),
        home_w: value_or_zero(vm.home_w),
        home_label: power_format_watts(value_or_zero(vm.home_w)),
        home_idle: is_idle(vm.home_w),
        is_available: vm.grid_w.is_some(),
        icon_id: vm.icon_id.clone(),
        preferred_columns: vm.preferred_columns,
        preferred_rows: vm.preferred_rows,
        placement: vm.placement,
        pending: vm.pending,
    }
}

fn climate_row(vm: &ClimateTileVM) -> (r: ClimateRow)
    ensures
        climate_row_shows(r, vm@),
        r.name@ == vm.name@,
        r.state@ == vm.state@,
        r.icon_id@ == vm.icon_id@,
        r.preferred_columns == vm.preferred_columns,
        r.preferred_rows == vm.preferred_rows,
        r.placement == vm.placement,
        r.pending == vm.pending,
        r.is_active == vm.is_active,
        vm.current_temperature matches Some(t) ==> r.current_temperature == t,
        r.has_current_temperature == vm.current_temperature is Some,
        vm.target_temperature matches Some(t) ==> r.target_temperature == t,
        r.has_target_temperature == vm.target_temperature is Some,
{
    ClimateRow {
        name: vm.name.clone(),
        state: vm.state.clone(),
        is_active: vm.is_active,
        current_temperature: value_or_zero(vm.current_temperature),
        has_current_temperature: vm.current_temperature.is_some(),
        target_temperature: value_or_zero(vm.target_temperature),
        has_target_temperature: vm.target_temperature.is_some(),
        icon_id: vm.icon_id.clone(),
        preferred_columns: vm.preferred_columns,
        preferred_rows: vm.preferred_rows,
        placement: vm.placement,
        pending: vm.pending,
    }
}

fn media_player_row(vm: &MediaPlayerTileVM) -> (r: MediaPlayerRow)
    ensures
        media_player_row_shows(r, vm@),
        r.name@ == vm.name@,
        r.state@ == vm.state@,
        r.icon_id@ == vm.icon_id@,
        r.preferred_columns == vm.preferred_columns,
        r.preferred_rows == vm.preferred_rows,
        r.placement == vm.placement,
        r.pending == vm.pending,
        r.is_playing == vm.is_playing,
        vm.media_title matches Some(t) ==> r.media_title@ == t@,
        r.has_media_title == vm.media_title is Some,
        vm.artist matches Some(t) ==> r.artist@ == t@,
        r.has_artist == vm.artist is Some,
        vm.volume_level matches Some(v) ==> r.volume_level == v,
        r.has_volume_level == vm.volume_level is Some,
{
    MediaPlayerRow {
        name: vm.name.clone(),
        state: vm.state.clone(),
        is_playing: vm.is_playing,
        media_title: text_or_empty(&vm.media_title),
        has_media_title: vm.media_title.is_some(),
        artist: text_or_empty(&vm.artist),
        has_artist: vm.artist.is_some(),
        volume_level: value_or_zero(vm.volume_level),
        has_volume_level: vm.volume_level.is_some(),
        icon_id: vm.icon_id.clone(),
        preferred_columns: vm.preferred_columns,
        preferred_rows: vm.preferred_rows,
        placement: vm.placement,
        pending: vm.pending,
    }
}

/// The rows of all models.
#[derive(Debug, PartialEq)]
pub struct SplitTileVms {
    pub lights: Vec<LightTileVM>,
    pub sensors: Vec<SensorTileVM>,
    pub entities: Vec<EntityTileVM>,
    pub covers: Vec<CoverTileVM>,
    pub fans: Vec<FanTileVM>,
    pub locks: Vec<LockTileVM>,
    pub alarms: Vec<AlarmTileVM>,
    pub histories: Vec<HistoryGraphTileVM>,
    pub cameras: Vec<CameraTileVM>,
    pub climates: Vec<ClimateRow>,
    pub media_players: Vec<MediaPlayerRow>,
    pub power_flows: Vec<PowerFlowRow>,
}

impl SplitTileVms {
    /// The number of rows in the model of a kind.
    pub open spec fn rows(self, k: TileKind) -> nat {
        match k {
            TileKind::Light => self.lights@.len(),
            TileKind::Sensor => self.sensors@.len(),
            TileKind::Entity => self.entities@.len(),
            TileKind::Cover => self.covers@.len(),
            TileKind::Fan => self.fans@.len(),
            TileKind::Lock => self.locks@.len(),
            TileKind::Alarm => self.alarms@.len(),
            TileKind::History => self.histories@.len(),
            TileKind::Camera => self.cameras@.len(),
            TileKind::Climate => self.climates@.len(),
            TileKind::MediaPlayer => self.media_players@.len(),
            TileKind::PowerFlow => self.power_flows@.len(),
        }
    }

    /// Row `i` of the model of kind `k` shows `m`.
    pub open spec fn shows(self, k: TileKind, i: int, m: TileModel) -> bool {
        match k {
            TileKind::Light => self.lights@[i]@ == m,
            TileKind::Sensor => self.sensors@[i]@ == m,
            TileKind::Entity => self.entities@[i]@ == m,
            TileKind::Cover => self.covers@[i]@ == m,
            TileKind::Fan => self.fans@[i]@ == m,
            TileKind::Lock => self.locks@[i]@ == m,
            TileKind::Alarm => self.alarms@[i]@ == m,
            TileKind::History => self.histories@[i]@ == m,
            TileKind::Camera => self.cameras@[i]@ == m,
            TileKind::Climate => climate_row_shows(self.climates@[i], m),
            TileKind::MediaPlayer => media_player_row_shows(self.media_players@[i], m),
            TileKind::PowerFlow => power_flow_row_shows(self.power_flows@[i], m),
        }
    }

    /// The model of kind `k` shows exactly the tiles of this kind, in their order.
    pub open spec fn model_shows(self, k: TileKind, tiles: Seq<TileModel>) -> bool {
        &&& self.rows(k) == of_kind(tiles, k).len()
        &&& forall|i: int|
            0 <= i < self.rows(k) ==> #[trigger] self.shows(k, i, of_kind(tiles, k)[i])
    }

    /// Each model shows exactly the tiles of its kind, in their order.
    pub open spec fn holds(self, tiles: Seq<TileModel>) -> bool {
        forall|k: TileKind| #[trigger] self.model_shows(k, tiles)
    }

    /// No rows.
    pub fn empty() -> (r: SplitTileVms)
        ensures
            r.holds(Seq::empty()),
    {
        SplitTileVms {
            lights: Vec::new(),
            sensors: Vec::new(),
            entities: Vec::new(),
            covers: Vec::new(),
            fans: Vec::new(),
            locks: Vec::new(),
            alarms: Vec::new(),
            histories: Vec::new(),
            cameras: Vec::new(),
            climates: Vec::new(),
            media_players: Vec::new(),
            power_flows: Vec::new(),
        }
    }

    /// Adds the row of a tile to the model of its kind.
    fn push(&mut self, tile: &TileVM)
        ensures
            final(self).rows(tile@.body.kind()) == old(self).rows(tile@.body.kind()) + 1,
            final(self).shows(
                tile@.body.kind(),
                old(self).rows(tile@.body.kind()) as int,
                tile@,
            ),
            forall|i: int, m: TileModel|
                0 <= i < old(self).rows(tile@.body.kind()) && old(self).shows(
                    tile@.body.kind(),
                    i,
                    m,
                ) ==> #[trigger] final(self).shows(tile@.body.kind(), i, m),
            forall|k: TileKind|
                k != tile@.body.kind() ==> #[trigger] final(self).rows(k) == old(self).rows(k),
            forall|k: TileKind, i: int, m: TileModel|
                k != tile@.body.kind() && old(self).shows(k, i, m)
                    ==> #[trigger] final(self).shows(k, i, m),
    {
        match tile {
            TileVM::Light(vm) => self.lights.push(vm.clone()),
            TileVM::Sensor(vm) => self.sensors.push(vm.clone()),
            TileVM::Entity(vm) => self.entities.push(vm.clone()),
            TileVM::Cover(vm) => self.covers.push(vm.clone()),
            TileVM::Fan(vm) => self.fans.push(vm.clone()),
            TileVM::Lock(vm) => self.locks.push(vm.clone()),
            TileVM::Alarm(vm) => self.alarms.push(vm.clone()),
            TileVM::History(vm) => self.histories.push(vm.clone()),
            TileVM::Camera(vm) => self.cameras.push(vm.clone()),
            TileVM::Climate(vm) => self.climates.push(climate_row(vm)),
            TileVM::MediaPlayer(vm) => self.media_players.push(media_player_row(vm)),
            TileVM::PowerFlow(vm) => self.power_flows.push(slint_power_flow_tile_vm(vm)),
        }
    }
}

/// Deals tiles out to the models of their kinds.
pub fn split_tile_vms(tiles: &Vec<TileVM>) -> (r: SplitTileVms)
    ensures
        r.holds(shown(tiles@)),
{
    let mut split: SplitTileVms = SplitTileVms::empty();
    let mut i: usize = 0;
    let ghost all = shown(tiles@);
    assert(all.take(0) =~= Seq::empty());
    while i < tiles.len()
        invariant
            i <= tiles@.len(),
            all == shown(tiles@),
            split.holds(all.take(i as int)),
        decreases tiles@.len() - i,
    {
        let ghost before = split;
        split.push(&tiles[i]);
        proof {
            let part = all.take(i + 1);
            assert(part.drop_last() =~= all.take(i as int));
            assert(part.last() == tiles@[i as int]@);
            assert forall|k: TileKind| #[trigger] split.model_shows(k, part) by {
                assert(before.model_shows(k, all.take(i as int)));
                let kind = tiles@[i as int]@.body.kind();
                assert(split.rows(k) == of_kind(part, k).len());
                assert forall|j: int| 0 <= j < split.rows(k) implies #[trigger] split.shows(
                    k,
                    j,
                    of_kind(part, k)[j],
                ) by {
                    if j < before.rows(k) {
                        assert(before.shows(k, j, of_kind(all.take(i as int), k)[j]));
                        assert(of_kind(part, k)[j] == of_kind(all.take(i as int), k)[j]);
                    }
                }
            }
        }
        i = i + 1;
    }
    assert(all.take(i as int) =~= all);
    split
}

/// Every tile is found at its row of the model of its kind.
pub proof fn split_shows_each_tile_at_its_row(
    split: SplitTileVms,
    tiles: Seq<TileModel>,
    i: int,
)
    requires
        split.holds(tiles),
        0 <= i < tiles.len(),
    ensures
        0 <= row_of(tile_kinds(tiles), i) < split.rows(tiles[i].body.kind()),
        split.shows(tiles[i].body.kind(), row_of(tile_kinds(tiles), i), tiles[i]),
{
    let k = tiles[i].body.kind();
    tile_stands_at_its_row(tiles, i);
    assert(split.model_shows(k, tiles));
    assert(split.shows(k, row_of(tile_kinds(tiles), i), of_kind(tiles, k)[row_of(
        tile_kinds(tiles),
        i,
    )]));
}

/// No tile is lost and none is shown twice: the models have as many rows together
/// as there are tiles.
pub proof fn split_keeps_the_number_of_tiles(split: SplitTileVms, tiles: Seq<TileModel>)
    requires
        split.holds(tiles),
    ensures
        split.rows(TileKind::Light) + split.rows(TileKind::Sensor) + split.rows(TileKind::Entity)
            + split.rows(TileKind::Cover) + split.rows(TileKind::Fan) + split.rows(TileKind::Lock)
            + split.rows(TileKind::Alarm) + split.rows(TileKind::History)
            + split.rows(TileKind::Camera) + split.rows(TileKind::Climate)
            + split.rows(TileKind::MediaPlayer) + split.rows(TileKind::PowerFlow) == tiles.len(),
{
    assert(split.model_shows(TileKind::Light, tiles));
    assert(split.model_shows(TileKind::Sensor, tiles));
    assert(split.model_shows(TileKind::Entity, tiles));
    assert(split.model_shows(TileKind::Cover, tiles));
    assert(split.model_shows(TileKind::Fan, tiles));
    assert(split.model_shows(TileKind::Lock, tiles));
    assert(split.model_shows(TileKind::Alarm, tiles));
    assert(split.model_shows(TileKind::History, tiles));
    assert(split.model_shows(TileKind::Camera, tiles));
    assert(split.model_shows(TileKind::Climate, tiles));
    assert(split.model_shows(TileKind::MediaPlayer, tiles));
    assert(split.model_shows(TileKind::PowerFlow, tiles));
    lemma_kinds_partition(tiles);
}

proof fn lemma_kinds_partition(tiles: Seq<TileModel>)
    ensures
        of_kind(tiles, TileKind::Light).len() + of_kind(tiles, TileKind::Sensor).len()
            + of_kind(tiles, TileKind::Entity).len() + of_kind(tiles, TileKind::Cover).len()
            + of_kind(tiles, TileKind::Fan).len() + of_kind(tiles, TileKind::Lock).len()
            + of_kind(tiles, TileKind::Alarm).len() + of_kind(tiles, TileKind::History).len()
            + of_kind(tiles, TileKind::Camera).len() + of_kind(tiles, TileKind::Climate).len()
            + of_kind(tiles, TileKind::MediaPlayer).len()
            + of_kind(tiles, TileKind::PowerFlow).len() == tiles.len(),
    decreases tiles.len(),
{
    if tiles.len() > 0 {
        lemma_kinds_partition(tiles.drop_last());
    }
}

/// A power-flow row shows the lanes of its tile, each from its own reading.
pub proof fn power_flow_row_shows_each_lane(r: PowerFlowRow, m: TileModel)
    requires
        power_flow_row_shows(r, m),
    ensures
        r.name@ == m.name,
        r.icon_id@ == m.icon_id,
        r.preferred_columns == m.preferred_columns,
        r.preferred_rows == m.preferred_rows,
        r.placement == m.placement,
        r.pending == m.pending,
        m.body matches TileBody::PowerFlow { grid_w, solar_w, battery_w, battery_pct, home_w } && {
            &&& r.is_available == grid_w is Some
            &&& grid_w matches Some(w) ==> r.grid_w == w && r.grid_label@ == one_decimal_text(w)
                + " W"@ && r.grid_idle == w.below_one() && r.grid_importing == w.positive()
            &&& grid_w is None ==> r.grid_idle && !r.grid_importing
            &&& r.has_solar == solar_w is Some
            &&& solar_w matches Some(w) ==> r.solar_w == w && r.solar_label@ == one_decimal_text(w)
                + " W"@ && r.solar_idle == w.below_one()
            &&& solar_w is None ==> r.solar_idle
            &&& r.has_battery == battery_w is Some
            &&& battery_w matches Some(w) ==> r.battery_w == w && r.battery_label@
                == one_decimal_text(w) + " W"@ && r.battery_idle == w.below_one()
                && r.battery_charging == w.positive()
            &&& battery_w is None ==> r.battery_idle && !r.battery_charging
            &&& r.has_battery_pct == battery_pct is Some
            &&& battery_pct matches Some(p) ==> r.battery_pct == p
            &&& r.has_home == home_w is Some
            &&& home_w matches Some(w) ==> r.home_w == w && r.home_label@ == one_decimal_text(w)
                + " W"@ && r.home_idle == w.below_one()
            &&& home_w is None ==> r.home_idle
        },
{
}

/// The solar fields of a row follow the solar reading alone, those of the other lanes
/// follow theirs: rows of tiles with one reading in common have that lane in common.
pub proof fn lanes_do_not_mix(r: PowerFlowRow, s: PowerFlowRow, m: TileModel, n: TileModel)
    requires
        power_flow_row_shows(r, m),
        power_flow_row_shows(s, n),
    ensures
        m.body matches TileBody::PowerFlow { grid_w, solar_w, battery_w, battery_pct, home_w } && (
        n.body matches TileBody::PowerFlow {
            grid_w: grid,
            solar_w: solar,
            battery_w: battery,
            battery_pct: pct,
            home_w: home,
        } && {
            &&& grid_w == grid ==> r.grid_w == s.grid_w && r.grid_label@ == s.grid_label@
                && r.grid_idle == s.grid_idle && r.grid_importing == s.grid_importing
                && r.is_available == s.is_available
            &&& solar_w == solar ==> r.solar_w == s.solar_w && r.solar_label@ == s.solar_label@
                && r.solar_idle == s.solar_idle && r.has_solar == s.has_solar
            &&& battery_w == battery ==> r.battery_w == s.battery_w && r.battery_label@
                == s.battery_label@ && r.battery_idle == s.battery_idle && r.battery_charging
                == s.battery_charging && r.has_battery == s.has_battery
            &&& battery_pct == pct ==> r.battery_pct == s.battery_pct && r.has_battery_pct
                == s.has_battery_pct
            &&& home_w == home ==> r.home_w == s.home_w && r.home_label@ == s.home_label@
                && r.home_idle == s.home_idle && r.has_home == s.has_home
        }),
{
}

/// A climate row shows the readings of its tile.
pub proof fn climate_row_shows_its_readings(r: ClimateRow, m: TileModel)
    requires
        climate_row_shows(r, m),
    ensures
        r.name@ == m.name,
        r.state@ == m.state,
        r.icon_id@ == m.icon_id,
        r.preferred_columns == m.preferred_columns,
        r.preferred_rows == m.preferred_rows,
        r.placement == m.placement,
        r.pending == m.pending,
        m.body matches TileBody::Climate { is_active, current_temperature, target_temperature } && {
            &&& r.is_active == is_active
            &&& r.has_current_temperature == current_temperature is Some
            &&& current_temperature matches Some(t) ==> r.current_temperature == t
            &&& r.has_target_temperature == target_temperature is Some
            &&& target_temperature matches Some(t) ==> r.target_temperature == t
        },
{
}

/// A media player's row shows the readings of its tile.
pub proof fn media_player_row_shows_its_readings(r: MediaPlayerRow, m: TileModel)
    requires
        media_player_row_shows(r, m),
    ensures
        r.name@ == m.name,
        r.state@ == m.state,
        r.icon_id@ == m.icon_id,
        r.preferred_columns == m.preferred_columns,
        r.preferred_rows == m.preferred_rows,
        r.placement == m.placement,
        r.pending == m.pending,
        m.body matches TileBody::MediaPlayer { is_playing, media_title, artist, volume_level } && {
            &&& r.is_playing == is_playing
            &&& r.has_media_title == media_title is Some
            &&& media_title matches Some(t) ==> r.media_title@ == t
            &&& r.has_artist == artist is Some
            &&& artist matches Some(t) ==> r.artist@ == t
            &&& r.has_volume_level == volume_level is Some
            &&& volume_level matches Some(v) ==> r.volume_level == v
        },
{
}

/// A reading that is missing is drawn as zero, and a text that is missing as none.
pub proof fn missing_reading_is_drawn_as_nothing(
    c: ClimateRow,
    p: MediaPlayerRow,
    m: TileModel,
    n: TileModel,
)
    requires
        climate_row_shows(c, m),
        media_player_row_shows(p, n),
    ensures
        !c.has_current_temperature ==> c.current_temperature == (Real32 { bits: 0 }),
        !c.has_target_temperature ==> c.target_temperature == (Real32 { bits: 0 }),
        !p.has_media_title ==> p.media_title@.len() == 0,
        !p.has_artist ==> p.artist@.len() == 0,
        !p.has_volume_level ==> p.volume_level == (Real32 { bits: 0 }),
{
}

/// Tile by tile, the row that shows it is found in the model of its kind, and carries
/// the name that the tile carries.
pub proof fn each_model_shows_its_own_kind(split: SplitTileVms, i: int, m: TileModel)
    ensures
        split.rows(TileKind::Light) == split.lights@.len(),
        split.rows(TileKind::Sensor) == split.sensors@.len(),
        split.rows(TileKind::Entity) == split.entities@.len(),
        split.rows(TileKind::Cover) == split.covers@.len(),
        split.rows(TileKind::Fan) == split.fans@.len(),
        split.rows(TileKind::Lock) == split.locks@.len(),
        split.rows(TileKind::Alarm) == split.alarms@.len(),
        split.rows(TileKind::History) == split.histories@.len(),
        split.rows(TileKind::Camera) == split.cameras@.len(),
        split.rows(TileKind::Climate) == split.climates@.len(),
        split.rows(TileKind::MediaPlayer) == split.media_players@.len(),
        split.rows(TileKind::PowerFlow) == split.power_flows@.len(),
        split.shows(TileKind::Light, i, m) <==> split.lights@[i]@ == m,
        split.shows(TileKind::Sensor, i, m) <==> split.sensors@[i]@ == m,
        split.shows(TileKind::Entity, i, m) <==> split.entities@[i]@ == m,
        split.shows(TileKind::Cover, i, m) <==> split.covers@[i]@ == m,
        split.shows(TileKind::Fan, i, m) <==> split.fans@[i]@ == m,
        split.shows(TileKind::Lock, i, m) <==> split.locks@[i]@ == m,
        split.shows(TileKind::Alarm, i, m) <==> split.alarms@[i]@ == m,
        split.shows(TileKind::History, i, m) <==> split.histories@[i]@ == m,
        split.shows(TileKind::Camera, i, m) <==> split.cameras@[i]@ == m,
        split.shows(TileKind::Climate, i, m) ==> split.climates@[i].name@ == m.name
            && m.body is Climate,
        split.shows(TileKind::MediaPlayer, i, m) ==> split.media_players@[i].name@ == m.name
            && m.body is MediaPlayer,
        split.shows(TileKind::PowerFlow, i, m) ==> split.power_flows@[i].name@ == m.name
            && m.body is PowerFlow,
{
}

} // verus!
