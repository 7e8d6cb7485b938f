//! Dealing tiles out to models.
use hanui::entity::{AttrValue, Attributes, Entity, EntityId};
use hanui::number::{Real32, Real64};
use hanui::schema::{DashView, Dashboard, Section, SectionGrid, Widget, WidgetKind, WidgetLayout};
use hanui::split::split_tile_vms;
use hanui::store::MemoryStore;
use hanui::tile::{AlarmTileVM, CameraTileVM, ClimateTileVM, CoverTileVM, EntityTileVM, FanTileVM, HistoryGraphTileVM, LightTileVM, LockTileVM, MediaPlayerTileVM, PowerFlowTileVM, SensorTileVM, TilePlacement, TileVM, tile_vm_kind_str};
use hanui::tiles::build_tiles;

fn make_test_entity(id: &str, state: &str) -> Entity {
    Entity {
        id: EntityId::from(id),
        state: state.to_string(),
        state_number: state
            .parse::<f64>()
            .ok()
            .map(|n| Real64 { bits: n.to_bits() }),
        attributes: Attributes::new(),
    }
}

fn fixture_store() -> MemoryStore {
    let mut light = make_test_entity("light.kitchen", "on");
    light.attributes.insert(
        "friendly_name".to_string(),
        AttrValue::Text("Kitchen Light".to_string()),
    );
    let mut sensor = make_test_entity("sensor.hallway_temperature", "21.3");
    sensor.attributes.insert(
        "friendly_name".to_string(),
        AttrValue::Text("Hallway Temperature".to_string()),
    );
    let mut outlet = make_test_entity("switch.outlet_1", "off");
    outlet.attributes.insert(
        "friendly_name".to_string(),
        AttrValue::Text("Outlet 1".to_string()),
    );
    MemoryStore::load(vec![
        light,
        sensor,
        outlet,
        make_test_entity("binary_sensor.foo", "off"),
    ])
}

fn fixture_dashboard() -> Dashboard {
    let mk = |id: &str, kind: WidgetKind, entity: &str, name: Option<&str>, rows: u8| Widget {
        id: id.to_string(),
        widget_type: kind,
        entity: Some(entity.to_string()),
        name: name.map(str::to_string),
        icon: None,
        layout: WidgetLayout {
            preferred_columns: 2,
            preferred_rows: rows,
        },
        options: None,
        placement: None,
    };
    Dashboard {
        default_view: "home".to_string(),
        views: vec![DashView {
            id: "home".to_string(),
            title: "Home".to_string(),
            sections: vec![
                Section {
                    grid: SectionGrid { columns: 4, gap: 8 },
                    id: "overview".to_string(),
                    title: "Overview".to_string(),
                    widgets: vec![
                        mk("kitchen", WidgetKind::LightTile, "light.kitchen", None, 2),
                        mk(
                            "hallway",
                            WidgetKind::SensorTile,
                            "sensor.hallway_temperature",
                            None,
                            1,
                        ),
                        mk(
                            "living",
                            WidgetKind::EntityTile,
                            "switch.outlet_1",
                            Some("Living Room"),
                            1,
                        ),
                    ],
                },
                Section {
                    grid: SectionGrid { columns: 3, gap: 4 },
                    id: "more".to_string(),
                    title: "More".to_string(),
                    widgets: vec![
                        mk("foo", WidgetKind::EntityTile, "binary_sensor.foo", None, 1),
                        mk("kitchen-2", WidgetKind::LightTile, "light.kitchen", None, 1),
                    ],
                },
            ],
        }],
    }
}

fn reading_of(reading: f32) -> Option<Real32> {
    Some(Real32 {
        bits: reading.to_bits(),
    })
}

fn plain(reading: Real32) -> f32 {
    f32::from_bits(reading.bits)
}

fn make_light_tile(name: &str, state: &str, icon_id: &str) -> TileVM {
    TileVM::Light(LightTileVM {
        name: name.to_string(),
        state: state.to_string(),
        icon_id: icon_id.to_string(),
        preferred_columns: 2,
        preferred_rows: 2,
        placement: TilePlacement {
            col: 0,
            row: 0,
            span_cols: 2,
            span_rows: 2,
        },
        pending: false,
    })
}

fn make_sensor_tile(name: &str, state: &str, icon_id: &str) -> TileVM {
    TileVM::Sensor(SensorTileVM {
        name: name.to_string(),
        state: state.to_string(),
        icon_id: icon_id.to_string(),
        preferred_columns: 2,
        preferred_rows: 1,
        placement: TilePlacement {
            col: 0,
            row: 0,
            span_cols: 2,
            span_rows: 1,
        },
        pending: false,
    })
}

fn make_entity_tile(name: &str, state: &str, icon_id: &str) -> TileVM {
    TileVM::Entity(EntityTileVM {
        name: name.to_string(),
        state: state.to_string(),
        icon_id: icon_id.to_string(),
        preferred_columns: 1,
        preferred_rows: 1,
        placement: TilePlacement {
            col: 0,
            row: 0,
            span_cols: 1,
            span_rows: 1,
        },
        pending: false,
    })
}

#[test]
fn split_tile_vms_partitions_by_variant() {
    let tiles = vec![
        make_light_tile("Kitchen", "on", "mdi:lightbulb"),
        make_sensor_tile("Hallway", "21.3", "mdi:thermometer"),
        make_entity_tile("Outlet", "off", "mdi:help-circle"),
        make_light_tile("Bedroom", "off", "mdi:lightbulb"),
    ];

    let split = split_tile_vms(&tiles);

    assert_eq!(split.lights.len(), 2, "two LightTileVMs expected");
    assert_eq!(split.sensors.len(), 1, "one SensorTileVM expected");
    assert_eq!(split.entities.len(), 1, "one EntityTileVM expected");
}

#[test]
fn split_tile_vms_copies_string_fields_into_shared_strings() {
    let tiles = vec![make_light_tile("Kitchen", "on", "mdi:lightbulb")];
    let split = split_tile_vms(&tiles);
    let lights = &split.lights;

    assert_eq!(lights[0].name.as_str(), "Kitchen");
    assert_eq!(lights[0].state.as_str(), "on");
    assert_eq!(lights[0].icon_id.as_str(), "mdi:lightbulb");
    assert_eq!(lights[0].preferred_columns, 2);
    assert_eq!(lights[0].preferred_rows, 2);
    assert_eq!(lights[0].placement.col, 0);
    assert_eq!(lights[0].placement.span_cols, 2);
}

#[test]
fn split_tile_vms_reflects_state_change_on_re_wire() {
    let tiles_before = vec![make_light_tile("Kitchen", "on", "mdi:lightbulb")];
    let split_before = split_tile_vms(&tiles_before);
    let lights_before = &split_before.lights;
    assert_eq!(lights_before[0].state.as_str(), "on");
    let tiles_after = vec![make_light_tile("Kitchen", "off", "mdi:lightbulb")];
    let split_after = split_tile_vms(&tiles_after);
    let lights_after = &split_after.lights;
    assert_eq!(lights_after[0].state.as_str(), "off");
    assert_eq!(lights_before[0].name, lights_after[0].name);
    assert_eq!(lights_before[0].icon_id, lights_after[0].icon_id);
    assert_ne!(lights_before[0].state, lights_after[0].state);
}

#[test]
fn split_tile_vms_preserves_per_variant_order() {
    let tiles = vec![
        make_light_tile("L1", "on", "mdi:lightbulb"),
        make_sensor_tile("S1", "10", "mdi:thermometer"),
        make_light_tile("L2", "off", "mdi:lightbulb"),
        make_sensor_tile("S2", "20", "mdi:thermometer"),
    ];

    let split = split_tile_vms(&tiles);
    let lights = &split.lights;
    let sensors = &split.sensors;
    assert_eq!(lights[0].name.as_str(), "L1");
    assert_eq!(lights[1].name.as_str(), "L2");
    assert_eq!(sensors[0].name.as_str(), "S1");
    assert_eq!(sensors[1].name.as_str(), "S2");
}

#[test]
fn split_tile_vms_phase6_kinds_route_to_per_kind_vecs() {
    let placement = TilePlacement::default_for(2, 2);
    let tiles = vec![
        TileVM::Cover(CoverTileVM {
            name: "Patio".into(),
            state: "open".into(),
            position: 42,
            tilt: 0,
            has_position: true,
            has_tilt: false,
            is_open: true,
            is_moving: false,
            icon_id: "mdi:window-shutter-open".into(),
            preferred_columns: 2,
            preferred_rows: 2,
            placement,
            pending: false,
        }),
        TileVM::Fan(FanTileVM {
            name: "Bedroom Fan".into(),
            state: "on".into(),
            speed_pct: 75,
            has_speed_pct: true,
            is_on: true,
            current_speed: "high".into(),
            has_current_speed: true,
            icon_id: "mdi:fan".into(),
            preferred_columns: 2,
            preferred_rows: 2,
            placement,
            pending: false,
        }),
        TileVM::Lock(LockTileVM {
            name: "Front Door".into(),
            state: "locked".into(),
            is_locked: true,
            icon_id: "mdi:lock".into(),
            preferred_columns: 2,
            preferred_rows: 2,
            placement,
            pending: false,
        }),
        TileVM::Alarm(AlarmTileVM {
            name: "Home Alarm".into(),
            state: "armed_away".into(),
            is_armed: true,
            is_triggered: false,
            is_pending: false,
            icon_id: "mdi:shield-home".into(),
            preferred_columns: 2,
            preferred_rows: 2,
            placement,
            pending: false,
        }),
        TileVM::History(HistoryGraphTileVM {
            name: "Energy Today".into(),
            state: "12.4".into(),
            change_count: 7,
            is_available: true,
            icon_id: "mdi:chart-line".into(),
            preferred_columns: 2,
            preferred_rows: 2,
            placement,
            pending: false,
            path_commands: "M 0 0 L 1 1".into(),
        }),
        TileVM::Camera(CameraTileVM {
            name: "Front Door".into(),
            state: "recording".into(),
            is_recording: true,
            is_streaming: false,
            is_available: true,
            icon_id: "mdi:cctv".into(),
            preferred_columns: 2,
            preferred_rows: 2,
            placement,
            pending: false,
        }),
        TileVM::Climate(ClimateTileVM {
            name: "Living Room".into(),
            state: "heat".into(),
            is_active: true,
            current_temperature: reading_of(21.5),
            target_temperature: reading_of(22.0),
            icon_id: "mdi:thermostat".into(),
            preferred_columns: 2,
            preferred_rows: 2,
            placement,
            pending: false,
        }),
        TileVM::MediaPlayer(MediaPlayerTileVM {
            name: "Kitchen Speaker".into(),
            state: "playing".into(),
            is_playing: true,
            media_title: Some("Track Name".into()),
            artist: Some("Artist Name".into()),
            volume_level: reading_of(0.55),
            icon_id: "mdi:speaker".into(),
            preferred_columns: 2,
            preferred_rows: 2,
            placement,
            pending: false,
        }),
        TileVM::PowerFlow(PowerFlowTileVM {
            name: "Power".into(),
            grid_w: reading_of(1500.0),
            solar_w: reading_of(2000.0),
            battery_w: reading_of(-300.0),
            battery_pct: reading_of(75.0),
            home_w: reading_of(800.0),
            icon_id: "mdi:lightning-bolt-circle".into(),
            preferred_columns: 2,
            preferred_rows: 2,
            placement,
            pending: false,
        }),
    ];

    let split = split_tile_vms(&tiles);
    assert_eq!(split.covers.len(), 1, "one CoverTileVM expected");
    assert_eq!(split.fans.len(), 1, "one FanTileVM expected");
    assert_eq!(split.locks.len(), 1, "one LockTileVM expected");
    assert_eq!(split.alarms.len(), 1, "one AlarmTileVM expected");
    assert_eq!(split.histories.len(), 1, "one HistoryGraphTileVM expected");
    assert_eq!(split.cameras.len(), 1, "one CameraTileVM expected");
    assert_eq!(split.climates.len(), 1, "one ClimateTileVM expected");
    assert_eq!(
        split.media_players.len(),
        1,
        "one MediaPlayerTileVM expected"
    );
    assert_eq!(split.power_flows.len(), 1, "one PowerFlowTileVM expected");
    assert!(
        split.lights.is_empty() && split.sensors.is_empty() && split.entities.is_empty(),
        "the other buckets must be empty"
    );
    let cover = &split.covers[0];
    assert_eq!(cover.name.as_str(), "Patio");
    assert_eq!(cover.state.as_str(), "open");
    assert_eq!(cover.position, 42);
    assert!(cover.has_position);
    assert!(cover.is_open);
    assert!(!cover.is_moving);
    assert_eq!(cover.icon_id.as_str(), "mdi:window-shutter-open");

    let fan = &split.fans[0];
    assert_eq!(fan.name.as_str(), "Bedroom Fan");
    assert_eq!(fan.state.as_str(), "on");
    assert_eq!(fan.speed_pct, 75);
    assert!(fan.has_speed_pct);
    assert!(fan.is_on);
    assert_eq!(fan.current_speed.as_str(), "high");
    assert!(fan.has_current_speed);

    let lock = &split.locks[0];
    assert_eq!(lock.name.as_str(), "Front Door");
    assert_eq!(lock.state.as_str(), "locked");
    assert!(lock.is_locked);

    let alarm = &split.alarms[0];
    assert_eq!(alarm.name.as_str(), "Home Alarm");
    assert_eq!(alarm.state.as_str(), "armed_away");
    assert!(alarm.is_armed);
    assert!(!alarm.is_triggered);
    assert!(!alarm.is_pending);

    let history = &split.histories[0];
    assert_eq!(history.name.as_str(), "Energy Today");
    assert_eq!(history.state.as_str(), "12.4");
    assert_eq!(history.change_count, 7);
    assert!(history.is_available);
    assert_eq!(history.path_commands.as_str(), "M 0 0 L 1 1");

    let camera = &split.cameras[0];
    assert_eq!(camera.name.as_str(), "Front Door");
    assert_eq!(camera.state.as_str(), "recording");
    assert!(camera.is_recording);
    assert!(!camera.is_streaming);
    assert!(camera.is_available);

    let climate = &split.climates[0];
    assert_eq!(climate.name.as_str(), "Living Room");
    assert_eq!(climate.state.as_str(), "heat");
    assert!(climate.is_active);
    assert!(climate.has_current_temperature);
    assert_eq!(plain(climate.current_temperature), 21.5);
    assert!(climate.has_target_temperature);
    assert_eq!(plain(climate.target_temperature), 22.0);

    let mp = &split.media_players[0];
    assert_eq!(mp.name.as_str(), "Kitchen Speaker");
    assert_eq!(mp.state.as_str(), "playing");
    assert!(mp.is_playing);
    assert!(mp.has_media_title);
    assert_eq!(mp.media_title.as_str(), "Track Name");
    assert!(mp.has_artist);
    assert_eq!(mp.artist.as_str(), "Artist Name");
    assert!(mp.has_volume_level);
    assert!((plain(mp.volume_level) - 0.55).abs() < 1e-6);
    let pf = &split.power_flows[0];
    assert_eq!(pf.name.as_str(), "Power");
    assert!(pf.is_available, "grid_w=Some → is_available=true");
    assert!(pf.grid_importing, "grid_w > 0 → importing");
    assert!(!pf.grid_idle, "1500 W is well above the idle threshold");
    assert!(pf.has_solar);
    assert!(!pf.solar_idle);
    assert!(pf.has_battery);
    assert!(!pf.battery_charging, "battery_w < 0 → discharging");
    assert!(!pf.battery_idle);
    assert!(pf.has_battery_pct);
    assert!((plain(pf.battery_pct) - 75.0).abs() < 1e-6);
    assert!(pf.has_home);
    assert!(!pf.home_idle);
}

#[test]
fn split_tile_vms_option_f32_none_projects_to_default_with_has_flag_false() {
    let placement = TilePlacement::default_for(2, 2);
    let tiles = vec![
        TileVM::Climate(ClimateTileVM {
            name: "Climate".into(),
            state: "off".into(),
            is_active: false,
            current_temperature: None,
            target_temperature: None,
            icon_id: "mdi:thermostat".into(),
            preferred_columns: 2,
            preferred_rows: 2,
            placement,
            pending: false,
        }),
        TileVM::MediaPlayer(MediaPlayerTileVM {
            name: "MP".into(),
            state: "idle".into(),
            is_playing: false,
            media_title: None,
            artist: None,
            volume_level: None,
            icon_id: "mdi:speaker".into(),
            preferred_columns: 2,
            preferred_rows: 2,
            placement,
            pending: false,
        }),
        TileVM::PowerFlow(PowerFlowTileVM {
            name: "PF".into(),
            grid_w: None,
            solar_w: None,
            battery_w: None,
            battery_pct: None,
            home_w: None,
            icon_id: "mdi:lightning-bolt-circle".into(),
            preferred_columns: 2,
            preferred_rows: 2,
            placement,
            pending: false,
        }),
    ];

    let split = split_tile_vms(&tiles);

    let climate = &split.climates[0];
    assert!(!climate.has_current_temperature);
    assert_eq!(plain(climate.current_temperature), 0.0);
    assert!(!climate.has_target_temperature);
    assert_eq!(plain(climate.target_temperature), 0.0);

    let mp = &split.media_players[0];
    assert!(!mp.has_media_title);
    assert_eq!(mp.media_title.as_str(), "");
    assert!(!mp.has_artist);
    assert_eq!(mp.artist.as_str(), "");
    assert!(!mp.has_volume_level);
    assert_eq!(plain(mp.volume_level), 0.0);

    let pf = &split.power_flows[0];
    assert!(!pf.is_available, "grid_w=None → is_available=false");
    assert!(pf.grid_idle, "grid_w=None → idle=true (defensive default)");
    assert!(!pf.grid_importing);
    assert!(!pf.has_solar);
    assert!(pf.solar_idle);
    assert!(!pf.has_battery);
    assert!(pf.battery_idle);
    assert!(!pf.battery_charging);
    assert!(!pf.has_battery_pct);
    assert_eq!(plain(pf.battery_pct), 0.0);
    assert!(!pf.has_home);
    assert!(pf.home_idle);
}

#[test]
fn tile_vm_kind_str_matches_every_variant() {
    let placement = TilePlacement::default_for(1, 1);
    assert_eq!(
        tile_vm_kind_str(&TileVM::Light(LightTileVM {
            name: String::new(),
            state: String::new(),
            icon_id: String::new(),
            preferred_columns: 1,
            preferred_rows: 1,
            placement,
            pending: false,
        })),
        "light",
    );
    assert_eq!(
        tile_vm_kind_str(&TileVM::Sensor(SensorTileVM {
            name: String::new(),
            state: String::new(),
            icon_id: String::new(),
            preferred_columns: 1,
            preferred_rows: 1,
            placement,
            pending: false,
        })),
        "sensor",
    );
    assert_eq!(
        tile_vm_kind_str(&TileVM::Entity(EntityTileVM {
            name: String::new(),
            state: String::new(),
            icon_id: String::new(),
            preferred_columns: 1,
            preferred_rows: 1,
            placement,
            pending: false,
        })),
        "entity",
    );
    assert_eq!(
        tile_vm_kind_str(&TileVM::Cover(CoverTileVM {
            name: String::new(),
            state: String::new(),
            position: 0,
            tilt: 0,
            has_position: false,
            has_tilt: false,
            is_open: false,
            is_moving: false,
            icon_id: String::new(),
            preferred_columns: 1,
            preferred_rows: 1,
            placement,
            pending: false,
        })),
        "cover",
    );
    assert_eq!(
        tile_vm_kind_str(&TileVM::Fan(FanTileVM {
            name: String::new(),
            state: String::new(),
            speed_pct: 0,
            has_speed_pct: false,
            is_on: false,
            current_speed: String::new(),
            has_current_speed: false,
            icon_id: String::new(),
            preferred_columns: 1,
            preferred_rows: 1,
            placement,
            pending: false,
        })),
        "fan",
    );
    assert_eq!(
        tile_vm_kind_str(&TileVM::Lock(LockTileVM {
            name: String::new(),
            state: String::new(),
            is_locked: false,
            icon_id: String::new(),
            preferred_columns: 1,
            preferred_rows: 1,
            placement,
            pending: false,
        })),
        "lock",
    );
    assert_eq!(
        tile_vm_kind_str(&TileVM::Alarm(AlarmTileVM {
            name: String::new(),
            state: String::new(),
            is_armed: false,
            is_triggered: false,
            is_pending: false,
            icon_id: String::new(),
            preferred_columns: 1,
            preferred_rows: 1,
            placement,
            pending: false,
        })),
        "alarm",
    );
    assert_eq!(
        tile_vm_kind_str(&TileVM::History(HistoryGraphTileVM {
            name: String::new(),
            state: String::new(),
            change_count: 0,
            is_available: false,
            icon_id: String::new(),
            preferred_columns: 1,
            preferred_rows: 1,
            placement,
            pending: false,
            path_commands: String::new(),
        })),
        "history",
    );
    assert_eq!(
        tile_vm_kind_str(&TileVM::Camera(CameraTileVM {
            name: String::new(),
            state: String::new(),
            is_recording: false,
            is_streaming: false,
            is_available: false,
            icon_id: String::new(),
            preferred_columns: 1,
            preferred_rows: 1,
            placement,
            pending: false,
        })),
        "camera",
    );
    assert_eq!(
        tile_vm_kind_str(&TileVM::Climate(ClimateTileVM {
            name: String::new(),
            state: String::new(),
            is_active: false,
            current_temperature: None,
            target_temperature: None,
            icon_id: String::new(),
            preferred_columns: 1,
            preferred_rows: 1,
            placement,
            pending: false,
        })),
        "climate",
    );
    assert_eq!(
        tile_vm_kind_str(&TileVM::MediaPlayer(MediaPlayerTileVM {
            name: String::new(),
            state: String::new(),
            is_playing: false,
            media_title: None,
            artist: None,
            volume_level: None,
            icon_id: String::new(),
            preferred_columns: 1,
            preferred_rows: 1,
            placement,
            pending: false,
        })),
        "media_player",
    );
    assert_eq!(
        tile_vm_kind_str(&TileVM::PowerFlow(PowerFlowTileVM {
            name: String::new(),
            grid_w: None,
            solar_w: None,
            battery_w: None,
            battery_pct: None,
            home_w: None,
            icon_id: String::new(),
            preferred_columns: 1,
            preferred_rows: 1,
            placement,
            pending: false,
        })),
        "power_flow",
    );
}

/// A lane is idle below one watt in either direction, and forward above zero.
#[test]
fn power_flow_row_flags_follow_the_reading() {
    let row = |watts: f32| {
        let vm = PowerFlowTileVM {
            name: "Power".to_string(),
            grid_w: reading_of(watts),
            solar_w: None,
            battery_w: reading_of(watts),
            battery_pct: None,
            home_w: None,
            icon_id: String::new(),
            preferred_columns: 1,
            preferred_rows: 1,
            placement: TilePlacement::default_for(1, 1),
            pending: false,
        };
        let split = split_tile_vms(&vec![TileVM::PowerFlow(vm)]);
        let pf = &split.power_flows[0];
        assert_eq!(plain(pf.grid_w).to_bits(), watts.to_bits());
        assert_eq!(pf.grid_idle, pf.battery_idle);
        assert_eq!(pf.grid_importing, pf.battery_charging);
        assert_eq!(pf.grid_label, format!("{watts:.1} W"));
        assert_eq!(pf.home_label, "0.0 W");
        (pf.grid_idle, pf.grid_importing)
    };
    assert_eq!(row(0.0), (true, false));
    assert_eq!(row(-0.0), (true, false));
    assert_eq!(row(0.999_999_94), (true, true));
    assert_eq!(row(1.0), (false, true));
    assert_eq!(row(-1.0), (false, false));
    assert_eq!(row(-0.5), (true, false));
    assert_eq!(row(f32::INFINITY), (false, true));
    assert_eq!(row(f32::NAN), (false, false));
}

/// Every tile is found at its row of the model of its kind, and no row is left
/// over.
#[test]
fn split_shows_every_tile_once() {
    let tiles = build_tiles(&fixture_store(), &fixture_dashboard());
    let split = split_tile_vms(&tiles);
    assert_eq!(split.lights.len() + split.sensors.len() + split.entities.len(), tiles.len());
    assert_eq!(TileVM::Light(split.lights[0].clone()), tiles[0]);
    assert_eq!(TileVM::Sensor(split.sensors[0].clone()), tiles[1]);
    assert_eq!(TileVM::Entity(split.entities[0].clone()), tiles[2]);
    assert_eq!(TileVM::Entity(split.entities[1].clone()), tiles[3]);
    assert_eq!(TileVM::Light(split.lights[1].clone()), tiles[4]);
}
