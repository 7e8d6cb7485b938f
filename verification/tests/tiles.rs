//! Building tiles.
use hanui::entity::{AttrValue, Attributes, Entity, EntityId};
use hanui::number::{Real32, Real64};
use hanui::schema::{DashView, Dashboard, Placement, Section, SectionGrid, Widget, WidgetKind, WidgetLayout, WidgetOptions};
use hanui::store::MemoryStore;
use hanui::tile::{AlarmTileVM, CameraTileVM, ClimateTileVM, CoverTileVM, EntityTileVM, FanTileVM, HistoryGraphTileVM, LightTileVM, LockTileVM, MediaPlayerTileVM, PowerFlowTileVM, SensorTileVM, TilePlacement, TileVM};
use hanui::tiles::{PowerFlowAuxiliaryReadings, PowerFlowBuildArgs, build_tiles, compute_alarm_tile_vm, compute_camera_tile_vm, compute_climate_tile_vm, compute_cover_tile_vm, compute_fan_tile_vm, compute_lock_tile_vm, compute_media_player_tile_vm, compute_power_flow_tile_vm, compute_power_flow_tile_vm_from_widget};

fn make_test_entity(id: &str, state: &str) -> Entity {
    Entity {
        id: EntityId::from(id),
        state: state.to_string(),
        state_number: state
            .parse::<f64>()
            .ok()
            .map(|n| Real64 { bits: n.to_bits() }),
        attributes: Attributes::new(),
    }
}

fn attr_value(text: &str) -> AttrValue {
    if let Some(rest) = text.strip_prefix('"') {
        AttrValue::Text(rest.trim_end_matches('"').to_string())
    } else if text == "true" || text == "false" {
        AttrValue::Bool(text == "true")
    } else if let Ok(n) = text.parse::<u64>() {
        AttrValue::Unsigned(n)
    } else if let Ok(n) = text.parse::<i64>() {
        AttrValue::Signed(n)
    } else {
        AttrValue::Float(Real64 {
            bits: text.parse::<f64>().expect("a number").to_bits(),
        })
    }
}

fn entity_with_attr(state: &str, key: &str, value_str: &str) -> Entity {
    let mut entity = make_test_entity("cover.test", state);
    entity
        .attributes
        .insert(key.to_string(), attr_value(value_str));
    entity
}

fn entity_with_attrs(state: &str, attrs_json: &str) -> Entity {
    let mut entity = make_test_entity("media_player.tv", state);
    let inner = attrs_json.trim_start_matches('{').trim_end_matches('}');
    for pair in inner.split(',') {
        let (key, value) = pair.split_once(':').expect("a key and a value");
        entity
            .attributes
            .insert(key.trim_matches('"').to_string(), attr_value(value));
    }
    entity
}

fn fixture_store() -> MemoryStore {
    let mut light = make_test_entity("light.kitchen", "on");
    light.attributes.insert(
        "friendly_name".to_string(),
        AttrValue::Text("Kitchen Light".to_string()),
    );
    let mut sensor = make_test_entity("sensor.hallway_temperature", "21.3");
    sensor.attributes.insert(
        "friendly_name".to_string(),
        AttrValue::Text("Hallway Temperature".to_string()),
    );
    let mut outlet = make_test_entity("switch.outlet_1", "off");
    outlet.attributes.insert(
        "friendly_name".to_string(),
        AttrValue::Text("Outlet 1".to_string()),
    );
    MemoryStore::load(vec![
        light,
        sensor,
        outlet,
        make_test_entity("binary_sensor.foo", "off"),
    ])
}

fn fixture_dashboard() -> Dashboard {
    let mk = |id: &str, kind: WidgetKind, entity: &str, name: Option<&str>, rows: u8| Widget {
        id: id.to_string(),
        widget_type: kind,
        entity: Some(entity.to_string()),
        name: name.map(str::to_string),
        icon: None,
        layout: WidgetLayout {
            preferred_columns: 2,
            preferred_rows: rows,
        },
        options: None,
        placement: None,
    };
    Dashboard {
        default_view: "home".to_string(),
        views: vec![DashView {
            id: "home".to_string(),
            title: "Home".to_string(),
            sections: vec![
                Section {
                    grid: SectionGrid { columns: 4, gap: 8 },
                    id: "overview".to_string(),
                    title: "Overview".to_string(),
                    widgets: vec![
                        mk("kitchen", WidgetKind::LightTile, "light.kitchen", None, 2),
                        mk(
                            "hallway",
                            WidgetKind::SensorTile,
                            "sensor.hallway_temperature",
                            None,
                            1,
                        ),
                        mk(
                            "living",
                            WidgetKind::EntityTile,
                            "switch.outlet_1",
                            Some("Living Room"),
                            1,
                        ),
                    ],
                },
                Section {
                    grid: SectionGrid { columns: 3, gap: 4 },
                    id: "more".to_string(),
                    title: "More".to_string(),
                    widgets: vec![
                        mk("foo", WidgetKind::EntityTile, "binary_sensor.foo", None, 1),
                        mk("kitchen-2", WidgetKind::LightTile, "light.kitchen", None, 1),
                    ],
                },
            ],
        }],
    }
}

fn reading_of(reading: f32) -> Option<Real32> {
    Some(Real32 {
        bits: reading.to_bits(),
    })
}

fn value(reading: Option<Real32>) -> Option<f32> {
    reading.map(|r| f32::from_bits(r.bits))
}

fn dashboard_with_kind(entity_id: &str, kind: WidgetKind) -> Dashboard {
    Dashboard {
        default_view: "home".to_string(),
        views: vec![DashView {
            id: "home".to_string(),
            title: "Home".to_string(),
            sections: vec![Section {
                grid: SectionGrid { columns: 12, gap: 8 },
                id: "s1".to_string(),
                title: "Test".to_string(),
                widgets: vec![Widget {
                    id: "w1".to_string(),
                    widget_type: kind,
                    entity: Some(entity_id.to_string()),
                    name: None,
                    icon: None,
                    layout: WidgetLayout {
                        preferred_columns: 2,
                        preferred_rows: 2,
                    },
                    options: None,
                    placement: None,
                }],
            }],
        }],
    }
}

#[test]
fn smoke_build_tiles_all_three_kinds() {
    let store = fixture_store();
    let dashboard = fixture_dashboard();

    let tiles = build_tiles(&store, &dashboard);
    let widget_count: usize = dashboard
        .views
        .iter()
        .flat_map(|v| v.sections.iter())
        .map(|s| s.widgets.len())
        .sum();
    assert_eq!(
        tiles.len(),
        widget_count,
        "must produce one TileVM per widget"
    );
    let has_light = tiles.iter().any(|t| matches!(t, TileVM::Light(_)));
    let has_sensor = tiles.iter().any(|t| matches!(t, TileVM::Sensor(_)));
    let has_entity = tiles.iter().any(|t| matches!(t, TileVM::Entity(_)));
    assert!(has_light, "expected at least one LightTileVM");
    assert!(has_sensor, "expected at least one SensorTileVM");
    assert!(has_entity, "expected at least one EntityTileVM");
}

#[test]
fn light_tile_vm_fields_from_fixture() {
    let store = fixture_store();
    let dashboard = fixture_dashboard();

    let tiles = build_tiles(&store, &dashboard);
    let light_vm = tiles
        .iter()
        .find_map(|t| {
            if let TileVM::Light(vm) = t {
                Some(vm)
            } else {
                None
            }
        })
        .expect("expected at least one LightTileVM");
    assert_eq!(
        light_vm.name, "Kitchen Light",
        "name must come from friendly_name"
    );
    assert_eq!(light_vm.state, "on", "state must be 'on' for light.kitchen");
    assert_eq!(
        light_vm.icon_id, "mdi:lightbulb",
        "default icon_id for Light"
    );
    assert_eq!(light_vm.preferred_columns, 2);
    assert_eq!(light_vm.preferred_rows, 2);
    assert_eq!(
        light_vm.placement,
        TilePlacement {
            col: 0,
            row: 0,
            span_cols: 2,
            span_rows: 2
        }
    );
}

#[test]
fn sensor_tile_vm_fields_from_fixture() {
    let store = fixture_store();
    let dashboard = fixture_dashboard();

    let tiles = build_tiles(&store, &dashboard);
    let sensor_vm = tiles
        .iter()
        .find_map(|t| {
            if let TileVM::Sensor(vm) = t {
                Some(vm)
            } else {
                None
            }
        })
        .expect("expected at least one SensorTileVM");

    assert_eq!(sensor_vm.name, "Hallway Temperature");
    assert_eq!(sensor_vm.state, "21.3");
    assert_eq!(sensor_vm.icon_id, "mdi:thermometer");
    assert_eq!(sensor_vm.preferred_columns, 2);
    assert_eq!(sensor_vm.preferred_rows, 1);
    assert_eq!(
        sensor_vm.placement,
        TilePlacement {
            col: 0,
            row: 0,
            span_cols: 2,
            span_rows: 1
        }
    );
}

#[test]
fn entity_tile_vm_fields_from_fixture() {
    let store = fixture_store();
    let dashboard = fixture_dashboard();

    let tiles = build_tiles(&store, &dashboard);
    let entity_vm = tiles
        .iter()
        .find_map(|t| {
            if let TileVM::Entity(vm) = t {
                Some(vm)
            } else {
                None
            }
        })
        .expect("expected at least one EntityTileVM");
    assert_eq!(
        entity_vm.name, "Living Room",
        "explicit widget name takes precedence"
    );
    assert_eq!(entity_vm.state, "off", "fixture entity state must be 'off'");
    assert_eq!(entity_vm.icon_id, "mdi:help-circle");
    assert_eq!(entity_vm.preferred_columns, 2);
    assert_eq!(entity_vm.preferred_rows, 1);
    assert_eq!(
        entity_vm.placement,
        TilePlacement {
            col: 0,
            row: 0,
            span_cols: 2,
            span_rows: 1
        }
    );
}

#[test]
fn missing_entity_produces_entity_tile_vm_with_unavailable() {
    let store = fixture_store();
    let dashboard = Dashboard {
        default_view: "home".to_string(),
        views: vec![DashView {
            id: "home".to_string(),
            title: "Home".to_string(),
            sections: vec![Section {
                grid: SectionGrid { columns: 12, gap: 8 },
                id: "s1".to_string(),
                title: "Test".to_string(),
                widgets: vec![Widget {
                    id: "w1".to_string(),
                    widget_type: WidgetKind::EntityTile,
                    entity: Some("switch.does_not_exist_xyz".to_string()),
                    name: Some("Ghost Switch".to_string()),
                    icon: None,
                    layout: WidgetLayout {
                        preferred_columns: 2,
                        preferred_rows: 1,
                    },
                    options: None,
                    placement: None,
                }],
            }],
        }],
    };

    let tiles = build_tiles(&store, &dashboard);
    assert_eq!(tiles.len(), 1);

    let entity_vm = match &tiles[0] {
        TileVM::Entity(vm) => vm,
        other => panic!("expected EntityTileVM, got {:?}", other),
    };

    assert_eq!(
        entity_vm.state, "unavailable",
        "missing entity must render with state=unavailable"
    );
}

#[test]
fn icon_id_override_in_widget_config_takes_precedence() {
    let store = fixture_store();

    let dashboard = Dashboard {
        default_view: "home".to_string(),
        views: vec![DashView {
            id: "home".to_string(),
            title: "Home".to_string(),
            sections: vec![Section {
                grid: SectionGrid { columns: 12, gap: 8 },
                id: "s1".to_string(),
                title: "Test".to_string(),
                widgets: vec![Widget {
                    id: "w1".to_string(),
                    widget_type: WidgetKind::LightTile,
                    entity: Some("light.kitchen".to_string()),
                    name: None,
                    icon: Some("mdi:lamp".to_string()),
                    layout: WidgetLayout {
                        preferred_columns: 1,
                        preferred_rows: 1,
                    },
                    options: None,
                    placement: None,
                }],
            }],
        }],
    };

    let tiles = build_tiles(&store, &dashboard);
    assert_eq!(tiles.len(), 1);
    if let TileVM::Light(vm) = &tiles[0] {
        assert_eq!(vm.icon_id, "mdi:lamp", "widget icon override must win");
    } else {
        panic!("expected LightTileVM");
    }
}

#[test]
fn explicit_placement_in_widget_is_used_verbatim() {
    let store = fixture_store();

    let dashboard = Dashboard {
        default_view: "home".to_string(),
        views: vec![DashView {
            id: "home".to_string(),
            title: "Home".to_string(),
            sections: vec![Section {
                grid: SectionGrid { columns: 12, gap: 8 },
                id: "s1".to_string(),
                title: "Test".to_string(),
                widgets: vec![Widget {
                    id: "w1".to_string(),
                    widget_type: WidgetKind::SensorTile,
                    entity: Some("sensor.hallway_temperature".to_string()),
                    name: None,
                    icon: None,
                    layout: WidgetLayout {
                        preferred_columns: 2,
                        preferred_rows: 1,
                    },
                    options: None,
                    placement: Some(Placement {
                        col: 3,
                        row: 1,
                        span_cols: 2,
                        span_rows: 1,
                    }),
                }],
            }],
        }],
    };

    let tiles = build_tiles(&store, &dashboard);
    assert_eq!(tiles.len(), 1);
    if let TileVM::Sensor(vm) = &tiles[0] {
        assert_eq!(
            vm.placement,
            TilePlacement {
                col: 3,
                row: 1,
                span_cols: 2,
                span_rows: 1
            }
        );
    } else {
        panic!("expected SensorTileVM");
    }
}

#[test]
fn name_falls_back_to_entity_id_when_no_friendly_name() {
    let store = fixture_store();
    let dashboard = Dashboard {
        default_view: "home".to_string(),
        views: vec![DashView {
            id: "home".to_string(),
            title: "Home".to_string(),
            sections: vec![Section {
                grid: SectionGrid { columns: 12, gap: 8 },
                id: "s1".to_string(),
                title: "Test".to_string(),
                widgets: vec![Widget {
                    id: "w1".to_string(),
                    widget_type: WidgetKind::EntityTile,
                    entity: Some("binary_sensor.foo".to_string()),
                    name: None,
                    icon: None,
                    layout: WidgetLayout {
                        preferred_columns: 1,
                        preferred_rows: 1,
                    },
                    options: None,
                    placement: None,
                }],
            }],
        }],
    };

    let tiles = build_tiles(&store, &dashboard);
    assert_eq!(tiles.len(), 1);
    if let TileVM::Entity(vm) = &tiles[0] {
        assert_eq!(
            vm.name, "binary_sensor.foo",
            "entity ID must be the fallback name when friendly_name is absent"
        );
    } else {
        panic!("expected EntityTileVM");
    }
}

#[test]
fn empty_dashboard_produces_empty_vec() {
    let store = fixture_store();

    let dashboard = Dashboard {
        default_view: "empty".to_string(),
        views: vec![DashView {
            id: "empty".to_string(),
            title: "Empty".to_string(),
            sections: vec![],
        }],
    };

    let tiles = build_tiles(&store, &dashboard);
    assert!(tiles.is_empty(), "no widgets means no tiles");
}

#[test]
fn build_tiles_cover_widget_with_missing_entity_emits_unavailable_cover_vm() {
    let store = MemoryStore::load(vec![]);
    let dashboard = dashboard_with_kind("cover.does_not_exist", WidgetKind::Cover);
    let tiles = build_tiles(&store, &dashboard);
    assert_eq!(tiles.len(), 1, "row layout stays stable: one tile emitted");
    match &tiles[0] {
        TileVM::Cover(vm) => {
            assert_eq!(vm.state, "unavailable");
            assert!(!vm.is_open, "unavailable cover must not be open");
            assert!(!vm.is_moving);
            assert!(!vm.has_position);
            assert!(!vm.has_tilt);
            assert_eq!(vm.icon_id, "mdi:help-circle");
        }
        other => panic!("expected CoverTileVM placeholder, got {other:?}"),
    }
}

#[test]
fn build_tiles_fan_widget_with_missing_entity_emits_unavailable_fan_vm() {
    let store = MemoryStore::load(vec![]);
    let dashboard = dashboard_with_kind("fan.does_not_exist", WidgetKind::Fan);
    let tiles = build_tiles(&store, &dashboard);
    assert_eq!(tiles.len(), 1);
    match &tiles[0] {
        TileVM::Fan(vm) => {
            assert_eq!(vm.state, "unavailable");
            assert!(!vm.is_on);
            assert!(!vm.has_speed_pct);
            assert!(!vm.has_current_speed);
            assert_eq!(vm.current_speed, "");
        }
        other => panic!("expected FanTileVM placeholder, got {other:?}"),
    }
}

#[test]
fn build_tiles_lock_widget_with_missing_entity_emits_unavailable_lock_vm() {
    let store = MemoryStore::load(vec![]);
    let dashboard = dashboard_with_kind("lock.does_not_exist", WidgetKind::Lock);
    let tiles = build_tiles(&store, &dashboard);
    assert_eq!(tiles.len(), 1);
    match &tiles[0] {
        TileVM::Lock(vm) => {
            assert_eq!(vm.state, "unavailable");
            assert!(!vm.is_locked, "unavailable lock must not be locked");
        }
        other => panic!("expected LockTileVM placeholder, got {other:?}"),
    }
}

#[test]
fn build_tiles_alarm_widget_with_missing_entity_emits_unavailable_alarm_vm() {
    let store = MemoryStore::load(vec![]);
    let dashboard =
        dashboard_with_kind("alarm_control_panel.does_not_exist", WidgetKind::Alarm);
    let tiles = build_tiles(&store, &dashboard);
    assert_eq!(tiles.len(), 1);
    match &tiles[0] {
        TileVM::Alarm(vm) => {
            assert_eq!(vm.state, "unavailable");
            assert!(!vm.is_armed);
            assert!(!vm.is_triggered);
            assert!(!vm.is_pending);
        }
        other => panic!("expected AlarmTileVM placeholder, got {other:?}"),
    }
}

#[test]
fn build_tiles_history_widget_with_missing_entity_emits_unavailable_history_vm() {
    let store = MemoryStore::load(vec![]);
    let dashboard = dashboard_with_kind("sensor.does_not_exist", WidgetKind::History);
    let tiles = build_tiles(&store, &dashboard);
    assert_eq!(tiles.len(), 1);
    match &tiles[0] {
        TileVM::History(vm) => {
            assert_eq!(vm.state, "unavailable");
            assert!(!vm.is_available);
            assert_eq!(vm.change_count, 0);
            assert_eq!(vm.path_commands, "");
        }
        other => panic!("expected HistoryGraphTileVM placeholder, got {other:?}"),
    }
}

#[test]
fn build_tiles_camera_widget_with_missing_entity_emits_unavailable_camera_vm() {
    let store = MemoryStore::load(vec![]);
    let dashboard = dashboard_with_kind("camera.does_not_exist", WidgetKind::Camera);
    let tiles = build_tiles(&store, &dashboard);
    assert_eq!(tiles.len(), 1);
    match &tiles[0] {
        TileVM::Camera(vm) => {
            assert_eq!(vm.state, "unavailable");
            assert!(!vm.is_recording);
            assert!(!vm.is_streaming);
            assert!(!vm.is_available);
        }
        other => panic!("expected CameraTileVM placeholder, got {other:?}"),
    }
}

#[test]
fn build_tiles_climate_widget_with_missing_entity_emits_unavailable_climate_vm() {
    let store = MemoryStore::load(vec![]);
    let dashboard = dashboard_with_kind("climate.does_not_exist", WidgetKind::Climate);
    let tiles = build_tiles(&store, &dashboard);
    assert_eq!(tiles.len(), 1);
    match &tiles[0] {
        TileVM::Climate(vm) => {
            assert_eq!(vm.state, "unavailable");
            assert!(!vm.is_active);
            assert_eq!(value(vm.current_temperature), None);
            assert_eq!(value(vm.target_temperature), None);
        }
        other => panic!("expected ClimateTileVM placeholder, got {other:?}"),
    }
}

#[test]
fn build_tiles_media_player_widget_with_missing_entity_emits_unavailable_media_player_vm() {
    let store = MemoryStore::load(vec![]);
    let dashboard = dashboard_with_kind("media_player.does_not_exist", WidgetKind::MediaPlayer);
    let tiles = build_tiles(&store, &dashboard);
    assert_eq!(tiles.len(), 1);
    match &tiles[0] {
        TileVM::MediaPlayer(vm) => {
            assert_eq!(vm.state, "unavailable");
            assert!(!vm.is_playing);
            assert_eq!(vm.media_title, None);
            assert_eq!(vm.artist, None);
            assert_eq!(value(vm.volume_level), None);
        }
        other => panic!("expected MediaPlayerTileVM placeholder, got {other:?}"),
    }
}

#[test]
fn compute_power_flow_tile_vm_from_widget_options_path_with_missing_grid_resolves_auxiliaries()
{
    let store = MemoryStore::load(vec![
        make_test_entity("sensor.solar_power", "2000.0"),
        make_test_entity("sensor.battery_power", "-300.0"),
        make_test_entity("sensor.battery_soc", "75.0"),
        make_test_entity("sensor.home_power", "800.0"),
    ]);

    let options = WidgetOptions::PowerFlow {
        grid_entity: "sensor.does_not_exist_grid".to_string(),
        solar_entity: Some("sensor.solar_power".to_string()),
        battery_entity: Some("sensor.battery_power".to_string()),
        battery_soc_entity: Some("sensor.battery_soc".to_string()),
        home_entity: Some("sensor.home_power".to_string()),
    };

    let vm = compute_power_flow_tile_vm_from_widget(
        PowerFlowBuildArgs {
            name: "Power".to_string(),
            icon_id: "mdi:lightning-bolt-circle".to_string(),
            preferred_columns: 2,
            preferred_rows: 2,
            placement: TilePlacement::default_for(2, 2),
            wrapper_entity: None,
            options: Some(&options),
        },
        &store,
    );
    assert!(
        vm.grid_w.is_none(),
        "missing grid entity must surface as grid_w=None"
    );
    assert_eq!(value(vm.solar_w), Some(2000.0));
    assert_eq!(value(vm.battery_w), Some(-300.0));
    assert_eq!(value(vm.battery_pct), Some(75.0));
    assert_eq!(value(vm.home_w), Some(800.0));
    assert_eq!(vm.name, "Power");
    assert_eq!(vm.icon_id, "mdi:lightning-bolt-circle");
    assert!(!vm.pending);
}

#[test]
fn compute_power_flow_tile_vm_from_widget_defensive_fallback_emits_all_none() {
    let store = MemoryStore::load(vec![]);

    let vm = compute_power_flow_tile_vm_from_widget(
        PowerFlowBuildArgs {
            name: "Defensive Power".to_string(),
            icon_id: "mdi:lightning-bolt-circle".to_string(),
            preferred_columns: 2,
            preferred_rows: 2,
            placement: TilePlacement::default_for(2, 2),
            wrapper_entity: None,
            options: None, // <-- no options
        },
        &store,
    );

    assert_eq!(vm.name, "Defensive Power");
    assert!(vm.grid_w.is_none());
    assert!(vm.solar_w.is_none());
    assert!(vm.battery_w.is_none());
    assert!(vm.battery_pct.is_none());
    assert!(vm.home_w.is_none());
    assert!(!vm.pending);
    assert_eq!(vm.icon_id, "mdi:lightning-bolt-circle");
}

#[test]
fn missing_entity_fallback_preserves_widget_kind_row_layout() {
    let mk = |id: &str, kind: WidgetKind, entity: &str| Widget {
        id: id.to_string(),
        widget_type: kind,
        entity: Some(entity.to_string()),
        name: None,
        icon: None,
        layout: WidgetLayout {
            preferred_columns: 1,
            preferred_rows: 1,
        },
        options: None,
        placement: None,
    };
    let dashboard = Dashboard {
        default_view: "home".to_string(),
        views: vec![DashView {
            id: "home".to_string(),
            title: "H".to_string(),
            sections: vec![Section {
                grid: SectionGrid { columns: 12, gap: 8 },
                id: "s".to_string(),
                title: "T".to_string(),
                widgets: vec![
                    mk("w1", WidgetKind::LightTile, "light.absent"),
                    mk("w2", WidgetKind::SensorTile, "sensor.absent"),
                ],
            }],
        }],
    };
    let store = MemoryStore::load(vec![]);
    let tiles = build_tiles(&store, &dashboard);
    assert_eq!(tiles.len(), 2);
    match &tiles[0] {
        TileVM::Light(vm) => {
            assert_eq!(vm.state, "unavailable");
        }
        other => panic!("expected TileVM::Light fallback, got {other:?}"),
    }
    match &tiles[1] {
        TileVM::Sensor(vm) => {
            assert_eq!(vm.state, "unavailable");
        }
        other => panic!("expected TileVM::Sensor fallback, got {other:?}"),
    }
}

#[test]
fn missing_entity_with_no_widget_name_falls_back_to_entity_id_string() {
    let store = MemoryStore::load(vec![]); // no entities loaded → all missing

    let dashboard = Dashboard {
        default_view: "home".to_string(),
        views: vec![DashView {
            id: "home".to_string(),
            title: "Home".to_string(),
            sections: vec![Section {
                grid: SectionGrid { columns: 12, gap: 8 },
                id: "s1".to_string(),
                title: "Test".to_string(),
                widgets: vec![Widget {
                    id: "w1".to_string(),
                    widget_type: WidgetKind::EntityTile,
                    entity: Some("switch.does_not_exist".to_string()),
                    name: None,
                    icon: None,
                    layout: WidgetLayout {
                        preferred_columns: 1,
                        preferred_rows: 1,
                    },
                    options: None,
                    placement: None,
                }],
            }],
        }],
    };

    let tiles = build_tiles(&store, &dashboard);
    assert_eq!(tiles.len(), 1);
    if let TileVM::Entity(vm) = &tiles[0] {
        assert_eq!(
            vm.name, "switch.does_not_exist",
            "fallback name for missing entity with no widget.name must be the entity id"
        );
        assert_eq!(vm.state, "unavailable");
    } else {
        panic!("expected EntityTileVM");
    }
}

#[test]
fn compute_cover_tile_vm_closed_state_no_attributes() {
    let entity = make_test_entity("cover.garage", "closed");
    let vm = compute_cover_tile_vm(
        "Garage".to_owned(),
        "mdi:garage".to_owned(),
        2,
        1,
        TilePlacement::default_for(2, 1),
        &entity,
    );
    assert_eq!(vm.name, "Garage");
    assert_eq!(vm.state, "closed");
    assert!(!vm.is_open);
    assert!(!vm.is_moving);
    assert!(
        !vm.has_position,
        "no current_position attribute → has_position=false"
    );
    assert!(!vm.has_tilt);
    assert_eq!(vm.position, 0, "closed default position");
    assert!(!vm.pending);
}

#[test]
fn compute_cover_tile_vm_open_with_position_attribute() {
    let entity = entity_with_attr("open", "current_position", "75");
    let vm = compute_cover_tile_vm(
        "Patio".to_owned(),
        "mdi:window-shutter".to_owned(),
        2,
        1,
        TilePlacement::default_for(2, 1),
        &entity,
    );
    assert_eq!(vm.state, "open");
    assert!(vm.is_open);
    assert!(!vm.is_moving);
    assert!(
        vm.has_position,
        "current_position present → has_position=true"
    );
    assert_eq!(vm.position, 75);
}

#[test]
fn compute_cover_tile_vm_open_with_tilt_attribute() {
    let entity = entity_with_attr("open", "current_tilt_position", "60");
    let vm = compute_cover_tile_vm(
        "Blind".to_owned(),
        "mdi:blinds".to_owned(),
        1,
        1,
        TilePlacement::default_for(1, 1),
        &entity,
    );
    assert!(vm.has_tilt, "current_tilt_position present → has_tilt=true");
    assert_eq!(vm.tilt, 60);
}

#[test]
fn compute_cover_tile_vm_opening_state_is_moving() {
    let entity = make_test_entity("cover.garage", "opening");
    let vm = compute_cover_tile_vm(
        "Garage".to_owned(),
        "mdi:garage-open".to_owned(),
        2,
        1,
        TilePlacement::default_for(2, 1),
        &entity,
    );
    assert!(vm.is_open, "opening colors with destination open");
    assert!(vm.is_moving, "opening is moving");
}

#[test]
fn compute_fan_tile_vm_off_state_no_attributes() {
    let entity = make_test_entity("fan.bedroom", "off");
    let vm = compute_fan_tile_vm(
        "Bedroom".to_owned(),
        "mdi:fan".to_owned(),
        2,
        1,
        TilePlacement::default_for(2, 1),
        &entity,
    );
    assert_eq!(vm.name, "Bedroom");
    assert_eq!(vm.state, "off");
    assert!(!vm.is_on);
    assert!(
        !vm.has_speed_pct,
        "no percentage attribute → has_speed_pct=false"
    );
    assert!(!vm.has_current_speed);
    assert_eq!(vm.speed_pct, 0, "off default speed");
    assert!(vm.current_speed.is_empty());
    assert!(!vm.pending);
}

#[test]
fn compute_fan_tile_vm_on_with_percentage_attribute() {
    let entity = entity_with_attr("on", "percentage", "75");
    let entity = Entity {
        id: EntityId::from("fan.living_room"),
        ..entity
    };
    let vm = compute_fan_tile_vm(
        "Living Room".to_owned(),
        "mdi:fan".to_owned(),
        2,
        1,
        TilePlacement::default_for(2, 1),
        &entity,
    );
    assert_eq!(vm.state, "on");
    assert!(vm.is_on);
    assert!(vm.has_speed_pct, "percentage present → has_speed_pct=true");
    assert_eq!(vm.speed_pct, 75);
}

#[test]
fn compute_fan_tile_vm_on_with_preset_mode_attribute() {
    let entity = entity_with_attr("on", "preset_mode", "\"High\"");
    let entity = Entity {
        id: EntityId::from("fan.kitchen"),
        ..entity
    };
    let vm = compute_fan_tile_vm(
        "Kitchen".to_owned(),
        "mdi:fan".to_owned(),
        1,
        1,
        TilePlacement::default_for(1, 1),
        &entity,
    );
    assert!(
        vm.has_current_speed,
        "preset_mode present → has_current_speed=true"
    );
    assert_eq!(vm.current_speed, "High");
}

#[test]
fn compute_fan_tile_vm_auto_state_is_on() {
    let entity = make_test_entity("fan.attic", "auto");
    let vm = compute_fan_tile_vm(
        "Attic".to_owned(),
        "mdi:fan-auto".to_owned(),
        2,
        1,
        TilePlacement::default_for(2, 1),
        &entity,
    );
    assert_eq!(vm.state, "auto");
    assert!(vm.is_on, "auto colors as on");
}

#[test]
fn compute_lock_tile_vm_locked_state() {
    let entity = make_test_entity("lock.front_door", "locked");
    let vm = compute_lock_tile_vm(
        "Front Door".to_owned(),
        "mdi:lock".to_owned(),
        2,
        1,
        TilePlacement::default_for(2, 1),
        &entity,
    );
    assert_eq!(vm.name, "Front Door");
    assert_eq!(vm.state, "locked");
    assert!(vm.is_locked, "locked state must produce is_locked=true");
    assert!(!vm.pending);
}

#[test]
fn compute_lock_tile_vm_unlocked_state() {
    let entity = make_test_entity("lock.front_door", "unlocked");
    let vm = compute_lock_tile_vm(
        "Front Door".to_owned(),
        "mdi:lock-open".to_owned(),
        2,
        1,
        TilePlacement::default_for(2, 1),
        &entity,
    );
    assert_eq!(vm.state, "unlocked");
    assert!(!vm.is_locked);
}

#[test]
fn compute_lock_tile_vm_jammed_state() {
    let entity = make_test_entity("lock.front_door", "jammed");
    let vm = compute_lock_tile_vm(
        "Front Door".to_owned(),
        "mdi:lock-alert".to_owned(),
        2,
        1,
        TilePlacement::default_for(2, 1),
        &entity,
    );
    assert_eq!(vm.state, "jammed", "state forwarded verbatim");
    assert!(!vm.is_locked, "jammed is not locked");
}

#[test]
fn compute_lock_tile_vm_locking_colors_locked() {
    let entity = make_test_entity("lock.front_door", "locking");
    let vm = compute_lock_tile_vm(
        "Front Door".to_owned(),
        "mdi:lock".to_owned(),
        2,
        1,
        TilePlacement::default_for(2, 1),
        &entity,
    );
    assert_eq!(vm.state, "locking");
    assert!(
        vm.is_locked,
        "locking colours with destination (is_locked=true)"
    );
}

#[test]
fn compute_alarm_tile_vm_disarmed_state() {
    let entity = make_test_entity("alarm_control_panel.home", "disarmed");
    let vm = compute_alarm_tile_vm(
        "Home Alarm".to_owned(),
        "mdi:shield".to_owned(),
        2,
        1,
        TilePlacement::default_for(2, 1),
        &entity,
    );
    assert_eq!(vm.name, "Home Alarm");
    assert_eq!(vm.state, "disarmed");
    assert!(!vm.is_armed, "disarmed → is_armed=false");
    assert!(!vm.is_triggered);
    assert!(!vm.is_pending);
    assert!(!vm.pending);
}

#[test]
fn compute_alarm_tile_vm_armed_away_state() {
    let entity = make_test_entity("alarm_control_panel.home", "armed_away");
    let vm = compute_alarm_tile_vm(
        "Away".to_owned(),
        "mdi:shield-lock".to_owned(),
        2,
        1,
        TilePlacement::default_for(2, 1),
        &entity,
    );
    assert_eq!(vm.state, "armed_away");
    assert!(vm.is_armed, "armed_away → is_armed=true");
    assert!(!vm.is_triggered);
    assert!(!vm.is_pending);
}

#[test]
fn compute_alarm_tile_vm_triggered_state() {
    let entity = make_test_entity("alarm_control_panel.home", "triggered");
    let vm = compute_alarm_tile_vm(
        "Triggered".to_owned(),
        "mdi:shield-alert".to_owned(),
        2,
        1,
        TilePlacement::default_for(2, 1),
        &entity,
    );
    assert!(vm.is_triggered, "triggered → is_triggered=true");
    assert!(!vm.is_armed, "triggered is not an armed_* state");
    assert!(!vm.is_pending);
}

#[test]
fn compute_camera_tile_vm_idle_state() {
    let entity = make_test_entity("camera.front_door", "idle");
    let vm = compute_camera_tile_vm(
        "Front Door".to_owned(),
        "mdi:cctv".to_owned(),
        2,
        1,
        TilePlacement::default_for(2, 1),
        &entity,
    );
    assert_eq!(vm.name, "Front Door");
    assert_eq!(vm.state, "idle");
    assert!(vm.is_available, "idle → is_available=true");
    assert!(!vm.is_recording, "idle → is_recording=false");
    assert!(!vm.is_streaming, "idle → is_streaming=false");
    assert!(!vm.pending);
    assert_eq!(vm.icon_id, "mdi:cctv");
}

#[test]
fn compute_camera_tile_vm_recording_state() {
    let entity = make_test_entity("camera.front_door", "recording");
    let vm = compute_camera_tile_vm(
        "Front Door".to_owned(),
        "mdi:cctv".to_owned(),
        2,
        1,
        TilePlacement::default_for(2, 1),
        &entity,
    );
    assert_eq!(vm.state, "recording");
    assert!(vm.is_available);
    assert!(vm.is_recording, "recording → is_recording=true");
    assert!(!vm.is_streaming);
}

#[test]
fn compute_camera_tile_vm_streaming_state() {
    let entity = make_test_entity("camera.front_door", "streaming");
    let vm = compute_camera_tile_vm(
        "Front Door".to_owned(),
        "mdi:cctv".to_owned(),
        2,
        1,
        TilePlacement::default_for(2, 1),
        &entity,
    );
    assert_eq!(vm.state, "streaming");
    assert!(vm.is_available);
    assert!(!vm.is_recording);
    assert!(vm.is_streaming, "streaming → is_streaming=true");
}

#[test]
fn compute_camera_tile_vm_unavailable_state() {
    let entity = make_test_entity("camera.front_door", "unavailable");
    let vm = compute_camera_tile_vm(
        "Front Door".to_owned(),
        "mdi:cctv".to_owned(),
        2,
        1,
        TilePlacement::default_for(2, 1),
        &entity,
    );
    assert!(!vm.is_available, "unavailable → is_available=false");
    assert!(!vm.is_recording);
    assert!(!vm.is_streaming);
    assert_eq!(vm.state, "unavailable");
}

#[test]
fn compute_camera_tile_vm_vendor_specific_state_is_available_idle() {
    let entity = make_test_entity("camera.front_door", "armed");
    let vm = compute_camera_tile_vm(
        "Front Door".to_owned(),
        "mdi:cctv".to_owned(),
        2,
        1,
        TilePlacement::default_for(2, 1),
        &entity,
    );
    assert_eq!(vm.state, "armed");
    assert!(vm.is_available);
    assert!(!vm.is_recording);
    assert!(!vm.is_streaming);
}

#[test]
fn compute_climate_tile_vm_heat_state() {
    let entity = make_test_entity("climate.living_room", "heat");
    let vm = compute_climate_tile_vm(
        "Living Room".to_owned(),
        "mdi:thermostat".to_owned(),
        2,
        1,
        TilePlacement::default_for(2, 1),
        &entity,
    );
    assert_eq!(vm.name, "Living Room");
    assert_eq!(vm.state, "heat");
    assert!(vm.is_active, "heat → is_active=true");
    assert_eq!(vm.icon_id, "mdi:thermostat");
    assert!(!vm.pending);
    assert_eq!(value(vm.current_temperature), None);
    assert_eq!(value(vm.target_temperature), None);
}

#[test]
fn compute_climate_tile_vm_off_state() {
    let entity = make_test_entity("climate.living_room", "off");
    let vm = compute_climate_tile_vm(
        "Living Room".to_owned(),
        "mdi:thermostat".to_owned(),
        2,
        1,
        TilePlacement::default_for(2, 1),
        &entity,
    );
    assert_eq!(vm.state, "off");
    assert!(!vm.is_active, "off → is_active=false");
}

#[test]
fn compute_climate_tile_vm_unavailable_state() {
    let entity = make_test_entity("climate.living_room", "unavailable");
    let vm = compute_climate_tile_vm(
        "Living Room".to_owned(),
        "mdi:thermostat".to_owned(),
        2,
        1,
        TilePlacement::default_for(2, 1),
        &entity,
    );
    assert_eq!(vm.state, "unavailable");
    assert!(!vm.is_active, "unavailable → is_active=false");
}

#[test]
fn compute_climate_tile_vm_reads_temperature_attributes() {
    let entity = Entity {
        id: EntityId::from("climate.living_room"),
        ..entity_with_attrs("heat", r#"{"current_temperature":21.5,"temperature":23.0}"#)
    };
    let vm = compute_climate_tile_vm(
        "Living Room".to_owned(),
        "mdi:thermostat".to_owned(),
        2,
        1,
        TilePlacement::default_for(2, 1),
        &entity,
    );
    assert_eq!(value(vm.current_temperature), Some(21.5));
    assert_eq!(
        value(vm.target_temperature),
        Some(23.0),
        "target_temperature must read HA's `temperature` attribute"
    );
    assert_eq!(vm.state, "heat");
    assert!(vm.is_active);
}

#[test]
fn compute_climate_tile_vm_vendor_specific_state_is_active() {
    let entity = make_test_entity("climate.living_room", "boost");
    let vm = compute_climate_tile_vm(
        "Living Room".to_owned(),
        "mdi:thermostat".to_owned(),
        2,
        1,
        TilePlacement::default_for(2, 1),
        &entity,
    );
    assert_eq!(vm.state, "boost");
    assert!(vm.is_active, "vendor mode → is_active=true");
}

#[test]
fn compute_media_player_tile_vm_playing_state_with_track_info() {
    let entity = Entity {
        id: EntityId::from("media_player.tv"),
        ..entity_with_attrs("playing", r#"{"media_title":"Track A","media_artist":"Artist B","volume_level":0.5}"#)
    };
    let vm = compute_media_player_tile_vm(
        "Living Room TV".to_owned(),
        "mdi:television".to_owned(),
        2,
        1,
        TilePlacement::default_for(2, 1),
        &entity,
    );
    assert_eq!(vm.name, "Living Room TV");
    assert_eq!(vm.state, "playing");
    assert!(vm.is_playing, "playing → is_playing=true");
    assert_eq!(vm.media_title.as_deref(), Some("Track A"));
    assert_eq!(vm.artist.as_deref(), Some("Artist B"));
    assert_eq!(value(vm.volume_level), Some(0.5));
    assert_eq!(vm.icon_id, "mdi:television");
    assert!(!vm.pending);
}

#[test]
fn compute_media_player_tile_vm_idle_state() {
    let entity = make_test_entity("media_player.tv", "idle");
    let vm = compute_media_player_tile_vm(
        "Living Room TV".to_owned(),
        "mdi:television".to_owned(),
        2,
        1,
        TilePlacement::default_for(2, 1),
        &entity,
    );
    assert_eq!(vm.state, "idle");
    assert!(!vm.is_playing, "idle → is_playing=false");
    assert!(vm.media_title.is_none());
    assert!(vm.artist.is_none());
    assert!(vm.volume_level.is_none());
}

#[test]
fn compute_media_player_tile_vm_unavailable_state() {
    let entity = make_test_entity("media_player.tv", "unavailable");
    let vm = compute_media_player_tile_vm(
        "Living Room TV".to_owned(),
        "mdi:television".to_owned(),
        2,
        1,
        TilePlacement::default_for(2, 1),
        &entity,
    );
    assert_eq!(vm.state, "unavailable");
    assert!(!vm.is_playing, "unavailable → is_playing=false");
    assert!(vm.media_title.is_none());
    assert!(vm.artist.is_none());
    assert!(vm.volume_level.is_none());
}

#[test]
fn compute_media_player_tile_vm_clamps_volume_level_above_one() {
    let entity = entity_with_attr("playing", "volume_level", "1.7");
    let entity = Entity {
        id: EntityId::from("media_player.tv"),
        ..entity
    };
    let vm = compute_media_player_tile_vm(
        "TV".to_owned(),
        "mdi:television".to_owned(),
        2,
        1,
        TilePlacement::default_for(2, 1),
        &entity,
    );
    assert_eq!(
        value(vm.volume_level),
        Some(1.0),
        "above-range volume must clamp to 1.0"
    );
}

#[test]
fn compute_media_player_tile_vm_clamps_volume_level_below_zero() {
    let entity = entity_with_attr("playing", "volume_level", "-0.25");
    let entity = Entity {
        id: EntityId::from("media_player.tv"),
        ..entity
    };
    let vm = compute_media_player_tile_vm(
        "TV".to_owned(),
        "mdi:television".to_owned(),
        2,
        1,
        TilePlacement::default_for(2, 1),
        &entity,
    );
    assert_eq!(
        value(vm.volume_level),
        Some(0.0),
        "negative volume must clamp to 0.0"
    );
}

#[test]
fn compute_power_flow_tile_vm_grid_import() {
    let entity = make_test_entity("sensor.grid_power", "1234.5");
    let vm = compute_power_flow_tile_vm(
        "Power Flow".to_owned(),
        "mdi:lightning-bolt-circle".to_owned(),
        2,
        2,
        TilePlacement::default_for(2, 2),
        &entity,
        PowerFlowAuxiliaryReadings::default(),
    );
    assert_eq!(vm.name, "Power Flow");
    assert_eq!(value(vm.grid_w), Some(1234.5));
    assert_eq!(value(vm.solar_w), None);
    assert_eq!(value(vm.battery_w), None);
    assert_eq!(value(vm.battery_pct), None);
    assert_eq!(value(vm.home_w), None);
    assert_eq!(vm.icon_id, "mdi:lightning-bolt-circle");
    assert!(!vm.pending);
}

#[test]
fn compute_power_flow_tile_vm_grid_export() {
    let entity = make_test_entity("sensor.grid_power", "-300.0");
    let vm = compute_power_flow_tile_vm(
        "Power Flow".to_owned(),
        "mdi:lightning-bolt-circle".to_owned(),
        2,
        2,
        TilePlacement::default_for(2, 2),
        &entity,
        PowerFlowAuxiliaryReadings::default(),
    );
    assert_eq!(
        value(vm.grid_w),
        Some(-300.0),
        "export must preserve negative sign"
    );
}

#[test]
fn compute_power_flow_tile_vm_grid_unavailable() {
    let entity = make_test_entity("sensor.grid_power", "unavailable");
    let vm = compute_power_flow_tile_vm(
        "Power Flow".to_owned(),
        "mdi:lightning-bolt-circle".to_owned(),
        2,
        2,
        TilePlacement::default_for(2, 2),
        &entity,
        PowerFlowAuxiliaryReadings::default(),
    );
    assert_eq!(value(vm.grid_w), None, "unavailable grid must produce grid_w=None");
}

#[test]
fn compute_power_flow_tile_vm_threads_all_auxiliary_readings() {
    let entity = make_test_entity("sensor.grid_power", "0");
    let vm = compute_power_flow_tile_vm(
        "Power Flow".to_owned(),
        "mdi:lightning-bolt-circle".to_owned(),
        2,
        2,
        TilePlacement::default_for(2, 2),
        &entity,
        PowerFlowAuxiliaryReadings {
            solar_w: reading_of(2000.0),
            battery_w: reading_of(-500.0),
            battery_pct: reading_of(75.0),
            home_w: reading_of(900.0),
        },
    );
    assert_eq!(value(vm.grid_w), Some(0.0));
    assert_eq!(value(vm.solar_w), Some(2000.0));
    assert_eq!(
        value(vm.battery_w),
        Some(-500.0),
        "battery discharge sign preserved"
    );
    assert_eq!(value(vm.battery_pct), Some(75.0));
    assert_eq!(value(vm.home_w), Some(900.0));
}

#[test]
fn compute_power_flow_tile_vm_grid_integer_value() {
    let entity = make_test_entity("sensor.grid_power", "500");
    let vm = compute_power_flow_tile_vm(
        "Power Flow".to_owned(),
        "mdi:lightning-bolt-circle".to_owned(),
        2,
        2,
        TilePlacement::default_for(2, 2),
        &entity,
        PowerFlowAuxiliaryReadings::default(),
    );
    assert_eq!(value(vm.grid_w), Some(500.0));
}

#[test]
fn build_tiles_cover_widget_includes_position_in_state_when_attribute_present() {
    let entity = entity_with_attr("open", "current_position", "42");
    let entity = Entity {
        id: EntityId::from("cover.patio"),
        ..entity
    };
    let store = MemoryStore::load(vec![entity]);

    let dashboard = dashboard_with_kind("cover.patio", WidgetKind::Cover);
    let tiles = build_tiles(&store, &dashboard);
    assert_eq!(tiles.len(), 1);
    match &tiles[0] {
        TileVM::Cover(vm) => {
            assert_eq!(vm.state, "open", "cover state is the raw HA state");
            assert_eq!(vm.position, 42, "position must reflect current_position");
            assert!(vm.has_position, "has_position must be true");
            assert!(vm.is_open, "is_open must be true for open state");
        }
        other => panic!("expected CoverTileVM, got {other:?}"),
    }
}

#[test]
fn build_tiles_cover_widget_without_position_keeps_raw_state() {
    let store = MemoryStore::load(vec![make_test_entity("cover.patio", "closed")]);

    let dashboard = dashboard_with_kind("cover.patio", WidgetKind::Cover);
    let tiles = build_tiles(&store, &dashboard);
    assert_eq!(tiles.len(), 1);
    match &tiles[0] {
        TileVM::Cover(vm) => {
            assert_eq!(vm.state, "closed");
            assert!(
                !vm.has_position,
                "no current_position → has_position must be false"
            );
            assert!(!vm.is_open);
        }
        other => panic!("expected CoverTileVM, got {other:?}"),
    }
}

#[test]
fn build_tiles_fan_widget_includes_percentage_in_state_when_attribute_present() {
    let entity = entity_with_attr("on", "percentage", "42");
    let entity = Entity {
        id: EntityId::from("fan.bedroom"),
        ..entity
    };
    let store = MemoryStore::load(vec![entity]);

    let dashboard = dashboard_with_kind("fan.bedroom", WidgetKind::Fan);
    let tiles = build_tiles(&store, &dashboard);
    assert_eq!(tiles.len(), 1);
    match &tiles[0] {
        TileVM::Fan(vm) => {
            assert_eq!(vm.state, "on", "state is the raw HA state");
            assert_eq!(vm.speed_pct, 42, "speed_pct must reflect percentage");
            assert!(vm.has_speed_pct, "has_speed_pct must be true");
            assert!(vm.is_on, "is_on must be true");
        }
        other => panic!("expected FanTileVM, got {other:?}"),
    }
}

#[test]
fn build_tiles_fan_widget_includes_preset_mode_in_state_when_percentage_absent() {
    let entity = entity_with_attr("on", "preset_mode", "\"Low\"");
    let entity = Entity {
        id: EntityId::from("fan.bedroom"),
        ..entity
    };
    let store = MemoryStore::load(vec![entity]);

    let dashboard = dashboard_with_kind("fan.bedroom", WidgetKind::Fan);
    let tiles = build_tiles(&store, &dashboard);
    assert_eq!(tiles.len(), 1);
    match &tiles[0] {
        TileVM::Fan(vm) => {
            assert_eq!(vm.state, "on", "state is the raw HA state");
            assert!(vm.has_current_speed);
            assert_eq!(vm.current_speed, "Low");
            assert!(!vm.has_speed_pct);
        }
        other => panic!("expected FanTileVM, got {other:?}"),
    }
}

#[test]
fn build_tiles_fan_widget_without_speed_keeps_raw_state() {
    let store = MemoryStore::load(vec![make_test_entity("fan.bedroom", "off")]);

    let dashboard = dashboard_with_kind("fan.bedroom", WidgetKind::Fan);
    let tiles = build_tiles(&store, &dashboard);
    assert_eq!(tiles.len(), 1);
    match &tiles[0] {
        TileVM::Fan(vm) => {
            assert_eq!(vm.state, "off");
            assert!(!vm.has_speed_pct);
            assert!(!vm.has_current_speed);
            assert!(!vm.is_on);
        }
        other => panic!("expected FanTileVM, got {other:?}"),
    }
}

#[test]
fn build_tiles_lock_widget_forwards_state_verbatim() {
    let store = MemoryStore::load(vec![make_test_entity("lock.front_door", "locked")]);

    let dashboard = dashboard_with_kind("lock.front_door", WidgetKind::Lock);
    let tiles = build_tiles(&store, &dashboard);
    assert_eq!(tiles.len(), 1);
    match &tiles[0] {
        TileVM::Lock(vm) => {
            assert_eq!(
                vm.state, "locked",
                "lock state forwarded verbatim (no enrichment)"
            );
            assert!(vm.is_locked, "is_locked must be true for `locked` state");
        }
        other => panic!("expected LockTileVM, got {other:?}"),
    }
}

#[test]
fn build_tiles_lock_widget_jammed_state_passes_through() {
    let store = MemoryStore::load(vec![make_test_entity("lock.front_door", "jammed")]);

    let dashboard = dashboard_with_kind("lock.front_door", WidgetKind::Lock);
    let tiles = build_tiles(&store, &dashboard);
    assert_eq!(tiles.len(), 1);
    match &tiles[0] {
        TileVM::Lock(vm) => {
            assert_eq!(vm.state, "jammed");
        }
        other => panic!("expected LockTileVM, got {other:?}"),
    }
}

#[test]
fn build_tiles_alarm_panel_widget_uses_alarm_state() {
    let store = MemoryStore::load(vec![make_test_entity(
        "alarm_control_panel.home",
        "armed_away",
    )]);

    let dashboard = dashboard_with_kind("alarm_control_panel.home", WidgetKind::Alarm);
    let tiles = build_tiles(&store, &dashboard);
    assert_eq!(tiles.len(), 1, "one widget → one tile");
    match &tiles[0] {
        TileVM::Alarm(vm) => {
            assert_eq!(vm.state, "armed_away", "alarm state flows through to tile");
            assert!(vm.is_armed);
            assert!(!vm.is_triggered);
        }
        other => panic!("expected AlarmTileVM, got {other:?}"),
    }
}

#[test]
fn build_tiles_history_widget_uses_history_state() {
    let store = MemoryStore::load(vec![make_test_entity("sensor.energy_today", "23.4")]);

    let dashboard = dashboard_with_kind("sensor.energy_today", WidgetKind::History);
    let tiles = build_tiles(&store, &dashboard);
    assert_eq!(tiles.len(), 1, "one widget → one tile");
    match &tiles[0] {
        TileVM::History(vm) => {
            assert_eq!(vm.state, "23.4", "history state forwarded verbatim");
            assert!(vm.is_available);
            assert_eq!(vm.change_count, 0, "no window fetched yet at build_tiles");
            assert!(vm.path_commands.is_empty());
        }
        other => panic!("expected HistoryGraphTileVM, got {other:?}"),
    }
}

#[test]
fn build_tiles_history_widget_unavailable_state_passes_through() {
    let store = MemoryStore::load(vec![make_test_entity("sensor.energy_today", "unavailable")]);

    let dashboard = dashboard_with_kind("sensor.energy_today", WidgetKind::History);
    let tiles = build_tiles(&store, &dashboard);
    match &tiles[0] {
        TileVM::History(vm) => {
            assert_eq!(vm.state, "unavailable");
            assert!(!vm.is_available);
        }
        other => panic!("expected HistoryGraphTileVM, got {other:?}"),
    }
}

#[test]
fn build_tiles_camera_widget_uses_camera_state() {
    let store = MemoryStore::load(vec![make_test_entity("camera.front_door", "idle")]);

    let dashboard = dashboard_with_kind("camera.front_door", WidgetKind::Camera);
    let tiles = build_tiles(&store, &dashboard);
    assert_eq!(tiles.len(), 1, "one widget → one tile");
    match &tiles[0] {
        TileVM::Camera(vm) => {
            assert_eq!(vm.state, "idle", "camera state forwarded verbatim");
            assert!(vm.is_available);
        }
        other => panic!("expected CameraTileVM, got {other:?}"),
    }
}

#[test]
fn build_tiles_camera_widget_recording_state_passes_through() {
    let store = MemoryStore::load(vec![make_test_entity("camera.front_door", "recording")]);

    let dashboard = dashboard_with_kind("camera.front_door", WidgetKind::Camera);
    let tiles = build_tiles(&store, &dashboard);
    match &tiles[0] {
        TileVM::Camera(vm) => {
            assert_eq!(vm.state, "recording");
            assert!(vm.is_recording);
        }
        other => panic!("expected CameraTileVM, got {other:?}"),
    }
}

#[test]
fn build_tiles_camera_widget_unavailable_state_passes_through() {
    let store = MemoryStore::load(vec![make_test_entity("camera.front_door", "unavailable")]);

    let dashboard = dashboard_with_kind("camera.front_door", WidgetKind::Camera);
    let tiles = build_tiles(&store, &dashboard);
    match &tiles[0] {
        TileVM::Camera(vm) => {
            assert_eq!(vm.state, "unavailable");
            assert!(!vm.is_available);
        }
        other => panic!("expected CameraTileVM, got {other:?}"),
    }
}

#[test]
fn build_tiles_climate_widget_uses_climate_state() {
    let store = MemoryStore::load(vec![make_test_entity("climate.living_room", "heat")]);

    let dashboard = dashboard_with_kind("climate.living_room", WidgetKind::Climate);
    let tiles = build_tiles(&store, &dashboard);
    assert_eq!(tiles.len(), 1, "one widget → one tile");
    match &tiles[0] {
        TileVM::Climate(vm) => {
            assert_eq!(vm.state, "heat", "climate state forwarded verbatim");
            assert!(vm.is_active);
        }
        other => panic!("expected ClimateTileVM, got {other:?}"),
    }
}

#[test]
fn build_tiles_climate_widget_cool_state_passes_through() {
    let store = MemoryStore::load(vec![make_test_entity("climate.living_room", "cool")]);

    let dashboard = dashboard_with_kind("climate.living_room", WidgetKind::Climate);
    let tiles = build_tiles(&store, &dashboard);
    match &tiles[0] {
        TileVM::Climate(vm) => assert_eq!(vm.state, "cool"),
        other => panic!("expected ClimateTileVM, got {other:?}"),
    }
}

#[test]
fn build_tiles_climate_widget_off_state_passes_through() {
    let store = MemoryStore::load(vec![make_test_entity("climate.living_room", "off")]);

    let dashboard = dashboard_with_kind("climate.living_room", WidgetKind::Climate);
    let tiles = build_tiles(&store, &dashboard);
    match &tiles[0] {
        TileVM::Climate(vm) => {
            assert_eq!(vm.state, "off");
            assert!(!vm.is_active);
        }
        other => panic!("expected ClimateTileVM, got {other:?}"),
    }
}

#[test]
fn build_tiles_climate_widget_unavailable_state_passes_through() {
    let store = MemoryStore::load(vec![make_test_entity("climate.living_room", "unavailable")]);

    let dashboard = dashboard_with_kind("climate.living_room", WidgetKind::Climate);
    let tiles = build_tiles(&store, &dashboard);
    match &tiles[0] {
        TileVM::Climate(vm) => {
            assert_eq!(vm.state, "unavailable");
            assert!(!vm.is_active);
        }
        other => panic!("expected ClimateTileVM, got {other:?}"),
    }
}

#[test]
fn build_tiles_media_player_widget_uses_state() {
    let store = MemoryStore::load(vec![make_test_entity("media_player.tv", "playing")]);

    let dashboard = dashboard_with_kind("media_player.tv", WidgetKind::MediaPlayer);
    let tiles = build_tiles(&store, &dashboard);
    assert_eq!(tiles.len(), 1, "one widget → one tile");
    match &tiles[0] {
        TileVM::MediaPlayer(vm) => {
            assert_eq!(vm.state, "playing", "media-player state forwarded verbatim");
            assert!(vm.is_playing);
        }
        other => panic!("expected MediaPlayerTileVM, got {other:?}"),
    }
}

#[test]
fn build_tiles_media_player_widget_paused_state_passes_through() {
    let store = MemoryStore::load(vec![make_test_entity("media_player.tv", "paused")]);

    let dashboard = dashboard_with_kind("media_player.tv", WidgetKind::MediaPlayer);
    let tiles = build_tiles(&store, &dashboard);
    match &tiles[0] {
        TileVM::MediaPlayer(vm) => {
            assert_eq!(vm.state, "paused");
            assert!(!vm.is_playing);
        }
        other => panic!("expected MediaPlayerTileVM, got {other:?}"),
    }
}

#[test]
fn build_tiles_media_player_widget_unavailable_state_passes_through() {
    let store = MemoryStore::load(vec![make_test_entity("media_player.tv", "unavailable")]);

    let dashboard = dashboard_with_kind("media_player.tv", WidgetKind::MediaPlayer);
    let tiles = build_tiles(&store, &dashboard);
    match &tiles[0] {
        TileVM::MediaPlayer(vm) => {
            assert_eq!(vm.state, "unavailable");
            assert!(!vm.is_playing);
        }
        other => panic!("expected MediaPlayerTileVM, got {other:?}"),
    }
}

#[test]
fn build_tiles_power_flow_widget_uses_state() {
    let store = MemoryStore::load(vec![make_test_entity("sensor.grid_power", "1500")]);

    let dashboard = dashboard_with_kind("sensor.grid_power", WidgetKind::PowerFlow);
    let tiles = build_tiles(&store, &dashboard);
    assert_eq!(tiles.len(), 1, "one widget → one tile");
    match &tiles[0] {
        TileVM::PowerFlow(vm) => {
            assert_eq!(value(vm.grid_w), Some(1500.0), "grid_w must parse the state");
        }
        other => panic!("expected PowerFlowTileVM, got {other:?}"),
    }
}

#[test]
fn build_tiles_power_flow_widget_export_state_passes_through() {
    let store = MemoryStore::load(vec![make_test_entity("sensor.grid_power", "-200.5")]);

    let dashboard = dashboard_with_kind("sensor.grid_power", WidgetKind::PowerFlow);
    let tiles = build_tiles(&store, &dashboard);
    match &tiles[0] {
        TileVM::PowerFlow(vm) => assert_eq!(value(vm.grid_w), Some(-200.5)),
        other => panic!("expected PowerFlowTileVM, got {other:?}"),
    }
}

#[test]
fn build_tiles_power_flow_widget_unavailable_state_passes_through() {
    let store = MemoryStore::load(vec![make_test_entity("sensor.grid_power", "unavailable")]);

    let dashboard = dashboard_with_kind("sensor.grid_power", WidgetKind::PowerFlow);
    let tiles = build_tiles(&store, &dashboard);
    match &tiles[0] {
        TileVM::PowerFlow(vm) => {
            assert!(vm.grid_w.is_none(), "unavailable → grid_w=None");
        }
        other => panic!("expected PowerFlowTileVM, got {other:?}"),
    }
}

#[test]
fn build_tiles_signature_remains_dyn_compatible() {
    let _: fn(&MemoryStore, &Dashboard) -> Vec<TileVM> = build_tiles;
}

/// A position that is no percentage is not given, and none is shown.
#[test]
fn cover_position_out_of_range_is_not_given() {
    let tile = |value: &str| {
        compute_cover_tile_vm(
            "Patio".to_owned(),
            "mdi:window-shutter".to_owned(),
            2,
            1,
            TilePlacement::default_for(2, 1),
            &entity_with_attr("open", "current_position", value),
        )
    };
    for value in ["150", "-1", "100.5", "\"half\"", "true"] {
        let vm = tile(value);
        assert!(!vm.has_position, "{value}");
        assert_eq!(vm.position, 100);
        assert!(!vm.has_tilt);
        assert_eq!(vm.tilt, 0);
        assert!(vm.is_open);
        assert!(!vm.is_moving);
        assert_eq!(vm.state, "open");
        assert!(!vm.pending);
    }
    let vm = tile("99.5");
    assert!(vm.has_position);
    assert_eq!(vm.position, 100);
}

/// However large the number is, a volume is clamped.
#[test]
fn huge_volume_is_clamped() {
    let volume = |value: &str| {
        compute_media_player_tile_vm(
            "TV".to_owned(),
            "mdi:television".to_owned(),
            2,
            1,
            TilePlacement::default_for(2, 1),
            &entity_with_attr("playing", "volume_level", value),
        )
        .volume_level
    };
    assert_eq!(value(volume("1e300")), Some(1.0));
    assert_eq!(value(volume("-1e300")), Some(0.0));
}

/// A charge lies between 0 and 100 percent, and a flow is finite.
#[test]
fn power_flow_readings_have_limits() {
    let options = WidgetOptions::PowerFlow {
        grid_entity: "sensor.grid".to_string(),
        solar_entity: Some("sensor.solar".to_string()),
        battery_entity: None,
        battery_soc_entity: Some("sensor.soc".to_string()),
        home_entity: None,
    };
    let read = |grid: &str, soc: &str| {
        let store = MemoryStore::load(vec![
            make_test_entity("sensor.grid", grid),
            make_test_entity("sensor.solar", "nan"),
            make_test_entity("sensor.soc", soc),
        ]);
        let vm = compute_power_flow_tile_vm_from_widget(
            PowerFlowBuildArgs {
                name: "Power".to_string(),
                icon_id: String::new(),
                preferred_columns: 2,
                preferred_rows: 2,
                placement: TilePlacement::default_for(2, 2),
                wrapper_entity: None,
                options: Some(&options),
            },
            &store,
        );
        assert_eq!(vm.solar_w, None);
        (value(vm.grid_w), value(vm.battery_pct))
    };
    assert_eq!(read("150", "150"), (Some(150.0), None));
    assert_eq!(read("-150", "-1"), (Some(-150.0), None));
    assert_eq!(read("1e300", "100"), (None, Some(100.0)));
    assert_eq!(read("inf", "0"), (None, Some(0.0)));
}
