//! The index of rows.
use hanui::entity::{AttrValue, Attributes, Entity, EntityId};
use hanui::number::Real64;
use hanui::row_index::{build_row_index, RowIndex};
use hanui::schema::{DashView, Dashboard, Section, SectionGrid, Widget, WidgetKind, WidgetLayout};
use hanui::split::split_tile_vms;
use hanui::store::MemoryStore;
use hanui::tile::{TileKind, tile_kind_for_widget};
use hanui::tiles::build_tiles;

fn make_test_entity(id: &str, state: &str) -> Entity {
    Entity {
        id: EntityId::from(id),
        state: state.to_string(),
        state_number: state
            .parse::<f64>()
            .ok()
            .map(|n| Real64 { bits: n.to_bits() }),
        attributes: Attributes::new(),
    }
}

fn fixture_store() -> MemoryStore {
    let mut light = make_test_entity("light.kitchen", "on");
    light.attributes.insert(
        "friendly_name".to_string(),
        AttrValue::Text("Kitchen Light".to_string()),
    );
    let mut sensor = make_test_entity("sensor.hallway_temperature", "21.3");
    sensor.attributes.insert(
        "friendly_name".to_string(),
        AttrValue::Text("Hallway Temperature".to_string()),
    );
    let mut outlet = make_test_entity("switch.outlet_1", "off");
    outlet.attributes.insert(
        "friendly_name".to_string(),
        AttrValue::Text("Outlet 1".to_string()),
    );
    MemoryStore::load(vec![
        light,
        sensor,
        outlet,
        make_test_entity("binary_sensor.foo", "off"),
    ])
}

fn fixture_dashboard() -> Dashboard {
    let mk = |id: &str, kind: WidgetKind, entity: &str, name: Option<&str>, rows: u8| Widget {
        id: id.to_string(),
        widget_type: kind,
        entity: Some(entity.to_string()),
        name: name.map(str::to_string),
        icon: None,
        layout: WidgetLayout {
            preferred_columns: 2,
            preferred_rows: rows,
        },
        options: None,
        placement: None,
    };
    Dashboard {
        default_view: "home".to_string(),
        views: vec![DashView {
            id: "home".to_string(),
            title: "Home".to_string(),
            sections: vec![
                Section {
                    grid: SectionGrid { columns: 4, gap: 8 },
                    id: "overview".to_string(),
                    title: "Overview".to_string(),
                    widgets: vec![
                        mk("kitchen", WidgetKind::LightTile, "light.kitchen", None, 2),
                        mk(
                            "hallway",
                            WidgetKind::SensorTile,
                            "sensor.hallway_temperature",
                            None,
                            1,
                        ),
                        mk(
                            "living",
                            WidgetKind::EntityTile,
                            "switch.outlet_1",
                            Some("Living Room"),
                            1,
                        ),
                    ],
                },
                Section {
                    grid: SectionGrid { columns: 3, gap: 4 },
                    id: "more".to_string(),
                    title: "More".to_string(),
                    widgets: vec![
                        mk("foo", WidgetKind::EntityTile, "binary_sensor.foo", None, 1),
                        mk("kitchen-2", WidgetKind::LightTile, "light.kitchen", None, 1),
                    ],
                },
            ],
        }],
    }
}

fn one_widget_dashboard() -> Dashboard {
    Dashboard {
        default_view: "home".to_string(),
        views: vec![DashView {
            id: "home".to_string(),
            title: "Home".to_string(),
            sections: vec![Section {
                grid: SectionGrid { columns: 12, gap: 8 },
                id: "s1".to_string(),
                title: "Test".to_string(),
                widgets: vec![Widget {
                    id: "w1".to_string(),
                    widget_type: WidgetKind::LightTile,
                    entity: Some("light.kitchen".to_string()),
                    name: Some("Kitchen".to_string()),
                    icon: None,
                    layout: WidgetLayout {
                        preferred_columns: 2,
                        preferred_rows: 2,
                    },
                    options: None,
                    placement: None,
                }],
            }],
        }],
    }
}

fn multi_kind_dashboard() -> Dashboard {
    let mk = |id: &str, kind: WidgetKind, entity: Option<&str>| Widget {
        id: id.to_string(),
        widget_type: kind,
        entity: entity.map(str::to_string),
        name: None,
        icon: None,
        layout: WidgetLayout {
            preferred_columns: 1,
            preferred_rows: 1,
        },
        options: None,
        placement: None,
    };
    Dashboard {
        default_view: "home".to_string(),
        views: vec![DashView {
            id: "home".to_string(),
            title: "Home".to_string(),
            sections: vec![Section {
                grid: SectionGrid { columns: 12, gap: 8 },
                id: "s1".to_string(),
                title: "T".to_string(),
                widgets: vec![
                    mk("w-light", WidgetKind::LightTile, Some("light.kitchen")),
                    mk("w-sensor", WidgetKind::SensorTile, Some("sensor.temp")),
                    mk("w-entity", WidgetKind::EntityTile, Some("switch.fan")),
                    mk("w-noent", WidgetKind::EntityTile, None),
                ],
            }],
        }],
    }
}

#[test]
fn build_row_index_walks_dashboard_in_document_order_per_kind() {
    let dashboard = multi_kind_dashboard();
    let index = build_row_index(&dashboard);
    assert_eq!(index.entity_count(), 3);
    assert_eq!(index.total_rows(), 3);
    assert_eq!(
        index.rows_for(&EntityId::from("light.kitchen")),
        &[(TileKind::Light, 0)]
    );
    assert_eq!(
        index.rows_for(&EntityId::from("sensor.temp")),
        &[(TileKind::Sensor, 0)]
    );
    assert_eq!(
        index.rows_for(&EntityId::from("switch.fan")),
        &[(TileKind::Entity, 0)]
    );
}

#[test]
fn build_row_index_handles_repeated_entity_across_widgets() {
    let mk = |id: &str, kind: WidgetKind, entity: &str| Widget {
        id: id.to_string(),
        widget_type: kind,
        entity: Some(entity.to_string()),
        name: None,
        icon: None,
        layout: WidgetLayout {
            preferred_columns: 1,
            preferred_rows: 1,
        },
        options: None,
        placement: None,
    };
    let dashboard = Dashboard {
        default_view: "home".to_string(),
        views: vec![DashView {
            id: "home".to_string(),
            title: "H".to_string(),
            sections: vec![Section {
                grid: SectionGrid { columns: 12, gap: 8 },
                id: "s".to_string(),
                title: "T".to_string(),
                widgets: vec![
                    mk("w1", WidgetKind::LightTile, "light.kitchen"),
                    mk("w2", WidgetKind::EntityTile, "light.kitchen"),
                ],
            }],
        }],
    };
    let index = build_row_index(&dashboard);
    assert_eq!(
        index.rows_for(&EntityId::from("light.kitchen")),
        &[(TileKind::Light, 0), (TileKind::Entity, 0)]
    );
}

#[test]
fn tile_kind_for_widget_maps_every_widget_kind_variant() {
    let cases: &[(WidgetKind, TileKind)] = &[
        (WidgetKind::LightTile, TileKind::Light),
        (WidgetKind::SensorTile, TileKind::Sensor),
        (WidgetKind::EntityTile, TileKind::Entity),
        (WidgetKind::Cover, TileKind::Cover),
        (WidgetKind::Fan, TileKind::Fan),
        (WidgetKind::Lock, TileKind::Lock),
        (WidgetKind::Alarm, TileKind::Alarm),
        (WidgetKind::History, TileKind::History),
        (WidgetKind::Camera, TileKind::Camera),
        (WidgetKind::Climate, TileKind::Climate),
        (WidgetKind::MediaPlayer, TileKind::MediaPlayer),
        (WidgetKind::PowerFlow, TileKind::PowerFlow),
    ];
    for (widget_kind, expected) in cases {
        assert_eq!(
            tile_kind_for_widget(widget_kind),
            *expected,
            "{widget_kind:?} must map to {expected:?}"
        );
    }
}

#[test]
fn row_index_rows_for_unknown_entity_returns_empty_slice() {
    let dashboard = one_widget_dashboard();
    let index = build_row_index(&dashboard);
    assert!(!index.rows_for(&EntityId::from("light.kitchen")).is_empty());
    assert!(index.rows_for(&EntityId::from("switch.unknown")).is_empty());
}

#[test]
fn build_row_index_assigns_independent_row_streams_per_phase6_kind() {
    let mk = |id: &str, kind: WidgetKind, entity: Option<&str>| Widget {
        id: id.to_string(),
        widget_type: kind,
        entity: entity.map(str::to_string),
        name: None,
        icon: None,
        layout: WidgetLayout {
            preferred_columns: 1,
            preferred_rows: 1,
        },
        options: None,
        placement: None,
    };

    let dashboard = Dashboard {
        default_view: "home".to_string(),
        views: vec![DashView {
            id: "home".to_string(),
            title: "Home".to_string(),
            sections: vec![Section {
                grid: SectionGrid { columns: 12, gap: 8 },
                id: "s1".to_string(),
                title: "T".to_string(),
                widgets: vec![
                    mk("w-cover", WidgetKind::Cover, Some("cover.patio")),
                    mk("w-fan", WidgetKind::Fan, Some("fan.bedroom")),
                    mk("w-lock", WidgetKind::Lock, Some("lock.front_door")),
                    mk(
                        "w-alarm",
                        WidgetKind::Alarm,
                        Some("alarm_control_panel.home"),
                    ),
                    mk("w-history", WidgetKind::History, Some("sensor.energy")),
                    mk("w-camera", WidgetKind::Camera, Some("camera.front_door")),
                    mk(
                        "w-climate",
                        WidgetKind::Climate,
                        Some("climate.living_room"),
                    ),
                    mk(
                        "w-mp",
                        WidgetKind::MediaPlayer,
                        Some("media_player.kitchen"),
                    ),
                    mk("w-pf", WidgetKind::PowerFlow, None),
                ],
            }],
        }],
    };
    let index = build_row_index(&dashboard);
    assert_eq!(
        index.entity_count(),
        8,
        "8 entity-bound widgets must be routable"
    );
    assert_eq!(
        index.total_rows(),
        8,
        "total_rows counts only entity-bound entries"
    );
    assert_eq!(
        index.rows_for(&EntityId::from("cover.patio")),
        &[(TileKind::Cover, 0)]
    );
    assert_eq!(
        index.rows_for(&EntityId::from("fan.bedroom")),
        &[(TileKind::Fan, 0)]
    );
    assert_eq!(
        index.rows_for(&EntityId::from("lock.front_door")),
        &[(TileKind::Lock, 0)]
    );
    assert_eq!(
        index.rows_for(&EntityId::from("alarm_control_panel.home")),
        &[(TileKind::Alarm, 0)]
    );
    assert_eq!(
        index.rows_for(&EntityId::from("sensor.energy")),
        &[(TileKind::History, 0)]
    );
    assert_eq!(
        index.rows_for(&EntityId::from("camera.front_door")),
        &[(TileKind::Camera, 0)]
    );
    assert_eq!(
        index.rows_for(&EntityId::from("climate.living_room")),
        &[(TileKind::Climate, 0)]
    );
    assert_eq!(
        index.rows_for(&EntityId::from("media_player.kitchen")),
        &[(TileKind::MediaPlayer, 0)]
    );
}

#[test]
fn build_row_index_increments_per_kind_counter_independently() {
    let mk = |id: &str, kind: WidgetKind, entity: &str| Widget {
        id: id.to_string(),
        widget_type: kind,
        entity: Some(entity.to_string()),
        name: None,
        icon: None,
        layout: WidgetLayout {
            preferred_columns: 1,
            preferred_rows: 1,
        },
        options: None,
        placement: None,
    };
    let dashboard = Dashboard {
        default_view: "home".to_string(),
        views: vec![DashView {
            id: "home".to_string(),
            title: "Home".to_string(),
            sections: vec![Section {
                grid: SectionGrid { columns: 12, gap: 8 },
                id: "s1".to_string(),
                title: "T".to_string(),
                widgets: vec![
                    mk("w1", WidgetKind::Cover, "cover.a"),
                    mk("w2", WidgetKind::Fan, "fan.a"),
                    mk("w3", WidgetKind::Cover, "cover.b"),
                    mk("w4", WidgetKind::Fan, "fan.b"),
                ],
            }],
        }],
    };
    let index = build_row_index(&dashboard);
    assert_eq!(
        index.rows_for(&EntityId::from("cover.a")),
        &[(TileKind::Cover, 0)]
    );
    assert_eq!(
        index.rows_for(&EntityId::from("cover.b")),
        &[(TileKind::Cover, 1)]
    );
    assert_eq!(
        index.rows_for(&EntityId::from("fan.a")),
        &[(TileKind::Fan, 0)]
    );
    assert_eq!(
        index.rows_for(&EntityId::from("fan.b")),
        &[(TileKind::Fan, 1)]
    );
}

/// A widget without an entity, or with an empty one, takes a row but is not routed.
#[test]
fn unbound_widgets_take_rows() {
    let mut dashboard = multi_kind_dashboard();
    let widgets = &mut dashboard.views[0].sections[0].widgets;
    widgets[2].entity = Some(String::new());
    widgets[3].entity = Some("switch.fan".to_string());
    let index = build_row_index(&dashboard);
    assert!(index.rows_for(&EntityId::from("")).is_empty());
    assert_eq!(
        index.rows_for(&EntityId::from("switch.fan")),
        &[(TileKind::Entity, 1)]
    );
    assert_eq!(index.entity_count(), 3);
}

/// The rows of the index are those of the tiles, whether or not the entities are
/// known.
#[test]
fn index_leads_to_the_tiles_with_and_without_entities() {
    let dashboard = fixture_dashboard();
    let index = build_row_index(&dashboard);
    for store in [fixture_store(), MemoryStore::load(vec![])] {
        let split = split_tile_vms(&build_tiles(&store, &dashboard));
        let rows = index.rows_for(&EntityId::from("light.kitchen"));
        assert_eq!(rows, &[(TileKind::Light, 0), (TileKind::Light, 1)]);
        assert_eq!(split.lights.len(), 2);
        let rows = index.rows_for(&EntityId::from("binary_sensor.foo"));
        assert_eq!(rows, &[(TileKind::Entity, 1)]);
        assert_eq!(split.entities[rows[0].1].name, "binary_sensor.foo");
    }
    assert_eq!(index.total_rows(), 5);
    assert_eq!(index.entity_count(), 4);
}

/// Indexes are equal where they give the same rows for the same entities.
#[test]
fn indexes_compare_by_their_rows() {
    let dashboard = multi_kind_dashboard();
    let index = build_row_index(&dashboard);
    assert_eq!(index, index.clone());
    let copy = index.clone();
    assert_eq!(copy.total_rows(), index.total_rows());
    assert_eq!(copy.entity_count(), index.entity_count());

    let mut swapped = multi_kind_dashboard();
    swapped.views[0].sections[0].widgets.swap(0, 1);
    assert_eq!(build_row_index(&swapped), index, "the order of entities does not count");

    let mut fewer = multi_kind_dashboard();
    fewer.views[0].sections[0].widgets.remove(0);
    assert_ne!(build_row_index(&fewer), index);
    let mut moved = multi_kind_dashboard();
    moved.views[0].sections[0].widgets.swap(2, 3);
    assert_ne!(build_row_index(&moved), index);
    let mut renamed = multi_kind_dashboard();
    renamed.views[0].sections[0].widgets[0].entity = Some("light.hall".to_string());
    assert_ne!(build_row_index(&renamed), index);

    let none = RowIndex::default();
    assert_eq!(none.total_rows(), 0);
    assert_eq!(none.entity_count(), 0);
    assert!(none.rows_for(&EntityId::from("light.kitchen")).is_empty());
    assert_ne!(none, index);
}
