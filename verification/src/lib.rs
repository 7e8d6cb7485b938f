//! View models of a Home Assistant dashboard: what each tile shows, where it
//! sits, which row of which model it occupies, and when a change may be drawn.
pub mod alarm;
pub mod arith;
pub mod camera;
pub mod climate;
pub mod cover;
pub mod entity;
pub mod fan;
pub mod history;
pub mod kinds;
pub mod layout;
pub mod live;
pub mod lock;
pub mod media_player;
pub mod more_info;
pub mod number;
pub mod packing;
pub mod pin;
pub mod power_flow;
pub mod profiles;
pub mod row_index;
pub mod schema;
pub mod split;
pub mod store;
pub mod switcher;
pub mod text;
pub mod tile;
pub mod tiles;
pub mod values;
pub mod wire;
