//! Desktop fences: the layout model, its persistence rules and the panel host, verified.

pub mod clock;
pub mod commands;
pub mod config;
pub mod control;
pub mod dates;
pub mod dip;
pub mod drawing;
pub mod dropping;
pub mod fence_ops;
pub mod file_ops;
pub mod filing;
pub mod frame;
pub mod handling;
pub mod housekeeping;
pub mod item_ops;
pub mod kernel;
pub mod layouts;
pub mod listing;
pub mod messages;
pub mod model;
pub mod order;
pub mod panel_host;
pub mod panel_life;
pub mod panel_services;
pub mod paths;
pub mod placement;
pub mod platform;
pub mod plugin_api;
pub mod portal_sweep;
pub mod portals;
pub mod records;
pub mod reorder;
pub mod rules;
pub mod scopes;
pub mod services;
pub mod settings;
pub mod snapshots;
pub mod startup;
pub mod state;
pub mod state_tabs;
pub mod store;
pub mod strip;
pub mod supervisor;
pub mod sync;
pub mod tab_laws;
pub mod tab_repair;
pub mod tables;
pub mod tabs;
pub mod text;
pub mod transport;
pub mod validate;
pub mod view_state;
pub mod windows;
