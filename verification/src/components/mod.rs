//! Decisions and text that the GUI views compute, apart from rendering.

pub mod cross_site_alarm_view;
pub mod api_keys_view;
pub mod alarm_routing_view;
pub mod atlas_settings;
pub mod cloud_settings;
pub mod config_view;
pub mod coverage_view;
pub mod alarm_view;
pub mod building_tree;
pub mod bridge_settings;
pub mod commissioning_tab;
pub mod commissioning_overview;
pub mod discovery_detail;
pub mod equipment_browser;
pub mod device_tree;
pub mod backup_view;
pub mod refs_editor;
pub mod alarm_params;
pub mod tag_editor;
pub mod bacnet_ops;
pub mod auto_tag_preview;
