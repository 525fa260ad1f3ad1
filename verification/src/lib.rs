//! Verified core of the building-management GUI: cross-site aggregation,
//! the REST client's request/response decisions, alarm and calendar helpers,
//! navigation-tree queries and configuration tables.

pub mod text;
pub mod numparse;
pub mod calendar;
pub mod civil;
pub mod json;
pub mod aggregation;
pub mod api_client;
pub mod alarm_model;
pub mod bacnet;
pub mod clock;
pub mod components;
pub mod shell;
