//! Verified core of the Super process supervisor: the decisions that the
//! daemon takes about programs, schedules, logs, plugins and authentication.

pub mod text;
pub mod model;
pub mod limits;
pub mod registry;
pub mod exit;
pub mod lifecycle;
pub mod cron_policy;
pub mod scheduler;
pub mod auth;
pub mod logs;
pub mod manager;
pub mod ui;
pub mod licensing;
pub mod artifact;
pub mod bench;
pub mod event_hooks;
pub mod shutdown;
pub mod create;
pub mod stack;
pub mod report;
pub mod ota;
pub mod batch;
pub mod context;
pub mod store;
pub mod deps;
pub mod events;
pub mod api;
pub mod http_plugin;
pub mod flapping;
