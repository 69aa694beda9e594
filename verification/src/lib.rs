//! The computing core of the Islandora Workbench desktop client: the setting-catalogue search,
//! the YAML value model and the per-shape editors, the settings store and its persisted form,
//! the run workflow, and the log and summary texts the windows show.
pub mod text;
pub mod yaml;
pub mod catalog;
pub mod search;
pub mod settings;
pub mod persist;
pub mod select;
pub mod sources;
pub mod runlog;
pub mod workflow;
pub mod chain;
pub mod flow;
pub mod draft;
pub mod editors;
pub mod builder;
pub mod ping;
pub mod update;
pub mod platform;
