//! Routing core of a JSON-RPC gateway for public chain endpoints.
pub mod admin;
pub mod admin_list;
pub mod admin_rows;
pub mod autoenable;
pub mod catalog_laws;
pub mod chain;
pub mod chainlist;
pub mod choice_laws;
pub mod config;
pub mod config_env;
pub mod config_file_laws;
pub mod config_laws;
pub mod config_toml;
pub mod control_laws;
pub mod copying;
pub mod document;
pub mod endpoint;
pub mod health;
pub mod json;
pub mod keys;
pub mod lifecycle_laws;
pub mod loader;
pub mod memory_laws;
pub mod message_laws;
pub mod metric_table;
pub mod metrics;
pub mod order;
pub mod promotion;
pub mod redis_plan;
pub mod registry;
pub mod registry_laws;
pub mod registry_model;
pub mod routing_laws;
pub mod selection;
pub mod settings_laws;
pub mod shown_laws;
pub mod site;
pub mod site_laws;
pub mod sorted;
pub mod state;
pub mod store;
pub mod store_laws;
pub mod table;
pub mod text;
pub mod url;
