pub mod calendar;
pub mod command;
pub mod holidays;
pub mod json;
pub mod mic;
pub mod models;
pub mod ordering;
pub mod settings;
pub mod store;
pub mod text;
pub mod tp;
pub mod views;
pub mod watcher;
