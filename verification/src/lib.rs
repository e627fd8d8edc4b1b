pub mod config;
pub mod task;
pub mod text;
pub mod view;
pub mod ui;
pub mod vault;
