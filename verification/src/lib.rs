pub mod color_input;
pub mod config;
pub mod display;
pub mod format;
pub mod models;
pub mod samples;
pub mod state;
pub mod text;
