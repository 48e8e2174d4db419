//! Disk diagnostics core: parsers for the kernel's block-device tables,
//! the configuration-file reader, and the view state that the terminal
//! front end drives.

pub mod text;
pub mod app;
pub mod collect;
pub mod config;
pub mod keyed;
pub mod settings;
pub mod tabs;
pub mod ui;
