//! What the collectors read from the system, once it has been read: the
//! parsers and trackers that turn raw kernel text and counter samples into
//! the values the views draw.

pub mod devices;
pub mod filesystems;
pub mod growth;
pub mod hot_files;
pub mod io;
pub mod linux;
pub mod smart;
pub mod volumes;
