//! Mounted filesystems as the collectors report them.

use vstd::prelude::*;

verus! {

/// One mounted filesystem.
#[derive(Debug, Clone)]
pub struct FsTick {
    pub mount: String,
    pub device: String,
    pub fs_type: String,
    pub size_bytes: u64,
    pub used_bytes: u64,
    pub avail_bytes: u64,
    /// Inodes in use, in percent, where the filesystem has inodes.
    pub inode_pct: Option<u32>,
    pub is_removable: bool,
    pub is_system: bool,
}

} // verus!
