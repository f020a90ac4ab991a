//! Discovery and cleanup of regenerable build artifacts in JavaScript projects.
//!
//! The library decides; the host walks the disk. `scan` models a bounded,
//! pruned directory walk and turns manifest entries into project descriptors,
//! `deletion` turns the outcome of each removal into one report, and `drives`
//! lists the storage roots a user may pick from.
mod text;
pub mod scan;
pub mod deletion;
pub mod drives;

pub use scan::{
    artifact_kinds, get_directory_size, get_project_info, is_manifest_name, is_project_manifest,
    is_pruned_name, scan_for_projects, FileStat, ProjectInfo, WalkEntry, MAX_DEPTH,
};
pub use deletion::{deletion_report, failure_message, is_safe_entry_name, RemovalOutcome};
pub use drives::{
    root_source, select_drives, windows_drive_roots, DriveInfo, HostPlatform, RootCandidate, RootSource,
};
