use vstd::prelude::*;

verus! {

/// A configured storage backend.
#[derive(Debug, Clone, PartialEq, Eq)]
pub struct Remote {
    pub name: String,
    pub provider: String,
    pub status: String,
}

/// One entry of a directory listing, whatever its origin.
#[derive(Debug, Clone, PartialEq, Eq)]
pub struct FileItem {
    pub name: String,
    pub path: String,
    pub size: i64,
    pub modified: String,
    pub is_dir: bool,
    pub mime_type: Option<String>,
}

/// A transfer-tracking record; `progress` is a whole percentage.
#[derive(Debug, Clone, PartialEq, Eq)]
pub struct Job {
    pub id: String,
    pub operation: String,
    pub source: String,
    pub destination: String,
    pub status: String,
    pub progress: u8,
    pub speed: String,
    pub eta: Option<String>,
    pub started: String,
    pub finished: Option<String>,
}

/// Flags of a copy request.
#[derive(Debug, Clone, Copy, PartialEq, Eq)]
pub struct CopyOptions {
    pub overwrite: bool,
    pub skip_existing: bool,
}

/// Whether the tool is installed, where, and at which version.
#[derive(Debug, Clone, PartialEq, Eq)]
pub struct RcloneInfo {
    pub version: Option<String>,
    pub path: String,
    pub installed: bool,
}

} // verus!
