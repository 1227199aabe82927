//! Value types handed across the library boundary.

use vstd::prelude::*;

verus! {

/// Per-entry statistics for one immediate child of a scanned directory.
#[derive(Debug)]
pub struct FileStats {
    /// Absolute path of the entry.
    pub path: String,
    /// The entry's own name.
    pub name: String,
    /// Whether the entry was classified as a directory.
    pub is_dir: bool,
    /// Bytes held by the entry (recursively, for a directory).
    pub size: u64,
    /// Number of contained files: 1 for a plain file, the recursive file
    /// count for a directory, 0 for symlinks and unreadable entries.
    pub file_count: u64,
    /// Modification time, unix seconds; 0 when unknown.
    pub modified: u64,
}

impl Clone for FileStats {
    /// A field-for-field copy.
    fn clone(&self) -> (r: Self)
        ensures
            r == *self,
    {
        FileStats {
            path: self.path.clone(),
            name: self.name.clone(),
            is_dir: self.is_dir,
            size: self.size,
            file_count: self.file_count,
            modified: self.modified,
        }
    }
}

/// Aggregated size and contribution count for one extension bucket. The
/// count tallies contributing top-level children, not individual files:
/// a deliberate precision-versus-cost tradeoff, since only the sizes feed
/// further computation.
#[derive(Clone, Copy, Debug)]
pub struct ExtensionStats {
    pub size: u64,
    pub count: u64,
}

/// A request to scan or browse one directory.
#[derive(Debug)]
pub struct ScanRequest {
    pub path: String,
}

/// The response shape of a scan: per-child statistics plus aggregates and
/// the owning volume's capacity, when one resolved.
#[derive(Debug)]
pub struct ScanResponse {
    pub parent: Option<String>,
    pub current: String,
    pub files: Vec<FileStats>,
    pub total_size: u64,
    pub total_files: u64,
    pub disk_total: Option<u64>,
    pub disk_available: Option<u64>,
}

/// The response shape of a directory listing: subdirectory names only.
#[derive(Debug)]
pub struct BrowseResponse {
    pub parent: Option<String>,
    pub current: String,
    pub directories: Vec<String>,
}

} // verus!
