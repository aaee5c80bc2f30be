use vstd::prelude::*;
use vstd::string::*;

use crate::upload::bytes_eq;

verus! {

// ---------------------------------------------------------------------------
// Directory-listing records, and the filter for bookkeeping entries that a
// listing never shows.
// ---------------------------------------------------------------------------

/// One entry of a directory listing.
pub struct FileInfo {
    pub name: String,
    pub path: String,
    pub file_type: String,
    pub size: Option<u64>,
    pub modified: String,
    pub items: Option<usize>,
}

pub struct FilesResponse {
    pub success: bool,
    pub files: Vec<FileInfo>,
    pub current_path: String,
    pub message: Option<String>,
}

pub struct DeleteResponse {
    pub success: bool,
    pub message: String,
}

pub struct CreateDirectoryResponse {
    pub success: bool,
    pub message: String,
}

pub struct RenameResponse {
    pub success: bool,
    pub message: String,
}

pub struct RenameRequest {
    pub new_name: String,
}

/// The names a listing hides: operating-system clutter, version-control
/// directories, and this engine's own staging directories.
pub open spec fn spec_is_system_file(n: Seq<u8>) -> bool {
    ||| n == ".DS_Store".spec_bytes()
    ||| n == ".chunks".spec_bytes()
    ||| n == "Thumbs.db".spec_bytes()
    ||| n == ".gitkeep".spec_bytes()
    ||| n == "desktop.ini".spec_bytes()
    ||| n == ".tmp".spec_bytes()
    ||| n == ".temp".spec_bytes()
    ||| n == "__pycache__".spec_bytes()
    ||| n == ".git".spec_bytes()
    ||| n == ".svn".spec_bytes()
    ||| n == "node_modules".spec_bytes()
}

/// Is this name one of the bookkeeping entries a listing filters out?
/// Only exact matches count.
pub fn is_system_file(name: &str) -> (r: bool)
    ensures
        r == spec_is_system_file(name.spec_bytes()),
{
    let n = name.as_bytes();
    bytes_eq(n, ".DS_Store".as_bytes()) || bytes_eq(n, ".chunks".as_bytes()) || bytes_eq(
        n,
        "Thumbs.db".as_bytes(),
    ) || bytes_eq(n, ".gitkeep".as_bytes()) || bytes_eq(n, "desktop.ini".as_bytes()) || bytes_eq(
        n,
        ".tmp".as_bytes(),
    ) || bytes_eq(n, ".temp".as_bytes()) || bytes_eq(n, "__pycache__".as_bytes()) || bytes_eq(
        n,
        ".git".as_bytes(),
    ) || bytes_eq(n, ".svn".as_bytes()) || bytes_eq(n, "node_modules".as_bytes())
}

} // verus!
