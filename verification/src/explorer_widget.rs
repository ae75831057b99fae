//! The state of the file-browser panel: the listed entries, the directory
//! they came from, and the selection.  Reading directories and drawing the
//! panel happen elsewhere; this is the data they share.

use vstd::prelude::*;

verus! {

/// One listed file or directory, as the panel displays it.
#[derive(Debug, Clone)]
pub struct FileItem {
    /// The name, without its directory.
    pub name: String,
    /// The size, already formatted for display.
    pub size: String,
    /// The type description.
    pub file_type: String,
    /// The last-modified time, already formatted for display.
    pub modified_at: String,
    /// Whether the entry is a directory.
    pub is_directory: bool,
    /// Whether the entry is hidden (its name starts with a dot).
    pub is_hidden: bool,
    /// The URI of the entry's icon.
    pub icon_path: String,
}

/// The file-browser state.
pub struct ExplorerWidget {
    /// The entries of the current directory.
    pub files: Vec<FileItem>,
    /// The directory being listed.
    pub current_directory: Option<String>,
    /// The selected entry, if any.
    pub selected_index: Option<usize>,
}

impl ExplorerWidget {
    /// An empty browser: no entries, no directory, nothing selected.
    pub fn new() -> (r: ExplorerWidget)
        ensures
            r.files@.len() == 0,
            r.current_directory is None,
            r.selected_index is None,
    {
        ExplorerWidget { files: Vec::new(), current_directory: None, selected_index: None }
    }

    /// Selects the entry at `index`, if it exists.
    pub fn select(&mut self, index: usize)
        ensures
            final(self).files == old(self).files,
            final(self).current_directory == old(self).current_directory,
            final(self).selected_index == (if index < old(self).files@.len() {
                Some(index)
            } else {
                old(self).selected_index
            }),
    {
        if index < self.files.len() {
            self.selected_index = Some(index);
        }
    }
}

} // verus!
