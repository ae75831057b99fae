//! The file-browser state.

use explotty::explorer_widget::{ExplorerWidget, FileItem};

#[test]
fn explorer_starts_empty_and_selects_in_range() {
    let mut e = ExplorerWidget::new();
    assert!(e.files.is_empty());
    assert!(e.current_directory.is_none());
    assert!(e.selected_index.is_none());

    e.select(0);
    assert!(e.selected_index.is_none());

    e.files.push(FileItem {
        name: "notes.txt".to_string(),
        size: "12 B".to_string(),
        file_type: "text".to_string(),
        modified_at: "2024-01-01 00:00".to_string(),
        is_directory: false,
        is_hidden: false,
        icon_path: String::new(),
    });
    e.select(5);
    assert!(e.selected_index.is_none());
    e.select(0);
    assert_eq!(e.selected_index, Some(0));
}
