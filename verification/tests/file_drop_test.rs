use std::path::PathBuf;

struct FileDropView {
    dropped_paths: Vec<PathBuf>,
    drag_hovering: bool,
}

#[test]
fn test_file_drop_state_transitions() {
    let mut view = FileDropView {
        dropped_paths: Vec::new(),
        drag_hovering: false,
    };

    // Simulate drag enter
    view.drag_hovering = true;
    assert!(view.drag_hovering);

    // Simulate file drop
    view.dropped_paths.push(PathBuf::from("/tmp/test.txt"));
    view.dropped_paths.push(PathBuf::from("/tmp/image.png"));
    view.drag_hovering = false;
    assert!(!view.drag_hovering);
    assert_eq!(view.dropped_paths.len(), 2);
}

#[test]
fn test_file_drop_multiple_drops_accumulate() {
    let mut view = FileDropView {
        dropped_paths: Vec::new(),
        drag_hovering: false,
    };

    view.dropped_paths.push(PathBuf::from("/tmp/a.txt"));
    assert_eq!(view.dropped_paths.len(), 1);

    view.dropped_paths.push(PathBuf::from("/tmp/b.txt"));
    assert_eq!(view.dropped_paths.len(), 2);
}
