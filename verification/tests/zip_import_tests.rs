use std::collections::VecDeque;
use std::path::PathBuf;

use haystack_ui::zip_import::ZipImports;

#[test]
fn queues_archives_in_order_and_ignores_duplicates_in_flight() {
    let mut imports: ZipImports<PathBuf> = ZipImports::new();
    imports.enqueue("first.zip".into());
    imports.enqueue("second.zip".into());
    imports.enqueue("first.zip".into());
    assert!(imports.start_next());
    assert_eq!(imports.active, Some(PathBuf::from("first.zip")));
    imports.enqueue("first.zip".into());
    assert_eq!(
        imports.pending,
        VecDeque::from([PathBuf::from("second.zip")])
    );
    assert!(imports.has_interactive_surface());
}

#[test]
fn a_failure_holds_the_queue_until_dismissed() {
    let mut imports: ZipImports<u32> = ZipImports::new();
    assert!(!imports.has_interactive_surface());
    assert!(!imports.start_next());
    imports.enqueue(1);
    imports.enqueue(2);
    assert!(imports.start_next());
    assert!(!imports.start_next());
    imports.finish(Some("broken archive".to_string()));
    assert!(imports.active.is_none());
    assert!(!imports.start_next());
    imports.error = None;
    assert!(imports.start_next());
    assert_eq!(imports.active, Some(2));
    imports.finish(None);
    assert!(!imports.has_interactive_surface());
}
