use indigo_docs::watch::{classify_event, plan_watch, WatcherSlot};

#[test]
fn existing_path_is_modify() {
    let ev = classify_event("/hq/docs/a.md", true).unwrap();
    assert_eq!(ev.path, "/hq/docs/a.md");
    assert_eq!(ev.kind, "modify");
}

#[test]
fn deleted_path_is_remove() {
    let ev = classify_event("/hq/docs/a.md", false).unwrap();
    assert_eq!(ev.kind, "remove");
    assert_ne!(ev.kind, classify_event("/hq/docs/a.md", true).unwrap().kind);
}

#[test]
fn excluded_paths_are_dropped() {
    assert!(classify_event("/hq/docs/.git/index", true).is_none());
    assert!(classify_event("/hq/node_modules/a.md", false).is_none());
}

#[test]
fn slot_install_replaces_and_clear_is_idempotent() {
    let mut slot: WatcherSlot<u32> = WatcherSlot::new();
    assert!(!slot.is_watching());
    assert_eq!(slot.install(1), None);
    assert_eq!(slot.install(2), Some(1));
    assert!(slot.is_watching());
    assert_eq!(slot.clear(), Some(2));
    assert_eq!(slot.clear(), None);
    assert!(!slot.is_watching());
}

#[test]
fn watch_plan_errors_and_success() {
    assert_eq!(plan_watch("/f", false, vec!["/f/a".to_string()]).err(), Some("HQ path is not a directory: /f".to_string()));
    assert_eq!(plan_watch("/hq", true, Vec::new()).err(), Some("No valid directories to watch".to_string()));
    assert_eq!(plan_watch("/hq", true, vec!["/hq/a".to_string()]).unwrap(), vec!["/hq/a".to_string()]);
}
