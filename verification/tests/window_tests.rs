use std::path::PathBuf;
use tauri_core_tools::window_states::{Error, WindowState, WindowStatesData, WindowStatesManager};
use tauri_core_tools::windows::{capability_path, choose_cap_file, find_window_config, label_prefix};

fn state(label: &str, pos: Option<(i32, i32)>, size: Option<(u32, u32)>) -> WindowState {
    WindowState { label: label.to_string(), pos, size }
}

#[test]
fn new_manager_is_empty() {
    let m = WindowStatesManager::new(PathBuf::from("/data/WINDOW_STATES.bin"));
    assert_eq!(m.store_path(), &PathBuf::from("/data/WINDOW_STATES.bin"));
    assert!(m.states().0.is_empty());
    match m.get("main") {
        Err(Error::WindowStatesNotFound(l)) => assert_eq!(l, "main"),
        _ => panic!("expected not found"),
    }
}

#[test]
fn check_then_get() {
    let mut m = WindowStatesManager::new(PathBuf::from("/d"));
    assert!(m.check("main", state("ignored", Some((1, 2)), Some((3, 4)))).is_ok());
    let s = m.get("main").unwrap();
    assert_eq!(s.label, "main");
    assert_eq!(s.pos, Some((1, 2)));
    assert_eq!(s.size, Some((3, 4)));
    assert!(m.check("main", state("main", Some((9, 9)), None)).is_ok());
    assert_eq!(m.get("main").unwrap().pos, Some((1, 2)));
    assert_eq!(m.states().0.len(), 1);
}

#[test]
fn set_updates_given_parts() {
    let mut m = WindowStatesManager::new(PathBuf::from("/d"));
    m.check("main", state("main", Some((1, 2)), Some((3, 4)))).unwrap();
    m.set("main", state("main", Some((5, 6)), None)).unwrap();
    let s = m.get("main").unwrap();
    assert_eq!(s.pos, Some((5, 6)));
    assert_eq!(s.size, Some((3, 4)));
    m.set("main", state("main", None, Some((7, 8)))).unwrap();
    assert_eq!(m.get("main").unwrap().size, Some((7, 8)));
    assert!(m.set("absent", state("absent", Some((0, 0)), None)).is_ok());
    assert!(m.get("absent").is_err());
}

#[test]
fn duplicated_labels_are_errors() {
    let mut m = WindowStatesManager::new(PathBuf::from("/d"));
    m.load(WindowStatesData(vec![state("w", None, None), state("w", Some((1, 1)), None)]), 12);
    match m.get("w") {
        Err(Error::WindowStatesToMany(l)) => assert_eq!(l, "w"),
        _ => panic!("expected too many"),
    }
    match m.set("w", state("w", Some((2, 2)), None)) {
        Err(Error::WindowStatesToMany(l)) => assert_eq!(l, "w"),
        _ => panic!("expected too many"),
    }
    assert_eq!(m.states().0[1].pos, Some((1, 1)));
}

#[test]
fn error_messages() {
    assert_eq!(Error::WindowConfigNotFound("a".to_string()).message(), "WindowConfig with label: a not found.");
    assert_eq!(Error::WindowStatesToMany("a".to_string()).message(), "to many states for label: a");
    assert_eq!(Error::WindowStatesNotFound("a".to_string()).message(), "state for label: a not found.");
}

#[test]
fn window_config_is_found_by_prefixed_label() {
    let labels = vec!["mobile-main".to_string(), "desktop-main".to_string(), "desktop-mainx".to_string()];
    assert_eq!(find_window_config(&labels, "main", false).unwrap(), 1);
    assert_eq!(find_window_config(&labels, "main", true).unwrap(), 0);
    assert_eq!(find_window_config(&labels, "mainx", false).unwrap(), 2);
    assert_eq!(find_window_config(&labels, "mai", false).unwrap(), 1);
    match find_window_config(&labels, "other", false) {
        Err(Error::WindowConfigNotFound(l)) => assert_eq!(l, "other"),
        _ => panic!("expected not found"),
    }
    assert_eq!(label_prefix(true), "mobile-");
    assert_eq!(label_prefix(false), "desktop-");
}

#[test]
fn capability_files() {
    assert_eq!(capability_path("main"), "../capabilities/main.json");
    assert_eq!(choose_cap_file("main", true), "../capabilities/main.json");
    assert_eq!(choose_cap_file("main", false), "../capabilities/default.json");
}
