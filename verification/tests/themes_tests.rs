use std::path::PathBuf;
use tauri_core_tools::name_map::NameMap;
use tauri_core_tools::themes::{
    copy_theme_list, theme_entry, theme_name, theme_script, ColorItem, DirListing, ThemeError,
    ThemeFile, ThemeList, Themes,
};

fn file(name: &str, content: Option<&str>) -> ThemeFile {
    ThemeFile {
        path: PathBuf::from(format!("/themes/{}", name)),
        is_file: true,
        file_name: Some(name.to_string()),
        content: content.map(|c| c.to_string()),
    }
}

#[test]
fn add_get_remove() {
    let mut t = Themes::new("dark".to_string(), "/themes".to_string());
    assert!(!t.contains("dark"));
    t.add("dark".to_string(), PathBuf::from("/themes/dark.json"));
    assert!(t.contains("dark"));
    assert_eq!(t.get("dark"), Some(&PathBuf::from("/themes/dark.json")));
    t.add("dark".to_string(), PathBuf::from("/other/dark.json"));
    assert_eq!(t.get("dark"), Some(&PathBuf::from("/other/dark.json")));
    t.remove("dark");
    assert!(!t.contains("dark"));
    assert_eq!(t.get("dark"), None);
    t.remove("absent");
    assert_eq!(t.default, "dark");
}

#[test]
fn many_at_once() {
    let mut t = Themes::new("a".to_string(), "/t".to_string());
    t.add("a".to_string(), PathBuf::from("/a"));
    let mut items: ThemeList = NameMap::new();
    items.insert("a".to_string(), PathBuf::from("/a2"));
    items.insert("b".to_string(), PathBuf::from("/b"));
    t.add_many(items);
    let names = vec!["a".to_string(), "c".to_string(), "b".to_string()];
    let got = t.get_many(&names);
    assert_eq!(got, vec![Some(&PathBuf::from("/a2")), None, Some(&PathBuf::from("/b"))]);
    t.remove_many(&["a".to_string(), "b".to_string()]);
    assert!(!t.contains("a") && !t.contains("b"));
}

#[test]
fn list_is_a_copy() {
    let mut t = Themes::new("a".to_string(), "/t".to_string());
    t.add("a".to_string(), PathBuf::from("/a"));
    let l = t.list();
    t.remove("a");
    assert_eq!(l.get("a"), Some(&PathBuf::from("/a")));
    assert_eq!(l.len(), 1);
    let c = copy_theme_list(&l);
    assert_eq!(c.get("a"), Some(&PathBuf::from("/a")));
}

#[test]
fn theme_names_drop_json_suffixes() {
    assert_eq!(theme_name("dark.json"), "dark");
    assert_eq!(theme_name("dark.json.json"), "dark");
    assert_eq!(theme_name("dark.txt"), "dark.txt");
    assert_eq!(theme_name(".json"), "");
}

#[test]
fn entries_need_file_json_and_name() {
    assert!(theme_entry(&file("a.json", Some("{}"))).is_some());
    assert!(theme_entry(&file("a.json", Some("not json"))).is_none());
    assert!(theme_entry(&file("a.json", None)).is_none());
    let mut dir = file("d.json", Some("[]"));
    dir.is_file = false;
    assert!(theme_entry(&dir).is_none());
    let mut unnamed = file("u.json", Some("1"));
    unnamed.file_name = None;
    assert!(theme_entry(&unnamed).is_none());
    let (n, p) = theme_entry(&file("light.json", Some("[1, 2]"))).unwrap();
    assert_eq!(n, "light");
    assert_eq!(p, PathBuf::from("/themes/light.json"));
}

#[test]
fn load_from_directory_adds_valid_themes() {
    let mut t = Themes::new("a".to_string(), "/themes".to_string());
    t.add("old".to_string(), PathBuf::from("/old"));
    let listing = DirListing::Entries(vec![
        file("a.json", Some("{}")),
        file("b.json", Some("oops")),
        file("c", Some("{\"x\": 1}")),
    ]);
    assert!(t.load_from_directory("/themes", listing).is_ok());
    assert!(t.contains("a") && !t.contains("b") && t.contains("c") && t.contains("old"));
}

#[test]
fn missing_directory_is_reported() {
    let mut t = Themes::new("a".to_string(), "/nowhere".to_string());
    match t.load_from_directory("/nowhere", DirListing::NotADirectory) {
        Err(ThemeError::DirectoryNotFound(m)) => assert_eq!(m, "Directory not found: /nowhere"),
        _ => panic!("expected a missing directory"),
    }
    let e = std::io::Error::new(std::io::ErrorKind::PermissionDenied, "denied");
    match t.load_from_directory("/nowhere", DirListing::Unreadable(e)) {
        Err(ThemeError::Io(e)) => assert_eq!(e.kind(), std::io::ErrorKind::PermissionDenied),
        _ => panic!("expected an io error"),
    }
}

#[test]
fn reload_replaces_registry() {
    let mut t = Themes::new("a".to_string(), "/themes".to_string());
    t.add("stale".to_string(), PathBuf::from("/stale"));
    let r = t.reload(DirListing::Entries(vec![file("a.json", Some("{}"))]), DirListing::NotADirectory);
    assert!(r.is_ok());
    assert!(t.contains("a") && !t.contains("stale"));
    let r = t.reload(DirListing::NotADirectory, DirListing::Entries(vec![]));
    assert!(r.is_err());
    assert!(!t.contains("a"));
    assert_eq!(t.internal_dir(), "/themes");
    assert_eq!(t.user_dir(), None);
}

#[test]
fn theme_script_sets_each_colour() {
    let colors = vec![
        ColorItem { name: "--bg".to_string(), value: "#000".to_string() },
        ColorItem { name: "--fg".to_string(), value: "#fff".to_string() },
    ];
    let expected = "const root = document.documentElement;\nroot.style.setProperty('--bg', '#000');\nroot.style.setProperty('--fg', '#fff');\n";
    assert_eq!(theme_script(&colors), expected);
    assert_eq!(theme_script(&vec![]), "const root = document.documentElement;\n");
    let mut t = Themes::new("x".to_string(), "/t".to_string());
    assert_eq!(t.parse_to_string("x", &colors), None);
    t.add("x".to_string(), PathBuf::from("/t/x.json"));
    assert_eq!(t.parse_to_string("x", &colors).as_deref(), Some(expected));
}

#[test]
fn cloned_registry_is_independent() {
    let mut t = Themes::new("a".to_string(), "/t".to_string());
    t.add("a".to_string(), PathBuf::from("/a"));
    let c = t.clone();
    t.remove("a");
    assert_eq!(c.get("a"), Some(&PathBuf::from("/a")));
    assert_eq!(c.default, "a");
    assert_eq!(c.internal_dir(), "/t");
    assert!(format!("{:?}", c).contains("/a"));
}
