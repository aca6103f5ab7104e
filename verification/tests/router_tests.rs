use tauri_core_tools::parser::{parse_path, parse_query, segments};
use tauri_core_tools::routing::{
    normalize_path, not_found_message, request_target, resolve_request, Router, Routes,
};

#[test]
fn param_route_binds_segment() {
    let info = parse_path("/users/42", "/users/<id>", None).unwrap();
    assert_eq!(info.get_param::<u32>("id"), Some(42));
    assert_eq!(info.param_text("id").map(|s| s.as_str()), Some("42"));
    assert_eq!(info.get_param::<u32>("other"), None);
    assert!(info.query_text("id").is_none());
}

#[test]
fn param_that_does_not_parse_gives_none() {
    let info = parse_path("/users/abc", "/users/<id>", None).unwrap();
    assert_eq!(info.get_param::<u32>("id"), None);
    assert_eq!(info.get_param::<String>("id"), Some("abc".to_string()));
}

#[test]
fn literal_segments_must_agree() {
    assert!(parse_path("/users/42", "/groups/<id>", None).is_none());
    assert!(parse_path("/users/42/x", "/users/<id>", None).is_none());
    assert!(parse_path("/users", "/users/<id>", None).is_none());
}

#[test]
fn surrounding_slashes_are_ignored() {
    assert!(parse_path("users/7/", "/users/<id>/", None).is_some());
    assert!(parse_path("//", "/", None).is_some());
}

#[test]
fn later_binding_of_a_name_wins() {
    let info = parse_path("/a/b", "/<x>/<x>", None).unwrap();
    assert_eq!(info.param_text("x").map(|s| s.as_str()), Some("b"));
}

#[test]
fn angle_brackets_alone_bind_empty_name() {
    let info = parse_path("/v", "/<>", None).unwrap();
    assert_eq!(info.param_text("").map(|s| s.as_str()), Some("v"));
}

#[test]
fn query_values_are_read() {
    let info = parse_path("/", "/", Some("page=2&flag&k=v=w&page=3")).unwrap();
    assert_eq!(info.get_query::<u32>("page"), Some(3));
    assert!(info.query_text("flag").is_none());
    assert_eq!(info.query_text("k").map(|s| s.as_str()), Some("v"));
}

#[test]
fn no_query_string_gives_no_query_map() {
    assert!(parse_query(None).is_none());
    let q = parse_query(Some("")).unwrap();
    assert_eq!(q.len(), 0);
    let q = parse_query(Some("a=&=b")).unwrap();
    assert_eq!(q.get("a").map(|s| s.as_str()), Some(""));
    assert_eq!(q.get("").map(|s| s.as_str()), Some("b"));
}

#[test]
fn segments_split_on_slash() {
    assert_eq!(segments("/a//b/"), vec!["a".to_string(), "".to_string(), "b".to_string()]);
    assert_eq!(segments(""), vec!["".to_string()]);
}

#[test]
fn router_takes_first_matching_route() {
    let routes: Routes<u8> = Routes::new().add("/users/<id>", 1).add("/users/me", 2).add("/", 3);
    let router = Router::register(routes.build());
    let (i, info) = router.verify("/users/me", None).unwrap();
    assert_eq!(i, 0);
    assert_eq!(*router.handler(i), 1);
    assert_eq!(info.param_text("id").map(|s| s.as_str()), Some("me"));
    let (j, _) = router.verify("/", Some("x=1")).unwrap();
    assert_eq!(*router.handler(j), 3);
    assert!(router.verify("/nothing/here", None).is_none());
    assert_eq!(router.len(), 3);
}

#[test]
fn merged_routes_keep_first_table_first() {
    let a: Routes<&str> = Routes::new().add("/x", "a");
    let b: Routes<&str> = Routes::new().add("/x", "b").add("/y", "b");
    let router = Router::register(a.merge(b).build());
    let (i, _) = router.verify("/x", None).unwrap();
    assert_eq!(*router.handler(i), "a");
    let (k, _) = router.verify("/y", None).unwrap();
    assert_eq!(k, 2);
}

#[test]
fn normalize_path_cases() {
    assert_eq!(normalize_path("///users/1 "), "/users/1");
    assert_eq!(normalize_path(""), "/");
    assert_eq!(normalize_path("\t a \n"), "/a");
    assert_eq!(normalize_path(" /a"), "//a");
    assert_eq!(normalize_path(&normalize_path(" /a")), "/a");
    assert_eq!(normalize_path(&normalize_path("/b/c")), normalize_path("/b/c"));
}

#[test]
fn not_found_message_names_url() {
    assert_eq!(not_found_message("/x"), "CP request failed on: /x");
}

#[test]
fn request_target_normalizes_path() {
    let t = request_target("//a ", Some("q=1"));
    assert_eq!(t.path, "/a");
    assert_eq!(t.query.as_deref(), Some("q=1"));
}

#[test]
fn resolve_request_decodes_and_parses() {
    let t = resolve_request("myapp://localhost/users/42?x=1").unwrap();
    assert_eq!(t.path, "/users/42");
    assert_eq!(t.query.as_deref(), Some("x=1"));
    let t = resolve_request("http://localhost/hello%2Fworld").unwrap();
    assert_eq!(t.path, "/hello/world");
    let t = resolve_request("http://localhost").unwrap();
    assert_eq!(t.path, "/");
    assert!(t.query.is_none());
}

#[test]
fn resolve_request_refuses_bad_input() {
    assert!(resolve_request("not a url").is_none());
    assert!(resolve_request("http://localhost/%FF").is_none());
}

#[test]
fn dispatch_routes_target() {
    let router = Router::register(Routes::new().add("/users/<id>", 'u').build());
    let t = resolve_request("app://localhost/users/9?page=4").unwrap();
    let (i, info) = router.dispatch(&t).unwrap();
    assert_eq!(*router.handler(i), 'u');
    assert_eq!(info.get_param::<u64>("id"), Some(9));
    assert_eq!(info.get_query::<u64>("page"), Some(4));
}
