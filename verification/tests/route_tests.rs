use unipotato::pattern::{build_full_path, extract_param_names, extract_param_values};
use unipotato::route::{
    build_params, collect_routes, find_handler, find_handler_with_params, get_mount_base, mount,
    register_route, try_register_route, RouteError, RouteTable, Router,
};
use hyper::StatusCode;

fn simple_pattern(path: &str) -> String {
    format!("^{}$", regex::escape(path))
}

// ============ Parameter Extraction Tests ============

#[test]
fn extract_param_names_handles_static_and_dynamic_segments() {
    assert_eq!(extract_param_names("/users/<id>"), vec!["id".to_string()]);
    assert_eq!(
        extract_param_names("/users/<uid>/posts/<pid>"),
        vec!["uid".to_string(), "pid".to_string()]
    );
    assert!(extract_param_names("/users/static").is_empty());
}

#[test]
fn extract_param_values_matches_segment_positions() {
    let values = extract_param_values("/users/<uid>/posts/<pid>", "/users/42/posts/9");
    assert_eq!(values, vec!["42".to_string(), "9".to_string()]);

    let none = extract_param_values("/static/path", "/static/path");
    assert!(none.is_empty());
}

// ============ Path Building & Mount Tests ============

#[test]
fn build_full_path_respects_mount_base() {
    assert_eq!(build_full_path("", "/users"), "/users");
    assert_eq!(build_full_path("/api", "/users"), "/api/users");
}

#[test]
fn mount_sets_and_clears_base_path() {
    let table: RouteTable<String> = RouteTable::new();
    assert_eq!(get_mount_base(&table), "");

    let table = mount(table, "/api", |t| {
        assert_eq!(get_mount_base(&t), "/api");
        t
    });

    assert_eq!(get_mount_base(&table), "");
}

#[test]
fn register_route_applies_mount_base_to_path() {
    let table: RouteTable<String> = RouteTable::new();

    let mut table = mount(table, "/api", |mut t| {
        register_route(
            &mut t,
            "GET",
            "/users/<id>".to_string(),
            "^/users/[^/]+$".to_string(),
            "mounted".to_string(),
        );
        t
    });

    let found = find_handler_with_params(&mut table, "GET", "/api/users/7")
        .expect("mounted route should match");
    assert_eq!(found.params.get("id"), Some(&"7".to_string()));
}

// ============ Route Matching & Dispatch Tests ============

#[test]
fn find_handler_with_params_extracts_named_params() {
    let mut table: RouteTable<String> = RouteTable::new();

    register_route(
        &mut table,
        "GET",
        "/users/<id>".to_string(),
        "^/users/[^/]+$".to_string(),
        "ok".to_string(),
    );

    let found = find_handler_with_params(&mut table, "GET", "/users/123").expect("route should match");
    assert_eq!(found.params.get("id"), Some(&"123".to_string()));
}

#[test]
fn find_handler_with_params_respects_http_method() {
    let mut table: RouteTable<String> = RouteTable::new();

    let path = "/method_guard_0".to_string();
    let pattern = format!("^{}$", regex::escape(&path));
    register_route(&mut table, "GET", path.clone(), pattern, "get".to_string());

    assert!(find_handler_with_params(&mut table, "POST", &path).is_none());
    assert!(find_handler_with_params(&mut table, "GET", &path).is_some());
}

// ============ Router Error Response Tests ============

#[test]
fn router_error_helpers_return_expected_status_codes() {
    assert_eq!(Router::not_found().status(), StatusCode::NOT_FOUND);
    assert_eq!(Router::internal_error("boom").status(), StatusCode::INTERNAL_SERVER_ERROR);
    assert_eq!(Router::method_not_allowed().status(), StatusCode::METHOD_NOT_ALLOWED);
}

// ============ Further cases ============

#[test]
fn router_error_bodies() {
    assert_eq!(Router::not_found().body, "404 Not Found");
    assert_eq!(Router::internal_error("boom").body, "500 Internal Server Error: boom");
    assert_eq!(Router::method_not_allowed().body, "405 Method Not Allowed");
    assert!(Router::not_found().content_type.is_none());
}

#[test]
fn first_registered_route_wins() {
    let mut table: RouteTable<String> = RouteTable::new();
    register_route(&mut table, "GET", "/a/<x>".to_string(), "^/a/[^/]+$".to_string(), "first".to_string());
    register_route(&mut table, "GET", "/a/<y>".to_string(), "^/a/[^/]+$".to_string(), "second".to_string());
    let found = find_handler_with_params(&mut table, "GET", "/a/1").unwrap();
    assert_eq!(found.handler, "first");
    assert_eq!(found.params.get("x"), Some(&"1".to_string()));
    assert_eq!(found.params.get("y"), None);
}

#[test]
fn static_routes_compare_paths_exactly() {
    let mut table: RouteTable<String> = RouteTable::new();
    register_route(&mut table, "GET", "/about".to_string(), simple_pattern("/about"), "about".to_string());
    assert_eq!(find_handler(&mut table, "GET", "/about"), Some("about".to_string()));
    assert_eq!(find_handler(&mut table, "GET", "/about/"), None);
    assert_eq!(find_handler(&mut table, "GET", "/abou"), None);
    let found = find_handler_with_params(&mut table, "GET", "/about").unwrap();
    assert!(found.params.pairs().is_empty());
}

#[test]
fn cached_lookups_repeat_the_answer() {
    let mut table: RouteTable<String> = RouteTable::new();
    register_route(&mut table, "GET", "/u/<id>".to_string(), "^/u/[^/]+$".to_string(), "u".to_string());
    for _ in 0..3 {
        let found = find_handler_with_params(&mut table, "GET", "/u/5").unwrap();
        assert_eq!(found.handler, "u");
        assert_eq!(found.params.get("id"), Some(&"5".to_string()));
    }
    // Fill the cache beyond its capacity, then ask again.
    for i in 0..10 {
        let path = format!("/u/{}", i);
        let found = find_handler_with_params(&mut table, "GET", &path).unwrap();
        assert_eq!(found.params.get("id"), Some(&i.to_string()));
    }
    let found = find_handler_with_params(&mut table, "GET", "/u/5").unwrap();
    assert_eq!(found.params.get("id"), Some(&"5".to_string()));
    assert!(find_handler_with_params(&mut table, "POST", "/u/5").is_none());
}

#[test]
fn registering_after_a_lookup_keeps_the_answer() {
    let mut table: RouteTable<String> = RouteTable::new();
    register_route(&mut table, "GET", "/p/<a>".to_string(), "^/p/[^/]+$".to_string(), "one".to_string());
    assert_eq!(find_handler(&mut table, "GET", "/p/1"), Some("one".to_string()));
    register_route(&mut table, "GET", "/p/1".to_string(), simple_pattern("/p/1"), "two".to_string());
    assert_eq!(find_handler(&mut table, "GET", "/p/1"), Some("one".to_string()));
    assert_eq!(find_handler(&mut table, "GET", "/p/2"), Some("one".to_string()));
}

#[test]
fn unanchored_pattern_is_anchored() {
    let mut table: RouteTable<String> = RouteTable::new();
    register_route(&mut table, "GET", "/n/<id>".to_string(), "  /n/[0-9]+ ".to_string(), "n".to_string());
    assert!(find_handler(&mut table, "GET", "/n/12").is_some());
    assert!(find_handler(&mut table, "GET", "/x/n/12").is_none());
    assert!(find_handler(&mut table, "GET", "/n/12/x").is_none());
    assert!(find_handler(&mut table, "GET", "/n/ab").is_none());
}

#[test]
fn mount_base_is_escaped_and_trailing_slashes_dropped() {
    let table: RouteTable<String> = RouteTable::new();
    let mut table = mount(table, "/v1.0//", |mut t| {
        assert_eq!(get_mount_base(&t), "/v1.0");
        register_route(&mut t, "GET", "/items/<id>".to_string(), "^/items/[^/]+$".to_string(), "items".to_string());
        t
    });
    let found = find_handler_with_params(&mut table, "GET", "/v1.0/items/3").unwrap();
    assert_eq!(found.params.get("id"), Some(&"3".to_string()));
    // The '.' of the base is literal.
    assert!(find_handler(&mut table, "GET", "/v1x0/items/3").is_none());
    let routes = collect_routes(&table);
    assert_eq!(routes.len(), 1);
    assert_eq!(routes[0].path, "/v1.0/items/<id>");
}

#[test]
fn try_register_route_reports_errors() {
    let mut table: RouteTable<String> = RouteTable::new();
    assert_eq!(
        try_register_route(&mut table, "GET", "/a/<id".to_string(), "^/a/[^/]+$".to_string(), "x".to_string()),
        Err(RouteError::UnclosedParameter)
    );
    assert_eq!(
        try_register_route(&mut table, "GET", "/a/<id>".to_string(), "^/a/([$".to_string(), "x".to_string()),
        Err(RouteError::InvalidPattern)
    );
    assert!(collect_routes(&table).is_empty());
    assert_eq!(
        try_register_route(&mut table, "GET", "/a/<id>".to_string(), "^/a/[^/]+$".to_string(), "x".to_string()),
        Ok(())
    );
    assert_eq!(collect_routes(&table).len(), 1);
}

#[test]
fn placeholder_names_skip_empty_and_keep_inner_brackets() {
    assert!(extract_param_names("/a/<>/b").is_empty());
    assert_eq!(extract_param_names("/a/<x<y>"), vec!["x<y".to_string()]);
    assert_eq!(extract_param_names("<a><b>"), vec!["a".to_string(), "b".to_string()]);
}

#[test]
fn placeholder_values_stop_at_shorter_path() {
    assert_eq!(extract_param_values("/a/<x>/<y>", "/a/1"), vec!["1".to_string()]);
    assert!(extract_param_values("/a/<x>", "").is_empty());
}

#[test]
fn build_params_pairs_names_with_values() {
    let names = vec!["a".to_string(), "b".to_string(), "a".to_string()];
    let values = vec!["1".to_string(), "2".to_string(), "3".to_string()];
    let m = build_params(&names, &values);
    assert_eq!(m.get("a"), Some(&"3".to_string()));
    assert_eq!(m.get("b"), Some(&"2".to_string()));
    let short = build_params(&names, &vec!["1".to_string()]);
    assert_eq!(short.get("a"), Some(&"1".to_string()));
    assert_eq!(short.get("b"), None);
}

#[test]
fn nested_mount_leaves_no_base_after_inner_mount_returns() {
    let table: RouteTable<String> = RouteTable::new();
    let table = mount(table, "/outer/", |t| {
        assert_eq!(get_mount_base(&t), "/outer");
        let t = mount(t, "/inner", |t| {
            assert_eq!(get_mount_base(&t), "/inner");
            t
        });
        // Leaving the inner mount clears the base; it is not restored.
        assert_eq!(get_mount_base(&t), "");
        t
    });
    assert_eq!(get_mount_base(&table), "");
}

#[test]
fn collect_routes_lists_registrations_in_order() {
    let mut table: RouteTable<String> = RouteTable::new();
    register_route(&mut table, "GET", "/a".to_string(), "^/a$".to_string(), "first".to_string());
    let mut table = mount(table, "/api", |mut t| {
        register_route(&mut t, "POST", "/b/<id>".to_string(), "^/b/[^/]+$".to_string(), "second".to_string());
        t
    });
    register_route(&mut table, "GET", "/a".to_string(), "^/a$".to_string(), "third".to_string());
    let routes = collect_routes(&table);
    assert_eq!(routes.len(), 3);
    assert_eq!((routes[0].method.as_str(), routes[0].path.as_str(), routes[0].handler.as_str()), ("GET", "/a", "first"));
    assert_eq!((routes[1].method.as_str(), routes[1].path.as_str(), routes[1].handler.as_str()), ("POST", "/api/b/<id>", "second"));
    assert_eq!((routes[2].method.as_str(), routes[2].path.as_str(), routes[2].handler.as_str()), ("GET", "/a", "third"));
}
