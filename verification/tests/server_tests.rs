use unipotato::handler::{html, json, not_found, text};
use unipotato::logger::{should_log_http, status_class, StatusClass};
use unipotato::route::{find_handler_with_params, register_route};
use unipotato::server::{
    build_args, change_wait_outcome, collect_watch_paths, detect_build_target, drain_continues,
    nearest_manifest_dir, supervisor_step, DEV_RELOAD_DEBOUNCE_MS,
    BuildTarget, ChangeKind, ChangeWait, FirstMessage, SupervisorAction, SupervisorEvent,
    WatchEvent, WatchedPath,
};
use unipotato::Unipotato;

#[test]
fn dev_flag_parser_understands_common_truthy_values() {
    assert!(Unipotato::is_truthy_flag("true"));
    assert!(Unipotato::is_truthy_flag("1"));
    assert!(Unipotato::is_truthy_flag("YES"));
    assert!(!Unipotato::is_truthy_flag("off"));
    assert!(!Unipotato::is_truthy_flag(""));
}

#[test]
fn truthy_flag_trims_whitespace() {
    assert!(Unipotato::is_truthy_flag("  On\n"));
    assert!(!Unipotato::is_truthy_flag("yess"));
}

#[test]
fn supervisor_runs_only_with_reload_and_not_in_child() {
    assert!(Unipotato::should_run_dev_supervisor(Some("1"), None));
    assert!(Unipotato::should_run_dev_supervisor(Some("true"), Some("0")));
    assert!(!Unipotato::should_run_dev_supervisor(Some("1"), Some("1")));
    assert!(!Unipotato::should_run_dev_supervisor(None, None));
    assert!(!Unipotato::should_run_dev_supervisor(Some("no"), None));
}

#[test]
fn benign_connection_errors() {
    assert!(Unipotato::is_benign_connection_error("connection reset by peer (os error 104)"));
    assert!(Unipotato::is_benign_connection_error("Broken Pipe"));
    assert!(Unipotato::is_benign_connection_error("error: IncompleteMessage"));
    assert!(Unipotato::is_benign_connection_error("connection closed before message completed"));
    assert!(!Unipotato::is_benign_connection_error("invalid HTTP version"));
}

fn watched(text: &str, ext: Option<&str>, name: Option<&str>) -> WatchedPath {
    WatchedPath {
        text: text.to_string(),
        extension: ext.map(|s| s.to_string()),
        file_name: name.map(|s| s.to_string()),
    }
}

#[test]
fn relevant_paths() {
    assert!(Unipotato::is_relevant_path(&watched("/p/src/main.rs", Some("rs"), Some("main.rs"))));
    assert!(Unipotato::is_relevant_path(&watched("/p/Cargo.toml", Some("toml"), Some("Cargo.toml"))));
    assert!(!Unipotato::is_relevant_path(&watched("/p/target/debug/x.rs", Some("rs"), Some("x.rs"))));
    assert!(!Unipotato::is_relevant_path(&watched("/p/target", None, Some("target"))));
    assert!(!Unipotato::is_relevant_path(&watched("/p/README.md", Some("md"), Some("README.md"))));
}

#[test]
fn relevant_events() {
    let ev = WatchEvent {
        kind: ChangeKind::Modify,
        paths: vec![watched("/p/a.md", Some("md"), Some("a.md")), watched("/p/src/a.rs", Some("rs"), Some("a.rs"))],
    };
    assert!(Unipotato::is_relevant_event(&ev));
    let ev = WatchEvent { kind: ChangeKind::Other, paths: vec![watched("/p/src/a.rs", Some("rs"), Some("a.rs"))] };
    assert!(!Unipotato::is_relevant_event(&ev));
    let ev = WatchEvent { kind: ChangeKind::Create, paths: vec![] };
    assert!(!Unipotato::is_relevant_event(&ev));
}

#[test]
fn change_wait_outcomes() {
    assert_eq!(change_wait_outcome(FirstMessage::Timeout), ChangeWait { drain: false, changed: false });
    assert_eq!(change_wait_outcome(FirstMessage::Disconnected), ChangeWait { drain: false, changed: false });
    assert_eq!(change_wait_outcome(FirstMessage::WatchError), ChangeWait { drain: true, changed: false });
    assert_eq!(change_wait_outcome(FirstMessage::Event { relevant: false }), ChangeWait { drain: false, changed: false });
    assert_eq!(change_wait_outcome(FirstMessage::Event { relevant: true }), ChangeWait { drain: true, changed: true });
}

#[test]
fn build_targets_and_args() {
    let parts = vec!["examples".to_string(), "simple_server".to_string()];
    let t = detect_build_target(Some(&parts));
    assert_eq!(t, BuildTarget::Example("simple_server".to_string()));
    assert_eq!(build_args(&t), vec!["build", "--example", "simple_server"]);
    let parts = vec!["app".to_string()];
    let t = detect_build_target(Some(&parts));
    assert_eq!(t, BuildTarget::Bin("app".to_string()));
    assert_eq!(build_args(&t), vec!["build", "--bin", "app"]);
    let parts = vec!["".to_string()];
    assert_eq!(detect_build_target(Some(&parts)), BuildTarget::Generic);
    let parts = vec!["deps".to_string(), "x".to_string()];
    assert_eq!(detect_build_target(Some(&parts)), BuildTarget::Generic);
    assert_eq!(detect_build_target(None), BuildTarget::Generic);
    assert_eq!(build_args(&BuildTarget::Generic), vec!["build"]);
}

#[test]
fn watch_paths_follow_existence() {
    assert_eq!(collect_watch_paths([true, true, true, true]), vec!["src", "examples", "tests", "Cargo.toml"]);
    assert_eq!(collect_watch_paths([true, false, false, true]), vec!["src", "Cargo.toml"]);
    assert!(collect_watch_paths([false, false, false, false]).is_empty());
}

#[test]
fn supervisor_steps() {
    assert_eq!(supervisor_step(SupervisorEvent::ChildExited { success: false }), SupervisorAction::Stop { report_failure: true });
    assert_eq!(supervisor_step(SupervisorEvent::ChildExited { success: true }), SupervisorAction::Stop { report_failure: false });
    assert_eq!(supervisor_step(SupervisorEvent::ChildRunning), SupervisorAction::WaitForChange);
    assert_eq!(supervisor_step(SupervisorEvent::NoChange), SupervisorAction::PollChild);
    assert_eq!(supervisor_step(SupervisorEvent::ChangeDetected), SupervisorAction::Build);
    assert_eq!(supervisor_step(SupervisorEvent::BuildFailed), SupervisorAction::PollChild);
    assert_eq!(supervisor_step(SupervisorEvent::BuildSucceeded), SupervisorAction::Restart);
    assert_eq!(supervisor_step(SupervisorEvent::Restarted), SupervisorAction::PollChild);
}

#[test]
fn http_logging_flag() {
    assert!(should_log_http(None));
    assert!(should_log_http(Some("1")));
    assert!(!should_log_http(Some(" OFF ")));
    assert!(!should_log_http(Some("false")));
    assert!(!should_log_http(Some("0")));
    assert!(!should_log_http(Some("No")));
}

#[test]
fn status_classes() {
    assert_eq!(status_class(200), StatusClass::Success);
    assert_eq!(status_class(404), StatusClass::ClientError);
    assert_eq!(status_class(503), StatusClass::ServerError);
    assert_eq!(status_class(302), StatusClass::Other);
}

#[test]
fn response_helpers() {
    let r = text("hi".to_string());
    assert_eq!(r.status(), 200);
    assert_eq!(r.content_type.as_deref(), Some("text/plain; charset=utf-8"));
    assert_eq!(r.body, "hi");
    assert_eq!(html("<p>".to_string()).content_type.as_deref(), Some("text/html"));
    assert_eq!(json("{}".to_string()).content_type.as_deref(), Some("application/json"));
    let nf = not_found();
    assert_eq!(nf.status(), 404);
    assert_eq!(nf.body, "404 Not Found");
}

#[test]
fn server_launch_and_mount() {
    let app: Unipotato<String> = Unipotato::launch(8080);
    assert_eq!(app.port(), 8080);
    let app = app.mount("/api/", |mut t| {
        register_route(&mut t, "GET", "/health".to_string(), "^/health$".to_string(), "h".to_string());
        t
    });
    assert_eq!(app.port(), 8080);
    let (port, mut table) = app.into_parts();
    assert_eq!(port, 8080);
    let found = find_handler_with_params(&mut table, "GET", "/api/health").unwrap();
    assert_eq!(found.handler, "h");
}

#[test]
fn draining_stops_at_the_debounce_time_or_a_quiet_wait() {
    assert!(drain_continues(0, true));
    assert!(drain_continues(DEV_RELOAD_DEBOUNCE_MS - 1, true));
    assert!(!drain_continues(DEV_RELOAD_DEBOUNCE_MS, true));
    assert!(!drain_continues(10, false));
}

#[test]
fn nearest_manifest_dir_picks_the_closest_project() {
    assert_eq!(nearest_manifest_dir(&[false, true, true]), Some(1));
    assert_eq!(nearest_manifest_dir(&[true]), Some(0));
    assert_eq!(nearest_manifest_dir(&[false, false]), None);
    assert_eq!(nearest_manifest_dir(&[]), None);
}
