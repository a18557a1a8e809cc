use mdns_browser::entry::ServiceEntry;
use mdns_browser::state::AppState;
use mdns_browser::time::current_timestamp_micros;

fn create_test_service(name: &str, service_type: &str, port: u16) -> ServiceEntry {
    ServiceEntry {
        fullname: format!("{}.{}", name, service_type),
        host: format!("{}.local.", name),
        service_type: service_type.to_string(),
        subtype: None,
        addrs: vec![format!("192.168.1.{}", port)],
        port,
        txt: vec![],
        online: true,
        timestamp_micros: current_timestamp_micros(),
    }
}

#[test]
fn test_service_entry_go_offline_at() {
    let mut service = ServiceEntry {
        fullname: "test._http._tcp.local.".to_string(),
        host: "testhost.local.".to_string(),
        service_type: "_http._tcp.local.".to_string(),
        subtype: None,
        addrs: vec!["192.168.1.1".to_string()],
        port: 8080,
        txt: vec![],
        online: true,
        timestamp_micros: 1000,
    };

    assert!(service.online);
    service.go_offline_at(2000);
    assert!(!service.online);
    assert_eq!(service.timestamp_micros, 2000);
}

#[test]
fn test_appstate_new() {
    let state = AppState::new();
    assert_eq!(state.services.len(), 0);
    assert_eq!(state.service_types.len(), 0);
    assert_eq!(state.selected_service, 0);
    assert_eq!(state.selected_type, None);
    assert_eq!(state.types_scroll_offset, 0);
    assert_eq!(state.services_scroll_offset, 0);
    assert!(state.cache_dirty);
    assert!(!state.show_help_popup);
    assert!(!state.show_metrics_popup);
}

#[test]
fn test_filter_service_all_types() {
    let mut state = AppState::new();
    state.selected_type = None;

    let service = ServiceEntry {
        fullname: "test._http._tcp.local.".to_string(),
        host: "testhost.local.".to_string(),
        service_type: "_http._tcp.local.".to_string(),
        subtype: None,
        addrs: vec![],
        port: 80,
        txt: vec![],
        online: true,
        timestamp_micros: 1000,
    };

    assert!(state.filter_service(&service));
}

#[test]
fn test_filter_service_specific_type() {
    let mut state = AppState::new();
    state.service_types.push("_http._tcp.local.".to_string());
    state.service_types.push("_ssh._tcp.local.".to_string());
    state.selected_type = Some(0);

    let http_service = ServiceEntry {
        fullname: "test._http._tcp.local.".to_string(),
        host: "testhost.local.".to_string(),
        service_type: "_http._tcp.local.".to_string(),
        subtype: None,
        addrs: vec![],
        port: 80,
        txt: vec![],
        online: true,
        timestamp_micros: 1000,
    };

    let ssh_service = ServiceEntry {
        fullname: "test._ssh._tcp.local.".to_string(),
        host: "testhost.local.".to_string(),
        service_type: "_ssh._tcp.local.".to_string(),
        subtype: None,
        addrs: vec![],
        port: 22,
        txt: vec![],
        online: true,
        timestamp_micros: 1000,
    };

    assert!(state.filter_service(&http_service));
    assert!(!state.filter_service(&ssh_service));
}

#[test]
fn test_remove_offline_services() {
    let mut state = AppState::new();
    state.add_service_type("_http._tcp.local.");

    let mut service1 = create_test_service("test1", "_http._tcp.local.", 80);
    service1.online = false;
    let service2 = create_test_service("test2", "_http._tcp.local.", 81);
    let mut service3 = create_test_service("test3", "_http._tcp.local.", 82);
    service3.online = false;

    state.services.push(service1);
    state.services.push(service2);
    state.services.push(service3);

    state.remove_offline_services();
    assert_eq!(state.services.len(), 1);
    assert_eq!(state.services[0].fullname, "test2._http._tcp.local.");
}

#[test]
fn test_remove_offline_services_removes_empty_types() {
    let mut state = AppState::new();
    state.add_service_type("_http._tcp.local.");
    state.add_service_type("_ssh._tcp.local.");

    let mut http_service = create_test_service("test1", "_http._tcp.local.", 80);
    http_service.online = false;
    let ssh_service = create_test_service("test2", "_ssh._tcp.local.", 22);

    state.services.push(http_service);
    state.services.push(ssh_service);

    state.remove_offline_services();
    assert_eq!(state.services.len(), 1);
    assert_eq!(state.service_types.len(), 1);
    assert_eq!(state.service_types[0], "_ssh._tcp.local.");
}

#[test]
fn test_remove_offline_services_adjusts_selection() {
    let mut state = AppState::new();
    state.add_service_type("_http._tcp.local.");

    let service1 = create_test_service("test1", "_http._tcp.local.", 80);
    let mut service2 = create_test_service("test2", "_http._tcp.local.", 81);
    service2.online = false;
    let service3 = create_test_service("test3", "_http._tcp.local.", 82);

    state.services.push(service1);
    state.services.push(service2);
    state.services.push(service3);
    state.selected_service = 2;

    state.remove_offline_services();
    assert_eq!(state.services.len(), 2);
    assert!(state.selected_service <= 1);
}

#[test]
fn test_filter_cache_invalidation() {
    let mut state = AppState::new();
    state.add_service_type("_http._tcp.local.");
    state
        .services
        .push(create_test_service("test1", "_http._tcp.local.", 80));

    let filtered = state.get_filtered_services();
    assert_eq!(filtered.len(), 1);
    assert!(!state.cache_dirty);

    state.mark_cache_dirty();
    assert!(state.cache_dirty);

    let filtered = state.get_filtered_services();
    assert_eq!(filtered.len(), 1);
    assert!(!state.cache_dirty);
}

#[test]
fn test_validate_selected_type() {
    let mut state = AppState::new();
    state.add_service_type("_http._tcp.local.");
    state.add_service_type("_ssh._tcp.local.");
    state.selected_type = Some(1);

    state.service_types.clear();
    state.validate_selected_type();
    assert_eq!(state.selected_type, None);

    state.add_service_type("_http._tcp.local.");
    state.selected_type = Some(5);
    state.validate_selected_type();
    assert_eq!(state.selected_type, Some(0));
}

#[test]
fn test_is_valid_service_type() {
    assert!(mdns_browser::types_index::is_valid_service_type("_http._tcp.local."));
    assert!(mdns_browser::types_index::is_valid_service_type("_ssh._tcp.local."));
    assert!(!mdns_browser::types_index::is_valid_service_type("_sub._http._tcp.local."));
    assert!(!mdns_browser::types_index::is_valid_service_type("test_sub.something"));
}

#[test]
fn test_current_timestamp_micros() {
    let ts1 = current_timestamp_micros();
    let ts2 = current_timestamp_micros();
    assert!(ts2 >= ts1);
    assert!(ts1 > 0);
}

#[test]
fn test_notification_enum() {
    let _user_input = mdns_browser::state::Notification::UserInput;
    let _service_changed = mdns_browser::state::Notification::ServiceChanged;
    let _metrics_updated = mdns_browser::state::Notification::MetricsUpdated;
}

#[test]
fn test_update_metric() {
    let mut state = AppState::new();
    state.update_metric("test_metric");
    assert_eq!(state.get_metric("test_metric"), Some(1));

    state.update_metric("test_metric");
    assert_eq!(state.get_metric("test_metric"), Some(2));
}

#[test]
fn test_update_daemon_metrics() {
    let mut state = AppState::new();
    let daemon_metrics = vec![
        ("queries-sent".to_string(), 10i64),
        ("responses-recv".to_string(), 5i64),
    ];

    let updated = state.update_daemon_metrics(&daemon_metrics);
    assert!(updated);
    assert_eq!(state.get_metric("daemon_queries_sent"), Some(10));
    assert_eq!(state.get_metric("daemon_responses_recv"), Some(5));

    let updated = state.update_daemon_metrics(&daemon_metrics);
    assert!(!updated);

    let daemon_metrics = vec![
        ("queries-sent".to_string(), 15i64),
        ("responses-recv".to_string(), 5i64),
    ];
    let updated = state.update_daemon_metrics(&daemon_metrics);
    assert!(updated);
    assert_eq!(state.get_metric("daemon_queries_sent"), Some(15));
}
