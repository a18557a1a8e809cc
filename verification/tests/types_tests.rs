use mdns_browser::entry::ServiceEntry;
use mdns_browser::state::AppState;
use mdns_browser::time::current_timestamp_micros;

fn create_test_service(name: &str, service_type: &str, port: u16) -> ServiceEntry {
    ServiceEntry {
        fullname: format!("{}.{}", name, service_type),
        host: format!("{}.local.", name),
        service_type: service_type.to_string(),
        subtype: None,
        addrs: vec![format!("192.168.1.{}", port)],
        port,
        txt: vec![],
        online: true,
        timestamp_micros: current_timestamp_micros(),
    }
}

#[test]
fn test_add_service_type() {
    let mut state = AppState::new();
    assert!(state.add_service_type("_http._tcp.local."));
    assert_eq!(state.service_types.len(), 1);
    assert_eq!(state.service_types[0], "_http._tcp.local.");

    assert!(!state.add_service_type("_http._tcp.local."));
    assert_eq!(state.service_types.len(), 1);
}

#[test]
fn test_add_service_type_maintains_sort_order() {
    let mut state = AppState::new();
    state.add_service_type("_ssh._tcp.local.");
    state.add_service_type("_http._tcp.local.");
    state.add_service_type("_printer._tcp.local.");

    assert_eq!(state.service_types[0], "_http._tcp.local.");
    assert_eq!(state.service_types[1], "_printer._tcp.local.");
    assert_eq!(state.service_types[2], "_ssh._tcp.local.");
}

#[test]
fn test_add_service_type_preserves_selection() {
    let mut state = AppState::new();
    state.add_service_type("_ssh._tcp.local.");
    state.add_service_type("_http._tcp.local.");
    state.selected_type = Some(1);

    state.add_service_type("_printer._tcp.local.");
    assert_eq!(state.selected_type, Some(2));
}

#[test]
fn test_remove_service_type() {
    let mut state = AppState::new();
    state.add_service_type("_http._tcp.local.");
    state.add_service_type("_ssh._tcp.local.");

    state.services.push(ServiceEntry {
        fullname: "test._http._tcp.local.".to_string(),
        host: "testhost.local.".to_string(),
        service_type: "_http._tcp.local.".to_string(),
        subtype: None,
        addrs: vec![],
        port: 80,
        txt: vec![],
        online: true,
        timestamp_micros: 1000,
    });

    assert!(!state.remove_service_type("_http._tcp.local."));
    assert_eq!(state.service_types.len(), 2);

    assert!(state.remove_service_type("_ssh._tcp.local."));
    assert_eq!(state.service_types.len(), 1);
}

#[test]
fn test_remove_service_type_adjusts_selection() {
    let mut state = AppState::new();
    state.add_service_type("_http._tcp.local.");
    state.add_service_type("_printer._tcp.local.");
    state.add_service_type("_ssh._tcp.local.");
    state.selected_type = Some(1);

    state.remove_service_type("_printer._tcp.local.");
    assert!(state.selected_type == Some(1) || state.selected_type == Some(0));
}

#[test]
fn test_navigate_service_types_up() {
    let mut state = AppState::new();
    state.add_service_type("_http._tcp.local.");
    state.add_service_type("_ssh._tcp.local.");
    state.selected_type = Some(1);

    state.navigate_service_types_up();
    assert_eq!(state.selected_type, Some(0));

    state.navigate_service_types_up();
    assert_eq!(state.selected_type, None);

    state.navigate_service_types_up();
    assert_eq!(state.selected_type, None);
}

#[test]
fn test_navigate_service_types_down() {
    let mut state = AppState::new();
    state.add_service_type("_http._tcp.local.");
    state.add_service_type("_ssh._tcp.local.");
    state.selected_type = None;

    state.navigate_service_types_down();
    assert_eq!(state.selected_type, Some(0));

    state.navigate_service_types_down();
    assert_eq!(state.selected_type, Some(1));

    state.navigate_service_types_down();
    assert_eq!(state.selected_type, Some(1));
}

#[test]
fn test_empty_service_types_navigation() {
    let mut state = AppState::new();

    state.navigate_service_types_up();
    assert_eq!(state.selected_type, None);

    state.navigate_service_types_down();
    assert_eq!(state.selected_type, None);
}

#[test]
fn test_update_service_type_selection_resets_scroll() {
    let mut state = AppState::new();
    state.add_service_type("_http._tcp.local.");
    state.add_service_type("_ssh._tcp.local.");

    for i in 0..10 {
        state.services.push(create_test_service(
            &format!("test{}", i),
            "_http._tcp.local.",
            80 + i,
        ));
    }

    state.selected_service = 5;
    state.services_scroll_offset = 3;

    state.update_service_type_selection(Some(1));
    assert_eq!(state.selected_service, 0);
    assert_eq!(state.services_scroll_offset, 0);
}
