use mdns_browser::entry::ServiceEntry;
use mdns_browser::state::AppState;
use mdns_browser::time::current_timestamp_micros;

fn create_test_service(name: &str, service_type: &str, port: u16) -> ServiceEntry {
    ServiceEntry {
        fullname: format!("{}.{}", name, service_type),
        host: format!("{}.local.", name),
        service_type: service_type.to_string(),
        subtype: None,
        addrs: vec![format!("192.168.1.{}", port)],
        port,
        txt: vec![],
        online: true,
        timestamp_micros: current_timestamp_micros(),
    }
}

#[test]
fn test_navigate_services_up() {
    let mut state = AppState::new();
    state
        .services
        .push(create_test_service("test1", "_http._tcp.local.", 80));
    state
        .services
        .push(create_test_service("test2", "_http._tcp.local.", 81));
    state
        .services
        .push(create_test_service("test3", "_http._tcp.local.", 82));
    state.selected_service = 2;

    state.navigate_services_up();
    assert_eq!(state.selected_service, 1);

    state.navigate_services_up();
    assert_eq!(state.selected_service, 0);

    state.navigate_services_up();
    assert_eq!(state.selected_service, 0);
}

#[test]
fn test_navigate_services_down() {
    let mut state = AppState::new();
    state
        .services
        .push(create_test_service("test1", "_http._tcp.local.", 80));
    state
        .services
        .push(create_test_service("test2", "_http._tcp.local.", 81));
    state
        .services
        .push(create_test_service("test3", "_http._tcp.local.", 82));
    state.selected_service = 0;

    state.navigate_services_down();
    assert_eq!(state.selected_service, 1);

    state.navigate_services_down();
    assert_eq!(state.selected_service, 2);

    state.navigate_services_down();
    assert_eq!(state.selected_service, 2);
}

#[test]
fn test_navigate_services_to_first() {
    let mut state = AppState::new();
    state
        .services
        .push(create_test_service("test1", "_http._tcp.local.", 80));
    state
        .services
        .push(create_test_service("test2", "_http._tcp.local.", 81));
    state.selected_service = 1;
    state.services_scroll_offset = 1;

    state.navigate_services_to_first();
    assert_eq!(state.selected_service, 0);
    assert_eq!(state.services_scroll_offset, 0);
}

#[test]
fn test_navigate_services_to_last() {
    let mut state = AppState::new();
    state
        .services
        .push(create_test_service("test1", "_http._tcp.local.", 80));
    state
        .services
        .push(create_test_service("test2", "_http._tcp.local.", 81));
    state
        .services
        .push(create_test_service("test3", "_http._tcp.local.", 82));
    state.selected_service = 0;

    state.navigate_services_to_last();
    assert_eq!(state.selected_service, 2);
}

#[test]
fn test_navigate_services_page_up() {
    let mut state = AppState::new();
    for i in 0..20 {
        state.services.push(create_test_service(
            &format!("test{}", i),
            "_http._tcp.local.",
            80 + i,
        ));
    }
    state.visible_services = 5;
    state.selected_service = 10;

    state.navigate_services_page_up();
    assert_eq!(state.selected_service, 6);

    state.navigate_services_page_up();
    assert_eq!(state.selected_service, 2);

    state.navigate_services_page_up();
    assert_eq!(state.selected_service, 0);
}

#[test]
fn test_navigate_services_page_down() {
    let mut state = AppState::new();
    for i in 0..20 {
        state.services.push(create_test_service(
            &format!("test{}", i),
            "_http._tcp.local.",
            80 + i,
        ));
    }
    state.visible_services = 5;
    state.selected_service = 0;

    state.navigate_services_page_down();
    assert_eq!(state.selected_service, 4);

    state.navigate_services_page_down();
    assert_eq!(state.selected_service, 8);

    state.selected_service = 15;
    state.navigate_services_page_down();
    assert_eq!(state.selected_service, 19);
}

#[test]
fn test_empty_service_list_navigation() {
    let mut state = AppState::new();

    state.navigate_services_up();
    assert_eq!(state.selected_service, 0);

    state.navigate_services_down();
    assert_eq!(state.selected_service, 0);

    state.navigate_services_to_first();
    assert_eq!(state.selected_service, 0);

    state.navigate_services_to_last();
    assert_eq!(state.selected_service, 0);
}

#[test]
fn test_scroll_offset_boundary_conditions() {
    let mut state = AppState::new();
    for i in 0..3 {
        state.services.push(create_test_service(
            &format!("test{}", i),
            "_http._tcp.local.",
            80 + i,
        ));
    }
    state.visible_services = 10;

    state.selected_service = 2;
    state.update_services_scroll_offset();
    assert_eq!(state.services_scroll_offset, 0);
}

#[test]
fn test_filter_with_no_matching_services() {
    let mut state = AppState::new();
    state.add_service_type("_http._tcp.local.");
    state.add_service_type("_ssh._tcp.local.");
    state.selected_type = Some(1);

    state
        .services
        .push(create_test_service("test1", "_http._tcp.local.", 80));

    let filtered = state.get_filtered_services();
    assert_eq!(filtered.len(), 0);
}
