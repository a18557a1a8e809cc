use mdns_browser::entry::ServiceEntry;
use mdns_browser::format::{details_text_with_timestamp, format_service_for_display};
use mdns_browser::order::{SortDirection, SortField};
use mdns_browser::state::AppState;
use mdns_browser::time::current_timestamp_micros;

fn create_test_service(name: &str, service_type: &str, port: u16) -> ServiceEntry {
    ServiceEntry {
        fullname: format!("{}.{}", name, service_type),
        host: format!("{}.local.", name),
        service_type: service_type.to_string(),
        subtype: None,
        addrs: vec![format!("192.168.1.{}", port)],
        port,
        txt: vec![],
        online: true,
        timestamp_micros: current_timestamp_micros(),
    }
}

fn host_service(name: &str, host: &str) -> ServiceEntry {
    ServiceEntry {
        fullname: format!("{}._http._tcp.local.", name),
        host: host.to_string(),
        service_type: "_http._tcp.local.".to_string(),
        subtype: None,
        addrs: vec![],
        port: 80,
        txt: vec![],
        online: true,
        timestamp_micros: 1,
    }
}

#[test]
fn test_selection_invariants_across_operation_sequences() {
    let mut state = AppState::new();
    state.visible_services = 4;
    state.add_service_type("_http._tcp.local.");
    for i in 0..6 {
        state.on_entity_resolved(create_test_service(
            &format!("svc{}", i),
            "_http._tcp.local.",
            (100 + i) as u16,
        ));
        let len = state.get_filtered_services().len();
        assert!(state.selected_service < len.max(1));
    }
    state.navigate_services_to_last();
    state.on_entity_removed("_http._tcp.local.", "svc2._http._tcp.local.", 42);
    let len = state.get_filtered_services().len();
    assert!(state.selected_service < len.max(1));
    state.remove_offline_services();
    let len = state.get_filtered_services().len();
    assert!(state.selected_service < len.max(1));
    if state.visible_services > 0 {
        assert!(state.services_scroll_offset <= state.selected_service);
        assert!(state.selected_service < state.services_scroll_offset + state.visible_services);
    }
}

#[test]
fn test_projection_idempotent_without_mutation() {
    let mut state = AppState::new();
    state.add_service_type("_http._tcp.local.");
    state
        .services
        .push(create_test_service("one", "_http._tcp.local.", 80));
    state
        .services
        .push(create_test_service("two", "_http._tcp.local.", 81));

    let first = state.get_filtered_services();
    assert!(!state.cache_dirty);
    assert!(state.cached_sorted);
    let second = state.get_filtered_services();
    assert_eq!(first, second);
    assert!(!state.cache_dirty);
    assert!(state.cached_sorted);
}

#[test]
fn test_sort_field_change_keeps_row_set() {
    let mut state = AppState::new();
    state.add_service_type("_http._tcp.local.");
    for i in 0..5 {
        state.services.push(create_test_service(
            &format!("svc{}", i),
            "_http._tcp.local.",
            (90 - i) as u16,
        ));
    }
    let mut before = state.get_filtered_services();
    state.update_sort_field(SortField::Port);
    let mut after = state.get_filtered_services();
    before.sort();
    after.sort();
    assert_eq!(before, after);
}

#[test]
fn test_category_removal_reanchors_by_value() {
    let mut state = AppState::new();
    state.add_service_type("_a._tcp.local.");
    state.add_service_type("_b._tcp.local.");
    state.add_service_type("_c._tcp.local.");
    state.selected_type = Some(1);

    state.remove_service_type("_a._tcp.local.");
    assert_eq!(state.selected_type, Some(0));
    assert_eq!(state.service_types[0], "_b._tcp.local.");
}

#[test]
fn test_sort_by_host_and_toggle_direction() {
    let mut state = AppState::new();
    state.add_service_type("X._tcp.local.");
    state.services.push(host_service("e1", "zz"));
    state.services.push(host_service("e2", "aa"));
    state.services.push(host_service("e3", "mm"));

    state.sort_field = SortField::Host;
    state.sort_direction = SortDirection::Ascending;
    state.mark_cache_dirty();

    let asc = state.get_filtered_services();
    assert_eq!(state.services[asc[0]].fullname, "e2._http._tcp.local.");
    assert_eq!(state.services[asc[1]].fullname, "e3._http._tcp.local.");
    assert_eq!(state.services[asc[2]].fullname, "e1._http._tcp.local.");

    state.toggle_sort_direction();
    let desc = state.get_filtered_services();
    assert_eq!(state.services[desc[0]].fullname, "e1._http._tcp.local.");
    assert_eq!(state.services[desc[1]].fullname, "e3._http._tcp.local.");
    assert_eq!(state.services[desc[2]].fullname, "e2._http._tcp.local.");
}

#[test]
fn test_three_page_downs_land_on_last_row() {
    let mut state = AppState::new();
    for i in 0..20 {
        state.services.push(create_test_service(
            &format!("svc{:02}", i),
            "_http._tcp.local.",
            (100 + i) as u16,
        ));
    }
    state.visible_services = 5;
    state.selected_service = 10;

    state.navigate_services_page_down();
    state.navigate_services_page_down();
    state.navigate_services_page_down();
    assert_eq!(state.selected_service, 19);
}

#[test]
fn test_compact_pins_selection_near_end() {
    let mut state = AppState::new();
    state.add_service_type("_http._tcp.local.");
    for i in 0..5 {
        state.services.push(create_test_service(
            &format!("svc{}", i),
            "_http._tcp.local.",
            (100 + i) as u16,
        ));
    }
    let _ = state.get_filtered_services();
    state.services[3].online = false;
    state.services[4].online = false;
    state.selected_service = 4;

    state.remove_offline_services();
    assert_eq!(state.get_filtered_services().len(), 3);
    assert_eq!(state.selected_service, 2);
}

#[test]
fn test_port_filter_matches_exact_digits() {
    let mut state = AppState::new();
    state.filter_query = "8080".to_string();

    let mut on_8080 = host_service("a", "hosta");
    on_8080.port = 8080;
    let mut on_80 = host_service("b", "hostb");
    on_80.port = 80;
    on_80.addrs = vec![];

    assert!(state.filter_service(&on_8080));
    assert!(!state.filter_service(&on_80));
}

#[test]
fn test_rendering_same_frame_twice_is_identical() {
    let service = ServiceEntry {
        fullname: "Stable._http._tcp.local.".to_string(),
        host: "stable.local.".to_string(),
        service_type: "_http._tcp.local.".to_string(),
        subtype: Some("_printer".to_string()),
        addrs: vec!["10.0.0.1".to_string(), "10.0.0.2".to_string()],
        port: 443,
        txt: vec!["a=1".to_string(), "b=2".to_string()],
        online: true,
        timestamp_micros: 123456789,
    };

    let row1 = format_service_for_display(&service);
    let row2 = format_service_for_display(&service);
    assert_eq!(row1.as_bytes(), row2.as_bytes());

    let d1 = details_text_with_timestamp(&service, "2021-01-01 00:00:00.000000");
    let d2 = details_text_with_timestamp(&service, "2021-01-01 00:00:00.000000");
    assert_eq!(d1.as_bytes(), d2.as_bytes());
}

#[test]
fn test_details_text_layout() {
    let service = ServiceEntry {
        fullname: "Svc._http._tcp.local.".to_string(),
        host: "h.local.".to_string(),
        service_type: "_http._tcp.local.".to_string(),
        subtype: None,
        addrs: vec!["10.0.0.9".to_string()],
        port: 80,
        txt: vec![],
        online: false,
        timestamp_micros: 5,
    };
    let text = details_text_with_timestamp(&service, "TS");
    assert_eq!(
        text,
        "Offline since: TS\n\nFullname: Svc._http._tcp.local.\nHostname: h.local.\nType: _http._tcp.local.\nPort: 80\n\nAddresses:\n10.0.0.9\n\nTXT Records:\nNone"
    );
}

#[test]
fn test_from_parts_sorts_addresses_and_records() {
    let entry = ServiceEntry::from_parts(
        "Svc._http._tcp.local.".to_string(),
        "h.local.".to_string(),
        "_http._tcp.local.".to_string(),
        None,
        vec!["9.9.9.9".to_string(), "1.1.1.1".to_string(), "5.5.5.5".to_string()],
        80,
        vec![
            ("zeta".to_string(), "2".to_string()),
            ("alpha".to_string(), "1".to_string()),
        ],
        77,
    );
    assert_eq!(entry.addrs, vec!["1.1.1.1", "5.5.5.5", "9.9.9.9"]);
    assert_eq!(entry.txt, vec!["alpha=1", "zeta=2"]);
    assert!(entry.online);
    assert_eq!(entry.timestamp_micros, 77);
}

#[test]
fn test_category_events_drive_index() {
    let mut state = AppState::new();
    assert!(state.on_category_found("_http._tcp.local."));
    assert!(!state.on_category_found("_sub._http._tcp.local."));
    assert!(!state.on_category_found("_http._tcp.local."));
    assert_eq!(state.service_types.len(), 1);

    assert!(state.on_category_removed("_http._tcp.local."));
    assert_eq!(state.service_types.len(), 0);
    assert!(!state.on_category_removed("_http._tcp.local."));
}

#[test]
fn test_entity_events_mark_offline_and_keep_row_visible() {
    let mut state = AppState::new();
    assert!(state.on_category_found("_http._tcp.local."));
    state.on_entity_resolved(create_test_service("one", "_http._tcp.local.", 80));
    assert_eq!(state.services.len(), 1);

    let known = state.on_entity_removed("_http._tcp.local.", "one._http._tcp.local.", 900);
    assert!(known);
    assert_eq!(state.services.len(), 1);
    assert!(!state.services[0].online);
    assert_eq!(state.services[0].timestamp_micros, 900);
    assert_eq!(state.get_filtered_services().len(), 1);

    let unknown = state.on_entity_removed("_http._tcp.local.", "nope._http._tcp.local.", 901);
    assert!(!unknown);
}

#[test]
fn test_resolved_entities_keep_store_host_sorted() {
    let mut state = AppState::new();
    state.on_entity_resolved(host_service("a", "zz.local."));
    state.on_entity_resolved(host_service("b", "aa.local."));
    state.on_entity_resolved(host_service("c", "mm.local."));
    assert_eq!(state.services[0].host, "aa.local.");
    assert_eq!(state.services[1].host, "mm.local.");
    assert_eq!(state.services[2].host, "zz.local.");
}

#[test]
fn test_upsert_replaces_by_key_without_duplicates() {
    let mut state = AppState::new();
    let first = create_test_service("dup", "_http._tcp.local.", 80);
    let second = first.clone();
    let mut third = first.clone();
    third.host = "changed.local.".to_string();

    assert!(state.add_or_update_service(first));
    assert_eq!(state.services.len(), 1);

    assert!(!state.add_or_update_service(second));
    assert_eq!(state.services.len(), 1);

    assert!(state.add_or_update_service(third));
    assert_eq!(state.services.len(), 1);
    assert_eq!(state.services[0].host, "changed.local.");
}

#[test]
fn test_sort_preserves_equal_key_order() {
    let mut state = AppState::new();
    state.add_service_type("_http._tcp.local.");
    state
        .services
        .push(create_test_service("alpha", "_http._tcp.local.", 80));
    state
        .services
        .push(create_test_service("beta", "_http._tcp.local.", 80));
    state
        .services
        .push(create_test_service("gamma", "_http._tcp.local.", 80));
    state.sort_field = SortField::Port;
    state.mark_cache_dirty();

    let filtered = state.get_filtered_services();
    assert_eq!(filtered, vec![0, 1, 2]);

    state.update_sort_direction(SortDirection::Descending);
    let filtered = state.get_filtered_services();
    assert_eq!(filtered, vec![0, 1, 2]);
}

#[test]
fn test_page_moves_at_least_one_row() {
    let mut state = AppState::new();
    for i in 0..5 {
        state.services.push(create_test_service(
            &format!("svc{}", i),
            "_http._tcp.local.",
            (100 + i) as u16,
        ));
    }
    state.visible_services = 1;
    state.selected_service = 2;

    state.navigate_services_page_down();
    assert_eq!(state.selected_service, 3);

    state.navigate_services_page_up();
    assert_eq!(state.selected_service, 2);

    state.visible_services = 0;
    state.navigate_services_page_up();
    assert_eq!(state.selected_service, 1);
}

#[test]
fn test_compact_with_no_offline_entities_changes_nothing() {
    let mut state = AppState::new();
    state.add_service_type("_http._tcp.local.");
    state
        .services
        .push(create_test_service("one", "_http._tcp.local.", 80));
    state.selected_service = 0;
    state.remove_offline_services();
    assert_eq!(state.services.len(), 1);
    assert_eq!(state.service_types.len(), 1);
    assert_eq!(state.selected_service, 0);
}
