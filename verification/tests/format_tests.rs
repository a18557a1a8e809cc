use mdns_browser::entry::ServiceEntry;
use mdns_browser::format::{
    create_service_details_text, format_service_for_display, format_service_type_for_display,
    format_sort_direction_for_display, format_sort_field_for_display,
};
use mdns_browser::order::{SortDirection, SortField};
use mdns_browser::time::format_timestamp_micros;

#[test]
fn test_format_service_type_for_display() {
    assert_eq!(
        format_service_type_for_display("_http._tcp.local."),
        "http.tcp"
    );
    assert_eq!(
        format_service_type_for_display("_ssh._tcp.local."),
        "ssh.tcp"
    );
    assert_eq!(
        format_service_type_for_display("_printer._tcp."),
        "printer.tcp"
    );
}

#[test]
fn test_format_service_for_display() {
    let service = ServiceEntry {
        fullname: "MyPrinter._printer._tcp.local.".to_string(),
        host: "printer.local.".to_string(),
        service_type: "_printer._tcp.local.".to_string(),
        subtype: None,
        addrs: vec!["192.168.1.100".to_string()],
        port: 631,
        txt: vec![],
        online: true,
        timestamp_micros: 1000,
    };

    let display = format_service_for_display(&service);
    assert!(display.contains("MyPrinter"));
    assert!(display.contains("printer"));
    assert!(display.contains("192.168.1.100"));
    assert!(display.contains("631"));
}

#[test]
fn test_format_service_for_display_no_address() {
    let service = ServiceEntry {
        fullname: "test._http._tcp.local.".to_string(),
        host: "testhost.local.".to_string(),
        service_type: "_http._tcp.local.".to_string(),
        subtype: None,
        addrs: vec![],
        port: 80,
        txt: vec![],
        online: true,
        timestamp_micros: 1000,
    };

    let display = format_service_for_display(&service);
    assert!(display.contains("<no-addr>"));
}

#[test]
fn test_create_service_details_text() {
    let service = ServiceEntry {
        fullname: "MyService._http._tcp.local.".to_string(),
        host: "myhost.local.".to_string(),
        service_type: "_http._tcp.local.".to_string(),
        subtype: Some("_printer".to_string()),
        addrs: vec!["192.168.1.1".to_string(), "192.168.1.2".to_string()],
        port: 8080,
        txt: vec!["key1=value1".to_string(), "key2=value2".to_string()],
        online: true,
        timestamp_micros: 1000000000,
    };

    let details = create_service_details_text(&service);
    assert!(details.contains("MyService._http._tcp.local."));
    assert!(details.contains("myhost.local."));
    assert!(details.contains("_http._tcp.local."));
    assert!(details.contains("_printer"));
    assert!(details.contains("8080"));
    assert!(details.contains("192.168.1.1"));
    assert!(details.contains("192.168.1.2"));
    assert!(details.contains("key1=value1"));
    assert!(details.contains("key2=value2"));
    assert!(details.contains("Online since:"));
}

#[test]
fn test_create_service_details_text_offline_service() {
    let service = ServiceEntry {
        fullname: "OfflineService._http._tcp.local.".to_string(),
        host: "offlinehost.local.".to_string(),
        service_type: "_http._tcp.local.".to_string(),
        subtype: None,
        addrs: vec![],
        port: 80,
        txt: vec![],
        online: false,
        timestamp_micros: 2000000000,
    };

    let details = create_service_details_text(&service);
    assert!(details.contains("Offline since:"));
    assert!(details.contains("None"));
    assert!(!details.contains("Subtype:"));
}

#[test]
fn test_format_timestamp_micros() {
    let timestamp = format_timestamp_micros(1609459200000000);
    assert!(timestamp.contains("-"));
    assert!(timestamp.contains(":"));
    assert!(timestamp.len() > 20);
}

#[test]
fn test_format_sort_field_display() {
    assert_eq!(format_sort_field_for_display(SortField::Host), "Host");
    assert_eq!(format_sort_field_for_display(SortField::ServiceType), "Type");
    assert_eq!(format_sort_field_for_display(SortField::Fullname), "Name");
    assert_eq!(format_sort_field_for_display(SortField::Port), "Port");
    assert_eq!(format_sort_field_for_display(SortField::Address), "Addr");
    assert_eq!(format_sort_field_for_display(SortField::Timestamp), "Time");
}

#[test]
fn test_format_sort_direction_display() {
    assert_eq!(
        format_sort_direction_for_display(SortDirection::Ascending),
        "↑"
    );
    assert_eq!(
        format_sort_direction_for_display(SortDirection::Descending),
        "↓"
    );
}
