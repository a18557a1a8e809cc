use mdns_browser::input::Key;
use mdns_browser::order::{SortDirection, SortField};
use mdns_browser::state::AppState;

#[test]
fn test_handle_key_event_quit() {
    let mut state = AppState::new();
    let key = Key::Char('q');
    assert!(!state.handle_key_event(key));
}

#[test]
fn test_handle_key_event_toggle_help() {
    let mut state = AppState::new();
    assert!(!state.show_help_popup);

    let key = Key::Char('?');
    assert!(state.handle_key_event(key));
    assert!(state.show_help_popup);

    assert!(state.handle_key_event(key));
    assert!(!state.show_help_popup);
}

#[test]
fn test_handle_key_event_toggle_metrics() {
    let mut state = AppState::new();
    assert!(!state.show_metrics_popup);

    let key = Key::Char('m');
    assert!(state.handle_key_event(key));
    assert!(state.show_metrics_popup);

    assert!(state.handle_key_event(key));
    assert!(!state.show_metrics_popup);
}

#[test]
fn test_handle_help_popup_key() {
    let mut state = AppState::new();
    state.show_help_popup = true;

    let key = Key::Char('a');
    assert!(state.handle_key_event(key));
    assert!(!state.show_help_popup);
}

#[test]
fn test_handle_metrics_popup_key() {
    let mut state = AppState::new();
    state.show_metrics_popup = true;

    let key = Key::Char('x');
    assert!(state.handle_key_event(key));
    assert!(!state.show_metrics_popup);
}

#[test]
fn test_key_event_cycle_sort_forward() {
    let mut state = AppState::new();
    assert_eq!(state.sort_field, SortField::Host);

    let key = Key::Char('s');
    state.handle_key_event(key);
    assert_eq!(state.sort_field, SortField::ServiceType);
}

#[test]
fn test_key_event_cycle_sort_backward() {
    let mut state = AppState::new();
    assert_eq!(state.sort_field, SortField::Host);

    let key = Key::Char('S');
    state.handle_key_event(key);
    assert_eq!(state.sort_field, SortField::Timestamp);
}

#[test]
fn test_key_event_toggle_sort_direction() {
    let mut state = AppState::new();
    assert_eq!(state.sort_direction, SortDirection::Ascending);

    let key = Key::Char('o');
    state.handle_key_event(key);
    assert_eq!(state.sort_direction, SortDirection::Descending);

    state.handle_key_event(key);
    assert_eq!(state.sort_direction, SortDirection::Ascending);
}

#[test]
fn test_handle_filter_input_key_enter() {
    let mut state = AppState::new();
    state.filter_input_mode = true;
    state.filter_query = "test".to_string();

    let key = Key::Enter;
    let should_continue = state.handle_key_event(key);

    assert!(should_continue);
    assert!(!state.filter_input_mode);
    assert_eq!(state.filter_query, "test");
}

#[test]
fn test_handle_filter_input_key_escape() {
    let mut state = AppState::new();
    state.filter_input_mode = true;
    state.filter_query = "test".to_string();

    let key = Key::Esc;
    let should_continue = state.handle_key_event(key);

    assert!(should_continue);
    assert!(!state.filter_input_mode);
    assert_eq!(state.filter_query, "");
}

#[test]
fn test_handle_filter_input_key_backspace() {
    let mut state = AppState::new();
    state.filter_input_mode = true;
    state.filter_query = "test".to_string();

    let key = Key::Backspace;
    let should_continue = state.handle_key_event(key);

    assert!(should_continue);
    assert!(state.filter_input_mode);
    assert_eq!(state.filter_query, "tes");
}

#[test]
fn test_handle_filter_input_key_char() {
    let mut state = AppState::new();
    state.filter_input_mode = true;

    let key = Key::Char('a');
    let should_continue = state.handle_key_event(key);

    assert!(should_continue);
    assert!(state.filter_input_mode);
    assert_eq!(state.filter_query, "a");
}

#[test]
fn test_handle_normal_mode_key_slash() {
    let mut state = AppState::new();

    let key = Key::Char('/');
    let should_continue = state.handle_key_event(key);

    assert!(should_continue);
    assert!(state.filter_input_mode);
    assert_eq!(state.filter_query, "");
}

#[test]
fn test_handle_normal_mode_key_n() {
    let mut state = AppState::new();
    state.filter_query = "test".to_string();
    state.selected_service = 5;
    state.services_scroll_offset = 2;

    let key = Key::Char('n');
    let should_continue = state.handle_key_event(key);

    assert!(should_continue);
    assert_eq!(state.filter_query, "");
    assert!(!state.filter_input_mode);
    assert_eq!(state.selected_service, 0);
    assert_eq!(state.services_scroll_offset, 0);
}

#[test]
fn test_quit_with_control_key() {
    let mut state = AppState::new();
    let key = Key::Ctrl('c');
    assert!(!state.handle_key_event(key));
}
