//! The input-mode automaton: which mode the state is in, what a keystroke
//! means there, and the dispatch that carries it out.

use vstd::prelude::*;

use crate::state::AppState;

verus! {

/// A keystroke, already decoded from the terminal.
#[derive(Clone, Copy, Debug, PartialEq, Eq, Structural)]
pub enum Key {
    Char(char),
    Ctrl(char),
    Up,
    Down,
    Left,
    Right,
    PageUp,
    PageDown,
    Home,
    End,
    Enter,
    Esc,
    Backspace,
    Other,
}

/// The four input modes.
#[derive(Clone, Copy, Debug, PartialEq, Eq, Structural)]
pub enum Mode {
    Normal,
    HelpPopup,
    MetricsPopup,
    FilterEdit,
}

/// The operations a keystroke can trigger.
#[derive(Clone, Copy, Debug, PartialEq, Eq, Structural)]
pub enum Action {
    Quit,
    ToggleHelp,
    ToggleMetrics,
    RowUp,
    RowDown,
    CategoryUp,
    CategoryDown,
    PageUp,
    PageDown,
    FirstRow,
    LastRow,
    CycleSortForward,
    CycleSortBackward,
    ToggleSortDirection,
    Prune,
    StartFilter,
    ClearFilter,
    CommitFilter,
    CancelFilter,
    EraseFilterChar,
    TypeFilterChar(char),
    ClosePopup,
    Nothing,
}

impl AppState {
    /// The input mode the state is in; the popups take precedence over
    /// filter editing.
    pub open spec fn mode(self) -> Mode {
        if self.show_help_popup {
            Mode::HelpPopup
        } else if self.show_metrics_popup {
            Mode::MetricsPopup
        } else if self.filter_input_mode {
            Mode::FilterEdit
        } else {
            Mode::Normal
        }
    }
}

/// The keystroke routing table: what each key means in each mode.
pub open spec fn action_for(mode: Mode, key: Key) -> Action {
    match mode {
        Mode::HelpPopup => Action::ClosePopup,
        Mode::MetricsPopup => Action::ClosePopup,
        Mode::FilterEdit => match key {
            Key::Enter => Action::CommitFilter,
            Key::Esc => Action::CancelFilter,
            Key::Backspace => Action::EraseFilterChar,
            Key::Char(ch) => Action::TypeFilterChar(ch),
            _ => Action::Nothing,
        },
        Mode::Normal => match key {
            Key::Char(ch) => {
                if ch == 'q' {
                    Action::Quit
                } else if ch == '?' {
                    Action::ToggleHelp
                } else if ch == 'm' {
                    Action::ToggleMetrics
                } else if ch == 'k' {
                    Action::RowUp
                } else if ch == 'j' {
                    Action::RowDown
                } else if ch == 'h' {
                    Action::CategoryUp
                } else if ch == 'l' {
                    Action::CategoryDown
                } else if ch == 'b' {
                    Action::PageUp
                } else if ch == 'f' || ch == ' ' {
                    Action::PageDown
                } else if ch == 's' {
                    Action::CycleSortForward
                } else if ch == 'S' {
                    Action::CycleSortBackward
                } else if ch == 'o' {
                    Action::ToggleSortDirection
                } else if ch == 'd' {
                    Action::Prune
                } else if ch == '/' {
                    Action::StartFilter
                } else if ch == 'n' {
                    Action::ClearFilter
                } else {
                    Action::Nothing
                }
            },
            Key::Ctrl(ch) => if ch == 'c' {
                Action::Quit
            } else {
                Action::Nothing
            },
            Key::Up => Action::RowUp,
            Key::Down => Action::RowDown,
            Key::Left => Action::CategoryUp,
            Key::Right => Action::CategoryDown,
            Key::PageUp => Action::PageUp,
            Key::PageDown => Action::PageDown,
            Key::Home => Action::FirstRow,
            Key::End => Action::LastRow,
            _ => Action::Nothing,
        },
    }
}

impl AppState {
    /// Routes one keystroke through the mode automaton and carries out the
    /// operation it maps to; reports whether the loop should keep running.
    pub fn handle_key_event(&mut self, key: Key) -> (keep_running: bool)
        requires
            old(self).cache_wf(),
        ensures
            keep_running == (action_for(old(self).mode(), key) != Action::Quit),
            old(self).mode() == Mode::HelpPopup ==> *final(self) == (AppState {
                show_help_popup: false,
                ..*old(self)
            }),
            old(self).mode() == Mode::MetricsPopup ==> *final(self) == (AppState {
                show_metrics_popup: false,
                ..*old(self)
            }),
            action_for(old(self).mode(), key) == Action::Quit ==> *final(self) == *old(self),
            action_for(old(self).mode(), key) == Action::Nothing ==> *final(self) == *old(self),
            action_for(old(self).mode(), key) == Action::ToggleHelp ==> *final(self) == (AppState {
                show_help_popup: !old(self).show_help_popup,
                ..*old(self)
            }),
            action_for(old(self).mode(), key) == Action::ToggleMetrics ==> *final(self)
                == (AppState { show_metrics_popup: !old(self).show_metrics_popup, ..*old(self) }),
            action_for(old(self).mode(), key) == Action::CommitFilter ==> final(self).invalidated_from(*old(self)) && final(self).filter_input_mode == false && final(self).filter_query == old(self).filter_query && final(self).selected_service == 0,
            action_for(old(self).mode(), key) == Action::CancelFilter ==> final(self).invalidated_from(*old(self)) && final(self).filter_input_mode == false && final(self).filter_query@.len() == 0 && final(self).selected_service == 0,
            action_for(old(self).mode(), key) == Action::EraseFilterChar ==> final(self).invalidated_from(*old(self)) && final(self).filter_query@ == (if old(self).filter_query@.len() > 0 {
                old(self).filter_query@.drop_last()
            } else {
                old(self).filter_query@
            }),
            (exists|ch: char| action_for(old(self).mode(), key) == Action::TypeFilterChar(ch))
                ==> final(self).invalidated_from(*old(self)) && final(self).filter_query@ == old(self).filter_query@.push(action_for(old(self).mode(), key)->TypeFilterChar_0),
            action_for(old(self).mode(), key) == Action::StartFilter ==> *final(self) == (AppState {
                filter_input_mode: true,
                filter_query: final(self).filter_query,
                ..*old(self)
            }) && final(self).filter_query@.len() == 0,
            action_for(old(self).mode(), key) == Action::FirstRow ==> *final(self) == (AppState {
                selected_service: 0,
                services_scroll_offset: 0,
                ..*old(self)
            }),
            action_for(old(self).mode(), key) == Action::ToggleSortDirection ==> final(self).sort_direction == crate::controls::flip_direction(old(self).sort_direction) && final(self).selected_service == 0,
            action_for(old(self).mode(), key) == Action::CycleSortForward ==> final(self).sort_field == crate::controls::next_field(old(self).sort_field) && final(self).selected_service == 0,
            action_for(old(self).mode(), key) == Action::CycleSortBackward ==> final(self).sort_field == crate::controls::prev_field(old(self).sort_field) && final(self).selected_service == 0,
            action_for(old(self).mode(), key) == Action::Prune ==> final(self).services@
                == crate::store::keep_online(old(self).services@),
            action_for(old(self).mode(), key) == Action::RowUp ==> (old(self).selected_service > 0
                ==> final(self).selected_service == old(self).selected_service - 1) && (old(self).selected_service == 0 ==> final(self).selected_service == 0),
            action_for(old(self).mode(), key) == Action::RowDown ==> ((old(self).selected_service as int) + 1 < old(self).spec_filtered().len() ==> final(self).selected_service == old(self).selected_service + 1) && (!((old(self).selected_service as int) + 1 < old(self).spec_filtered().len()) ==> final(self).selected_service == old(self).selected_service),
            action_for(old(self).mode(), key) == Action::LastRow ==> final(self).selected_service as int == (if old(self).spec_filtered().len() > 0 {
                old(self).spec_filtered().len() - 1
            } else {
                0int
            }),
    {
        if self.show_help_popup {
            self.handle_help_popup_key(key)
        } else if self.show_metrics_popup {
            self.handle_metrics_popup_key(key)
        } else if self.filter_input_mode {
            self.handle_filter_input_key(key)
        } else {
            self.handle_normal_mode_key(key)
        }
    }

    /// Any key closes the help popup without acting on it.
    pub fn handle_help_popup_key(&mut self, _key: Key) -> (keep_running: bool)
        ensures
            keep_running == true,
            *final(self) == (AppState { show_help_popup: false, ..*old(self) }),
    {
        self.show_help_popup = false;
        true
    }

    /// Any key closes the metrics popup without acting on it.
    pub fn handle_metrics_popup_key(&mut self, _key: Key) -> (keep_running: bool)
        ensures
            keep_running == true,
            *final(self) == (AppState { show_metrics_popup: false, ..*old(self) }),
    {
        self.show_metrics_popup = false;
        true
    }

    /// In filter-edit mode: enter commits, escape discards, backspace erases,
    /// characters extend the live query.
    pub fn handle_filter_input_key(&mut self, key: Key) -> (keep_running: bool)
        ensures
            keep_running == true,
            match key {
                Key::Enter => final(self).invalidated_from(*old(self)) && final(self).filter_input_mode == false && final(self).filter_query == old(self).filter_query
                    && final(self).selected_service == 0 && final(self).services_scroll_offset
                    == 0,
                Key::Esc => final(self).invalidated_from(*old(self)) && final(self).filter_input_mode == false && final(self).filter_query@.len() == 0 && final(self).selected_service == 0 && final(self).services_scroll_offset == 0,
                Key::Backspace => final(self).invalidated_from(*old(self)) && final(self).filter_query@ == (if old(self).filter_query@.len() > 0 {
                    old(self).filter_query@.drop_last()
                } else {
                    old(self).filter_query@
                }) && final(self).filter_input_mode == old(self).filter_input_mode,
                Key::Char(ch) => final(self).invalidated_from(*old(self)) && final(self).filter_query@ == old(self).filter_query@.push(ch) && final(self).filter_input_mode == old(self).filter_input_mode,
                _ => *final(self) == *old(self),
            },
    {
        match key {
            Key::Enter => {
                self.apply_filter();
                true
            },
            Key::Esc => {
                self.clear_filter();
                true
            },
            Key::Backspace => {
                self.remove_from_filter();
                true
            },
            Key::Char(ch) => {
                self.add_to_filter(ch);
                true
            },
            _ => true,
        }
    }

    /// In normal mode: navigation, sorting, pruning, filter entry, and quit.
    pub fn handle_normal_mode_key(&mut self, key: Key) -> (keep_running: bool)
        requires
            old(self).cache_wf(),
        ensures
            keep_running == (action_for(Mode::Normal, key) != Action::Quit),
            action_for(Mode::Normal, key) == Action::Quit ==> *final(self) == *old(self),
            action_for(Mode::Normal, key) == Action::Nothing ==> *final(self) == *old(self),
            action_for(Mode::Normal, key) == Action::ToggleHelp ==> *final(self) == (AppState {
                show_help_popup: !old(self).show_help_popup,
                ..*old(self)
            }),
            action_for(Mode::Normal, key) == Action::ToggleMetrics ==> *final(self) == (AppState {
                show_metrics_popup: !old(self).show_metrics_popup,
                ..*old(self)
            }),
            action_for(Mode::Normal, key) == Action::StartFilter ==> *final(self) == (AppState {
                filter_input_mode: true,
                filter_query: final(self).filter_query,
                ..*old(self)
            }) && final(self).filter_query@.len() == 0,
            action_for(Mode::Normal, key) == Action::ClearFilter ==> final(self).invalidated_from(
                *old(self),
            ) && final(self).filter_query@.len() == 0 && final(self).filter_input_mode == false
                && final(self).selected_service == 0,
            action_for(Mode::Normal, key) == Action::FirstRow ==> *final(self) == (AppState {
                selected_service: 0,
                services_scroll_offset: 0,
                ..*old(self)
            }),
            action_for(Mode::Normal, key) == Action::ToggleSortDirection ==> final(self).sort_direction == crate::controls::flip_direction(old(self).sort_direction) && final(self).selected_service == 0,
            action_for(Mode::Normal, key) == Action::CycleSortForward ==> final(self).sort_field == crate::controls::next_field(old(self).sort_field) && final(self).selected_service == 0,
            action_for(Mode::Normal, key) == Action::CycleSortBackward ==> final(self).sort_field == crate::controls::prev_field(old(self).sort_field) && final(self).selected_service == 0,
            action_for(Mode::Normal, key) == Action::Prune ==> final(self).services@
                == crate::store::keep_online(old(self).services@),
            action_for(Mode::Normal, key) == Action::RowUp ==> (old(self).selected_service > 0
                ==> final(self).selected_service == old(self).selected_service - 1) && (old(self).selected_service == 0 ==> final(self).selected_service == 0),
            action_for(Mode::Normal, key) == Action::RowDown ==> ((old(self).selected_service as int) + 1 < old(self).spec_filtered().len() ==> final(self).selected_service == old(self).selected_service + 1) && (!((old(self).selected_service as int) + 1 < old(self).spec_filtered().len()) ==> final(self).selected_service == old(self).selected_service),
            action_for(Mode::Normal, key) == Action::LastRow ==> final(self).selected_service as int == (if old(self).spec_filtered().len() > 0 {
                old(self).spec_filtered().len() - 1
            } else {
                0int
            }),
    {
        match key {
            Key::Char(ch) => {
                if ch == 'q' {
                    false
                } else if ch == '?' {
                    self.toggle_help();
                    true
                } else if ch == 'm' {
                    self.toggle_metrics();
                    true
                } else if ch == 'k' {
                    self.navigate_services_up();
                    true
                } else if ch == 'j' {
                    self.navigate_services_down();
                    true
                } else if ch == 'h' {
                    self.navigate_service_types_up();
                    true
                } else if ch == 'l' {
                    self.navigate_service_types_down();
                    true
                } else if ch == 'b' {
                    self.navigate_services_page_up();
                    true
                } else if ch == 'f' || ch == ' ' {
                    self.navigate_services_page_down();
                    true
                } else if ch == 's' {
                    self.cycle_sort_field(true);
                    true
                } else if ch == 'S' {
                    self.cycle_sort_field(false);
                    true
                } else if ch == 'o' {
                    self.toggle_sort_direction();
                    true
                } else if ch == 'd' {
                    self.remove_offline_services();
                    true
                } else if ch == '/' {
                    self.start_filter_input();
                    true
                } else if ch == 'n' {
                    self.clear_filter();
                    true
                } else {
                    true
                }
            },
            Key::Ctrl(ch) => {
                if ch == 'c' {
                    false
                } else {
                    true
                }
            },
            Key::Up => {
                self.navigate_services_up();
                true
            },
            Key::Down => {
                self.navigate_services_down();
                true
            },
            Key::Left => {
                self.navigate_service_types_up();
                true
            },
            Key::Right => {
                self.navigate_service_types_down();
                true
            },
            Key::PageUp => {
                self.navigate_services_page_up();
                true
            },
            Key::PageDown => {
                self.navigate_services_page_down();
                true
            },
            Key::Home => {
                self.navigate_services_to_first();
                true
            },
            Key::End => {
                self.navigate_services_to_last();
                true
            },
            _ => true,
        }
    }
}

} // verus!
