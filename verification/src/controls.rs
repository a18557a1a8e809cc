//! Operator-facing state changes: filter editing, sort switching, popup
//! toggles, and the shared invalidate-and-revalidate step behind them.

use vstd::prelude::*;

use crate::metrics::metric_bump;
use crate::order::{SortField, SortDirection};
use crate::state::AppState;
use crate::text::{chars_of_str, chars_to_string};

verus! {

/// An anchor clamped back into an index of length `n`: kept when still valid,
/// moved to the last slot when past the end, dropped when the index is empty.
pub open spec fn anchor_clamped(sel: Option<usize>, n: nat) -> Option<usize> {
    match sel {
        Some(i) => {
            if i < n {
                Some(i)
            } else if n == 0 {
                None
            } else {
                Some((n - 1) as usize)
            }
        },
        None => None,
    }
}

impl AppState {
    /// What every cache invalidation leaves behind: both staleness bits set,
    /// the invalidation counter bumped, the anchor re-clamped, and everything
    /// else but selection, scroll and the filter text untouched.
    pub open spec fn invalidated_from(self, o: AppState) -> bool {
        self.cache_dirty == true && self.cached_sorted == false && self.selected_type
            == anchor_clamped(o.selected_type, o.service_types@.len()) && self.metrics_view()
            == metric_bump(o.metrics_view(), "cache_invalidations"@, 1) && self.services
            == o.services && self.service_types == o.service_types
            && self.cached_filtered_services == o.cached_filtered_services && self.sort_field
            == o.sort_field && self.sort_direction == o.sort_direction && self.types_scroll_offset
            == o.types_scroll_offset && self.visible_types == o.visible_types
            && self.visible_services == o.visible_services && self.show_help_popup
            == o.show_help_popup && self.show_metrics_popup == o.show_metrics_popup
    }

    /// Counts the invalidation, marks both cache bits stale, and re-clamps the
    /// category anchor.
    pub fn invalidate_cache_and_validate(&mut self)
        ensures
            final(self).invalidated_from(*old(self)),
            final(self).selected_service == old(self).selected_service,
            final(self).services_scroll_offset == old(self).services_scroll_offset,
            final(self).filter_query == old(self).filter_query,
            final(self).filter_input_mode == old(self).filter_input_mode,
    {
        self.update_metric("cache_invalidations");
        self.mark_cache_dirty();
        self.cached_sorted = false;
        self.validate_selected_type();
    }

    /// Shows or hides the help popup.
    pub fn toggle_help(&mut self)
        ensures
            *final(self) == (AppState { show_help_popup: !old(self).show_help_popup, ..*old(self) }),
    {
        self.show_help_popup = !self.show_help_popup;
    }

    /// Shows or hides the metrics popup.
    pub fn toggle_metrics(&mut self)
        ensures
            *final(self) == (AppState {
                show_metrics_popup: !old(self).show_metrics_popup,
                ..*old(self)
            }),
    {
        self.show_metrics_popup = !self.show_metrics_popup;
    }

    /// Enters filter-edit mode with an empty in-progress query.
    pub fn start_filter_input(&mut self)
        ensures
            *final(self) == (AppState {
                filter_input_mode: true,
                filter_query: final(self).filter_query,
                ..*old(self)
            }),
            final(self).filter_query@.len() == 0,
    {
        self.filter_input_mode = true;
        self.filter_query = String::new();
    }

    /// Drops the committed query, leaves filter-edit mode, and forgets the
    /// prior position in the list.
    pub fn clear_filter(&mut self)
        ensures
            final(self).invalidated_from(*old(self)),
            final(self).filter_query@.len() == 0,
            final(self).filter_input_mode == false,
            final(self).selected_service == 0,
            final(self).services_scroll_offset == 0,
    {
        self.filter_query = String::new();
        self.filter_input_mode = false;
        self.selected_service = 0;
        self.services_scroll_offset = 0;
        self.invalidate_cache_and_validate();
    }

    /// Commits the query, leaves filter-edit mode, and forgets the prior
    /// position in the list.
    pub fn apply_filter(&mut self)
        ensures
            final(self).invalidated_from(*old(self)),
            final(self).filter_query == old(self).filter_query,
            final(self).filter_input_mode == false,
            final(self).selected_service == 0,
            final(self).services_scroll_offset == 0,
    {
        self.filter_input_mode = false;
        self.selected_service = 0;
        self.services_scroll_offset = 0;
        self.invalidate_cache_and_validate();
    }

    /// Appends one character to the query; the view refilters immediately.
    pub fn add_to_filter(&mut self, ch: char)
        ensures
            final(self).invalidated_from(*old(self)),
            final(self).filter_query@ == old(self).filter_query@.push(ch),
            final(self).filter_input_mode == old(self).filter_input_mode,
            final(self).selected_service == old(self).selected_service,
            final(self).services_scroll_offset == old(self).services_scroll_offset,
    {
        let mut q = chars_of_str(self.filter_query.as_str());
        q.push(ch);
        self.filter_query = chars_to_string(&q);
        self.invalidate_cache_and_validate();
    }

    /// Removes the last query character, if any; the view refilters.
    pub fn remove_from_filter(&mut self)
        ensures
            final(self).invalidated_from(*old(self)),
            final(self).filter_query@ == if old(self).filter_query@.len() > 0 {
                old(self).filter_query@.drop_last()
            } else {
                old(self).filter_query@
            },
            final(self).filter_input_mode == old(self).filter_input_mode,
            final(self).selected_service == old(self).selected_service,
            final(self).services_scroll_offset == old(self).services_scroll_offset,
    {
        let mut q = chars_of_str(self.filter_query.as_str());
        if q.len() > 0 {
            q.pop();
            assert(q@ =~= old(self).filter_query@.drop_last());
        }
        self.filter_query = chars_to_string(&q);
        self.invalidate_cache_and_validate();
    }

    /// Anchors the category filter (or drops it) and forgets the prior
    /// position in the list.
    pub fn update_service_type_selection(&mut self, new_type: Option<usize>)
        ensures
            final(self).invalidated_from(
                AppState { selected_type: new_type, ..*old(self) },
            ),
            final(self).selected_service == 0,
            final(self).services_scroll_offset == 0,
            final(self).filter_query == old(self).filter_query,
            final(self).filter_input_mode == old(self).filter_input_mode,
    {
        self.selected_type = new_type;
        self.selected_service = 0;
        self.services_scroll_offset = 0;
        self.invalidate_cache_and_validate();
    }

    /// Switches the sort field and forgets the prior position in the list.
    pub fn update_sort_field(&mut self, field: SortField)
        ensures
            final(self).invalidated_from(AppState { sort_field: field, ..*old(self) }),
            final(self).selected_service == 0,
            final(self).services_scroll_offset == 0,
            final(self).filter_query == old(self).filter_query,
            final(self).filter_input_mode == old(self).filter_input_mode,
            final(self).sort_field == field,
    {
        self.sort_field = field;
        self.selected_service = 0;
        self.services_scroll_offset = 0;
        self.invalidate_cache_and_validate();
    }

    /// Switches the sort direction and forgets the prior position in the list.
    pub fn update_sort_direction(&mut self, direction: SortDirection)
        ensures
            final(self).invalidated_from(AppState { sort_direction: direction, ..*old(self) }),
            final(self).selected_service == 0,
            final(self).services_scroll_offset == 0,
            final(self).filter_query == old(self).filter_query,
            final(self).filter_input_mode == old(self).filter_input_mode,
            final(self).sort_direction == direction,
    {
        self.sort_direction = direction;
        self.selected_service = 0;
        self.services_scroll_offset = 0;
        self.invalidate_cache_and_validate();
    }

    /// Flips between ascending and descending order.
    pub fn toggle_sort_direction(&mut self)
        ensures
            final(self).invalidated_from(
                AppState { sort_direction: final(self).sort_direction, ..*old(self) },
            ),
            final(self).sort_direction == flip_direction(old(self).sort_direction),
            final(self).selected_service == 0,
            final(self).services_scroll_offset == 0,
            final(self).filter_query == old(self).filter_query,
            final(self).filter_input_mode == old(self).filter_input_mode,
    {
        match self.sort_direction {
            SortDirection::Ascending => self.update_sort_direction(SortDirection::Descending),
            SortDirection::Descending => self.update_sort_direction(SortDirection::Ascending),
        }
    }

    /// Steps to the neighbouring sort field, wrapping at either end.
    pub fn cycle_sort_field(&mut self, forward: bool)
        ensures
            final(self).invalidated_from(
                AppState { sort_field: final(self).sort_field, ..*old(self) },
            ),
            final(self).sort_field == if forward {
                next_field(old(self).sort_field)
            } else {
                prev_field(old(self).sort_field)
            },
            final(self).selected_service == 0,
            final(self).services_scroll_offset == 0,
            final(self).filter_query == old(self).filter_query,
            final(self).filter_input_mode == old(self).filter_input_mode,
    {
        let new_field = if forward {
            match self.sort_field {
                SortField::Host => SortField::ServiceType,
                SortField::ServiceType => SortField::Fullname,
                SortField::Fullname => SortField::Port,
                SortField::Port => SortField::Address,
                SortField::Address => SortField::Timestamp,
                SortField::Timestamp => SortField::Host,
            }
        } else {
            match self.sort_field {
                SortField::Host => SortField::Timestamp,
                SortField::ServiceType => SortField::Host,
                SortField::Fullname => SortField::ServiceType,
                SortField::Port => SortField::Fullname,
                SortField::Address => SortField::Port,
                SortField::Timestamp => SortField::Address,
            }
        };
        self.update_sort_field(new_field);
    }
}

/// The opposite sort direction.
pub open spec fn flip_direction(d: SortDirection) -> SortDirection {
    match d {
        SortDirection::Ascending => SortDirection::Descending,
        SortDirection::Descending => SortDirection::Ascending,
    }
}

/// The sort field after the given one, wrapping at the end.
pub open spec fn next_field(f: SortField) -> SortField {
    match f {
        SortField::Host => SortField::ServiceType,
        SortField::ServiceType => SortField::Fullname,
        SortField::Fullname => SortField::Port,
        SortField::Port => SortField::Address,
        SortField::Address => SortField::Timestamp,
        SortField::Timestamp => SortField::Host,
    }
}

/// The sort field before the given one, wrapping at the start.
pub open spec fn prev_field(f: SortField) -> SortField {
    match f {
        SortField::Host => SortField::Timestamp,
        SortField::ServiceType => SortField::Host,
        SortField::Fullname => SortField::ServiceType,
        SortField::Port => SortField::Fullname,
        SortField::Address => SortField::Port,
        SortField::Timestamp => SortField::Address,
    }
}

} // verus!
