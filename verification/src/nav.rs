//! Selection and scroll control: row navigation, paging, and the two-sided
//! scroll rule that keeps the selection on-screen.

use vstd::prelude::*;

use crate::state::AppState;

verus! {

/// The two-sided scroll rule: the window slides up when the selection moved
/// above it and down when the selection moved below its last visible row.
pub open spec fn scroll_fix(scroll: int, sel: int, visible: int) -> int {
    if sel < scroll {
        sel
    } else if visible > 0 && sel >= scroll + visible {
        sel - visible + 1
    } else {
        scroll
    }
}

impl AppState {
    /// The selection invariants: the selected row lies inside the projection
    /// (or sits at zero when the projection is empty), and with a known
    /// window height the selection is on-screen.
    pub open spec fn sel_wf(self) -> bool {
        (self.spec_filtered().len() > 0 ==> (self.selected_service as int)
            < self.spec_filtered().len()) && (self.spec_filtered().len() == 0
            ==> self.selected_service == 0) && (self.visible_services > 0 ==> (
        self.services_scroll_offset <= self.selected_service && (self.selected_service as int)
            < self.services_scroll_offset + self.visible_services))
    }

    /// Everything but the selected row, the list scroll offset, and the cache
    /// is unchanged.
    pub open spec fn nav_frame(self, o: AppState) -> bool {
        self.same_core(o) && self.same_filters(o) && self.same_sort(o) && self.same_overlays(o)
            && self.types_scroll_offset == o.types_scroll_offset && self.visible_types
            == o.visible_types && self.visible_services == o.visible_services
    }

    /// Re-derives the scroll offset so the selection stays on-screen.
    pub fn update_services_scroll_offset(&mut self)
        ensures
            *final(self) == (AppState {
                services_scroll_offset: final(self).services_scroll_offset,
                ..*old(self)
            }),
            final(self).services_scroll_offset as int == scroll_fix(
                old(self).services_scroll_offset as int,
                old(self).selected_service as int,
                old(self).visible_services as int,
            ),
            final(self).services_scroll_offset <= final(self).selected_service,
            final(self).visible_services > 0 ==> (final(self).selected_service as int) < final(self).services_scroll_offset + final(self).visible_services,
    {
        if self.selected_service < self.services_scroll_offset {
            self.services_scroll_offset = self.selected_service;
        } else if self.visible_services > 0 && self.selected_service >= self.visible_services
            && self.selected_service - self.visible_services >= self.services_scroll_offset {
            self.services_scroll_offset = self.selected_service - self.visible_services + 1;
        }
    }

    /// Moves the selection one row up, clamped at the top.
    pub fn navigate_services_up(&mut self)
        ensures
            final(self).nav_frame(*old(self)),
            final(self).same_cache(*old(self)),
            old(self).selected_service > 0 ==> final(self).selected_service == old(self).selected_service - 1 && final(self).services_scroll_offset as int == scroll_fix(
                old(self).services_scroll_offset as int,
                final(self).selected_service as int,
                old(self).visible_services as int,
            ),
            old(self).selected_service == 0 ==> *final(self) == *old(self),
    {
        if self.selected_service > 0 {
            self.selected_service = self.selected_service - 1;
            self.update_services_scroll_offset();
        }
    }

    /// Moves the selection one row down, clamped at the projection's end.
    pub fn navigate_services_down(&mut self)
        requires
            old(self).cache_wf(),
        ensures
            final(self).nav_frame(*old(self)),
            final(self).cache_dirty == false,
            final(self).cached_sorted == true,
            final(self).cache_wf(),
            (old(self).selected_service as int) + 1 < old(self).spec_filtered().len() ==> final(self).selected_service == old(self).selected_service + 1 && final(self).services_scroll_offset as int == scroll_fix(
                old(self).services_scroll_offset as int,
                final(self).selected_service as int,
                old(self).visible_services as int,
            ),
            !((old(self).selected_service as int) + 1 < old(self).spec_filtered().len()) ==> final(self).selected_service == old(self).selected_service && final(self).services_scroll_offset == old(self).services_scroll_offset,
    {
        let filtered = self.get_filtered_services();
        let filtered_len = filtered.len();
        proof {
            vstd::seq_lib::to_multiset_len(self.cached_filtered_services@);
            vstd::seq_lib::to_multiset_len(old(self).spec_filtered());
        }
        if filtered_len > 0 && self.selected_service < filtered_len - 1 {
            self.selected_service = self.selected_service + 1;
            self.update_services_scroll_offset();
        }
    }

    /// Moves the selection up by one page (the window height less one row).
    pub fn navigate_services_page_up(&mut self)
        ensures
            final(self).nav_frame(*old(self)),
            final(self).same_cache(*old(self)),
            ({
                let step = if old(self).visible_services > 1 {
                    old(self).visible_services - 1
                } else {
                    1int
                };
                final(self).selected_service as int == if old(self).selected_service as int
                    >= step {
                    old(self).selected_service as int - step
                } else {
                    0int
                }
            }),
            final(self).services_scroll_offset as int == scroll_fix(
                old(self).services_scroll_offset as int,
                final(self).selected_service as int,
                old(self).visible_services as int,
            ),
    {
        let scroll_amount = if self.visible_services > 1 {
            self.visible_services - 1
        } else {
            1
        };
        if self.selected_service >= scroll_amount {
            self.selected_service = self.selected_service - scroll_amount;
        } else {
            self.selected_service = 0;
        }
        self.update_services_scroll_offset();
    }

    /// Moves the selection down by one page, clamped at the projection's end.
    pub fn navigate_services_page_down(&mut self)
        requires
            old(self).cache_wf(),
        ensures
            final(self).nav_frame(*old(self)),
            final(self).cache_dirty == false,
            final(self).cached_sorted == true,
            final(self).cache_wf(),
            ({
                let amt = if old(self).visible_services > 1 {
                    old(self).visible_services - 1
                } else {
                    1int
                };
                let flen = old(self).spec_filtered().len() as int;
                let last = if flen > 0 {
                    flen - 1
                } else {
                    0int
                };
                final(self).selected_service as int == if old(self).selected_service + amt < last {
                    old(self).selected_service + amt
                } else {
                    last
                }
            }),
            final(self).services_scroll_offset as int == scroll_fix(
                old(self).services_scroll_offset as int,
                final(self).selected_service as int,
                old(self).visible_services as int,
            ),
    {
        let filtered = self.get_filtered_services();
        let filtered_len = filtered.len();
        proof {
            vstd::seq_lib::to_multiset_len(self.cached_filtered_services@);
            vstd::seq_lib::to_multiset_len(old(self).spec_filtered());
        }
        let scroll_amount = if self.visible_services > 1 {
            self.visible_services - 1
        } else {
            1
        };
        let last = if filtered_len > 0 {
            filtered_len - 1
        } else {
            0
        };
        let room = if last > scroll_amount {
            last - scroll_amount
        } else {
            0
        };
        if scroll_amount < last && self.selected_service < room {
            self.selected_service = self.selected_service + scroll_amount;
        } else {
            self.selected_service = last;
        }
        self.update_services_scroll_offset();
    }

    /// Jumps to the first row and rewinds the scroll.
    pub fn navigate_services_to_first(&mut self)
        ensures
            *final(self) == (AppState {
                selected_service: 0,
                services_scroll_offset: 0,
                ..*old(self)
            }),
    {
        self.selected_service = 0;
        self.services_scroll_offset = 0;
    }

    /// Jumps to the last row of the projection.
    pub fn navigate_services_to_last(&mut self)
        requires
            old(self).cache_wf(),
        ensures
            final(self).nav_frame(*old(self)),
            final(self).cache_dirty == false,
            final(self).cached_sorted == true,
            final(self).cache_wf(),
            final(self).selected_service as int == if old(self).spec_filtered().len() > 0 {
                old(self).spec_filtered().len() - 1
            } else {
                0int
            },
            final(self).services_scroll_offset as int == scroll_fix(
                old(self).services_scroll_offset as int,
                final(self).selected_service as int,
                old(self).visible_services as int,
            ),
    {
        let filtered = self.get_filtered_services();
        let filtered_len = filtered.len();
        proof {
            vstd::seq_lib::to_multiset_len(self.cached_filtered_services@);
            vstd::seq_lib::to_multiset_len(old(self).spec_filtered());
        }
        self.selected_service = if filtered_len > 0 {
            filtered_len - 1
        } else {
            0
        };
        self.update_services_scroll_offset();
    }

    /// Moves the category anchor one slot towards "all categories".
    pub fn navigate_service_types_up(&mut self)
        ensures
            ({
                let new_type = match old(self).selected_type {
                    None => None,
                    Some(i) => if i == 0 {
                        None
                    } else {
                        Some((i - 1) as usize)
                    },
                };
                let ts = match new_type {
                    None => 0,
                    Some(ni) => if (ni as int) < old(self).types_scroll_offset {
                        ni as int
                    } else {
                        old(self).types_scroll_offset as int
                    },
                };
                final(self).invalidated_from(
                    AppState {
                        selected_type: new_type,
                        types_scroll_offset: final(self).types_scroll_offset,
                        ..*old(self)
                    },
                ) && final(self).types_scroll_offset as int == ts
            }),
            final(self).selected_service == 0,
            final(self).services_scroll_offset == 0,
            final(self).filter_query == old(self).filter_query,
            final(self).filter_input_mode == old(self).filter_input_mode,
    {
        let new_type = match self.selected_type {
            None => None,
            Some(idx) => if idx == 0 {
                None
            } else {
                Some(idx - 1)
            },
        };
        match new_type {
            None => {
                self.types_scroll_offset = 0;
            },
            Some(new_idx) => {
                if new_idx < self.types_scroll_offset {
                    self.types_scroll_offset = new_idx;
                }
            },
        }
        self.update_service_type_selection(new_type);
    }

    /// Moves the category anchor one slot down the index, never wrapping.
    pub fn navigate_service_types_down(&mut self)
        ensures
            ({
                let n = old(self).service_types@.len() as int;
                let new_type = match old(self).selected_type {
                    None => if n > 0 {
                        Some(0usize)
                    } else {
                        None
                    },
                    Some(i) => if (i as int) < n - 1 {
                        Some((i + 1) as usize)
                    } else {
                        Some(i)
                    },
                };
                let ts = match new_type {
                    None => 0int,
                    Some(ni) => if old(self).visible_types > 0 && ni as int >= old(self).types_scroll_offset + old(self).visible_types {
                        ni - old(self).visible_types + 1
                    } else {
                        old(self).types_scroll_offset as int
                    },
                };
                final(self).invalidated_from(
                    AppState {
                        selected_type: new_type,
                        types_scroll_offset: final(self).types_scroll_offset,
                        ..*old(self)
                    },
                ) && final(self).types_scroll_offset as int == ts
            }),
            final(self).selected_service == 0,
            final(self).services_scroll_offset == 0,
            final(self).filter_query == old(self).filter_query,
            final(self).filter_input_mode == old(self).filter_input_mode,
    {
        let types_len = self.service_types.len();
        let new_type = match self.selected_type {
            None => if types_len > 0 {
                Some(0)
            } else {
                None
            },
            Some(idx) => if types_len > 0 && idx < types_len - 1 {
                Some(idx + 1)
            } else {
                Some(idx)
            },
        };
        match new_type {
            None => {
                self.types_scroll_offset = 0;
            },
            Some(new_idx) => {
                if self.visible_types > 0 && new_idx >= self.visible_types && new_idx
                    - self.visible_types >= self.types_scroll_offset {
                    self.types_scroll_offset = new_idx - self.visible_types + 1;
                }
            },
        }
        self.update_service_type_selection(new_type);
    }
}

} // verus!
