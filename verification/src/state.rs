//! The shared dashboard state: the entity store, the view cache with its two
//! staleness bits, metrics, and the active filter and sort settings.

use vstd::prelude::*;

use crate::entry::ServiceEntry;
use crate::order::{SortField, SortDirection, idx_sorted, sort_idx_spec, sort_indices};
use crate::text::{
    contains_seq, dec_spec, join_sp, lower, contains_chars, lower_chars, chars_of_str,
    push_str_chars, push_all, push_dec_u64, join_space,
};

verus! {

/// The view of an optional subtype: its characters, or nothing.
pub open spec fn subtype_view(s: Option<String>) -> Seq<char> {
    match s {
        Some(x) => x@,
        None => Seq::empty(),
    }
}

/// Every display field of an entry, joined with single spaces: the text the
/// free-text filter searches.
pub open spec fn entry_blob(e: ServiceEntry) -> Seq<char> {
    e.fullname@ + seq![' '] + e.host@ + seq![' '] + e.service_type@ + seq![' '] + join_sp(
        e.addrs.deep_view(),
    ) + seq![' '] + dec_spec(e.port as nat) + seq![' '] + join_sp(e.txt.deep_view()) + seq![' ']
        + subtype_view(e.subtype)
}

/// The free-text filter: an empty query admits everything, otherwise the
/// lower-cased query must occur in the lower-cased display text.
pub open spec fn matches_query(e: ServiceEntry, q: Seq<char>) -> bool {
    q.len() == 0 || contains_seq(lower(entry_blob(e)), lower(q))
}

/// The category filter: with no anchor (or one pointing past the index) every
/// entry is admitted, otherwise the service type must equal the anchored one.
pub open spec fn matches_type(e: ServiceEntry, types: Seq<String>, sel: Option<usize>) -> bool {
    match sel {
        None => true,
        Some(i) => i < types.len() ==> e.service_type@ == types[i as int]@,
    }
}

/// An entry passes the view filter when both dimensions admit it.
pub open spec fn entry_passes(
    e: ServiceEntry,
    types: Seq<String>,
    sel: Option<usize>,
    q: Seq<char>,
) -> bool {
    matches_type(e, types, sel) && matches_query(e, q)
}

/// The store indices that pass the filter, in store order.
pub open spec fn filtered_indices(
    services: Seq<ServiceEntry>,
    types: Seq<String>,
    sel: Option<usize>,
    q: Seq<char>,
) -> Seq<usize>
    decreases services.len(),
{
    if services.len() == 0 {
        Seq::empty()
    } else {
        let prev = filtered_indices(services.drop_last(), types, sel, q);
        if entry_passes(services.last(), types, sel, q) {
            prev.push((services.len() - 1) as usize)
        } else {
            prev
        }
    }
}

/// What the filtered index list holds: exactly the passing indices, strictly
/// increasing.
pub proof fn lemma_filtered_indices_props(
    services: Seq<ServiceEntry>,
    types: Seq<String>,
    sel: Option<usize>,
    q: Seq<char>,
)
    requires
        services.len() <= usize::MAX,
    ensures
        forall|j: int|
            0 <= j < filtered_indices(services, types, sel, q).len() ==> (
            #[trigger] filtered_indices(services, types, sel, q)[j] as int) < services.len()
                && entry_passes(
                services[filtered_indices(services, types, sel, q)[j] as int],
                types,
                sel,
                q,
            ),
        forall|j1: int, j2: int|
            0 <= j1 < j2 < filtered_indices(services, types, sel, q).len() ==> (
            #[trigger] filtered_indices(services, types, sel, q)[j1]) < (
            #[trigger] filtered_indices(services, types, sel, q)[j2]),
        forall|k: int|
            0 <= k < services.len() && entry_passes(services[k], types, sel, q)
                ==> filtered_indices(services, types, sel, q).contains(k as usize),
    decreases services.len(),
{
    if services.len() > 0 {
        lemma_filtered_indices_props(services.drop_last(), types, sel, q);
        let prev = filtered_indices(services.drop_last(), types, sel, q);
        let f = filtered_indices(services, types, sel, q);
        assert(forall|k: int|
            0 <= k < services.len() - 1 ==> services[k] == #[trigger] services.drop_last()[k]);
        assert forall|k: int|
            0 <= k < services.len() && entry_passes(services[k], types, sel, q) implies f.contains(
            k as usize,
        ) by {
            if k < services.len() - 1 {
                assert(services.drop_last()[k] == services[k]);
                assert(entry_passes(services.drop_last()[k], types, sel, q));
                assert(prev.contains(k as usize));
                let w = choose|w: int| 0 <= w < prev.len() && prev[w] == k as usize;
                assert(f[w] == k as usize);
            } else {
                assert(f.last() == k as usize);
            }
        }
    }
}

/// The kinds of redraw requests the event loop coalesces.
#[derive(Debug, Clone)]
pub enum Notification {
    UserInput,
    ServiceChanged,
    MetricsUpdated,
}

/// The first metric slot with the given name, if any.
pub open spec fn metric_find(m: Seq<(Seq<char>, u64)>, key: Seq<char>) -> Option<int>
    decreases m.len(),
{
    if m.len() == 0 {
        None
    } else if m[0].0 == key {
        Some(0)
    } else {
        match metric_find(m.skip(1), key) {
            Some(i) => Some(i + 1),
            None => None,
        }
    }
}

/// The live-view state: the entity store, the sorted service-type index, the
/// selection and scroll positions, the two-bit view cache, popup and filter
/// modes, and the metric counters.
pub struct AppState {
    pub services: Vec<ServiceEntry>,
    pub service_types: Vec<String>,
    pub selected_service: usize,
    pub selected_type: Option<usize>,
    pub types_scroll_offset: usize,
    pub services_scroll_offset: usize,
    pub visible_types: usize,
    pub visible_services: usize,
    pub cached_filtered_services: Vec<usize>,
    pub cache_dirty: bool,
    pub cached_sorted: bool,
    pub show_help_popup: bool,
    pub show_metrics_popup: bool,
    pub metrics: Vec<(String, u64)>,
    pub sort_field: SortField,
    pub sort_direction: SortDirection,
    pub filter_query: String,
    pub filter_input_mode: bool,
}

impl AppState {
    /// The metric counters as name characters and values.
    pub open spec fn metrics_view(self) -> Seq<(Seq<char>, u64)> {
        self.metrics@.map_values(|p: (String, u64)| (p.0@, p.1))
    }

    /// The entry passes the currently active filters.
    pub open spec fn spec_passes(self, e: ServiceEntry) -> bool {
        entry_passes(e, self.service_types@, self.selected_type, self.filter_query@)
    }

    /// The store indices the projection would hold, in store order: a pure
    /// function of the store and the active filters.
    pub open spec fn spec_filtered(self) -> Seq<usize> {
        filtered_indices(
            self.services@,
            self.service_types@,
            self.selected_type,
            self.filter_query@,
        )
    }

    /// The store and the service-type index are unchanged.
    pub open spec fn same_core(self, o: AppState) -> bool {
        self.services == o.services && self.service_types == o.service_types
    }

    /// The filter dimensions are unchanged.
    pub open spec fn same_filters(self, o: AppState) -> bool {
        self.selected_type == o.selected_type && self.filter_query == o.filter_query
            && self.filter_input_mode == o.filter_input_mode
    }

    /// The sort settings are unchanged.
    pub open spec fn same_sort(self, o: AppState) -> bool {
        self.sort_field == o.sort_field && self.sort_direction == o.sort_direction
    }

    /// Selection and scroll state are unchanged.
    pub open spec fn same_selection(self, o: AppState) -> bool {
        self.selected_service == o.selected_service && self.services_scroll_offset
            == o.services_scroll_offset && self.types_scroll_offset == o.types_scroll_offset
            && self.visible_types == o.visible_types && self.visible_services == o.visible_services
    }

    /// Popup flags and metrics are unchanged.
    pub open spec fn same_overlays(self, o: AppState) -> bool {
        self.show_help_popup == o.show_help_popup && self.show_metrics_popup == o.show_metrics_popup
            && self.metrics == o.metrics
    }

    /// The cache fields are unchanged.
    pub open spec fn same_cache(self, o: AppState) -> bool {
        self.cached_filtered_services == o.cached_filtered_services && self.cache_dirty
            == o.cache_dirty && self.cached_sorted == o.cached_sorted
    }

    /// The cache is truthful: when marked clean it holds exactly the passing
    /// indices (reordered at most), in bounds; when additionally marked sorted,
    /// neighbours are ordered by the active comparator.
    pub open spec fn cache_wf(self) -> bool {
        (!self.cache_dirty ==> self.cached_filtered_services@.to_multiset()
            == self.spec_filtered().to_multiset()) && (!self.cache_dirty ==> forall|k: int|
            0 <= k < self.cached_filtered_services@.len()
                ==> (#[trigger] self.cached_filtered_services@[k]) < self.services@.len()) && (
        !self.cache_dirty && self.cached_sorted ==> idx_sorted(
            self.services@,
            self.cached_filtered_services@,
            self.sort_field,
            self.sort_direction,
        ))
    }

    /// A fresh state: empty store, no anchor, defaults everywhere, cache dirty.
    pub fn new() -> (r: AppState)
        ensures
            r.services@.len() == 0,
            r.service_types@.len() == 0,
            r.selected_service == 0,
            r.selected_type is None,
            r.types_scroll_offset == 0,
            r.services_scroll_offset == 0,
            r.visible_types == 0,
            r.visible_services == 0,
            r.cached_filtered_services@.len() == 0,
            r.cache_dirty == true,
            r.cached_sorted == false,
            r.show_help_popup == false,
            r.show_metrics_popup == false,
            r.metrics@.len() == 0,
            r.sort_field == SortField::Host,
            r.sort_direction == SortDirection::Ascending,
            r.filter_query@.len() == 0,
            r.filter_input_mode == false,
    {
        let mut state = AppState {
            services: Vec::new(),
            service_types: Vec::new(),
            selected_service: 0,
            selected_type: None,
            types_scroll_offset: 0,
            services_scroll_offset: 0,
            visible_types: 0,
            visible_services: 0,
            cached_filtered_services: Vec::new(),
            cache_dirty: true,
            cached_sorted: false,
            show_help_popup: false,
            show_metrics_popup: false,
            metrics: Vec::new(),
            sort_field: SortField::Host,
            sort_direction: SortDirection::Ascending,
            filter_query: String::new(),
            filter_input_mode: false,
        };
        state.validate_selected_type();
        state
    }

    /// Decides whether one entry passes the active category and text filters.
    pub fn filter_service(&self, service: &ServiceEntry) -> (r: bool)
        ensures
            r == self.spec_passes(*service),
    {
        if let Some(selected_type_idx) = self.selected_type {
            if selected_type_idx < self.service_types.len() {
                if !(service.service_type == self.service_types[selected_type_idx]) {
                    return false;
                }
            }
        }
        if self.filter_query.as_str().unicode_len() == 0 {
            return true;
        }
        let blob = build_blob(service);
        let haystack = lower_chars(&blob);
        let query_chars = chars_of_str(self.filter_query.as_str());
        let needle = lower_chars(&query_chars);
        contains_chars(&haystack, &needle)
    }

    /// Rebuilds the filtered index list when it is stale; reports whether a
    /// rebuild happened.  A rebuild leaves the list unsorted.
    pub fn update_filtered_cache(&mut self) -> (rebuilt: bool)
        ensures
            rebuilt == old(self).cache_dirty,
            final(self).same_core(*old(self)),
            final(self).same_filters(*old(self)),
            final(self).same_sort(*old(self)),
            final(self).same_selection(*old(self)),
            final(self).same_overlays(*old(self)),
            final(self).cache_dirty == false,
            old(self).cache_dirty ==> final(self).cached_filtered_services@ == old(self).spec_filtered() && final(self).cached_sorted == false,
            !old(self).cache_dirty ==> *final(self) == *old(self),
    {
        if self.cache_dirty {
            self.cached_filtered_services.clear();
            let n = self.services.len();
            let mut idx: usize = 0;
            while idx < n
                invariant
                    n == self.services@.len(),
                    idx <= n,
                    self.same_core(*old(self)),
                    self.same_filters(*old(self)),
                    self.same_sort(*old(self)),
                    self.same_selection(*old(self)),
                    self.same_overlays(*old(self)),
                    self.cache_dirty == old(self).cache_dirty,
                    self.cached_sorted == old(self).cached_sorted,
                    self.cached_filtered_services@ == filtered_indices(
                        self.services@.take(idx as int),
                        self.service_types@,
                        self.selected_type,
                        self.filter_query@,
                    ),
                decreases n - idx,
            {
                let ghost pre = self.services@.take(idx as int);
                proof {
                    assert(self.services@.take(idx + 1).drop_last() =~= pre);
                    assert(self.services@.take(idx + 1).last() == self.services@[idx as int]);
                }
                if self.filter_service(&self.services[idx]) {
                    self.cached_filtered_services.push(idx);
                }
                idx = idx + 1;
            }
            assert(self.services@.take(n as int) =~= self.services@);
            self.cache_dirty = false;
            self.cached_sorted = false;
            true
        } else {
            false
        }
    }

    /// Marks the filtered list stale.
    pub fn mark_cache_dirty(&mut self)
        ensures
            *final(self) == (AppState { cache_dirty: true, ..*old(self) }),
    {
        self.cache_dirty = true;
    }

    /// Clamps the category anchor back into the index when the index shrank.
    pub fn validate_selected_type(&mut self)
        ensures
            *final(self) == (AppState { selected_type: final(self).selected_type, ..*old(self) }),
            final(self).selected_type == match old(self).selected_type {
                Some(i) => {
                    if i < old(self).service_types@.len() {
                        Some(i)
                    } else if old(self).service_types@.len() == 0 {
                        None
                    } else {
                        Some((old(self).service_types@.len() - 1) as usize)
                    }
                },
                None => None,
            },
    {
        if let Some(idx) = self.selected_type {
            if idx >= self.service_types.len() {
                if self.service_types.len() == 0 {
                    self.selected_type = None;
                } else {
                    self.selected_type = Some(self.service_types.len() - 1);
                }
            }
        }
    }

    /// Returns the current projection, refreshing the filter pass and the sort
    /// pass only where their staleness bits demand it.  With a clean, sorted
    /// cache the state is left untouched and the same rows come back.
    pub fn get_filtered_services(&mut self) -> (r: Vec<usize>)
        requires
            old(self).cache_wf(),
        ensures
            final(self).same_core(*old(self)),
            final(self).same_filters(*old(self)),
            final(self).same_sort(*old(self)),
            final(self).same_selection(*old(self)),
            final(self).same_overlays(*old(self)),
            final(self).cache_dirty == false,
            final(self).cached_sorted == true,
            r@ == final(self).cached_filtered_services@,
            forall|k: int| 0 <= k < r@.len() ==> (#[trigger] r@[k]) < final(self).services@.len(),
            old(self).cache_dirty ==> final(self).cached_filtered_services@.to_multiset() == old(self).spec_filtered().to_multiset(),
            !old(self).cache_dirty ==> final(self).cached_filtered_services@.to_multiset() == old(self).cached_filtered_services@.to_multiset(),
            !old(self).cache_dirty && old(self).cached_sorted ==> *final(self) == *old(self) && r@
                == old(self).cached_filtered_services@,
            old(self).cache_dirty || !old(self).cached_sorted ==> idx_sorted(
                final(self).services@,
                final(self).cached_filtered_services@,
                final(self).sort_field,
                final(self).sort_direction,
            ),
            old(self).cache_dirty ==> final(self).cached_filtered_services@ == sort_idx_spec(
                old(self).services@,
                old(self).spec_filtered(),
                old(self).sort_field,
                old(self).sort_direction,
            ),
            !old(self).cache_dirty && !old(self).cached_sorted ==> final(self).cached_filtered_services@ == sort_idx_spec(
                old(self).services@,
                old(self).cached_filtered_services@,
                old(self).sort_field,
                old(self).sort_direction,
            ),
            old(self).cache_wf() ==> final(self).cache_wf(),
            old(self).cache_wf() ==> final(self).cached_filtered_services@.to_multiset() == old(self).spec_filtered().to_multiset(),
    {
        let slen = self.services.len();
        proof {
            broadcast use vstd::seq_lib::group_to_multiset_ensures;

            lemma_filtered_indices_props(
                old(self).services@,
                old(self).service_types@,
                old(self).selected_type,
                old(self).filter_query@,
            );
        }
        let cache_was_rebuilt = self.update_filtered_cache();
        if cache_was_rebuilt || !self.cached_sorted {
            self.sort_filtered_services();
            self.cached_sorted = true;
        }
        let n = self.cached_filtered_services.len();
        let mut r: Vec<usize> = Vec::new();
        let mut i: usize = 0;
        while i < n
            invariant
                n == self.cached_filtered_services@.len(),
                i <= n,
                r@ == self.cached_filtered_services@.take(i as int),
            decreases n - i,
        {
            r.push(self.cached_filtered_services[i]);
            assert(r@ =~= self.cached_filtered_services@.take(i + 1));
            i = i + 1;
        }
        assert(r@ =~= self.cached_filtered_services@);
        r
    }

    /// Orders the cached projection by the active sort field and direction
    /// with a stable sort: the result is exactly `sort_idx_spec`, so rows
    /// with equal keys keep their previous relative order.
    pub fn sort_filtered_services(&mut self)
        requires
            forall|k: int|
                0 <= k < old(self).cached_filtered_services@.len() ==> (#[trigger] old(self).cached_filtered_services@[k]) < old(self).services@.len(),
        ensures
            *final(self) == (AppState {
                cached_filtered_services: final(self).cached_filtered_services,
                ..*old(self)
            }),
            final(self).cached_filtered_services@ == sort_idx_spec(
                old(self).services@,
                old(self).cached_filtered_services@,
                old(self).sort_field,
                old(self).sort_direction,
            ),
            final(self).cached_filtered_services@.to_multiset() == old(self).cached_filtered_services@.to_multiset(),
            final(self).cached_filtered_services@.len() == old(self).cached_filtered_services@.len(),
            forall|k: int|
                0 <= k < final(self).cached_filtered_services@.len() ==> (#[trigger] final(self).cached_filtered_services@[k]) < final(self).services@.len(),
            idx_sorted(
                final(self).services@,
                final(self).cached_filtered_services@,
                final(self).sort_field,
                final(self).sort_direction,
            ),
    {
        let f = self.sort_field;
        let d = self.sort_direction;
        sort_indices(&self.services, &mut self.cached_filtered_services, f, d);
    }
}

/// Builds the space-joined display text of one entry.
fn build_blob(e: &ServiceEntry) -> (r: Vec<char>)
    ensures
        r@ == entry_blob(*e),
{
    let mut out: Vec<char> = Vec::new();
    push_str_chars(&mut out, e.fullname.as_str());
    out.push(' ');
    push_str_chars(&mut out, e.host.as_str());
    out.push(' ');
    push_str_chars(&mut out, e.service_type.as_str());
    out.push(' ');
    let addrs_joined = join_space(&e.addrs);
    push_all(&mut out, &addrs_joined);
    out.push(' ');
    push_dec_u64(&mut out, e.port as u64);
    out.push(' ');
    let txt_joined = join_space(&e.txt);
    push_all(&mut out, &txt_joined);
    out.push(' ');
    match &e.subtype {
        Some(s) => push_str_chars(&mut out, s.as_str()),
        None => {},
    }
    assert(out@ =~= entry_blob(*e));
    out
}

} // verus!
