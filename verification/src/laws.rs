//! Crate-level laws: properties that relate several operations, stated over
//! the same spec functions the operations' contracts use.

use vstd::prelude::*;

use crate::controls::anchor_clamped;
use crate::entry::ServiceEntry;
use crate::format::{details_spec, display_row_spec};
use crate::state::{entry_blob, matches_query};
use crate::text::lower;
use crate::order::{
    entry_le, idx_sorted, lemma_field_le_total, lemma_field_le_transitive, SortDirection,
    SortField,
};
use crate::state::AppState;

verus! {

/// Changing only the sort field or direction never changes which rows the
/// projection holds, only their order: the filtered index set is a function
/// of the store, the category anchor and the query alone.
pub proof fn lemma_sort_change_preserves_rows(s1: AppState, s2: AppState)
    requires
        s1.services == s2.services,
        s1.service_types == s2.service_types,
        s1.selected_type == s2.selected_type,
        s1.filter_query == s2.filter_query,
    ensures
        s1.spec_filtered() == s2.spec_filtered(),
{
}

/// The sort setters preserve the row set: with an in-range (or absent)
/// category anchor the setters' re-clamp is the identity, so a state that
/// differs only by sort field or direction — the anchor re-clamped — holds
/// the same filtered indices.  (A dangling anchor is clamped to the last
/// category, which genuinely changes the row set; the index operations keep
/// anchors valid by re-anchoring them on every mutation.)
pub proof fn lemma_sort_setter_preserves_rows(s1: AppState, s2: AppState)
    requires
        match s1.selected_type {
            Some(i) => (i as int) < s1.service_types@.len(),
            None => true,
        },
        s2.services == s1.services,
        s2.service_types == s1.service_types,
        s2.filter_query == s1.filter_query,
        s2.selected_type == anchor_clamped(s1.selected_type, s1.service_types@.len()),
    ensures
        s2.spec_filtered() == s1.spec_filtered(),
{
}

/// The free-text filter is case-insensitive: two queries, and two entities,
/// whose texts differ only by letter case are filtered identically.
pub proof fn lemma_filter_case_insensitive(
    e1: ServiceEntry,
    e2: ServiceEntry,
    q1: Seq<char>,
    q2: Seq<char>,
)
    requires
        lower(q1) == lower(q2),
        lower(entry_blob(e1)) == lower(entry_blob(e2)),
    ensures
        matches_query(e1, q1) == matches_query(e2, q2),
{
    assert(lower(q1).len() == q1.len());
    assert(lower(q2).len() == q2.len());
}

/// The selection invariants hold of a freshly created state, before any
/// operation has run; every store operation re-establishes them, so they
/// hold after each operation of any sequence.
pub proof fn lemma_initial_selection_invariants(s: AppState)
    requires
        s.services@.len() == 0,
        s.selected_service == 0,
        s.services_scroll_offset == 0,
        s.visible_services == 0,
    ensures
        s.sel_wf(),
{
}

/// On every sort field but the address one, a projection whose neighbours
/// are ordered is ordered as a whole: any earlier row compares at or below
/// any later row.
pub proof fn lemma_projection_fully_sorted(
    services: Seq<ServiceEntry>,
    idx: Seq<usize>,
    f: SortField,
    d: SortDirection,
    i: int,
    j: int,
)
    requires
        f != SortField::Address,
        idx_sorted(services, idx, f, d),
        forall|k: int| 0 <= k < idx.len() ==> (#[trigger] idx[k]) < services.len(),
        0 <= i <= j < idx.len(),
    ensures
        entry_le(services[idx[i] as int], services[idx[j] as int], f, d),
    decreases j - i,
{
    if i == j {
        lemma_field_le_total(services[idx[i] as int], services[idx[i] as int], f);
    } else {
        lemma_projection_fully_sorted(services, idx, f, d, i, j - 1);
        assert(entry_le(services[idx[j - 1] as int], services[idx[j] as int], f, d));
        match d {
            SortDirection::Ascending => {
                lemma_field_le_transitive(
                    services[idx[i] as int],
                    services[idx[j - 1] as int],
                    services[idx[j] as int],
                    f,
                );
            },
            SortDirection::Descending => {
                lemma_field_le_transitive(
                    services[idx[j] as int],
                    services[idx[j - 1] as int],
                    services[idx[i] as int],
                    f,
                );
            },
        }
    }
}

/// Rendering is a pure function of the frame: a row or details pane rendered
/// twice from the same entry (and, for the details pane, the same rendered
/// timestamp text) is byte-identical, because each renderer's output equals
/// a spec-level function of its input.
pub proof fn lemma_render_deterministic(e1: ServiceEntry, e2: ServiceEntry, ts: Seq<char>)
    requires
        e1 == e2,
    ensures
        display_row_spec(e1) == display_row_spec(e2),
        details_spec(e1, ts) == details_spec(e2, ts),
{
}

} // verus!
