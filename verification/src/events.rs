//! Application of discovery events to the state: the decisions the
//! coordinator takes under its lock for each event the collaborator emits.
//! Every applier re-establishes the selection invariants before returning.

use vstd::prelude::*;

use crate::entry::ServiceEntry;
use crate::state::AppState;
use crate::store::{entry_same_display, find_entry};
use crate::text::{contains_seq, lex_le, lex_lt, str_lex_lt};
use crate::text::{
    lemma_lex_le_total, lemma_lex_le_transitive, lemma_lex_lt_iff_not_le, lemma_lex_lt_implies_le,
};
use crate::metrics::metric_bump;
use crate::types_index::{has_type, is_valid_service_type, retain_ne, type_in_use};

verus! {

/// The store after an upsert: the matching entry replaced when a
/// display-relevant field changed, a new entry appended when the key was
/// unknown, nothing otherwise.
pub open spec fn upserted(s: Seq<ServiceEntry>, e: ServiceEntry) -> Seq<ServiceEntry> {
    match find_entry(s, e.fullname@) {
        Some(i) => {
            if entry_same_display(s[i], e) {
                s
            } else {
                s.update(i, e)
            }
        },
        None => s.push(e),
    }
}

/// Neighbouring entries are ordered by host name.
pub open spec fn hosts_sorted(s: Seq<ServiceEntry>) -> bool {
    forall|k: int| 0 <= k < s.len() - 1 ==> lex_le((#[trigger] s[k]).host@, s[k + 1].host@)
}

/// The position before the first entry whose host is greater than `h`.
pub open spec fn entry_insert_pos(s: Seq<ServiceEntry>, h: Seq<char>) -> int
    decreases s.len(),
{
    if s.len() == 0 {
        0
    } else if lex_lt(h, s[0].host@) {
        0
    } else {
        1 + entry_insert_pos(s.skip(1), h)
    }
}

proof fn lemma_entry_insert_pos_props(s: Seq<ServiceEntry>, h: Seq<char>)
    ensures
        0 <= entry_insert_pos(s, h) <= s.len(),
        forall|k: int| 0 <= k < entry_insert_pos(s, h) ==> !lex_lt(h, (#[trigger] s[k]).host@),
        entry_insert_pos(s, h) < s.len() ==> lex_lt(h, s[entry_insert_pos(s, h)].host@),
    decreases s.len(),
{
    if s.len() > 0 && !lex_lt(h, s[0].host@) {
        lemma_entry_insert_pos_props(s.skip(1), h);
        assert(forall|k: int| 1 <= k < s.len() ==> s[k] == s.skip(1)[k - 1]);
    }
}

/// Inserts an entry into a host-sorted vector, after equal hosts.
fn insert_entry_by_host(out: &mut Vec<ServiceEntry>, e: ServiceEntry)
    requires
        hosts_sorted(old(out)@),
    ensures
        final(out)@ == old(out)@.insert(entry_insert_pos(old(out)@, e.host@), e),
        final(out)@.len() == old(out)@.len() + 1,
        hosts_sorted(final(out)@),
        final(out)@.to_multiset() == old(out)@.to_multiset().insert(e),
{
    let n = out.len();
    let mut i: usize = 0;
    assert(out@.skip(0) =~= out@);
    loop
        invariant
            n == out@.len(),
            i <= n,
            entry_insert_pos(out@, e.host@) == i + entry_insert_pos(out@.skip(i as int), e.host@),
        ensures
            0 <= i <= n,
            entry_insert_pos(out@, e.host@) == i,
        decreases n - i,
    {
        proof {
            lemma_entry_insert_pos_props(out@.skip(i as int), e.host@);
        }
        if i == n {
            assert(out@.skip(i as int).len() == 0);
            break ;
        }
        if str_lex_lt(e.host.as_str(), out[i].host.as_str()) {
            assert(out@.skip(i as int)[0] == out@[i as int]);
            break ;
        }
        assert(out@.skip(i as int)[0] == out@[i as int]);
        assert(out@.skip(i as int).skip(1) =~= out@.skip(i + 1));
        i = i + 1;
    }
    let ghost pre = out@;
    let ghost p = i as int;
    out.insert(i, e);
    proof {
        lemma_entry_insert_pos_props(pre, e.host@);
        pre.insert_ensures(p, e);
        vstd::seq_lib::to_multiset_insert(pre, p, e);
        assert forall|a: int|
            0 <= a < out@.len() - 1 implies lex_le(
            (#[trigger] out@[a]).host@,
            out@[a + 1].host@,
        ) by {
            if a < p - 1 {
                assert(out@[a] == pre[a] && out@[a + 1] == pre[a + 1]);
            } else if a == p - 1 {
                lemma_lex_lt_iff_not_le(e.host@, pre[a].host@);
                lemma_lex_le_total(pre[a].host@, e.host@);
            } else if a == p {
                if p < pre.len() {
                    lemma_lex_lt_implies_le(e.host@, pre[p].host@);
                }
            } else {
                assert(out@[a] == pre[a - 1] && out@[a + 1] == pre[a]);
            }
        }
        assert(hosts_sorted(out@));
    }
}

/// Sorts the store by host name; the same entries come out.
fn sort_entries_by_host(v: &mut Vec<ServiceEntry>)
    ensures
        final(v)@.to_multiset() == old(v)@.to_multiset(),
        final(v)@.len() == old(v)@.len(),
        hosts_sorted(final(v)@),
{
    proof {
        broadcast use vstd::seq_lib::group_to_multiset_ensures;
        broadcast use vstd::multiset::group_multiset_axioms;

    }
    let mut out: Vec<ServiceEntry> = Vec::new();
    let ghost total = old(v)@.to_multiset();
    loop
        invariant
            out@.to_multiset().add(v@.to_multiset()) =~= total,
            out@.len() + v@.len() == old(v)@.len(),
            hosts_sorted(out@),
        ensures
            v@.len() == 0,
            out@.to_multiset().add(v@.to_multiset()) =~= total,
            out@.len() + v@.len() == old(v)@.len(),
            hosts_sorted(out@),
        decreases v@.len(),
    {
        proof {
            broadcast use vstd::seq_lib::group_to_multiset_ensures;
            broadcast use vstd::multiset::group_multiset_axioms;

        }
        if v.len() == 0 {
            break ;
        }
        let ghost pre = v@;
        let e = v.remove(0);
        let ghost mid = out@;
        insert_entry_by_host(&mut out, e);
        proof {
            vstd::seq_lib::to_multiset_remove(pre, 0);
            assert(out@.to_multiset() =~= mid.to_multiset().insert(e));
            assert(out@.to_multiset().add(v@.to_multiset()) =~= total);
        }
    }
    proof {
        broadcast use vstd::seq_lib::group_to_multiset_ensures;
        broadcast use vstd::multiset::group_multiset_axioms;

        vstd::seq_lib::to_multiset_len(v@);
        assert(v@.to_multiset().len() == 0);
        assert(out@.to_multiset().add(v@.to_multiset()) =~= out@.to_multiset());
    }
    *v = out;
}

impl AppState {
    /// Re-derives a valid selection and scroll after any mutation: the
    /// selected row is clamped into the projection and brought on-screen.
    pub fn repair_selection(&mut self)
        requires
            old(self).cache_wf(),
        ensures
            final(self).nav_frame(*old(self)),
            final(self).cache_dirty == false,
            final(self).cached_sorted == true,
            final(self).cache_wf(),
            final(self).sel_wf(),
    {
        let filtered = self.get_filtered_services();
        let len = filtered.len();
        proof {
            vstd::seq_lib::to_multiset_len(self.cached_filtered_services@);
            vstd::seq_lib::to_multiset_len(old(self).spec_filtered());
        }
        if len == 0 {
            self.selected_service = 0;
        } else if self.selected_service >= len {
            self.selected_service = len - 1;
        }
        self.update_services_scroll_offset();
        proof {
            vstd::seq_lib::to_multiset_len(self.cached_filtered_services@);
            vstd::seq_lib::to_multiset_len(self.spec_filtered());
        }
    }

    /// A newly discovered category: ignored when it is a subtype entry or
    /// already known, otherwise added to the index with the discovery counted,
    /// and the selection re-derived.  Reports whether anything changed.
    pub fn on_category_found(&mut self, name: &str) -> (changed: bool)
        ensures
            changed == (!contains_seq(name@, seq!['_', 's', 'u', 'b', '.']) && !has_type(
                old(self).service_types@,
                name@,
            )),
            !changed ==> *final(self) == *old(self),
            changed ==> has_type(final(self).service_types@, name@),
            changed ==> final(self).sel_wf() && final(self).cache_wf() && final(self).cache_dirty
                == false,
            old(self).types_wf() ==> final(self).types_wf(),
    {
        if !is_valid_service_type(name) {
            return false;
        }
        let added = self.add_service_type(name);
        if added {
            self.update_metric("service_types_discovered");
            self.repair_selection();
            proof {
                let p = crate::text::insert_pos(old(self).service_types@, name@);
                crate::text::lemma_insert_pos_props(old(self).service_types@, name@);
                assert(self.service_types@[p]@ == name@);
                assert(has_type(self.service_types@, name@));
            }
        }
        added
    }

    /// A withdrawn category: removed from the index when no entity still
    /// references it, with the selection re-derived.
    pub fn on_category_removed(&mut self, name: &str) -> (changed: bool)
        ensures
            changed == (has_type(old(self).service_types@, name@) && !type_in_use(
                old(self).services@,
                name@,
            )),
            !changed ==> *final(self) == *old(self),
            changed ==> final(self).service_types@ == retain_ne(
                old(self).service_types@,
                name@,
            ) && final(self).services == old(self).services && final(self).metrics_view()
                == metric_bump(old(self).metrics_view(), "cache_invalidations"@, 1),
            changed ==> final(self).sel_wf() && final(self).cache_wf() && final(self).cache_dirty
                == false,
            old(self).types_wf() ==> final(self).types_wf(),
    {
        let removed = self.remove_service_type(name);
        if removed {
            self.repair_selection();
        }
        removed
    }

    /// A failed category subscription: the category is treated as invalid and
    /// removed, the failure counted, and the selection re-derived.
    pub fn on_browse_failure(&mut self, name: &str) -> (changed: bool)
        ensures
            changed == (has_type(old(self).service_types@, name@) && !type_in_use(
                old(self).services@,
                name@,
            )),
            !changed ==> *final(self) == *old(self),
            changed ==> final(self).service_types@ == retain_ne(
                old(self).service_types@,
                name@,
            ) && final(self).services == old(self).services && final(self).metrics_view()
                == metric_bump(
                metric_bump(old(self).metrics_view(), "cache_invalidations"@, 1),
                "browse_failures"@,
                1,
            ),
            changed ==> final(self).sel_wf() && final(self).cache_wf() && final(self).cache_dirty
                == false,
            old(self).types_wf() ==> final(self).types_wf(),
    {
        let removed = self.remove_service_type(name);
        if removed {
            self.update_metric("browse_failures");
            self.repair_selection();
        }
        removed
    }

    /// A resolved entity: upserted into the store, the store re-ordered by
    /// host for deterministic display, the view invalidated, and the
    /// selection re-derived.
    pub fn on_entity_resolved(&mut self, entry: ServiceEntry)
        ensures
            final(self).services@.to_multiset() == upserted(old(self).services@, entry).to_multiset(),
            hosts_sorted(final(self).services@),
            final(self).sel_wf(),
            final(self).cache_wf(),
            final(self).cache_dirty == false,
            final(self).cached_sorted == true,
            final(self).filter_query == old(self).filter_query,
            final(self).sort_field == old(self).sort_field,
            final(self).sort_direction == old(self).sort_direction,
    {
        let _ = self.add_or_update_service(entry);
        sort_entries_by_host(&mut self.services);
        self.invalidate_cache_and_validate();
        self.repair_selection();
    }

    /// A removed entity: marked offline with the given transition time (it
    /// stays visible until compaction), the removal counted, the view
    /// invalidated, the category removed when now unreferenced, and the
    /// selection re-derived.  Reports whether the key was known.
    pub fn on_entity_removed(&mut self, service_type: &str, fullname: &str, at: u64) -> (known:
        bool)
        ensures
            known == (find_entry(old(self).services@, fullname@) is Some),
            !known ==> *final(self) == *old(self),
            known ==> {
                let i = find_entry(old(self).services@, fullname@)->Some_0;
                final(self).services@ == old(self).services@.update(
                    i,
                    ServiceEntry {
                        online: false,
                        timestamp_micros: at,
                        ..old(self).services@[i]
                    },
                )
            },
            known ==> final(self).sel_wf() && final(self).cache_wf() && final(self).cache_dirty
                == false,
            known ==> {
                let i = find_entry(old(self).services@, fullname@)->Some_0;
                let marked = old(self).services@.update(
                    i,
                    ServiceEntry {
                        online: false,
                        timestamp_micros: at,
                        ..old(self).services@[i]
                    },
                );
                if has_type(old(self).service_types@, service_type@) && !type_in_use(
                    marked,
                    service_type@,
                ) {
                    final(self).service_types@ == retain_ne(
                        old(self).service_types@,
                        service_type@,
                    )
                } else {
                    final(self).service_types == old(self).service_types
                }
            },
    {
        let name_chars = crate::text::chars_of_str(fullname);
        let n = self.services.len();
        for i in 0..n
            invariant
                n == self.services@.len(),
                name_chars@ == fullname@,
                *self == *old(self),
                forall|k: int|
                    0 <= k < i ==> (#[trigger] self.services@[k]).fullname@ != fullname@,
        {
            if crate::text::str_eq_chars(self.services[i].fullname.as_str(), &name_chars) {
                proof {
                    crate::store::lemma_find_entry_at(self.services@, fullname@, i as int);
                }
                let mut e = self.services.remove(i);
                e.go_offline_at(at);
                self.services.insert(i, e);
                assert(self.services@ =~= old(self).services@.update(
                    i as int,
                    ServiceEntry {
                        online: false,
                        timestamp_micros: at,
                        ..old(self).services@[i as int]
                    },
                ));
                self.update_metric("services_removed");
                self.invalidate_cache_and_validate();
                let _ = self.remove_service_type(service_type);
                self.repair_selection();
                return true;
            }
        }
        proof {
            crate::store::lemma_find_entry_none(self.services@, fullname@);
        }
        false
    }
}

} // verus!
