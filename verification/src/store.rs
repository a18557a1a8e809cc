//! Entity store mutation: upsert by identity key, and compaction of offline
//! entries together with the cleanup of orphaned categories.

use vstd::prelude::*;

use crate::entry::ServiceEntry;
use crate::metrics::metric_bump;
use crate::nav::scroll_fix;
use crate::state::AppState;
use crate::text::{chars_of_str, str_eq_chars};
use crate::types_index::{has_type, type_in_use};

verus! {

/// Two optional strings hold the same text (or both nothing).
pub open spec fn opt_str_eq(a: Option<String>, b: Option<String>) -> bool {
    match (a, b) {
        (Option::None, Option::None) => true,
        (Option::Some(x), Option::Some(y)) => x@ == y@,
        _ => false,
    }
}

/// The fields that affect display or filtering agree, so an update with this
/// entry would be a no-op.
pub open spec fn entry_same_display(a: ServiceEntry, b: ServiceEntry) -> bool {
    a.host@ == b.host@ && a.service_type@ == b.service_type@ && opt_str_eq(a.subtype, b.subtype)
        && a.addrs.deep_view() == b.addrs.deep_view() && a.port == b.port && a.txt.deep_view()
        == b.txt.deep_view() && a.online == b.online
}

/// The first stored entry with the given identity key, if any.
pub open spec fn find_entry(services: Seq<ServiceEntry>, name: Seq<char>) -> Option<int>
    decreases services.len(),
{
    if services.len() == 0 {
        None
    } else if services[0].fullname@ == name {
        Some(0)
    } else {
        match find_entry(services.skip(1), name) {
            Some(i) => Some(i + 1),
            None => None,
        }
    }
}

pub proof fn lemma_find_entry_at(services: Seq<ServiceEntry>, name: Seq<char>, i: int)
    requires
        0 <= i < services.len(),
        services[i].fullname@ == name,
        forall|k: int| 0 <= k < i ==> (#[trigger] services[k]).fullname@ != name,
    ensures
        find_entry(services, name) == Some(i),
    decreases services.len(),
{
    if i > 0 {
        assert(forall|k: int|
            0 <= k < services.skip(1).len() ==> #[trigger] services.skip(1)[k] == services[k + 1]);
        lemma_find_entry_at(services.skip(1), name, i - 1);
    }
}

pub proof fn lemma_find_entry_none(services: Seq<ServiceEntry>, name: Seq<char>)
    requires
        forall|k: int| 0 <= k < services.len() ==> (#[trigger] services[k]).fullname@ != name,
    ensures
        find_entry(services, name) is None,
    decreases services.len(),
{
    if services.len() > 0 {
        assert(forall|k: int|
            0 <= k < services.skip(1).len() ==> #[trigger] services.skip(1)[k] == services[k + 1]);
        lemma_find_entry_none(services.skip(1), name);
    }
}

/// The stored entries that are online, in store order.
pub open spec fn keep_online(services: Seq<ServiceEntry>) -> Seq<ServiceEntry>
    decreases services.len(),
{
    if services.len() == 0 {
        Seq::empty()
    } else {
        let prev = keep_online(services.drop_last());
        if services.last().online {
            prev.push(services.last())
        } else {
            prev
        }
    }
}

/// Compaction keeps only online entries, and shrinks exactly when some entry
/// was offline.
pub proof fn lemma_keep_online_props(s: Seq<ServiceEntry>)
    ensures
        keep_online(s).len() <= s.len(),
        (keep_online(s).len() == s.len()) <==> (forall|k: int|
            0 <= k < s.len() ==> (#[trigger] s[k]).online),
        forall|j: int| 0 <= j < keep_online(s).len() ==> (#[trigger] keep_online(s)[j]).online,
        (forall|k: int| 0 <= k < s.len() ==> (#[trigger] s[k]).online) ==> keep_online(s) == s,
    decreases s.len(),
{
    if s.len() > 0 {
        lemma_keep_online_props(s.drop_last());
        assert(forall|k: int| 0 <= k < s.len() - 1 ==> #[trigger] s.drop_last()[k] == s[k]);
        if keep_online(s).len() == s.len() {
            assert(s.last().online);
            assert(keep_online(s.drop_last()).len() == s.drop_last().len());
            assert forall|k: int| 0 <= k < s.len() implies (#[trigger] s[k]).online by {
                if k < s.len() - 1 {
                    assert(s.drop_last()[k].online);
                }
            }
        }
        if forall|k: int| 0 <= k < s.len() ==> (#[trigger] s[k]).online {
            assert(forall|k: int|
                0 <= k < s.drop_last().len() ==> (#[trigger] s.drop_last()[k]).online);
            assert(keep_online(s) =~= s);
        }
    }
}

/// Some stored entity of this category is offline.
pub open spec fn offline_type(services: Seq<ServiceEntry>, t: Seq<char>) -> bool {
    exists|k: int|
        0 <= k < services.len() && (#[trigger] services[k]).service_type@ == t
            && !services[k].online
}

impl AppState {
    /// Inserts a newly resolved entry, or refreshes the stored entry with the
    /// same identity key in place; an update that changes nothing the display
    /// or filter reads is treated as a no-op.  Reports whether the store
    /// changed: true on an insert or a replace, false on the no-op.
    pub fn add_or_update_service(&mut self, service_entry: ServiceEntry) -> (changed: bool)
        ensures
            changed == match find_entry(old(self).services@, service_entry.fullname@) {
                Some(i) => !entry_same_display(old(self).services@[i], service_entry),
                None => true,
            },
            match find_entry(old(self).services@, service_entry.fullname@) {
                Some(i) => {
                    if entry_same_display(old(self).services@[i], service_entry) {
                        *final(self) == *old(self)
                    } else {
                        final(self).services@ == old(self).services@.update(i, service_entry)
                            && final(self).metrics_view() == metric_bump(
                            old(self).metrics_view(),
                            "services_updated"@,
                            1,
                        ) && (*final(self) == (AppState {
                            services: final(self).services,
                            metrics: final(self).metrics,
                            ..*old(self)
                        }))
                    }
                },
                None => final(self).services@ == old(self).services@.push(service_entry) && final(self).metrics_view() == metric_bump(old(self).metrics_view(), "services_discovered"@, 1)
                    && (*final(self) == (AppState {
                    services: final(self).services,
                    metrics: final(self).metrics,
                    ..*old(self)
                })),
            },
    {
        let name_chars = chars_of_str(service_entry.fullname.as_str());
        let n = self.services.len();
        for i in 0..n
            invariant
                n == self.services@.len(),
                name_chars@ == service_entry.fullname@,
                *self == *old(self),
                forall|k: int|
                    0 <= k < i ==> (#[trigger] self.services@[k]).fullname@
                        != service_entry.fullname@,
        {
            if str_eq_chars(self.services[i].fullname.as_str(), &name_chars) {
                proof {
                    lemma_find_entry_at(self.services@, service_entry.fullname@, i as int);
                }
                let same = entries_same_display(&self.services[i], &service_entry);
                if !same {
                    let _ = self.services.remove(i);
                    self.services.insert(i, service_entry);
                    assert(self.services@ =~= old(self).services@.update(
                        i as int,
                        service_entry,
                    ));
                    self.update_metric("services_updated");
                }
                return !same;
            }
        }
        proof {
            lemma_find_entry_none(self.services@, service_entry.fullname@);
        }
        self.services.push(service_entry);
        self.update_metric("services_discovered");
        true
    }

    /// Deletes every offline entry, prunes categories that lost their last
    /// entry, and moves the selection by the stay-near-the-end rule: a
    /// selection within the last two rows of the old projection (or past the
    /// new one) pins to the new last row, anything else keeps its position
    /// clamped into the shorter projection.
    pub fn remove_offline_services(&mut self)
        requires
            old(self).cache_wf(),
        ensures
            final(self).services@ == keep_online(old(self).services@),
            final(self).cache_dirty == false,
            final(self).cached_sorted == true,
            final(self).cache_wf(),
            final(self).same_filters_weak(*old(self)),
            keep_online(old(self).services@).len() == old(self).services@.len() ==> final(self).service_types == old(self).service_types && final(self).selected_service == old(self).selected_service && final(self).services_scroll_offset == old(self).services_scroll_offset && final(self).selected_type == old(self).selected_type
                && final(self).metrics == old(self).metrics,
            keep_online(old(self).services@).len() < old(self).services@.len() ==> {
                let sel0 = old(self).selected_service as int;
                let len0 = old(self).spec_filtered().len() as int;
                let len1 = final(self).cached_filtered_services@.len() as int;
                let near_end = len0 > 0 && (sel0 + 2 >= len0 || sel0 >= len1);
                &&& (len1 > 0 && near_end ==> final(self).selected_service as int == len1 - 1)
                &&& (len1 > 0 && !near_end ==> final(self).selected_service as int == (if sel0 < len1
                    - 1 {
                    sel0
                } else {
                    len1 - 1
                }))
                &&& (len1 == 0 ==> final(self).selected_service == 0)
            },
            keep_online(old(self).services@).len() < old(self).services@.len() ==> final(self).sel_wf(),
            keep_online(old(self).services@).len() < old(self).services@.len() ==> match final(self).selected_type {
                Some(i) => (i as int) < final(self).service_types@.len(),
                None => true,
            },
            forall|t: Seq<char>|
                #[trigger] has_type(final(self).service_types@, t) ==> has_type(
                    old(self).service_types@,
                    t,
                ),
            forall|t: Seq<char>|
                has_type(old(self).service_types@, t) && #[trigger] type_in_use(
                    final(self).services@,
                    t,
                ) ==> has_type(final(self).service_types@, t),
            forall|t: Seq<char>|
                offline_type(old(self).services@, t) && !type_in_use(
                    keep_online(old(self).services@),
                    t,
                ) ==> !(#[trigger] has_type(final(self).service_types@, t)),
            old(self).types_wf() ==> final(self).types_wf(),
    {
        proof {
            lemma_keep_online_props(old(self).services@);
        }
        let initial = self.get_filtered_services();
        let initial_filtered_len = initial.len();
        proof {
            vstd::seq_lib::to_multiset_len(self.cached_filtered_services@);
            vstd::seq_lib::to_multiset_len(old(self).spec_filtered());
        }
        let ghost pre_services = self.services@;
        let ghost mid = *self;
        let mut types_to_check: Vec<String> = Vec::new();
        let n = self.services.len();
        let mut i: usize = 0;
        let ghost mut p: int = 0;
        proof {
            assert(self.services@.take(0) =~= keep_online(pre_services.take(0)));
            assert(self.services@.skip(0) =~= pre_services.skip(0));
        }
        while i < self.services.len()
            invariant
                *self == (AppState { services: self.services, ..mid }),
                0 <= i <= self.services@.len(),
                0 <= p <= pre_services.len(),
                self.services@.take(i as int) == keep_online(pre_services.take(p)),
                self.services@.skip(i as int) == pre_services.skip(p),
                i as int == keep_online(pre_services.take(p)).len(),
                self.services@.len() - i == pre_services.len() - p,
                forall|k: int|
                    0 <= k < p && !(#[trigger] pre_services[k]).online ==> has_type(
                        types_to_check@,
                        pre_services[k].service_type@,
                    ),
            decreases self.services@.len() - i,
        {
            let ghost cur = self.services@[i as int];
            proof {
                assert(pre_services.skip(p)[0] == pre_services[p]);
                assert(cur == pre_services[p]);
                assert(pre_services.take(p + 1).drop_last() =~= pre_services.take(p));
                assert(pre_services.take(p + 1).last() == pre_services[p]);
            }
            if self.services[i].online {
                proof {
                    assert(self.services@.take(i + 1) =~= self.services@.take(i as int).push(cur));
                    assert(self.services@.skip(i as int).skip(1) =~= self.services@.skip(i + 1));
                    assert(pre_services.skip(p).skip(1) =~= pre_services.skip(p + 1));
                }
                i = i + 1;
            } else {
                let ghost ttc0 = types_to_check@;
                types_to_check.push(self.services[i].service_type.clone());
                let ghost before = self.services@;
                let _ = self.services.remove(i);
                proof {
                    assert(self.services@.take(i as int) =~= before.take(i as int));
                    assert(before.skip(i as int).skip(1) =~= before.skip(i + 1));
                    assert(pre_services.skip(p).skip(1) =~= pre_services.skip(p + 1));
                    assert(self.services@.skip(i as int) =~= before.skip(i + 1));
                    assert(types_to_check@.last()@ == pre_services[p].service_type@);
                    assert forall|k: int|
                        0 <= k < p + 1 && !(#[trigger] pre_services[k]).online implies has_type(
                        types_to_check@,
                        pre_services[k].service_type@,
                    ) by {
                        if k < p {
                            assert(has_type(ttc0, pre_services[k].service_type@));
                            let w = choose|w: int|
                                0 <= w < ttc0.len() && (#[trigger] ttc0[w])@
                                    == pre_services[k].service_type@;
                            assert(types_to_check@[w]@ == pre_services[k].service_type@);
                        } else {
                            assert(types_to_check@.last()@ == pre_services[k].service_type@);
                        }
                    }
                }
            }
            proof {
                p = p + 1;
            }
        }
        proof {
            assert(pre_services.skip(p).len() == 0);
            assert(p == pre_services.len());
            assert(pre_services.take(p) =~= pre_services);
            assert(self.services@.take(i as int) =~= self.services@);
        }
        let removed_count = n - self.services.len();
        if removed_count > 0 {
            self.update_metric_by("offline_services_removed", removed_count as u64);
            self.invalidate_cache_and_validate();
            let ghost types0 = self.service_types@;
            let tn = types_to_check.len();
            for ti in 0..tn
                invariant
                    tn == types_to_check@.len(),
                    self.services@ == keep_online(pre_services),
                    self.same_filters_weak(mid),
                    self.selected_service == mid.selected_service,
                    self.services_scroll_offset == mid.services_scroll_offset,
                    self.cached_filtered_services == mid.cached_filtered_services,
                    self.visible_services == mid.visible_services,
                    self.cache_dirty == true,
                    forall|t: Seq<char>|
                        #[trigger] has_type(self.service_types@, t) ==> has_type(types0, t),
                    forall|t: Seq<char>|
                        has_type(types0, t) && #[trigger] type_in_use(self.services@, t)
                            ==> has_type(self.service_types@, t),
                    match self.selected_type {
                        Some(si) => (si as int) < self.service_types@.len(),
                        None => true,
                    },
                    mid.types_wf() ==> self.types_wf(),
                    forall|j: int|
                        0 <= j < ti && !type_in_use(
                            self.services@,
                            (#[trigger] types_to_check@[j])@,
                        ) ==> !has_type(self.service_types@, types_to_check@[j]@),
            {
                let ghost before_types = self.service_types@;
                let t = types_to_check[ti].clone();
                let r = self.remove_service_type(t.as_str());
                proof {
                    if r {
                        crate::types_index::lemma_retain_ne_props(before_types, t@);
                        lemma_retain_subset(before_types, t@);
                        assert forall|tt: Seq<char>|
                            has_type(types0, tt) && #[trigger] type_in_use(
                                self.services@,
                                tt,
                            ) implies has_type(self.service_types@, tt) by {
                            if tt != t@ {
                                assert(has_type(before_types, tt));
                                let w = choose|w: int|
                                    0 <= w < before_types.len() && (#[trigger] before_types[w])@
                                        == tt;
                                assert(before_types[w]@ != t@);
                                assert(has_type(self.service_types@, before_types[w]@));
                            }
                        }
                        assert forall|tt: Seq<char>|
                            #[trigger] has_type(self.service_types@, tt) implies has_type(
                            types0,
                            tt,
                        ) by {
                            assert(has_type(before_types, tt));
                        }
                    }
                    assert forall|j: int|
                        0 <= j < ti + 1 && !type_in_use(
                            self.services@,
                            (#[trigger] types_to_check@[j])@,
                        ) implies !has_type(self.service_types@, types_to_check@[j]@) by {
                        if j == ti {
                            if r {
                                crate::types_index::lemma_retain_ne_props(before_types, t@);
                            }
                        } else {
                            if r {
                                if has_type(self.service_types@, types_to_check@[j]@) {
                                    lemma_retain_subset(before_types, t@);
                                    assert(has_type(before_types, types_to_check@[j]@));
                                }
                            }
                        }
                    }
                }
            }
            assert(types_to_check@.len() == tn);
            let newf = self.get_filtered_services();
            let new_filtered_len = newf.len();
            if new_filtered_len > 0 {
                let was_near_end = initial_filtered_len > 0 && (initial_filtered_len <= 2
                    || self.selected_service >= initial_filtered_len - 2 || self.selected_service
                    >= new_filtered_len);
                if was_near_end {
                    self.selected_service = new_filtered_len - 1;
                } else {
                    if self.selected_service >= new_filtered_len {
                        self.selected_service = new_filtered_len - 1;
                    }
                }
            } else {
                self.selected_service = 0;
            }
            if new_filtered_len > 0 && (new_filtered_len <= 2 || self.selected_service
                >= new_filtered_len - 2) {
                if self.visible_services > 0 {
                    self.services_scroll_offset = if self.selected_service
                        >= self.visible_services - 1 {
                        self.selected_service - (self.visible_services - 1)
                    } else {
                        0
                    };
                }
            } else {
                self.update_services_scroll_offset();
            }
            proof {
                vstd::seq_lib::to_multiset_len(self.cached_filtered_services@);
                vstd::seq_lib::to_multiset_len(self.spec_filtered());
                assert forall|t: Seq<char>|
                    offline_type(pre_services, t) && !type_in_use(
                        keep_online(pre_services),
                        t,
                    ) implies !(#[trigger] has_type(self.service_types@, t)) by {
                    let k = choose|k: int|
                        0 <= k < pre_services.len() && (#[trigger] pre_services[k]).service_type@
                            == t && !pre_services[k].online;
                    assert(has_type(types_to_check@, t));
                    let j = choose|j: int|
                        0 <= j < types_to_check@.len() && (#[trigger] types_to_check@[j])@ == t;
                    assert(!type_in_use(self.services@, types_to_check@[j]@));
                    assert(!has_type(self.service_types@, types_to_check@[j]@));
                }
            }
        } else {
            proof {
                assert forall|t: Seq<char>|
                    offline_type(pre_services, t) && !type_in_use(
                        keep_online(pre_services),
                        t,
                    ) implies !(#[trigger] has_type(self.service_types@, t)) by {
                    let k = choose|k: int|
                        0 <= k < pre_services.len() && (#[trigger] pre_services[k]).service_type@
                            == t && !pre_services[k].online;
                    assert(pre_services[k].online);
                }
            }
        }
    }

    /// The filter text, mode, sort settings, popups and pane geometry are
    /// unchanged (the category anchor may have been re-anchored).
    pub open spec fn same_filters_weak(self, o: AppState) -> bool {
        self.filter_query == o.filter_query && self.filter_input_mode == o.filter_input_mode
            && self.sort_field == o.sort_field && self.sort_direction == o.sort_direction
            && self.show_help_popup == o.show_help_popup && self.show_metrics_popup
            == o.show_metrics_popup && self.types_scroll_offset == o.types_scroll_offset
            && self.visible_types == o.visible_types && self.visible_services == o.visible_services
    }
}

/// Every category kept by a removal was present before it.
proof fn lemma_retain_subset(v: Seq<String>, x: Seq<char>)
    ensures
        forall|t: Seq<char>|
            #[trigger] has_type(crate::types_index::retain_ne(v, x), t) ==> has_type(v, t),
{
    let r = crate::types_index::retain_ne(v, x);
    assert forall|t: Seq<char>| #[trigger] has_type(r, t) implies has_type(v, t) by {
        let j = choose|j: int| 0 <= j < r.len() && (#[trigger] r[j])@ == t;
        crate::types_index::lemma_retain_ne_source(v, x, j);
        let src = choose|src: int| 0 <= src < v.len() && v[src] == r[j];
        assert(v[src]@ == t);
    }
}

/// Compares the display-relevant fields of two entries.
fn entries_same_display(a: &ServiceEntry, b: &ServiceEntry) -> (r: bool)
    ensures
        r == entry_same_display(*a, *b),
{
    if !(a.host == b.host) {
        return false;
    }
    if !(a.service_type == b.service_type) {
        return false;
    }
    let sub_eq = match (&a.subtype, &b.subtype) {
        (Option::None, Option::None) => true,
        (Option::Some(x), Option::Some(y)) => *x == *y,
        _ => false,
    };
    if !sub_eq {
        return false;
    }
    if !vec_str_eq(&a.addrs, &b.addrs) {
        return false;
    }
    if a.port != b.port {
        return false;
    }
    if !vec_str_eq(&a.txt, &b.txt) {
        return false;
    }
    a.online == b.online
}

/// Compares two string vectors by contents.
fn vec_str_eq(a: &Vec<String>, b: &Vec<String>) -> (r: bool)
    ensures
        r == (a.deep_view() == b.deep_view()),
{
    let n = a.len();
    if n != b.len() {
        assert(a.deep_view().len() != b.deep_view().len());
        return false;
    }
    for i in 0..n
        invariant
            n == a@.len(),
            n == b@.len(),
            forall|k: int| 0 <= k < i ==> a@[k]@ == b@[k]@,
    {
        if !(a[i] == b[i]) {
            assert(a.deep_view()[i as int] != b.deep_view()[i as int]);
            return false;
        }
    }
    assert(a.deep_view() =~= b.deep_view());
    true
}

} // verus!
