//! The service-type index: a sorted, deduplicated list of categories whose
//! selected anchor survives concurrent mutation by value, not by position.

use vstd::prelude::*;

use crate::controls::anchor_clamped;
use crate::metrics::metric_bump;
use crate::state::AppState;
use crate::text::{
    contains_seq, insert_pos, lex_le, lemma_insert_pos_props, lemma_insert_sorted, sorted_strs,
};
use crate::text::{chars_of_str, contains_chars, insert_str_sorted, str_eq_chars};

verus! {

/// Some slot of `v` holds the string `x`.
pub open spec fn has_type(v: Seq<String>, x: Seq<char>) -> bool {
    exists|i: int| 0 <= i < v.len() && (#[trigger] v[i])@ == x
}

/// The first slot of `v` holding the string `x`, if any.
pub open spec fn find_str(v: Seq<String>, x: Seq<char>) -> Option<int>
    decreases v.len(),
{
    if v.len() == 0 {
        None
    } else if v[0]@ == x {
        Some(0)
    } else {
        match find_str(v.skip(1), x) {
            Some(i) => Some(i + 1),
            None => None,
        }
    }
}

/// `v` with every slot holding `x` removed, order kept.
pub open spec fn retain_ne(v: Seq<String>, x: Seq<char>) -> Seq<String>
    decreases v.len(),
{
    if v.len() == 0 {
        Seq::empty()
    } else {
        let prev = retain_ne(v.drop_last(), x);
        if v.last()@ == x {
            prev
        } else {
            prev.push(v.last())
        }
    }
}

/// The index holds no two slots with the same string.
pub open spec fn distinct_strs(v: Seq<String>) -> bool {
    forall|i: int, j: int| 0 <= i < j < v.len() ==> (#[trigger] v[i])@ != (#[trigger] v[j])@
}

impl AppState {
    /// The service-type index is sorted and deduplicated.
    pub open spec fn types_wf(self) -> bool {
        sorted_strs(self.service_types@) && distinct_strs(self.service_types@)
    }
}

/// What a found slot means.
proof fn lemma_find_str_at(v: Seq<String>, x: Seq<char>, i: int)
    requires
        0 <= i < v.len(),
        v[i]@ == x,
        forall|k: int| 0 <= k < i ==> (#[trigger] v[k])@ != x,
    ensures
        find_str(v, x) == Some(i),
    decreases v.len(),
{
    if i > 0 {
        assert(forall|k: int| 0 <= k < v.skip(1).len() ==> #[trigger] v.skip(1)[k] == v[k + 1]);
        lemma_find_str_at(v.skip(1), x, i - 1);
    }
}

/// A string on no slot is not found.
proof fn lemma_find_str_none(v: Seq<String>, x: Seq<char>)
    requires
        forall|k: int| 0 <= k < v.len() ==> (#[trigger] v[k])@ != x,
    ensures
        find_str(v, x) is None,
    decreases v.len(),
{
    if v.len() > 0 {
        assert(forall|k: int| 0 <= k < v.skip(1).len() ==> #[trigger] v.skip(1)[k] == v[k + 1]);
        lemma_find_str_none(v.skip(1), x);
    }
}

/// Removal keeps every other string, keeps order, and strictly shrinks the
/// list exactly when the string was present.
pub proof fn lemma_retain_ne_props(v: Seq<String>, x: Seq<char>)
    ensures
        retain_ne(v, x).len() <= v.len(),
        forall|k: int| 0 <= k < retain_ne(v, x).len() ==> (#[trigger] retain_ne(v, x)[k])@ != x,
        has_type(v, x) <==> retain_ne(v, x).len() < v.len(),
        forall|k: int|
            0 <= k < v.len() && v[k]@ != x ==> #[trigger] has_type(retain_ne(v, x), v[k]@),
        sorted_strs(v) ==> sorted_strs(retain_ne(v, x)),
        distinct_strs(v) ==> distinct_strs(retain_ne(v, x)),
    decreases v.len(),
{
    if v.len() > 0 {
        lemma_retain_ne_props(v.drop_last(), x);
        let prev = retain_ne(v.drop_last(), x);
        let r = retain_ne(v, x);
        assert(forall|k: int| 0 <= k < v.len() - 1 ==> #[trigger] v.drop_last()[k] == v[k]);
        if sorted_strs(v) {
            assert(sorted_strs(v.drop_last()));
            if v.last()@ != x {
                assert forall|i: int, j: int| 0 <= i <= j < r.len() implies lex_le(
                    r[i]@,
                    r[j]@,
                ) by {
                    if j == r.len() - 1 {
                        if i < j {
                            lemma_retain_ne_source(v.drop_last(), x, i);
                            let src = choose|src: int|
                                0 <= src < v.drop_last().len() && v.drop_last()[src] == prev[i];
                            assert(lex_le(v[src]@, v.last()@));
                        } else {
                            crate::text::lemma_lex_le_total(r[i]@, r[i]@);
                        }
                    }
                }
            }
        }
        if distinct_strs(v) {
            assert(distinct_strs(v.drop_last()));
            if v.last()@ != x {
                assert forall|i: int, j: int| 0 <= i < j < r.len() implies r[i]@ != r[j]@ by {
                    if j == r.len() - 1 {
                        lemma_retain_ne_source(v.drop_last(), x, i);
                        let src = choose|src: int|
                            0 <= src < v.drop_last().len() && v.drop_last()[src] == prev[i];
                        assert(v[src]@ != v.last()@);
                    }
                }
            }
        }
        if has_type(v, x) && v.last()@ != x {
            let w = choose|w: int| 0 <= w < v.len() && (#[trigger] v[w])@ == x;
            assert(v.drop_last()[w]@ == x);
            assert(has_type(v.drop_last(), x));
        }
        assert forall|k: int| 0 <= k < v.len() && v[k]@ != x implies #[trigger] has_type(
            r,
            v[k]@,
        ) by {
            if k < v.len() - 1 {
                assert(has_type(prev, v.drop_last()[k]@));
                let w = choose|w: int| 0 <= w < prev.len() && (#[trigger] prev[w])@ == v[k]@;
                assert(r[w]@ == v[k]@);
            } else {
                assert(r.last()@ == v[k]@);
            }
        }
    }
}

/// Every kept slot comes from some source slot.
pub proof fn lemma_retain_ne_source(v: Seq<String>, x: Seq<char>, i: int)
    requires
        0 <= i < retain_ne(v, x).len(),
    ensures
        exists|src: int| 0 <= src < v.len() && v[src] == retain_ne(v, x)[i],
    decreases v.len(),
{
    if v.len() > 0 {
        let prev = retain_ne(v.drop_last(), x);
        if v.last()@ == x || i < prev.len() {
            lemma_retain_ne_source(v.drop_last(), x, i);
            let src = choose|src: int|
                0 <= src < v.drop_last().len() && v.drop_last()[src] == prev[i];
            assert(v[src] == retain_ne(v, x)[i]);
        } else {
            assert(v[v.len() - 1] == retain_ne(v, x)[i]);
        }
    }
}

/// A found slot is in bounds and holds the string.
proof fn lemma_find_str_props(v: Seq<String>, x: Seq<char>)
    ensures
        match find_str(v, x) {
            Some(i) => 0 <= i < v.len() && v[i]@ == x,
            None => true,
        },
    decreases v.len(),
{
    if v.len() > 0 && v[0]@ != x {
        lemma_find_str_props(v.skip(1), x);
        match find_str(v.skip(1), x) {
            Some(i) => {
                assert(v[i + 1] == v.skip(1)[i]);
            },
            None => {},
        }
    }
}

/// Finds the slot of the index holding the given characters.
fn find_type_index(v: &Vec<String>, x: &Vec<char>) -> (r: Option<usize>)
    ensures
        match r {
            Some(i) => find_str(v@, x@) == Some(i as int),
            None => find_str(v@, x@) is None,
        },
{
    let n = v.len();
    for i in 0..n
        invariant
            n == v@.len(),
            forall|k: int| 0 <= k < i ==> (#[trigger] v@[k])@ != x@,
    {
        if str_eq_chars(v[i].as_str(), x) {
            proof {
                lemma_find_str_at(v@, x@, i as int);
            }
            return Some(i);
        }
    }
    proof {
        lemma_find_str_none(v@, x@);
    }
    None
}

/// Subtype enumeration entries are not categories of their own.
pub fn is_valid_service_type(service_type: &str) -> (r: bool)
    ensures
        r == !contains_seq(service_type@, seq!['_', 's', 'u', 'b', '.']),
{
    let sc = chars_of_str(service_type);
    let mut pat: Vec<char> = Vec::new();
    pat.push('_');
    pat.push('s');
    pat.push('u');
    pat.push('b');
    pat.push('.');
    assert(pat@ =~= seq!['_', 's', 'u', 'b', '.']);
    !contains_chars(&sc, &pat)
}

impl AppState {
    /// Adds a category to the index in sorted position, re-anchoring the
    /// selected category by value; reports whether the category was new.
    pub fn add_service_type(&mut self, service_type: &str) -> (added: bool)
        ensures
            added == !has_type(old(self).service_types@, service_type@),
            !added ==> *final(self) == *old(self),
            added ==> {
                let p = insert_pos(old(self).service_types@, service_type@);
                &&& final(self).service_types@.len() == old(self).service_types@.len() + 1
                &&& final(self).service_types@ == old(self).service_types@.insert(
                    p,
                    final(self).service_types@[p],
                )
                &&& final(self).service_types@[p]@ == service_type@
            },
            added ==> final(self).selected_type == match old(self).selected_type {
                Some(i) => {
                    if (i as int) < old(self).service_types@.len() {
                        match find_str(
                            final(self).service_types@,
                            old(self).service_types@[i as int]@,
                        ) {
                            Some(j) => Some(j as usize),
                            None => None,
                        }
                    } else {
                        anchor_clamped(old(self).selected_type, final(self).service_types@.len())
                    }
                },
                None => None,
            },
            added ==> final(self).cache_dirty == true && final(self).cached_sorted == false
                && final(self).metrics_view() == metric_bump(
                old(self).metrics_view(),
                "cache_invalidations"@,
                1,
            ) && final(self).services == old(self).services && final(self).selected_service == old(self).selected_service && final(self).services_scroll_offset == old(self).services_scroll_offset && final(self).types_scroll_offset == old(self).types_scroll_offset && final(self).visible_types == old(self).visible_types && final(self).visible_services == old(self).visible_services && final(self).show_help_popup == old(self).show_help_popup && final(self).show_metrics_popup == old(self).show_metrics_popup
                && final(self).sort_field == old(self).sort_field && final(self).sort_direction
                == old(self).sort_direction && final(self).filter_query == old(self).filter_query
                && final(self).filter_input_mode == old(self).filter_input_mode && final(self).cached_filtered_services == old(self).cached_filtered_services,
            old(self).types_wf() && added ==> final(self).types_wf(),
            match final(self).selected_type {
                Some(i) => (i as int) < final(self).service_types@.len(),
                None => true,
            } || !added,
    {
        let st_chars = chars_of_str(service_type);
        let n = self.service_types.len();
        for i in 0..n
            invariant
                n == self.service_types@.len(),
                st_chars@ == service_type@,
                *self == *old(self),
                forall|k: int| 0 <= k < i ==> (#[trigger] self.service_types@[k])@ != service_type@,
        {
            if str_eq_chars(self.service_types[i].as_str(), &st_chars) {
                return false;
            }
        }
        assert(!has_type(self.service_types@, service_type@));
        let anchor_val: Option<String> = match self.selected_type {
            Some(i) => {
                if i < n {
                    Some(self.service_types[i].clone())
                } else {
                    None
                }
            },
            None => None,
        };
        let ghost pre_types = self.service_types@;
        let ghost p = insert_pos(pre_types, service_type@);
        proof {
            lemma_insert_pos_props(pre_types, service_type@);
        }
        let new_s = crate::text::chars_to_string(&st_chars);
        let ghost gs = new_s;
        insert_str_sorted(&mut self.service_types, new_s);
        proof {
            pre_types.insert_ensures(p, gs);
            assert(self.service_types@[p] == gs);
            if old(self).types_wf() {
                lemma_insert_sorted_view(pre_types, service_type@, self.service_types@, p);
            }
        }
        match anchor_val {
            Some(v) => {
                let vc = chars_of_str(v.as_str());
                match find_type_index(&self.service_types, &vc) {
                    Some(j) => {
                        proof {
                            lemma_find_str_props(self.service_types@, vc@);
                        }
                        self.selected_type = Some(j);
                    },
                    None => {
                        self.selected_type = None;
                    },
                }
            },
            None => {},
        }
        self.invalidate_cache_and_validate();
        proof {
            if old(self).types_wf() {
                assert(distinct_strs(self.service_types@)) by {
                    lemma_insert_distinct(pre_types, service_type@, self.service_types@, p);
                }
            }
        }
        true
    }
}

/// Some stored entity still references the category.
pub open spec fn type_in_use(services: Seq<crate::entry::ServiceEntry>, t: Seq<char>) -> bool {
    exists|k: int| 0 <= k < services.len() && (#[trigger] services[k]).service_type@ == t
}

impl AppState {
    /// Removes a category from the index, but only when no stored entity
    /// still references it; the selected category is re-anchored by value,
    /// falling back to the nearest slot when the anchored value itself left.
    pub fn remove_service_type(&mut self, service_type: &str) -> (removed: bool)
        ensures
            removed == (!type_in_use(old(self).services@, service_type@) && has_type(
                old(self).service_types@,
                service_type@,
            )),
            !removed ==> *final(self) == *old(self),
            removed ==> final(self).service_types@ == retain_ne(
                old(self).service_types@,
                service_type@,
            ),
            removed ==> final(self).selected_type == match old(self).selected_type {
                Some(i) => {
                    if (i as int) < old(self).service_types@.len() {
                        let v = old(self).service_types@[i as int];
                        let kept = retain_ne(old(self).service_types@, service_type@);
                        match find_str(kept, v@) {
                            Some(j) => Some(j as usize),
                            None => {
                                if v@ == service_type@ {
                                    if kept.len() == 0 {
                                        None
                                    } else if (i as int) < kept.len() - 1 {
                                        Some(i)
                                    } else {
                                        Some((kept.len() - 1) as usize)
                                    }
                                } else {
                                    None
                                }
                            },
                        }
                    } else {
                        anchor_clamped(
                            old(self).selected_type,
                            retain_ne(old(self).service_types@, service_type@).len(),
                        )
                    }
                },
                None => None,
            },
            removed ==> final(self).cache_dirty == true && final(self).cached_sorted == false
                && final(self).metrics_view() == metric_bump(
                old(self).metrics_view(),
                "cache_invalidations"@,
                1,
            ) && final(self).services == old(self).services && final(self).selected_service == old(self).selected_service && final(self).services_scroll_offset == old(self).services_scroll_offset && final(self).types_scroll_offset == old(self).types_scroll_offset && final(self).visible_types == old(self).visible_types && final(self).visible_services == old(self).visible_services && final(self).show_help_popup == old(self).show_help_popup && final(self).show_metrics_popup == old(self).show_metrics_popup
                && final(self).sort_field == old(self).sort_field && final(self).sort_direction
                == old(self).sort_direction && final(self).filter_query == old(self).filter_query
                && final(self).filter_input_mode == old(self).filter_input_mode && final(self).cached_filtered_services == old(self).cached_filtered_services,
            old(self).types_wf() && removed ==> final(self).types_wf(),
            match final(self).selected_type {
                Some(i) => (i as int) < final(self).service_types@.len(),
                None => true,
            } || !removed,
    {
        let st_chars = chars_of_str(service_type);
        let ns = self.services.len();
        for k in 0..ns
            invariant
                ns == self.services@.len(),
                st_chars@ == service_type@,
                *self == *old(self),
                forall|j: int|
                    0 <= j < k ==> (#[trigger] self.services@[j]).service_type@ != service_type@,
        {
            if str_eq_chars(self.services[k].service_type.as_str(), &st_chars) {
                return false;
            }
        }
        assert(!type_in_use(self.services@, service_type@));
        let n = self.service_types.len();
        let anchor_val: Option<String> = match self.selected_type {
            Some(i) => {
                if i < n {
                    Some(self.service_types[i].clone())
                } else {
                    None
                }
            },
            None => None,
        };
        let ghost pre_types = self.service_types@;
        proof {
            lemma_retain_ne_props(pre_types, service_type@);
        }
        let mut kept: Vec<String> = Vec::new();
        for i in 0..n
            invariant
                n == self.service_types@.len(),
                st_chars@ == service_type@,
                *self == *old(self),
                pre_types == self.service_types@,
                kept@ == retain_ne(pre_types.take(i as int), service_type@),
        {
            proof {
                assert(pre_types.take(i + 1).drop_last() =~= pre_types.take(i as int));
                assert(pre_types.take(i + 1).last() == pre_types[i as int]);
            }
            if !str_eq_chars(self.service_types[i].as_str(), &st_chars) {
                kept.push(self.service_types[i].clone());
            }
        }
        assert(pre_types.take(n as int) =~= pre_types);
        let kept_len = kept.len();
        if kept_len == n {
            assert(!has_type(pre_types, service_type@));
            return false;
        }
        assert(has_type(pre_types, service_type@));
        self.service_types = kept;
        match anchor_val {
            Some(v) => {
                let vc = chars_of_str(v.as_str());
                match find_type_index(&self.service_types, &vc) {
                    Some(j) => {
                        proof {
                            lemma_find_str_props(self.service_types@, vc@);
                        }
                        self.selected_type = Some(j);
                    },
                    None => {
                        if str_eq_chars(v.as_str(), &st_chars) {
                            if self.service_types.len() == 0 {
                                self.selected_type = None;
                            } else {
                                let cur = match self.selected_type {
                                    Some(i) => i,
                                    None => 0,
                                };
                                let last = self.service_types.len() - 1;
                                self.selected_type = Some(
                                    if cur < last {
                                        cur
                                    } else {
                                        last
                                    },
                                );
                            }
                        } else {
                            self.selected_type = None;
                        }
                    },
                }
            },
            None => {},
        }
        self.invalidate_cache_and_validate();
        true
    }
}

/// Inserting a fresh string keeps sortedness (view-level restatement).
proof fn lemma_insert_sorted_view(
    pre: Seq<String>,
    x: Seq<char>,
    post: Seq<String>,
    p: int,
)
    requires
        sorted_strs(pre),
        p == insert_pos(pre, x),
        post == pre.insert(p, post[p]),
        0 <= p <= pre.len(),
        post.len() == pre.len() + 1,
        post[p]@ == x,
    ensures
        sorted_strs(post),
{
    lemma_insert_sorted(pre, post[p]);
    assert(insert_pos(pre, post[p]@) == p);
}

/// Inserting a string not already present keeps slots distinct.
proof fn lemma_insert_distinct(pre: Seq<String>, x: Seq<char>, post: Seq<String>, p: int)
    requires
        distinct_strs(pre),
        !has_type(pre, x),
        0 <= p <= pre.len(),
        post == pre.insert(p, post[p]),
        post.len() == pre.len() + 1,
        post[p]@ == x,
    ensures
        distinct_strs(post),
{
    assert forall|i: int, j: int| 0 <= i < j < post.len() implies (#[trigger] post[i])@ != (
    #[trigger] post[j])@ by {
        if i == p && j > p {
            assert(post[j] == pre[j - 1]);
            assert(pre[j - 1]@ != x);
        } else if j == p && i < p {
            assert(post[i] == pre[i]);
            assert(pre[i]@ != x);
        } else if i < p && j > p {
            assert(post[i] == pre[i] && post[j] == pre[j - 1]);
        } else if j < p {
            assert(post[i] == pre[i] && post[j] == pre[j]);
        } else if i > p {
            assert(post[i] == pre[i - 1] && post[j] == pre[j - 1]);
        }
    }
}

} // verus!
