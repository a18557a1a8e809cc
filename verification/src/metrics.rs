//! Metric counters: small named tallies kept inside the state, plus the
//! import of collaborator-reported metric snapshots.

use vstd::prelude::*;
use vstd::pervasive::VecAdditionalExecFns;

use crate::state::{AppState, metric_find};
use crate::text::{
    replace_spec, chars_of_str, replace_pat, push_str_chars, push_all, str_eq_chars,
    chars_to_string,
};

verus! {

/// Addition that stops at the counter's ceiling instead of wrapping.
pub open spec fn sat_add(a: u64, b: u64) -> u64 {
    if a + b > u64::MAX {
        u64::MAX
    } else {
        (a + b) as u64
    }
}

/// One counter raised by `v`: the named slot bumped in place, or a fresh slot
/// appended at the end when the name was unknown.
pub open spec fn metric_bump(m: Seq<(Seq<char>, u64)>, key: Seq<char>, v: u64) -> Seq<
    (Seq<char>, u64),
> {
    match metric_find(m, key) {
        Some(i) => m.update(i, (key, sat_add(m[i].1, v))),
        None => m.push((key, v)),
    }
}

/// A name found first at slot `i` is what `metric_find` returns.
proof fn lemma_metric_find_at(m: Seq<(Seq<char>, u64)>, key: Seq<char>, i: int)
    requires
        0 <= i < m.len(),
        m[i].0 == key,
        forall|k: int| 0 <= k < i ==> (#[trigger] m[k]).0 != key,
    ensures
        metric_find(m, key) == Some(i),
    decreases m.len(),
{
    if i > 0 {
        assert(forall|k: int| 0 <= k < m.skip(1).len() ==> #[trigger] m.skip(1)[k] == m[k + 1]);
        lemma_metric_find_at(m.skip(1), key, i - 1);
    }
}

/// A name on no slot is not found.
proof fn lemma_metric_find_none(m: Seq<(Seq<char>, u64)>, key: Seq<char>)
    requires
        forall|k: int| 0 <= k < m.len() ==> (#[trigger] m[k]).0 != key,
    ensures
        metric_find(m, key) is None,
    decreases m.len(),
{
    if m.len() > 0 {
        assert(forall|k: int| 0 <= k < m.skip(1).len() ==> #[trigger] m.skip(1)[k] == m[k + 1]);
        lemma_metric_find_none(m.skip(1), key);
    }
}

/// The metric name a collaborator-reported key is filed under.
pub open spec fn daemon_key(k: Seq<char>) -> Seq<char> {
    seq!['d', 'a', 'e', 'm', 'o', 'n', '_'] + replace_spec(k, seq!['-'], seq!['_'])
}

/// An `i64` reinterpreted as the matching `u64` bit pattern.
pub open spec fn as_u64_wrap(x: i64) -> u64 {
    if x >= 0 {
        x as u64
    } else {
        (x + 0x10000000000000000) as u64
    }
}

/// One imported snapshot value applied to the counters: an existing slot is
/// overwritten when it differs (a change), a missing slot is created holding
/// the value (a change only when the value is not zero).
pub open spec fn daemon_step(m: Seq<(Seq<char>, u64)>, k: Seq<char>, v: i64) -> (
    Seq<(Seq<char>, u64)>,
    bool,
) {
    let key = daemon_key(k);
    let w = as_u64_wrap(v);
    match metric_find(m, key) {
        Some(i) => {
            if m[i].1 != w {
                (m.update(i, (key, w)), true)
            } else {
                (m, false)
            }
        },
        None => (m.push((key, w)), w != 0),
    }
}

/// A whole snapshot applied in order; changed when any step changed a value.
pub open spec fn daemon_apply(m: Seq<(Seq<char>, u64)>, ps: Seq<(Seq<char>, i64)>) -> (
    Seq<(Seq<char>, u64)>,
    bool,
)
    decreases ps.len(),
{
    if ps.len() == 0 {
        (m, false)
    } else {
        let first = daemon_step(m, ps[0].0, ps[0].1);
        let rest = daemon_apply(first.0, ps.skip(1));
        (rest.0, first.1 || rest.1)
    }
}

impl AppState {
    /// Raises the named counter by one.
    pub fn update_metric(&mut self, key: &str)
        ensures
            *final(self) == (AppState { metrics: final(self).metrics, ..*old(self) }),
            final(self).metrics_view() == metric_bump(old(self).metrics_view(), key@, 1),
    {
        self.update_metric_by(key, 1);
    }

    /// Raises the named counter by `value`, saturating at the ceiling.
    pub fn update_metric_by(&mut self, key: &str, value: u64)
        ensures
            *final(self) == (AppState { metrics: final(self).metrics, ..*old(self) }),
            final(self).metrics_view() == metric_bump(old(self).metrics_view(), key@, value),
    {
        let kc = chars_of_str(key);
        let n = self.metrics.len();
        for i in 0..n
            invariant
                n == self.metrics@.len(),
                kc@ == key@,
                *self == *old(self),
                forall|k: int| 0 <= k < i ==> (#[trigger] self.metrics_view()[k]).0 != key@,
        {
            assert(self.metrics_view()[i as int].0 == self.metrics@[i as int].0@);
            if str_eq_chars(self.metrics[i].0.as_str(), &kc) {
                proof {
                    lemma_metric_find_at(self.metrics_view(), key@, i as int);
                }
                let cur = self.metrics[i].1;
                let nv = if cur > u64::MAX - value {
                    u64::MAX
                } else {
                    cur + value
                };
                self.metrics.set(i, (chars_to_string(&kc), nv));
                assert(self.metrics_view() =~= metric_bump(old(self).metrics_view(), key@, value));
                return ;
            }
        }
        proof {
            lemma_metric_find_none(self.metrics_view(), key@);
        }
        self.metrics.push((String::from_str(key), value));
        assert(self.metrics_view() =~= metric_bump(old(self).metrics_view(), key@, value));
    }

    /// Reads the named counter, if it has ever been raised.
    pub fn get_metric(&self, key: &str) -> (r: Option<u64>)
        ensures
            r == match metric_find(self.metrics_view(), key@) {
                Some(i) => Some(self.metrics_view()[i].1),
                None => None::<u64>,
            },
    {
        let kc = chars_of_str(key);
        let n = self.metrics.len();
        for i in 0..n
            invariant
                n == self.metrics@.len(),
                kc@ == key@,
                forall|k: int| 0 <= k < i ==> (#[trigger] self.metrics_view()[k]).0 != key@,
        {
            assert(self.metrics_view()[i as int].0 == self.metrics@[i as int].0@);
            if str_eq_chars(self.metrics[i].0.as_str(), &kc) {
                proof {
                    lemma_metric_find_at(self.metrics_view(), key@, i as int);
                }
                return Some(self.metrics[i].1);
            }
        }
        proof {
            lemma_metric_find_none(self.metrics_view(), key@);
        }
        None
    }

    /// Applies one collaborator-reported key and value.
    fn daemon_one(&mut self, name: &String, value: i64) -> (changed: bool)
        ensures
            *final(self) == (AppState { metrics: final(self).metrics, ..*old(self) }),
            final(self).metrics_view() == daemon_step(old(self).metrics_view(), name@, value).0,
            changed == daemon_step(old(self).metrics_view(), name@, value).1,
    {
        let kc = chars_of_str(name.as_str());
        let mut dash: Vec<char> = Vec::new();
        dash.push('-');
        let mut und: Vec<char> = Vec::new();
        und.push('_');
        assert(dash@ =~= seq!['-']);
        assert(und@ =~= seq!['_']);
        let repl = replace_pat(&kc, &dash, &und);
        let mut keyc: Vec<char> = Vec::new();
        push_str_chars(&mut keyc, "daemon_");
        proof {
            reveal_strlit("daemon_");
            assert(keyc@ =~= seq!['d', 'a', 'e', 'm', 'o', 'n', '_']);
        }
        push_all(&mut keyc, &repl);
        assert(keyc@ == daemon_key(name@));
        let v: u64 = if value >= 0 {
            value as u64
        } else {
            ((value as i128) + 0x10000000000000000i128) as u64
        };
        assert(v == as_u64_wrap(value));
        let n = self.metrics.len();
        for i in 0..n
            invariant
                n == self.metrics@.len(),
                keyc@ == daemon_key(name@),
                v == as_u64_wrap(value),
                *self == *old(self),
                forall|k: int|
                    0 <= k < i ==> (#[trigger] self.metrics_view()[k]).0 != daemon_key(name@),
        {
            assert(self.metrics_view()[i as int].0 == self.metrics@[i as int].0@);
            if str_eq_chars(self.metrics[i].0.as_str(), &keyc) {
                proof {
                    lemma_metric_find_at(self.metrics_view(), keyc@, i as int);
                }
                let cur = self.metrics[i].1;
                if cur != v {
                    self.metrics.set(i, (chars_to_string(&keyc), v));
                    assert(self.metrics_view() =~= daemon_step(
                        old(self).metrics_view(),
                        name@,
                        value,
                    ).0);
                    return true;
                } else {
                    return false;
                }
            }
        }
        proof {
            lemma_metric_find_none(self.metrics_view(), keyc@);
        }
        self.metrics.push((chars_to_string(&keyc), v));
        assert(self.metrics_view() =~= daemon_step(old(self).metrics_view(), name@, value).0);
        v != 0
    }

    /// Applies the snapshot pairs from position `i` on.
    fn daemon_from(&mut self, pairs: &Vec<(String, i64)>, i: usize) -> (changed: bool)
        requires
            i <= pairs@.len(),
        ensures
            *final(self) == (AppState { metrics: final(self).metrics, ..*old(self) }),
            final(self).metrics_view() == daemon_apply(
                old(self).metrics_view(),
                pairs_view(pairs@).skip(i as int),
            ).0,
            changed == daemon_apply(
                old(self).metrics_view(),
                pairs_view(pairs@).skip(i as int),
            ).1,
        decreases pairs@.len() - i,
    {
        let ghost pv = pairs_view(pairs@).skip(i as int);
        if i == pairs.len() {
            assert(pv.len() == 0);
            return false;
        }
        assert(pv[0] == (pairs@[i as int].0@, pairs@[i as int].1));
        let c1 = self.daemon_one(&pairs[i].0, pairs[i].1);
        let c2 = self.daemon_from(pairs, i + 1);
        proof {
            assert(pairs_view(pairs@).skip(i + 1) =~= pv.skip(1));
        }
        c1 || c2
    }

    /// Imports a collaborator-reported metric snapshot, value by value, and
    /// reports whether any counter actually changed.
    pub fn update_daemon_metrics(&mut self, daemon_metrics: &Vec<(String, i64)>) -> (updated: bool)
        ensures
            *final(self) == (AppState { metrics: final(self).metrics, ..*old(self) }),
            final(self).metrics_view() == daemon_apply(
                old(self).metrics_view(),
                pairs_view(daemon_metrics@),
            ).0,
            updated == daemon_apply(old(self).metrics_view(), pairs_view(daemon_metrics@)).1,
    {
        let r = self.daemon_from(daemon_metrics, 0);
        assert(pairs_view(daemon_metrics@).skip(0) =~= pairs_view(daemon_metrics@));
        r
    }
}

/// Snapshot pairs as name characters and values.
pub open spec fn pairs_view(ps: Seq<(String, i64)>) -> Seq<(Seq<char>, i64)> {
    ps.map_values(|p: (String, i64)| (p.0@, p.1))
}

} // verus!
