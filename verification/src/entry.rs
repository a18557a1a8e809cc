//! The canonical record of one discovered service instance.

use vstd::prelude::*;

use crate::text::{
    lex_le, lex_lt, sorted_strs, sort_strs_spec, lemma_lex_le_total, lemma_lex_lt_iff_not_le,
    lemma_lex_lt_implies_le, lemma_lex_le_transitive,
};
use crate::text::{sort_strings, str_lex_lt, push_str_chars, chars_to_string};

verus! {

/// One discovered service: an immutable identity key (`fullname`) with
/// mutable display attributes, a liveness flag, and the microsecond timestamp
/// of the last liveness transition.
#[derive(Clone, Debug)]
pub struct ServiceEntry {
    pub fullname: String,
    pub host: String,
    pub service_type: String,
    pub subtype: Option<String>,
    pub addrs: Vec<String>,
    pub port: u16,
    pub txt: Vec<String>,
    pub online: bool,
    pub timestamp_micros: u64,
}

/// The pairs are in non-strict order of their key component.
pub open spec fn sorted_pairs(v: Seq<(String, String)>) -> bool {
    forall|i: int, j: int| 0 <= i <= j < v.len() ==> lex_le(v[i].0@, v[j].0@)
}

/// The position before the first pair whose key is greater than `x`.
pub open spec fn pair_insert_pos(v: Seq<(String, String)>, x: Seq<char>) -> int
    decreases v.len(),
{
    if v.len() == 0 {
        0
    } else if lex_lt(x, v[0].0@) {
        0
    } else {
        1 + pair_insert_pos(v.skip(1), x)
    }
}

/// Key/value pairs sorted by key through successive ordered insertion;
/// pairs with equal keys keep their relative order.
pub open spec fn sort_pairs_spec(v: Seq<(String, String)>) -> Seq<(String, String)>
    decreases v.len(),
{
    if v.len() == 0 {
        Seq::empty()
    } else {
        let prev = sort_pairs_spec(v.drop_last());
        prev.insert(pair_insert_pos(prev, v.last().0@), v.last())
    }
}

/// One key/value record rendered for display.
pub open spec fn txt_entry(p: (String, String)) -> Seq<char> {
    p.0@ + seq!['='] + p.1@
}

proof fn lemma_pair_insert_pos_props(v: Seq<(String, String)>, x: Seq<char>)
    ensures
        0 <= pair_insert_pos(v, x) <= v.len(),
        forall|k: int| 0 <= k < pair_insert_pos(v, x) ==> !lex_lt(x, v[k].0@),
        pair_insert_pos(v, x) < v.len() ==> lex_lt(x, v[pair_insert_pos(v, x)].0@),
    decreases v.len(),
{
    if v.len() > 0 && !lex_lt(x, v[0].0@) {
        lemma_pair_insert_pos_props(v.skip(1), x);
        assert(forall|k: int| 1 <= k < v.len() ==> v[k] == v.skip(1)[k - 1]);
    }
}

proof fn lemma_pair_insert_sorted(v: Seq<(String, String)>, x: (String, String))
    requires
        sorted_pairs(v),
    ensures
        sorted_pairs(v.insert(pair_insert_pos(v, x.0@), x)),
{
    lemma_pair_insert_pos_props(v, x.0@);
    let p = pair_insert_pos(v, x.0@);
    let w = v.insert(p, x);
    assert forall|i: int, j: int| 0 <= i <= j < w.len() implies lex_le(w[i].0@, w[j].0@) by {
        if i == j {
            lemma_lex_le_total(w[i].0@, w[i].0@);
        } else if j < p {
            assert(w[i] == v[i] && w[j] == v[j]);
        } else if i > p {
            assert(w[i] == v[i - 1] && w[j] == v[j - 1]);
        } else if i < p && j == p {
            lemma_lex_lt_iff_not_le(x.0@, v[i].0@);
        } else if i < p && j > p {
            assert(w[i] == v[i] && w[j] == v[j - 1]);
        } else if i == p && j > p {
            if p < v.len() {
                lemma_lex_lt_implies_le(x.0@, v[p].0@);
                lemma_lex_le_transitive(x.0@, v[p].0@, v[j - 1].0@);
            }
        }
    }
}

/// The sorted pairs are sorted by key and are the same pairs.
pub proof fn lemma_sort_pairs_ensures(v: Seq<(String, String)>)
    ensures
        sorted_pairs(sort_pairs_spec(v)),
        sort_pairs_spec(v).to_multiset() == v.to_multiset(),
        sort_pairs_spec(v).len() == v.len(),
    decreases v.len(),
{
    broadcast use vstd::seq_lib::group_to_multiset_ensures;

    if v.len() == 0 {
        assert(sort_pairs_spec(v).to_multiset() =~= v.to_multiset());
    } else {
        lemma_sort_pairs_ensures(v.drop_last());
        let prev = sort_pairs_spec(v.drop_last());
        let p = pair_insert_pos(prev, v.last().0@);
        lemma_pair_insert_pos_props(prev, v.last().0@);
        lemma_pair_insert_sorted(prev, v.last());
        vstd::seq_lib::to_multiset_insert(prev, p, v.last());
        assert(v =~= v.drop_last().push(v.last()));
    }
}

/// Inserts a pair into a key-sorted vector, after any pairs with equal keys.
fn insert_pair_sorted(v: &mut Vec<(String, String)>, x: (String, String))
    ensures
        final(v)@ == old(v)@.insert(pair_insert_pos(old(v)@, x.0@), x),
{
    let n = v.len();
    let mut i: usize = 0;
    assert(v@.skip(0) =~= v@);
    loop
        invariant
            n == v@.len(),
            i <= n,
            pair_insert_pos(v@, x.0@) == i + pair_insert_pos(v@.skip(i as int), x.0@),
        ensures
            0 <= i <= n,
            pair_insert_pos(v@, x.0@) == i,
        decreases n - i,
    {
        proof {
            lemma_pair_insert_pos_props(v@.skip(i as int), x.0@);
        }
        if i == n {
            assert(v@.skip(i as int).len() == 0);
            break;
        }
        if str_lex_lt(x.0.as_str(), v[i].0.as_str()) {
            assert(v@.skip(i as int)[0] == v@[i as int]);
            break;
        }
        assert(v@.skip(i as int)[0] == v@[i as int]);
        assert(v@.skip(i as int).skip(1) =~= v@.skip(i + 1));
        i = i + 1;
    }
    v.insert(i, x);
}

/// Sorts key/value pairs by key, keeping equal keys in order.
fn sort_pairs(v: Vec<(String, String)>) -> (r: Vec<(String, String)>)
    ensures
        r@ == sort_pairs_spec(v@),
{
    let n = v.len();
    let mut out: Vec<(String, String)> = Vec::new();
    for i in 0..n
        invariant
            n == v@.len(),
            out@ == sort_pairs_spec(v@.take(i as int)),
    {
        let x = (v[i].0.clone(), v[i].1.clone());
        assert(x == v@[i as int]);
        insert_pair_sorted(&mut out, x);
        assert(v@.take(i + 1).drop_last() =~= v@.take(i as int));
    }
    assert(v@.take(n as int) =~= v@);
    out
}

impl ServiceEntry {
    /// Marks the entry offline and stamps the transition time.
    pub fn go_offline_at(&mut self, timestamp_micros: u64)
        ensures
            final(self).online == false,
            final(self).timestamp_micros == timestamp_micros,
            final(self).fullname == old(self).fullname,
            final(self).host == old(self).host,
            final(self).service_type == old(self).service_type,
            final(self).subtype == old(self).subtype,
            final(self).addrs == old(self).addrs,
            final(self).port == old(self).port,
            final(self).txt == old(self).txt,
    {
        self.online = false;
        self.timestamp_micros = timestamp_micros;
    }

    /// Builds an online entry from resolved attributes: the addresses are
    /// sorted for deterministic display, and the key/value records are sorted
    /// by key and rendered as `key=value` lines.
    pub fn from_parts(
        fullname: String,
        host: String,
        service_type: String,
        subtype: Option<String>,
        addrs: Vec<String>,
        port: u16,
        txt_pairs: Vec<(String, String)>,
        timestamp_micros: u64,
    ) -> (r: ServiceEntry)
        ensures
            r.fullname == fullname,
            r.host == host,
            r.service_type == service_type,
            r.subtype == subtype,
            r.port == port,
            r.online == true,
            r.timestamp_micros == timestamp_micros,
            r.addrs@ == sort_strs_spec(addrs@),
            r.txt@.len() == txt_pairs@.len(),
            forall|i: int|
                0 <= i < r.txt@.len() ==> r.txt@[i]@ == txt_entry(
                    #[trigger] sort_pairs_spec(txt_pairs@)[i],
                ),
    {
        let sorted_addrs = sort_strings(&addrs);
        let ghost tp = txt_pairs@;
        let sorted = sort_pairs(txt_pairs);
        proof {
            lemma_sort_pairs_ensures(tp);
        }
        let n = sorted.len();
        let mut txt: Vec<String> = Vec::new();
        for i in 0..n
            invariant
                n == sorted@.len(),
                sorted@ == sort_pairs_spec(tp),
                txt@.len() == i,
                forall|k: int| 0 <= k < i ==> txt@[k]@ == txt_entry(#[trigger] sorted@[k]),
        {
            let mut line: Vec<char> = Vec::new();
            push_str_chars(&mut line, sorted[i].0.as_str());
            line.push('=');
            push_str_chars(&mut line, sorted[i].1.as_str());
            assert(line@ =~= txt_entry(sorted@[i as int]));
            txt.push(chars_to_string(&line));
        }
        ServiceEntry {
            fullname,
            host,
            service_type,
            subtype,
            addrs: sorted_addrs,
            port,
            txt,
            online: true,
            timestamp_micros,
        }
    }
}

} // verus!
