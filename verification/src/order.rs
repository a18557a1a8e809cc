//! Sort fields, directions, the entry comparator, and the projection sort.

use core::cmp::Ordering;
use vstd::prelude::*;

use crate::entry::ServiceEntry;
use crate::ip::{addr_key, parse_ip, IpKey};
use crate::text::{
    lex_lt, lemma_lex_lt_iff_not_le, lemma_lex_le_total, chars_of_str, str_lex_lt,
};
use crate::ip::chars_lex_le;

verus! {

/// The attribute a projection is ordered by.
#[derive(Clone, Copy, Debug, PartialEq, Eq, Structural)]
pub enum SortField {
    Host,
    ServiceType,
    Fullname,
    Port,
    Address,
    Timestamp,
}

/// The direction a projection is ordered in.
#[derive(Clone, Copy, Debug, PartialEq, Eq, Structural)]
pub enum SortDirection {
    Ascending,
    Descending,
}

/// The placeholder that stands in for a missing primary address.
pub open spec fn no_addr() -> Seq<char> {
    seq!['<', 'n', 'o', '-', 'a', 'd', 'd', 'r', '>']
}

/// The primary display address of an entry, or the placeholder.
pub open spec fn primary_addr(e: ServiceEntry) -> Seq<char> {
    if e.addrs@.len() > 0 {
        e.addrs@[0]@
    } else {
        no_addr()
    }
}

/// Three-way lexicographic comparison.
pub open spec fn lex_ord(x: Seq<char>, y: Seq<char>) -> Ordering {
    if lex_lt(x, y) {
        Ordering::Less
    } else if lex_lt(y, x) {
        Ordering::Greater
    } else {
        Ordering::Equal
    }
}

/// Three-way address comparison: numeric when both sides parse as addresses
/// of the same family, lexicographic on the strings otherwise — a
/// mixed-family pair falls back to string comparison by design.
pub open spec fn addr_ord(x: Seq<char>, y: Seq<char>) -> Ordering {
    match (addr_key(x), addr_key(y)) {
        (Some(a), Some(b)) => {
            if a.0 == b.0 {
                int_ord(a.1, b.1)
            } else {
                lex_ord(x, y)
            }
        },
        _ => lex_ord(x, y),
    }
}

/// Three-way comparison of two entries on one sort field.
pub open spec fn field_ord(a: ServiceEntry, b: ServiceEntry, f: SortField) -> Ordering {
    match f {
        SortField::Host => lex_ord(a.host@, b.host@),
        SortField::ServiceType => lex_ord(a.service_type@, b.service_type@),
        SortField::Fullname => lex_ord(a.fullname@, b.fullname@),
        SortField::Port => int_ord(a.port as int, b.port as int),
        SortField::Address => addr_ord(primary_addr(a), primary_addr(b)),
        SortField::Timestamp => int_ord(a.timestamp_micros as int, b.timestamp_micros as int),
    }
}

/// Three-way integer comparison.
pub open spec fn int_ord(a: int, b: int) -> Ordering {
    if a < b {
        Ordering::Less
    } else if b < a {
        Ordering::Greater
    } else {
        Ordering::Equal
    }
}

/// Non-strict comparator on one field.
pub open spec fn field_le(a: ServiceEntry, b: ServiceEntry, f: SortField) -> bool {
    field_ord(a, b, f) != Ordering::Greater
}

/// The comparator the projection is ordered by, direction applied.
pub open spec fn entry_le(a: ServiceEntry, b: ServiceEntry, f: SortField, d: SortDirection) -> bool {
    match d {
        SortDirection::Ascending => field_le(a, b, f),
        SortDirection::Descending => field_le(b, a, f),
    }
}

/// Any two entries are comparable under any field and direction.
pub proof fn lemma_entry_le_total(a: ServiceEntry, b: ServiceEntry, f: SortField, d: SortDirection)
    ensures
        entry_le(a, b, f, d) || entry_le(b, a, f, d),
{
    lemma_field_le_total(a, b, f);
}

/// The one-field comparator is total.
pub proof fn lemma_field_le_total(a: ServiceEntry, b: ServiceEntry, f: SortField)
    ensures
        field_le(a, b, f) || field_le(b, a, f),
{
    match f {
        SortField::Host => lemma_lex_ord_total(a.host@, b.host@),
        SortField::ServiceType => lemma_lex_ord_total(a.service_type@, b.service_type@),
        SortField::Fullname => lemma_lex_ord_total(a.fullname@, b.fullname@),
        SortField::Port => {},
        SortField::Address => {
            let ka = addr_key(primary_addr(a));
            let kb = addr_key(primary_addr(b));
            if ka is Some && kb is Some && ka->Some_0.0 == kb->Some_0.0 {
            } else {
                lemma_lex_ord_total(primary_addr(a), primary_addr(b));
            }
        },
        SortField::Timestamp => {},
    }
}

/// On every field but the address one the comparator is transitive.  (The
/// address comparator mixes numeric and lexicographic comparison by design,
/// which breaks transitivity across parseable and unparseable strings.)
pub proof fn lemma_field_le_transitive(a: ServiceEntry, b: ServiceEntry, c: ServiceEntry, f: SortField)
    requires
        f != SortField::Address,
        field_le(a, b, f),
        field_le(b, c, f),
    ensures
        field_le(a, c, f),
{
    match f {
        SortField::Host => lemma_lex_ord_transitive(a.host@, b.host@, c.host@),
        SortField::ServiceType => lemma_lex_ord_transitive(
            a.service_type@,
            b.service_type@,
            c.service_type@,
        ),
        SortField::Fullname => lemma_lex_ord_transitive(a.fullname@, b.fullname@, c.fullname@),
        SortField::Port => {},
        SortField::Address => {},
        SortField::Timestamp => {},
    }
}

proof fn lemma_lex_ord_transitive(x: Seq<char>, y: Seq<char>, z: Seq<char>)
    requires
        lex_ord(x, y) != Ordering::Greater,
        lex_ord(y, z) != Ordering::Greater,
    ensures
        lex_ord(x, z) != Ordering::Greater,
{
    lemma_lex_lt_iff_not_le(y, x);
    lemma_lex_lt_iff_not_le(z, y);
    lemma_lex_lt_iff_not_le(z, x);
    if lex_lt(x, y) {
        crate::text::lemma_lex_lt_implies_le(x, y);
    }
    if lex_lt(y, z) {
        crate::text::lemma_lex_lt_implies_le(y, z);
    }
    crate::text::lemma_lex_le_transitive(x, y, z);
}

proof fn lemma_lex_ord_total(x: Seq<char>, y: Seq<char>)
    ensures
        lex_ord(x, y) != Ordering::Greater || lex_ord(y, x) != Ordering::Greater,
{
    if lex_lt(y, x) && lex_lt(x, y) {
        lemma_lex_lt_iff_not_le(x, y);
        lemma_lex_lt_iff_not_le(y, x);
        lemma_lex_le_total(x, y);
    }
}

/// Three-way lexicographic comparison of string slices.
fn str_ord(a: &str, b: &str) -> (r: Ordering)
    ensures
        r == lex_ord(a@, b@),
{
    if str_lex_lt(a, b) {
        Ordering::Less
    } else if str_lex_lt(b, a) {
        Ordering::Greater
    } else {
        Ordering::Equal
    }
}

/// The primary display address of an entry as characters.
pub fn primary_addr_exec(e: &ServiceEntry) -> (r: Vec<char>)
    ensures
        r@ == primary_addr(*e),
{
    if e.addrs.len() > 0 {
        chars_of_str(e.addrs[0].as_str())
    } else {
        let r = chars_of_str("<no-addr>");
        proof {
            reveal_strlit("<no-addr>");
            assert(r@ =~= no_addr());
        }
        r
    }
}

/// Three-way address comparison of two character vectors.
fn addr_ord_exec(x: &Vec<char>, y: &Vec<char>) -> (r: Ordering)
    ensures
        r == addr_ord(x@, y@),
{
    let kx = parse_ip(x);
    let ky = parse_ip(y);
    match (kx, ky) {
        (Some(IpKey::V4(a)), Some(IpKey::V4(b))) => {
            if a < b {
                Ordering::Less
            } else if b < a {
                Ordering::Greater
            } else {
                Ordering::Equal
            }
        },
        (Some(IpKey::V6(a)), Some(IpKey::V6(b))) => {
            if a < b {
                Ordering::Less
            } else if b < a {
                Ordering::Greater
            } else {
                Ordering::Equal
            }
        },
        _ => {
            proof {
                lemma_lex_lt_iff_not_le(x@, y@);
                lemma_lex_lt_iff_not_le(y@, x@);
            }
            let le1 = chars_lex_le(x, y);
            let le2 = chars_lex_le(y, x);
            if le1 && le2 {
                Ordering::Equal
            } else if le1 {
                Ordering::Less
            } else {
                proof {
                    lemma_lex_le_total(x@, y@);
                }
                Ordering::Greater
            }
        },
    }
}

/// Compares two entries on the given sort field, the order the projection uses.
pub fn compare_services_by_field(a: &ServiceEntry, b: &ServiceEntry, field: SortField) -> (r:
    Ordering)
    ensures
        r == field_ord(*a, *b, field),
{
    match field {
        SortField::Host => str_ord(a.host.as_str(), b.host.as_str()),
        SortField::ServiceType => str_ord(a.service_type.as_str(), b.service_type.as_str()),
        SortField::Fullname => str_ord(a.fullname.as_str(), b.fullname.as_str()),
        SortField::Port => {
            if a.port < b.port {
                Ordering::Less
            } else if b.port < a.port {
                Ordering::Greater
            } else {
                Ordering::Equal
            }
        },
        SortField::Address => {
            let pa = primary_addr_exec(a);
            let pb = primary_addr_exec(b);
            addr_ord_exec(&pa, &pb)
        },
        SortField::Timestamp => {
            if a.timestamp_micros < b.timestamp_micros {
                Ordering::Less
            } else if b.timestamp_micros < a.timestamp_micros {
                Ordering::Greater
            } else {
                Ordering::Equal
            }
        },
    }
}

/// Decides the comparator for two store indices.
fn idx_le_exec(
    services: &Vec<ServiceEntry>,
    i: usize,
    j: usize,
    f: SortField,
    d: SortDirection,
) -> (r: bool)
    requires
        i < services@.len(),
        j < services@.len(),
    ensures
        r == entry_le(services@[i as int], services@[j as int], f, d),
{
    let ord = match d {
        SortDirection::Ascending => compare_services_by_field(&services[i], &services[j], f),
        SortDirection::Descending => compare_services_by_field(&services[j], &services[i], f),
    };
    match ord {
        Ordering::Greater => false,
        _ => true,
    }
}

/// Neighbouring positions of `idx` are ordered by the comparator.
pub open spec fn idx_sorted(
    services: Seq<ServiceEntry>,
    idx: Seq<usize>,
    f: SortField,
    d: SortDirection,
) -> bool {
    forall|k: int|
        0 <= k < idx.len() - 1 ==> entry_le(
            services[#[trigger] idx[k] as int],
            services[idx[k + 1] as int],
            f,
            d,
        )
}

/// The position before the first element the comparator places strictly
/// after `x`: past every element at or below `x`, so elements that compare
/// equal to `x` keep their earlier place — the stable insertion point.
pub open spec fn idx_insert_pos(
    services: Seq<ServiceEntry>,
    v: Seq<usize>,
    x: usize,
    f: SortField,
    d: SortDirection,
) -> int
    decreases v.len(),
{
    if v.len() == 0 {
        0
    } else if !entry_le(services[v[0] as int], services[x as int], f, d) {
        0
    } else {
        1 + idx_insert_pos(services, v.skip(1), x, f, d)
    }
}

/// The stable sort of an index vector: each index inserted in turn at its
/// stable position, so rows with equal keys keep their input order.
pub open spec fn sort_idx_spec(
    services: Seq<ServiceEntry>,
    v: Seq<usize>,
    f: SortField,
    d: SortDirection,
) -> Seq<usize>
    decreases v.len(),
{
    if v.len() == 0 {
        Seq::empty()
    } else {
        let prev = sort_idx_spec(services, v.drop_last(), f, d);
        prev.insert(idx_insert_pos(services, prev, v.last(), f, d), v.last())
    }
}

proof fn lemma_idx_insert_pos_props(
    services: Seq<ServiceEntry>,
    v: Seq<usize>,
    x: usize,
    f: SortField,
    d: SortDirection,
)
    ensures
        0 <= idx_insert_pos(services, v, x, f, d) <= v.len(),
        forall|k: int|
            0 <= k < idx_insert_pos(services, v, x, f, d) ==> entry_le(
                services[#[trigger] v[k] as int],
                services[x as int],
                f,
                d,
            ),
        idx_insert_pos(services, v, x, f, d) < v.len() ==> !entry_le(
            services[v[idx_insert_pos(services, v, x, f, d)] as int],
            services[x as int],
            f,
            d,
        ),
    decreases v.len(),
{
    if v.len() > 0 && entry_le(services[v[0] as int], services[x as int], f, d) {
        lemma_idx_insert_pos_props(services, v.skip(1), x, f, d);
        assert(forall|k: int| 1 <= k < v.len() ==> v[k] == v.skip(1)[k - 1]);
    }
}

/// What the stable sort yields: the same indices, in bounds, neighbours
/// ordered by the comparator.
pub proof fn lemma_sort_idx_ensures(
    services: Seq<ServiceEntry>,
    v: Seq<usize>,
    f: SortField,
    d: SortDirection,
)
    requires
        forall|k: int| 0 <= k < v.len() ==> (#[trigger] v[k]) < services.len(),
    ensures
        sort_idx_spec(services, v, f, d).len() == v.len(),
        sort_idx_spec(services, v, f, d).to_multiset() == v.to_multiset(),
        forall|k: int|
            0 <= k < v.len() ==> (#[trigger] sort_idx_spec(services, v, f, d)[k])
                < services.len(),
        idx_sorted(services, sort_idx_spec(services, v, f, d), f, d),
    decreases v.len(),
{
    broadcast use vstd::seq_lib::group_to_multiset_ensures;

    if v.len() == 0 {
        assert(sort_idx_spec(services, v, f, d).to_multiset() =~= v.to_multiset());
    } else {
        assert(forall|k: int| 0 <= k < v.len() - 1 ==> #[trigger] v.drop_last()[k] == v[k]);
        lemma_sort_idx_ensures(services, v.drop_last(), f, d);
        let prev = sort_idx_spec(services, v.drop_last(), f, d);
        let x = v.last();
        let p = idx_insert_pos(services, prev, x, f, d);
        let w = sort_idx_spec(services, v, f, d);
        lemma_idx_insert_pos_props(services, prev, x, f, d);
        prev.insert_ensures(p, x);
        vstd::seq_lib::to_multiset_insert(prev, p, x);
        assert(v =~= v.drop_last().push(v.last()));
        assert forall|k: int|
            0 <= k < w.len() - 1 implies entry_le(
            services[#[trigger] w[k] as int],
            services[w[k + 1] as int],
            f,
            d,
        ) by {
            if k + 1 < p {
                assert(w[k] == prev[k] && w[k + 1] == prev[k + 1]);
            } else if k + 1 == p {
                assert(w[k] == prev[k] && w[k + 1] == x);
            } else if k == p {
                assert(w[k] == x && w[k + 1] == prev[p]);
                lemma_entry_le_total(services[prev[p] as int], services[x as int], f, d);
            } else {
                assert(w[k] == prev[k - 1] && w[k + 1] == prev[k]);
            }
        }
    }
}

/// Inserts a store index into an already sorted run at its stable position.
fn insert_idx_sorted(
    services: &Vec<ServiceEntry>,
    out: &mut Vec<usize>,
    x: usize,
    f: SortField,
    d: SortDirection,
)
    requires
        x < services@.len(),
        forall|k: int| 0 <= k < old(out)@.len() ==> (#[trigger] old(out)@[k]) < services@.len(),
    ensures
        final(out)@ == old(out)@.insert(idx_insert_pos(services@, old(out)@, x, f, d), x),
{
    let n = out.len();
    let mut i: usize = 0;
    assert(out@.skip(0) =~= out@);
    loop
        invariant
            n == out@.len(),
            i <= n,
            x < services@.len(),
            forall|k: int| 0 <= k < n ==> (#[trigger] out@[k]) < services@.len(),
            idx_insert_pos(services@, out@, x, f, d) == i + idx_insert_pos(
                services@,
                out@.skip(i as int),
                x,
                f,
                d,
            ),
        ensures
            0 <= i <= n,
            idx_insert_pos(services@, out@, x, f, d) == i,
        decreases n - i,
    {
        proof {
            lemma_idx_insert_pos_props(services@, out@.skip(i as int), x, f, d);
        }
        if i == n {
            assert(out@.skip(i as int).len() == 0);
            break ;
        }
        assert(out@.skip(i as int)[0] == out@[i as int]);
        if !idx_le_exec(services, out[i], x, f, d) {
            break ;
        }
        assert(out@.skip(i as int).skip(1) =~= out@.skip(i + 1));
        i = i + 1;
    }
    out.insert(i, x);
}

/// Sorts the index vector by the comparator with a stable insertion sort:
/// the result is exactly `sort_idx_spec`, so the same indices come out,
/// neighbours ordered, and equal-key rows keep their input order.
pub fn sort_indices(
    services: &Vec<ServiceEntry>,
    idx: &mut Vec<usize>,
    f: SortField,
    d: SortDirection,
)
    requires
        forall|k: int| 0 <= k < old(idx)@.len() ==> old(idx)@[k] < services@.len(),
    ensures
        final(idx)@ == sort_idx_spec(services@, old(idx)@, f, d),
        final(idx)@.len() == old(idx)@.len(),
        final(idx)@.to_multiset() == old(idx)@.to_multiset(),
        forall|k: int| 0 <= k < final(idx)@.len() ==> final(idx)@[k] < services@.len(),
        idx_sorted(services@, final(idx)@, f, d),
{
    let ghost orig = idx@;
    let n = idx.len();
    let mut out: Vec<usize> = Vec::new();
    for i in 0..n
        invariant
            n == idx@.len(),
            idx@ == orig,
            forall|k: int| 0 <= k < n ==> idx@[k] < services@.len(),
            out@ == sort_idx_spec(services@, orig.take(i as int), f, d),
            forall|k: int| 0 <= k < out@.len() ==> (#[trigger] out@[k]) < services@.len(),
    {
        proof {
            assert(orig.take(i + 1).drop_last() =~= orig.take(i as int));
            assert(orig.take(i + 1).last() == orig[i as int]);
            lemma_idx_insert_pos_props(services@, out@, orig[i as int], f, d);
            out@.insert_ensures(
                idx_insert_pos(services@, out@, orig[i as int], f, d),
                orig[i as int],
            );
        }
        insert_idx_sorted(services, &mut out, idx[i], f, d);
    }
    assert(orig.take(n as int) =~= orig);
    proof {
        lemma_sort_idx_ensures(services@, orig, f, d);
    }
    *idx = out;
}

} // verus!
