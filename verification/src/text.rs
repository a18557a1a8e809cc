//! Verified text primitives over character sequences.
//!
//! All string manipulation in this crate is done on `Vec<char>` values whose
//! views are `Seq<char>`, so that every transformation can be pinned to a
//! spec-level definition.

use vstd::prelude::*;

verus! {

/// ASCII lower-casing of one character; other characters are unchanged.
pub open spec fn lower_char(c: char) -> char {
    if 65 <= c as u32 && c as u32 <= 90 {
        ((c as u32 + 32) as u8) as char
    } else {
        c
    }
}

/// ASCII lower-casing of a character sequence.
pub open spec fn lower(s: Seq<char>) -> Seq<char> {
    s.map_values(|c: char| lower_char(c))
}

/// The needle `n` occurs in `h` starting at position `i`.
pub open spec fn match_at(h: Seq<char>, n: Seq<char>, i: int) -> bool {
    0 <= i && i + n.len() <= h.len() && h.subrange(i, i + n.len() as int) == n
}

/// The needle `n` occurs somewhere in `h` (always true for an empty needle).
pub open spec fn contains_seq(h: Seq<char>, n: Seq<char>) -> bool {
    exists|i: int| match_at(h, n, i)
}

/// Strict lexicographic order on character sequences by code point,
/// the order `str::cmp` induces.
pub open spec fn lex_lt(a: Seq<char>, b: Seq<char>) -> bool
    decreases a.len(),
{
    if b.len() == 0 {
        false
    } else if a.len() == 0 {
        true
    } else if (a[0] as u32) < (b[0] as u32) {
        true
    } else if (b[0] as u32) < (a[0] as u32) {
        false
    } else {
        lex_lt(a.skip(1), b.skip(1))
    }
}

/// Non-strict lexicographic order on character sequences.
pub open spec fn lex_le(a: Seq<char>, b: Seq<char>) -> bool
    decreases a.len(),
{
    if a.len() == 0 {
        true
    } else if b.len() == 0 {
        false
    } else if (a[0] as u32) < (b[0] as u32) {
        true
    } else if (b[0] as u32) < (a[0] as u32) {
        false
    } else {
        lex_le(a.skip(1), b.skip(1))
    }
}

/// The order is total: any two sequences are comparable.
pub proof fn lemma_lex_le_total(a: Seq<char>, b: Seq<char>)
    ensures
        lex_le(a, b) || lex_le(b, a),
    decreases a.len(),
{
    if a.len() != 0 && b.len() != 0 && !((a[0] as u32) < (b[0] as u32)) && !((b[0] as u32)
        < (a[0] as u32)) {
        lemma_lex_le_total(a.skip(1), b.skip(1));
    }
}

/// The non-strict order is transitive.
pub proof fn lemma_lex_le_transitive(a: Seq<char>, b: Seq<char>, c: Seq<char>)
    requires
        lex_le(a, b),
        lex_le(b, c),
    ensures
        lex_le(a, c),
    decreases a.len(),
{
    if a.len() != 0 && b.len() != 0 && c.len() != 0 {
        if !((a[0] as u32) < (b[0] as u32)) && !((b[0] as u32) < (a[0] as u32)) && !((b[0] as u32)
            < (c[0] as u32)) && !((c[0] as u32) < (b[0] as u32)) {
            lemma_lex_le_transitive(a.skip(1), b.skip(1), c.skip(1));
        }
    }
}

/// The strict order is the complement of the flipped non-strict order.
pub proof fn lemma_lex_lt_iff_not_le(a: Seq<char>, b: Seq<char>)
    ensures
        lex_lt(a, b) <==> !lex_le(b, a),
    decreases a.len(),
{
    if a.len() != 0 && b.len() != 0 && !((a[0] as u32) < (b[0] as u32)) && !((b[0] as u32)
        < (a[0] as u32)) {
        lemma_lex_lt_iff_not_le(a.skip(1), b.skip(1));
    }
}

/// Strict order implies non-strict order.
pub proof fn lemma_lex_lt_implies_le(a: Seq<char>, b: Seq<char>)
    requires
        lex_lt(a, b),
    ensures
        lex_le(a, b),
{
    lemma_lex_lt_iff_not_le(a, b);
    lemma_lex_le_total(a, b);
}

/// The strings are in non-strict lexicographic order.
pub open spec fn sorted_strs(v: Seq<String>) -> bool {
    forall|i: int, j: int| 0 <= i <= j < v.len() ==> lex_le(v[i]@, v[j]@)
}

/// The position before the first string greater than `x`, where inserting `x`
/// keeps a sorted vector sorted and lands after any equal strings.
pub open spec fn insert_pos(v: Seq<String>, x: Seq<char>) -> int
    decreases v.len(),
{
    if v.len() == 0 {
        0
    } else if lex_lt(x, v[0]@) {
        0
    } else {
        1 + insert_pos(v.skip(1), x)
    }
}

/// What `insert_pos` finds: in-bounds, nothing greater before it, greater at it.
pub proof fn lemma_insert_pos_props(v: Seq<String>, x: Seq<char>)
    ensures
        0 <= insert_pos(v, x) <= v.len(),
        forall|k: int| 0 <= k < insert_pos(v, x) ==> !lex_lt(x, v[k]@),
        insert_pos(v, x) < v.len() ==> lex_lt(x, v[insert_pos(v, x)]@),
    decreases v.len(),
{
    if v.len() > 0 && !lex_lt(x, v[0]@) {
        lemma_insert_pos_props(v.skip(1), x);
        assert(forall|k: int| 1 <= k < v.len() ==> v[k] == v.skip(1)[k - 1]);
    }
}

/// Inserting at the found position keeps the vector sorted.
pub proof fn lemma_insert_sorted(v: Seq<String>, x: String)
    requires
        sorted_strs(v),
    ensures
        sorted_strs(v.insert(insert_pos(v, x@), x)),
{
    lemma_insert_pos_props(v, x@);
    let p = insert_pos(v, x@);
    let w = v.insert(p, x);
    assert forall|i: int, j: int| 0 <= i <= j < w.len() implies lex_le(w[i]@, w[j]@) by {
        if i == j {
            lemma_lex_le_total(w[i]@, w[i]@);
        } else if j < p {
            assert(w[i] == v[i] && w[j] == v[j]);
        } else if i > p {
            assert(w[i] == v[i - 1] && w[j] == v[j - 1]);
        } else if i < p && j == p {
            lemma_lex_lt_iff_not_le(x@, v[i]@);
        } else if i < p && j > p {
            assert(w[i] == v[i] && w[j] == v[j - 1]);
        } else if i == p && j > p {
            if p < v.len() {
                lemma_lex_lt_implies_le(x@, v[p]@);
                lemma_lex_le_transitive(x@, v[p]@, v[j - 1]@);
            }
        }
    }
}

/// Inserts `x` into a sorted vector of strings, after any equal strings.
pub fn insert_str_sorted(v: &mut Vec<String>, x: String)
    ensures
        final(v)@ == old(v)@.insert(insert_pos(old(v)@, x@), x),
{
    let n = v.len();
    let mut i: usize = 0;
    assert(v@.skip(0) =~= v@);
    loop
        invariant
            n == v@.len(),
            i <= n,
            insert_pos(v@, x@) == i + insert_pos(v@.skip(i as int), x@),
        ensures
            0 <= i <= n,
            insert_pos(v@, x@) == i,
        decreases n - i,
    {
        proof {
            lemma_insert_pos_props(v@.skip(i as int), x@);
        }
        if i == n {
            assert(v@.skip(i as int).len() == 0);
            break;
        }
        if str_lex_lt(x.as_str(), v[i].as_str()) {
            assert(v@.skip(i as int)[0] == v@[i as int]);
            break;
        }
        assert(v@.skip(i as int)[0] == v@[i as int]);
        assert(v@.skip(i as int).skip(1) =~= v@.skip(i + 1));
        i = i + 1;
    }
    v.insert(i, x);
}

/// A vector of strings sorted by successive ordered insertion.
pub open spec fn sort_strs_spec(v: Seq<String>) -> Seq<String>
    decreases v.len(),
{
    if v.len() == 0 {
        Seq::empty()
    } else {
        let prev = sort_strs_spec(v.drop_last());
        prev.insert(insert_pos(prev, v.last()@), v.last())
    }
}

/// The sorted vector is indeed sorted and holds the same strings.
pub proof fn lemma_sort_strs_ensures(v: Seq<String>)
    ensures
        sorted_strs(sort_strs_spec(v)),
        sort_strs_spec(v).to_multiset() == v.to_multiset(),
        sort_strs_spec(v).len() == v.len(),
    decreases v.len(),
{
    broadcast use vstd::seq_lib::group_to_multiset_ensures;

    if v.len() == 0 {
        assert(sort_strs_spec(v).to_multiset() =~= v.to_multiset());
    } else {
        lemma_sort_strs_ensures(v.drop_last());
        let prev = sort_strs_spec(v.drop_last());
        let p = insert_pos(prev, v.last()@);
        lemma_insert_pos_props(prev, v.last()@);
        lemma_insert_sorted(prev, v.last());
        vstd::seq_lib::to_multiset_insert(prev, p, v.last());
        assert(v =~= v.drop_last().push(v.last()));
        assert(v.to_multiset() == v.drop_last().push(v.last()).to_multiset());
    }
}

/// Sorts a vector of strings lexicographically.
pub fn sort_strings(v: &Vec<String>) -> (r: Vec<String>)
    ensures
        r@ == sort_strs_spec(v@),
{
    let n = v.len();
    let mut out: Vec<String> = Vec::new();
    for i in 0..n
        invariant
            n == v@.len(),
            out@ == sort_strs_spec(v@.take(i as int)),
    {
        let x = v[i].clone();
        insert_str_sorted(&mut out, x);
        assert(v@.take(i + 1).drop_last() =~= v@.take(i as int));
    }
    assert(v@.take(n as int) =~= v@);
    out
}

/// Decimal digit characters of `n`, most significant first.
pub open spec fn dec_spec(n: nat) -> Seq<char>
    decreases n,
{
    if n < 10 {
        seq![((48 + n) as u8) as char]
    } else {
        dec_spec(n / 10).push(((48 + n % 10) as u8) as char)
    }
}

/// Leading occurrences of `c` removed.
pub open spec fn trim_start_spec(s: Seq<char>, c: char) -> Seq<char>
    decreases s.len(),
{
    if s.len() > 0 && s[0] == c {
        trim_start_spec(s.skip(1), c)
    } else {
        s
    }
}

/// Trailing occurrences of the pattern `p` removed, as `str::trim_end_matches` does.
pub open spec fn trim_end_spec(s: Seq<char>, p: Seq<char>) -> Seq<char>
    decreases s.len(),
{
    if p.len() > 0 && s.len() >= p.len() && s.subrange(s.len() - p.len(), s.len() as int) == p {
        trim_end_spec(s.take(s.len() - p.len()), p)
    } else {
        s
    }
}

/// Every non-overlapping occurrence of `p` replaced by `r`, scanning left to right.
pub open spec fn replace_spec(s: Seq<char>, p: Seq<char>, r: Seq<char>) -> Seq<char>
    decreases s.len(),
{
    if s.len() == 0 {
        Seq::empty()
    } else if p.len() > 0 && s.len() >= p.len() && s.take(p.len() as int) == p {
        r + replace_spec(s.skip(p.len() as int), p, r)
    } else {
        seq![s[0]] + replace_spec(s.skip(1), p, r)
    }
}

/// The groups of `s` between occurrences of the separator `c`;
/// an empty input yields one empty group.
pub open spec fn split_spec(s: Seq<char>, c: char) -> Seq<Seq<char>>
    decreases s.len(),
{
    if s.len() == 0 {
        seq![Seq::empty()]
    } else if s[0] == c {
        seq![Seq::<char>::empty()] + split_spec(s.skip(1), c)
    } else {
        let r = split_spec(s.skip(1), c);
        seq![seq![s[0]] + r[0]] + r.skip(1)
    }
}

/// Splitting yields at least one group.
pub proof fn lemma_split_nonempty(s: Seq<char>, c: char)
    ensures
        split_spec(s, c).len() >= 1,
    decreases s.len(),
{
    if s.len() > 0 {
        lemma_split_nonempty(s.skip(1), c);
    }
}

/// How one appended character extends a split.
pub proof fn lemma_split_push(s: Seq<char>, x: char, c: char)
    ensures
        split_spec(s.push(x), c) == if x == c {
            split_spec(s, c).push(Seq::<char>::empty())
        } else {
            (split_spec(s, c).update(
                split_spec(s, c).len() - 1,
                split_spec(s, c).last().push(x),
            ))
        },
    decreases s.len(),
{
    lemma_split_nonempty(s, c);
    if s.len() == 0 {
        assert(s.push(x) =~= seq![x]);
        assert(s =~= Seq::<char>::empty());
        assert(s.push(x).skip(1) =~= Seq::<char>::empty());
        assert(split_spec(Seq::<char>::empty(), c) == seq![Seq::<char>::empty()]);
        if x == c {
            assert(split_spec(s.push(x), c) =~~= split_spec(s, c).push(Seq::<char>::empty()));
        } else {
            assert(split_spec(s.push(x), c) =~~= split_spec(s, c).update(
                0,
                split_spec(s, c).last().push(x),
            ));
        }
    } else {
        lemma_split_push(s.skip(1), x, c);
        lemma_split_nonempty(s.skip(1), c);
        assert(s.push(x).skip(1) =~= s.skip(1).push(x));
        let r = split_spec(s.skip(1), c);
        if s[0] == c {
            if x == c {
                assert(split_spec(s.push(x), c) =~~= split_spec(s, c).push(Seq::<char>::empty()));
            } else {
                assert(split_spec(s.push(x), c) =~~= split_spec(s, c).update(
                    split_spec(s, c).len() - 1,
                    split_spec(s, c).last().push(x),
                ));
            }
        } else {
            if x == c {
                assert(split_spec(s.push(x), c) =~~= split_spec(s, c).push(Seq::<char>::empty()));
            } else {
                let rp = split_spec(s.skip(1).push(x), c);
                if r.len() == 1 {
                    assert(split_spec(s.push(x), c) =~~= split_spec(s, c).update(
                        split_spec(s, c).len() - 1,
                        split_spec(s, c).last().push(x),
                    ));
                } else {
                    assert(split_spec(s.push(x), c) =~~= split_spec(s, c).update(
                        split_spec(s, c).len() - 1,
                        split_spec(s, c).last().push(x),
                    ));
                }
            }
        }
    }
}

/// The given components joined with single spaces, as `[..].join(" ")` does.
pub open spec fn join_sp(parts: Seq<Seq<char>>) -> Seq<char>
    decreases parts.len(),
{
    if parts.len() == 0 {
        Seq::empty()
    } else if parts.len() == 1 {
        parts[0]
    } else {
        join_sp(parts.drop_last()) + seq![' '] + parts.last()
    }
}

/// The given components joined with the separator `c` between them.
pub open spec fn join_ch(parts: Seq<Seq<char>>, c: char) -> Seq<char>
    decreases parts.len(),
{
    if parts.len() == 0 {
        Seq::empty()
    } else if parts.len() == 1 {
        parts[0]
    } else {
        join_ch(parts.drop_last(), c) + seq![c] + parts.last()
    }
}

/// The characters of a string slice, in order.
pub fn chars_of_str(s: &str) -> (r: Vec<char>)
    ensures
        r@ == s@,
{
    let n = s.unicode_len();
    let mut out: Vec<char> = Vec::new();
    for i in 0..n
        invariant
            n == s@.len(),
            out@ == s@.take(i as int),
    {
        out.push(s.get_char(i));
        assert(out@ =~= s@.take(i + 1));
    }
    assert(out@ =~= s@);
    out
}

/// Builds a `String` from the given characters.
///
/// Relies on `String`'s `FromIterator` implementation: collecting characters
/// yields the string of exactly those characters in order.
#[verifier::external_body]
pub fn chars_to_string(v: &Vec<char>) -> (r: String)
    ensures
        r@ == v@,
{
    v.iter().collect()
}

/// Appends every character of `s` to `out`.
pub fn push_all(out: &mut Vec<char>, s: &Vec<char>)
    ensures
        final(out)@ == old(out)@ + s@,
{
    let n = s.len();
    for i in 0..n
        invariant
            n == s@.len(),
            out@ == old(out)@ + s@.take(i as int),
    {
        out.push(s[i]);
        assert(out@ =~= old(out)@ + s@.take(i + 1));
    }
    assert(out@ =~= old(out)@ + s@);
}

/// Appends every character of the string slice `s` to `out`.
pub fn push_str_chars(out: &mut Vec<char>, s: &str)
    ensures
        final(out)@ == old(out)@ + s@,
{
    let n = s.unicode_len();
    for i in 0..n
        invariant
            n == s@.len(),
            out@ == old(out)@ + s@.take(i as int),
    {
        out.push(s.get_char(i));
        assert(out@ =~= old(out)@ + s@.take(i + 1));
    }
    assert(out@ =~= old(out)@ + s@);
}

/// Appends the decimal digits of `n` to `out`.
pub fn push_dec_u64(out: &mut Vec<char>, n: u64)
    ensures
        final(out)@ == old(out)@ + dec_spec(n as nat),
    decreases n,
{
    if n >= 10 {
        push_dec_u64(out, n / 10);
    }
    let d = n % 10;
    out.push(((48 + d) as u8) as char);
}

/// The characters of `s`, ASCII lower-cased.
pub fn lower_chars(s: &Vec<char>) -> (r: Vec<char>)
    ensures
        r@ == lower(s@),
{
    let n = s.len();
    let mut out: Vec<char> = Vec::new();
    for i in 0..n
        invariant
            n == s@.len(),
            out@ == lower(s@.take(i as int)),
    {
        let c = s[i];
        let u = c as u32;
        if 65 <= u && u <= 90 {
            out.push(((u + 32) as u8) as char);
        } else {
            out.push(c);
        }
        assert(out@ =~= lower(s@.take(i + 1)));
    }
    assert(s@.take(n as int) =~= s@);
    out
}

/// Whether the needle matches inside the haystack at position `i`.
pub fn match_at_exec(h: &Vec<char>, n: &Vec<char>, i: usize) -> (r: bool)
    requires
        i + n@.len() <= h@.len(),
    ensures
        r == match_at(h@, n@, i as int),
{
    let m = n.len();
    let hl = h.len();
    for j in 0..m
        invariant
            m == n@.len(),
            hl == h@.len(),
            i + m <= hl,
            forall|k: int| 0 <= k < j ==> h@[i + k] == n@[k],
    {
        if h[i + j] != n[j] {
            assert(h@.subrange(i as int, i + n@.len()) != n@) by {
                assert(h@.subrange(i as int, i + n@.len())[j as int] != n@[j as int]);
            }
            return false;
        }
    }
    assert(h@.subrange(i as int, i + n@.len()) =~= n@);
    true
}

/// Whether the needle occurs anywhere in the haystack.
pub fn contains_chars(h: &Vec<char>, n: &Vec<char>) -> (r: bool)
    ensures
        r == contains_seq(h@, n@),
{
    let hl = h.len();
    let nl = n.len();
    if nl > hl {
        assert(!contains_seq(h@, n@));
        return false;
    }
    let bound = hl - nl;
    let mut i: usize = 0;
    while i <= bound
        invariant
            nl == n@.len(),
            hl == h@.len(),
            nl <= hl,
            i <= bound,
            bound == hl - nl,
            forall|k: int| 0 <= k < i ==> !match_at(h@, n@, k),
        decreases bound - i,
    {
        if match_at_exec(h, n, i) {
            return true;
        }
        if i == bound {
            assert(forall|k: int| match_at(h@, n@, k) ==> 0 <= k <= bound);
            return false;
        }
        i = i + 1;
    }
    assert(forall|k: int| match_at(h@, n@, k) ==> 0 <= k <= bound);
    false
}

/// Strict lexicographic comparison of two string slices.
pub fn str_lex_lt(a: &str, b: &str) -> (r: bool)
    ensures
        r == lex_lt(a@, b@),
{
    let al = a.unicode_len();
    let bl = b.unicode_len();
    let mut i: usize = 0;
    assert(a@.skip(0) =~= a@);
    assert(b@.skip(0) =~= b@);
    loop
        invariant
            al == a@.len(),
            bl == b@.len(),
            i <= al,
            i <= bl,
            lex_lt(a@, b@) == lex_lt(a@.skip(i as int), b@.skip(i as int)),
        decreases al - i,
    {
        if i == bl {
            assert(b@.skip(i as int).len() == 0);
            return false;
        }
        if i == al {
            assert(a@.skip(i as int).len() == 0);
            return true;
        }
        let ca = a.get_char(i) as u32;
        let cb = b.get_char(i) as u32;
        if ca < cb {
            return true;
        }
        if cb < ca {
            return false;
        }
        assert(a@.skip(i as int).skip(1) =~= a@.skip(i + 1));
        assert(b@.skip(i as int).skip(1) =~= b@.skip(i + 1));
        i = i + 1;
    }
}

/// Whether a string slice and a character vector hold the same characters.
pub fn str_eq_chars(a: &str, b: &Vec<char>) -> (r: bool)
    ensures
        r == (a@ == b@),
{
    let n = a.unicode_len();
    if n != b.len() {
        return false;
    }
    for i in 0..n
        invariant
            n == a@.len(),
            n == b@.len(),
            forall|k: int| 0 <= k < i ==> a@[k] == b@[k],
    {
        if a.get_char(i) != b[i] {
            return false;
        }
    }
    assert(a@ =~= b@);
    true
}

/// A copy of `s[from..to]`.
pub fn sub_chars(s: &Vec<char>, from: usize, to: usize) -> (r: Vec<char>)
    requires
        from <= to <= s@.len(),
    ensures
        r@ == s@.subrange(from as int, to as int),
{
    let mut out: Vec<char> = Vec::new();
    let mut i = from;
    while i < to
        invariant
            from <= i <= to <= s@.len(),
            out@ == s@.subrange(from as int, i as int),
        decreases to - i,
    {
        out.push(s[i]);
        assert(out@ =~= s@.subrange(from as int, i + 1));
        i = i + 1;
    }
    out
}

/// Leading occurrences of `c` removed.
pub fn trim_start_char(s: &Vec<char>, c: char) -> (r: Vec<char>)
    ensures
        r@ == trim_start_spec(s@, c),
{
    let n = s.len();
    let mut i: usize = 0;
    assert(s@.skip(0) =~= s@);
    while i < n && s[i] == c
        invariant
            n == s@.len(),
            i <= n,
            trim_start_spec(s@, c) == trim_start_spec(s@.skip(i as int), c),
        decreases n - i,
    {
        assert(s@.skip(i as int).skip(1) =~= s@.skip(i + 1));
        i = i + 1;
    }
    assert(s@.skip(i as int) =~= s@.subrange(i as int, n as int));
    sub_chars(s, i, n)
}

/// Trailing occurrences of the pattern removed.
pub fn trim_end_pat(s: &Vec<char>, p: &Vec<char>) -> (r: Vec<char>)
    ensures
        r@ == trim_end_spec(s@, p@),
{
    let pl = p.len();
    let mut end = s.len();
    assert(s@.take(end as int) =~= s@);
    if pl == 0 {
        return sub_chars(s, 0, end);
    }
    loop
        invariant
            pl == p@.len(),
            pl > 0,
            end <= s@.len(),
            trim_end_spec(s@, p@) == trim_end_spec(s@.take(end as int), p@),
        ensures
            end <= s@.len(),
            trim_end_spec(s@, p@) == trim_end_spec(s@.take(end as int), p@),
            !(end >= pl && s@.take(end as int).subrange(end - pl, end as int) == p@),
        decreases end,
    {
        if end < pl {
            break;
        }
        let m = match_at_exec(s, p, end - pl);
        proof {
            assert(s@.take(end as int).subrange(end - pl, end as int) =~= s@.subrange(
                end - pl,
                end as int,
            ));
        }
        if !m {
            break;
        }
        assert(s@.take(end as int).take(end - pl) =~= s@.take(end - pl));
        end = end - pl;
    }
    assert(trim_end_spec(s@.take(end as int), p@) == s@.take(end as int));
    assert(s@.take(end as int) =~= s@.subrange(0, end as int));
    sub_chars(s, 0, end)
}

/// Every occurrence of `p` replaced by `r`, scanning left to right.
pub fn replace_pat(s: &Vec<char>, p: &Vec<char>, r: &Vec<char>) -> (res: Vec<char>)
    requires
        p@.len() > 0,
    ensures
        res@ == replace_spec(s@, p@, r@),
{
    let n = s.len();
    let pl = p.len();
    let mut out: Vec<char> = Vec::new();
    let mut i: usize = 0;
    assert(s@.skip(0) =~= s@);
    while i < n
        invariant
            n == s@.len(),
            pl == p@.len(),
            pl > 0,
            i <= n,
            replace_spec(s@, p@, r@) == out@ + replace_spec(s@.skip(i as int), p@, r@),
        decreases n - i,
    {
        let ghost rest = s@.skip(i as int);
        if pl <= n - i && match_at_exec(s, p, i) {
            assert(rest.take(pl as int) =~= s@.subrange(i as int, i + pl));
            push_all(&mut out, r);
            assert(rest.skip(pl as int) =~= s@.skip(i + pl));
            i = i + pl;
        } else {
            proof {
                if pl <= n - i {
                    assert(rest.take(pl as int) =~= s@.subrange(i as int, i + pl));
                }
                assert(seq![rest[0]] =~= seq![s@[i as int]]);
            }
            out.push(s[i]);
            assert(rest.skip(1) =~= s@.skip(i + 1));
            i = i + 1;
        }
    }
    assert(s@.skip(n as int).len() == 0);
    assert(out@ =~= out@ + replace_spec(s@.skip(n as int), p@, r@));
    out
}

/// The groups of `s` between occurrences of the separator `c`.
pub fn split_char(s: &Vec<char>, c: char) -> (r: Vec<Vec<char>>)
    ensures
        r.deep_view() == split_spec(s@, c),
        r@.len() >= 1,
{
    let n = s.len();
    let mut out: Vec<Vec<char>> = Vec::new();
    let mut cur: Vec<char> = Vec::new();
    for i in 0..n
        invariant
            n == s@.len(),
            split_spec(s@.take(i as int), c) == out.deep_view().push(cur@),
    {
        proof {
            lemma_split_push(s@.take(i as int), s@[i as int], c);
            assert(s@.take(i as int).push(s@[i as int]) =~= s@.take(i + 1));
        }
        if s[i] == c {
            out.push(cur);
            cur = Vec::new();
            assert(split_spec(s@.take(i + 1), c) =~~= out.deep_view().push(cur@));
        } else {
            cur.push(s[i]);
            assert(split_spec(s@.take(i + 1), c) =~~= out.deep_view().push(cur@));
        }
    }
    assert(s@.take(n as int) =~= s@);
    out.push(cur);
    assert(out.deep_view() =~~= split_spec(s@, c));
    out
}

/// The strings joined with single spaces.
pub fn join_space(v: &Vec<String>) -> (r: Vec<char>)
    ensures
        r@ == join_sp(v.deep_view()),
{
    let n = v.len();
    let mut out: Vec<char> = Vec::new();
    for i in 0..n
        invariant
            n == v@.len(),
            out@ == join_sp(v.deep_view().take(i as int)),
    {
        if i > 0 {
            out.push(' ');
        }
        push_str_chars(&mut out, v[i].as_str());
        proof {
            let parts = v.deep_view();
            assert(parts.take(i + 1).drop_last() =~= parts.take(i as int));
            assert(parts.take(i + 1).last() == parts[i as int]);
            if i == 0 {
                assert(out@ =~= join_sp(parts.take(i + 1)));
            } else {
                assert(out@ =~= join_sp(parts.take(i + 1)));
            }
        }
    }
    assert(v.deep_view().take(n as int) =~= v.deep_view());
    out
}

/// The strings joined with the separator character between them.
pub fn join_with(v: &Vec<String>, c: char) -> (r: Vec<char>)
    ensures
        r@ == join_ch(v.deep_view(), c),
{
    let n = v.len();
    let mut out: Vec<char> = Vec::new();
    for i in 0..n
        invariant
            n == v@.len(),
            out@ == join_ch(v.deep_view().take(i as int), c),
    {
        if i > 0 {
            out.push(c);
        }
        push_str_chars(&mut out, v[i].as_str());
        proof {
            let parts = v.deep_view();
            assert(parts.take(i + 1).drop_last() =~= parts.take(i as int));
            assert(parts.take(i + 1).last() == parts[i as int]);
            assert(out@ =~= join_ch(parts.take(i + 1), c));
        }
    }
    assert(v.deep_view().take(n as int) =~= v.deep_view());
    out
}

} // verus!
