//! A verified model of textual network addresses.
//!
//! Address sort keys are parsed straight from the display strings: dotted
//! decimal for the 32-bit family, colon-separated hexadecimal groups with one
//! optional `::` compression for the 128-bit family.  Addresses of the smaller
//! family order before the larger one; two strings that both fail to parse
//! fall back to lexicographic comparison.

use vstd::prelude::*;

use crate::text::{lex_le, split_spec};
use crate::text::{split_char, sub_chars};

verus! {

/// A decimal digit character.
pub open spec fn is_dec_digit(c: char) -> bool {
    48 <= c as u32 && c as u32 <= 57
}

/// The value of a decimal digit character.
pub open spec fn dec_digit_val(c: char) -> int {
    c as u32 - 48
}

/// A hexadecimal digit character, either case.
pub open spec fn is_hex_digit(c: char) -> bool {
    is_dec_digit(c) || (97 <= c as u32 && c as u32 <= 102) || (65 <= c as u32 && c as u32 <= 70)
}

/// The value of a hexadecimal digit character.
pub open spec fn hex_digit_val(c: char) -> int {
    if is_dec_digit(c) {
        dec_digit_val(c)
    } else if 97 <= c as u32 {
        c as u32 - 87
    } else {
        c as u32 - 55
    }
}

/// The value of a sequence of decimal digits, most significant first.
pub open spec fn dec_val(g: Seq<char>) -> int
    decreases g.len(),
{
    if g.len() == 0 {
        0
    } else {
        dec_val(g.drop_last()) * 10 + dec_digit_val(g.last())
    }
}

/// The value of a sequence of hexadecimal digits, most significant first.
pub open spec fn hex_val(g: Seq<char>) -> int
    decreases g.len(),
{
    if g.len() == 0 {
        0
    } else {
        hex_val(g.drop_last()) * 16 + hex_digit_val(g.last())
    }
}

/// A valid dotted-decimal octet: one to three decimal digits with no
/// leading zero, at most 255.
pub open spec fn octet_ok(g: Seq<char>) -> bool {
    1 <= g.len() <= 3 && (forall|i: int| 0 <= i < g.len() ==> is_dec_digit(g[i])) && dec_val(g)
        <= 255 && (g.len() > 1 ==> g[0] != '0')
}

/// A valid 16-bit group: one to four hexadecimal digits.
pub open spec fn h16_ok(g: Seq<char>) -> bool {
    1 <= g.len() <= 4 && (forall|i: int| 0 <= i < g.len() ==> is_hex_digit(g[i]))
}

/// The 32-bit value of a dotted-decimal address, if the string is one.
pub open spec fn parse_v4(s: Seq<char>) -> Option<int> {
    let gs = split_spec(s, '.');
    if gs.len() == 4 && octet_ok(gs[0]) && octet_ok(gs[1]) && octet_ok(gs[2]) && octet_ok(gs[3]) {
        Some(((dec_val(gs[0]) * 256 + dec_val(gs[1])) * 256 + dec_val(gs[2])) * 256 + dec_val(
            gs[3],
        ))
    } else {
        None
    }
}

/// The first position of a `::` in `s`, if any.
pub open spec fn find_dc(s: Seq<char>) -> Option<int>
    decreases s.len(),
{
    if s.len() < 2 {
        None
    } else if s[0] == ':' && s[1] == ':' {
        Some(0)
    } else {
        match find_dc(s.skip(1)) {
            Some(i) => Some(i + 1),
            None => None,
        }
    }
}

/// Every group is a valid 16-bit group.
pub open spec fn groups16_ok(gs: Seq<Seq<char>>) -> bool {
    forall|i: int| 0 <= i < gs.len() ==> h16_ok(#[trigger] gs[i])
}

/// The value of a run of 16-bit groups, most significant first.
pub open spec fn groups_val(gs: Seq<Seq<char>>) -> int
    decreases gs.len(),
{
    if gs.len() == 0 {
        0
    } else {
        groups_val(gs.drop_last()) * 0x10000 + hex_val(gs.last())
    }
}

/// Sixteen to the power `k`.
pub open spec fn pow16(k: nat) -> int
    decreases k,
{
    if k == 0 {
        1
    } else {
        0x10000 * pow16((k - 1) as nat)
    }
}

/// The groups on one side of a `::`, with no groups at all for an empty side.
pub open spec fn side_groups(t: Seq<char>) -> Seq<Seq<char>> {
    if t.len() == 0 {
        Seq::empty()
    } else {
        split_spec(t, ':')
    }
}

/// The 16-bit group count and value of a trailing group run, which may end
/// with an embedded dotted-decimal address worth two groups.
pub open spec fn tail_parse(gs: Seq<Seq<char>>) -> Option<(int, int)> {
    if groups16_ok(gs) {
        Some((gs.len() as int, groups_val(gs)))
    } else if 1 <= gs.len() <= 7 && groups16_ok(gs.drop_last()) && parse_v4(gs.last()) is Some {
        Some(
            (
                gs.len() as int + 1,
                groups_val(gs.drop_last()) * 0x100000000 + parse_v4(gs.last())->Some_0,
            ),
        )
    } else {
        None
    }
}

/// The 128-bit value of a colon-hexadecimal address, if the string is one:
/// eight 16-bit groups in all, one `::` standing for the missing ones, and
/// optionally an embedded dotted-decimal address as the final two groups.
pub open spec fn parse_v6(s: Seq<char>) -> Option<int> {
    match find_dc(s) {
        None => {
            let gs = split_spec(s, ':');
            match tail_parse(gs) {
                Some(cv) => {
                    if cv.0 == 8 {
                        Some(cv.1)
                    } else {
                        None
                    }
                },
                None => None,
            }
        },
        Some(i) => {
            let hg = side_groups(s.take(i));
            let tg = side_groups(s.skip(i + 2));
            if groups16_ok(hg) {
                match tail_parse(tg) {
                    Some(cv) => {
                        if hg.len() + cv.0 <= 7 {
                            Some(groups_val(hg) * pow16((8 - hg.len()) as nat) + cv.1)
                        } else {
                            None
                        }
                    },
                    None => None,
                }
            } else {
                None
            }
        },
    }
}

/// The sort key of an address string: the family (4 before 6) and the numeric
/// value, or nothing when the string is no address of either family.
pub open spec fn addr_key(s: Seq<char>) -> Option<(int, int)> {
    if parse_v4(s) is Some {
        Some((4int, parse_v4(s)->Some_0))
    } else if parse_v6(s) is Some {
        Some((6int, parse_v6(s)->Some_0))
    } else {
        None
    }
}

/// A run of valid groups is bounded by sixteen to the power of its length.
proof fn lemma_groups_val_bound(gs: Seq<Seq<char>>)
    requires
        groups16_ok(gs),
    ensures
        0 <= groups_val(gs) < pow16(gs.len()),
    decreases gs.len(),
{
    if gs.len() > 0 {
        assert(groups16_ok(gs.drop_last()));
        lemma_groups_val_bound(gs.drop_last());
        assert(0 <= hex_val(gs.last()) < 0x10000) by {
            lemma_hex_val_bound(gs.last());
        }
        let prev = groups_val(gs.drop_last());
        let bound = pow16((gs.len() - 1) as nat);
        assert(gs.drop_last().len() == (gs.len() - 1) as nat);
        assert(prev < bound);
        assert(prev * 0x10000 <= (bound - 1) * 0x10000) by (nonlinear_arith)
            requires
                prev <= bound - 1,
        ;
        assert(pow16(gs.len()) == 0x10000 * bound);
        assert(groups_val(gs) == prev * 0x10000 + hex_val(gs.last()));
        assert(groups_val(gs) < bound * 0x10000);
    }
}

/// A valid 16-bit group's value fits in sixteen bits.
proof fn lemma_hex_val_bound(g: Seq<char>)
    requires
        h16_ok(g),
    ensures
        0 <= hex_val(g) < 0x10000,
{
    lemma_hex_val_digits(g);
}

proof fn lemma_hex_val_digits(g: Seq<char>)
    requires
        forall|i: int| 0 <= i < g.len() ==> is_hex_digit(g[i]),
        g.len() <= 4,
    ensures
        0 <= hex_val(g) < if g.len() == 0 {
            1int
        } else if g.len() == 1 {
            16int
        } else if g.len() == 2 {
            256int
        } else if g.len() == 3 {
            4096int
        } else {
            65536int
        },
    decreases g.len(),
{
    if g.len() > 0 {
        assert(forall|i: int|
            0 <= i < g.drop_last().len() ==> is_hex_digit(#[trigger] g.drop_last()[i]));
        lemma_hex_val_digits(g.drop_last());
    }
}

/// Powers of sixteen grow monotonically.
proof fn lemma_pow16_mono(i: nat, j: nat)
    requires
        i <= j,
    ensures
        0 < pow16(i) <= pow16(j),
    decreases j,
{
    if j > 0 {
        if i == j {
            lemma_pow16_mono((i - 1) as nat, (j - 1) as nat);
        } else {
            lemma_pow16_mono(i, (j - 1) as nat);
        }
    }
}

/// The exec sort key of an address string.
#[derive(Clone, Copy, Debug)]
pub enum IpKey {
    /// A 32-bit dotted-decimal address value.
    V4(u32),
    /// A 128-bit colon-hexadecimal address value.
    V6(u128),
}

/// Decimal digit test and value.
fn dec_digit(c: char) -> (r: Option<u32>)
    ensures
        r is Some <==> is_dec_digit(c),
        r is Some ==> r->Some_0 == dec_digit_val(c),
{
    let u = c as u32;
    if 48 <= u && u <= 57 {
        Some(u - 48)
    } else {
        None
    }
}

/// Hexadecimal digit test and value.
fn hex_digit(c: char) -> (r: Option<u32>)
    ensures
        r is Some <==> is_hex_digit(c),
        r is Some ==> r->Some_0 == hex_digit_val(c),
{
    let u = c as u32;
    if 48 <= u && u <= 57 {
        Some(u - 48)
    } else if 97 <= u && u <= 102 {
        Some(u - 87)
    } else if 65 <= u && u <= 70 {
        Some(u - 55)
    } else {
        None
    }
}

/// Validates a dotted-decimal octet and returns its value.
fn octet_val_exec(g: &Vec<char>) -> (r: Option<u32>)
    ensures
        r is Some <==> octet_ok(g@),
        r is Some ==> r->Some_0 == dec_val(g@),
{
    let n = g.len();
    if n < 1 || n > 3 {
        return None;
    }
    if n > 1 && g[0] == '0' {
        return None;
    }
    let mut acc: u32 = 0;
    for i in 0..n
        invariant
            n == g@.len(),
            1 <= n <= 3,
            forall|k: int| 0 <= k < i ==> is_dec_digit(g@[k]),
            acc == dec_val(g@.take(i as int)),
            acc < 1000,
    {
        match dec_digit(g[i]) {
            Some(d) => {
                proof {
                    assert(g@.take(i + 1).drop_last() =~= g@.take(i as int));
                    assert(dec_val(g@.take(i as int)) < if i == 0 {
                        1int
                    } else if i == 1 {
                        10int
                    } else {
                        100int
                    }) by {
                        lemma_dec_val_digits(g@.take(i as int));
                    }
                }
                acc = acc * 10 + d;
            },
            None => {
                return None;
            },
        }
    }
    assert(g@.take(n as int) =~= g@);
    if acc <= 255 {
        Some(acc)
    } else {
        None
    }
}

proof fn lemma_dec_val_digits(g: Seq<char>)
    requires
        forall|i: int| 0 <= i < g.len() ==> is_dec_digit(g[i]),
        g.len() <= 3,
    ensures
        0 <= dec_val(g) < if g.len() == 0 {
            1int
        } else if g.len() == 1 {
            10int
        } else if g.len() == 2 {
            100int
        } else {
            1000int
        },
    decreases g.len(),
{
    if g.len() > 0 {
        assert(forall|i: int|
            0 <= i < g.drop_last().len() ==> is_dec_digit(#[trigger] g.drop_last()[i]));
        lemma_dec_val_digits(g.drop_last());
    }
}

/// Validates a 16-bit hexadecimal group and returns its value.
fn h16_val_exec(g: &Vec<char>) -> (r: Option<u32>)
    ensures
        r is Some <==> h16_ok(g@),
        r is Some ==> r->Some_0 == hex_val(g@),
{
    let n = g.len();
    if n < 1 || n > 4 {
        return None;
    }
    let mut acc: u32 = 0;
    for i in 0..n
        invariant
            n == g@.len(),
            1 <= n <= 4,
            forall|k: int| 0 <= k < i ==> is_hex_digit(g@[k]),
            acc == hex_val(g@.take(i as int)),
            acc < 0x10000,
    {
        match hex_digit(g[i]) {
            Some(d) => {
                proof {
                    assert(g@.take(i + 1).drop_last() =~= g@.take(i as int));
                    assert(forall|k: int|
                        0 <= k < g@.take(i as int).len() ==> is_hex_digit(
                            #[trigger] g@.take(i as int)[k],
                        ));
                    lemma_hex_val_digits(g@.take(i as int));
                }
                acc = acc * 16 + d;
            },
            None => {
                return None;
            },
        }
    }
    assert(g@.take(n as int) =~= g@);
    Some(acc)
}

/// Parses a dotted-decimal address string.
fn parse_v4_exec(s: &Vec<char>) -> (r: Option<u32>)
    ensures
        match r {
            Some(v) => parse_v4(s@) == Some(v as int),
            None => parse_v4(s@) is None,
        },
{
    let gs = split_char(s, '.');
    let ghost sp = split_spec(s@, '.');
    if gs.len() != 4 {
        return None;
    }
    assert(gs@[0]@ =~= sp[0]);
    assert(gs@[1]@ =~= sp[1]);
    assert(gs@[2]@ =~= sp[2]);
    assert(gs@[3]@ =~= sp[3]);
    let a = match octet_val_exec(&gs[0]) {
        Some(v) => v,
        None => {
            return None;
        },
    };
    let b = match octet_val_exec(&gs[1]) {
        Some(v) => v,
        None => {
            return None;
        },
    };
    let c = match octet_val_exec(&gs[2]) {
        Some(v) => v,
        None => {
            return None;
        },
    };
    let d = match octet_val_exec(&gs[3]) {
        Some(v) => v,
        None => {
            return None;
        },
    };
    Some(((a * 256 + b) * 256 + c) * 256 + d)
}

/// Finds the first `::` in `s`.
fn find_dc_exec(s: &Vec<char>) -> (r: Option<usize>)
    ensures
        match r {
            Some(i) => find_dc(s@) == Some(i as int),
            None => find_dc(s@) is None,
        },
{
    let n = s.len();
    if n < 2 {
        return None;
    }
    for i in 0..n - 1
        invariant
            n == s@.len(),
            n >= 2,
            forall|k: int| 0 <= k < i ==> !(#[trigger] s@[k] == ':' && s@[k + 1] == ':'),
    {
        if s[i] == ':' && s[i + 1] == ':' {
            proof {
                lemma_find_dc_char(s@, i as int);
            }
            return Some(i);
        }
    }
    proof {
        lemma_find_dc_none(s@);
    }
    None
}

/// `find_dc` returns the first position whose pair is `::`.
proof fn lemma_find_dc_char(s: Seq<char>, i: int)
    requires
        0 <= i,
        i + 1 < s.len(),
        s[i] == ':',
        s[i + 1] == ':',
        forall|k: int| 0 <= k < i ==> !(#[trigger] s[k] == ':' && s[k + 1] == ':'),
    ensures
        find_dc(s) == Some(i),
    decreases s.len(),
{
    if i > 0 {
        assert(forall|k: int|
            0 <= k < i - 1 ==> !(#[trigger] s.skip(1)[k] == ':' && s.skip(1)[k + 1] == ':'));
        lemma_find_dc_char(s.skip(1), i - 1);
    }
}

/// When no pair of adjacent colons exists, `find_dc` finds nothing.
proof fn lemma_find_dc_none(s: Seq<char>)
    requires
        forall|k: int| 0 <= k < s.len() - 1 ==> !(#[trigger] s[k] == ':' && s[k + 1] == ':'),
    ensures
        find_dc(s) is None,
    decreases s.len(),
{
    if s.len() >= 2 {
        assert(forall|k: int|
            0 <= k < s.skip(1).len() - 1 ==> !(#[trigger] s.skip(1)[k] == ':' && s.skip(1)[k + 1]
                == ':'));
        lemma_find_dc_none(s.skip(1));
    }
}

/// Validates the groups of one side and returns their values.
fn side_vals(gs: &Vec<Vec<char>>) -> (r: Option<Vec<u32>>)
    ensures
        match r {
            Some(vs) => groups16_ok(gs.deep_view()) && vs@.len() == gs@.len() && forall|i: int|
                0 <= i < vs@.len() ==> vs@[i] == hex_val(gs.deep_view()[i]),
            None => !groups16_ok(gs.deep_view()),
        },
{
    let n = gs.len();
    let mut vs: Vec<u32> = Vec::new();
    for i in 0..n
        invariant
            n == gs@.len(),
            vs@.len() == i,
            forall|k: int| 0 <= k < i ==> h16_ok(gs.deep_view()[k]),
            forall|k: int| 0 <= k < i ==> vs@[k] == hex_val(gs.deep_view()[k]),
    {
        proof {
            assert(gs.deep_view()[i as int] =~= gs@[i as int]@);
        }
        match h16_val_exec(&gs[i]) {
            Some(v) => {
                vs.push(v);
            },
            None => {
                return None;
            },
        }
    }
    Some(vs)
}

/// Folds 16-bit group values into a 128-bit total, given a bound on the count.
fn fold_groups(vs: &Vec<u32>, ghost_groups: Ghost<Seq<Seq<char>>>) -> (r: u128)
    requires
        vs@.len() <= 8,
        ghost_groups@.len() == vs@.len(),
        groups16_ok(ghost_groups@),
        forall|i: int| 0 <= i < vs@.len() ==> vs@[i] == hex_val(ghost_groups@[i]),
    ensures
        r == groups_val(ghost_groups@),
{
    let n = vs.len();
    let mut acc: u128 = 0;
    for i in 0..n
        invariant
            n == vs@.len(),
            n <= 8,
            ghost_groups@.len() == n,
            groups16_ok(ghost_groups@),
            forall|k: int| 0 <= k < n ==> vs@[k] == hex_val(ghost_groups@[k]),
            acc == groups_val(ghost_groups@.take(i as int)),
            acc < pow16(i as nat),
    {
        proof {
            assert(groups16_ok(ghost_groups@.take(i as int)));
            assert(ghost_groups@.take(i + 1).drop_last() =~= ghost_groups@.take(i as int));
            lemma_pow16_mono(i as nat, 7);
            assert(pow16(7) == 0x10000000000000000000000000000 && pow16(8)
                == 0x100000000000000000000000000000000) by {
                reveal_with_fuel(pow16, 9);
            }
            lemma_pow16_mono((i + 1) as nat, 8nat);
            assert(hex_val(ghost_groups@.take(i + 1).last()) < 0x10000) by {
                lemma_hex_val_bound(ghost_groups@[i as int]);
            }
        }
        acc = acc * 0x10000 + (vs[i] as u128);
    }
    assert(ghost_groups@.take(n as int) =~= ghost_groups@);
    acc
}

/// A parsed dotted-decimal value fits in 32 bits.
proof fn lemma_parse_v4_bound(s: Seq<char>)
    ensures
        match parse_v4(s) {
            Some(v) => 0 <= v < 0x100000000,
            None => true,
        },
{
    let gs = split_spec(s, '.');
    if gs.len() == 4 && octet_ok(gs[0]) && octet_ok(gs[1]) && octet_ok(gs[2]) && octet_ok(gs[3]) {
        lemma_dec_val_digits(gs[0]);
        lemma_dec_val_digits(gs[1]);
        lemma_dec_val_digits(gs[2]);
        lemma_dec_val_digits(gs[3]);
    }
}

/// A trailing run's value is bounded by sixteen to the power of its count.
proof fn lemma_tail_parse_bound(gs: Seq<Seq<char>>)
    ensures
        match tail_parse(gs) {
            Some(cv) => gs.len() <= cv.0 <= gs.len() + 1 && 0 <= cv.1 < pow16(cv.0 as nat),
            None => true,
        },
{
    if groups16_ok(gs) {
        lemma_groups_val_bound(gs);
    } else if 1 <= gs.len() <= 7 && groups16_ok(gs.drop_last()) && parse_v4(gs.last()) is Some {
        lemma_groups_val_bound(gs.drop_last());
        lemma_parse_v4_bound(gs.last());
        let gv = groups_val(gs.drop_last());
        let bound = pow16((gs.len() - 1) as nat);
        assert(gv * 0x100000000 <= (bound - 1) * 0x100000000) by (nonlinear_arith)
            requires
                gv <= bound - 1,
        ;
        lemma_pow16_add((gs.len() - 1) as nat, 2nat);
        assert(pow16(2) == 0x100000000) by {
            reveal_with_fuel(pow16, 3);
        }
        assert(pow16((gs.len() + 1) as nat) == bound * 0x100000000) by {
            assert((gs.len() - 1) as nat + 2nat == (gs.len() + 1) as nat);
        }
    }
}

/// Validates a trailing run of groups, which may end with an embedded
/// dotted-decimal address, and returns its group count and value.
#[verifier::rlimit(50)]
fn tail_vals(gs: &Vec<Vec<char>>) -> (r: Option<(usize, u128)>)
    requires
        gs@.len() <= 8,
    ensures
        match r {
            Some(cv) => tail_parse(gs.deep_view()) == Some((cv.0 as int, cv.1 as int)),
            None => tail_parse(gs.deep_view()) is None,
        },
{
    match side_vals(gs) {
        Some(vs) => {
            let v = fold_groups(&vs, Ghost(gs.deep_view()));
            Some((gs.len(), v))
        },
        None => {
            let n = gs.len();
            if n == 0 || n > 7 {
                proof {
                    if n == 0 {
                        assert(groups16_ok(gs.deep_view()));
                    }
                }
                return None;
            }
            let ghost dv = gs.deep_view();
            let ghost head = dv.drop_last();
            proof {
                assert(forall|j: int| 0 <= j < n - 1 ==> #[trigger] head[j] == dv[j]);
            }
            let mut vs: Vec<u32> = Vec::new();
            for k in 0..n - 1
                invariant
                    n == gs@.len(),
                    1 <= n <= 7,
                    dv == gs.deep_view(),
                    head == dv.drop_last(),
                    forall|j: int| 0 <= j < n - 1 ==> #[trigger] head[j] == dv[j],
                    vs@.len() == k,
                    forall|j: int| 0 <= j < k ==> h16_ok(#[trigger] dv[j]),
                    forall|j: int| 0 <= j < k ==> vs@[j] == hex_val(#[trigger] dv[j]),
            {
                proof {
                    assert(dv[k as int] =~= gs@[k as int]@);
                }
                match h16_val_exec(&gs[k]) {
                    Some(v) => {
                        vs.push(v);
                    },
                    None => {
                        proof {
                            assert(!h16_ok(head[k as int]));
                            assert(!groups16_ok(head));
                        }
                        return None;
                    },
                }
            }
            proof {
                assert(dv[n - 1] =~= gs@[n - 1]@);
                assert(groups16_ok(head));
            }
            match parse_v4_exec(&gs[n - 1]) {
                Some(v4) => {
                    let hv = fold_groups(&vs, Ghost(head));
                    proof {
                        lemma_groups_val_bound(head);
                        lemma_pow16_mono((n - 1) as nat, 6nat);
                        assert(pow16(6) == 0x1000000000000000000000000) by {
                            reveal_with_fuel(pow16, 7);
                        }
                        assert(dv.last() == dv[n - 1]);
                    }
                    let value: u128 = hv * 0x100000000 + (v4 as u128);
                    Some((n + 1, value))
                },
                None => {
                    proof {
                        assert(parse_v4(dv.last()) is None);
                    }
                    None
                },
            }
        },
    }
}

/// Parses a colon-hexadecimal address string.
#[verifier::rlimit(100)]
#[verifier::spinoff_prover]
fn parse_v6_exec(s: &Vec<char>) -> (r: Option<u128>)
    ensures
        match r {
            Some(v) => parse_v6(s@) == Some(v as int),
            None => parse_v6(s@) is None,
        },
{
    match find_dc_exec(s) {
        None => {
            let gs = split_char(s, ':');
            if gs.len() > 8 {
                proof {
                    lemma_tail_parse_bound(gs.deep_view());
                }
                return None;
            }
            match tail_vals(&gs) {
                Some(cv) => {
                    if cv.0 == 8 {
                        Some(cv.1)
                    } else {
                        None
                    }
                },
                None => None,
            }
        },
        Some(i) => {
            let n = s.len();
            assert(i + 1 < n) by {
                lemma_find_dc_in_range(s@, i as int);
            }
            let left = sub_chars(s, 0, i);
            let right = sub_chars(s, i + 2, n);
            assert(left@ =~= s@.take(i as int));
            assert(right@ =~= s@.skip(i + 2));
            let hg: Vec<Vec<char>> = if left.len() == 0 {
                Vec::new()
            } else {
                split_char(&left, ':')
            };
            let tg: Vec<Vec<char>> = if right.len() == 0 {
                Vec::new()
            } else {
                split_char(&right, ':')
            };
            assert(hg.deep_view() =~~= side_groups(s@.take(i as int)));
            assert(tg.deep_view() =~~= side_groups(s@.skip(i + 2)));
            let hl = hg.len();
            let tl = tg.len();
            if hl > 7 || tl > 7 {
                proof {
                    lemma_tail_parse_bound(tg.deep_view());
                }
                return None;
            }
            let hv = match side_vals(&hg) {
                Some(vs) => vs,
                None => {
                    return None;
                },
            };
            let high = fold_groups(&hv, Ghost(hg.deep_view()));
            match tail_vals(&tg) {
                None => None,
                Some(cv) => {
                    let c = cv.0;
                    let low = cv.1;
                    proof {
                        lemma_tail_parse_bound(tg.deep_view());
                    }
                    if hl + c > 7 {
                        return None;
                    }
                    proof {
                        let h = groups_val(hg.deep_view());
                        let t = low as int;
                        let m = pow16((8 - hl) as nat);
                        lemma_groups_val_bound(hg.deep_view());
                        lemma_pow16_mono(c as nat, (8 - hl) as nat);
                        assert(pow16(8) == 0x100000000000000000000000000000000) by {
                            reveal_with_fuel(pow16, 9);
                        }
                        lemma_pow16_add(hl as nat, (8 - hl) as nat);
                        assert(h * m + t < pow16(8nat)) by (nonlinear_arith)
                            requires
                                h <= pow16(hl as nat) - 1,
                                0 <= t < m,
                                0 < m,
                                pow16(8nat) == pow16(hl as nat) * m,
                        ;
                    }
                    if hl == 0 {
                        Some(low)
                    } else {
                        let mult: u128 = pow16_exec(8 - hl);
                        Some(high * mult + low)
                    }
                },
            }
        },
    }
}

/// Powers of sixteen compose additively in the exponent.
proof fn lemma_pow16_add(a: nat, b: nat)
    ensures
        pow16(a + b) == pow16(a) * pow16(b),
    decreases a,
{
    if a == 0 {
    } else {
        lemma_pow16_add((a - 1) as nat, b);
        assert(pow16(a + b) == 0x10000 * pow16((a + b - 1) as nat));
        assert(pow16((a - 1) as nat + b) == pow16((a - 1) as nat) * pow16(b));
        assert(0x10000 * (pow16((a - 1) as nat) * pow16(b)) == (0x10000 * pow16((a - 1) as nat))
            * pow16(b)) by {
            broadcast use vstd::arithmetic::mul::lemma_mul_is_associative;

        }
    }
}

/// A found `::` lies inside the string.
proof fn lemma_find_dc_in_range(s: Seq<char>, i: int)
    requires
        find_dc(s) == Some(i),
    ensures
        0 <= i,
        i + 1 < s.len(),
        s[i] == ':',
        s[i + 1] == ':',
    decreases s.len(),
{
    if s.len() >= 2 && !(s[0] == ':' && s[1] == ':') {
        lemma_find_dc_in_range(s.skip(1), i - 1);
    }
}

/// Sixteen to the power `k`, for exponents up to seven.
fn pow16_exec(k: usize) -> (r: u128)
    requires
        k <= 7,
    ensures
        r == pow16(k as nat),
{
    let mut r: u128 = 1;
    let mut j: usize = 0;
    while j < k
        invariant
            j <= k <= 7,
            r == pow16(j as nat),
            r <= 0x10000000000000000000000000000,
        decreases k - j,
    {
        proof {
            lemma_pow16_mono((j + 1) as nat, 7nat);
            assert(pow16(7) == 0x10000000000000000000000000000) by {
                reveal_with_fuel(pow16, 8);
            }
        }
        r = r * 0x10000;
        j = j + 1;
    }
    r
}

/// Parses an address string into its sort key, if it is an address.
pub fn parse_ip(s: &Vec<char>) -> (r: Option<IpKey>)
    ensures
        match r {
            Some(IpKey::V4(v)) => addr_key(s@) == Some((4int, v as int)),
            Some(IpKey::V6(w)) => addr_key(s@) == Some((6int, w as int)),
            None => addr_key(s@) is None,
        },
{
    match parse_v4_exec(s) {
        Some(v) => Some(IpKey::V4(v)),
        None => {
            match parse_v6_exec(s) {
                Some(w) => Some(IpKey::V6(w)),
                None => None,
            }
        },
    }
}

/// Non-strict lexicographic comparison of two character vectors.
pub fn chars_lex_le(a: &Vec<char>, b: &Vec<char>) -> (r: bool)
    ensures
        r == lex_le(a@, b@),
{
    let al = a.len();
    let bl = b.len();
    let mut i: usize = 0;
    assert(a@.skip(0) =~= a@);
    assert(b@.skip(0) =~= b@);
    loop
        invariant
            al == a@.len(),
            bl == b@.len(),
            i <= al,
            i <= bl,
            lex_le(a@, b@) == lex_le(a@.skip(i as int), b@.skip(i as int)),
        decreases al - i,
    {
        if i == al {
            assert(a@.skip(i as int).len() == 0);
            return true;
        }
        if i == bl {
            assert(b@.skip(i as int).len() == 0);
            return false;
        }
        let ca = a[i] as u32;
        let cb = b[i] as u32;
        if ca < cb {
            return true;
        }
        if cb < ca {
            return false;
        }
        assert(a@.skip(i as int).skip(1) =~= a@.skip(i + 1));
        assert(b@.skip(i as int).skip(1) =~= b@.skip(i + 1));
        i = i + 1;
    }
}

} // verus!
