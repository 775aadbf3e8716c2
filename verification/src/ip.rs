//! IP addresses as plain values, and their textual forms.
//!
//! The proxy reads addresses from configuration text and compares them
//! bit-wise, so an address is held as its numeric value: 32 bits for IPv4,
//! 128 for IPv6. The accepted grammar is stated by [`spec_parse_ipv4`] and
//! [`spec_parse_ipv6`]: dotted decimal without leading zeros, and colon-
//! separated hexadecimal groups with at most one `::` standing for one or
//! more zero groups.

use vstd::prelude::*;
use vstd::slice::slice_to_vec;
use vstd::string::StringSliceAdditionalSpecFns;

verus! {

/// An IP address, by family.
#[derive(Debug, Clone, Copy, PartialEq, Eq, Hash, Structural)]
pub enum IpAddr {
    V4(u32),
    V6(u128),
}

/// An ASCII decimal digit.
pub open spec fn is_dec_digit(b: u8) -> bool {
    48 <= b <= 57
}

/// An ASCII hexadecimal digit.
pub open spec fn is_hex_digit(b: u8) -> bool {
    is_dec_digit(b) || (97 <= b <= 102) || (65 <= b <= 70)
}

/// The value of a hexadecimal digit.
pub open spec fn hex_val(b: u8) -> int {
    if is_dec_digit(b) {
        b - 48
    } else if 97 <= b <= 102 {
        b - 87
    } else {
        b - 55
    }
}

/// The value of a string of decimal digits.
pub open spec fn dec_val(s: Seq<u8>) -> int
    decreases s.len(),
{
    if s.len() == 0 {
        0
    } else {
        dec_val(s.drop_last()) * 10 + (s.last() - 48)
    }
}

/// The value of a string of hexadecimal digits.
pub open spec fn hex_string_val(s: Seq<u8>) -> int
    decreases s.len(),
{
    if s.len() == 0 {
        0
    } else {
        hex_string_val(s.drop_last()) * 16 + hex_val(s.last())
    }
}

/// The index of the first `sep` in `s`, or `s.len()` when there is none.
pub open spec fn first_sep(s: Seq<u8>, sep: u8) -> int
    decreases s.len(),
{
    if s.len() == 0 {
        0
    } else if s[0] == sep {
        0
    } else {
        1 + first_sep(s.drop_first(), sep)
    }
}

/// What [`first_sep`] returns: the position of the first separator.
pub proof fn lemma_first_sep(s: Seq<u8>, sep: u8)
    ensures
        0 <= first_sep(s, sep) <= s.len(),
        forall|j: int| 0 <= j < first_sep(s, sep) ==> s[j] != sep,
        first_sep(s, sep) < s.len() ==> s[first_sep(s, sep)] == sep,
    decreases s.len(),
{
    if s.len() > 0 && s[0] != sep {
        lemma_first_sep(s.drop_first(), sep);
        assert(forall|j: int|
            0 <= j < first_sep(s.drop_first(), sep) ==> s.drop_first()[j] != sep);
        assert forall|j: int| 0 <= j < first_sep(s, sep) implies s[j] != sep by {
            if j > 0 {
                assert(s.drop_first()[j - 1] != sep);
            }
        }
    }
}

/// The pieces of `s` between occurrences of `sep`; an empty string is one
/// empty piece.
pub open spec fn spec_split(s: Seq<u8>, sep: u8) -> Seq<Seq<u8>>
    decreases s.len(),
{
    if s.len() == 0 {
        seq![Seq::<u8>::empty()]
    } else if s[0] == sep {
        seq![Seq::<u8>::empty()] + spec_split(s.drop_first(), sep)
    } else {
        let r = spec_split(s.drop_first(), sep);
        seq![seq![s[0]] + r[0]] + r.drop_first()
    }
}

/// A split always yields at least one piece.
pub proof fn lemma_split_len(s: Seq<u8>, sep: u8)
    ensures
        spec_split(s, sep).len() >= 1,
    decreases s.len(),
{
    if s.len() > 0 && s[0] != sep {
        lemma_split_len(s.drop_first(), sep);
    }
}

/// A split taken apart at the first separator: the piece before it, then
/// the split of what follows it.
pub proof fn lemma_split_decompose(s: Seq<u8>, sep: u8, i: int)
    requires
        0 <= i <= s.len(),
        forall|j: int| 0 <= j < i ==> s[j] != sep,
        i < s.len() ==> s[i] == sep,
    ensures
        i == s.len() ==> spec_split(s, sep) == seq![s],
        i < s.len() ==> spec_split(s, sep) == seq![s.subrange(0, i)] + spec_split(
            s.subrange(i + 1, s.len() as int),
            sep,
        ),
    decreases i,
{
    lemma_split_len(s, sep);
    if i == 0 {
        if i == s.len() {
            assert(s =~= Seq::<u8>::empty());
            assert(spec_split(s, sep) =~~= seq![s]);
        } else {
            assert(s[0] == sep);
            assert(s.drop_first() =~= s.subrange(1, s.len() as int));
            assert(s.subrange(0, 0) =~= Seq::<u8>::empty());
            assert(spec_split(s, sep) =~~= seq![s.subrange(0, 0)] + spec_split(
                s.subrange(1, s.len() as int),
                sep,
            ));
        }
    } else {
        assert(s[0] != sep);
        let d = s.drop_first();
        lemma_split_len(d, sep);
        assert(forall|j: int| 0 <= j < i - 1 ==> d[j] != sep);
        assert(i - 1 < d.len() ==> d[i - 1] == sep);
        lemma_split_decompose(d, sep, i - 1);
        let r = spec_split(d, sep);
        if i == s.len() {
            assert(r == seq![d]);
            assert(seq![s[0]] + r[0] =~= s);
            assert(r.drop_first() =~= Seq::<Seq<u8>>::empty());
            assert(spec_split(s, sep) =~~= seq![s]);
        } else {
            assert(r == seq![d.subrange(0, i - 1)] + spec_split(
                d.subrange(i, d.len() as int),
                sep,
            ));
            lemma_split_len(d.subrange(i, d.len() as int), sep);
            assert(r[0] == d.subrange(0, i - 1));
            assert(seq![s[0]] + r[0] =~= s.subrange(0, i));
            assert(d.subrange(i, d.len() as int) =~= s.subrange(i + 1, s.len() as int));
            assert(r.drop_first() =~~= spec_split(s.subrange(i + 1, s.len() as int), sep));
            assert(spec_split(s, sep) =~~= seq![s.subrange(0, i)] + spec_split(
                s.subrange(i + 1, s.len() as int),
                sep,
            ));
        }
    }
}

/// Splits `v` on `sep`.
pub(crate) fn split_bytes(v: &[u8], sep: u8) -> (parts: Vec<Vec<u8>>)
    ensures
        parts.deep_view() == spec_split(v@, sep),
{
    let n = v.len();
    let mut parts: Vec<Vec<u8>> = Vec::new();
    let mut start: usize = 0;
    let mut i: usize = 0;
    proof {
        assert(v@.subrange(0, n as int) =~= v@);
        assert(parts.deep_view() =~~= Seq::<Seq<u8>>::empty());
        assert(spec_split(v@, sep) =~~= parts.deep_view() + spec_split(v@, sep));
    }
    loop
        invariant
            start <= i <= n,
            n == v@.len(),
            forall|j: int| start <= j < i ==> v@[j] != sep,
            spec_split(v@, sep) == parts.deep_view() + spec_split(
                v@.subrange(start as int, n as int),
                sep,
            ),
        decreases n - i,
    {
        let ghost rest = v@.subrange(start as int, n as int);
        let ghost op = parts.deep_view();
        if i == n {
            let piece = slice_to_vec(&v[start..n]);
            parts.push(piece);
            proof {
                lemma_split_decompose(rest, sep, rest.len() as int);
                assert(parts.deep_view() =~~= op + seq![rest]);
                assert(parts.deep_view() =~~= spec_split(v@, sep));
            }
            return parts;
        }
        if v[i] == sep {
            let piece = slice_to_vec(&v[start..i]);
            parts.push(piece);
            proof {
                let fs = i - start;
                assert(rest.len() == n - start);
                assert(forall|j: int| 0 <= j < fs ==> rest[j] == v@[start + j] && rest[j] != sep);
                assert(rest[fs] == v@[i as int]);
                lemma_split_decompose(rest, sep, fs);
                assert(rest.subrange(0, fs) =~= v@.subrange(start as int, i as int));
                assert(rest.subrange(fs + 1, rest.len() as int) =~= v@.subrange(
                    i as int + 1,
                    n as int,
                ));
                assert(spec_split(rest, sep) == seq![v@.subrange(start as int, i as int)]
                    + spec_split(v@.subrange(i as int + 1, n as int), sep));
                assert(parts.deep_view() =~~= op + seq![v@.subrange(start as int, i as int)]);
                assert(spec_split(v@, sep) =~~= parts.deep_view() + spec_split(
                    v@.subrange(i as int + 1, n as int),
                    sep,
                ));
            }
            i = i + 1;
            start = i;
        } else {
            i = i + 1;
        }
    }
}

/// A well-formed decimal octet: one to three digits, no leading zero, at
/// most 255.
pub open spec fn valid_octet(p: Seq<u8>) -> bool {
    &&& 1 <= p.len() <= 3
    &&& (forall|j: int| 0 <= j < p.len() ==> is_dec_digit(#[trigger] p[j]))
    &&& (p.len() > 1 ==> p[0] != 48)
    &&& dec_val(p) <= 255
}

/// Parses one decimal octet.
fn parse_octet(p: &Vec<u8>) -> (r: Option<u8>)
    ensures
        r is Some <==> valid_octet(p@),
        r matches Some(o) ==> o == dec_val(p@),
{
    let n = p.len();
    if n == 0 || n > 3 {
        return None;
    }
    if n > 1 && p[0] == 48 {
        return None;
    }
    let mut val: u32 = 0;
    let mut j: usize = 0;
    while j < n
        invariant
            j <= n,
            n == p@.len(),
            n <= 3,
            forall|t: int| 0 <= t < j ==> is_dec_digit(#[trigger] p@[t]),
            val == dec_val(p@.subrange(0, j as int)),
            j == 0 ==> val == 0,
            j == 1 ==> val <= 9,
            j == 2 ==> val <= 99,
            j == 3 ==> val <= 999,
        decreases n - j,
    {
        let b = p[j];
        if b < 48 || b > 57 {
            return None;
        }
        proof {
            assert(p@.subrange(0, j as int + 1).drop_last() =~= p@.subrange(0, j as int));
            assert(p@.subrange(0, j as int + 1).last() == p@[j as int]);
        }
        val = val * 10 + ((b - 48) as u32);
        j = j + 1;
    }
    proof {
        assert(p@.subrange(0, n as int) =~= p@);
    }
    if val > 255 {
        return None;
    }
    Some(val as u8)
}

/// The dotted-decimal form of an IPv4 address: four octets separated by
/// dots.
pub open spec fn spec_parse_ipv4(s: Seq<u8>) -> Option<u32> {
    let ps = spec_split(s, 46);
    if ps.len() == 4 && valid_octet(ps[0]) && valid_octet(ps[1]) && valid_octet(ps[2])
        && valid_octet(ps[3]) {
        Some(
            (dec_val(ps[0]) * 0x1000000 + dec_val(ps[1]) * 0x10000 + dec_val(ps[2]) * 0x100
                + dec_val(ps[3])) as u32,
        )
    } else {
        None
    }
}

/// Parses the dotted-decimal form of an IPv4 address.
pub fn parse_ipv4_bytes(v: &[u8]) -> (r: Option<u32>)
    ensures
        r == spec_parse_ipv4(v@),
{
    let parts = split_bytes(v, 46);
    proof {
        assert(forall|k: int|
            0 <= k < parts@.len() ==> parts.deep_view()[k] == #[trigger] parts@[k]@);
    }
    if parts.len() != 4 {
        return None;
    }
    let o0 = parse_octet(&parts[0]);
    let o1 = parse_octet(&parts[1]);
    let o2 = parse_octet(&parts[2]);
    let o3 = parse_octet(&parts[3]);
    match (o0, o1, o2, o3) {
        (Some(a), Some(b), Some(c), Some(d)) => {
            let val = (a as u32) * 0x1000000 + (b as u32) * 0x10000 + (c as u32) * 0x100 + (
            d as u32);
            Some(val)
        },
        _ => None,
    }
}

/// A well-formed hexadecimal group: one to four hex digits.
pub open spec fn valid_group(p: Seq<u8>) -> bool {
    1 <= p.len() <= 4 && (forall|j: int| 0 <= j < p.len() ==> is_hex_digit(#[trigger] p[j]))
}

/// Every piece in `[from, to)` is a well-formed group.
pub open spec fn all_groups(ps: Seq<Seq<u8>>, from: int, to: int) -> bool {
    forall|i: int| from <= i < to ==> valid_group(#[trigger] ps[i])
}

/// Every piece in `[from, to)` is non-empty.
pub open spec fn nonempty_range(ps: Seq<Seq<u8>>, from: int, to: int) -> bool {
    forall|i: int| from <= i < to ==> (#[trigger] ps[i]).len() > 0
}

/// 65536 to the `k`.
pub open spec fn pow16(k: int) -> int
    decreases k,
{
    if k <= 0 {
        1
    } else {
        65536 * pow16(k - 1)
    }
}

/// The value of group values folded big-endian, 16 bits per group.
pub open spec fn fold16(gs: Seq<int>) -> int
    decreases gs.len(),
{
    if gs.len() == 0 {
        0
    } else {
        fold16(gs.drop_last()) * 65536 + gs.last()
    }
}

/// The eight 16-bit group values of an IPv6 address whose head groups are
/// `ps[hf..ht]`, whose tail groups are `ps[tf..tt]`, and whose remaining
/// middle groups are zero.
pub open spec fn expanded_groups(
    ps: Seq<Seq<u8>>,
    hf: int,
    ht: int,
    tf: int,
    tt: int,
) -> Seq<int> {
    let h = ht - hf;
    let t = tt - tf;
    Seq::new(
        8,
        |i: int|
            if i < h {
                hex_string_val(ps[hf + i])
            } else if i >= 8 - t {
                hex_string_val(ps[tf + (i - (8 - t))])
            } else {
                0
            },
    )
}

/// The index of the first empty piece, or `ps.len()` when there is none.
pub open spec fn first_empty(ps: Seq<Seq<u8>>) -> int
    decreases ps.len(),
{
    if ps.len() == 0 {
        0
    } else if ps[0].len() == 0 {
        0
    } else {
        1 + first_empty(ps.drop_first())
    }
}

/// What [`first_empty`] returns: the position of the first empty piece.
pub proof fn lemma_first_empty(ps: Seq<Seq<u8>>)
    ensures
        0 <= first_empty(ps) <= ps.len(),
        forall|j: int| 0 <= j < first_empty(ps) ==> (#[trigger] ps[j]).len() > 0,
        first_empty(ps) < ps.len() ==> ps[first_empty(ps)].len() == 0,
    decreases ps.len(),
{
    if ps.len() > 0 && ps[0].len() > 0 {
        lemma_first_empty(ps.drop_first());
        assert forall|j: int| 0 <= j < first_empty(ps) implies (#[trigger] ps[j]).len() > 0 by {
            if j > 0 {
                assert(ps.drop_first()[j - 1].len() > 0);
            }
        }
    }
}

/// The colon-separated form of an IPv6 address: eight hexadecimal groups,
/// or fewer with one `::` standing for the missing, zero-valued groups.
pub open spec fn spec_parse_ipv6(s: Seq<u8>) -> Option<u128> {
    let ps = spec_split(s, 58);
    let n = ps.len() as int;
    let fe = first_empty(ps);
    if fe == n {
        // no empty piece: exactly eight groups
        if n == 8 && all_groups(ps, 0, 8) {
            Some(fold16(expanded_groups(ps, 0, 8, 8, 8)) as u128)
        } else {
            None
        }
    } else if n == 3 && ps[0].len() == 0 && ps[1].len() == 0 && ps[2].len() == 0 {
        // `::` alone
        Some(0u128)
    } else if fe == 0 {
        // leading `::`
        if n >= 3 && ps[1].len() == 0 && nonempty_range(ps, 2, n) && n - 2 <= 7 && all_groups(
            ps,
            2,
            n,
        ) {
            Some(fold16(expanded_groups(ps, 0, 0, 2, n)) as u128)
        } else {
            None
        }
    } else if fe == n - 2 && ps[n - 1].len() == 0 {
        // trailing `::`
        if n - 2 <= 7 && all_groups(ps, 0, n - 2) {
            Some(fold16(expanded_groups(ps, 0, n - 2, n, n)) as u128)
        } else {
            None
        }
    } else {
        // `::` between two group runs
        if 1 <= fe <= n - 2 && nonempty_range(ps, fe + 1, n) && n - 1 <= 7 && all_groups(
            ps,
            0,
            fe,
        ) && all_groups(ps, fe + 1, n) {
            Some(fold16(expanded_groups(ps, 0, fe, fe + 1, n)) as u128)
        } else {
            None
        }
    }
}

/// Hex group values fit in 16 bits.
pub proof fn lemma_group_val_bound(p: Seq<u8>)
    requires
        forall|j: int| 0 <= j < p.len() ==> is_hex_digit(#[trigger] p[j]),
        p.len() <= 4,
    ensures
        0 <= hex_string_val(p),
        hex_string_val(p) <= 65535,
        p.len() <= 3 ==> hex_string_val(p) <= 4095,
        p.len() <= 2 ==> hex_string_val(p) <= 255,
        p.len() <= 1 ==> hex_string_val(p) <= 15,
    decreases p.len(),
{
    if p.len() > 0 {
        assert(forall|j: int| 0 <= j < p.drop_last().len() ==> is_hex_digit(#[trigger] p.drop_last()[j]));
        lemma_group_val_bound(p.drop_last());
        assert(is_hex_digit(p.last()));
        assert(0 <= hex_val(p.last()) <= 15);
    }
}

/// A fold of in-range group values stays below `pow16` of its length.
pub proof fn lemma_fold16_bound(gs: Seq<int>)
    requires
        forall|i: int| 0 <= i < gs.len() ==> 0 <= #[trigger] gs[i] <= 65535,
    ensures
        0 <= fold16(gs),
        fold16(gs) < pow16(gs.len() as int),
    decreases gs.len(),
{
    if gs.len() > 0 {
        assert(forall|i: int|
            0 <= i < gs.drop_last().len() ==> 0 <= #[trigger] gs.drop_last()[i] <= 65535);
        lemma_fold16_bound(gs.drop_last());
        assert(gs.last() == gs[gs.len() - 1]);
        assert(pow16(gs.len() as int) == 65536 * pow16(gs.len() - 1));
    }
}

/// `pow16(8)` is one past the largest `u128`.
pub proof fn lemma_pow16_8()
    ensures
        pow16(8) == 0x100000000000000000000000000000000,
{
    assert(pow16(0) == 1);
    assert(pow16(1) == 65536 * pow16(0));
    assert(pow16(2) == 65536 * pow16(1));
    assert(pow16(3) == 65536 * pow16(2));
    assert(pow16(4) == 65536 * pow16(3));
    assert(pow16(5) == 65536 * pow16(4));
    assert(pow16(6) == 65536 * pow16(5));
    assert(pow16(7) == 65536 * pow16(6));
    assert(pow16(8) == 65536 * pow16(7));
}

/// Parses one hexadecimal group.
fn parse_group(p: &Vec<u8>) -> (r: Option<u16>)
    ensures
        r is Some <==> valid_group(p@),
        r matches Some(g) ==> g == hex_string_val(p@),
{
    let n = p.len();
    if n == 0 || n > 4 {
        return None;
    }
    let mut val: u32 = 0;
    let mut j: usize = 0;
    while j < n
        invariant
            j <= n,
            n == p@.len(),
            n <= 4,
            forall|t: int| 0 <= t < j ==> is_hex_digit(#[trigger] p@[t]),
            val == hex_string_val(p@.subrange(0, j as int)),
            val <= 65535,
        decreases n - j,
    {
        let b = p[j];
        let d: u32 = if b >= 48 && b <= 57 {
            (b - 48) as u32
        } else if b >= 97 && b <= 102 {
            (b - 87) as u32
        } else if b >= 65 && b <= 70 {
            (b - 55) as u32
        } else {
            return None;
        };
        proof {
            assert(p@.subrange(0, j as int + 1).drop_last() =~= p@.subrange(0, j as int));
            assert(p@.subrange(0, j as int + 1).last() == p@[j as int]);
            if j as int + 1 < 4 {
                assert(forall|t: int|
                    0 <= t < p@.subrange(0, j as int).len() ==> is_hex_digit(
                        #[trigger] p@.subrange(0, j as int)[t],
                    ));
                lemma_group_val_bound(p@.subrange(0, j as int));
            } else {
                assert(forall|t: int|
                    0 <= t < p@.subrange(0, j as int).len() ==> is_hex_digit(
                        #[trigger] p@.subrange(0, j as int)[t],
                    ));
                lemma_group_val_bound(p@.subrange(0, j as int));
            }
        }
        val = val * 16 + d;
        j = j + 1;
        proof {
            assert(forall|t: int|
                0 <= t < p@.subrange(0, j as int).len() ==> is_hex_digit(
                    #[trigger] p@.subrange(0, j as int)[t],
                ));
            lemma_group_val_bound(p@.subrange(0, j as int));
        }
    }
    proof {
        assert(p@.subrange(0, n as int) =~= p@);
    }
    Some(val as u16)
}

/// The first empty piece's index, or the piece count when none is empty.
fn find_first_empty(parts: &Vec<Vec<u8>>) -> (fe: usize)
    ensures
        fe == first_empty(parts.deep_view()),
{
    let ghost ps = parts.deep_view();
    proof {
        lemma_first_empty(ps);
    }
    let n = parts.len();
    let mut i: usize = 0;
    while i < n
        invariant
            i <= n,
            n == parts@.len(),
            ps == parts.deep_view(),
            forall|j: int| 0 <= j < i ==> (#[trigger] ps[j]).len() > 0,
        decreases n - i,
    {
        if parts[i].len() == 0 {
            proof {
                lemma_first_empty(ps);
                assert(ps[i as int].len() == 0);
                if first_empty(ps) < i {
                    assert(ps[first_empty(ps)].len() > 0);
                    assert(false);
                }
                if first_empty(ps) > i {
                    assert(false);
                }
            }
            return i;
        }
        i = i + 1;
    }
    proof {
        lemma_first_empty(ps);
        if first_empty(ps) < n {
            assert(ps[first_empty(ps)].len() > 0);
            assert(false);
        }
    }
    n
}

/// Whether every piece in `[from, to)` is non-empty.
fn check_nonempty(parts: &Vec<Vec<u8>>, from: usize, to: usize) -> (b: bool)
    requires
        from <= to <= parts@.len(),
    ensures
        b == nonempty_range(parts.deep_view(), from as int, to as int),
{
    let mut i = from;
    while i < to
        invariant
            from <= i <= to <= parts@.len(),
            forall|j: int| from <= j < i ==> (#[trigger] parts.deep_view()[j]).len() > 0,
        decreases to - i,
    {
        if parts[i].len() == 0 {
            assert(parts.deep_view()[i as int].len() == 0);
            return false;
        }
        i = i + 1;
    }
    true
}

/// Parses the groups `parts[hf..ht]` and `parts[tf..tt]` and folds the
/// eight group values, the missing middle filled with zeros.
fn assemble_v6(parts: &Vec<Vec<u8>>, hf: usize, ht: usize, tf: usize, tt: usize) -> (r: Option<
    u128,
>)
    requires
        hf <= ht <= parts@.len(),
        tf <= tt <= parts@.len(),
        (ht - hf) + (tt - tf) <= 8,
    ensures
        r is Some <==> all_groups(parts.deep_view(), hf as int, ht as int) && all_groups(
            parts.deep_view(),
            tf as int,
            tt as int,
        ),
        r matches Some(x) ==> x == fold16(
            expanded_groups(parts.deep_view(), hf as int, ht as int, tf as int, tt as int),
        ) as u128,
{
    let ghost ps = parts.deep_view();
    let h = ht - hf;
    let t = tt - tf;
    let mut g8: Vec<u16> = Vec::new();
    let mut i: usize = 0;
    while i < h
        invariant
            i <= h,
            h == ht - hf,
            ht <= parts@.len(),
            ps == parts.deep_view(),
            g8@.len() == i,
            forall|j: int| 0 <= j < i ==> valid_group(#[trigger] ps[hf + j]),
            forall|j: int| 0 <= j < i ==> g8@[j] == hex_string_val(ps[hf + j]),
        decreases h - i,
    {
        assert(ps[hf + i] == parts@[hf + i]@);
        match parse_group(&parts[hf + i]) {
            Some(g) => {
                g8.push(g);
            },
            None => {
                assert(!valid_group(ps[hf + i as int]));
                return None;
            },
        }
        i = i + 1;
    }
    let zeros = 8 - h - t;
    let mut z: usize = 0;
    while z < zeros
        invariant
            z <= zeros,
            zeros == 8 - h - t,
            g8@.len() == h + z,
            h == ht - hf,
            t == tt - tf,
            ht <= parts@.len(),
            tt <= parts@.len(),
            ps == parts.deep_view(),
            forall|j: int| 0 <= j < h ==> valid_group(#[trigger] ps[hf + j]),
            forall|j: int| 0 <= j < h ==> g8@[j] == hex_string_val(ps[hf + j]),
            forall|j: int| h <= j < h + z ==> g8@[j] == 0,
        decreases zeros - z,
    {
        g8.push(0);
        z = z + 1;
    }
    let mut k: usize = 0;
    while k < t
        invariant
            k <= t,
            t == tt - tf,
            h == ht - hf,
            zeros == 8 - h - t,
            tt <= parts@.len(),
            ht <= parts@.len(),
            ps == parts.deep_view(),
            g8@.len() == h + zeros + k,
            forall|j: int| 0 <= j < h ==> valid_group(#[trigger] ps[hf + j]),
            forall|j: int| 0 <= j < h ==> g8@[j] == hex_string_val(ps[hf + j]),
            forall|j: int| h <= j < h + zeros ==> g8@[j] == 0,
            forall|j: int| 0 <= j < k ==> valid_group(#[trigger] ps[tf + j]),
            forall|j: int| 0 <= j < k ==> g8@[h + zeros + j] == hex_string_val(#[trigger] ps[tf + j]),
        decreases t - k,
    {
        assert(ps[tf + k] == parts@[tf + k]@);
        match parse_group(&parts[tf + k]) {
            Some(g) => {
                g8.push(g);
            },
            None => {
                assert(!valid_group(ps[tf + k as int]));
                return None;
            },
        }
        k = k + 1;
    }
    let ghost exp = expanded_groups(ps, hf as int, ht as int, tf as int, tt as int);
    proof {
        assert(g8@.len() == 8);
        assert forall|j: int| 0 <= j < 8 implies #[trigger] exp[j] == g8@[j] by {
            if j < h {
            } else if j >= 8 - t {
                assert(g8@[j] == g8@[h + zeros + (j - (8 - t))]);
            } else {
            }
        }
        assert forall|j: int| 0 <= j < 8 implies 0 <= #[trigger] exp[j] <= 65535 by {
            if j < h {
                lemma_group_val_bound(ps[hf + j]);
            } else if j >= 8 - t {
                lemma_group_val_bound(ps[tf + (j - (8 - t))]);
            }
        }
    }
    // fold the eight groups
    let mut acc: u128 = 0;
    let mut f: usize = 0;
    proof {
        lemma_pow16_8();
    }
    while f < 8
        invariant
            f <= 8,
            exp.len() == 8,
            g8@.len() == 8,
            forall|j: int| 0 <= j < 8 ==> #[trigger] exp[j] == g8@[j],
            forall|j: int| 0 <= j < 8 ==> 0 <= #[trigger] exp[j] <= 65535,
            acc == fold16(exp.subrange(0, f as int)),
            acc < pow16(f as int),
            pow16(8) == 0x100000000000000000000000000000000,
        decreases 8 - f,
    {
        proof {
            assert(exp.subrange(0, f as int + 1).drop_last() =~= exp.subrange(0, f as int));
            assert(exp.subrange(0, f as int + 1).last() == exp[f as int]);
            assert(pow16(f as int + 1) == 65536 * pow16(f as int));
            lemma_pow16_le_8(f as int + 1);
        }
        let g = g8[f];
        acc = acc * 65536 + (g as u128);
        f = f + 1;
    }
    proof {
        assert(exp.subrange(0, 8) =~= exp);
        assert forall|i2: int| hf <= i2 < ht implies valid_group(#[trigger] ps[i2]) by {
            assert(valid_group(ps[hf + (i2 - hf)]));
        }
        assert forall|i2: int| tf <= i2 < tt implies valid_group(#[trigger] ps[i2]) by {
            assert(valid_group(ps[tf + (i2 - tf)]));
        }
    }
    Some(acc)
}

/// `pow16` does not decrease up to eight.
proof fn lemma_pow16_le_8(k: int)
    requires
        0 <= k <= 8,
    ensures
        pow16(k) <= pow16(8),
    decreases 8 - k,
{
    if k < 8 {
        lemma_pow16_le_8(k + 1);
        assert(pow16(k + 1) == 65536 * pow16(k));
        lemma_pow16_pos(k);
    }
}

/// `pow16` is positive.
proof fn lemma_pow16_pos(k: int)
    ensures
        pow16(k) >= 1,
    decreases (if k > 0 { k } else { 0 }),
{
    if k > 0 {
        lemma_pow16_pos(k - 1);
    }
}

/// Parses the colon-separated form of an IPv6 address.
pub fn parse_ipv6_bytes(v: &[u8]) -> (r: Option<u128>)
    ensures
        r == spec_parse_ipv6(v@),
{
    let parts = split_bytes(v, 58);
    let ghost ps = parts.deep_view();
    proof {
        assert(forall|k: int| 0 <= k < parts@.len() ==> ps[k] == #[trigger] parts@[k]@);
        lemma_first_empty(ps);
    }
    let n = parts.len();
    let fe = find_first_empty(&parts);
    if fe == n {
        if n != 8 {
            return None;
        }
        assemble_v6(&parts, 0, 8, 8, 8)
    } else if n == 3 && parts[0].len() == 0 && parts[1].len() == 0 && parts[2].len() == 0 {
        Some(0)
    } else if fe == 0 {
        if n >= 3 && parts[1].len() == 0 && check_nonempty(&parts, 2, n) && n - 2 <= 7 {
            assemble_v6(&parts, 0, 0, 2, n)
        } else {
            None
        }
    } else if fe == n - 2 && parts[n - 1].len() == 0 {
        if n - 2 <= 7 {
            assemble_v6(&parts, 0, n - 2, n, n)
        } else {
            None
        }
    } else {
        if 1 <= fe && fe <= n - 2 && check_nonempty(&parts, fe + 1, n) && n - 1 <= 7 {
            assemble_v6(&parts, 0, fe, fe + 1, n)
        } else {
            None
        }
    }
}

/// An address in either textual form: dotted decimal, else colon-separated
/// groups.
pub open spec fn spec_parse_ip(s: Seq<u8>) -> Option<IpAddr> {
    match spec_parse_ipv4(s) {
        Some(v) => Some(IpAddr::V4(v)),
        None => match spec_parse_ipv6(s) {
            Some(v) => Some(IpAddr::V6(v)),
            None => None,
        },
    }
}

impl IpAddr {
    /// Parses an address from its textual form.
    pub fn parse(s: &str) -> (r: Option<IpAddr>)
        ensures
            r == spec_parse_ip(s.spec_bytes()),
    {
        let b = s.as_bytes();
        match parse_ipv4_bytes(b) {
            Some(v) => Some(IpAddr::V4(v)),
            None => match parse_ipv6_bytes(b) {
                Some(v) => Some(IpAddr::V6(v)),
                None => None,
            },
        }
    }
}

/// The pieces joined with `sep` between them.
pub open spec fn spec_join(pieces: Seq<Seq<u8>>, sep: u8) -> Seq<u8>
    decreases pieces.len(),
{
    if pieces.len() == 0 {
        Seq::empty()
    } else if pieces.len() == 1 {
        pieces[0]
    } else {
        pieces[0] + seq![sep] + spec_join(pieces.drop_first(), sep)
    }
}

/// Splitting a join of separator-free pieces gives the pieces back.
pub proof fn lemma_split_of_join(pieces: Seq<Seq<u8>>, sep: u8)
    requires
        pieces.len() >= 1,
        forall|i: int, j: int|
            0 <= i < pieces.len() && 0 <= j < pieces[i].len() ==> #[trigger] pieces[i][j] != sep,
    ensures
        spec_split(spec_join(pieces, sep), sep) == pieces,
    decreases pieces.len(),
{
    let s = spec_join(pieces, sep);
    if pieces.len() == 1 {
        assert(s == pieces[0]);
        lemma_split_decompose(s, sep, s.len() as int);
        assert(spec_split(s, sep) =~~= pieces);
    } else {
        let head = pieces[0];
        let rest = pieces.drop_first();
        assert(forall|i: int, j: int|
            0 <= i < rest.len() && 0 <= j < rest[i].len() ==> #[trigger] rest[i][j] != sep);
        lemma_split_of_join(rest, sep);
        let i = head.len() as int;
        assert(forall|j: int| 0 <= j < i ==> s[j] == head[j] && s[j] != sep);
        assert(s[i] == sep);
        lemma_split_decompose(s, sep, i);
        assert(s.subrange(0, i) =~= head);
        assert(s.subrange(i + 1, s.len() as int) =~= spec_join(rest, sep));
        assert(spec_split(s, sep) =~~= seq![head] + spec_split(spec_join(rest, sep), sep));
        assert(spec_split(s, sep) =~~= pieces);
    }
}

/// Reading back the decimal digits of `n` gives `n`.
pub proof fn lemma_dec_digits_val(n: nat)
    ensures
        dec_val(crate::text::dec_digits(n)) == n,
    decreases n,
{
    let d = crate::text::dec_digits(n);
    vstd::arithmetic::div_mod::lemma_fundamental_div_mod(n as int, 10);
    if n < 10 {
        assert(d =~= seq![(48 + n) as u8]);
        assert(d.drop_last() =~= Seq::<u8>::empty());
        assert(dec_val(Seq::<u8>::empty()) == 0);
        assert(dec_val(d) == (48 + n) - 48);
    } else {
        lemma_dec_digits_val(n / 10);
        assert(d == crate::text::dec_digits(n / 10).push((48 + n % 10) as u8));
        assert(d.drop_last() =~= crate::text::dec_digits(n / 10));
        assert(d.last() == (48 + n % 10) as u8);
        assert(dec_val(d) == (n / 10) * 10 + (n % 10));
    }
}

/// Values up to 999 print as at most three digits, without a leading zero
/// unless the value is zero itself.
pub proof fn lemma_dec_digits_shape(n: nat)
    ensures
        n <= 9 ==> crate::text::dec_digits(n).len() == 1,
        n <= 99 ==> crate::text::dec_digits(n).len() <= 2,
        n <= 999 ==> crate::text::dec_digits(n).len() <= 3,
        n > 0 ==> crate::text::dec_digits(n)[0] != 48,
    decreases n,
{
    if n >= 10 {
        lemma_dec_digits_shape(n / 10);
    }
}

/// The text of an IPv4 address: its four bytes in decimal, joined with
/// dots.
pub open spec fn spec_format_ipv4(v: u32) -> Seq<u8> {
    spec_join(
        seq![
            crate::text::dec_digits(((v >> 24u32) & 0xff) as nat),
            crate::text::dec_digits(((v >> 16u32) & 0xff) as nat),
            crate::text::dec_digits(((v >> 8u32) & 0xff) as nat),
            crate::text::dec_digits((v & 0xff) as nat),
        ],
        46,
    )
}

/// The text of an IPv4 address reads back as that address.
pub proof fn lemma_ipv4_text_round_trip(v: u32)
    ensures
        spec_parse_ipv4(spec_format_ipv4(v)) == Some(v),
{
    let b0 = (v >> 24u32) & 0xff;
    let b1 = (v >> 16u32) & 0xff;
    let b2 = (v >> 8u32) & 0xff;
    let b3 = v & 0xff;
    assert(b0 < 256 && b1 < 256 && b2 < 256 && b3 < 256) by (bit_vector)
        requires
            b0 == (v >> 24u32) & 0xff,
            b1 == (v >> 16u32) & 0xff,
            b2 == (v >> 8u32) & 0xff,
            b3 == v & 0xff,
    ;
    let pieces = seq![
        crate::text::dec_digits(b0 as nat),
        crate::text::dec_digits(b1 as nat),
        crate::text::dec_digits(b2 as nat),
        crate::text::dec_digits(b3 as nat),
    ];
    assert forall|i: int, j: int|
        0 <= i < pieces.len() && 0 <= j < pieces[i].len() implies #[trigger] pieces[i][j]
        != 46 by {
        crate::text::lemma_dec_digits_ascii(b0 as nat);
        crate::text::lemma_dec_digits_ascii(b1 as nat);
        crate::text::lemma_dec_digits_ascii(b2 as nat);
        crate::text::lemma_dec_digits_ascii(b3 as nat);
    }
    lemma_split_of_join(pieces, 46);
    crate::text::lemma_dec_digits_ascii(b0 as nat);
    crate::text::lemma_dec_digits_ascii(b1 as nat);
    crate::text::lemma_dec_digits_ascii(b2 as nat);
    crate::text::lemma_dec_digits_ascii(b3 as nat);
    lemma_dec_digits_shape(b0 as nat);
    lemma_dec_digits_shape(b1 as nat);
    lemma_dec_digits_shape(b2 as nat);
    lemma_dec_digits_shape(b3 as nat);
    lemma_dec_digits_val(b0 as nat);
    lemma_dec_digits_val(b1 as nat);
    lemma_dec_digits_val(b2 as nat);
    lemma_dec_digits_val(b3 as nat);
    assert(valid_octet(pieces[0]));
    assert(valid_octet(pieces[1]));
    assert(valid_octet(pieces[2]));
    assert(valid_octet(pieces[3]));
    assert(b0 * 0x1000000 + b1 * 0x10000 + b2 * 0x100 + b3 == v) by (bit_vector)
        requires
            b0 == (v >> 24u32) & 0xff,
            b1 == (v >> 16u32) & 0xff,
            b2 == (v >> 8u32) & 0xff,
            b3 == v & 0xff,
    ;
}

/// The lowercase hexadecimal digit of a value below sixteen.
pub open spec fn hex_digit_char(d: nat) -> u8 {
    if d < 10 {
        (48 + d) as u8
    } else {
        (87 + d) as u8
    }
}

/// The lowercase hexadecimal digits of `n`, without leading zeros.
pub open spec fn hex_digits(n: nat) -> Seq<u8>
    decreases n,
{
    if n < 16 {
        seq![hex_digit_char(n)]
    } else {
        hex_digits(n / 16).push(hex_digit_char(n % 16))
    }
}

/// Hexadecimal digit text is made of hexadecimal digits, and a group value
/// prints as at most four of them.
pub proof fn lemma_hex_digits_shape(n: nat)
    ensures
        forall|i: int| 0 <= i < hex_digits(n).len() ==> is_hex_digit(#[trigger] hex_digits(n)[i]),
        forall|i: int|
            0 <= i < hex_digits(n).len() ==> 48 <= #[trigger] hex_digits(n)[i] <= 102,
        forall|i: int| 0 <= i < hex_digits(n).len() ==> #[trigger] hex_digits(n)[i] != 58,
        forall|i: int| 0 <= i < hex_digits(n).len() ==> #[trigger] hex_digits(n)[i] != 46,
        hex_digits(n).len() >= 1,
        n <= 15 ==> hex_digits(n).len() == 1,
        n <= 255 ==> hex_digits(n).len() <= 2,
        n <= 4095 ==> hex_digits(n).len() <= 3,
        n <= 65535 ==> hex_digits(n).len() <= 4,
    decreases n,
{
    if n >= 16 {
        lemma_hex_digits_shape(n / 16);
    }
}

/// Reading back the hexadecimal digits of `n` gives `n`.
pub proof fn lemma_hex_digits_val(n: nat)
    ensures
        hex_string_val(hex_digits(n)) == n,
    decreases n,
{
    let d = hex_digits(n);
    vstd::arithmetic::div_mod::lemma_fundamental_div_mod(n as int, 16);
    if n < 16 {
        assert(d =~= seq![hex_digit_char(n)]);
        assert(d.drop_last() =~= Seq::<u8>::empty());
        assert(hex_string_val(Seq::<u8>::empty()) == 0);
        assert(hex_val(hex_digit_char(n)) == n);
        assert(hex_string_val(d) == n);
    } else {
        lemma_hex_digits_val(n / 16);
        assert(d == hex_digits(n / 16).push(hex_digit_char(n % 16)));
        assert(d.drop_last() =~= hex_digits(n / 16));
        assert(d.last() == hex_digit_char(n % 16));
        assert(hex_val(hex_digit_char(n % 16)) == n % 16);
        assert(hex_string_val(d) == (n / 16) * 16 + (n % 16));
    }
}

/// The text of an IPv6 address: all eight groups in lowercase hexadecimal,
/// joined with colons, never compressed.
pub open spec fn spec_format_ipv6(v: u128) -> Seq<u8> {
    spec_join(
        seq![
            hex_digits(((v >> 112u128) & 0xffff) as nat),
            hex_digits(((v >> 96u128) & 0xffff) as nat),
            hex_digits(((v >> 80u128) & 0xffff) as nat),
            hex_digits(((v >> 64u128) & 0xffff) as nat),
            hex_digits(((v >> 48u128) & 0xffff) as nat),
            hex_digits(((v >> 32u128) & 0xffff) as nat),
            hex_digits(((v >> 16u128) & 0xffff) as nat),
            hex_digits((v & 0xffff) as nat),
        ],
        58,
    )
}

/// The text of an IPv6 address reads back as that address.
#[verifier::rlimit(100)]
#[verifier::spinoff_prover]
pub proof fn lemma_ipv6_text_round_trip(v: u128)
    ensures
        spec_parse_ipv6(spec_format_ipv6(v)) == Some(v),
{
    let g0 = (v >> 112u128) & 0xffff;
    let g1 = (v >> 96u128) & 0xffff;
    let g2 = (v >> 80u128) & 0xffff;
    let g3 = (v >> 64u128) & 0xffff;
    let g4 = (v >> 48u128) & 0xffff;
    let g5 = (v >> 32u128) & 0xffff;
    let g6 = (v >> 16u128) & 0xffff;
    let g7 = v & 0xffff;
    assert(g0 < 65536 && g1 < 65536 && g2 < 65536 && g3 < 65536 && g4 < 65536 && g5 < 65536 && g6
        < 65536 && g7 < 65536) by (bit_vector)
        requires
            g0 == (v >> 112u128) & 0xffff,
            g1 == (v >> 96u128) & 0xffff,
            g2 == (v >> 80u128) & 0xffff,
            g3 == (v >> 64u128) & 0xffff,
            g4 == (v >> 48u128) & 0xffff,
            g5 == (v >> 32u128) & 0xffff,
            g6 == (v >> 16u128) & 0xffff,
            g7 == v & 0xffff,
    ;
    let pieces = seq![
        hex_digits(g0 as nat),
        hex_digits(g1 as nat),
        hex_digits(g2 as nat),
        hex_digits(g3 as nat),
        hex_digits(g4 as nat),
        hex_digits(g5 as nat),
        hex_digits(g6 as nat),
        hex_digits(g7 as nat),
    ];
    assert forall|i: int, j: int|
        0 <= i < pieces.len() && 0 <= j < pieces[i].len() implies #[trigger] pieces[i][j]
        != 58 by {
        lemma_hex_digits_shape(g0 as nat);
        lemma_hex_digits_shape(g1 as nat);
        lemma_hex_digits_shape(g2 as nat);
        lemma_hex_digits_shape(g3 as nat);
        lemma_hex_digits_shape(g4 as nat);
        lemma_hex_digits_shape(g5 as nat);
        lemma_hex_digits_shape(g6 as nat);
        lemma_hex_digits_shape(g7 as nat);
    }
    lemma_split_of_join(pieces, 58);
    let ps = spec_split(spec_format_ipv6(v), 58);
    assert(ps == pieces);
    lemma_hex_digits_shape(g0 as nat);
    lemma_hex_digits_shape(g1 as nat);
    lemma_hex_digits_shape(g2 as nat);
    lemma_hex_digits_shape(g3 as nat);
    lemma_hex_digits_shape(g4 as nat);
    lemma_hex_digits_shape(g5 as nat);
    lemma_hex_digits_shape(g6 as nat);
    lemma_hex_digits_shape(g7 as nat);
    lemma_first_empty(ps);
    if first_empty(ps) < 8 {
        assert(ps[first_empty(ps)].len() > 0);
        assert(false);
    }
    assert(all_groups(ps, 0, 8));
    lemma_hex_digits_val(g0 as nat);
    lemma_hex_digits_val(g1 as nat);
    lemma_hex_digits_val(g2 as nat);
    lemma_hex_digits_val(g3 as nat);
    lemma_hex_digits_val(g4 as nat);
    lemma_hex_digits_val(g5 as nat);
    lemma_hex_digits_val(g6 as nat);
    lemma_hex_digits_val(g7 as nat);
    let e = expanded_groups(ps, 0, 8, 8, 8);
    assert(e =~= seq![
        g0 as int,
        g1 as int,
        g2 as int,
        g3 as int,
        g4 as int,
        g5 as int,
        g6 as int,
        g7 as int,
    ]);
    assert(e.subrange(0, 0) =~= Seq::<int>::empty());
    assert(fold16(e.subrange(0, 0)) == 0);
    assert(e.subrange(0, 1).drop_last() =~= e.subrange(0, 0));
    assert(fold16(e.subrange(0, 1)) == g0);
    assert(e.subrange(0, 2).drop_last() =~= e.subrange(0, 1));
    assert(fold16(e.subrange(0, 2)) == g0 * 65536 + g1);
    assert(e.subrange(0, 3).drop_last() =~= e.subrange(0, 2));
    assert(fold16(e.subrange(0, 3)) == (g0 * 65536 + g1) * 65536 + g2);
    assert(e.subrange(0, 4).drop_last() =~= e.subrange(0, 3));
    assert(fold16(e.subrange(0, 4)) == ((g0 * 65536 + g1) * 65536 + g2) * 65536 + g3);
    assert(e.subrange(0, 5).drop_last() =~= e.subrange(0, 4));
    assert(fold16(e.subrange(0, 5)) == (((g0 * 65536 + g1) * 65536 + g2) * 65536 + g3) * 65536
        + g4);
    assert(e.subrange(0, 6).drop_last() =~= e.subrange(0, 5));
    assert(fold16(e.subrange(0, 6)) == ((((g0 * 65536 + g1) * 65536 + g2) * 65536 + g3) * 65536
        + g4) * 65536 + g5);
    assert(e.subrange(0, 7).drop_last() =~= e.subrange(0, 6));
    assert(fold16(e.subrange(0, 7)) == (((((g0 * 65536 + g1) * 65536 + g2) * 65536 + g3) * 65536
        + g4) * 65536 + g5) * 65536 + g6);
    assert(e.subrange(0, 8).drop_last() =~= e.subrange(0, 7));
    assert(e.subrange(0, 8) =~= e);
    assert(fold16(e) == ((((((g0 * 65536 + g1) * 65536 + g2) * 65536 + g3) * 65536 + g4) * 65536
        + g5) * 65536 + g6) * 65536 + g7);
    assert(((((((g0 * 65536 + g1) * 65536 + g2) * 65536 + g3) * 65536 + g4) * 65536 + g5) * 65536
        + g6) * 65536 + g7 == v) by (bit_vector)
        requires
            g0 == (v >> 112u128) & 0xffff,
            g1 == (v >> 96u128) & 0xffff,
            g2 == (v >> 80u128) & 0xffff,
            g3 == (v >> 64u128) & 0xffff,
            g4 == (v >> 48u128) & 0xffff,
            g5 == (v >> 32u128) & 0xffff,
            g6 == (v >> 16u128) & 0xffff,
            g7 == v & 0xffff,
    ;
}

/// A join of pieces that avoid a byte, with a separator that also differs
/// from it, avoids that byte.
pub proof fn lemma_join_avoid(pieces: Seq<Seq<u8>>, sep: u8, b: u8)
    requires
        sep != b,
        forall|i: int, j: int|
            0 <= i < pieces.len() && 0 <= j < pieces[i].len() ==> #[trigger] pieces[i][j] != b,
    ensures
        forall|j: int|
            0 <= j < spec_join(pieces, sep).len() ==> #[trigger] spec_join(pieces, sep)[j] != b,
    decreases pieces.len(),
{
    if pieces.len() > 1 {
        let rest = pieces.drop_first();
        assert(forall|i: int, j: int|
            0 <= i < rest.len() && 0 <= j < rest[i].len() ==> #[trigger] rest[i][j] != b);
        lemma_join_avoid(rest, sep, b);
        let s = spec_join(pieces, sep);
        let head = pieces[0];
        assert forall|j: int| 0 <= j < s.len() implies #[trigger] s[j] != b by {
            if j < head.len() {
                assert(s[j] == head[j]);
                assert(pieces[0][j] != b);
            } else if j == head.len() {
                assert(s[j] == sep);
            } else {
                assert(s[j] == spec_join(rest, sep)[j - head.len() - 1]);
            }
        }
    } else if pieces.len() == 1 {
        assert(forall|j: int|
            0 <= j < spec_join(pieces, sep).len() ==> spec_join(pieces, sep)[j] == pieces[0][j]);
    }
}

/// Appends decimal digits, keeping the buffer ASCII.
fn push_dec_ascii(out: &mut Vec<u8>, n: u64)
    ensures
        final(out)@ == old(out)@ + crate::text::dec_digits(n as nat),
        crate::text::all_ascii(old(out)@) ==> crate::text::all_ascii(final(out)@),
{
    let ghost before = out@;
    crate::text::push_dec_digits(out, n);
    proof {
        crate::text::lemma_dec_digits_ascii(n as nat);
        assert forall|i: int|
            crate::text::all_ascii(before) && 0 <= i < out@.len() implies #[trigger] out@[i]
            < 0x80 by {
            if i < before.len() {
                assert(out@[i] == before[i]);
            } else {
                assert(out@[i] == crate::text::dec_digits(n as nat)[i - before.len()]);
            }
        }
    }
}

/// Appends the hexadecimal digits of a group value.
fn push_hex_digits(out: &mut Vec<u8>, n: u16)
    ensures
        final(out)@ == old(out)@ + hex_digits(n as nat),
    decreases n,
{
    if n < 16 {
        let d = n as u8;
        if d < 10 {
            out.push(48 + d);
        } else {
            out.push(87 + d);
        }
        assert(out@ =~= old(out)@ + hex_digits(n as nat));
    } else {
        push_hex_digits(out, n / 16);
        let d = (n % 16) as u8;
        if d < 10 {
            out.push(48 + d);
        } else {
            out.push(87 + d);
        }
        assert(out@ =~= old(out)@ + hex_digits(n as nat));
    }
}

/// Appends hexadecimal digits, keeping the buffer ASCII.
fn push_hex_ascii(out: &mut Vec<u8>, n: u16)
    ensures
        final(out)@ == old(out)@ + hex_digits(n as nat),
        crate::text::all_ascii(old(out)@) ==> crate::text::all_ascii(final(out)@),
{
    let ghost before = out@;
    push_hex_digits(out, n);
    proof {
        lemma_hex_digits_shape(n as nat);
        assert forall|i: int|
            crate::text::all_ascii(before) && 0 <= i < out@.len() implies #[trigger] out@[i]
            < 0x80 by {
            if i < before.len() {
                assert(out@[i] == before[i]);
            } else {
                assert(out@[i] == hex_digits(n as nat)[i - before.len()]);
            }
        }
    }
}

/// Appends one ASCII separator byte.
fn push_sep(out: &mut Vec<u8>, b: u8)
    requires
        b < 0x80,
    ensures
        final(out)@ == old(out)@ + seq![b],
        crate::text::all_ascii(old(out)@) ==> crate::text::all_ascii(final(out)@),
{
    out.push(b);
    proof {
        assert(out@ =~= old(out)@ + seq![b]);
    }
}

/// Renders an IPv4 address as ASCII bytes.
pub(crate) fn format_ipv4_ascii(v: u32) -> (r: Vec<u8>)
    ensures
        r@ == spec_format_ipv4(v),
        crate::text::all_ascii(r@),
{
    let b0 = ((v >> 24) & 0xff) as u64;
    let b1 = ((v >> 16) & 0xff) as u64;
    let b2 = ((v >> 8) & 0xff) as u64;
    let b3 = (v & 0xff) as u64;
    let mut out: Vec<u8> = Vec::new();
    proof {
        assert(crate::text::all_ascii(out@));
    }
    push_dec_ascii(&mut out, b0);
    push_sep(&mut out, 46);
    push_dec_ascii(&mut out, b1);
    push_sep(&mut out, 46);
    push_dec_ascii(&mut out, b2);
    push_sep(&mut out, 46);
    push_dec_ascii(&mut out, b3);
    proof {
        let d0 = crate::text::dec_digits(b0 as nat);
        let d1 = crate::text::dec_digits(b1 as nat);
        let d2 = crate::text::dec_digits(b2 as nat);
        let d3 = crate::text::dec_digits(b3 as nat);
        let p = seq![d0, d1, d2, d3];
        assert(seq![d3].drop_first() =~= Seq::<Seq<u8>>::empty());
        assert(seq![d2, d3].drop_first() =~= seq![d3]);
        assert(seq![d1, d2, d3].drop_first() =~= seq![d2, d3]);
        assert(p.drop_first() =~= seq![d1, d2, d3]);
        assert(spec_join(seq![d3], 46) == d3);
        assert(spec_join(seq![d2, d3], 46) =~= d2 + seq![46u8] + d3);
        assert(spec_join(seq![d1, d2, d3], 46) =~= d1 + seq![46u8] + spec_join(seq![d2, d3], 46));
        assert(spec_join(p, 46) =~= d0 + seq![46u8] + spec_join(seq![d1, d2, d3], 46));
        assert(out@ =~= spec_join(p, 46));
        assert(out@ =~= spec_format_ipv4(v));
    }
    out
}

/// Renders an IPv4 address in dotted decimal.
pub fn format_ipv4(v: u32) -> (s: String)
    ensures
        s@ == crate::text::ascii_chars_of(spec_format_ipv4(v)),
{
    let out = format_ipv4_ascii(v);
    proof {
        crate::text::lemma_ascii_decode(out@);
    }
    let r = crate::text::string_from_utf8(out);
    r.unwrap()
}

/// A join of eight pieces, written out flat.
#[verifier::rlimit(100)]
#[verifier::spinoff_prover]
proof fn lemma_join8(
    h0: Seq<u8>,
    h1: Seq<u8>,
    h2: Seq<u8>,
    h3: Seq<u8>,
    h4: Seq<u8>,
    h5: Seq<u8>,
    h6: Seq<u8>,
    h7: Seq<u8>,
    sep: u8,
)
    ensures
        spec_join(seq![h0, h1, h2, h3, h4, h5, h6, h7], sep) =~= h0 + seq![sep] + h1 + seq![sep]
            + h2 + seq![sep] + h3 + seq![sep] + h4 + seq![sep] + h5 + seq![sep] + h6 + seq![sep]
            + h7,
{
    let p = seq![h0, h1, h2, h3, h4, h5, h6, h7];
    assert(seq![h7].drop_first() =~= Seq::<Seq<u8>>::empty());
    assert(seq![h6, h7].drop_first() =~= seq![h7]);
    assert(seq![h5, h6, h7].drop_first() =~= seq![h6, h7]);
    assert(seq![h4, h5, h6, h7].drop_first() =~= seq![h5, h6, h7]);
    assert(seq![h3, h4, h5, h6, h7].drop_first() =~= seq![h4, h5, h6, h7]);
    assert(seq![h2, h3, h4, h5, h6, h7].drop_first() =~= seq![h3, h4, h5, h6, h7]);
    assert(seq![h1, h2, h3, h4, h5, h6, h7].drop_first() =~= seq![h2, h3, h4, h5, h6, h7]);
    assert(p.drop_first() =~= seq![h1, h2, h3, h4, h5, h6, h7]);
    assert(spec_join(seq![h7], sep) == h7);
    assert(spec_join(seq![h6, h7], sep) =~= h6 + seq![sep] + h7);
    assert(spec_join(seq![h5, h6, h7], sep) =~= h5 + seq![sep] + spec_join(seq![h6, h7], sep));
    assert(spec_join(seq![h4, h5, h6, h7], sep) =~= h4 + seq![sep] + spec_join(
        seq![h5, h6, h7],
        sep,
    ));
    assert(spec_join(seq![h3, h4, h5, h6, h7], sep) =~= h3 + seq![sep] + spec_join(
        seq![h4, h5, h6, h7],
        sep,
    ));
    assert(spec_join(seq![h2, h3, h4, h5, h6, h7], sep) =~= h2 + seq![sep] + spec_join(
        seq![h3, h4, h5, h6, h7],
        sep,
    ));
    assert(spec_join(seq![h1, h2, h3, h4, h5, h6, h7], sep) =~= h1 + seq![sep] + spec_join(
        seq![h2, h3, h4, h5, h6, h7],
        sep,
    ));
    assert(spec_join(p, sep) =~= h0 + seq![sep] + spec_join(
        seq![h1, h2, h3, h4, h5, h6, h7],
        sep,
    ));
}

/// Renders an IPv6 address as ASCII bytes.
#[verifier::rlimit(100)]
#[verifier::spinoff_prover]
pub(crate) fn format_ipv6_ascii(v: u128) -> (r: Vec<u8>)
    ensures
        r@ == spec_format_ipv6(v),
        crate::text::all_ascii(r@),
{
    proof {
        assert((v >> 112u128) & 0xffff <= 0xffff && (v >> 96u128) & 0xffff <= 0xffff && (v
            >> 80u128) & 0xffff <= 0xffff && (v >> 64u128) & 0xffff <= 0xffff && (v >> 48u128)
            & 0xffff <= 0xffff && (v >> 32u128) & 0xffff <= 0xffff && (v >> 16u128) & 0xffff
            <= 0xffff && v & 0xffff <= 0xffff) by (bit_vector);
    }
    let g0 = ((v >> 112) & 0xffff) as u16;
    let g1 = ((v >> 96) & 0xffff) as u16;
    let g2 = ((v >> 80) & 0xffff) as u16;
    let g3 = ((v >> 64) & 0xffff) as u16;
    let g4 = ((v >> 48) & 0xffff) as u16;
    let g5 = ((v >> 32) & 0xffff) as u16;
    let g6 = ((v >> 16) & 0xffff) as u16;
    let g7 = (v & 0xffff) as u16;
    let mut out: Vec<u8> = Vec::new();
    proof {
        assert(crate::text::all_ascii(out@));
    }
    push_hex_ascii(&mut out, g0);
    push_sep(&mut out, 58);
    push_hex_ascii(&mut out, g1);
    push_sep(&mut out, 58);
    push_hex_ascii(&mut out, g2);
    push_sep(&mut out, 58);
    push_hex_ascii(&mut out, g3);
    push_sep(&mut out, 58);
    push_hex_ascii(&mut out, g4);
    push_sep(&mut out, 58);
    push_hex_ascii(&mut out, g5);
    push_sep(&mut out, 58);
    push_hex_ascii(&mut out, g6);
    push_sep(&mut out, 58);
    push_hex_ascii(&mut out, g7);
    proof {
        let h0 = hex_digits(g0 as nat);
        let h1 = hex_digits(g1 as nat);
        let h2 = hex_digits(g2 as nat);
        let h3 = hex_digits(g3 as nat);
        let h4 = hex_digits(g4 as nat);
        let h5 = hex_digits(g5 as nat);
        let h6 = hex_digits(g6 as nat);
        let h7 = hex_digits(g7 as nat);
        lemma_join8(h0, h1, h2, h3, h4, h5, h6, h7, 58);
        assert(out@ =~= spec_join(seq![h0, h1, h2, h3, h4, h5, h6, h7], 58));
        assert(out@ =~= spec_format_ipv6(v));
    }
    out
}

/// Renders an IPv6 address as eight hexadecimal groups.
pub fn format_ipv6(v: u128) -> (s: String)
    ensures
        s@ == crate::text::ascii_chars_of(spec_format_ipv6(v)),
{
    let out = format_ipv6_ascii(v);
    proof {
        crate::text::lemma_ascii_decode(out@);
    }
    let r = crate::text::string_from_utf8(out);
    r.unwrap()
}

/// Renders an address as ASCII bytes.
pub(crate) fn format_ip_ascii(ip: IpAddr) -> (r: Vec<u8>)
    ensures
        r@ == spec_format_ip(ip),
        crate::text::all_ascii(r@),
{
    match ip {
        IpAddr::V4(v) => format_ipv4_ascii(v),
        IpAddr::V6(v) => format_ipv6_ascii(v),
    }
}

/// The textual form of an address, by family.
pub open spec fn spec_format_ip(ip: IpAddr) -> Seq<u8> {
    match ip {
        IpAddr::V4(v) => spec_format_ipv4(v),
        IpAddr::V6(v) => spec_format_ipv6(v),
    }
}

/// The text of any address reads back as that address: rendering and
/// parsing are inverses.
pub proof fn lemma_ip_text_round_trip(ip: IpAddr)
    ensures
        spec_parse_ip(spec_format_ip(ip)) == Some(ip),
{
    match ip {
        IpAddr::V4(v) => {
            lemma_ipv4_text_round_trip(v);
        },
        IpAddr::V6(v) => {
            lemma_ipv6_text_round_trip(v);
            let text = spec_format_ipv6(v);
            let g0 = (v >> 112u128) & 0xffff;
            let g1 = (v >> 96u128) & 0xffff;
            let g2 = (v >> 80u128) & 0xffff;
            let g3 = (v >> 64u128) & 0xffff;
            let g4 = (v >> 48u128) & 0xffff;
            let g5 = (v >> 32u128) & 0xffff;
            let g6 = (v >> 16u128) & 0xffff;
            let g7 = v & 0xffff;
            let pieces = seq![
                hex_digits(g0 as nat),
                hex_digits(g1 as nat),
                hex_digits(g2 as nat),
                hex_digits(g3 as nat),
                hex_digits(g4 as nat),
                hex_digits(g5 as nat),
                hex_digits(g6 as nat),
                hex_digits(g7 as nat),
            ];
            assert forall|i: int, j: int|
                0 <= i < pieces.len() && 0 <= j < pieces[i].len() implies #[trigger] pieces[i][j]
                != 46 by {
                lemma_hex_digits_shape(g0 as nat);
                lemma_hex_digits_shape(g1 as nat);
                lemma_hex_digits_shape(g2 as nat);
                lemma_hex_digits_shape(g3 as nat);
                lemma_hex_digits_shape(g4 as nat);
                lemma_hex_digits_shape(g5 as nat);
                lemma_hex_digits_shape(g6 as nat);
                lemma_hex_digits_shape(g7 as nat);
            }
            lemma_join_avoid(pieces, 58, 46);
            lemma_split_decompose(text, 46, text.len() as int);
            assert(spec_split(text, 46) =~~= seq![text]);
            assert(spec_parse_ipv4(text) is None);
        },
    }
}

impl IpAddr {
    /// Renders the address: dotted decimal, or eight hexadecimal groups.
    /// Parsing the result gives the address back.
    pub fn to_text(&self) -> (s: String)
        ensures
            s@ == crate::text::ascii_chars_of(spec_format_ip(*self)),
    {
        match self {
            IpAddr::V4(v) => format_ipv4(*v),
            IpAddr::V6(v) => format_ipv6(*v),
        }
    }
}

} // verus!
