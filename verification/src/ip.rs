//! IP addresses as plain values: parsing of the standard textual forms
//! (dotted-quad IPv4; IPv6 groups with one `::` compression and an optional
//! embedded IPv4 tail), prefix-mask CIDR membership, and the entry-list check
//! used by the access rules. The spec functions define the accepted grammar
//! exactly; the parsers are proved against them.

use vstd::prelude::*;

use crate::text::{
    dec_digit_val, dec_val, hex_digit_val, hex_val, is_dec_digit, is_hex_digit, seq_views,
    spec_split_once, split_once_char, str_eq,
};

verus! {

/// An address of either family, as its numeric value in network bit order.
#[derive(Clone, Copy, PartialEq, Eq, Structural, Debug)]
pub enum Ip {
    V4(u32),
    V6(u128),
}

// ---------------------------------------------------------------------------
// IPv4 text
// ---------------------------------------------------------------------------

/// Count of consecutive decimal digits at `pos`.
pub open spec fn dec_run(s: Seq<char>, pos: int) -> int
    decreases s.len() - pos,
{
    if pos < 0 || pos >= s.len() || !is_dec_digit(s[pos]) {
        0
    } else {
        1 + dec_run(s, pos + 1)
    }
}

/// One octet at `pos`: one to three digits, no leading zero, value at most
/// 255. Yields the value and the position after it.
pub open spec fn spec_octet_at(s: Seq<char>, pos: int) -> Option<(u8, int)> {
    let n = dec_run(s, pos);
    if 1 <= n <= 3 && !(n > 1 && s[pos] == '0') && dec_val(s.subrange(pos, pos + n)) <= 255 {
        Some((dec_val(s.subrange(pos, pos + n)) as u8, pos + n))
    } else {
        None
    }
}

/// A dotted quad at `pos`: four octets joined by periods. Yields the packed
/// value and the position after it.
pub open spec fn spec_ipv4_at(s: Seq<char>, pos: int) -> Option<(u32, int)> {
    match spec_octet_at(s, pos) {
        None => None,
        Some((a, p1)) => if p1 < s.len() && s[p1] == '.' {
            match spec_octet_at(s, p1 + 1) {
                None => None,
                Some((b, p2)) => if p2 < s.len() && s[p2] == '.' {
                    match spec_octet_at(s, p2 + 1) {
                        None => None,
                        Some((c, p3)) => if p3 < s.len() && s[p3] == '.' {
                            match spec_octet_at(s, p3 + 1) {
                                None => None,
                                Some((d, p4)) => Some(
                                    (
                                        ((a as int) * 0x1000000 + (b as int) * 0x10000 + (
                                        c as int) * 0x100 + (d as int)) as u32,
                                        p4,
                                    ),
                                ),
                            }
                        } else {
                            None
                        },
                    }
                } else {
                    None
                },
            }
        } else {
            None
        },
    }
}

/// The IPv4 texts: a dotted quad covering the whole string.
pub open spec fn spec_parse_ipv4(s: Seq<char>) -> Option<u32> {
    match spec_ipv4_at(s, 0) {
        Some((v, p)) => if p == s.len() {
            Some(v)
        } else {
            None
        },
        None => None,
    }
}

proof fn lemma_dec_run_props(s: Seq<char>, pos: int)
    requires
        0 <= pos <= s.len(),
    ensures
        0 <= dec_run(s, pos),
        pos + dec_run(s, pos) <= s.len(),
        forall|j: int| pos <= j < pos + dec_run(s, pos) ==> is_dec_digit(s[j]),
    decreases s.len() - pos,
{
    if pos < s.len() && is_dec_digit(s[pos]) {
        lemma_dec_run_props(s, pos + 1);
    }
}

fn dec_run_at(s: &str, pos: usize) -> (n: usize)
    requires
        pos <= s@.len(),
    ensures
        n == dec_run(s@, pos as int),
        pos + n <= s@.len(),
    decreases s@.len() - pos,
{
    if pos >= s.unicode_len() {
        return 0;
    }
    let c = s.get_char(pos);
    if c < '0' || c > '9' {
        assert(!is_dec_digit(s@[pos as int]));
        return 0;
    }
    assert(is_dec_digit(s@[pos as int]));
    let rest = dec_run_at(s, pos + 1);
    rest + 1
}

fn octet_at(s: &str, pos: usize) -> (r: Option<(u8, usize)>)
    requires
        pos <= s@.len(),
    ensures
        match r {
            Some((v, p)) => spec_octet_at(s@, pos as int) == Some((v, p as int)) && p <= s@.len(),
            None => spec_octet_at(s@, pos as int) is None,
        },
{
    let len = s.unicode_len();
    let n = dec_run_at(s, pos);
    proof {
        lemma_dec_run_props(s@, pos as int);
    }
    if n < 1 || n > 3 {
        return None;
    }
    if n > 1 && s.get_char(pos) == '0' {
        return None;
    }
    let ghost digits = s@.subrange(pos as int, pos as int + n);
    let mut val: u32 = 0;
    let mut i: usize = 0;
    while i < n
        invariant
            len == s@.len(),
            pos + n <= s@.len(),
            n <= 3,
            0 <= i <= n,
            digits == s@.subrange(pos as int, pos as int + n),
            forall|j: int| pos <= j < pos + n ==> is_dec_digit(s@[j]),
            val == dec_val(digits.take(i as int)),
            val <= 999,
        decreases n - i,
    {
        let c = s.get_char(pos + i);
        let d = (c as u32) - 48;
        proof {
            assert(digits[i as int] == s@[pos + i]);
            assert(is_dec_digit(s@[pos + i]));
            assert(d == dec_digit_val(digits[i as int]));
            assert(digits.take(i as int + 1).drop_last() =~= digits.take(i as int));
            assert(dec_val(digits.take(i as int + 1)) == val * 10 + d);
            crate::text::lemma_dec_val_small(digits.take(i as int + 1));
        }
        val = val * 10 + d;
        i += 1;
    }
    assert(digits.take(n as int) =~= digits);
    if val > 255 {
        return None;
    }
    Some((val as u8, pos + n))
}

fn ipv4_at(s: &str, pos: usize) -> (r: Option<(u32, usize)>)
    requires
        pos <= s@.len(),
    ensures
        match r {
            Some((v, p)) => spec_ipv4_at(s@, pos as int) == Some((v, p as int)) && p <= s@.len(),
            None => spec_ipv4_at(s@, pos as int) is None,
        },
{
    let (a, p1) = match octet_at(s, pos) {
        Some(x) => x,
        None => {
            return None;
        },
    };
    if !(p1 < s.unicode_len() && s.get_char(p1) == '.') {
        return None;
    }
    let (b, p2) = match octet_at(s, p1 + 1) {
        Some(x) => x,
        None => {
            return None;
        },
    };
    if !(p2 < s.unicode_len() && s.get_char(p2) == '.') {
        return None;
    }
    let (c, p3) = match octet_at(s, p2 + 1) {
        Some(x) => x,
        None => {
            return None;
        },
    };
    if !(p3 < s.unicode_len() && s.get_char(p3) == '.') {
        return None;
    }
    let (d, p4) = match octet_at(s, p3 + 1) {
        Some(x) => x,
        None => {
            return None;
        },
    };
    Some(
        (
            (a as u32) * 0x1000000 + (b as u32) * 0x10000 + (c as u32) * 0x100 + (d as u32),
            p4,
        ),
    )
}

/// Parse a whole string as an IPv4 address.
pub fn parse_ipv4(s: &str) -> (r: Option<u32>)
    ensures
        r == spec_parse_ipv4(s@),
{
    match ipv4_at(s, 0) {
        Some((v, p)) => if p == s.unicode_len() {
            Some(v)
        } else {
            None
        },
        None => None,
    }
}

// ---------------------------------------------------------------------------
// IPv6 text
// ---------------------------------------------------------------------------

/// Count of consecutive hexadecimal digits at `pos`.
pub open spec fn hex_run(s: Seq<char>, pos: int) -> int
    decreases s.len() - pos,
{
    if pos < 0 || pos >= s.len() || !is_hex_digit(s[pos]) {
        0
    } else {
        1 + hex_run(s, pos + 1)
    }
}

/// One group at `pos`: one to four hexadecimal digits, leading zeros allowed.
pub open spec fn spec_group_at(s: Seq<char>, pos: int) -> Option<(u16, int)> {
    let n = hex_run(s, pos);
    if 1 <= n <= 4 {
        Some((hex_val(s.subrange(pos, pos + n)) as u16, pos + n))
    } else {
        None
    }
}

/// A run of up to `limit` colon-separated groups at `pos`. The first group of
/// a run takes no leading colon. While at least two slots remain, an embedded
/// dotted quad is tried first and, on success, fills two and ends the run.
/// Yields the groups, the position after them, and whether a quad ended the
/// run.
pub open spec fn spec_groups_at(s: Seq<char>, pos: int, limit: nat, first: bool) -> (
    Seq<u16>,
    int,
    bool,
)
    decreases limit,
{
    if limit == 0 {
        (Seq::<u16>::empty(), pos, false)
    } else {
        let gpos = if first {
            pos
        } else {
            pos + 1
        };
        let sep_ok = first || (pos < s.len() && s[pos] == ':');
        if limit >= 2 && sep_ok && spec_ipv4_at(s, gpos) is Some {
            let (v, p) = spec_ipv4_at(s, gpos)->Some_0;
            (seq![(v / 0x10000) as u16, (v % 0x10000) as u16], p, true)
        } else if sep_ok && spec_group_at(s, gpos) is Some {
            let (g, p) = spec_group_at(s, gpos)->Some_0;
            let (rest, p2, v4) = spec_groups_at(s, p, (limit - 1) as nat, false);
            (seq![g] + rest, p2, v4)
        } else {
            (Seq::<u16>::empty(), pos, false)
        }
    }
}

/// Value of eight groups read in order, highest first.
pub open spec fn groups_val(groups: Seq<u16>) -> nat
    decreases groups.len(),
{
    if groups.len() == 0 {
        0
    } else {
        groups_val(groups.drop_last()) * 0x10000 + groups.last() as nat
    }
}

/// The IPv6 texts: eight groups, or a shorter head and tail joined by one
/// `::` standing for at least one zero group; either part may end in an
/// embedded dotted quad filling two slots, but a quad short of the eighth
/// slot cannot be followed by anything.
pub open spec fn spec_parse_ipv6(s: Seq<char>) -> Option<u128> {
    let (head, pos, head_v4) = spec_groups_at(s, 0, 8, true);
    if head.len() == 8 {
        if pos == s.len() {
            Some(groups_val(head) as u128)
        } else {
            None
        }
    } else if head_v4 {
        None
    } else if pos + 1 < s.len() && s[pos] == ':' && s[pos + 1] == ':' {
        let limit = (8 - head.len() - 1) as nat;
        let (tail, pos2, _) = spec_groups_at(s, pos + 2, limit, true);
        if pos2 == s.len() {
            let zeros = Seq::<u16>::new((8 - head.len() - tail.len()) as nat, |i: int| 0u16);
            Some(groups_val(head + zeros + tail) as u128)
        } else {
            None
        }
    } else {
        None
    }
}

fn hex_run_at(s: &str, pos: usize) -> (n: usize)
    requires
        pos <= s@.len(),
    ensures
        n == hex_run(s@, pos as int),
        pos + n <= s@.len(),
    decreases s@.len() - pos,
{
    if pos >= s.unicode_len() {
        return 0;
    }
    let c = s.get_char(pos);
    if ('0' <= c && c <= '9') || ('a' <= c && c <= 'f') || ('A' <= c && c <= 'F') {
        assert(is_hex_digit(s@[pos as int]));
        let rest = hex_run_at(s, pos + 1);
        rest + 1
    } else {
        assert(!is_hex_digit(s@[pos as int]));
        0
    }
}

fn group_at(s: &str, pos: usize) -> (r: Option<(u16, usize)>)
    requires
        pos <= s@.len(),
    ensures
        match r {
            Some((v, p)) => spec_group_at(s@, pos as int) == Some((v, p as int)) && p <= s@.len(),
            None => spec_group_at(s@, pos as int) is None,
        },
{
    let len = s.unicode_len();
    let n = hex_run_at(s, pos);
    proof {
        lemma_hex_run_props(s@, pos as int);
    }
    if n < 1 || n > 4 {
        return None;
    }
    let ghost digits = s@.subrange(pos as int, pos as int + n);
    let mut val: u32 = 0;
    let mut i: usize = 0;
    while i < n
        invariant
            len == s@.len(),
            pos + n <= s@.len(),
            n <= 4,
            0 <= i <= n,
            digits == s@.subrange(pos as int, pos as int + n),
            forall|j: int| pos <= j < pos + n ==> is_hex_digit(s@[j]),
            val == hex_val(digits.take(i as int)),
            val <= 0xffff,
        decreases n - i,
    {
        let c = s.get_char(pos + i);
        let code = c as u32;
        let d: u32 = if code >= 97 {
            code - 97 + 10
        } else if code >= 65 {
            code - 65 + 10
        } else {
            code - 48
        };
        proof {
            assert(digits[i as int] == s@[pos + i]);
            assert(is_hex_digit(s@[pos + i]));
            assert(d == hex_digit_val(digits[i as int]));
            assert(digits.take(i as int + 1).drop_last() =~= digits.take(i as int));
            assert(hex_val(digits.take(i as int + 1)) == val * 16 + d);
            crate::text::lemma_hex_val_small(digits.take(i as int + 1));
        }
        val = val * 16 + d;
        i += 1;
    }
    assert(digits.take(n as int) =~= digits);
    Some((val as u16, pos + n))
}

fn groups_at(s: &str, pos: usize, limit: u8, first: bool) -> (r: (Vec<u16>, usize, bool))
    requires
        pos <= s@.len(),
    ensures
        r.0@ == spec_groups_at(s@, pos as int, limit as nat, first).0,
        r.1 as int == spec_groups_at(s@, pos as int, limit as nat, first).1,
        r.2 == spec_groups_at(s@, pos as int, limit as nat, first).2,
        r.1 <= s@.len(),
        r.0@.len() <= limit,
    decreases limit,
{
    if limit == 0 {
        let r = (Vec::<u16>::new(), pos, false);
        assert(r.0@ =~= Seq::<u16>::empty());
        return r;
    }
    let sep_ok = first || (pos < s.unicode_len() && s.get_char(pos) == ':');
    if !sep_ok {
        let r = (Vec::<u16>::new(), pos, false);
        assert(r.0@ =~= Seq::<u16>::empty());
        return r;
    }
    let gpos = if first {
        pos
    } else {
        pos + 1
    };
    assert(gpos <= s@.len());
    if limit >= 2 {
        match ipv4_at(s, gpos) {
            Some((v, p)) => {
                let mut groups: Vec<u16> = Vec::new();
                groups.push((v / 0x10000) as u16);
                groups.push((v % 0x10000) as u16);
                assert(groups@ =~= seq![(v / 0x10000) as u16, (v % 0x10000) as u16]);
                return (groups, p, true);
            },
            None => {},
        }
    }
    match group_at(s, gpos) {
        Some((g, p)) => {
            let (rest, p2, v4) = groups_at(s, p, limit - 1, false);
            let mut groups: Vec<u16> = Vec::new();
            groups.push(g);
            let mut k: usize = 0;
            while k < rest.len()
                invariant
                    0 <= k <= rest@.len(),
                    groups@ =~= seq![g] + rest@.take(k as int),
                decreases rest@.len() - k,
            {
                groups.push(rest[k]);
                assert(groups@ =~= seq![g] + rest@.take(k as int + 1));
                k += 1;
            }
            assert(rest@.take(rest@.len() as int) =~= rest@);
            assert(groups@ =~= seq![g] + rest@);
            (groups, p2, v4)
        },
        None => {
            let r = (Vec::<u16>::new(), pos, false);
            assert(r.0@ =~= Seq::<u16>::empty());
            r
        },
    }
}

/// Parse a whole string as an IPv6 address.
pub fn parse_ipv6(s: &str) -> (r: Option<u128>)
    ensures
        r == spec_parse_ipv6(s@),
{
    let len = s.unicode_len();
    let (head, pos, head_v4) = groups_at(s, 0, 8, true);
    if head.len() == 8 {
        if pos == len {
            let v = pack_groups(&head);
            return Some(v);
        }
        return None;
    }
    if head_v4 {
        return None;
    }
    if !(pos < len && pos + 1 < len && s.get_char(pos) == ':' && s.get_char(pos + 1) == ':') {
        return None;
    }
    let limit = (8 - head.len() - 1) as u8;
    let (tail, pos2, _tv4) = groups_at(s, pos + 2, limit, true);
    if pos2 != len {
        return None;
    }
    let mut full: Vec<u16> = Vec::new();
    let mut i: usize = 0;
    while i < head.len()
        invariant
            0 <= i <= head@.len(),
            full@ =~= head@.take(i as int),
        decreases head@.len() - i,
    {
        full.push(head[i]);
        assert(full@ =~= head@.take(i as int + 1));
        i += 1;
    }
    assert(head@.take(head@.len() as int) =~= head@);
    let zero_count = 8 - head.len() - tail.len();
    let ghost zeros = Seq::<u16>::new((8 - head@.len() - tail@.len()) as nat, |i: int| 0u16);
    let mut z: usize = 0;
    while z < zero_count
        invariant
            zero_count == 8 - head@.len() - tail@.len(),
            head@.len() + tail@.len() <= 8,
            zeros == Seq::<u16>::new((8 - head@.len() - tail@.len()) as nat, |i: int| 0u16),
            0 <= z <= zero_count,
            full@ =~= head@ + zeros.take(z as int),
        decreases zero_count - z,
    {
        full.push(0);
        assert(full@ =~= head@ + zeros.take(z as int + 1));
        z += 1;
    }
    assert(zeros.take(zeros.len() as int) =~= zeros);
    let mut j: usize = 0;
    while j < tail.len()
        invariant
            zeros == Seq::<u16>::new((8 - head@.len() - tail@.len()) as nat, |i: int| 0u16),
            0 <= j <= tail@.len(),
            full@ =~= head@ + zeros + tail@.take(j as int),
        decreases tail@.len() - j,
    {
        full.push(tail[j]);
        assert(full@ =~= head@ + zeros + tail@.take(j as int + 1));
        j += 1;
    }
    assert(tail@.take(tail@.len() as int) =~= tail@);
    assert(full@ =~= head@ + zeros + tail@);
    let v = pack_groups(&full);
    Some(v)
}

fn pack_groups(groups: &Vec<u16>) -> (r: u128)
    requires
        groups@.len() <= 8,
    ensures
        r == groups_val(groups@),
{
    let mut r: u128 = 0;
    let mut i: usize = 0;
    while i < groups.len()
        invariant
            groups@.len() <= 8,
            0 <= i <= groups@.len(),
            r == groups_val(groups@.take(i as int)),
        decreases groups@.len() - i,
    {
        proof {
            assert(groups@.take(i as int + 1).drop_last() =~= groups@.take(i as int));
            lemma_groups_val_bound(groups@.take(i as int));
            lemma_pow_groups_le(i as nat);
        }
        r = r * 0x10000 + groups[i] as u128;
        i += 1;
    }
    assert(groups@.take(groups@.len() as int) =~= groups@);
    r
}

proof fn lemma_groups_val_bound(groups: Seq<u16>)
    ensures
        groups_val(groups) < pow_groups(groups.len()),
    decreases groups.len(),
{
    if groups.len() > 0 {
        lemma_groups_val_bound(groups.drop_last());
        assert(groups_val(groups.drop_last()) <= pow_groups((groups.len() - 1) as nat) - 1);
        assert(groups_val(groups.drop_last()) * 0x10000 <= (pow_groups(
            (groups.len() - 1) as nat,
        ) - 1) * 0x10000) by (nonlinear_arith)
            requires
                groups_val(groups.drop_last()) <= pow_groups((groups.len() - 1) as nat) - 1,
        ;
    }
}

pub open spec fn pow_groups(k: nat) -> nat
    decreases k,
{
    if k == 0 {
        1
    } else {
        pow_groups((k - 1) as nat) * 0x10000
    }
}

proof fn lemma_hex_run_props(s: Seq<char>, pos: int)
    requires
        0 <= pos <= s.len(),
    ensures
        0 <= hex_run(s, pos),
        pos + hex_run(s, pos) <= s.len(),
        forall|j: int| pos <= j < pos + hex_run(s, pos) ==> is_hex_digit(s[j]),
    decreases s.len() - pos,
{
    if pos < s.len() && is_hex_digit(s[pos]) {
        lemma_hex_run_props(s, pos + 1);
    }
}

proof fn lemma_pow_groups_le(k: nat)
    requires
        k <= 7,
    ensures
        pow_groups(k) <= 0x10000000000000000000000000000,
{
    assert(pow_groups(0) == 1);
    assert(pow_groups(1) == 0x10000);
    assert(pow_groups(2) == 0x100000000);
    assert(pow_groups(3) == 0x1000000000000);
    assert(pow_groups(4) == 0x10000000000000000);
    assert(pow_groups(5) == 0x100000000000000000000);
    assert(pow_groups(6) == 0x1000000000000000000000000);
    assert(pow_groups(7) == 0x10000000000000000000000000000);
}

/// The IP texts of either family, the quad form tried first.
pub open spec fn spec_parse_ip(s: Seq<char>) -> Option<Ip> {
    if spec_parse_ipv4(s) is Some {
        Some(Ip::V4(spec_parse_ipv4(s)->Some_0))
    } else if spec_parse_ipv6(s) is Some {
        Some(Ip::V6(spec_parse_ipv6(s)->Some_0))
    } else {
        None
    }
}

/// Parse a whole string as an address of either family.
pub fn parse_ip(s: &str) -> (r: Option<Ip>)
    ensures
        r == spec_parse_ip(s@),
{
    match parse_ipv4(s) {
        Some(v) => Some(Ip::V4(v)),
        None => match parse_ipv6(s) {
            Some(v) => Some(Ip::V6(v)),
            None => None,
        },
    }
}

/// The canonical dotted-quad text of a 32-bit address.
pub open spec fn ipv4_text(v: u32) -> Seq<char> {
    crate::text::dec_text((v >> 24) as nat) + "."@ + crate::text::dec_text(
        ((v >> 16) & 0xff) as nat,
    ) + "."@ + crate::text::dec_text(((v >> 8) & 0xff) as nat) + "."@ + crate::text::dec_text(
        (v & 0xff) as nat,
    )
}

/// Render a 32-bit address as its dotted quad.
pub fn ipv4_to_string(v: u32) -> (r: String)
    ensures
        r@ == ipv4_text(v),
{
    let mut r = crate::text::to_dec_string((v >> 24) as u64);
    r.append(".");
    let b = crate::text::to_dec_string(((v >> 16) & 0xff) as u64);
    r.append(b.as_str());
    r.append(".");
    let c = crate::text::to_dec_string(((v >> 8) & 0xff) as u64);
    r.append(c.as_str());
    r.append(".");
    let d = crate::text::to_dec_string((v & 0xff) as u64);
    r.append(d.as_str());
    r
}

/// Whether a 32-bit address lies in the loopback block.
pub open spec fn is_v4_loopback(v: u32) -> bool {
    (v >> 24) == 127
}

// ---------------------------------------------------------------------------
// CIDR membership
// ---------------------------------------------------------------------------

/// Equality of the top `prefix` bits of two 32-bit addresses.
pub open spec fn v4_prefix_eq(c: u32, n: u32, prefix: u8) -> bool {
    prefix == 0 || (c >> ((32 - prefix) as u32)) == (n >> ((32 - prefix) as u32))
}

/// Equality of the top `prefix` bits of two 128-bit addresses.
pub open spec fn v6_prefix_eq(c: u128, n: u128, prefix: u8) -> bool {
    prefix == 0 || (c >> ((128 - prefix) as u32)) == (n >> ((128 - prefix) as u32))
}

/// CIDR membership: within one family, membership is the bitwise equality of
/// the top `prefix_len` bits; an out-of-range prefix and mismatched families
/// never match.
pub fn ip_matches_cidr(client: &Ip, network: &Ip, prefix_len: u8) -> (r: bool)
    ensures
        r == match (*client, *network) {
            (Ip::V4(c), Ip::V4(n)) => prefix_len <= 32 && v4_prefix_eq(c, n, prefix_len),
            (Ip::V6(c), Ip::V6(n)) => prefix_len <= 128 && v6_prefix_eq(c, n, prefix_len),
            _ => false,
        },
{
    match (client, network) {
        (Ip::V4(c), Ip::V4(n)) => {
            if prefix_len > 32 {
                return false;
            }
            if prefix_len == 0 {
                return true;
            }
            let shift = (32 - prefix_len) as u32;
            let mask: u32 = !0u32 << shift;
            let r = (*c & mask) == (*n & mask);
            proof {
                let cc = *c;
                let nn = *n;
                assert(((cc & (!0u32 << shift)) == (nn & (!0u32 << shift))) == ((cc >> shift) == (
                nn >> shift))) by (bit_vector)
                    requires
                        shift < 32,
                ;
            }
            r
        },
        (Ip::V6(c), Ip::V6(n)) => {
            if prefix_len > 128 {
                return false;
            }
            if prefix_len == 0 {
                return true;
            }
            let shift = (128 - prefix_len) as u32;
            let mask: u128 = !0u128 << shift;
            let r = (*c & mask) == (*n & mask);
            proof {
                lemma_v6_mask_shift(*c, *n, shift);
            }
            r
        },
        _ => false,
    }
}

#[verifier::rlimit(100)]
#[verifier::spinoff_prover]
proof fn lemma_v6_mask_shift(c: u128, n: u128, shift: u32)
    requires
        shift < 128,
    ensures
        ((c & (!0u128 << shift)) == (n & (!0u128 << shift))) == ((c >> shift) == (n >> shift)),
{
    assert(((c & (!0u128 << shift)) == (n & (!0u128 << shift))) == ((c >> shift) == (n
        >> shift))) by (bit_vector)
        requires
            shift < 128,
    ;
}

// ---------------------------------------------------------------------------
// Entry lists
// ---------------------------------------------------------------------------

/// Whether one entry admits the client: the entry text reads exactly as the
/// client text, or the entry is `addr/prefix` and the client value falls in
/// that range.
pub open spec fn entry_matches(client_text: Seq<char>, client: Ip, entry: Seq<char>) -> bool {
    ||| entry == client_text
    ||| match spec_split_once(entry, '/') {
        Some((net_text, prefix_text)) => match (
            spec_parse_ip(net_text),
            crate::text::spec_parse_u64(prefix_text),
        ) {
            (Some(net), Some(p)) => p <= 255 && match (client, net) {
                (Ip::V4(c), Ip::V4(n)) => p <= 32 && v4_prefix_eq(c, n, p as u8),
                (Ip::V6(c), Ip::V6(n)) => p <= 128 && v6_prefix_eq(c, n, p as u8),
                _ => false,
            },
            _ => false,
        },
        None => false,
    }
}

/// Whether the client's address matches some entry of the list: the client
/// text must itself parse as an address, and each entry admits by exact text
/// or by CIDR range.
pub open spec fn spec_ip_in_list(client_text: Seq<char>, entries: Seq<Seq<char>>) -> bool {
    match spec_parse_ip(client_text) {
        None => false,
        Some(client) => exists|i: int|
            0 <= i < entries.len() && entry_matches(client_text, client, #[trigger] entries[i]),
    }
}

/// Check a client address against an allow or block list.
pub fn is_ip_in_list(client_ip: &str, list: &Vec<String>) -> (r: bool)
    ensures
        r == spec_ip_in_list(client_ip@, seq_views(list@)),
{
    let client = match parse_ip(client_ip) {
        Some(c) => c,
        None => {
            return false;
        },
    };
    let mut i: usize = 0;
    while i < list.len()
        invariant
            spec_parse_ip(client_ip@) == Some(client),
            0 <= i <= list@.len(),
            forall|j: int| 0 <= j < i ==> !entry_matches(
                client_ip@,
                client,
                #[trigger] seq_views(list@)[j],
            ),
        decreases list@.len() - i,
    {
        let entry = &list[i];
        assert(entry@ == seq_views(list@)[i as int]);
        if str_eq(entry.as_str(), client_ip) {
            return true;
        }
        match split_once_char(entry.as_str(), '/') {
            Some((net_text, prefix_text)) => {
                let net = parse_ip(net_text.as_str());
                let prefix = crate::text::parse_u64(prefix_text.as_str());
                match (net, prefix) {
                    (Some(n), Some(p)) => {
                        if p <= 255 {
                            if ip_matches_cidr(&client, &n, p as u8) {
                                assert(entry_matches(client_ip@, client, seq_views(list@)[i as int]));
                                return true;
                            }
                        }
                    },
                    _ => {},
                }
            },
            None => {},
        }
        proof {
            assert(!entry_matches(client_ip@, client, seq_views(list@)[i as int]));
        }
        i += 1;
    }
    assert(!spec_ip_in_list(client_ip@, seq_views(list@)));
    false
}

} // verus!
