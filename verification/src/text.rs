//! Verified text utilities: character-exact string equality, decimal and
//! hexadecimal numerals, splitting on separator characters, prefix stripping,
//! substring search and ASCII case folding. All contracts are stated over
//! `Seq<char>` views.

use vstd::prelude::*;

verus! {

/// Character-exact equality of two strings.
pub fn str_eq(a: &str, b: &str) -> (r: bool)
    ensures
        r == (a@ == b@),
{
    let alen = a.unicode_len();
    let blen = b.unicode_len();
    if alen != blen {
        assert(a@ != b@) by {
            assert(a@.len() != b@.len());
        }
        return false;
    }
    let mut i: usize = 0;
    while i < alen
        invariant
            alen == a@.len(),
            alen == b@.len(),
            0 <= i <= alen,
            forall|j: int| 0 <= j < i ==> a@[j] == b@[j],
        decreases alen - i,
    {
        if a.get_char(i) != b.get_char(i) {
            return false;
        }
        i += 1;
    }
    assert(a@ =~= b@);
    true
}

/// Whether `c` is a decimal digit.
pub open spec fn is_dec_digit(c: char) -> bool {
    '0' <= c && c <= '9'
}

/// Numeric value of a decimal digit.
pub open spec fn dec_digit_val(c: char) -> nat {
    (c as nat - '0' as nat) as nat
}

/// Whether every character of `s` is a decimal digit.
pub open spec fn all_dec_digits(s: Seq<char>) -> bool {
    forall|i: int| 0 <= i < s.len() ==> is_dec_digit(#[trigger] s[i])
}

/// Value of a digit string read as a base-10 numeral.
pub open spec fn dec_val(s: Seq<char>) -> nat
    decreases s.len(),
{
    if s.len() == 0 {
        0
    } else {
        dec_val(s.drop_last()) * 10 + dec_digit_val(s.last())
    }
}

/// The canonical decimal rendering of `n`: no leading zeros, at least one digit.
pub open spec fn dec_text(n: nat) -> Seq<char>
    decreases n,
{
    if n < 10 {
        seq![dec_digit_char(n)]
    } else {
        dec_text(n / 10).push(dec_digit_char(n % 10))
    }
}

/// The digit character for a value below ten.
pub open spec fn dec_digit_char(d: nat) -> char {
    if d == 0 {
        '0'
    } else if d == 1 {
        '1'
    } else if d == 2 {
        '2'
    } else if d == 3 {
        '3'
    } else if d == 4 {
        '4'
    } else if d == 5 {
        '5'
    } else if d == 6 {
        '6'
    } else if d == 7 {
        '7'
    } else if d == 8 {
        '8'
    } else {
        '9'
    }
}

proof fn lemma_dec_val_bound(s: Seq<char>, k: nat)
    requires
        all_dec_digits(s),
        s.len() <= k,
    ensures
        dec_val(s) < pow10(k),
    decreases s.len(),
{
    if s.len() == 0 {
        lemma_pow10_pos(k);
    } else {
        let front = s.drop_last();
        lemma_dec_val_bound(front, (k - 1) as nat);
        assert(dec_val(s) == dec_val(front) * 10 + dec_digit_val(s.last()));
        assert(dec_val(front) <= pow10((k - 1) as nat) - 1);
        assert(dec_val(front) * 10 <= (pow10((k - 1) as nat) - 1) * 10) by (nonlinear_arith)
            requires
                dec_val(front) <= pow10((k - 1) as nat) - 1,
        ;
        assert(pow10(k) == pow10((k - 1) as nat) * 10);
    }
}

pub open spec fn pow10(k: nat) -> nat
    decreases k,
{
    if k == 0 {
        1
    } else {
        pow10((k - 1) as nat) * 10
    }
}

proof fn lemma_pow10_pos(k: nat)
    ensures
        pow10(k) >= 1,
    decreases k,
{
    if k > 0 {
        lemma_pow10_pos((k - 1) as nat);
    }
}

/// Render a value below ten as a one-character string.
fn dec_digit_str(d: u64) -> (r: &'static str)
    requires
        d < 10,
    ensures
        r@ =~= seq![dec_digit_char(d as nat)],
{
    if d == 0 {
        proof { reveal_strlit("0"); }
        "0"
    } else if d == 1 {
        proof { reveal_strlit("1"); }
        "1"
    } else if d == 2 {
        proof { reveal_strlit("2"); }
        "2"
    } else if d == 3 {
        proof { reveal_strlit("3"); }
        "3"
    } else if d == 4 {
        proof { reveal_strlit("4"); }
        "4"
    } else if d == 5 {
        proof { reveal_strlit("5"); }
        "5"
    } else if d == 6 {
        proof { reveal_strlit("6"); }
        "6"
    } else if d == 7 {
        proof { reveal_strlit("7"); }
        "7"
    } else if d == 8 {
        proof { reveal_strlit("8"); }
        "8"
    } else {
        proof { reveal_strlit("9"); }
        "9"
    }
}

/// Render `n` as its canonical decimal text.
pub fn to_dec_string(n: u64) -> (r: String)
    ensures
        r@ == dec_text(n as nat),
    decreases n,
{
    if n < 10 {
        let r = String::from_str(dec_digit_str(n));
        assert(r@ =~= dec_text(n as nat));
        r
    } else {
        let mut r = to_dec_string(n / 10);
        r.append(dec_digit_str(n % 10));
        assert(r@ =~= dec_text(n as nat));
        r
    }
}

/// Parse a digit run as in the standard numeric grammar: one optional leading
/// `+`, then one or more decimal digits, any leading zeros allowed. `None` when
/// the text has another shape or the value exceeds `u64::MAX`.
pub open spec fn spec_parse_u64(s: Seq<char>) -> Option<u64> {
    let digits = if s.len() >= 1 && s[0] == '+' {
        s.drop_first()
    } else {
        s
    };
    if digits.len() >= 1 && all_dec_digits(digits) && dec_val(digits) <= u64::MAX {
        Some(dec_val(digits) as u64)
    } else {
        None
    }
}

proof fn lemma_dec_val_take_step(s: Seq<char>, i: int)
    requires
        0 <= i < s.len(),
    ensures
        dec_val(s.take(i + 1)) == dec_val(s.take(i)) * 10 + dec_digit_val(s[i]),
{
    assert(s.take(i + 1).drop_last() =~= s.take(i));
    assert(s.take(i + 1).last() == s[i]);
}

/// Parse `s` as the standard library parses a `u64`.
pub fn parse_u64(s: &str) -> (r: Option<u64>)
    ensures
        r == spec_parse_u64(s@),
{
    let len = s.unicode_len();
    let mut i: usize = 0;
    if len >= 1 && s.get_char(0) == '+' {
        i = 1;
    }
    let ghost digits = if s@.len() >= 1 && s@[0] == '+' { s@.drop_first() } else { s@ };
    if i >= len {
        return None;
    }
    let start = i;
    let mut acc: u64 = 0;
    while i < len
        invariant
            len == s@.len(),
            start <= i <= len,
            start == if s@.len() >= 1 && s@[0] == '+' { 1int } else { 0int },
            digits == s@.subrange(start as int, len as int),
            forall|j: int| start <= j < i ==> is_dec_digit(#[trigger] s@[j]),
            acc == dec_val(digits.take(i - start)),
            dec_val(digits.take(i - start)) <= u64::MAX,
        decreases len - i,
    {
        let c = s.get_char(i);
        let code = c as u32;
        if code < 48 || code > 57 {
            assert(!is_dec_digit(s@[i as int]));
            assert(digits[i - start] == s@[i as int]);
            assert(!all_dec_digits(digits));
            return None;
        }
        assert(is_dec_digit(s@[i as int]));
        let d = (code - 48) as u64;
        assert(d == dec_digit_val(s@[i as int]));
        proof {
            assert(digits[i - start] == s@[i as int]);
            lemma_dec_val_take_step(digits, i - start);
            assert(dec_val(digits.take(i - start + 1)) == acc * 10 + d);
        }
        // checked accumulate: acc * 10 + d
        let step = acc.checked_mul(10);
        match step {
            Some(m) => {
                match m.checked_add(d) {
                    Some(v) => {
                        acc = v;
                    },
                    None => {
                        proof {
                            assert(dec_val(digits.take(i + 1 - start)) == acc * 10 + d);
                            assert(acc * 10 + d > u64::MAX);
                            lemma_dec_val_grows_from(digits, i + 1 - start);
                            assert(dec_val(digits) > u64::MAX);
                            assert(digits == (if s@.len() >= 1 && s@[0] == '+' { s@.drop_first() } else { s@ }));
                            assert(dec_val(if s@.len() >= 1 && s@[0] == '+' { s@.drop_first() } else { s@ }) > u64::MAX);
                            assert(spec_parse_u64(s@) is None);
                        }
                        return None;
                    },
                }
            },
            None => {
                proof {
                    assert(dec_val(digits.take(i + 1 - start)) == acc * 10 + d);
                    assert(acc * 10 > u64::MAX);
                    lemma_dec_val_grows_from(digits, i + 1 - start);
                    assert(dec_val(digits) > u64::MAX);
                    assert(digits == (if s@.len() >= 1 && s@[0] == '+' { s@.drop_first() } else { s@ }));
                    assert(dec_val(if s@.len() >= 1 && s@[0] == '+' { s@.drop_first() } else { s@ }) > u64::MAX);
                    assert(spec_parse_u64(s@) is None);
                }
                return None;
            },
        }
        i += 1;
    }
    assert(digits.take(len - start) =~= digits);
    assert(all_dec_digits(digits));
    Some(acc)
}

proof fn lemma_dec_val_grows_from(s: Seq<char>, i: int)
    requires
        0 <= i <= s.len(),
    ensures
        dec_val(s.take(i)) <= dec_val(s),
    decreases s.len() - i,
{
    if i < s.len() {
        assert(s.take(i + 1).drop_last() =~= s.take(i));
        assert(dec_val(s.take(i + 1)) == dec_val(s.take(i)) * 10 + dec_digit_val(s.take(i + 1).last()));
        assert(dec_val(s.take(i)) * 10 >= dec_val(s.take(i))) by (nonlinear_arith);
        lemma_dec_val_grows_from(s, i + 1);
    } else {
        assert(s.take(i) =~= s);
    }
}

/// A decimal rendering has at least one place.
pub proof fn lemma_dec_text_len(n: nat)
    ensures
        dec_text(n).len() >= 1,
    decreases n,
{
    if n >= 10 {
        lemma_dec_text_len(n / 10);
    }
}

/// A digit string of at most three places stays below one thousand.
pub proof fn lemma_dec_val_small(s: Seq<char>)
    requires
        all_dec_digits(s),
        s.len() <= 3,
    ensures
        dec_val(s) <= 999,
{
    lemma_dec_val_bound(s, 3);
    assert(pow10(3) == 1000) by {
        assert(pow10(0) == 1);
        assert(pow10(1) == 10);
        assert(pow10(2) == 100);
    }
}

proof fn lemma_hex_val_bound(s: Seq<char>, k: nat)
    requires
        all_hex_digits(s),
        s.len() <= k,
    ensures
        hex_val(s) < pow16(k),
    decreases s.len(),
{
    if s.len() == 0 {
        lemma_pow16_pos(k);
    } else {
        let front = s.drop_last();
        lemma_hex_val_bound(front, (k - 1) as nat);
        assert(hex_val(s) == hex_val(front) * 16 + hex_digit_val(s.last()));
        assert(hex_val(front) <= pow16((k - 1) as nat) - 1);
        assert(hex_val(front) * 16 <= (pow16((k - 1) as nat) - 1) * 16) by (nonlinear_arith)
            requires
                hex_val(front) <= pow16((k - 1) as nat) - 1,
        ;
        assert(pow16(k) == pow16((k - 1) as nat) * 16);
    }
}

pub open spec fn pow16(k: nat) -> nat
    decreases k,
{
    if k == 0 {
        1
    } else {
        pow16((k - 1) as nat) * 16
    }
}

proof fn lemma_pow16_pos(k: nat)
    ensures
        pow16(k) >= 1,
    decreases k,
{
    if k > 0 {
        lemma_pow16_pos((k - 1) as nat);
    }
}

/// A digit string of at most four places stays below sixty-five thousand
/// five hundred thirty-six.
pub proof fn lemma_hex_val_small(s: Seq<char>)
    requires
        all_hex_digits(s),
        s.len() <= 4,
    ensures
        hex_val(s) <= 0xffff,
{
    lemma_hex_val_bound(s, 4);
    assert(pow16(4) == 0x10000) by {
        assert(pow16(0) == 1);
        assert(pow16(1) == 16);
        assert(pow16(2) == 256);
        assert(pow16(3) == 4096);
    }
}

/// The views of a sequence of owned strings.
pub open spec fn seq_views(v: Seq<String>) -> Seq<Seq<char>> {
    v.map_values(|p: String| p@)
}

/// Splitting `s` on every occurrence of `sep`, as `str::split` does: `n`
/// separators yield `n + 1` pieces, empty pieces included.
pub open spec fn spec_split(s: Seq<char>, sep: char) -> Seq<Seq<char>>
    decreases s.len(),
{
    if s.len() == 0 {
        seq![Seq::<char>::empty()]
    } else {
        let rest = spec_split(s.drop_first(), sep);
        if s[0] == sep {
            seq![Seq::<char>::empty()] + rest
        } else {
            seq![seq![s[0]] + rest[0]] + rest.skip(1)
        }
    }
}

pub proof fn lemma_split_len(s: Seq<char>, sep: char)
    ensures
        spec_split(s, sep).len() >= 1,
    decreases s.len(),
{
    if s.len() > 0 {
        lemma_split_len(s.drop_first(), sep);
    }
}

/// A separator-free string splits into itself alone.
pub proof fn lemma_split_sep_free(s: Seq<char>, sep: char)
    requires
        !s.contains(sep),
    ensures
        spec_split(s, sep) =~= seq![s],
    decreases s.len(),
{
    if s.len() > 0 {
        assert(s[0] != sep);
        assert(forall|j: int| 0 <= j < s.drop_first().len() ==> s.drop_first()[j] == s[j + 1]);
        assert(!s.drop_first().contains(sep)) by {
            if s.drop_first().contains(sep) {
                let j = choose|j: int| 0 <= j < s.drop_first().len() && s.drop_first()[j] == sep;
                assert(s[j + 1] == sep);
            }
        }
        lemma_split_sep_free(s.drop_first(), sep);
        let rest = spec_split(s.drop_first(), sep);
        assert(rest =~= seq![s.drop_first()]);
        assert(rest[0] == s.drop_first());
        assert(rest.skip(1) =~= Seq::<Seq<char>>::empty());
        assert(spec_split(s, sep) == seq![seq![s[0]] + rest[0]] + rest.skip(1));
        assert(seq![s[0]] + rest[0] =~= s);
        assert(spec_split(s, sep) =~= seq![s]);
    } else {
        assert(s =~= Seq::<char>::empty());
        assert(spec_split(s, sep) =~= seq![s]);
    }
}

/// Splitting after the first separator: a separator-free head token peels off.
pub proof fn lemma_split_prepend(t: Seq<char>, rest: Seq<char>, sep: char)
    requires
        !t.contains(sep),
    ensures
        spec_split(t + seq![sep] + rest, sep) =~= seq![t] + spec_split(rest, sep),
    decreases t.len(),
{
    let s = t + seq![sep] + rest;
    if t.len() == 0 {
        assert(s =~= seq![sep] + rest);
        assert(s[0] == sep);
        assert(s.drop_first() =~= rest);
        assert(spec_split(s, sep) == seq![Seq::<char>::empty()] + spec_split(s.drop_first(), sep));
        assert(t =~= Seq::<char>::empty());
        assert(spec_split(s, sep) =~= seq![t] + spec_split(rest, sep));
    } else {
        assert(s[0] == t[0]);
        assert(t[0] != sep);
        let t1 = t.drop_first();
        assert(!t1.contains(sep)) by {
            if t1.contains(sep) {
                let j = choose|j: int| 0 <= j < t1.len() && t1[j] == sep;
                assert(t[j + 1] == sep);
            }
        }
        lemma_split_prepend(t1, rest, sep);
        assert(s.drop_first() =~= t1 + seq![sep] + rest);
        let inner = spec_split(s.drop_first(), sep);
        assert(inner =~= seq![t1] + spec_split(rest, sep));
        lemma_split_len(rest, sep);
        assert(inner[0] == t1);
        assert(seq![s[0]] + inner[0] =~= t);
        assert(inner.skip(1) =~= spec_split(rest, sep));
        assert(spec_split(s, sep) == seq![seq![s[0]] + inner[0]] + inner.skip(1));
        assert(spec_split(s, sep) =~= seq![t] + spec_split(rest, sep));
    }
}

/// Split `s` on every occurrence of `sep`.
pub fn split_char(s: &str, sep: char) -> (parts: Vec<String>)
    ensures
        seq_views(parts@) == spec_split(s@, sep),
{
    let len = s.unicode_len();
    let mut parts: Vec<String> = Vec::new();
    let mut start: usize = 0;
    let mut i: usize = 0;
    proof {
        assert(s@.subrange(0, len as int) =~= s@);
        assert(seq_views(parts@) =~= Seq::<Seq<char>>::empty());
        assert(seq_views(parts@) + spec_split(s@, sep) =~= spec_split(s@, sep));
    }
    while i < len
        invariant
            len == s@.len(),
            0 <= start <= i <= len,
            forall|j: int| start <= j < i ==> s@[j] != sep,
            seq_views(parts@) + spec_split(s@.subrange(start as int, len as int), sep)
                =~= spec_split(s@, sep),
        decreases len - i,
    {
        if s.get_char(i) == sep {
            let piece = s.substring_char(start, i).to_owned();
            proof {
                let t = s@.subrange(start as int, i as int);
                let remaining = s@.subrange(start as int, len as int);
                let new_rem = s@.subrange(i as int + 1, len as int);
                assert(!t.contains(sep)) by {
                    if t.contains(sep) {
                        let j = choose|j: int| 0 <= j < t.len() && t[j] == sep;
                        assert(s@[start + j] == sep);
                    }
                }
                assert(remaining =~= t + seq![sep] + new_rem);
                lemma_split_prepend(t, new_rem, sep);
                assert(seq_views(parts@.push(piece)) =~= seq_views(parts@).push(t));
                assert(seq_views(parts@).push(t) + spec_split(new_rem, sep)
                    =~= seq_views(parts@) + (seq![t] + spec_split(new_rem, sep)));
            }
            parts.push(piece);
            start = i + 1;
        }
        i += 1;
    }
    let piece = s.substring_char(start, len).to_owned();
    proof {
        let t = s@.subrange(start as int, len as int);
        assert(!t.contains(sep)) by {
            if t.contains(sep) {
                let j = choose|j: int| 0 <= j < t.len() && t[j] == sep;
                assert(s@[start + j] == sep);
            }
        }
        lemma_split_sep_free(t, sep);
        assert(seq_views(parts@.push(piece)) =~= seq_views(parts@).push(t));
        assert(seq_views(parts@).push(t) =~= seq_views(parts@) + seq![t]);
    }
    parts.push(piece);
    parts
}

/// Index of the first occurrence of `sep`, or the length when absent.
pub open spec fn first_sep(s: Seq<char>, sep: char) -> int
    decreases s.len(),
{
    if s.len() == 0 {
        0
    } else if s[0] == sep {
        0
    } else {
        1 + first_sep(s.drop_first(), sep)
    }
}

pub proof fn lemma_first_sep(s: Seq<char>, sep: char)
    ensures
        0 <= first_sep(s, sep) <= s.len(),
        first_sep(s, sep) < s.len() ==> s[first_sep(s, sep)] == sep,
        forall|j: int| 0 <= j < first_sep(s, sep) ==> s[j] != sep,
    decreases s.len(),
{
    if s.len() > 0 && s[0] != sep {
        lemma_first_sep(s.drop_first(), sep);
        assert forall|j: int| 0 <= j < first_sep(s, sep) implies s[j] != sep by {
            if j > 0 {
                assert(s.drop_first()[j - 1] != sep);
            }
        }
    }
}

/// Split at the first occurrence of `sep`, as `str::split_once` does.
pub open spec fn spec_split_once(s: Seq<char>, sep: char) -> Option<(Seq<char>, Seq<char>)> {
    let i = first_sep(s, sep);
    if i == s.len() {
        None
    } else {
        Some((s.take(i), s.skip(i + 1)))
    }
}

pub fn split_once_char(s: &str, sep: char) -> (r: Option<(String, String)>)
    ensures
        match r {
            Some((a, b)) => spec_split_once(s@, sep) == Some((a@, b@)),
            None => spec_split_once(s@, sep) is None,
        },
{
    proof {
        lemma_first_sep(s@, sep);
    }
    let len = s.unicode_len();
    let mut i: usize = 0;
    while i < len
        invariant
            len == s@.len(),
            0 <= i <= len,
            forall|j: int| 0 <= j < i ==> s@[j] != sep,
        decreases len - i,
    {
        if s.get_char(i) == sep {
            proof {
                lemma_first_sep_at(s@, sep, i as int);
            }
            let a = s.substring_char(0, i).to_owned();
            let b = s.substring_char(i + 1, len).to_owned();
            assert(a@ =~= s@.take(i as int));
            assert(b@ =~= s@.skip(i as int + 1));
            return Some((a, b));
        }
        i += 1;
    }
    proof {
        if first_sep(s@, sep) < s@.len() {
            assert(s@[first_sep(s@, sep)] == sep);
        }
    }
    None
}

/// When all characters before `i` differ from `sep` and `s[i] == sep`, `i` is
/// the first occurrence.
pub proof fn lemma_first_sep_at(s: Seq<char>, sep: char, i: int)
    requires
        0 <= i < s.len(),
        s[i] == sep,
        forall|j: int| 0 <= j < i ==> s[j] != sep,
    ensures
        first_sep(s, sep) == i,
{
    lemma_first_sep(s, sep);
    if first_sep(s, sep) < i {
        assert(s[first_sep(s, sep)] != sep);
    }
}

/// Whether `p` is a prefix of `s`.
pub open spec fn is_prefix_of(p: Seq<char>, s: Seq<char>) -> bool {
    p.len() <= s.len() && s.take(p.len() as int) == p
}

/// Strip a prefix, as `str::strip_prefix` does.
pub fn strip_prefix_str(s: &str, p: &str) -> (r: Option<String>)
    ensures
        match r {
            Some(rest) => is_prefix_of(p@, s@) && rest@ == s@.skip(p@.len() as int),
            None => !is_prefix_of(p@, s@),
        },
{
    let slen = s.unicode_len();
    let plen = p.unicode_len();
    if plen > slen {
        assert(!is_prefix_of(p@, s@));
        return None;
    }
    let mut i: usize = 0;
    while i < plen
        invariant
            slen == s@.len(),
            plen == p@.len(),
            plen <= slen,
            0 <= i <= plen,
            forall|j: int| 0 <= j < i ==> s@[j] == p@[j],
        decreases plen - i,
    {
        if s.get_char(i) != p.get_char(i) {
            assert(s@.take(p@.len() as int)[i as int] != p@[i as int]);
            return None;
        }
        i += 1;
    }
    let rest = s.substring_char(plen, slen).to_owned();
    assert(s@.take(p@.len() as int) =~= p@);
    Some(rest)
}

/// Whether `pat` occurs in `s` at index `i`.
pub open spec fn matches_at(s: Seq<char>, pat: Seq<char>, i: int) -> bool {
    0 <= i && i + pat.len() <= s.len() && s.subrange(i, i + pat.len() as int) == pat
}

fn check_match(s: &str, pat: &str, i: usize) -> (r: bool)
    requires
        i + pat@.len() <= s@.len(),
    ensures
        r == matches_at(s@, pat@, i as int),
{
    let slen = s.unicode_len();
    let plen = pat.unicode_len();
    let mut j: usize = 0;
    while j < plen
        invariant
            slen == s@.len(),
            plen == pat@.len(),
            i + plen <= s@.len(),
            0 <= j <= plen,
            forall|k: int| 0 <= k < j ==> s@[i + k] == pat@[k],
        decreases plen - j,
    {
        if s.get_char(i + j) != pat.get_char(j) {
            assert(s@.subrange(i as int, i + plen as int)[j as int] != pat@[j as int]);
            return false;
        }
        j += 1;
    }
    assert(s@.subrange(i as int, i + plen as int) =~= pat@);
    true
}

/// Index of the first occurrence of `pat` in `s`, as `str::find` reports it.
pub fn find_str(s: &str, pat: &str) -> (r: Option<usize>)
    ensures
        match r {
            Some(i) => matches_at(s@, pat@, i as int) && forall|j: int|
                0 <= j < i ==> !matches_at(s@, pat@, j),
            None => forall|j: int| !matches_at(s@, pat@, j),
        },
{
    let slen = s.unicode_len();
    let plen = pat.unicode_len();
    if plen > slen {
        return None;
    }
    if plen == 0 {
        assert(matches_at(s@, pat@, 0)) by {
            assert(s@.subrange(0, 0) =~= pat@);
        }
        return Some(0);
    }
    let limit = slen - plen;
    let mut i: usize = 0;
    while i <= limit
        invariant
            slen == s@.len(),
            plen == pat@.len(),
            1 <= plen <= slen,
            limit == slen - plen,
            0 <= i <= limit + 1,
            forall|j: int| 0 <= j < i ==> !matches_at(s@, pat@, j),
        decreases limit + 1 - i,
    {
        if check_match(s, pat, i) {
            return Some(i);
        }
        i += 1;
    }
    assert forall|j: int| !matches_at(s@, pat@, j) by {
        if 0 <= j && j + pat@.len() <= s@.len() {
            assert(j <= limit);
            assert(!matches_at(s@, pat@, j));
        }
    }
    None
}

/// Whether `pat` occurs anywhere in `s`.
pub open spec fn contains_sub(s: Seq<char>, pat: Seq<char>) -> bool {
    exists|i: int| matches_at(s, pat, i)
}

pub fn contains_str(s: &str, pat: &str) -> (r: bool)
    ensures
        r == contains_sub(s@, pat@),
{
    match find_str(s, pat) {
        Some(i) => {
            assert(matches_at(s@, pat@, i as int));
            true
        },
        None => false,
    }
}

/// Whether `p` is a suffix of `s`.
pub open spec fn is_suffix_of(p: Seq<char>, s: Seq<char>) -> bool {
    p.len() <= s.len() && s.skip(s.len() - p.len()) == p
}

/// Whether `s` ends with `p`, as `str::ends_with` reports it.
pub fn ends_with_str(s: &str, p: &str) -> (r: bool)
    ensures
        r == is_suffix_of(p@, s@),
{
    let slen = s.unicode_len();
    let plen = p.unicode_len();
    if plen > slen {
        assert(!is_suffix_of(p@, s@));
        return false;
    }
    let off = slen - plen;
    let mut i: usize = 0;
    while i < plen
        invariant
            slen == s@.len(),
            plen == p@.len(),
            off == slen - plen,
            0 <= i <= plen,
            forall|j: int| 0 <= j < i ==> s@[off + j] == p@[j],
        decreases plen - i,
    {
        if s.get_char(off + i) != p.get_char(i) {
            assert(s@.skip(off as int)[i as int] != p@[i as int]);
            return false;
        }
        i += 1;
    }
    assert(s@.skip(off as int) =~= p@);
    true
}

/// Index of the last occurrence of `pat` in `s`, as `str::rfind` reports it.
pub fn rfind_str(s: &str, pat: &str) -> (r: Option<usize>)
    ensures
        match r {
            Some(i) => matches_at(s@, pat@, i as int) && forall|j: int|
                i < j ==> !matches_at(s@, pat@, j),
            None => forall|j: int| !matches_at(s@, pat@, j),
        },
{
    let slen = s.unicode_len();
    let plen = pat.unicode_len();
    if plen > slen {
        return None;
    }
    let mut i: usize = slen - plen;
    loop
        invariant
            slen == s@.len(),
            plen == pat@.len(),
            plen <= slen,
            0 <= i <= slen - plen,
            forall|j: int| i < j ==> !matches_at(s@, pat@, j),
        decreases i + 1,
    {
        if check_match(s, pat, i) {
            return Some(i);
        }
        if i == 0 {
            assert(forall|j: int| j < 0 ==> !matches_at(s@, pat@, j));
            return None;
        }
        i -= 1;
    }
}

/// The pieces joined with single spaces.
pub open spec fn spec_join_spaces(parts: Seq<Seq<char>>) -> Seq<char>
    decreases parts.len(),
{
    if parts.len() == 0 {
        Seq::<char>::empty()
    } else if parts.len() == 1 {
        parts[0]
    } else {
        spec_join_spaces(parts.drop_last()) + seq![' '] + parts.last()
    }
}

/// Join strings with single spaces, as a whitespace-collapsing rejoin does.
pub fn join_spaces(parts: &Vec<String>, from: usize) -> (r: String)
    requires
        from <= parts@.len(),
    ensures
        r@ == spec_join_spaces(seq_views(parts@).skip(from as int)),
{
    let mut r = String::new();
    let mut i: usize = from;
    assert(seq_views(parts@).skip(from as int).take(0) =~= Seq::<Seq<char>>::empty());
    while i < parts.len()
        invariant
            from <= i <= parts@.len(),
            r@ == spec_join_spaces(seq_views(parts@).skip(from as int).take(i - from)),
        decreases parts@.len() - i,
    {
        let ghost tail = seq_views(parts@).skip(from as int);
        let ghost r_pre = r@;
        proof {
            assert(tail.take(i - from + 1).drop_last() =~= tail.take(i - from));
            assert(tail.take(i - from + 1).last() == seq_views(parts@)[i as int]);
        }
        if i > from {
            r.append(" ");
        }
        r.append(parts[i].as_str());
        proof {
            if i == from {
                assert(r@ == spec_join_spaces(tail.take(i - from + 1))) by {
                    assert(tail.take(i - from + 1) == tail.take(1)) by {
                        assert(tail.take(i - from + 1) =~= tail.take(1));
                    }
                    assert(tail.take(1).len() == 1);
                    assert(tail.take(1)[0] == tail[0]);
                    assert(spec_join_spaces(tail.take(1)) == tail.take(1)[0]);
                    assert(tail[0] == seq_views(parts@)[i as int]);
                    assert(r@ == tail[0]) by {
                        assert(r@ =~= tail[0]);
                    }
                }
            } else {
                assert(r@ == spec_join_spaces(tail.take(i - from + 1))) by {
                    reveal_strlit(" ");
                    assert(" "@ =~= seq![' ']);
                    assert(tail.take(i - from + 1).len() >= 2);
                    assert(spec_join_spaces(tail.take(i - from + 1)) == spec_join_spaces(
                        tail.take(i - from),
                    ) + seq![' '] + seq_views(parts@)[i as int]);
                    assert(r@ =~= r_pre + seq![' '] + seq_views(parts@)[i as int]);
                }
            }
        }
        i += 1;
    }
    proof {
        assert(seq_views(parts@).skip(from as int).take(parts@.len() - from) =~= seq_views(
            parts@,
        ).skip(from as int));
    }
    r
}

/// ASCII whitespace as `str::trim` treats the common cases.
pub open spec fn is_space(c: char) -> bool {
    c == ' ' || c == '\t' || c == '\r' || c == '\n'
}

/// Index of the first character that is not whitespace, or the length.
pub open spec fn first_non_space(s: Seq<char>) -> int
    decreases s.len(),
{
    if s.len() == 0 {
        0
    } else if !is_space(s[0]) {
        0
    } else {
        1 + first_non_space(s.drop_first())
    }
}

/// Index of the last character that is not whitespace, or `-1`.
pub open spec fn last_non_space(s: Seq<char>) -> int
    decreases s.len(),
{
    if s.len() == 0 {
        -1
    } else if !is_space(s.last()) {
        s.len() - 1
    } else {
        last_non_space(s.drop_last())
    }
}

/// `s` with leading and trailing whitespace removed.
pub open spec fn spec_trim(s: Seq<char>) -> Seq<char> {
    if first_non_space(s) == s.len() {
        Seq::<char>::empty()
    } else {
        s.subrange(first_non_space(s), last_non_space(s) + 1)
    }
}

proof fn lemma_first_non_space(s: Seq<char>)
    ensures
        0 <= first_non_space(s) <= s.len(),
        first_non_space(s) < s.len() ==> !is_space(s[first_non_space(s)]),
        forall|j: int| 0 <= j < first_non_space(s) ==> is_space(s[j]),
    decreases s.len(),
{
    if s.len() > 0 && is_space(s[0]) {
        lemma_first_non_space(s.drop_first());
        assert forall|j: int| 0 <= j < first_non_space(s) implies is_space(s[j]) by {
            if j > 0 {
                assert(is_space(s.drop_first()[j - 1]));
            }
        }
    }
}

proof fn lemma_first_non_space_at(s: Seq<char>, i: int)
    requires
        0 <= i < s.len(),
        !is_space(s[i]),
        forall|j: int| 0 <= j < i ==> is_space(s[j]),
    ensures
        first_non_space(s) == i,
{
    lemma_first_non_space(s);
    if first_non_space(s) < i {
        assert(is_space(s[first_non_space(s)]));
    }
}

proof fn lemma_last_non_space(s: Seq<char>)
    ensures
        -1 <= last_non_space(s) < s.len(),
        last_non_space(s) >= 0 ==> !is_space(s[last_non_space(s)]),
        forall|j: int| last_non_space(s) < j < s.len() ==> is_space(s[j]),
    decreases s.len(),
{
    if s.len() > 0 && is_space(s.last()) {
        lemma_last_non_space(s.drop_last());
        assert forall|j: int| last_non_space(s) < j < s.len() implies is_space(s[j]) by {
            if j < s.len() - 1 {
                assert(is_space(s.drop_last()[j]));
            }
        }
    }
}

proof fn lemma_last_non_space_at(s: Seq<char>, i: int)
    requires
        0 <= i < s.len(),
        !is_space(s[i]),
        forall|j: int| i < j < s.len() ==> is_space(s[j]),
    ensures
        last_non_space(s) == i,
{
    lemma_last_non_space(s);
    if last_non_space(s) > i {
        assert(is_space(s[last_non_space(s)]));
    }
    if last_non_space(s) < i {
        assert(is_space(s[i]));
    }
}

fn space_at(s: &str, i: usize) -> (r: bool)
    requires
        i < s@.len(),
    ensures
        r == is_space(s@[i as int]),
{
    let c = s.get_char(i);
    c == ' ' || c == '\t' || c == '\r' || c == '\n'
}

/// Remove leading and trailing whitespace.
pub fn trim_str(s: &str) -> (r: String)
    ensures
        r@ == spec_trim(s@),
{
    let len = s.unicode_len();
    let mut a: usize = 0;
    while a < len && space_at(s, a)
        invariant
            len == s@.len(),
            0 <= a <= len,
            forall|j: int| 0 <= j < a ==> is_space(s@[j]),
        decreases len - a,
    {
        a += 1;
    }
    if a == len {
        proof {
            lemma_first_non_space(s@);
            if first_non_space(s@) < s@.len() {
                assert(is_space(s@[first_non_space(s@)]));
            }
        }
        return String::new();
    }
    proof {
        lemma_first_non_space_at(s@, a as int);
    }
    let mut b: usize = len;
    while b > a && space_at(s, b - 1)
        invariant
            len == s@.len(),
            a < len,
            a <= b <= len,
            !is_space(s@[a as int]),
            forall|j: int| b <= j < len ==> is_space(s@[j]),
        decreases b,
    {
        b -= 1;
    }
    assert(b > a) by {
        if b == a {
            assert(is_space(s@[a as int]));
        }
    }
    proof {
        lemma_last_non_space_at(s@, b as int - 1);
    }
    s.substring_char(a, b).to_owned()
}

/// Lowercase table for the ASCII letters.
pub open spec fn lower_alpha_at(i: int) -> char {
    if i == 0 { 'a' } else if i == 1 { 'b' } else if i == 2 { 'c' } else if i == 3 { 'd' }
    else if i == 4 { 'e' } else if i == 5 { 'f' } else if i == 6 { 'g' } else if i == 7 { 'h' }
    else if i == 8 { 'i' } else if i == 9 { 'j' } else if i == 10 { 'k' } else if i == 11 { 'l' }
    else if i == 12 { 'm' } else if i == 13 { 'n' } else if i == 14 { 'o' } else if i == 15 { 'p' }
    else if i == 16 { 'q' } else if i == 17 { 'r' } else if i == 18 { 's' } else if i == 19 { 't' }
    else if i == 20 { 'u' } else if i == 21 { 'v' } else if i == 22 { 'w' } else if i == 23 { 'x' }
    else if i == 24 { 'y' } else { 'z' }
}

/// ASCII case folding of one character.
pub open spec fn lower_char(c: char) -> char {
    if 65 <= c as u32 && c as u32 <= 90 {
        lower_alpha_at(c as u32 - 65)
    } else {
        c
    }
}

/// ASCII case folding of a string.
pub open spec fn lower_seq(s: Seq<char>) -> Seq<char> {
    s.map_values(|c: char| lower_char(c))
}

/// Fold the ASCII uppercase letters of `s` to lowercase.
pub fn to_ascii_lower(s: &str) -> (r: String)
    ensures
        r@ == lower_seq(s@),
{
    let table = "abcdefghijklmnopqrstuvwxyz";
    proof {
        reveal_strlit("abcdefghijklmnopqrstuvwxyz");
        assert(table@ =~= seq![
            'a', 'b', 'c', 'd', 'e', 'f', 'g', 'h', 'i', 'j', 'k', 'l', 'm',
            'n', 'o', 'p', 'q', 'r', 's', 't', 'u', 'v', 'w', 'x', 'y', 'z',
        ]);
        assert(forall|k: int| 0 <= k < 26 ==> table@[k] == lower_alpha_at(k));
        assert(vstd::string::is_ascii(table));
    }
    let len = s.unicode_len();
    let mut r = String::new();
    let mut i: usize = 0;
    while i < len
        invariant
            len == s@.len(),
            0 <= i <= len,
            table@.len() == 26,
            vstd::string::is_ascii(table),
            forall|k: int| 0 <= k < 26 ==> table@[k] == lower_alpha_at(k),
            r@ =~= s@.take(i as int).map_values(|c: char| lower_char(c)),
        decreases len - i,
    {
        let c = s.get_char(i);
        let code = c as u32;
        if 65 <= code && code <= 90 {
            let idx = (code - 65) as usize;
            r.append(table.substring_ascii(idx, idx + 1));
            assert(table@.subrange(idx as int, idx as int + 1) =~= seq![lower_char(s@[i as int])]);
        } else {
            r.append(s.substring_char(i, i + 1));
            assert(s@.subrange(i as int, i as int + 1) =~= seq![lower_char(s@[i as int])]);
        }
        proof {
            let prev = s@.take(i as int).map_values(|c: char| lower_char(c));
            assert(s@.take(i as int + 1).map_values(|c: char| lower_char(c))
                =~= prev.push(lower_char(s@[i as int])));
        }
        i += 1;
    }
    assert(s@.take(len as int) =~= s@);
    r
}

/// Uppercase table for the ASCII letters.
pub open spec fn upper_alpha_at(i: int) -> char {
    if i == 0 { 'A' } else if i == 1 { 'B' } else if i == 2 { 'C' } else if i == 3 { 'D' }
    else if i == 4 { 'E' } else if i == 5 { 'F' } else if i == 6 { 'G' } else if i == 7 { 'H' }
    else if i == 8 { 'I' } else if i == 9 { 'J' } else if i == 10 { 'K' } else if i == 11 { 'L' }
    else if i == 12 { 'M' } else if i == 13 { 'N' } else if i == 14 { 'O' } else if i == 15 { 'P' }
    else if i == 16 { 'Q' } else if i == 17 { 'R' } else if i == 18 { 'S' } else if i == 19 { 'T' }
    else if i == 20 { 'U' } else if i == 21 { 'V' } else if i == 22 { 'W' } else if i == 23 { 'X' }
    else if i == 24 { 'Y' } else { 'Z' }
}

/// ASCII uppercase folding of one character.
pub open spec fn upper_char(c: char) -> char {
    if 97 <= c as u32 && c as u32 <= 122 {
        upper_alpha_at(c as u32 - 97)
    } else {
        c
    }
}

/// ASCII uppercase folding of a string.
pub open spec fn upper_seq(s: Seq<char>) -> Seq<char> {
    s.map_values(|c: char| upper_char(c))
}

/// Fold the ASCII lowercase letters of `s` to uppercase.
pub fn to_ascii_upper(s: &str) -> (r: String)
    ensures
        r@ == upper_seq(s@),
{
    let table = "ABCDEFGHIJKLMNOPQRSTUVWXYZ";
    proof {
        reveal_strlit("ABCDEFGHIJKLMNOPQRSTUVWXYZ");
        assert(table@ =~= seq![
            'A', 'B', 'C', 'D', 'E', 'F', 'G', 'H', 'I', 'J', 'K', 'L', 'M',
            'N', 'O', 'P', 'Q', 'R', 'S', 'T', 'U', 'V', 'W', 'X', 'Y', 'Z',
        ]);
        assert(forall|k: int| 0 <= k < 26 ==> table@[k] == upper_alpha_at(k));
        assert(vstd::string::is_ascii(table));
    }
    let len = s.unicode_len();
    let mut r = String::new();
    let mut i: usize = 0;
    while i < len
        invariant
            len == s@.len(),
            0 <= i <= len,
            table@.len() == 26,
            vstd::string::is_ascii(table),
            forall|k: int| 0 <= k < 26 ==> table@[k] == upper_alpha_at(k),
            r@ =~= s@.take(i as int).map_values(|c: char| upper_char(c)),
        decreases len - i,
    {
        let c = s.get_char(i);
        let code = c as u32;
        if 97 <= code && code <= 122 {
            let idx = (code - 97) as usize;
            r.append(table.substring_ascii(idx, idx + 1));
            assert(table@.subrange(idx as int, idx as int + 1) =~= seq![upper_char(s@[i as int])]);
        } else {
            r.append(s.substring_char(i, i + 1));
            assert(s@.subrange(i as int, i as int + 1) =~= seq![upper_char(s@[i as int])]);
        }
        proof {
            let prev = s@.take(i as int).map_values(|c: char| upper_char(c));
            assert(s@.take(i as int + 1).map_values(|c: char| upper_char(c))
                =~= prev.push(upper_char(s@[i as int])));
        }
        i += 1;
    }
    assert(s@.take(len as int) =~= s@);
    r
}

/// Whether `c` is a hexadecimal digit.
pub open spec fn is_hex_digit(c: char) -> bool {
    ('0' <= c && c <= '9') || ('a' <= c && c <= 'f') || ('A' <= c && c <= 'F')
}

/// Numeric value of a hexadecimal digit.
pub open spec fn hex_digit_val(c: char) -> nat {
    if '0' <= c && c <= '9' {
        (c as nat - '0' as nat) as nat
    } else if 'a' <= c && c <= 'f' {
        (c as nat - 'a' as nat + 10) as nat
    } else {
        (c as nat - 'A' as nat + 10) as nat
    }
}

/// Whether every character of `s` is a hexadecimal digit.
pub open spec fn all_hex_digits(s: Seq<char>) -> bool {
    forall|i: int| 0 <= i < s.len() ==> is_hex_digit(#[trigger] s[i])
}

/// Value of a digit string read as a base-16 numeral.
pub open spec fn hex_val(s: Seq<char>) -> nat
    decreases s.len(),
{
    if s.len() == 0 {
        0
    } else {
        hex_val(s.drop_last()) * 16 + hex_digit_val(s.last())
    }
}

/// The lowercase digit character for a value below sixteen.
pub open spec fn hex_digit_char(d: nat) -> char {
    if d < 10 {
        dec_digit_char(d)
    } else if d == 10 { 'a' } else if d == 11 { 'b' } else if d == 12 { 'c' }
    else if d == 13 { 'd' } else if d == 14 { 'e' } else { 'f' }
}

/// The canonical lowercase hexadecimal rendering of `n`.
pub open spec fn hex_text(n: nat) -> Seq<char>
    decreases n,
{
    if n < 16 {
        seq![hex_digit_char(n)]
    } else {
        hex_text(n / 16).push(hex_digit_char(n % 16))
    }
}

fn hex_digit_str(d: u128) -> (r: &'static str)
    requires
        d < 16,
    ensures
        r@ =~= seq![hex_digit_char(d as nat)],
{
    if d < 10 {
        dec_digit_str(d as u64)
    } else if d == 10 {
        proof { reveal_strlit("a"); }
        "a"
    } else if d == 11 {
        proof { reveal_strlit("b"); }
        "b"
    } else if d == 12 {
        proof { reveal_strlit("c"); }
        "c"
    } else if d == 13 {
        proof { reveal_strlit("d"); }
        "d"
    } else if d == 14 {
        proof { reveal_strlit("e"); }
        "e"
    } else {
        proof { reveal_strlit("f"); }
        "f"
    }
}

/// Whether the views in `v` are pairwise distinct.
pub open spec fn distinct_views(v: Seq<Seq<char>>) -> bool {
    forall|i: int, j: int| 0 <= i < j < v.len() ==> v[i] != v[j]
}

/// Whether some string of `v` reads `s`.
pub fn vec_contains_str(v: &Vec<String>, s: &str) -> (r: bool)
    ensures
        r == seq_views(v@).contains(s@),
{
    let mut i: usize = 0;
    while i < v.len()
        invariant
            0 <= i <= v@.len(),
            forall|j: int| 0 <= j < i ==> seq_views(v@)[j] != s@,
        decreases v@.len() - i,
    {
        if str_eq(v[i].as_str(), s) {
            assert(seq_views(v@)[i as int] == s@);
            return true;
        }
        i += 1;
    }
    assert(!seq_views(v@).contains(s@));
    false
}

/// Render `n` in lowercase hexadecimal, as the `{:x}` format does.
pub fn to_hex_string(n: u128) -> (r: String)
    ensures
        r@ == hex_text(n as nat),
    decreases n,
{
    if n < 16 {
        let r = String::from_str(hex_digit_str(n));
        assert(r@ =~= hex_text(n as nat));
        r
    } else {
        let mut r = to_hex_string(n / 16);
        r.append(hex_digit_str(n % 16));
        assert(r@ =~= hex_text(n as nat));
        r
    }
}

} // verus!
