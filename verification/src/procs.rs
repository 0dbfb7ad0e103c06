//! The grouped process table: parsing of `pid rss time comm` listing lines,
//! executable-name normalization (one trailing parenthesized qualifier
//! removed, then the first matching vendor suffix stripped as often as it
//! repeats, never emptying the name), aggregation by normalized name, and a
//! stable sort by descending total memory.

use vstd::prelude::*;

use crate::text::{
    dec_digit_val, dec_val, ends_with_str, is_dec_digit, is_suffix_of, join_spaces, matches_at,
    parse_u64, rfind_str, seq_views, spec_join_spaces, spec_parse_u64, spec_split, spec_trim,
    split_char, str_eq, trim_str,
};
use crate::types::ProcessInfo;

verus! {

/// The vendor suffixes stripped for grouping, in match order; the first that
/// matches wins.
pub open spec fn suffix_table() -> Seq<Seq<char>> {
    seq![
        " Helper (Renderer)"@, " Helper (GPU)"@, " Helper (Plugin)"@, " Helper (Networking)"@,
        " Helper"@, " Renderer"@, " GPU Process"@, " GPU"@, " Networking"@, " Plugin Host"@,
        " Plugin"@, " Agent"@, " Extension"@, " Web Content"@, " Utility"@, "Helper"@,
    ]
}

fn suffix_entry(k: usize) -> (r: &'static str)
    requires
        k < 16,
    ensures
        r@ == suffix_table()[k as int],
{
    if k == 0 { " Helper (Renderer)" } else if k == 1 { " Helper (GPU)" }
    else if k == 2 { " Helper (Plugin)" } else if k == 3 { " Helper (Networking)" }
    else if k == 4 { " Helper" } else if k == 5 { " Renderer" }
    else if k == 6 { " GPU Process" } else if k == 7 { " GPU" }
    else if k == 8 { " Networking" } else if k == 9 { " Plugin Host" }
    else if k == 10 { " Plugin" } else if k == 11 { " Agent" }
    else if k == 12 { " Extension" } else if k == 13 { " Web Content" }
    else if k == 14 { " Utility" } else { "Helper" }
}

/// `s` with every trailing repeat of `suffix` removed, as
/// `str::trim_end_matches` leaves it.
pub open spec fn strip_repeats(s: Seq<char>, suffix: Seq<char>) -> Seq<char>
    decreases s.len(),
{
    if suffix.len() > 0 && is_suffix_of(suffix, s) {
        strip_repeats(s.take(s.len() - suffix.len()), suffix)
    } else {
        s
    }
}

pub fn strip_repeat_suffix(s: &str, suffix: &str) -> (r: String)
    requires
        suffix@.len() > 0,
    ensures
        r@ == strip_repeats(s@, suffix@),
    decreases s@.len(),
{
    if ends_with_str(s, suffix) {
        let slen = s.unicode_len();
        let plen = suffix.unicode_len();
        let shorter = s.substring_char(0, slen - plen);
        assert(shorter@ =~= s@.take(s@.len() - suffix@.len()));
        strip_repeat_suffix(shorter, suffix)
    } else {
        s.to_owned()
    }
}

/// The base name of a command path: the part after the last `/`, or the
/// whole path when that part is empty.
pub open spec fn spec_basename(s: Seq<char>) -> Seq<char> {
    let parts = spec_split(s, '/');
    if parts[parts.len() - 1].len() > 0 {
        parts[parts.len() - 1]
    } else {
        s
    }
}

/// The name with one trailing ` (...)` qualifier removed, when one occurs
/// and something remains; a drop that would empty the name is not taken.
pub open spec fn spec_drop_qualifier(s: Seq<char>) -> Seq<char> {
    if exists|j: int| matches_at(s, " ("@, j) {
        let j = last_match(s, " ("@);
        if spec_trim(s.take(j)).len() > 0 {
            spec_trim(s.take(j))
        } else {
            s
        }
    } else {
        s
    }
}

/// The last index where `pat` occurs.
pub open spec fn last_match(s: Seq<char>, pat: Seq<char>) -> int {
    choose|j: int| matches_at(s, pat, j) && forall|k: int| j < k ==> !matches_at(s, pat, k)
}

/// The first suffix of the table that the name ends with, if any.
pub open spec fn first_suffix(s: Seq<char>) -> Option<Seq<char>>
    decreases suffix_table().len(),
{
    first_suffix_from(s, 0)
}

pub open spec fn first_suffix_from(s: Seq<char>, k: int) -> Option<Seq<char>>
    decreases suffix_table().len() - k,
{
    if k < 0 || k >= suffix_table().len() {
        None
    } else if is_suffix_of(suffix_table()[k], s) {
        Some(suffix_table()[k])
    } else {
        first_suffix_from(s, k + 1)
    }
}

/// A normalized executable name: base name, qualifier dropped, then the first
/// matching vendor suffix stripped of all its trailing repeats and the rest
/// trimmed. At every step a strip that would empty the name is not taken, so
/// normalization never empties a non-empty name.
pub open spec fn spec_normalize_name(raw: Seq<char>) -> Seq<char> {
    let base = spec_drop_qualifier(spec_basename(raw));
    match first_suffix(base) {
        Some(suffix) => {
            let stripped = spec_trim(strip_repeats(base, suffix));
            if stripped.len() > 0 {
                stripped
            } else {
                base
            }
        },
        None => base,
    }
}

/// Normalize one raw command name for grouping.
pub fn normalize_process_name(raw: &str) -> (r: String)
    ensures
        r@ == spec_normalize_name(raw@),
        raw@.len() > 0 ==> r@.len() > 0,
{
    let parts = split_char(raw, '/');
    proof {
        crate::text::lemma_split_len(raw@, '/');
    }
    let last_part = &parts[parts.len() - 1];
    let base_path = if last_part.as_str().unicode_len() > 0 {
        last_part.clone()
    } else {
        raw.to_owned()
    };
    assert(base_path@ == spec_basename(raw@));
    assert(raw@.len() > 0 ==> base_path@.len() > 0);
    let base = match rfind_str(base_path.as_str(), " (") {
        Some(j) => {
            proof {
                assert(matches_at(base_path@, " ("@, j as int));
                assert(last_match(base_path@, " ("@) == j as int) by {
                    let pred = |w: int| matches_at(base_path@, " ("@, w) && forall|k: int|
                        w < k ==> !matches_at(base_path@, " ("@, k);
                    assert(pred(j as int));
                    let w = choose|w: int| matches_at(base_path@, " ("@, w) && forall|k: int|
                        w < k ==> !matches_at(base_path@, " ("@, k);
                    if w < j as int {
                        assert(!matches_at(base_path@, " ("@, j as int));
                    }
                    if w > j as int {
                        assert(!matches_at(base_path@, " ("@, w));
                    }
                }
            }
            let cut = base_path.as_str().substring_char(0, j);
            assert(cut@ =~= base_path@.take(j as int));
            let trimmed = trim_str(cut);
            if trimmed.unicode_len() > 0 {
                trimmed
            } else {
                base_path
            }
        },
        None => base_path,
    };
    assert(base@ == spec_drop_qualifier(spec_basename(raw@)));
    assert(raw@.len() > 0 ==> base@.len() > 0);
    let mut k: usize = 0;
    while k < 16
        invariant
            base@ == spec_drop_qualifier(spec_basename(raw@)),
            0 <= k <= 16,
            first_suffix(base@) == first_suffix_from(base@, k as int),
            suffix_table().len() == 16,
        decreases 16 - k,
    {
        let suffix = suffix_entry(k);
        if ends_with_str(base.as_str(), suffix) {
            proof {
                lemma_suffix_table_nonempty();
            }
            let stripped = trim_str(strip_repeat_suffix(base.as_str(), suffix).as_str());
            assert(first_suffix(base@) == Some(suffix_table()[k as int]));
            if stripped.unicode_len() > 0 {
                return stripped;
            } else {
                return base;
            }
        }
        k += 1;
    }
    assert(first_suffix(base@) is None);
    base
}

/// One raw sample of the process listing: normalized name, resident memory in
/// bytes, accumulated processor time in centiseconds.
pub struct RawProcSample {
    pub name: String,
    pub memory_bytes: u64,
    pub cpu_time_centis: u64,
}

/// Value of a listing time field, `MM:SS.cc` or `HH:MM:SS`, in centiseconds;
/// a component that does not parse counts as zero, any other shape as a whole
/// is zero.
pub open spec fn spec_cpu_time_centis(s: Seq<char>) -> nat {
    let parts = spec_split(s, ':');
    if parts.len() == 2 {
        part_centis(parts[0]) * 60 + part_centis(parts[1])
    } else if parts.len() == 3 {
        part_centis(parts[0]) * 3600 + part_centis(parts[1]) * 60 + part_centis(parts[2])
    } else {
        0
    }
}

/// Value of one time component in centiseconds: an integer part and up to two
/// fractional digits; further digits are cut, a malformed component is zero.
pub open spec fn part_centis(s: Seq<char>) -> nat {
    let pieces = spec_split(s, '.');
    if pieces.len() == 1 {
        match spec_parse_u64(s) {
            Some(v) => (v * 100) as nat,
            None => 0,
        }
    } else if pieces.len() == 2 {
        match spec_parse_u64(pieces[0]) {
            Some(v) => ((v * 100) as nat + frac_centis(pieces[1])) as nat,
            None => 0,
        }
    } else {
        0
    }
}

/// Centiseconds from a fraction's digit run.
pub open spec fn frac_centis(s: Seq<char>) -> nat {
    if s.len() >= 2 && is_dec_digit(s[0]) && is_dec_digit(s[1]) {
        dec_val(s.take(2))
    } else if s.len() == 1 && is_dec_digit(s[0]) {
        dec_val(s) * 10
    } else {
        0
    }
}


/// Clamp to the largest 64-bit value.
pub open spec fn sat64(x: nat) -> nat {
    if x > u64::MAX {
        u64::MAX as nat
    } else {
        x
    }
}

fn frac_centis_exec(s: &str) -> (r: u64)
    ensures
        r as nat == frac_centis(s@),
        r <= 99,
{
    let len = s.unicode_len();
    if len >= 2 {
        let c0 = s.get_char(0);
        let c1 = s.get_char(1);
        if '0' <= c0 && c0 <= '9' && '0' <= c1 && c1 <= '9' {
            let d0 = (c0 as u32 - 48) as u64;
            let d1 = (c1 as u32 - 48) as u64;
            proof {
                let two = s@.take(2);
                assert(two.drop_last() =~= seq![s@[0]]);
                assert(seq![s@[0]].drop_last() =~= Seq::<char>::empty());
                assert(dec_val(Seq::<char>::empty()) == 0);
                assert(seq![s@[0]].last() == s@[0]);
                assert(dec_val(seq![s@[0]]) == dec_digit_val(s@[0]));
                assert(two.last() == s@[1]);
                assert(dec_val(two) == dec_val(two.drop_last()) * 10 + dec_digit_val(two.last()));
            }
            return d0 * 10 + d1;
        }
        assert(!(is_dec_digit(s@[0]) && is_dec_digit(s@[1])));
        return 0;
    }
    if len == 1 {
        let c0 = s.get_char(0);
        if '0' <= c0 && c0 <= '9' {
            let d0 = (c0 as u32 - 48) as u64;
            proof {
                assert(s@.drop_last() =~= Seq::<char>::empty());
                assert(dec_val(Seq::<char>::empty()) == 0);
                assert(s@.last() == s@[0]);
                assert(dec_val(s@) == dec_digit_val(s@[0]));
            }
            return d0 * 10;
        }
        return 0;
    }
    0
}

fn part_centis_exec(piece: &str) -> (r: u64)
    ensures
        r as nat == sat64(part_centis(piece@)),
{
    let pieces = split_char(piece, '.');
    if pieces.len() == 1 {
        match parse_u64(piece) {
            Some(v) => {
                let total: u128 = (v as u128) * 100;
                if total > 0xffffffffffffffff {
                    u64::MAX
                } else {
                    total as u64
                }
            },
            None => 0,
        }
    } else if pieces.len() == 2 {
        match parse_u64(pieces[0].as_str()) {
            Some(v) => {
                assert(pieces@[0]@ == spec_split(piece@, '.')[0]);
                assert(pieces@[1]@ == spec_split(piece@, '.')[1]);
                let f = frac_centis_exec(pieces[1].as_str());
                let total: u128 = (v as u128) * 100 + (f as u128);
                if total > 0xffffffffffffffff {
                    u64::MAX
                } else {
                    total as u64
                }
            },
            None => 0,
        }
    } else {
        0
    }
}

/// Value of a listing time field in centiseconds, clamped at the 64-bit
/// ceiling.
pub fn parse_cpu_time(time_str: &str) -> (r: u64)
    ensures
        r as nat == sat64(spec_cpu_time_centis(time_str@)),
{
    let parts = split_char(time_str, ':');
    if parts.len() == 2 {
        let a = part_centis_exec(parts[0].as_str());
        let b = part_centis_exec(parts[1].as_str());
        assert(parts@[0]@ == spec_split(time_str@, ':')[0]);
        assert(parts@[1]@ == spec_split(time_str@, ':')[1]);
        let total: u128 = (a as u128) * 60 + (b as u128);
        let r = if total > 0xffffffffffffffff {
            u64::MAX
        } else {
            total as u64
        };
        proof {
            let aa = part_centis(spec_split(time_str@, ':')[0]);
            let bb = part_centis(spec_split(time_str@, ':')[1]);
            assert(a as nat == sat64(aa) && b as nat == sat64(bb));
            assert(r as nat == sat64(aa * 60 + bb));
        }
        r
    } else if parts.len() == 3 {
        let a = part_centis_exec(parts[0].as_str());
        let b = part_centis_exec(parts[1].as_str());
        let c = part_centis_exec(parts[2].as_str());
        assert(parts@[0]@ == spec_split(time_str@, ':')[0]);
        assert(parts@[1]@ == spec_split(time_str@, ':')[1]);
        assert(parts@[2]@ == spec_split(time_str@, ':')[2]);
        let total: u128 = (a as u128) * 3600 + (b as u128) * 60 + (c as u128);
        let r = if total > 0xffffffffffffffff {
            u64::MAX
        } else {
            total as u64
        };
        proof {
            let aa = part_centis(spec_split(time_str@, ':')[0]);
            let bb = part_centis(spec_split(time_str@, ':')[1]);
            let cc = part_centis(spec_split(time_str@, ':')[2]);
            assert(a as nat == sat64(aa) && b as nat == sat64(bb) && c as nat == sat64(cc));
            assert(r as nat == sat64(aa * 3600 + bb * 60 + cc));
        }
        r
    } else {
        0
    }
}

/// The whitespace-separated fields of a listing line.
pub open spec fn spec_ps_fields(line: Seq<char>) -> Seq<Seq<char>> {
    spec_split(line, ' ').filter(|p: Seq<char>| p.len() > 0)
}

/// Parse one `pid rss time comm` line: the resident size in kilobytes scaled
/// to bytes, the time field in centiseconds, and the command rejoined from
/// its remaining fields and normalized. Lines of fewer than four fields are
/// dropped; an unreadable size counts as zero.
#[verifier::rlimit(60)]
pub fn parse_ps_line(line: &str) -> (r: Option<RawProcSample>)
    ensures
        r is Some <==> spec_ps_fields(line@).len() >= 4,
        r matches Some(p) ==> {
            let fields = spec_ps_fields(line@);
            &&& p.memory_bytes as nat == sat64((match spec_parse_u64(fields[1]) {
                Some(v) => v as nat,
                None => 0nat,
            }) * 1024)
            &&& p.cpu_time_centis as nat == sat64(spec_cpu_time_centis(fields[2]))
            &&& p.name@ == spec_normalize_name(spec_join_spaces(fields.skip(3)))
            &&& p.name@.len() > 0
        },
{
    let raw_parts = split_char(line, ' ');
    let ghost mapped = spec_split(line@, ' ');
    let ghost keep = |p: Seq<char>| p.len() > 0;
    let mut fields: Vec<String> = Vec::new();
    let mut i: usize = 0;
    proof {
        reveal(Seq::filter);
        assert(mapped.take(0) =~= Seq::<Seq<char>>::empty());
        assert(seq_views(fields@) =~= Seq::<Seq<char>>::empty());
        assert(mapped.take(0).filter(keep) =~= Seq::<Seq<char>>::empty());
    }
    while i < raw_parts.len()
        invariant
            seq_views(raw_parts@) == mapped,
            mapped == spec_split(line@, ' '),
            keep == (|p: Seq<char>| p.len() > 0),
            0 <= i <= raw_parts@.len(),
            seq_views(fields@) == mapped.take(i as int).filter(keep),
        decreases raw_parts@.len() - i,
    {
        let ghost f_pre = fields@;
        if raw_parts[i].as_str().unicode_len() > 0 {
            fields.push(raw_parts[i].clone());
        }
        proof {
            crate::registry::lemma_filter_take_step(mapped, keep, i as int);
            if keep(mapped[i as int]) {
                assert(seq_views(fields@) =~= seq_views(f_pre).push(mapped[i as int]));
            } else {
                assert(seq_views(fields@) == seq_views(f_pre));
            }
        }
        i += 1;
    }
    proof {
        assert(mapped.take(raw_parts@.len() as int) =~= mapped);
    }
    if fields.len() < 4 {
        return None;
    }
    let kb = match parse_u64(fields[1].as_str()) {
        Some(v) => v,
        None => 0,
    };
    let scaled: u128 = (kb as u128) * 1024;
    let memory_bytes = if scaled > 0xffffffffffffffff {
        u64::MAX
    } else {
        scaled as u64
    };
    let cpu = parse_cpu_time(fields[2].as_str());
    let comm = join_spaces(&fields, 3);
    proof {
        mapped.lemma_filter_pred(keep, 3);
        assert(seq_views(fields@)[3].len() > 0);
        lemma_join_nonempty(seq_views(fields@).skip(3));
    }
    let name = normalize_process_name(comm.as_str());
    assert(seq_views(fields@)[1] == spec_ps_fields(line@)[1]);
    assert(seq_views(fields@)[2] == spec_ps_fields(line@)[2]);
    assert(seq_views(fields@).skip(3) =~= spec_ps_fields(line@).skip(3));
    Some(RawProcSample { name, memory_bytes, cpu_time_centis: cpu })
}

proof fn lemma_join_nonempty(parts: Seq<Seq<char>>)
    requires
        parts.len() >= 1,
        parts[0].len() > 0,
    ensures
        spec_join_spaces(parts).len() > 0,
{
    if parts.len() >= 2 {
        assert(spec_join_spaces(parts) == spec_join_spaces(parts.drop_last()) + seq![' ']
            + parts.last());
    }
}

/// How many samples carry name `n`.
pub open spec fn count_name(s: Seq<RawProcSample>, n: Seq<char>) -> nat
    decreases s.len(),
{
    if s.len() == 0 {
        0
    } else {
        count_name(s.drop_last(), n) + (if s.last().name@ == n {
            1nat
        } else {
            0nat
        })
    }
}

/// Total resident memory of the samples carrying name `n`.
pub open spec fn sum_memory(s: Seq<RawProcSample>, n: Seq<char>) -> nat
    decreases s.len(),
{
    if s.len() == 0 {
        0
    } else {
        sum_memory(s.drop_last(), n) + (if s.last().name@ == n {
            s.last().memory_bytes as nat
        } else {
            0nat
        })
    }
}

/// Total processor time of the samples carrying name `n`.
pub open spec fn sum_cpu(s: Seq<RawProcSample>, n: Seq<char>) -> nat
    decreases s.len(),
{
    if s.len() == 0 {
        0
    } else {
        sum_cpu(s.drop_last(), n) + (if s.last().name@ == n {
            s.last().cpu_time_centis as nat
        } else {
            0nat
        })
    }
}

/// One grouped entry is faithful to the samples for its name.
pub open spec fn entry_faithful(e: ProcessInfo, samples: Seq<RawProcSample>) -> bool {
    &&& e.count == count_name(samples, e.name@)
    &&& e.memory as nat == sat64(sum_memory(samples, e.name@))
    &&& e.cpu_time_centis as nat == sat64(sum_cpu(samples, e.name@))
}

proof fn lemma_zero_count_zero_sums(s: Seq<RawProcSample>, n: Seq<char>)
    requires
        count_name(s, n) == 0,
    ensures
        sum_memory(s, n) == 0,
        sum_cpu(s, n) == 0,
    decreases s.len(),
{
    if s.len() > 0 {
        lemma_zero_count_zero_sums(s.drop_last(), n);
    }
}

proof fn lemma_count_le_len(s: Seq<RawProcSample>, n: Seq<char>)
    ensures
        count_name(s, n) <= s.len(),
    decreases s.len(),
{
    if s.len() > 0 {
        lemma_count_le_len(s.drop_last(), n);
    }
}

fn find_group(groups: &Vec<ProcessInfo>, name: &str) -> (r: Option<usize>)
    ensures
        match r {
            Some(j) => j < groups@.len() && groups@[j as int].name@ == name@,
            None => forall|k: int| 0 <= k < groups@.len() ==> groups@[k].name@ != name@,
        },
{
    let mut k: usize = 0;
    while k < groups.len()
        invariant
            0 <= k <= groups@.len(),
            forall|j: int| 0 <= j < k ==> groups@[j].name@ != name@,
        decreases groups@.len() - k,
    {
        if str_eq(groups[k].name.as_str(), name) {
            return Some(k);
        }
        k += 1;
    }
    None
}

/// Group the samples by normalized name and sort the groups by descending
/// total memory: every entry aggregates exactly its name's samples, names
/// are distinct, every sampled name appears, and memory never grows along
/// the result.
pub fn get_processes_list(samples: Vec<RawProcSample>) -> (r: Vec<ProcessInfo>)
    ensures
        forall|i: int, j: int| 0 <= i < j < r@.len() ==> r@[i].name@ != r@[j].name@,
        forall|i: int| 0 <= i < r@.len() ==> entry_faithful(#[trigger] r@[i], samples@),
        forall|i: int| 0 <= i < r@.len() ==> count_name(samples@, #[trigger] r@[i].name@) > 0,
        forall|n: Seq<char>| count_name(samples@, n) > 0 ==> exists|i: int|
            0 <= i < r@.len() && (#[trigger] r@[i].name@) == n,
        forall|i: int, j: int| 0 <= i < j < r@.len() ==> r@[i].memory >= r@[j].memory,
{
    let ghost all = samples@;
    let mut groups: Vec<ProcessInfo> = Vec::new();
    let mut i: usize = 0;
    proof {
        assert(all.take(0) =~= Seq::<RawProcSample>::empty());
    }
    while i < samples.len()
        invariant
            all == samples@,
            0 <= i <= all.len(),
            forall|a: int, b: int| 0 <= a < b < groups@.len()
                ==> groups@[a].name@ != groups@[b].name@,
            forall|k: int| 0 <= k < groups@.len() ==> {
                &&& groups@[k].count == count_name(all.take(i as int), #[trigger] groups@[k].name@)
                &&& groups@[k].memory as nat == sat64(
                    sum_memory(all.take(i as int), groups@[k].name@),
                )
                &&& groups@[k].cpu_time_centis as nat == sat64(
                    sum_cpu(all.take(i as int), groups@[k].name@),
                )
            },
            forall|n: Seq<char>| count_name(all.take(i as int), n) > 0 <==> exists|k: int|
                0 <= k < groups@.len() && (#[trigger] groups@[k].name@) == n,
        decreases all.len() - i,
    {
        let ghost tv = all[i as int].name@;
        proof {
            assert(all.take(i as int + 1).drop_last() =~= all.take(i as int));
            assert(all.take(i as int + 1).last() == all[i as int]);
            assert forall|n: Seq<char>| true implies {
                &&& #[trigger] count_name(all.take(i as int + 1), n) == count_name(all.take(i as int), n)
                    + (if tv == n { 1nat } else { 0nat })
                &&& sum_memory(all.take(i as int + 1), n) == sum_memory(all.take(i as int), n)
                    + (if tv == n { all[i as int].memory_bytes as nat } else { 0nat })
                &&& sum_cpu(all.take(i as int + 1), n) == sum_cpu(all.take(i as int), n)
                    + (if tv == n { all[i as int].cpu_time_centis as nat } else { 0nat })
            } by {}
        }
        let sample = &samples[i];
        let ghost mut widx: int = 0;
        match find_group(&groups, sample.name.as_str()) {
            Some(j) => {
                let ghost pre = groups@;
                let old_entry_name = groups[j].name.clone();
                let old_count = groups[j].count;
                let old_mem = groups[j].memory;
                let old_cpu = groups[j].cpu_time_centis;
                proof {
                    lemma_count_le_len(all.take(i as int), tv);
                }
                let new_mem = match old_mem.checked_add(sample.memory_bytes) {
                    Some(m) => m,
                    None => u64::MAX,
                };
                let new_cpu = match old_cpu.checked_add(sample.cpu_time_centis) {
                    Some(m) => m,
                    None => u64::MAX,
                };
                groups[j] = ProcessInfo {
                    name: old_entry_name,
                    count: old_count + 1,
                    memory: new_mem,
                    cpu_time_centis: new_cpu,
                };
                proof {
                    widx = j as int;
                    assert(groups@ == pre.update(j as int, groups@[j as int]));
                    assert(groups@[j as int].name@ == tv);
                    assert forall|k: int| 0 <= k < groups@.len() && k != j
                        implies groups@[k] == pre[k] by {}
                    assert forall|k: int| 0 <= k < groups@.len() && k != j
                        implies groups@[k].name@ != tv by {
                        assert(pre[j as int].name@ == tv);
                    }
                    let am = sum_memory(all.take(i as int), tv);
                    let ac = sum_cpu(all.take(i as int), tv);
                    let m = all[i as int].memory_bytes as nat;
                    let c = all[i as int].cpu_time_centis as nat;
                    assert(sum_memory(all.take(i as int + 1), tv) == am + m);
                    assert(sum_cpu(all.take(i as int + 1), tv) == ac + c);
                    assert(new_mem as nat == sat64(am + m)) by {
                        if am <= u64::MAX {
                            assert(old_mem as nat == am);
                        } else {
                            assert(old_mem == u64::MAX);
                        }
                    }
                    assert(new_cpu as nat == sat64(ac + c)) by {
                        if ac <= u64::MAX {
                            assert(old_cpu as nat == ac);
                        } else {
                            assert(old_cpu == u64::MAX);
                        }
                    }
                    assert forall|k: int| 0 <= k < groups@.len() implies {
                        &&& (#[trigger] groups@[k]).count == count_name(
                            all.take(i as int + 1),
                            groups@[k].name@,
                        )
                        &&& groups@[k].memory as nat == sat64(
                            sum_memory(all.take(i as int + 1), groups@[k].name@),
                        )
                        &&& groups@[k].cpu_time_centis as nat == sat64(
                            sum_cpu(all.take(i as int + 1), groups@[k].name@),
                        )
                    } by {
                        if k != j {
                            assert(groups@[k] == pre[k]);
                            assert(groups@[k].name@ != tv);
                        }
                    }
                }
            },
            None => {
                let ghost pre = groups@;
                groups.push(
                    ProcessInfo {
                        name: sample.name.clone(),
                        count: 1,
                        memory: sample.memory_bytes,
                        cpu_time_centis: sample.cpu_time_centis,
                    },
                );
                proof {
                    widx = pre.len() as int;
                    assert(groups@ == pre.push(groups@[pre.len() as int]));
                    assert(groups@[pre.len() as int].name@ == tv);
                    assert(count_name(all.take(i as int), tv) == 0) by {
                        if count_name(all.take(i as int), tv) > 0 {
                            let k = choose|k: int|
                                0 <= k < pre.len() && (#[trigger] pre[k].name@) == tv;
                        }
                    }
                    assert forall|k: int| 0 <= k < pre.len()
                        implies groups@[k] == pre[k] && groups@[k].name@ != tv by {
                        if pre[k].name@ == tv {
                            assert(count_name(all.take(i as int), tv) > 0);
                        }
                    }
                    assert(sum_memory(all.take(i as int), tv) == 0) by {
                        lemma_zero_count_zero_sums(all.take(i as int), tv);
                    }
                    assert(sum_cpu(all.take(i as int), tv) == 0) by {
                        lemma_zero_count_zero_sums(all.take(i as int), tv);
                    }
                    assert forall|k: int| 0 <= k < groups@.len() implies {
                        &&& (#[trigger] groups@[k]).count == count_name(
                            all.take(i as int + 1),
                            groups@[k].name@,
                        )
                        &&& groups@[k].memory as nat == sat64(
                            sum_memory(all.take(i as int + 1), groups@[k].name@),
                        )
                        &&& groups@[k].cpu_time_centis as nat == sat64(
                            sum_cpu(all.take(i as int + 1), groups@[k].name@),
                        )
                    } by {
                        if k < pre.len() {
                            assert(groups@[k] == pre[k]);
                            assert(groups@[k].name@ != tv);
                        } else {
                            assert(groups@[k].name@ == tv);
                            assert(count_name(all.take(i as int + 1), tv) == 1);
                        }
                    }
                }
            },
        }
        proof {
            assert(0 <= widx < groups@.len() && groups@[widx].name@ == tv);
            assert forall|n: Seq<char>| #[trigger] count_name(all.take(i as int + 1), n) > 0
                implies exists|k: int|
                    0 <= k < groups@.len() && (#[trigger] groups@[k].name@) == n by {
                if n == tv {
                    assert(groups@[widx].name@ == n);
                } else {
                    assert(count_name(all.take(i as int), n) > 0);
                }
            }
        }
        i += 1;
    }
    proof {
        assert(all.take(all.len() as int) =~= all);
    }
    // sort by descending total memory
    let mut sorted: Vec<ProcessInfo> = Vec::new();
    while groups.len() > 0
        invariant
            forall|a: int, b: int| 0 <= a < b < sorted@.len()
                ==> sorted@[a].name@ != sorted@[b].name@,
            forall|a: int, b: int| 0 <= a < b < groups@.len()
                ==> groups@[a].name@ != groups@[b].name@,
            forall|a: int, b: int| 0 <= a < groups@.len() && 0 <= b < sorted@.len()
                ==> groups@[a].name@ != sorted@[b].name@,
            forall|k: int| 0 <= k < sorted@.len()
                ==> entry_faithful(#[trigger] sorted@[k], all),
            forall|k: int| 0 <= k < groups@.len()
                ==> entry_faithful(#[trigger] groups@[k], all),
            forall|k: int| 0 <= k < sorted@.len()
                ==> count_name(all, #[trigger] sorted@[k].name@) > 0,
            forall|k: int| 0 <= k < groups@.len()
                ==> count_name(all, #[trigger] groups@[k].name@) > 0,
            forall|n: Seq<char>| count_name(all, n) > 0 ==> (exists|k: int|
                0 <= k < groups@.len() && (#[trigger] groups@[k].name@) == n) || (exists|k: int|
                0 <= k < sorted@.len() && (#[trigger] sorted@[k].name@) == n),
            forall|a: int, b: int| 0 <= a < b < sorted@.len()
                ==> sorted@[a].memory >= sorted@[b].memory,
        decreases groups@.len(),
    {
        let ghost g_pre = groups@;
        let entry = groups.pop().unwrap();
        proof {
            assert(g_pre.drop_last() == groups@);
            assert(entry == g_pre.last());
        }
        let mut idx: usize = 0;
        while idx < sorted.len() && sorted[idx].memory >= entry.memory
            invariant
                0 <= idx <= sorted@.len(),
                forall|b: int| 0 <= b < idx ==> sorted@[b].memory >= entry.memory,
            decreases sorted@.len() - idx,
        {
            idx += 1;
        }
        assert(idx == sorted@.len() || sorted@[idx as int].memory < entry.memory);
        let ghost s_pre = sorted@;
        sorted.insert(idx, entry);
        proof {
            assert(sorted@ == s_pre.insert(idx as int, entry));
            assert forall|k: int| 0 <= k < sorted@.len() implies sorted@[k] == (if k < idx {
                s_pre[k]
            } else if k == idx {
                entry
            } else {
                s_pre[k - 1]
            }) by {}
            assert forall|a: int, b: int| 0 <= a < b < sorted@.len()
                implies sorted@[a].memory >= sorted@[b].memory by {
                if b == idx {
                    assert(sorted@[a] == s_pre[a]);
                } else if a == idx {
                    assert(sorted@[b] == s_pre[b - 1]);
                    assert(b - 1 >= idx);
                    if idx < s_pre.len() {
                        assert(s_pre[b - 1].memory <= s_pre[idx as int].memory);
                    }
                }
            }
            assert forall|n: Seq<char>| count_name(all, n) > 0 implies (exists|k: int|
                0 <= k < groups@.len() && (#[trigger] groups@[k].name@) == n) || (exists|k: int|
                0 <= k < sorted@.len() && (#[trigger] sorted@[k].name@) == n) by {
                if exists|k: int| 0 <= k < g_pre.len() && (#[trigger] g_pre[k].name@) == n {
                    let k = choose|k: int|
                        0 <= k < g_pre.len() && (#[trigger] g_pre[k].name@) == n;
                    if k < g_pre.len() - 1 {
                        assert(groups@[k].name@ == n);
                    } else {
                        assert(entry.name@ == n);
                        assert(sorted@[idx as int].name@ == n);
                    }
                } else {
                    let k = choose|k: int|
                        0 <= k < s_pre.len() && (#[trigger] s_pre[k].name@) == n;
                    if k < idx {
                        assert(sorted@[k].name@ == n);
                    } else {
                        assert(sorted@[k + 1].name@ == n);
                    }
                }
            }
        }
    }
    sorted
}

/// Every table suffix has at least one character.
proof fn lemma_suffix_table_nonempty()
    ensures
        forall|k: int| 0 <= k < suffix_table().len()
            ==> #[trigger] suffix_table()[k].len() > 0,
{
    reveal_strlit(" Helper (Renderer)");
    reveal_strlit(" Helper (GPU)");
    reveal_strlit(" Helper (Plugin)");
    reveal_strlit(" Helper (Networking)");
    reveal_strlit(" Helper");
    reveal_strlit(" Renderer");
    reveal_strlit(" GPU Process");
    reveal_strlit(" GPU");
    reveal_strlit(" Networking");
    reveal_strlit(" Plugin Host");
    reveal_strlit(" Plugin");
    reveal_strlit(" Agent");
    reveal_strlit(" Extension");
    reveal_strlit(" Web Content");
    reveal_strlit(" Utility");
    reveal_strlit("Helper");
    assert forall|k: int| 0 <= k < suffix_table().len()
        implies #[trigger] suffix_table()[k].len() > 0 by {
        if k == 0 { assert(suffix_table()[0].len() > 0); }
        else if k == 1 { assert(suffix_table()[1].len() > 0); }
        else if k == 2 { assert(suffix_table()[2].len() > 0); }
        else if k == 3 { assert(suffix_table()[3].len() > 0); }
        else if k == 4 { assert(suffix_table()[4].len() > 0); }
        else if k == 5 { assert(suffix_table()[5].len() > 0); }
        else if k == 6 { assert(suffix_table()[6].len() > 0); }
        else if k == 7 { assert(suffix_table()[7].len() > 0); }
        else if k == 8 { assert(suffix_table()[8].len() > 0); }
        else if k == 9 { assert(suffix_table()[9].len() > 0); }
        else if k == 10 { assert(suffix_table()[10].len() > 0); }
        else if k == 11 { assert(suffix_table()[11].len() > 0); }
        else if k == 12 { assert(suffix_table()[12].len() > 0); }
        else if k == 13 { assert(suffix_table()[13].len() > 0); }
        else if k == 14 { assert(suffix_table()[14].len() > 0); }
        else { assert(suffix_table()[15].len() > 0); }
    }
}

} // verus!
