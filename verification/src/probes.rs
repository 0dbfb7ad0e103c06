//! Parsers for the text the platform probes emit: the graphics CLI's CSV
//! line, the display profiler's vendor, model and memory-size strings, the
//! accelerator registry dump, and the desktop scripting bridge's volume
//! report. Each probe's invocation lives with the caller; the text handling
//! here is verified.

use vstd::prelude::*;

use crate::loops::GpuSample;
use crate::text::{
    contains_str, contains_sub, find_str, is_prefix_of, lower_seq, matches_at, parse_u64,
    seq_views, spec_parse_u64, spec_split, spec_trim, split_char, strip_prefix_str,
    to_ascii_lower, to_ascii_upper, trim_str, upper_seq,
};

verus! {

/// Index of the first occurrence of `pat` at or after `j`, or a negative
/// value when there is none.
pub open spec fn sub_idx_from(s: Seq<char>, pat: Seq<char>, j: int) -> int
    decreases s.len() - j,
{
    if pat.len() <= 0 || j < 0 || j + pat.len() > s.len() {
        -1
    } else if matches_at(s, pat, j) {
        j
    } else {
        sub_idx_from(s, pat, j + 1)
    }
}

proof fn lemma_sub_idx_at(s: Seq<char>, pat: Seq<char>, i: int)
    requires
        pat.len() >= 1,
        matches_at(s, pat, i),
        forall|j: int| 0 <= j < i ==> !matches_at(s, pat, j),
    ensures
        sub_idx_from(s, pat, 0) == i,
{
    lemma_sub_idx_step(s, pat, 0, i);
}

proof fn lemma_sub_idx_step(s: Seq<char>, pat: Seq<char>, j: int, i: int)
    requires
        pat.len() >= 1,
        0 <= j <= i,
        matches_at(s, pat, i),
        forall|k: int| j <= k < i ==> !matches_at(s, pat, k),
    ensures
        sub_idx_from(s, pat, j) == i,
    decreases i - j,
{
    if j < i {
        lemma_sub_idx_step(s, pat, j + 1, i);
    }
}

proof fn lemma_sub_idx_none(s: Seq<char>, pat: Seq<char>, j: int)
    requires
        forall|k: int| !matches_at(s, pat, k),
    ensures
        sub_idx_from(s, pat, j) < 0,
    decreases s.len() - j,
{
    if !(pat.len() <= 0 || j < 0 || j + pat.len() > s.len()) {
        lemma_sub_idx_none(s, pat, j + 1);
    }
}

/// Splitting on a multi-character separator, non-overlapping, left to right.
pub open spec fn spec_split_sub(s: Seq<char>, sep: Seq<char>) -> Seq<Seq<char>>
    decreases s.len(),
{
    let i = sub_idx_from(s, sep, 0);
    if sep.len() >= 1 && 0 <= i && i + sep.len() <= s.len() {
        seq![s.take(i)] + spec_split_sub(s.skip(i + sep.len()), sep)
    } else {
        seq![s]
    }
}

/// Split `s` on every occurrence of `sep`, as `str::split` with a string
/// pattern does.
pub fn split_sub(s: &str, sep: &str) -> (parts: Vec<String>)
    requires
        sep@.len() >= 1,
    ensures
        seq_views(parts@) == spec_split_sub(s@, sep@),
    decreases s@.len(),
{
    match find_str(s, sep) {
        Some(i) => {
            proof {
                lemma_sub_idx_at(s@, sep@, i as int);
            }
            let slen = s.unicode_len();
            let seplen = sep.unicode_len();
            let head = s.substring_char(0, i).to_owned();
            let rest = s.substring_char(i + seplen, slen);
            assert(rest@ =~= s@.skip(i + sep@.len()));
            let tail = split_sub(rest, sep);
            let mut parts: Vec<String> = Vec::new();
            parts.push(head);
            let mut k: usize = 0;
            while k < tail.len()
                invariant
                    0 <= k <= tail@.len(),
                    parts@.len() == k + 1,
                    seq_views(parts@) =~= seq![s@.take(sub_idx_from(s@, sep@, 0))] + seq_views(
                        tail@,
                    ).take(k as int),
                decreases tail@.len() - k,
            {
                let ghost parts_pre = parts@;
                parts.push(tail[k].clone());
                proof {
                    assert(seq_views(parts@) =~= seq_views(parts_pre).push(tail@[k as int]@));
                    assert(seq_views(tail@).take(k as int + 1) =~= seq_views(tail@).take(
                        k as int,
                    ).push(tail@[k as int]@));
                    assert(seq_views(parts@) =~= seq![s@.take(sub_idx_from(s@, sep@, 0))]
                        + seq_views(tail@).take(k as int + 1));
                }
                k += 1;
            }
            assert(seq_views(tail@).take(tail@.len() as int) =~= seq_views(tail@));
            assert(seq_views(parts@) =~= spec_split_sub(s@, sep@));
            parts
        },
        None => {
            proof {
                lemma_sub_idx_none(s@, sep@, 0);
            }
            let mut parts: Vec<String> = Vec::new();
            parts.push(s.to_owned());
            assert(seq_views(parts@) =~= seq![s@]);
            parts
        },
    }
}

/// Every occurrence of `pat` replaced by `rep`, non-overlapping, left to
/// right, as `str::replace` leaves it.
pub open spec fn spec_replace(s: Seq<char>, pat: Seq<char>, rep: Seq<char>) -> Seq<char>
    decreases s.len(),
{
    let i = sub_idx_from(s, pat, 0);
    if pat.len() >= 1 && 0 <= i && i + pat.len() <= s.len() {
        s.take(i) + rep + spec_replace(s.skip(i + pat.len()), pat, rep)
    } else {
        s
    }
}

/// Replace every occurrence of `pat` by `rep`.
pub fn replace_sub(s: &str, pat: &str, rep: &str) -> (r: String)
    requires
        pat@.len() >= 1,
    ensures
        r@ == spec_replace(s@, pat@, rep@),
    decreases s@.len(),
{
    match find_str(s, pat) {
        Some(i) => {
            proof {
                lemma_sub_idx_at(s@, pat@, i as int);
            }
            let slen = s.unicode_len();
            let patlen = pat.unicode_len();
            let mut r = s.substring_char(0, i).to_owned();
            r.append(rep);
            let rest = s.substring_char(i + patlen, slen);
            assert(rest@ =~= s@.skip(i + pat@.len()));
            let tail = replace_sub(rest, pat, rep);
            r.append(tail.as_str());
            assert(r@ =~= s@.take(i as int) + rep@ + spec_replace(s@.skip(i + pat@.len()), pat@, rep@));
            r
        },
        None => {
            proof {
                lemma_sub_idx_none(s@, pat@, 0);
            }
            s.to_owned()
        },
    }
}

/// `s` with every leading repeat of `prefix` removed, as
/// `str::trim_start_matches` leaves it.
pub open spec fn strip_front_repeats(s: Seq<char>, prefix: Seq<char>) -> Seq<char>
    decreases s.len(),
{
    if prefix.len() > 0 && is_prefix_of(prefix, s) {
        strip_front_repeats(s.skip(prefix.len() as int), prefix)
    } else {
        s
    }
}

fn strip_front(s: &str, prefix: &str) -> (r: String)
    requires
        prefix@.len() > 0,
    ensures
        r@ == strip_front_repeats(s@, prefix@),
    decreases s@.len(),
{
    match strip_prefix_str(s, prefix) {
        Some(rest) => strip_front(rest.as_str(), prefix),
        None => s.to_owned(),
    }
}

/// Normalize a probe's vendor string: any casing of the three known makers
/// collapses to its canonical name, anything else passes through.
pub open spec fn spec_clean_vendor(v: Seq<char>) -> Seq<char> {
    if contains_sub(lower_seq(v), "apple"@) {
        "Apple"@
    } else if contains_sub(lower_seq(v), "intel"@) {
        "Intel"@
    } else if contains_sub(lower_seq(v), "amd"@) {
        "AMD"@
    } else {
        v
    }
}

/// Normalize a probe's vendor string.
pub fn clean_gpu_vendor(v: &str) -> (r: String)
    ensures
        r@ == spec_clean_vendor(v@),
{
    let lowered = to_ascii_lower(v);
    if contains_str(lowered.as_str(), "apple") {
        String::from_str("Apple")
    } else if contains_str(lowered.as_str(), "intel") {
        String::from_str("Intel")
    } else if contains_str(lowered.as_str(), "amd") {
        String::from_str("AMD")
    } else {
        v.to_owned()
    }
}

/// The canonical maker name behind a processor vendor string.
pub open spec fn spec_cpu_vendor(v: Seq<char>) -> Seq<char> {
    if v == "GenuineIntel"@ {
        "Intel"@
    } else if v == "AuthenticAMD"@ {
        "AMD"@
    } else {
        v
    }
}

/// Normalize a processor vendor string: the two long maker identifiers
/// collapse to their short names, anything else passes through.
pub fn normalize_cpu_vendor(v: &str) -> (r: String)
    ensures
        r@ == spec_cpu_vendor(v@),
{
    if crate::text::str_eq(v, "GenuineIntel") {
        String::from_str("Intel")
    } else if crate::text::str_eq(v, "AuthenticAMD") {
        String::from_str("AMD")
    } else {
        v.to_owned()
    }
}

/// Normalize a probe's model name: a `kHW_...Item` wrapper is unwrapped and
/// an `AppleM` run is spaced out.
pub open spec fn spec_clean_model(name: Seq<char>) -> Seq<char> {
    if is_prefix_of("kHW_"@, name) && crate::text::is_suffix_of("Item"@, name) {
        let unwrapped = crate::procs::strip_repeats(strip_front_repeats(name, "kHW_"@), "Item"@);
        if is_prefix_of("AppleM"@, unwrapped) {
            spec_replace(unwrapped, "AppleM"@, "Apple M"@)
        } else {
            unwrapped
        }
    } else {
        name
    }
}

/// Normalize a probe's model name.
pub fn clean_gpu_model(name: &str) -> (r: String)
    ensures
        r@ == spec_clean_model(name@),
{
    proof {
        reveal_strlit("kHW_");
        reveal_strlit("Item");
        reveal_strlit("AppleM");
    }
    let has_prefix = match strip_prefix_str(name, "kHW_") {
        Some(_) => true,
        None => false,
    };
    if has_prefix && crate::text::ends_with_str(name, "Item") {
        let unwrapped = crate::procs::strip_repeat_suffix(
            strip_front(name, "kHW_").as_str(),
            "Item",
        );
        match strip_prefix_str(unwrapped.as_str(), "AppleM") {
            Some(_) => replace_sub(unwrapped.as_str(), "AppleM", "Apple M"),
            None => unwrapped,
        }
    } else {
        name.to_owned()
    }
}

/// A memory-size string's value in megabytes: the number before a `GB` mark
/// scaled by 1024, or the number before an `MB` mark, case-insensitively;
/// anything else reads as nothing.
pub open spec fn spec_vram_mb(v: Seq<char>) -> Option<nat> {
    let up = upper_seq(v);
    if contains_sub(up, "GB"@) {
        match spec_parse_u64(spec_trim(up.take(sub_idx_from(up, "GB"@, 0)))) {
            Some(g) => Some(crate::procs::sat64((g * 1024) as nat)),
            None => None,
        }
    } else if contains_sub(up, "MB"@) {
        match spec_parse_u64(spec_trim(up.take(sub_idx_from(up, "MB"@, 0)))) {
            Some(m) => Some(m as nat),
            None => None,
        }
    } else {
        None
    }
}

/// Read a memory-size string in megabytes.
pub fn parse_vram_mb(v: &str) -> (r: Option<u64>)
    ensures
        match r {
            Some(mb) => spec_vram_mb(v@) == Some(mb as nat),
            None => spec_vram_mb(v@) is None,
        },
{
    let up = to_ascii_upper(v);
    proof {
        reveal_strlit("GB");
        reveal_strlit("MB");
    }
    match find_str(up.as_str(), "GB") {
        Some(i) => {
            proof {
                lemma_sub_idx_at(up@, "GB"@, i as int);
                assert(contains_sub(up@, "GB"@));
            }
            let head = up.as_str().substring_char(0, i);
            assert(head@ =~= up@.take(i as int));
            match parse_u64(trim_str(head).as_str()) {
                Some(g) => {
                    let scaled: u128 = (g as u128) * 1024;
                    if scaled > 0xffffffffffffffff {
                        Some(u64::MAX)
                    } else {
                        Some(scaled as u64)
                    }
                },
                None => None,
            }
        },
        None => {
            proof {
                if contains_sub(up@, "GB"@) {
                    let k = choose|k: int| matches_at(up@, "GB"@, k);
                }
            }
            match find_str(up.as_str(), "MB") {
                Some(i) => {
                    proof {
                        lemma_sub_idx_at(up@, "MB"@, i as int);
                        assert(contains_sub(up@, "MB"@));
                    }
                    let head = up.as_str().substring_char(0, i);
                    assert(head@ =~= up@.take(i as int));
                    parse_u64(trim_str(head).as_str())
                },
                None => {
                    proof {
                        if contains_sub(up@, "MB"@) {
                            let k = choose|k: int| matches_at(up@, "MB"@, k);
                        }
                    }
                    None
                },
            }
        },
    }
}

/// The numeric value printed after `token` in a registry dump: the text up
/// to the next `,` — or, failing that, the next `}` — trimmed and read as a
/// whole number.
pub open spec fn spec_ioreg_value(s: Seq<char>, token: Seq<char>) -> Option<u64> {
    let i = sub_idx_from(s, token, 0);
    if 0 <= i {
        let rest = s.skip(i + token.len());
        let e = if sub_idx_from(rest, ","@, 0) >= 0 {
            sub_idx_from(rest, ","@, 0)
        } else if sub_idx_from(rest, "}"@, 0) >= 0 {
            sub_idx_from(rest, "}"@, 0)
        } else {
            0
        };
        if e > 0 {
            spec_parse_u64(spec_trim(rest.take(e)))
        } else {
            None
        }
    } else {
        None
    }
}

/// Read the value printed after a key token in a registry dump.
pub fn parse_ioreg_value(s: &str, token: &str) -> (r: Option<u64>)
    ensures
        r == spec_ioreg_value(s@, token@),
{
    let slen = s.unicode_len();
    let toklen = token.unicode_len();
    if toklen == 0 {
        return None;
    }
    match find_str(s, token) {
        Some(i) => {
            proof {
                lemma_sub_idx_at(s@, token@, i as int);
            }
            let rest = s.substring_char(i + toklen, slen);
            assert(rest@ =~= s@.skip(i + token@.len()));
            proof {
                reveal_strlit(",");
                reveal_strlit("}");
            }
            let e: usize = match find_str(rest, ",") {
                Some(e1) => {
                    proof {
                        lemma_sub_idx_at(rest@, ","@, e1 as int);
                    }
                    e1
                },
                None => {
                    proof {
                        lemma_sub_idx_none(rest@, ","@, 0);
                    }
                    match find_str(rest, "}") {
                        Some(e2) => {
                            proof {
                                lemma_sub_idx_at(rest@, "}"@, e2 as int);
                            }
                            e2
                        },
                        None => {
                            proof {
                                lemma_sub_idx_none(rest@, "}"@, 0);
                            }
                            0
                        },
                    }
                },
            };
            if e > 0 {
                let head = rest.substring_char(0, e);
                assert(head@ =~= rest@.take(e as int));
                parse_u64(trim_str(head).as_str())
            } else {
                None
            }
        },
        None => {
            proof {
                lemma_sub_idx_none(s@, token@, 0);
            }
            None
        },
    }
}

/// One graphics CLI line: utilization, memory utilization, temperature,
/// name, total memory, used memory, separated by comma-space. Unreadable
/// numeric channels fall back to the negative unknown mark or zero.
pub fn parse_nvidia_line(line: &str) -> (r: Option<GpuSample>)
    ensures
        r is Some <==> spec_split_sub(line@, ", "@).len() >= 6,
        r matches Some(g) ==> {
            let parts = spec_split_sub(line@, ", "@);
            &&& g.vendor@ == "NVIDIA"@
            &&& g.model@ == parts[3]
            &&& g.load_milli == (match spec_parse_u64(parts[0]) {
                Some(v) => if v * 1000 <= i64::MAX {
                    (v * 1000) as i64
                } else {
                    i64::MAX
                },
                None => -1000int as i64,
            })
            &&& g.temp_milli == (match spec_parse_u64(parts[2]) {
                Some(v) => if v * 1000 <= i64::MAX {
                    (v * 1000) as i64
                } else {
                    i64::MAX
                },
                None => -1000int as i64,
            })
            &&& g.vram_total_mb == (match spec_parse_u64(parts[4]) {
                Some(v) => v,
                None => 0,
            })
            &&& g.vram_used_mb == (match spec_parse_u64(parts[5]) {
                Some(v) => if v <= i64::MAX {
                    v as i64
                } else {
                    i64::MAX
                },
                None => 0,
            })
        },
{
    proof {
        reveal_strlit(", ");
    }
    let parts = split_sub(line, ", ");
    if parts.len() < 6 {
        return None;
    }
    let load_milli: i64 = match parse_u64(parts[0].as_str()) {
        Some(v) => {
            let scaled: u128 = (v as u128) * 1000;
            if scaled <= 0x7fffffffffffffff {
                scaled as i64
            } else {
                i64::MAX
            }
        },
        None => -1000,
    };
    let temp_milli: i64 = match parse_u64(parts[2].as_str()) {
        Some(v) => {
            let scaled: u128 = (v as u128) * 1000;
            if scaled <= 0x7fffffffffffffff {
                scaled as i64
            } else {
                i64::MAX
            }
        },
        None => -1000,
    };
    let total = match parse_u64(parts[4].as_str()) {
        Some(v) => v,
        None => 0,
    };
    let used: i64 = match parse_u64(parts[5].as_str()) {
        Some(v) => if v <= 0x7fffffffffffffff {
            v as i64
        } else {
            i64::MAX
        },
        None => 0,
    };
    Some(
        GpuSample {
            vendor: String::from_str("NVIDIA"),
            model: parts[3].clone(),
            vram_total_mb: total,
            vram_used_mb: used,
            temp_milli,
            load_milli,
        },
    )
}

/// The volume a settings report names in one of its comma-separated parts:
/// the number after the last `:` of a part naming `output volume:`, the
/// latest readable one winning.
pub open spec fn fold_volume(parts: Seq<Seq<char>>) -> Option<i32>
    decreases parts.len(),
{
    if parts.len() == 0 {
        None
    } else {
        match part_volume(parts.last()) {
            Some(v) => Some(v),
            None => fold_volume(parts.drop_last()),
        }
    }
}

/// The volume one part names, when it does.
pub open spec fn part_volume(p: Seq<char>) -> Option<i32> {
    if contains_sub(p, "output volume:"@) {
        let pieces = spec_split(p, ':');
        match spec_parse_u64(spec_trim(pieces[pieces.len() - 1])) {
            Some(v) => if v <= i32::MAX {
                Some(v as i32)
            } else {
                None
            },
            None => None,
        }
    } else {
        None
    }
}

/// The mute state a settings report names, the latest part winning.
pub open spec fn fold_muted(parts: Seq<Seq<char>>) -> Option<bool>
    decreases parts.len(),
{
    if parts.len() == 0 {
        None
    } else {
        match part_muted(parts.last()) {
            Some(v) => Some(v),
            None => fold_muted(parts.drop_last()),
        }
    }
}

/// The mute state one part names, when it does.
pub open spec fn part_muted(p: Seq<char>) -> Option<bool> {
    if contains_sub(p, "output muted:"@) {
        Some(contains_sub(p, "true"@))
    } else {
        None
    }
}

/// Read a volume settings report: the output volume and the mute state, when
/// named.
pub fn parse_volume_output(s: &str) -> (r: (Option<i32>, Option<bool>))
    ensures
        r.0 == fold_volume(spec_split(s@, ',')),
        r.1 == fold_muted(spec_split(s@, ',')),
{
    let parts = split_char(s, ',');
    let ghost pviews = spec_split(s@, ',');
    let mut volume: Option<i32> = None;
    let mut muted: Option<bool> = None;
    let mut i: usize = 0;
    proof {
        assert(pviews.take(0) =~= Seq::<Seq<char>>::empty());
    }
    while i < parts.len()
        invariant
            seq_views(parts@) == pviews,
            0 <= i <= parts@.len(),
            volume == fold_volume(pviews.take(i as int)),
            muted == fold_muted(pviews.take(i as int)),
        decreases parts@.len() - i,
    {
        let part = &parts[i];
        assert(part@ == pviews[i as int]);
        proof {
            assert(pviews.take(i as int + 1).drop_last() =~= pviews.take(i as int));
            assert(pviews.take(i as int + 1).last() == pviews[i as int]);
        }
        if contains_str(part.as_str(), "output volume:") {
            let pieces = split_char(part.as_str(), ':');
            proof {
                crate::text::lemma_split_len(part@, ':');
            }
            let last_piece = &pieces[pieces.len() - 1];
            assert(last_piece@ == spec_split(part@, ':')[spec_split(part@, ':').len() - 1]);
            match parse_u64(trim_str(last_piece.as_str()).as_str()) {
                Some(v) => {
                    if v <= 0x7fffffff {
                        volume = Some(v as i32);
                    }
                },
                None => {},
            }
        }
        if contains_str(part.as_str(), "output muted:") {
            muted = Some(contains_str(part.as_str(), "true"));
        }
        i += 1;
    }
    proof {
        assert(pviews.take(parts@.len() as int) =~= pviews);
    }
    (volume, muted)
}

} // verus!
