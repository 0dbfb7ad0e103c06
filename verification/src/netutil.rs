//! Network utilities: the local-interface listing filtered down to the
//! addresses worth showing, the window ownership scan of the process backend,
//! and the random draw behind token generation. The outside calls stand
//! behind trusted declarations; everything around them is verified.

use vstd::prelude::*;

use crate::ip::{ipv4_text, is_v4_loopback, ipv4_to_string, Ip};
use crate::text::{seq_views, spec_parse_u64};

verus! {

pub assume_specification<T>[ rand::random::<T> ]() -> (r: T)
    where
        rand::distributions::Standard: rand::distributions::Distribution<T>,
;

/// One fresh random draw. Nothing holds of the value.
pub fn random_u64() -> u64 {
    rand::random::<u64>()
}

/// The addresses to show for this host: the IPv4 interfaces outside the
/// loopback block, rendered as dotted quads, in interface order.
pub fn get_local_ips(interfaces: Vec<Ip>) -> (r: Vec<String>)
    ensures
        seq_views(r@) == interfaces@.map_values(|ip: Ip| match ip {
            Ip::V4(v) => if is_v4_loopback(v) {
                Seq::<char>::empty()
            } else {
                ipv4_text(v)
            },
            Ip::V6(_) => Seq::<char>::empty(),
        }).filter(|t: Seq<char>| t.len() > 0),
{
    let ghost mapped = interfaces@.map_values(|ip: Ip| match ip {
        Ip::V4(v) => if is_v4_loopback(v) {
            Seq::<char>::empty()
        } else {
            ipv4_text(v)
        },
        Ip::V6(_) => Seq::<char>::empty(),
    });
    let ghost keep = |t: Seq<char>| t.len() > 0;
    let mut r: Vec<String> = Vec::new();
    let mut i: usize = 0;
    proof {
        reveal(Seq::filter);
        assert(mapped.take(0) =~= Seq::<Seq<char>>::empty());
        assert(seq_views(r@) =~= Seq::<Seq<char>>::empty());
        assert(mapped.take(0).filter(keep) =~= Seq::<Seq<char>>::empty());
    }
    while i < interfaces.len()
        invariant
            0 <= i <= interfaces@.len(),
            mapped == interfaces@.map_values(|ip: Ip| match ip {
                Ip::V4(v) => if is_v4_loopback(v) {
                    Seq::<char>::empty()
                } else {
                    ipv4_text(v)
                },
                Ip::V6(_) => Seq::<char>::empty(),
            }),
            keep == (|t: Seq<char>| t.len() > 0),
            mapped.len() == interfaces@.len(),
            seq_views(r@) == mapped.take(i as int).filter(keep),
        decreases interfaces@.len() - i,
    {
        let ghost r_pre = r@;
        match interfaces[i] {
            Ip::V4(v) => {
                if !(v >> 24 == 127) {
                    let text = ipv4_to_string(v);
                    proof {
                        lemma_ipv4_text_nonempty(v);
                    }
                    r.push(text);
                }
            },
            Ip::V6(_) => {},
        }
        proof {
            crate::registry::lemma_filter_take_step(mapped, keep, i as int);
            if keep(mapped[i as int]) {
                assert(seq_views(r@) =~= seq_views(r_pre).push(mapped[i as int]));
            } else {
                assert(seq_views(r@) == seq_views(r_pre));
            }
        }
        i += 1;
    }
    proof {
        assert(mapped.take(interfaces@.len() as int) =~= mapped);
    }
    r
}

proof fn lemma_ipv4_text_nonempty(v: u32)
    ensures
        ipv4_text(v).len() > 0,
{
    crate::text::lemma_dec_text_len((v >> 24) as nat);
}

/// The digit runs of every `pid=N` field of a process listing: what the
/// pattern `(?i)\bpid\s*=\s*(\d+)` captures, in match order.
pub uninterp spec fn pid_fields_of(s: Seq<char>) -> Seq<Seq<char>>;

/// Relies on regex::Regex::captures_iter with the pattern
/// `(?i)\bpid\s*=\s*(\d+)`: every non-overlapping `pid=N` field of the text,
/// in order, each yielded as its digit run.
#[verifier::external_body]
fn scan_pid_fields(text: &str) -> (r: Vec<String>)
    ensures
        seq_views(r@) == pid_fields_of(text@),
{
    let re = regex::Regex::new(r"(?i)\bpid\s*=\s*(\d+)").unwrap();
    re.captures_iter(text).filter_map(|c| c.get(1)).map(|m| m.as_str().to_string()).collect()
}

/// The owning process ids named by a window listing: each captured `pid=N`
/// digit run that reads as a 32-bit number, first occurrence kept, duplicates
/// dropped.
pub fn get_macos_window_map(listing: &str) -> (r: Vec<u32>)
    ensures
        forall|i: int, j: int| 0 <= i < j < r@.len() ==> r@[i] != r@[j],
        forall|v: u32| r@.contains(v) <==> exists|k: int|
            0 <= k < pid_fields_of(listing@).len() && spec_parse_u64(
                #[trigger] pid_fields_of(listing@)[k],
            ) == Some(v as u64),
{
    let fields = scan_pid_fields(listing);
    let ghost fviews = seq_views(fields@);
    let mut r: Vec<u32> = Vec::new();
    let mut i: usize = 0;
    while i < fields.len()
        invariant
            fviews == pid_fields_of(listing@),
            fviews == seq_views(fields@),
            0 <= i <= fields@.len(),
            forall|a: int, b: int| 0 <= a < b < r@.len() ==> r@[a] != r@[b],
            forall|v: u32| r@.contains(v) <==> exists|k: int|
                0 <= k < i && spec_parse_u64(#[trigger] fviews[k]) == Some(v as u64),
        decreases fields@.len() - i,
    {
        let ghost r_pre = r@;
        match crate::text::parse_u64(fields[i].as_str()) {
            Some(v) => {
                if v <= 0xffffffff {
                    let pid = v as u32;
                    let mut seen = false;
                    let mut k: usize = 0;
                    while k < r.len()
                        invariant
                            0 <= k <= r@.len(),
                            seen == exists|a: int| 0 <= a < k && r@[a] == pid,
                        decreases r@.len() - k,
                    {
                        if r[k] == pid {
                            seen = true;
                        }
                        k += 1;
                    }
                    if !seen {
                        r.push(pid);
                        proof {
                            assert(r@ =~= r_pre.push(pid));
                            assert(r@[r_pre.len() as int] == pid);
                            assert(fviews[i as int] == fields@[i as int]@);
                        }
                    }
                } else {
                    proof {
                        assert forall|w: u32|
                            spec_parse_u64(fviews[i as int]) != Some(#[trigger] (w as u64)) by {
                            assert(w as u64 <= 0xffffffffu64);
                        }
                    }
                }
            },
            None => {},
        }
        proof {
            assert forall|v: u32| r@.contains(v) <==> exists|k: int|
                0 <= k < i + 1 && spec_parse_u64(#[trigger] fviews[k]) == Some(v as u64) by {
                if r@.contains(v) {
                    let a = choose|a: int| 0 <= a < r@.len() && r@[a] == v;
                    if a < r_pre.len() {
                        assert(r_pre.contains(v));
                    } else {
                        assert(spec_parse_u64(fviews[i as int]) == Some(v as u64));
                    }
                }
                if exists|k: int| 0 <= k < i + 1 && spec_parse_u64(#[trigger] fviews[k]) == Some(
                    v as u64,
                ) {
                    let k = choose|k: int|
                        0 <= k < i + 1 && spec_parse_u64(#[trigger] fviews[k]) == Some(v as u64);
                    if k < i {
                        assert(r_pre.contains(v));
                        let a = choose|a: int| 0 <= a < r_pre.len() && r_pre[a] == v;
                        assert(r@[a] == v);
                    }
                }
            }
        }
        i += 1;
    }
    r
}

} // verus!
