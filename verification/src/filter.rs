//! Per-connection projection of bus events onto a subscription set: a stats
//! payload keeps exactly the sub-fields the subscription covers, media and
//! process events are delivered whole or not at all, and the event stream's
//! `fields` query restricts a payload to the named sub-fields.

use vstd::prelude::*;

use crate::session::Session;
use crate::text::{seq_views, spec_split, spec_trim, split_char, trim_str, vec_contains_str};
use crate::types::{BroadcastEvent, StreamPayload};

verus! {

/// Whether the subscription covers the `cpu` sub-field.
pub open spec fn covers_cpu(subs: Seq<Seq<char>>) -> bool {
    subs.contains("cpu"@) || subs.contains("stats.cpu"@) || subs.contains("stats"@)
}

/// Whether the subscription covers the `memory` sub-field.
pub open spec fn covers_memory(subs: Seq<Seq<char>>) -> bool {
    subs.contains("memory"@) || subs.contains("stats.memory"@) || subs.contains("stats"@)
}

/// Whether the subscription covers the `gpu` sub-field.
pub open spec fn covers_gpu(subs: Seq<Seq<char>>) -> bool {
    subs.contains("gpu"@) || subs.contains("stats.gpu"@) || subs.contains("stats"@)
}

/// Whether the subscription covers the `disks` sub-field.
pub open spec fn covers_disks(subs: Seq<Seq<char>>) -> bool {
    subs.contains("disks"@) || subs.contains("stats.disks"@) || subs.contains("stats"@)
}

/// Whether the subscription covers the `network` sub-field.
pub open spec fn covers_network(subs: Seq<Seq<char>>) -> bool {
    subs.contains("network"@) || subs.contains("stats.network"@) || subs.contains("stats"@)
}

/// Whether a projected stats event is delivered at all: some sub-field both
/// covered and carried by the payload remains after projection, or the
/// `system` umbrella is held.
pub open spec fn keeps_stats(subs: Seq<Seq<char>>, payload: StreamPayload) -> bool {
    ||| (covers_cpu(subs) && payload.cpu is Some)
    ||| (covers_memory(subs) && payload.memory is Some)
    ||| (covers_gpu(subs) && payload.gpu is Some)
    ||| (covers_disks(subs) && payload.disks is Some)
    ||| (covers_network(subs) && payload.network is Some)
    ||| subs.contains("system"@)
}

/// Whether media events are delivered.
pub open spec fn keeps_media(subs: Seq<Seq<char>>) -> bool {
    subs.contains("media"@) || subs.contains("stats.media"@)
}

/// Whether process events are delivered.
pub open spec fn keeps_processes(subs: Seq<Seq<char>>) -> bool {
    subs.contains("processes"@) || subs.contains("process"@)
}

/// Project a stats payload onto a subscription set: each sub-field stays
/// exactly when the set covers it, the `media` extra only under an explicit
/// `media` subscription, and the whole event is dropped when no sub-field
/// remains after projection and the `system` umbrella is absent.
pub fn filter_stats_payload(payload: StreamPayload, subs: &Vec<String>) -> (r: Option<
    StreamPayload,
>)
    ensures
        r is Some <==> keeps_stats(seq_views(subs@), payload),
        match r {
            Some(p) => {
                &&& p.timestamp == payload.timestamp
                &&& p.uptime == payload.uptime
                &&& p.cpu == if covers_cpu(seq_views(subs@)) {
                    payload.cpu
                } else {
                    None
                }
                &&& p.memory == if covers_memory(seq_views(subs@)) {
                    payload.memory
                } else {
                    None
                }
                &&& p.gpu == if covers_gpu(seq_views(subs@)) {
                    payload.gpu
                } else {
                    None
                }
                &&& p.disks == if covers_disks(seq_views(subs@)) {
                    payload.disks
                } else {
                    None
                }
                &&& p.network == if covers_network(seq_views(subs@)) {
                    payload.network
                } else {
                    None
                }
                &&& p.media == if seq_views(subs@).contains("media"@) {
                    payload.media
                } else {
                    None
                }
            },
            None => true,
        },
{
    let has_stats = vec_contains_str(subs, "stats");
    let has_cpu = vec_contains_str(subs, "cpu") || vec_contains_str(subs, "stats.cpu")
        || has_stats;
    let has_memory = vec_contains_str(subs, "memory") || vec_contains_str(subs, "stats.memory")
        || has_stats;
    let has_gpu = vec_contains_str(subs, "gpu") || vec_contains_str(subs, "stats.gpu")
        || has_stats;
    let has_disks = vec_contains_str(subs, "disks") || vec_contains_str(subs, "stats.disks")
        || has_stats;
    let has_network = vec_contains_str(subs, "network") || vec_contains_str(
        subs,
        "stats.network",
    ) || has_stats;
    let has_media = vec_contains_str(subs, "media");
    let has_system = vec_contains_str(subs, "system");
    let has_content = (has_cpu && payload.cpu.is_some()) || (has_memory
        && payload.memory.is_some()) || (has_gpu && payload.gpu.is_some()) || (has_disks
        && payload.disks.is_some()) || (has_network && payload.network.is_some());
    if has_content || has_system {
        Some(
            StreamPayload {
                timestamp: payload.timestamp,
                uptime: payload.uptime,
                cpu: if has_cpu {
                    payload.cpu
                } else {
                    None
                },
                memory: if has_memory {
                    payload.memory
                } else {
                    None
                },
                gpu: if has_gpu {
                    payload.gpu
                } else {
                    None
                },
                disks: if has_disks {
                    payload.disks
                } else {
                    None
                },
                network: if has_network {
                    payload.network
                } else {
                    None
                },
                media: if has_media {
                    payload.media
                } else {
                    None
                },
            },
        )
    } else {
        None
    }
}

/// Project one bus event onto a session: a never-subscribed session receives
/// nothing, a stats payload is projected field by field, and the other event
/// kinds pass whole exactly when their family is held.
pub fn filter_event(event: BroadcastEvent, session: &Session) -> (r: Option<BroadcastEvent>)
    ensures
        session.spec_subs() is None ==> r is None,
        match session.spec_subs() {
            None => r is None,
            Some(subs) => match event {
                BroadcastEvent::SystemStats(payload) => match r {
                    Some(ev) => keeps_stats(subs, payload) && (ev matches BroadcastEvent::SystemStats(p)
                        && p.timestamp == payload.timestamp
                        && p.uptime == payload.uptime
                        && p.cpu == (if covers_cpu(subs) { payload.cpu } else { None })
                        && p.memory == (if covers_memory(subs) { payload.memory } else { None })
                        && p.gpu == (if covers_gpu(subs) { payload.gpu } else { None })
                        && p.disks == (if covers_disks(subs) { payload.disks } else { None })
                        && p.network == (if covers_network(subs) {
                            payload.network
                        } else {
                            None
                        })
                        && p.media == (if subs.contains("media"@) { payload.media } else { None })),
                    None => !keeps_stats(subs, payload),
                },
                BroadcastEvent::MediaUpdate(_) => r == if keeps_media(subs) {
                    Some(event)
                } else {
                    None::<BroadcastEvent>
                },
                BroadcastEvent::MediaFeedback(_) => r == if keeps_media(subs) {
                    Some(event)
                } else {
                    None::<BroadcastEvent>
                },
                BroadcastEvent::ProcessList(_) => r == if keeps_processes(subs) {
                    Some(event)
                } else {
                    None::<BroadcastEvent>
                },
                BroadcastEvent::ProcessFeedback(_) => r == if keeps_processes(subs) {
                    Some(event)
                } else {
                    None::<BroadcastEvent>
                },
            },
        },
{
    let subs = match session.subscription_list() {
        Some(v) => v,
        None => {
            return None;
        },
    };
    match event {
        BroadcastEvent::SystemStats(payload) => {
            match filter_stats_payload(payload, subs) {
                Some(p) => Some(BroadcastEvent::SystemStats(p)),
                None => None,
            }
        },
        BroadcastEvent::MediaUpdate(_) | BroadcastEvent::MediaFeedback(_) => {
            if vec_contains_str(subs, "media") || vec_contains_str(subs, "stats.media") {
                Some(event)
            } else {
                None
            }
        },
        BroadcastEvent::ProcessList(_) | BroadcastEvent::ProcessFeedback(_) => {
            if vec_contains_str(subs, "processes") || vec_contains_str(subs, "process") {
                Some(event)
            } else {
                None
            }
        },
    }
}

/// The field names of a `fields` query: comma-separated entries, trimmed,
/// empty entries dropped.
pub open spec fn spec_stream_fields(s: Seq<char>) -> Seq<Seq<char>> {
    spec_split(s, ',').map_values(|p: Seq<char>| spec_trim(p)).filter(
        |p: Seq<char>| p.len() > 0,
    )
}

/// Parse a `fields` query into its field names.
pub fn parse_stream_fields(fields: &str) -> (r: Vec<String>)
    ensures
        seq_views(r@) == spec_stream_fields(fields@),
{
    let parts = split_char(fields, ',');
    let ghost mapped = spec_split(fields@, ',').map_values(|p: Seq<char>| spec_trim(p));
    let ghost keep = |p: Seq<char>| p.len() > 0;
    let mut r: Vec<String> = Vec::new();
    let mut i: usize = 0;
    proof {
        reveal(Seq::filter);
        assert(mapped.take(0) =~= Seq::<Seq<char>>::empty());
        assert(seq_views(r@) =~= Seq::<Seq<char>>::empty());
        assert(mapped.take(0).filter(keep) =~= Seq::<Seq<char>>::empty());
    }
    while i < parts.len()
        invariant
            0 <= i <= parts@.len(),
            seq_views(parts@) == spec_split(fields@, ','),
            mapped == spec_split(fields@, ',').map_values(|p: Seq<char>| spec_trim(p)),
            keep == (|p: Seq<char>| p.len() > 0),
            mapped.len() == parts@.len(),
            seq_views(r@) == mapped.take(i as int).filter(keep),
        decreases parts@.len() - i,
    {
        let trimmed = trim_str(parts[i].as_str());
        assert(trimmed@ == mapped[i as int]);
        let ghost r_pre = r@;
        if trimmed.unicode_len() > 0 {
            r.push(trimmed);
        }
        proof {
            crate::registry::lemma_filter_take_step(mapped, keep, i as int);
            if mapped[i as int].len() > 0 {
                assert(seq_views(r@) =~= seq_views(r_pre).push(mapped[i as int]));
            } else {
                assert(seq_views(r@) == seq_views(r_pre));
            }
        }
        i += 1;
    }
    proof {
        assert(mapped.take(parts@.len() as int) =~= mapped);
    }
    r
}

/// Restrict a stats payload to the named sub-fields; an empty name list keeps
/// every field.
pub fn sse_filter_payload(payload: StreamPayload, fields: &Vec<String>) -> (r: StreamPayload)
    ensures
        r.timestamp == payload.timestamp,
        r.uptime == payload.uptime,
        r.media == payload.media,
        fields@.len() == 0 ==> r.cpu == payload.cpu && r.memory == payload.memory
            && r.gpu == payload.gpu && r.disks == payload.disks && r.network == payload.network,
        fields@.len() > 0 ==> {
            &&& r.cpu == if seq_views(fields@).contains("cpu"@) {
                payload.cpu
            } else {
                None
            }
            &&& r.memory == if seq_views(fields@).contains("memory"@) {
                payload.memory
            } else {
                None
            }
            &&& r.gpu == if seq_views(fields@).contains("gpu"@) {
                payload.gpu
            } else {
                None
            }
            &&& r.disks == if seq_views(fields@).contains("disks"@) {
                payload.disks
            } else {
                None
            }
            &&& r.network == if seq_views(fields@).contains("network"@) {
                payload.network
            } else {
                None
            }
        },
{
    if fields.len() == 0 {
        return payload;
    }
    StreamPayload {
        timestamp: payload.timestamp,
        uptime: payload.uptime,
        cpu: if vec_contains_str(fields, "cpu") {
            payload.cpu
        } else {
            None
        },
        memory: if vec_contains_str(fields, "memory") {
            payload.memory
        } else {
            None
        },
        gpu: if vec_contains_str(fields, "gpu") {
            payload.gpu
        } else {
            None
        },
        disks: if vec_contains_str(fields, "disks") {
            payload.disks
        } else {
            None
        },
        network: if vec_contains_str(fields, "network") {
            payload.network
        } else {
            None
        },
        media: payload.media,
    }
}

} // verus!
