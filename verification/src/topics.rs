//! The topic grammar: the fixed set of recognized topic names, their shallow
//! hierarchy under the `stats` umbrella, the legacy short aliases, and the
//! grouping of topics into the three families that each own one worker loop.
//! Unknown topics pass through verbatim and match nothing.

use vstd::prelude::*;

use crate::text::{distinct_views, lower_seq, seq_views, str_eq, to_ascii_lower, vec_contains_str};

verus! {

/// The coarsest grouping of topics that shares a single worker loop.
#[derive(Clone, Copy, PartialEq, Eq, Structural, Debug)]
pub enum TopicFamily {
    Stats,
    Media,
    Processes,
}

/// Topics whose demand is served by the stats loop.
pub open spec fn is_stats_family_topic(t: Seq<char>) -> bool {
    ||| t == "stats"@
    ||| t == "stats.cpu"@
    ||| t == "stats.memory"@
    ||| t == "stats.gpu"@
    ||| t == "stats.disks"@
    ||| t == "stats.network"@
    ||| t == "cpu"@
    ||| t == "memory"@
    ||| t == "gpu"@
    ||| t == "disks"@
    ||| t == "network"@
    ||| t == "system"@
}

/// Topics whose demand is served by the media loop.
pub open spec fn is_media_family_topic(t: Seq<char>) -> bool {
    t == "media"@ || t == "stats.media"@
}

/// Topics whose demand is served by the processes loop.
pub open spec fn is_processes_family_topic(t: Seq<char>) -> bool {
    t == "processes"@ || t == "process"@
}

/// The family a topic belongs to, if it is a recognized one.
pub open spec fn spec_family_of(t: Seq<char>) -> Option<TopicFamily> {
    if is_stats_family_topic(t) {
        Some(TopicFamily::Stats)
    } else if is_media_family_topic(t) {
        Some(TopicFamily::Media)
    } else if is_processes_family_topic(t) {
        Some(TopicFamily::Processes)
    } else {
        None
    }
}

/// The family a topic belongs to, if any.
pub fn family_of(topic: &str) -> (r: Option<TopicFamily>)
    ensures
        r == spec_family_of(topic@),
{
    if str_eq(topic, "stats") || str_eq(topic, "stats.cpu") || str_eq(topic, "stats.memory")
        || str_eq(topic, "stats.gpu") || str_eq(topic, "stats.disks")
        || str_eq(topic, "stats.network") || str_eq(topic, "cpu") || str_eq(topic, "memory")
        || str_eq(topic, "gpu") || str_eq(topic, "disks") || str_eq(topic, "network")
        || str_eq(topic, "system") {
        Some(TopicFamily::Stats)
    } else if str_eq(topic, "media") || str_eq(topic, "stats.media") {
        Some(TopicFamily::Media)
    } else if str_eq(topic, "processes") || str_eq(topic, "process") {
        Some(TopicFamily::Processes)
    } else {
        None
    }
}

/// Expansion of one topic into the canonical names it stands for: the `stats`
/// umbrella fans out to its five children plus the five legacy aliases, a
/// legacy stats alias maps to itself plus its canonical child, the `process`
/// alias maps to both process names, and any other topic stays as it is.
pub open spec fn spec_expand_topic(t: Seq<char>) -> Seq<Seq<char>> {
    if t == "stats"@ {
        seq![
            "stats"@, "stats.cpu"@, "stats.memory"@, "stats.gpu"@, "stats.disks"@,
            "stats.network"@, "cpu"@, "memory"@, "gpu"@, "disks"@, "network"@,
        ]
    } else if t == "cpu"@ {
        seq!["cpu"@, "stats.cpu"@]
    } else if t == "memory"@ {
        seq!["memory"@, "stats.memory"@]
    } else if t == "gpu"@ {
        seq!["gpu"@, "stats.gpu"@]
    } else if t == "disks"@ {
        seq!["disks"@, "stats.disks"@]
    } else if t == "network"@ || t == "net"@ {
        seq!["network"@, "stats.network"@]
    } else if t == "process"@ {
        seq!["processes"@, "process"@]
    } else {
        seq![t]
    }
}

/// Expand one hierarchical topic subscription.
pub fn expand_topic(topic: &str) -> (r: Vec<String>)
    ensures
        seq_views(r@) == spec_expand_topic(topic@),
{
    let mut r: Vec<String> = Vec::new();
    if str_eq(topic, "stats") {
        r.push(String::from_str("stats"));
        r.push(String::from_str("stats.cpu"));
        r.push(String::from_str("stats.memory"));
        r.push(String::from_str("stats.gpu"));
        r.push(String::from_str("stats.disks"));
        r.push(String::from_str("stats.network"));
        r.push(String::from_str("cpu"));
        r.push(String::from_str("memory"));
        r.push(String::from_str("gpu"));
        r.push(String::from_str("disks"));
        r.push(String::from_str("network"));
        assert(seq_views(r@) =~= spec_expand_topic(topic@));
    } else if str_eq(topic, "cpu") {
        r.push(String::from_str("cpu"));
        r.push(String::from_str("stats.cpu"));
        assert(seq_views(r@) =~= spec_expand_topic(topic@));
    } else if str_eq(topic, "memory") {
        r.push(String::from_str("memory"));
        r.push(String::from_str("stats.memory"));
        assert(seq_views(r@) =~= spec_expand_topic(topic@));
    } else if str_eq(topic, "gpu") {
        r.push(String::from_str("gpu"));
        r.push(String::from_str("stats.gpu"));
        assert(seq_views(r@) =~= spec_expand_topic(topic@));
    } else if str_eq(topic, "disks") {
        r.push(String::from_str("disks"));
        r.push(String::from_str("stats.disks"));
        assert(seq_views(r@) =~= spec_expand_topic(topic@));
    } else if str_eq(topic, "network") || str_eq(topic, "net") {
        r.push(String::from_str("network"));
        r.push(String::from_str("stats.network"));
        assert(seq_views(r@) =~= spec_expand_topic(topic@));
    } else if str_eq(topic, "process") {
        r.push(String::from_str("processes"));
        r.push(String::from_str("process"));
        assert(seq_views(r@) =~= spec_expand_topic(topic@));
    } else {
        r.push(topic.to_owned());
        assert(seq_views(r@) =~= spec_expand_topic(topic@));
    }
    r
}

/// The set of names an expanded subscription covers: every name produced by
/// expanding some lowercased requested topic.
pub open spec fn in_expansion(topics: Seq<Seq<char>>, t: Seq<char>) -> bool {
    exists|i: int|
        0 <= i < topics.len() && #[trigger] spec_expand_topic(lower_seq(topics[i])).contains(t)
}

/// Expand a whole requested topic list into a duplicate-free set of names.
/// Each requested topic is case-folded first; unknown names pass through.
pub fn expand_topic_set(topics: &Vec<String>) -> (r: Vec<String>)
    ensures
        distinct_views(seq_views(r@)),
        forall|t: Seq<char>| seq_views(r@).contains(t) <==> in_expansion(seq_views(topics@), t),
{
    let mut r: Vec<String> = Vec::new();
    let mut i: usize = 0;
    while i < topics.len()
        invariant
            0 <= i <= topics@.len(),
            distinct_views(seq_views(r@)),
            forall|t: Seq<char>| seq_views(r@).contains(t)
                ==> in_expansion(seq_views(topics@), t),
            forall|j: int, t: Seq<char>|
                0 <= j < i && #[trigger] spec_expand_topic(
                    lower_seq(seq_views(topics@)[j]),
                ).contains(t) ==> seq_views(r@).contains(t),
        decreases topics@.len() - i,
    {
        let lowered = to_ascii_lower(topics[i].as_str());
        let expanded = expand_topic(lowered.as_str());
        let ghost expansion = spec_expand_topic(lower_seq(seq_views(topics@)[i as int]));
        assert(seq_views(expanded@) == expansion);
        let mut k: usize = 0;
        while k < expanded.len()
            invariant
                0 <= k <= expanded@.len(),
                seq_views(expanded@) == expansion,
                distinct_views(seq_views(r@)),
                0 <= i < topics@.len(),
                forall|t: Seq<char>| seq_views(r@).contains(t)
                    ==> in_expansion(seq_views(topics@), t)
                    || expansion.contains(t),
                forall|j: int, t: Seq<char>|
                    0 <= j < i && #[trigger] spec_expand_topic(
                        lower_seq(seq_views(topics@)[j]),
                    ).contains(t) ==> seq_views(r@).contains(t),
                forall|m: int| 0 <= m < k ==> seq_views(r@).contains(
                    #[trigger] seq_views(expanded@)[m],
                ),
            decreases expanded@.len() - k,
        {
            if !vec_contains_str(&r, expanded[k].as_str()) {
                let ghost old_r = r@;
                r.push(expanded[k].clone());
                proof {
                    assert(seq_views(r@) =~= seq_views(old_r).push(seq_views(expanded@)[k as int]));
                    assert(expansion.contains(seq_views(expanded@)[k as int]));
                    assert forall|t: Seq<char>| seq_views(old_r).contains(t)
                        implies seq_views(r@).contains(t) by {
                        let m = choose|m: int|
                            0 <= m < seq_views(old_r).len() && seq_views(old_r)[m] == t;
                        assert(seq_views(r@)[m] == t);
                    }
                    assert(seq_views(r@)[seq_views(old_r).len() as int]
                        == seq_views(expanded@)[k as int]);
                    assert(seq_views(r@).contains(seq_views(expanded@)[k as int]));
                    assert forall|t: Seq<char>| seq_views(r@).contains(t)
                        implies in_expansion(seq_views(topics@), t) || expansion.contains(t) by {
                        let m = choose|m: int| 0 <= m < seq_views(r@).len() && seq_views(r@)[m] == t;
                        if m < seq_views(old_r).len() {
                            assert(seq_views(old_r).contains(t));
                        } else {
                            assert(t == seq_views(expanded@)[k as int]);
                        }
                    }
                }
            } else {
                assert(seq_views(r@).contains(seq_views(expanded@)[k as int]));
            }
            k += 1;
        }
        proof {
            assert forall|t: Seq<char>| expansion.contains(t)
                implies seq_views(r@).contains(t) by {
                let m = choose|m: int| 0 <= m < expansion.len() && expansion[m] == t;
                assert(seq_views(r@).contains(seq_views(expanded@)[m]));
            }
            assert forall|t: Seq<char>| seq_views(r@).contains(t)
                implies in_expansion(seq_views(topics@), t) by {
                if expansion.contains(t) {
                    assert(spec_expand_topic(
                        lower_seq(seq_views(topics@)[i as int]),
                    ).contains(t));
                }
            }
        }
        i += 1;
    }
    proof {
        assert forall|t: Seq<char>|
            in_expansion(seq_views(topics@), t) implies seq_views(r@).contains(t) by {
            let j = choose|j: int|
                0 <= j < seq_views(topics@).len() && #[trigger] spec_expand_topic(
                    lower_seq(seq_views(topics@)[j]),
                ).contains(t);
        }
    }
    r
}

} // verus!
