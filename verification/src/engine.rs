//! The loop manager and the demand engine. The manager owns at most one worker
//! handle per topic family, started on a topic's first subscriber and stopped
//! when the family's last subscriber leaves. The engine couples the manager to
//! the topic registry and maintains the liveness invariant: a family's loop is
//! running exactly when some topic of the family has a positive refcount.

use vstd::prelude::*;

use crate::registry::TopicRegistry;
use crate::text::{distinct_views, seq_views};
use crate::topics::{
    family_of, is_media_family_topic, is_processes_family_topic, is_stats_family_topic,
    spec_family_of, TopicFamily,
};

verus! {

/// Whether `t` belongs to family `f`.
pub open spec fn in_family(f: TopicFamily, t: Seq<char>) -> bool {
    match f {
        TopicFamily::Stats => is_stats_family_topic(t),
        TopicFamily::Media => is_media_family_topic(t),
        TopicFamily::Processes => is_processes_family_topic(t),
    }
}

/// Whether some topic of family `f` has a positive refcount.
pub open spec fn family_demand(reg: TopicRegistry, f: TopicFamily) -> bool {
    exists|t: Seq<char>| in_family(f, t) && reg.spec_count(t) > 0
}

/// Check a family's demand against the registry.
pub fn has_family_demand(reg: &TopicRegistry, f: TopicFamily) -> (r: bool)
    requires
        reg.wf(),
    ensures
        r == family_demand(*reg, f),
{
    match f {
        TopicFamily::Stats => {
            let r = reg.get_count("stats") > 0 || reg.get_count("stats.cpu") > 0
                || reg.get_count("stats.memory") > 0 || reg.get_count("stats.gpu") > 0
                || reg.get_count("stats.disks") > 0 || reg.get_count("stats.network") > 0
                || reg.get_count("cpu") > 0 || reg.get_count("memory") > 0
                || reg.get_count("gpu") > 0 || reg.get_count("disks") > 0
                || reg.get_count("network") > 0 || reg.get_count("system") > 0;
            proof {
                if r {
                    if reg.spec_count("stats"@) > 0 {
                        assert(in_family(f, "stats"@));
                    } else if reg.spec_count("stats.cpu"@) > 0 {
                        assert(in_family(f, "stats.cpu"@));
                    } else if reg.spec_count("stats.memory"@) > 0 {
                        assert(in_family(f, "stats.memory"@));
                    } else if reg.spec_count("stats.gpu"@) > 0 {
                        assert(in_family(f, "stats.gpu"@));
                    } else if reg.spec_count("stats.disks"@) > 0 {
                        assert(in_family(f, "stats.disks"@));
                    } else if reg.spec_count("stats.network"@) > 0 {
                        assert(in_family(f, "stats.network"@));
                    } else if reg.spec_count("cpu"@) > 0 {
                        assert(in_family(f, "cpu"@));
                    } else if reg.spec_count("memory"@) > 0 {
                        assert(in_family(f, "memory"@));
                    } else if reg.spec_count("gpu"@) > 0 {
                        assert(in_family(f, "gpu"@));
                    } else if reg.spec_count("disks"@) > 0 {
                        assert(in_family(f, "disks"@));
                    } else if reg.spec_count("network"@) > 0 {
                        assert(in_family(f, "network"@));
                    } else {
                        assert(in_family(f, "system"@));
                    }
                    assert(family_demand(*reg, f));
                } else {
                    assert forall|t: Seq<char>| in_family(f, t)
                        implies reg.spec_count(t) == 0 by {}
                }
            }
            r
        },
        TopicFamily::Media => {
            let r = reg.get_count("media") > 0 || reg.get_count("stats.media") > 0;
            proof {
                if r {
                    if reg.spec_count("media"@) > 0 {
                        assert(in_family(f, "media"@));
                    } else {
                        assert(in_family(f, "stats.media"@));
                    }
                    assert(family_demand(*reg, f));
                } else {
                    assert forall|t: Seq<char>| in_family(f, t)
                        implies reg.spec_count(t) == 0 by {}
                }
            }
            r
        },
        TopicFamily::Processes => {
            let r = reg.get_count("processes") > 0 || reg.get_count("process") > 0;
            proof {
                if r {
                    if reg.spec_count("processes"@) > 0 {
                        assert(in_family(f, "processes"@));
                    } else {
                        assert(in_family(f, "process"@));
                    }
                    assert(family_demand(*reg, f));
                } else {
                    assert forall|t: Seq<char>| in_family(f, t)
                        implies reg.spec_count(t) == 0 by {}
                }
            }
            r
        },
    }
}

/// The per-family worker handles, modeled by whether each loop is running.
pub struct LoopManager {
    stats_running: bool,
    media_running: bool,
    processes_running: bool,
}

impl LoopManager {
    /// Whether the family's worker loop is running.
    pub closed spec fn spec_running(self, f: TopicFamily) -> bool {
        match f {
            TopicFamily::Stats => self.stats_running,
            TopicFamily::Media => self.media_running,
            TopicFamily::Processes => self.processes_running,
        }
    }

    /// A manager with no loop running.
    pub fn new() -> (r: LoopManager)
        ensures
            forall|f: TopicFamily| !r.spec_running(f),
    {
        LoopManager { stats_running: false, media_running: false, processes_running: false }
    }

    /// Called when a topic's subscriber count moves from zero to one: if the
    /// topic is recognized and its family's loop is not running, mark it
    /// running and report the family so the caller can spawn the worker.
    pub fn ensure_loop_running(&mut self, topic: &str) -> (spawn: Option<TopicFamily>)
        ensures
            match spec_family_of(topic@) {
                None => (forall|g: TopicFamily|
                    final(self).spec_running(g) == old(self).spec_running(g)) && spawn is None,
                Some(f) => {
                    &&& final(self).spec_running(f)
                    &&& forall|g: TopicFamily|
                        g != f ==> final(self).spec_running(g) == old(self).spec_running(g)
                    &&& spawn == if old(self).spec_running(f) {
                        None::<TopicFamily>
                    } else {
                        Some(f)
                    }
                },
            },
    {
        match family_of(topic) {
            None => {
                None
            },
            Some(TopicFamily::Stats) => {
                let was = self.stats_running;
                self.stats_running = true;
                if was {
                    None
                } else {
                    Some(TopicFamily::Stats)
                }
            },
            Some(TopicFamily::Media) => {
                let was = self.media_running;
                self.media_running = true;
                if was {
                    None
                } else {
                    Some(TopicFamily::Media)
                }
            },
            Some(TopicFamily::Processes) => {
                let was = self.processes_running;
                self.processes_running = true;
                if was {
                    None
                } else {
                    Some(TopicFamily::Processes)
                }
            },
        }
    }

    /// Called when a topic's subscriber count moves from one to zero: if no
    /// topic of the family still has demand, take the handle down and report
    /// the family so the caller can abort the worker.
    pub fn stop_loop_if_idle(&mut self, topic: &str, reg: &TopicRegistry) -> (stop: Option<
        TopicFamily,
    >)
        requires
            reg.wf(),
        ensures
            match spec_family_of(topic@) {
                None => (forall|g: TopicFamily|
                    final(self).spec_running(g) == old(self).spec_running(g)) && stop is None,
                Some(f) => {
                    if family_demand(*reg, f) {
                        (forall|g: TopicFamily|
                            final(self).spec_running(g) == old(self).spec_running(g))
                            && stop is None
                    } else {
                        &&& !final(self).spec_running(f)
                        &&& forall|g: TopicFamily|
                            g != f ==> final(self).spec_running(g) == old(self).spec_running(g)
                        &&& stop == if old(self).spec_running(f) {
                            Some(f)
                        } else {
                            None::<TopicFamily>
                        }
                    }
                },
            },
    {
        match family_of(topic) {
            None => {
                None
            },
            Some(f) => {
                if has_family_demand(reg, f) {
                    return None;
                }
                match f {
                    TopicFamily::Stats => {
                        let was = self.stats_running;
                        self.stats_running = false;
                        if was {
                            Some(TopicFamily::Stats)
                        } else {
                            None
                        }
                    },
                    TopicFamily::Media => {
                        let was = self.media_running;
                        self.media_running = false;
                        if was {
                            Some(TopicFamily::Media)
                        } else {
                            None
                        }
                    },
                    TopicFamily::Processes => {
                        let was = self.processes_running;
                        self.processes_running = false;
                        if was {
                            Some(TopicFamily::Processes)
                        } else {
                            None
                        }
                    },
                }
            },
        }
    }
}

/// Two character sequences differing at one index are distinct.
proof fn seqs_differ_at(a: Seq<char>, b: Seq<char>, i: int)
    requires
        0 <= i < a.len(),
        0 <= i < b.len(),
        a[i] != b[i],
    ensures
        a != b,
{
    if a == b {
        assert(a[i] == b[i]);
    }
}

/// The three family topic sets are disjoint, so a topic's family is the one
/// that `spec_family_of` names.
pub proof fn lemma_family_of_in_family()
    ensures
        forall|t: Seq<char>, g: TopicFamily|
            #[trigger] in_family(g, t) <==> spec_family_of(t) == Some(g),
{
    reveal_strlit("stats");
    reveal_strlit("stats.cpu");
    reveal_strlit("stats.memory");
    reveal_strlit("stats.gpu");
    reveal_strlit("stats.disks");
    reveal_strlit("stats.network");
    reveal_strlit("cpu");
    reveal_strlit("memory");
    reveal_strlit("gpu");
    reveal_strlit("disks");
    reveal_strlit("network");
    reveal_strlit("system");
    reveal_strlit("media");
    reveal_strlit("stats.media");
    reveal_strlit("processes");
    reveal_strlit("process");
    assert(!is_stats_family_topic("media"@)) by {
        seqs_differ_at("media"@, "stats"@, 0);
        seqs_differ_at("media"@, "stats.cpu"@, 0);
        seqs_differ_at("media"@, "stats.memory"@, 0);
        seqs_differ_at("media"@, "stats.gpu"@, 0);
        seqs_differ_at("media"@, "stats.disks"@, 0);
        seqs_differ_at("media"@, "stats.network"@, 0);
        seqs_differ_at("media"@, "cpu"@, 0);
        seqs_differ_at("media"@, "memory"@, 2);
        seqs_differ_at("media"@, "gpu"@, 0);
        seqs_differ_at("media"@, "disks"@, 0);
        seqs_differ_at("media"@, "network"@, 0);
        seqs_differ_at("media"@, "system"@, 0);
    }
    assert(!is_stats_family_topic("stats.media"@)) by {
        seqs_differ_at("stats.media"@, "stats.disks"@, 6);
    }
    assert(!is_stats_family_topic("processes"@)) by {
        seqs_differ_at("processes"@, "stats.cpu"@, 0);
        seqs_differ_at("processes"@, "stats.gpu"@, 0);
    }
    assert(!is_stats_family_topic("process"@)) by {
        seqs_differ_at("process"@, "network"@, 0);
    }
    assert(!is_media_family_topic("processes"@)) by {
        seqs_differ_at("processes"@, "media"@, 0);
        seqs_differ_at("processes"@, "stats.media"@, 0);
    }
    assert(!is_media_family_topic("process"@)) by {
        seqs_differ_at("process"@, "media"@, 0);
        seqs_differ_at("process"@, "stats.media"@, 0);
    }
    assert forall|t: Seq<char>, g: TopicFamily|
        #[trigger] in_family(g, t) <==> spec_family_of(t) == Some(g) by {
        match g {
            TopicFamily::Stats => {},
            TopicFamily::Media => {
                if in_family(g, t) {
                    assert(!is_stats_family_topic(t));
                }
            },
            TopicFamily::Processes => {
                if in_family(g, t) {
                    assert(!is_stats_family_topic(t));
                    assert(!is_media_family_topic(t));
                }
            },
        }
    }
}

/// Everything a filtered sequence holds came from the source and satisfies the
/// predicate.
proof fn lemma_filter_elems(s: Seq<Seq<char>>, pred: spec_fn(Seq<char>) -> bool)
    ensures
        forall|t: Seq<char>| #[trigger] s.filter(pred).contains(t) ==> s.contains(t) && pred(t),
    decreases s.len(),
{
    reveal(Seq::filter);
    if s.len() > 0 {
        lemma_filter_elems(s.drop_last(), pred);
        assert forall|t: Seq<char>| #[trigger] s.filter(pred).contains(t)
            implies s.contains(t) && pred(t) by {
            let f = s.filter(pred);
            let i = choose|i: int| 0 <= i < f.len() && f[i] == t;
            let sub = s.drop_last().filter(pred);
            if pred(s.last()) && i == f.len() - 1 {
                assert(t == s.last());
                assert(s.contains(t)) by {
                    assert(s[s.len() - 1] == t);
                }
            } else {
                assert(sub.contains(t)) by {
                    assert(sub[i] == t);
                }
                assert(s.drop_last().contains(t));
                let j = choose|j: int| 0 <= j < s.drop_last().len() && s.drop_last()[j] == t;
                assert(s[j] == t);
            }
        }
    }
}

/// The registry and the loop manager, threaded together: the single context
/// value every session works against.
pub struct Engine {
    pub registry: TopicRegistry,
    pub loops: LoopManager,
}

impl Engine {
    pub open spec fn wf(self) -> bool {
        self.registry.wf()
    }

    /// Loop liveness: a family's worker loop is running exactly when some
    /// topic of the family has a positive refcount.
    pub open spec fn loops_match_demand(self) -> bool {
        forall|f: TopicFamily|
            #[trigger] self.loops.spec_running(f) == family_demand(self.registry, f)
    }

    /// A fresh engine: no demand, no loop running.
    pub fn new() -> (r: Engine)
        ensures
            r.wf(),
            r.loops_match_demand(),
            forall|t: Seq<char>| r.registry.spec_count(t) == 0,
            forall|f: TopicFamily| !r.loops.spec_running(f),
    {
        let r = Engine { registry: TopicRegistry::new(), loops: LoopManager::new() };
        proof {
            assert forall|f: TopicFamily|
                #[trigger] r.loops.spec_running(f) == family_demand(r.registry, f) by {
                assert(!family_demand(r.registry, f));
            }
        }
        r
    }

    /// Raise the refcount of every listed topic, spawn the loops of families
    /// whose demand appeared, and report those families.
    pub fn subscribe_topics(&mut self, topics: &Vec<String>) -> (spawn: Vec<TopicFamily>)
        requires
            old(self).wf(),
            old(self).loops_match_demand(),
            distinct_views(seq_views(topics@)),
            forall|t: Seq<char>| seq_views(topics@).contains(t)
                ==> old(self).registry.spec_count(t) < usize::MAX,
        ensures
            final(self).wf(),
            final(self).loops_match_demand(),
            forall|t: Seq<char>| seq_views(topics@).contains(t)
                ==> final(self).registry.spec_count(t) == old(self).registry.spec_count(t) + 1,
            forall|t: Seq<char>| !seq_views(topics@).contains(t)
                ==> final(self).registry.spec_count(t) == old(self).registry.spec_count(t),
            forall|f: TopicFamily| #[trigger] spawn@.contains(f)
                <==> final(self).loops.spec_running(f) && !old(self).loops.spec_running(f),
    {
        let ghost orig = old(self).registry;
        let ghost old_loops = old(self).loops;
        let ghost pred = |t: Seq<char>| orig.spec_count(t) == 0;
        let started = self.registry.subscribe_topics(topics);
        let ghost reg1 = self.registry;
        let ghost sviews = seq_views(started@);
        proof {
            lemma_family_of_in_family();
            lemma_filter_elems(seq_views(topics@), pred);
            // demand after the increments: old demand, or a started topic's family
            assert forall|g: TopicFamily| #[trigger] family_demand(reg1, g)
                <==> family_demand(orig, g) || (exists|j: int|
                    0 <= j < sviews.len() && in_family(g, #[trigger] sviews[j])) by {
                if family_demand(reg1, g) {
                    let t = choose|t: Seq<char>|
                        in_family(g, t) && reg1.spec_count(t) > 0;
                    if seq_views(topics@).contains(t) {
                        if orig.spec_count(t) > 0 {
                            assert(family_demand(orig, g));
                        } else {
                            assert(pred(t));
                            let i = choose|i: int|
                                0 <= i < seq_views(topics@).len() && seq_views(topics@)[i] == t;
                            seq_views(topics@).lemma_filter_contains(pred, i);
                            assert(sviews.contains(t));
                            let j = choose|j: int| 0 <= j < sviews.len() && sviews[j] == t;
                        }
                    } else {
                        assert(orig.spec_count(t) > 0);
                        assert(family_demand(orig, g));
                    }
                }
                if family_demand(orig, g) {
                    let t = choose|t: Seq<char>| in_family(g, t) && orig.spec_count(t) > 0;
                    assert(reg1.spec_count(t) > 0);
                    assert(family_demand(reg1, g));
                }
                if exists|j: int| 0 <= j < sviews.len() && in_family(g, #[trigger] sviews[j]) {
                    let j = choose|j: int| 0 <= j < sviews.len() && in_family(g, sviews[j]);
                    let t = sviews[j];
                    assert(sviews.contains(t));
                    assert(seq_views(topics@).contains(t) && pred(t));
                    assert(reg1.spec_count(t) > 0);
                    assert(family_demand(reg1, g));
                }
            }
        }
        let mut spawn: Vec<TopicFamily> = Vec::new();
        let mut i: usize = 0;
        while i < started.len()
            invariant
                self.registry == reg1,
                self.registry.wf(),
                sviews == seq_views(started@),
                forall|t: Seq<char>, g: TopicFamily|
                    #[trigger] in_family(g, t) <==> spec_family_of(t) == Some(g),
                0 <= i <= started@.len(),
                forall|g: TopicFamily| #[trigger] self.loops.spec_running(g)
                    <==> old_loops.spec_running(g) || (exists|j: int|
                        0 <= j < i && in_family(g, #[trigger] sviews[j])),
                forall|g: TopicFamily| #[trigger] spawn@.contains(g)
                    <==> self.loops.spec_running(g) && !old_loops.spec_running(g),
            decreases started@.len() - i,
        {
            let ghost tv = sviews[i as int];
            let ghost pre_loops = self.loops;
            let ghost pre_spawn = spawn@;
            let r = self.loops.ensure_loop_running(started[i].as_str());
            match r {
                Some(f) => {
                    spawn.push(f);
                    proof {
                        assert(spec_family_of(tv) == Some(f));
                        assert(in_family(f, tv));
                        assert forall|g: TopicFamily| #[trigger] spawn@.contains(g)
                            <==> self.loops.spec_running(g) && !old_loops.spec_running(g) by {
                            assert(spawn@ == pre_spawn.push(f));
                            if spawn@.contains(g) {
                                let k = choose|k: int|
                                    0 <= k < spawn@.len() && spawn@[k] == g;
                                if k < pre_spawn.len() {
                                    assert(pre_spawn.contains(g));
                                }
                            }
                            if self.loops.spec_running(g) && !old_loops.spec_running(g) {
                                if g != f {
                                    assert(pre_spawn.contains(g));
                                    let k = choose|k: int|
                                        0 <= k < pre_spawn.len() && pre_spawn[k] == g;
                                    assert(spawn@[k] == g);
                                } else {
                                    assert(spawn@[pre_spawn.len() as int] == g);
                                }
                            }
                        }
                    }
                },
                None => {
                    proof {
                        match spec_family_of(tv) {
                            Some(f) => {
                                assert(pre_loops.spec_running(f));
                                assert(in_family(f, tv));
                            },
                            None => {},
                        }
                    }
                },
            }
            proof {
                assert forall|g: TopicFamily| #[trigger] self.loops.spec_running(g)
                    <==> old_loops.spec_running(g) || (exists|j: int|
                        0 <= j < i + 1 && in_family(g, #[trigger] sviews[j])) by {
                    if self.loops.spec_running(g) {
                        if pre_loops.spec_running(g) {
                            if !old_loops.spec_running(g) {
                                let j = choose|j: int| 0 <= j < i && in_family(g, sviews[j]);
                                assert(in_family(g, sviews[j]));
                            }
                        } else {
                            assert(spec_family_of(tv) == Some(g));
                            assert(in_family(g, sviews[i as int]));
                        }
                    }
                    if exists|j: int| 0 <= j < i + 1 && in_family(g, #[trigger] sviews[j]) {
                        let j = choose|j: int| 0 <= j < i + 1 && in_family(g, sviews[j]);
                        if j < i {
                            assert(pre_loops.spec_running(g));
                        } else {
                            assert(spec_family_of(tv) == Some(g));
                        }
                    }
                }
            }
            i += 1;
        }
        proof {
            assert forall|g: TopicFamily|
                #[trigger] self.loops.spec_running(g) == family_demand(self.registry, g) by {
                assert(old_loops.spec_running(g) == family_demand(orig, g));
                assert(family_demand(reg1, g)
                    <==> family_demand(orig, g) || (exists|j: int|
                        0 <= j < sviews.len() && in_family(g, #[trigger] sviews[j])));
            }
        }
        spawn
    }

    /// Lower the refcount of every listed topic, stop the loops of families
    /// whose demand vanished, and report those families.
    pub fn unsubscribe_topics(&mut self, topics: &Vec<String>) -> (stops: Vec<TopicFamily>)
        requires
            old(self).wf(),
            old(self).loops_match_demand(),
            distinct_views(seq_views(topics@)),
        ensures
            final(self).wf(),
            final(self).loops_match_demand(),
            forall|t: Seq<char>| seq_views(topics@).contains(t)
                ==> final(self).registry.spec_count(t) == if old(self).registry.spec_count(t) > 0 {
                    (old(self).registry.spec_count(t) - 1) as nat
                } else {
                    0nat
                },
            forall|t: Seq<char>| !seq_views(topics@).contains(t)
                ==> final(self).registry.spec_count(t) == old(self).registry.spec_count(t),
            forall|f: TopicFamily| #[trigger] stops@.contains(f)
                <==> old(self).loops.spec_running(f) && !final(self).loops.spec_running(f),
    {
        let ghost orig = old(self).registry;
        let ghost old_loops = old(self).loops;
        let ghost pred = |t: Seq<char>| orig.spec_count(t) == 1;
        let stopped = self.registry.unsubscribe_topics(topics);
        let ghost reg1 = self.registry;
        let ghost sviews = seq_views(stopped@);
        proof {
            lemma_family_of_in_family();
            lemma_filter_elems(seq_views(topics@), pred);
            // a family whose demand vanished had a one-to-zero topic
            assert forall|g: TopicFamily|
                family_demand(orig, g) && !family_demand(reg1, g)
                implies exists|j: int|
                    0 <= j < sviews.len() && in_family(g, #[trigger] sviews[j]) by {
                let t = choose|t: Seq<char>| in_family(g, t) && orig.spec_count(t) > 0;
                assert(reg1.spec_count(t) == 0);
                assert(seq_views(topics@).contains(t)) by {
                    if !seq_views(topics@).contains(t) {
                        assert(reg1.spec_count(t) == orig.spec_count(t));
                    }
                }
                assert(orig.spec_count(t) == 1);
                assert(pred(t));
                let i = choose|i: int|
                    0 <= i < seq_views(topics@).len() && seq_views(topics@)[i] == t;
                seq_views(topics@).lemma_filter_contains(pred, i);
                assert(sviews.contains(t));
                let j = choose|j: int| 0 <= j < sviews.len() && sviews[j] == t;
                assert(in_family(g, sviews[j]));
            }
            // demand never appears on an unsubscribe
            assert forall|g: TopicFamily|
                family_demand(reg1, g) implies family_demand(orig, g) by {
                let t = choose|t: Seq<char>|
                    in_family(g, t) && reg1.spec_count(t) > 0;
                assert(orig.spec_count(t) > 0);
            }
        }
        let mut stops: Vec<TopicFamily> = Vec::new();
        let mut i: usize = 0;
        while i < stopped.len()
            invariant
                self.registry == reg1,
                self.registry.wf(),
                sviews == seq_views(stopped@),
                forall|t: Seq<char>, g: TopicFamily|
                    #[trigger] in_family(g, t) <==> spec_family_of(t) == Some(g),
                0 <= i <= stopped@.len(),
                forall|g: TopicFamily| #[trigger] self.loops.spec_running(g)
                    <==> if family_demand(self.registry, g) {
                        old_loops.spec_running(g)
                    } else {
                        old_loops.spec_running(g) && !(exists|j: int|
                            0 <= j < i && in_family(g, #[trigger] sviews[j]))
                    },
                forall|g: TopicFamily| #[trigger] stops@.contains(g)
                    <==> old_loops.spec_running(g) && !self.loops.spec_running(g),
            decreases stopped@.len() - i,
        {
            let ghost tv = sviews[i as int];
            let ghost pre_loops = self.loops;
            let ghost pre_stops = stops@;
            let r = self.loops.stop_loop_if_idle(stopped[i].as_str(), &self.registry);
            match r {
                Some(f) => {
                    stops.push(f);
                    proof {
                        assert(spec_family_of(tv) == Some(f));
                        assert(in_family(f, tv));
                        assert(!family_demand(self.registry, f));
                        assert forall|g: TopicFamily| #[trigger] stops@.contains(g)
                            <==> old_loops.spec_running(g) && !self.loops.spec_running(g) by {
                            assert(stops@ == pre_stops.push(f));
                            if stops@.contains(g) {
                                let k = choose|k: int|
                                    0 <= k < stops@.len() && stops@[k] == g;
                                if k < pre_stops.len() {
                                    assert(pre_stops.contains(g));
                                }
                            }
                            if old_loops.spec_running(g) && !self.loops.spec_running(g) {
                                if g != f {
                                    assert(pre_stops.contains(g));
                                    let k = choose|k: int|
                                        0 <= k < pre_stops.len() && pre_stops[k] == g;
                                    assert(stops@[k] == g);
                                } else {
                                    assert(stops@[pre_stops.len() as int] == g);
                                }
                            }
                        }
                    }
                },
                None => {},
            }
            proof {
                assert forall|g: TopicFamily| #[trigger] self.loops.spec_running(g)
                    <==> if family_demand(self.registry, g) {
                        old_loops.spec_running(g)
                    } else {
                        old_loops.spec_running(g) && !(exists|j: int|
                            0 <= j < i + 1 && in_family(g, #[trigger] sviews[j]))
                    } by {
                    match spec_family_of(tv) {
                        Some(f) => {
                            if g == f {
                                assert(in_family(g, sviews[i as int]));
                            } else {
                                assert(self.loops.spec_running(g) == pre_loops.spec_running(g));
                                if exists|j: int| 0 <= j < i + 1 && in_family(g, sviews[j]) {
                                    let j = choose|j: int|
                                        0 <= j < i + 1 && in_family(g, sviews[j]);
                                    if j == i {
                                        assert(spec_family_of(tv) == Some(g));
                                        assert(false);
                                    }
                                }
                            }
                        },
                        None => {
                            assert(self.loops.spec_running(g) == pre_loops.spec_running(g));
                            if exists|j: int| 0 <= j < i + 1 && in_family(g, sviews[j]) {
                                let j = choose|j: int| 0 <= j < i + 1 && in_family(g, sviews[j]);
                                if j == i {
                                    assert(spec_family_of(tv) == Some(g));
                                    assert(false);
                                }
                            }
                        },
                    }
                }
            }
            i += 1;
        }
        proof {
            assert forall|g: TopicFamily|
                #[trigger] self.loops.spec_running(g) == family_demand(self.registry, g) by {
                assert(old_loops.spec_running(g) == family_demand(orig, g));
                if !family_demand(reg1, g) && old_loops.spec_running(g) {
                    assert(family_demand(orig, g));
                    assert(exists|j: int|
                        0 <= j < sviews.len() && in_family(g, #[trigger] sviews[j]));
                }
                if family_demand(reg1, g) {
                    assert(family_demand(orig, g));
                }
            }
        }
        stops
    }
}

} // verus!
