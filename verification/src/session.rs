//! Per-connection subscription state. A session starts with no subscription
//! (never subscribed), replaces its whole set on each subscribe request, and
//! is cleaned up exactly once on disconnect: the set is taken and cleared, so
//! a second cleanup finds nothing and leaves the registry untouched.
//!
//! The conservation lemmas at the end relate a collection of sessions to the
//! registry: every topic's refcount equals the number of live sessions whose
//! subscription holds it, and each session operation preserves that equality.

use vstd::prelude::*;

use crate::engine::Engine;
use crate::registry::TopicRegistry;
use crate::text::{distinct_views, seq_views};
use crate::topics::{expand_topic_set, in_expansion, TopicFamily};

verus! {

/// One wire client's subscription state. `None` means never subscribed or
/// already cleaned up; an empty set means subscribed to nothing.
pub struct Session {
    subs: Option<Vec<String>>,
}

impl Session {
    /// The topics this session holds, as views.
    pub closed spec fn spec_subs(self) -> Option<Seq<Seq<char>>> {
        match self.subs {
            Some(v) => Some(seq_views(v@)),
            None => None,
        }
    }

    /// A stored subscription set is duplicate-free.
    pub closed spec fn wf(self) -> bool {
        match self.subs {
            Some(v) => distinct_views(seq_views(v@)),
            None => true,
        }
    }

    /// A fresh connection: no subscription at all.
    pub fn new() -> (r: Session)
        ensures
            r.wf(),
            r.spec_subs() is None,
    {
        Session { subs: None }
    }

    /// The stored subscription list, when one exists.
    pub fn subscription_list(&self) -> (r: Option<&Vec<String>>)
        ensures
            match r {
                Some(v) => self.spec_subs() == Some(seq_views(v@)),
                None => self.spec_subs() is None,
            },
    {
        match &self.subs {
            Some(v) => Some(v),
            None => None,
        }
    }

    /// Whole-set replacement: expand the requested topics, drop the refcounts
    /// of the previous set, raise those of the new set, and store it. Returns
    /// the families whose loops were stopped and those whose loops were
    /// spawned, in that order of application.
    pub fn apply_subscribe(&mut self, engine: &mut Engine, topics: &Vec<String>) -> (acts: (
        Vec<TopicFamily>,
        Vec<TopicFamily>,
    ))
        requires
            old(self).wf(),
            old(engine).wf(),
            old(engine).loops_match_demand(),
            forall|t: Seq<char>| old(engine).registry.spec_count(t) < usize::MAX,
        ensures
            final(self).wf(),
            final(engine).wf(),
            final(engine).loops_match_demand(),
            final(self).spec_subs() is Some,
            distinct_views(final(self).spec_subs()->Some_0),
            forall|t: Seq<char>| (final(self).spec_subs()->Some_0).contains(t)
                <==> in_expansion(seq_views(topics@), t),
            forall|t: Seq<char>|
                #[trigger] final(engine).registry.spec_count(t) == {
                    let dropped: nat = match old(self).spec_subs() {
                        Some(before) => if before.contains(t) {
                            if old(engine).registry.spec_count(t) > 0 {
                                (old(engine).registry.spec_count(t) - 1) as nat
                            } else {
                                0nat
                            }
                        } else {
                            old(engine).registry.spec_count(t)
                        },
                        None => old(engine).registry.spec_count(t),
                    };
                    dropped + if in_expansion(seq_views(topics@), t) {
                        1nat
                    } else {
                        0nat
                    }
                },
            forall|f: TopicFamily| acts.0@.contains(f) ==> old(engine).loops.spec_running(f),
            forall|f: TopicFamily| acts.1@.contains(f) ==> final(engine).loops.spec_running(f),
    {
        let mut taken: Option<Vec<String>> = None;
        core::mem::swap(&mut taken, &mut self.subs);
        let stops: Vec<TopicFamily> = match &taken {
            Some(old_set) => engine.unsubscribe_topics(old_set),
            None => Vec::new(),
        };
        let ghost mid = *engine;
        let new_set = expand_topic_set(topics);
        let spawns = engine.subscribe_topics(&new_set);
        self.subs = Some(new_set);
        proof {
            assert forall|t: Seq<char>|
                #[trigger] engine.registry.spec_count(t) == {
                    let dropped: nat = match old(self).spec_subs() {
                        Some(before) => if before.contains(t) {
                            if old(engine).registry.spec_count(t) > 0 {
                                (old(engine).registry.spec_count(t) - 1) as nat
                            } else {
                                0nat
                            }
                        } else {
                            old(engine).registry.spec_count(t)
                        },
                        None => old(engine).registry.spec_count(t),
                    };
                    dropped + if in_expansion(seq_views(topics@), t) {
                        1nat
                    } else {
                        0nat
                    }
                } by {
                assert(seq_views(self.subs->Some_0@).contains(t)
                    <==> in_expansion(seq_views(topics@), t));
            }
        }
        (stops, spawns)
    }

    /// Cleanup on disconnect: take and clear the local set and drop its
    /// refcounts. Running it on an already-cleaned session changes nothing,
    /// so a duplicate cleanup is a no-op.
    pub fn cleanup(&mut self, engine: &mut Engine) -> (stops: Vec<TopicFamily>)
        requires
            old(self).wf(),
            old(engine).wf(),
            old(engine).loops_match_demand(),
        ensures
            final(self).wf(),
            final(self).spec_subs() is None,
            final(engine).wf(),
            final(engine).loops_match_demand(),
            old(self).spec_subs() is None ==> *final(engine) == *old(engine)
                && stops@ =~= Seq::<TopicFamily>::empty(),
            forall|t: Seq<char>|
                #[trigger] final(engine).registry.spec_count(t) == match old(self).spec_subs() {
                    Some(before) => if before.contains(t) {
                        if old(engine).registry.spec_count(t) > 0 {
                            (old(engine).registry.spec_count(t) - 1) as nat
                        } else {
                            0nat
                        }
                    } else {
                        old(engine).registry.spec_count(t)
                    },
                    None => old(engine).registry.spec_count(t),
                },
            forall|f: TopicFamily| stops@.contains(f) ==> old(engine).loops.spec_running(f),
    {
        let mut taken: Option<Vec<String>> = None;
        core::mem::swap(&mut taken, &mut self.subs);
        match &taken {
            Some(old_set) => engine.unsubscribe_topics(old_set),
            None => Vec::new(),
        }
    }
}

/// Whether a session's subscription state holds topic `t`.
pub open spec fn covers(s: Option<Seq<Seq<char>>>, t: Seq<char>) -> bool {
    match s {
        Some(v) => v.contains(t),
        None => false,
    }
}

/// How many sessions of `conns` hold topic `t`.
pub open spec fn live_count(conns: Seq<Option<Seq<Seq<char>>>>, t: Seq<char>) -> nat
    decreases conns.len(),
{
    if conns.len() == 0 {
        0
    } else {
        (if covers(conns[0], t) {
            1nat
        } else {
            0nat
        }) + live_count(conns.drop_first(), t)
    }
}

/// Refcount conservation: every topic's refcount equals the number of live
/// sessions whose subscription holds it.
pub open spec fn conserved(conns: Seq<Option<Seq<Seq<char>>>>, reg: TopicRegistry) -> bool {
    forall|t: Seq<char>| #[trigger] reg.spec_count(t) == live_count(conns, t)
}

proof fn lemma_live_count_update(
    conns: Seq<Option<Seq<Seq<char>>>>,
    i: int,
    s: Option<Seq<Seq<char>>>,
    t: Seq<char>,
)
    requires
        0 <= i < conns.len(),
    ensures
        live_count(conns.update(i, s), t) + (if covers(conns[i], t) {
            1nat
        } else {
            0nat
        }) == live_count(conns, t) + (if covers(s, t) {
            1nat
        } else {
            0nat
        }),
    decreases conns.len(),
{
    let u = conns.update(i, s);
    if i == 0 {
        assert(u[0] == s);
        assert(u.drop_first() =~= conns.drop_first());
    } else {
        assert(u[0] == conns[0]);
        assert(u.drop_first() =~= conns.drop_first().update(i - 1, s));
        lemma_live_count_update(conns.drop_first(), i - 1, s, t);
    }
}

proof fn lemma_live_count_at_least(conns: Seq<Option<Seq<Seq<char>>>>, i: int, t: Seq<char>)
    requires
        0 <= i < conns.len(),
        covers(conns[i], t),
    ensures
        live_count(conns, t) >= 1,
    decreases i,
{
    if i > 0 {
        lemma_live_count_at_least(conns.drop_first(), i - 1, t);
    }
}

/// A new connection holds nothing, so appending it conserves every refcount.
pub proof fn lemma_conservation_connect(conns: Seq<Option<Seq<Seq<char>>>>, reg: TopicRegistry)
    requires
        conserved(conns, reg),
    ensures
        conserved(conns.push(None), reg),
{
    assert forall|t: Seq<char>| #[trigger] reg.spec_count(t) == live_count(conns.push(None), t) by {
        lemma_live_count_push(conns, None, t);
    }
}

proof fn lemma_live_count_push(
    conns: Seq<Option<Seq<Seq<char>>>>,
    s: Option<Seq<Seq<char>>>,
    t: Seq<char>,
)
    ensures
        live_count(conns.push(s), t) == live_count(conns, t) + (if covers(s, t) {
            1nat
        } else {
            0nat
        }),
    decreases conns.len(),
{
    let u = conns.push(s);
    assert(u.len() == conns.len() + 1);
    if conns.len() == 0 {
        assert(u[0] == s);
        assert(u.drop_first() =~= Seq::<Option<Seq<Seq<char>>>>::empty());
        assert(live_count(u.drop_first(), t) == 0);
        assert(live_count(u, t) == (if covers(s, t) { 1nat } else { 0nat })
            + live_count(u.drop_first(), t));
    } else {
        assert(u[0] == conns[0]);
        assert(u.drop_first() =~= conns.drop_first().push(s));
        lemma_live_count_push(conns.drop_first(), s, t);
        assert(live_count(u, t) == (if covers(conns[0], t) { 1nat } else { 0nat })
            + live_count(u.drop_first(), t));
        assert(live_count(conns, t) == (if covers(conns[0], t) { 1nat } else { 0nat })
            + live_count(conns.drop_first(), t));
    }
}

/// Refcount conservation across one session's subscription change: dropping
/// the session's previous set and holding a new one (or none, on cleanup)
/// moves the registry exactly as the live-session count moves.
///
/// The count hypothesis is the exact contract of `apply_subscribe` and
/// `cleanup`: topics of the previous set lose one (never clamped here, since
/// conservation puts their count at one or more), topics of the new state
/// gain one.
pub proof fn lemma_conservation_replace(
    conns: Seq<Option<Seq<Seq<char>>>>,
    i: int,
    next: Option<Seq<Seq<char>>>,
    reg0: TopicRegistry,
    reg1: TopicRegistry,
)
    requires
        0 <= i < conns.len(),
        conserved(conns, reg0),
        forall|t: Seq<char>|
            #[trigger] reg1.spec_count(t) == {
                let dropped: nat = if covers(conns[i], t) {
                    if reg0.spec_count(t) > 0 {
                        (reg0.spec_count(t) - 1) as nat
                    } else {
                        0nat
                    }
                } else {
                    reg0.spec_count(t)
                };
                dropped + if covers(next, t) {
                    1nat
                } else {
                    0nat
                }
            },
    ensures
        conserved(conns.update(i, next), reg1),
{
    assert forall|t: Seq<char>|
        #[trigger] reg1.spec_count(t) == live_count(conns.update(i, next), t) by {
        lemma_live_count_update(conns, i, next, t);
        if covers(conns[i], t) {
            lemma_live_count_at_least(conns, i, t);
            assert(reg0.spec_count(t) >= 1);
        }
    }
}

} // verus!
