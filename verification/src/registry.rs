//! The topic registry: a global mapping from topic name to a non-negative
//! subscriber refcount. Subscribing increments, unsubscribing decrements with a
//! clamp at zero, and both report the names whose count crossed between zero
//! and one so the loop manager can act outside the registry.

use vstd::prelude::*;

use crate::text::{distinct_views, seq_views, str_eq};

verus! {

/// Refcount of topic `t` in an association list, zero when absent.
pub open spec fn count_in(s: Seq<(String, usize)>, t: Seq<char>) -> nat
    decreases s.len(),
{
    if s.len() == 0 {
        0
    } else if s[0].0@ == t {
        s[0].1 as nat
    } else {
        count_in(s.drop_first(), t)
    }
}

/// Whether some entry of `s` carries topic `t`.
pub open spec fn has_key(s: Seq<(String, usize)>, t: Seq<char>) -> bool {
    exists|i: int| 0 <= i < s.len() && s[i].0@ == t
}

proof fn lemma_count_at(s: Seq<(String, usize)>, i: int)
    requires
        0 <= i < s.len(),
        forall|j: int| 0 <= j < i ==> s[j].0@ != s[i].0@,
    ensures
        count_in(s, s[i].0@) == s[i].1,
    decreases i,
{
    if i > 0 {
        assert(forall|j: int| 0 <= j < s.drop_first().len() ==> s.drop_first()[j] == s[j + 1]);
        lemma_count_at(s.drop_first(), i - 1);
    }
}

proof fn lemma_count_absent(s: Seq<(String, usize)>, t: Seq<char>)
    requires
        !has_key(s, t),
    ensures
        count_in(s, t) == 0,
    decreases s.len(),
{
    if s.len() > 0 {
        assert(s[0].0@ != t);
        assert(!has_key(s.drop_first(), t)) by {
            if has_key(s.drop_first(), t) {
                let i = choose|i: int| 0 <= i < s.drop_first().len() && s.drop_first()[i].0@ == t;
                assert(s[i + 1].0@ == t);
            }
        }
        lemma_count_absent(s.drop_first(), t);
    }
}

proof fn lemma_count_update(s: Seq<(String, usize)>, j: int, v: (String, usize), t: Seq<char>)
    requires
        0 <= j < s.len(),
        v.0@ == s[j].0@,
        forall|i: int| 0 <= i < j ==> s[i].0@ != s[j].0@,
    ensures
        count_in(s.update(j, v), t) == if t == s[j].0@ {
            v.1 as nat
        } else {
            count_in(s, t)
        },
    decreases j,
{
    let u = s.update(j, v);
    if j == 0 {
        assert(u[0] == v);
        assert(u.drop_first() =~= s.drop_first());
    } else {
        assert(u[0] == s[0]);
        assert(u.drop_first() =~= s.drop_first().update(j - 1, v));
        assert(forall|i: int| 0 <= i < s.drop_first().len() ==> s.drop_first()[i] == s[i + 1]);
        lemma_count_update(s.drop_first(), j - 1, v, t);
        assert(s[0].0@ != s[j].0@);
    }
}

proof fn lemma_count_push(s: Seq<(String, usize)>, v: (String, usize), t: Seq<char>)
    requires
        !has_key(s, v.0@),
    ensures
        count_in(s.push(v), t) == if t == v.0@ {
            v.1 as nat
        } else {
            count_in(s, t)
        },
    decreases s.len(),
{
    let u = s.push(v);
    if s.len() == 0 {
        assert(u[0] == v);
        assert(u.drop_first() =~= Seq::<(String, usize)>::empty());
        if t != v.0@ {
            assert(count_in(u, t) == count_in(u.drop_first(), t));
        }
    } else {
        assert(u[0] == s[0]);
        assert(u.drop_first() =~= s.drop_first().push(v));
        assert(!has_key(s.drop_first(), v.0@)) by {
            if has_key(s.drop_first(), v.0@) {
                let i = choose|i: int|
                    0 <= i < s.drop_first().len() && s.drop_first()[i].0@ == v.0@;
                assert(s[i + 1].0@ == v.0@);
            }
        }
        assert(s[0].0@ != v.0@) by {
            assert(s[0] == s[0]);
        }
        lemma_count_push(s.drop_first(), v, t);
    }
}

/// One filtering step: extending the scanned prefix by one element.
pub proof fn lemma_filter_take_step(s: Seq<Seq<char>>, pred: spec_fn(Seq<char>) -> bool, i: int)
    requires
        0 <= i < s.len(),
    ensures
        s.take(i + 1).filter(pred) == if pred(s[i]) {
            s.take(i).filter(pred).push(s[i])
        } else {
            s.take(i).filter(pred)
        },
{
    reveal(Seq::filter);
    assert(s.take(i + 1).drop_last() =~= s.take(i));
    assert(s.take(i + 1).last() == s[i]);
}

/// The global `topic -> refcount` map. Only entries with a positive count
/// represent demand; an entry may rest at zero after an unsubscribe.
pub struct TopicRegistry {
    entries: Vec<(String, usize)>,
}

impl TopicRegistry {
    /// Keys are pairwise distinct.
    pub closed spec fn wf(self) -> bool {
        forall|i: int, j: int|
            0 <= i < j < self.entries@.len() ==> self.entries@[i].0@ != self.entries@[j].0@
    }

    /// Refcount of topic `t`, zero when never subscribed.
    pub closed spec fn spec_count(self, t: Seq<char>) -> nat {
        count_in(self.entries@, t)
    }

    /// An empty registry: every count is zero.
    pub fn new() -> (r: TopicRegistry)
        ensures
            r.wf(),
            forall|t: Seq<char>| r.spec_count(t) == 0,
    {
        let r = TopicRegistry { entries: Vec::new() };
        proof {
            assert forall|t: Seq<char>| r.spec_count(t) == 0 by {
                assert(r.entries@.len() == 0);
            }
        }
        r
    }

    /// Index of the entry that carries `t`, if one exists.
    fn find_entry(&self, topic: &str) -> (r: Option<usize>)
        requires
            self.wf(),
        ensures
            match r {
                Some(i) => i < self.entries@.len() && self.entries@[i as int].0@ == topic@
                    && self.spec_count(topic@) == self.entries@[i as int].1,
                None => !has_key(self.entries@, topic@) && self.spec_count(topic@) == 0,
            },
    {
        let mut i: usize = 0;
        while i < self.entries.len()
            invariant
                self.wf(),
                0 <= i <= self.entries@.len(),
                forall|j: int| 0 <= j < i ==> self.entries@[j].0@ != topic@,
            decreases self.entries@.len() - i,
        {
            if str_eq(self.entries[i].0.as_str(), topic) {
                proof {
                    lemma_count_at(self.entries@, i as int);
                }
                return Some(i);
            }
            i += 1;
        }
        proof {
            assert(!has_key(self.entries@, topic@));
            lemma_count_absent(self.entries@, topic@);
        }
        None
    }

    /// Current refcount of a topic.
    pub fn get_count(&self, topic: &str) -> (r: usize)
        requires
            self.wf(),
        ensures
            r == self.spec_count(topic@),
    {
        match self.find_entry(topic) {
            Some(i) => self.entries[i].1,
            None => 0,
        }
    }

    /// Increment the refcount of every listed topic by one and report, in
    /// order, the topics whose count moved from zero to one.
    pub fn subscribe_topics(&mut self, topics: &Vec<String>) -> (started: Vec<String>)
        requires
            old(self).wf(),
            distinct_views(seq_views(topics@)),
            forall|t: Seq<char>| seq_views(topics@).contains(t)
                ==> old(self).spec_count(t) < usize::MAX,
        ensures
            final(self).wf(),
            forall|t: Seq<char>| seq_views(topics@).contains(t)
                ==> final(self).spec_count(t) == old(self).spec_count(t) + 1,
            forall|t: Seq<char>| !seq_views(topics@).contains(t)
                ==> final(self).spec_count(t) == old(self).spec_count(t),
            seq_views(started@) == seq_views(topics@).filter(
                |t: Seq<char>| old(self).spec_count(t) == 0,
            ),
    {
        let ghost orig = *old(self);
        let ghost pred = |t: Seq<char>| orig.spec_count(t) == 0;
        let ghost tviews = seq_views(topics@);
        let mut started: Vec<String> = Vec::new();
        let mut i: usize = 0;
        proof {
            reveal(Seq::filter);
            assert(tviews.take(0) =~= Seq::<Seq<char>>::empty());
            assert(seq_views(started@) =~= Seq::<Seq<char>>::empty());
            assert(tviews.take(0).filter(pred) =~= Seq::<Seq<char>>::empty());
        }
        while i < topics.len()
            invariant
                self.wf(),
                0 <= i <= topics@.len(),
                tviews == seq_views(topics@),
                distinct_views(tviews),
                pred == (|t: Seq<char>| orig.spec_count(t) == 0),
                forall|t: Seq<char>| tviews.contains(t) ==> orig.spec_count(t) < usize::MAX,
                forall|j: int| 0 <= j < i ==> self.spec_count(#[trigger] tviews[j])
                    == orig.spec_count(tviews[j]) + 1,
                forall|t: Seq<char>| !tviews.take(i as int).contains(t)
                    ==> self.spec_count(t) == orig.spec_count(t),
                seq_views(started@) == tviews.take(i as int).filter(pred),
            decreases topics@.len() - i,
        {
            let topic = &topics[i];
            let ghost tv = tviews[i as int];
            assert(topic@ == tv);
            assert(tviews.contains(tv));
            assert(!tviews.take(i as int).contains(tv)) by {
                if tviews.take(i as int).contains(tv) {
                    let j = choose|j: int| 0 <= j < i && tviews.take(i as int)[j] == tv;
                    assert(tviews[j] == tv);
                }
            }
            assert(self.spec_count(tv) == orig.spec_count(tv));
            let was_zero: bool;
            match self.find_entry(topic.as_str()) {
                Some(j) => {
                    let cnt = self.entries[j].1;
                    was_zero = cnt == 0;
                    assert(cnt < usize::MAX);
                    let key = self.entries[j].0.clone();
                    let ghost pre = self.entries@;
                    let ghost newv = (key, (cnt + 1) as usize);
                    self.entries[j] = (key, cnt + 1);
                    proof {
                        assert(self.entries@ == pre.update(j as int, newv));
                        assert(newv.0@ == pre[j as int].0@);
                        assert forall|t: Seq<char>| #[trigger] count_in(self.entries@, t)
                            == if t == tv { (cnt + 1) as nat } else { count_in(pre, t) } by {
                            lemma_count_update(pre, j as int, newv, t);
                        }
                        assert forall|a: int, b: int|
                            0 <= a < b < self.entries@.len()
                            implies self.entries@[a].0@ != self.entries@[b].0@ by {
                            assert(self.entries@[a].0@ == pre[a].0@);
                            assert(self.entries@[b].0@ == pre[b].0@);
                        }
                    }
                },
                None => {
                    was_zero = true;
                    let ghost pre = self.entries@;
                    let newkey = topic.clone();
                    let ghost newv = (newkey, 1usize);
                    self.entries.push((newkey, 1));
                    proof {
                        assert(self.entries@ == pre.push(newv));
                        assert(newv.0@ == tv);
                        assert forall|t: Seq<char>| #[trigger] count_in(self.entries@, t)
                            == if t == tv { 1nat } else { count_in(pre, t) } by {
                            lemma_count_push(pre, newv, t);
                        }
                        assert forall|a: int, b: int|
                            0 <= a < b < self.entries@.len()
                            implies self.entries@[a].0@ != self.entries@[b].0@ by {
                            if b < pre.len() {
                            } else {
                                assert(self.entries@[b].0@ == tv);
                                assert(!has_key(pre, tv));
                                assert(self.entries@[a].0@ == pre[a].0@);
                            }
                        }
                    }
                },
            }
            let ghost started_pre = started@;
            if was_zero {
                started.push(topic.clone());
            }
            proof {
                lemma_filter_take_step(tviews, pred, i as int);
                if was_zero {
                    assert(seq_views(started@) =~= seq_views(started_pre).push(tv));
                } else {
                    assert(seq_views(started@) == seq_views(started_pre));
                }
                assert(seq_views(started@) == tviews.take(i as int + 1).filter(pred));
                assert forall|t: Seq<char>| !tviews.take(i as int + 1).contains(t)
                    implies self.spec_count(t) == orig.spec_count(t) by {
                    assert(t != tv) by {
                        assert(tviews.take(i as int + 1)[i as int] == tv);
                    }
                    assert(!tviews.take(i as int).contains(t)) by {
                        if tviews.take(i as int).contains(t) {
                            let j = choose|j: int|
                                0 <= j < i && tviews.take(i as int)[j] == t;
                            assert(tviews.take(i as int + 1)[j] == t);
                        }
                    }
                }
                assert forall|j: int| 0 <= j < i + 1
                    implies self.spec_count(#[trigger] tviews[j])
                        == orig.spec_count(tviews[j]) + 1 by {
                    if j < i {
                        assert(tviews[j] != tv);
                    }
                }
            }
            i += 1;
        }
        proof {
            assert(tviews.take(topics@.len() as int) =~= tviews);
            assert forall|t: Seq<char>| tviews.contains(t)
                implies self.spec_count(t) == orig.spec_count(t) + 1 by {
                let j = choose|j: int| 0 <= j < tviews.len() && tviews[j] == t;
            }
        }
        started
    }

    /// Decrement the refcount of every listed topic by one, clamping at zero,
    /// and report, in order, the topics whose count moved from one to zero.
    pub fn unsubscribe_topics(&mut self, topics: &Vec<String>) -> (stopped: Vec<String>)
        requires
            old(self).wf(),
            distinct_views(seq_views(topics@)),
        ensures
            final(self).wf(),
            forall|t: Seq<char>| seq_views(topics@).contains(t)
                ==> final(self).spec_count(t) == if old(self).spec_count(t) > 0 {
                    (old(self).spec_count(t) - 1) as nat
                } else {
                    0nat
                },
            forall|t: Seq<char>| !seq_views(topics@).contains(t)
                ==> final(self).spec_count(t) == old(self).spec_count(t),
            seq_views(stopped@) == seq_views(topics@).filter(
                |t: Seq<char>| old(self).spec_count(t) == 1,
            ),
    {
        let ghost orig = *old(self);
        let ghost pred = |t: Seq<char>| orig.spec_count(t) == 1;
        let ghost tviews = seq_views(topics@);
        let mut stopped: Vec<String> = Vec::new();
        let mut i: usize = 0;
        proof {
            reveal(Seq::filter);
            assert(tviews.take(0) =~= Seq::<Seq<char>>::empty());
            assert(seq_views(stopped@) =~= Seq::<Seq<char>>::empty());
            assert(tviews.take(0).filter(pred) =~= Seq::<Seq<char>>::empty());
        }
        while i < topics.len()
            invariant
                self.wf(),
                0 <= i <= topics@.len(),
                tviews == seq_views(topics@),
                distinct_views(tviews),
                pred == (|t: Seq<char>| orig.spec_count(t) == 1),
                forall|j: int| 0 <= j < i ==> self.spec_count(#[trigger] tviews[j])
                    == if orig.spec_count(tviews[j]) > 0 {
                        (orig.spec_count(tviews[j]) - 1) as nat
                    } else {
                        0nat
                    },
                forall|t: Seq<char>| !tviews.take(i as int).contains(t)
                    ==> self.spec_count(t) == orig.spec_count(t),
                seq_views(stopped@) == tviews.take(i as int).filter(pred),
            decreases topics@.len() - i,
        {
            let topic = &topics[i];
            let ghost tv = tviews[i as int];
            assert(topic@ == tv);
            assert(!tviews.take(i as int).contains(tv)) by {
                if tviews.take(i as int).contains(tv) {
                    let j = choose|j: int| 0 <= j < i && tviews.take(i as int)[j] == tv;
                    assert(tviews[j] == tv);
                }
            }
            assert(self.spec_count(tv) == orig.spec_count(tv));
            let mut hit_zero: bool = false;
            match self.find_entry(topic.as_str()) {
                Some(j) => {
                    let cnt = self.entries[j].1;
                    if cnt > 0 {
                        hit_zero = cnt == 1;
                        let key = self.entries[j].0.clone();
                        let ghost pre = self.entries@;
                        let ghost newv = (key, (cnt - 1) as usize);
                        self.entries[j] = (key, cnt - 1);
                        proof {
                            assert(self.entries@ == pre.update(j as int, newv));
                            assert(newv.0@ == pre[j as int].0@);
                            assert forall|t: Seq<char>| #[trigger] count_in(self.entries@, t)
                                == if t == tv { (cnt - 1) as nat } else { count_in(pre, t) } by {
                                lemma_count_update(pre, j as int, newv, t);
                            }
                            assert forall|a: int, b: int|
                                0 <= a < b < self.entries@.len()
                                implies self.entries@[a].0@ != self.entries@[b].0@ by {
                                assert(self.entries@[a].0@ == pre[a].0@);
                                assert(self.entries@[b].0@ == pre[b].0@);
                            }
                        }
                    }
                },
                None => {},
            }
            let ghost stopped_pre = stopped@;
            if hit_zero {
                stopped.push(topic.clone());
            }
            proof {
                lemma_filter_take_step(tviews, pred, i as int);
                if hit_zero {
                    assert(seq_views(stopped@) =~= seq_views(stopped_pre).push(tv));
                } else {
                    assert(seq_views(stopped@) == seq_views(stopped_pre));
                }
                assert(seq_views(stopped@) == tviews.take(i as int + 1).filter(pred));
                assert forall|t: Seq<char>| !tviews.take(i as int + 1).contains(t)
                    implies self.spec_count(t) == orig.spec_count(t) by {
                    assert(t != tv) by {
                        assert(tviews.take(i as int + 1)[i as int] == tv);
                    }
                    assert(!tviews.take(i as int).contains(t)) by {
                        if tviews.take(i as int).contains(t) {
                            let j = choose|j: int|
                                0 <= j < i && tviews.take(i as int)[j] == t;
                            assert(tviews.take(i as int + 1)[j] == t);
                        }
                    }
                }
                assert forall|j: int| 0 <= j < i + 1
                    implies self.spec_count(#[trigger] tviews[j])
                        == if orig.spec_count(tviews[j]) > 0 {
                            (orig.spec_count(tviews[j]) - 1) as nat
                        } else {
                            0nat
                        } by {
                    if j < i {
                        assert(tviews[j] != tv);
                    }
                }
            }
            i += 1;
        }
        proof {
            assert(tviews.take(topics@.len() as int) =~= tviews);
            assert forall|t: Seq<char>| tviews.contains(t)
                implies self.spec_count(t) == if orig.spec_count(t) > 0 {
                    (orig.spec_count(t) - 1) as nat
                } else {
                    0nat
                } by {
                let j = choose|j: int| 0 <= j < tviews.len() && tviews[j] == t;
            }
        }
        stopped
    }
}

} // verus!
