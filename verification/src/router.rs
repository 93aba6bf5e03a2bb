//! The stream-oriented request router: named topics, each with
//! subscribers that can be muted per subscriber. This is the decision
//! core — which subscriber ids exist and which receive a broadcast; the
//! queues that carry the messages live with the caller, which hands each
//! listed subscriber its copy.

use vstd::prelude::*;
use crate::codec::str_eq;

verus! {

/// A subscriber id on one topic. Ids are drawn by an incrementing
/// counter; wrap-around is handled by skipping ids still in use.
#[derive(Debug, Clone, Copy, PartialEq, Eq, Structural, Hash)]
pub struct TopicClientId(pub u32);

impl Default for TopicClientId {
    fn default() -> (r: TopicClientId)
        ensures
            r.0 == 0,
    {
        TopicClientId(0)
    }
}

impl TopicClientId {
    /// The next candidate id, wrapping at the end of the range.
    pub fn next(&self) -> (r: TopicClientId)
        ensures
            r.0 == (if self.0 == u32::MAX {
                0u32
            } else {
                (self.0 + 1) as u32
            }),
    {
        if self.0 == u32::MAX {
            TopicClientId(0)
        } else {
            TopicClientId(self.0 + 1)
        }
    }
}

/// The ids an id list holds.
pub open spec fn holds_id(s: Seq<(u32, bool)>, id: u32) -> bool {
    exists|i: int| 0 <= i < s.len() && s[i].0 == id
}

/// A client list with every entry of one id removed, order kept.
pub open spec fn drop_id(s: Seq<(u32, bool)>, id: u32) -> Seq<(u32, bool)>
    decreases s.len(),
{
    if s.len() == 0 {
        Seq::empty()
    } else {
        let rest = drop_id(s.drop_last(), id);
        if s.last().0 == id {
            rest
        } else {
            rest.push(s.last())
        }
    }
}

/// The active subscriber ids of a client list, in order.
pub open spec fn active_ids(s: Seq<(u32, bool)>) -> Seq<u32>
    decreases s.len(),
{
    if s.len() == 0 {
        Seq::empty()
    } else {
        let rest = active_ids(s.drop_last());
        if s.last().1 {
            rest.push(s.last().0)
        } else {
            rest
        }
    }
}

/// One named broadcast channel: subscribers with a per-subscriber mute
/// flag, and the counter from which new ids are drawn.
#[derive(Debug)]
pub struct Topic {
    clients: Vec<(u32, bool)>,
    next_id: TopicClientId,
}

impl View for Topic {
    type V = Seq<(u32, bool)>;

    closed spec fn view(&self) -> Seq<(u32, bool)> {
        self.clients@
    }
}

impl Topic {
    pub fn new() -> (r: Topic)
        ensures
            r@.len() == 0,
    {
        Topic { clients: Vec::new(), next_id: TopicClientId(0) }
    }

    /// Subscribe: allocate an id not in use, trying successive ids with
    /// wrap-around, and add it as active. `None` only if every candidate
    /// the bounded search tried was taken, which an empty topic never
    /// suffers.
    pub fn attach(&mut self) -> (r: Option<TopicClientId>)
        ensures
            match r {
                Some(id) => !holds_id(old(self)@, id.0) && final(self)@ == old(self)@.push(
                    (id.0, true),
                ),
                None => final(self)@ == old(self)@ && old(self)@.len() > 0,
            },
    {
        let bound = self.clients.len();
        if bound == usize::MAX {
            return None;
        }
        let mut tries: usize = 0;
        while tries <= bound
            invariant
                self@ == old(self)@,
                bound == self@.len(),
                bound < usize::MAX,
                tries <= bound + 1,
                tries > 0 ==> self@.len() > 0,
            decreases bound + 1 - tries,
        {
            let candidate = self.next_id;
            self.next_id = self.next_id.next();
            if !self.holds(candidate.0) {
                self.clients.push((candidate.0, true));
                proof {
                    assert(self@ =~= old(self)@.push((candidate.0, true)));
                }
                return Some(candidate);
            }
            tries = tries + 1;
        }
        None
    }

    fn holds(&self, id: u32) -> (r: bool)
        ensures
            r == holds_id(self@, id),
    {
        let n = self.clients.len();
        let mut i: usize = 0;
        while i < n
            invariant
                n == self@.len(),
                0 <= i <= n,
                forall|k: int| 0 <= k < i ==> self@[k].0 != id,
            decreases n - i,
        {
            if self.clients[i].0 == id {
                return true;
            }
            i = i + 1;
        }
        false
    }

    /// Unsubscribe: exactly the entries of this id leave, every other
    /// entry stays in order. Unknown ids are a no-op.
    pub fn detach(&mut self, id: TopicClientId)
        ensures
            final(self)@ == drop_id(old(self)@, id.0),
    {
        let ghost sv = self@;
        let mut out: Vec<(u32, bool)> = Vec::new();
        let n = self.clients.len();
        let mut i: usize = 0;
        proof {
            assert(sv.take(0) =~= Seq::<(u32, bool)>::empty());
        }
        while i < n
            invariant
                sv == self@,
                n == sv.len(),
                0 <= i <= n,
                out@ == drop_id(sv.take(i as int), id.0),
            decreases n - i,
        {
            let entry = self.clients[i];
            proof {
                assert(sv.take(i + 1).drop_last() =~= sv.take(i as int));
                assert(sv.take(i + 1).last() == sv[i as int]);
            }
            if entry.0 != id.0 {
                out.push(entry);
            }
            i = i + 1;
        }
        proof {
            assert(sv.take(n as int) =~= sv);
        }
        self.clients = out;
    }

    fn set_active(&mut self, id: TopicClientId, active: bool)
        ensures
            final(self)@.len() == old(self)@.len(),
            forall|k: int| 0 <= k < old(self)@.len() ==> #[trigger] final(self)@[k] == (if old(
                self,
            )@[k].0 == id.0 {
                (old(self)@[k].0, active)
            } else {
                old(self)@[k]
            }),
    {
        let n = self.clients.len();
        let mut i: usize = 0;
        while i < n
            invariant
                n == self@.len() == old(self)@.len(),
                0 <= i <= n,
                forall|k: int| i <= k < n ==> #[trigger] self@[k] == old(self)@[k],
                forall|k: int| 0 <= k < i ==> #[trigger] self@[k] == (if old(self)@[k].0 == id.0 {
                    (old(self)@[k].0, active)
                } else {
                    old(self)@[k]
                }),
            decreases n - i,
        {
            if self.clients[i].0 == id.0 {
                self.clients.set(i, (id.0, active));
            }
            i = i + 1;
        }
    }

    /// Unmute: broadcasts reach this subscriber again.
    pub fn activate(&mut self, id: TopicClientId)
        ensures
            final(self)@.len() == old(self)@.len(),
            forall|k: int| 0 <= k < old(self)@.len() ==> #[trigger] final(self)@[k] == (if old(
                self,
            )@[k].0 == id.0 {
                (old(self)@[k].0, true)
            } else {
                old(self)@[k]
            }),
    {
        self.set_active(id, true);
    }

    /// Mute: the subscriber stays attached but broadcasts skip it.
    pub fn deactivate(&mut self, id: TopicClientId)
        ensures
            final(self)@.len() == old(self)@.len(),
            forall|k: int| 0 <= k < old(self)@.len() ==> #[trigger] final(self)@[k] == (if old(
                self,
            )@[k].0 == id.0 {
                (old(self)@[k].0, false)
            } else {
                old(self)@[k]
            }),
    {
        self.set_active(id, false);
    }

    /// Who receives a broadcast: exactly the active subscribers, each
    /// once, in attachment order.
    pub fn recipients(&self) -> (r: Vec<u32>)
        ensures
            r@ == active_ids(self@),
    {
        let n = self.clients.len();
        let mut out: Vec<u32> = Vec::new();
        let mut i: usize = 0;
        proof {
            assert(self@.take(0) =~= Seq::<(u32, bool)>::empty());
        }
        while i < n
            invariant
                n == self@.len(),
                0 <= i <= n,
                out@ == active_ids(self@.take(i as int)),
            decreases n - i,
        {
            let entry = self.clients[i];
            proof {
                assert(self@.take(i + 1).drop_last() =~= self@.take(i as int));
                assert(self@.take(i + 1).last() == self@[i as int]);
            }
            if entry.1 {
                out.push(entry.0);
            }
            i = i + 1;
        }
        proof {
            assert(self@.take(n as int) =~= self@);
        }
        out
    }
}

/// A process-wide registry of named topics.
#[derive(Debug)]
pub struct PubSub {
    topics: Vec<(String, Topic)>,
}

impl View for PubSub {
    type V = Seq<(Seq<char>, Seq<(u32, bool)>)>;

    closed spec fn view(&self) -> Seq<(Seq<char>, Seq<(u32, bool)>)> {
        Seq::new(self.topics@.len(), |i: int| (self.topics@[i].0@, self.topics@[i].1@))
    }
}

/// The index of the topic with the given name, or -1.
pub open spec fn ps_find(s: Seq<(Seq<char>, Seq<(u32, bool)>)>, name: Seq<char>) -> int
    decreases s.len(),
{
    if s.len() == 0 {
        -1
    } else if s[0].0 == name {
        0
    } else {
        let r = ps_find(s.drop_first(), name);
        if r == -1 {
            -1
        } else {
            r + 1
        }
    }
}

pub proof fn lemma_ps_find_props(s: Seq<(Seq<char>, Seq<(u32, bool)>)>, name: Seq<char>)
    ensures
        ps_find(s, name) == -1 ==> forall|p: int| 0 <= p < s.len() ==> s[p].0 != name,
        ps_find(s, name) != -1 ==> 0 <= ps_find(s, name) < s.len() && s[ps_find(s, name)].0 == name
            && forall|p: int| 0 <= p < ps_find(s, name) ==> s[p].0 != name,
    decreases s.len(),
{
    if s.len() == 0 {
    } else {
        let sdf = s.drop_first();
        lemma_ps_find_props(sdf, name);
        assert forall|p: int| 0 <= p < sdf.len() implies sdf[p] == s[p + 1] by {}
        if s[0].0 == name {
        } else {
            let r = ps_find(sdf, name);
            if r == -1 {
                assert forall|p: int| 0 <= p < s.len() implies s[p].0 != name by {
                    if p > 0 {
                        assert(sdf[p - 1] == s[p]);
                        assert(sdf[p - 1].0 != name);
                    }
                }
            } else {
                assert(sdf[r] == s[r + 1]);
                assert(ps_find(s, name) == r + 1);
                assert forall|p: int| 0 <= p < ps_find(s, name) implies s[p].0 != name by {
                    if p > 0 {
                        assert(sdf[p - 1] == s[p]);
                        assert(sdf[p - 1].0 != name);
                    }
                }
            }
        }
    }
}

impl PubSub {
    pub fn new() -> (r: PubSub)
        ensures
            r@.len() == 0,
    {
        let r = PubSub { topics: Vec::new() };
        proof {
            assert(r@ =~= Seq::<(Seq<char>, Seq<(u32, bool)>)>::empty());
        }
        r
    }

    pub open spec fn topic_names(self) -> Seq<Seq<char>> {
        Seq::new(self@.len(), |i: int| self@[i].0)
    }

    /// Subscribe to a topic, creating it if absent. A present topic
    /// gains one active subscriber under an id it did not hold; an
    /// absent one is created holding just the new subscriber. `None`
    /// comes only from a present topic whose bounded id search failed,
    /// and changes nothing.
    pub fn attach(&mut self, id: String) -> (r: Option<TopicClientId>)
        ensures
            final(self).topic_names().contains(id@),
            ({
                let i = ps_find(old(self)@, id@);
                match r {
                    Some(sub) => {
                        if i >= 0 {
                            &&& !holds_id(old(self)@[i].1, sub.0)
                            &&& final(self)@ == old(self)@.update(
                                i,
                                (old(self)@[i].0, old(self)@[i].1.push((sub.0, true))),
                            )
                        } else {
                            final(self)@ == old(self)@.push((id@, seq![(sub.0, true)]))
                        }
                    },
                    None => i >= 0 && old(self)@[i].1.len() > 0 && final(self)@ == old(self)@,
                }
            }),
    {
        let ghost sv = self@;
        let n = self.topics.len();
        let mut i: usize = 0;
        while i < n
            invariant
                *self == *old(self),
                sv == self@,
                n == self.topics@.len(),
                0 <= i <= n,
                forall|p: int| 0 <= p < i ==> sv[p].0 != id@,
            decreases n - i,
        {
            if str_eq(self.topics[i].0.as_str(), id.as_str()) {
                proof {
                    assert(sv[i as int].0 == id@);
                    lemma_ps_find_props(sv, id@);
                    assert(ps_find(sv, id@) == i as int);
                }
                let t = topic_mut(&mut self.topics, i);
                let ghost t0 = *t;
                let r = t.attach();
                proof {
                    let tnew = self.topics@[i as int].1@;
                    assert(self@ =~= sv.update(i as int, (sv[i as int].0, tnew)));
                    match r {
                        Some(sub) => {
                            assert(self@ =~= sv.update(
                                i as int,
                                (sv[i as int].0, sv[i as int].1.push((sub.0, true))),
                            ));
                        },
                        None => {
                            assert(self@ =~= sv);
                        },
                    }
                    assert(self.topic_names()[i as int] == id@);
                    assert(self.topic_names().contains(id@));
                }
                return r;
            }
            i = i + 1;
        }
        proof {
            lemma_ps_find_props(sv, id@);
        }
        let mut t = Topic::new();
        let r = t.attach();
        let sub = match r {
            Some(sub) => sub,
            None => {
                // an empty topic always yields an id
                proof {
                    assert(false);
                }
                TopicClientId(0)
            },
        };
        self.topics.push((id, t));
        proof {
            assert(t@ =~= seq![(sub.0, true)]);
            assert(self@ =~= sv.push((id@, t@)));
            assert(self.topic_names().last() == id@);
            assert(self.topic_names().contains(id@));
        }
        Some(sub)
    }

    /// Who receives a broadcast on the named topic: exactly that topic's
    /// active subscribers in attachment order, or nobody when the topic
    /// has never been attached to.
    pub fn route(&self, id: &str) -> (r: Vec<u32>)
        ensures
            ({
                let i = ps_find(self@, id@);
                if i == -1 {
                    r@.len() == 0
                } else {
                    r@ == active_ids(self@[i].1)
                }
            }),
    {
        let n = self.topics.len();
        let mut i: usize = 0;
        while i < n
            invariant
                n == self.topics@.len(),
                0 <= i <= n,
                forall|k: int| 0 <= k < i ==> self@[k].0 != id@,
            decreases n - i,
        {
            if str_eq(self.topics[i].0.as_str(), id) {
                proof {
                    assert(self@[i as int].0 == id@);
                    lemma_ps_find_props(self@, id@);
                    assert(ps_find(self@, id@) == i as int);
                    assert(self@[i as int].1 == self.topics@[i as int].1@);
                }
                return self.topics[i].1.recipients();
            }
            i = i + 1;
        }
        proof {
            lemma_ps_find_props(self@, id@);
        }
        Vec::new()
    }
}

/// A mutable borrow of the topic at an index.
fn topic_mut(vec: &mut Vec<(String, Topic)>, i: usize) -> (element: &mut Topic)
    requires
        i < old(vec).len(),
    ensures
        *element == old(vec)@[i as int].1,
        final(vec)@ == old(vec)@.update(i as int, (old(vec)@[i as int].0, *final(element))),
{
    &mut vec[i].1
}

/// A change seen by the filesystem watcher, broadcast to reload
/// listeners.
#[derive(Debug, Clone)]
pub enum FileEvent {
    Added(String),
    Removed(String),
    Modified(String),
    Renamed(String, String),
}

} // verus!
