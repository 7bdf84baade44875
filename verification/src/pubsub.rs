//! A topic-based publish/subscribe registry: subscribers with numeric ids,
//! the topics each one follows, Pusher-style socket ids that name
//! subscribers, and the recipients of each published message. Delivering
//! the messages is the caller's part.

use vstd::prelude::*;

use crate::topics::{names_view, distinct_names, TopicSet};

verus! {

/// A subscriber as plain values: its id and the topics it follows.
pub type SubscriberView = (u64, Set<Seq<char>>);

/// Result of a publish operation.
#[derive(Debug, Clone, Copy, PartialEq, Eq, Structural)]
pub struct PublishResult {
    /// Number of subscribers that received the message
    pub count: u32,
    /// Whether the topic had any subscribers
    pub has_subscribers: bool,
}

/// Pub/sub statistics.
#[derive(Debug, Clone, Copy, PartialEq, Eq, Structural)]
pub struct PubSubStats {
    /// Total number of active topics
    pub topic_count: u32,
    /// Total number of subscribers
    pub subscriber_count: u32,
    /// Total messages published
    pub messages_published: u32,
}

/// The ids, in order, of the subscribers in `subs` that follow `topic`,
/// leaving out `exclude`.
pub open spec fn recipients(subs: Seq<SubscriberView>, topic: Seq<char>, exclude: Option<u64>) -> Seq<
    u64,
>
    decreases subs.len(),
{
    if subs.len() == 0 {
        Seq::empty()
    } else {
        let last = subs.last();
        let rest = recipients(subs.drop_last(), topic, exclude);
        if last.1.contains(topic) && exclude != Some(last.0) {
            rest.push(last.0)
        } else {
            rest
        }
    }
}

/// Whether some subscriber in `subs` follows `topic`.
pub open spec fn has_followers(subs: Seq<SubscriberView>, topic: Seq<char>) -> bool {
    exists|i: int| 0 <= i < subs.len() && #[trigger] subs[i].1.contains(topic)
}

/// Every topic that some subscriber in `subs` follows.
pub open spec fn followed_topics(subs: Seq<SubscriberView>) -> Set<Seq<char>>
    decreases subs.len(),
{
    if subs.len() == 0 {
        Set::empty()
    } else {
        followed_topics(subs.drop_last()).union(subs.last().1)
    }
}

/// The position of subscriber `id` in `subs`, if it is there.
pub open spec fn position(subs: Seq<SubscriberView>, id: u64) -> Option<int> {
    if exists|i: int| 0 <= i < subs.len() && #[trigger] subs[i].0 == id {
        Some(choose|i: int| 0 <= i < subs.len() && #[trigger] subs[i].0 == id)
    } else {
        None
    }
}

/// No id occurs twice.
pub open spec fn distinct_ids(subs: Seq<SubscriberView>) -> bool {
    forall|i: int, j: int| 0 <= i < j < subs.len() ==> subs[i].0 != subs[j].0
}

struct Entry {
    id: u64,
    topics: TopicSet,
}

struct SocketName {
    name: String,
    id: u64,
}

/// The registry.
pub struct PubSubRegistry {
    subscribers: Vec<Entry>,
    sockets: Vec<SocketName>,
    next_id: u64,
    published: u64,
}

spec fn entries_view(entries: Seq<Entry>) -> Seq<SubscriberView> {
    entries.map_values(|e: Entry| (e.id, e.topics@))
}

spec fn sockets_map(sockets: Seq<SocketName>) -> Map<Seq<char>, u64>
    decreases sockets.len(),
{
    if sockets.len() == 0 {
        Map::empty()
    } else {
        sockets_map(sockets.drop_last()).insert(sockets.last().name@, sockets.last().id)
    }
}

spec fn distinct_socket_names(sockets: Seq<SocketName>) -> bool {
    forall|i: int, j: int| 0 <= i < j < sockets.len() ==> sockets[i].name@ != sockets[j].name@
}

/// With distinct names, the map holds exactly the listed names, each with
/// its listed id.
proof fn lemma_sockets_map(sockets: Seq<SocketName>)
    requires
        distinct_socket_names(sockets),
    ensures
        forall|k: Seq<char>| #[trigger]
            sockets_map(sockets).contains_key(k) <==> exists|j: int|
                0 <= j < sockets.len() && #[trigger] sockets[j].name@ == k,
        forall|j: int|
            0 <= j < sockets.len() ==> sockets_map(sockets)[#[trigger] sockets[j].name@]
                == sockets[j].id,
    decreases sockets.len(),
{
    if sockets.len() > 0 {
        let rest = sockets.drop_last();
        assert(distinct_socket_names(rest));
        lemma_sockets_map(rest);
        let m = sockets_map(sockets);
        assert forall|k: Seq<char>| #[trigger] m.contains_key(k) <==> exists|j: int|
            0 <= j < sockets.len() && #[trigger] sockets[j].name@ == k by {
            if m.contains_key(k) {
                if k == sockets.last().name@ {
                    assert(sockets[sockets.len() - 1].name@ == k);
                } else {
                    assert(sockets_map(rest).contains_key(k));
                    let j = choose|j: int| 0 <= j < rest.len() && #[trigger] rest[j].name@ == k;
                    assert(rest[j] == sockets[j]);
                    assert(sockets[j].name@ == k);
                }
            }
            if exists|j: int| 0 <= j < sockets.len() && #[trigger] sockets[j].name@ == k {
                let j = choose|j: int| 0 <= j < sockets.len() && #[trigger] sockets[j].name@ == k;
                if j < sockets.len() - 1 {
                    assert(rest[j].name@ == k);
                }
            }
        }
        assert forall|j: int| 0 <= j < sockets.len() implies m[#[trigger] sockets[j].name@]
            == sockets[j].id by {
            if j < sockets.len() - 1 {
                assert(rest[j] == sockets[j]);
            }
        }
    }
}

/// Maps that agree on their keys and values are equal.
proof fn lemma_map_eq(a: Map<Seq<char>, u64>, b: Map<Seq<char>, u64>)
    requires
        forall|k: Seq<char>| #[trigger] a.contains_key(k) <==> b.contains_key(k),
        forall|k: Seq<char>| #[trigger] a.contains_key(k) ==> a[k] == b[k],
    ensures
        a == b,
{
    assert(a =~= b);
}

impl PubSubRegistry {
    /// The subscribers, oldest first.
    pub closed spec fn subscribers(&self) -> Seq<SubscriberView> {
        entries_view(self.subscribers@)
    }

    /// The subscriber each registered socket id names.
    pub closed spec fn socket_ids(&self) -> Map<Seq<char>, u64> {
        sockets_map(self.sockets@)
    }

    /// The id the next subscriber gets.
    pub closed spec fn spec_next_id(&self) -> u64 {
        self.next_id
    }

    /// How many publish operations found subscribers.
    pub closed spec fn spec_published(&self) -> u64 {
        self.published
    }

    #[verifier::type_invariant]
    closed spec fn wf(&self) -> bool {
        &&& distinct_ids(entries_view(self.subscribers@))
        &&& forall|i: int| 0 <= i < self.subscribers@.len() ==> #[trigger] self.subscribers@[i].id
            < self.next_id
        &&& forall|i: int, j: int|
            0 <= i < j < self.sockets@.len() ==> self.sockets@[i].name@ != self.sockets@[j].name@
    }

    /// An empty registry; the first subscriber will get id 1.
    pub fn new() -> (r: Self)
        ensures
            r.spec_next_id() == 1,
            r.subscribers() == Seq::<SubscriberView>::empty(),
            r.socket_ids() == Map::<Seq<char>, u64>::empty(),
            r.spec_published() == 0,
            distinct_ids(r.subscribers()),
    {
        let r = PubSubRegistry { subscribers: Vec::new(), sockets: Vec::new(), next_id: 1, published: 0 };
        proof {
            assert(entries_view(r.subscribers@) =~= Seq::<SubscriberView>::empty());
        }
        r
    }

    fn find(&self, id: u64) -> (r: Option<usize>)
        ensures
            r matches Some(i) ==> position(self.subscribers(), id) == Some(i as int) && i
                < self.subscribers@.len() && self.subscribers@[i as int].id == id,
            r is None ==> position(self.subscribers(), id) is None,
    {
        proof {
            use_type_invariant(self);
        }
        let ghost v = self.subscribers();
        let mut i: usize = 0;
        while i < self.subscribers.len()
            invariant
                v == entries_view(self.subscribers@),
                distinct_ids(v),
                i <= self.subscribers@.len(),
                forall|j: int| 0 <= j < i ==> self.subscribers@[j].id != id,
            decreases self.subscribers@.len() - i,
        {
            if self.subscribers[i].id == id {
                proof {
                    assert(v[i as int].0 == id);
                    let k = choose|k: int| 0 <= k < v.len() && #[trigger] v[k].0 == id;
                    assert(k == i);
                }
                return Some(i);
            }
            i += 1;
        }
        proof {
            assert forall|k: int| 0 <= k < v.len() implies #[trigger] v[k].0 != id by {
                assert(v[k].0 == self.subscribers@[k].id);
            }
        }
        None
    }
}


fn find_socket(sockets: &Vec<SocketName>, name: &String) -> (r: Option<usize>)
    ensures
        r matches Some(k) ==> k < sockets@.len() && sockets@[k as int].name@ == name@,
        r is None ==> forall|j: int| 0 <= j < sockets@.len() ==> sockets@[j].name@ != name@,
{
    let mut i: usize = 0;
    while i < sockets.len()
        invariant
            i <= sockets@.len(),
            forall|j: int| 0 <= j < i ==> sockets@[j].name@ != name@,
        decreases sockets@.len() - i,
    {
        if sockets[i].name == *name {
            return Some(i);
        }
        i += 1;
    }
    None
}

impl PubSubRegistry {
    /// Register a new subscriber, optionally under a socket id, and return
    /// its id. Ids are handed out in increasing order and never reused;
    /// `None` once they are exhausted, with nothing changed. A socket id
    /// that already names a subscriber now names the new one.
    pub fn create_subscriber(&mut self, socket_id: Option<String>) -> (id: Option<u64>)
        ensures
            old(self).spec_next_id() == u64::MAX ==> id is None && final(self).subscribers()
                == old(self).subscribers() && final(self).socket_ids() == old(self).socket_ids()
                && final(self).spec_next_id() == old(self).spec_next_id(),
            old(self).spec_next_id() < u64::MAX ==> {
                &&& id == Some(old(self).spec_next_id())
                &&& final(self).spec_next_id() == old(self).spec_next_id() + 1
                &&& final(self).subscribers() == old(self).subscribers().push(
                    (old(self).spec_next_id(), Set::<Seq<char>>::empty()),
                )
                &&& final(self).socket_ids() == (match socket_id {
                    Some(name) => old(self).socket_ids().insert(name@, old(self).spec_next_id()),
                    None => old(self).socket_ids(),
                })
            },
            final(self).spec_published() == old(self).spec_published(),
            distinct_ids(final(self).subscribers()),
    {
        proof {
            use_type_invariant(&*self);
        }
        if self.next_id == u64::MAX {
            return None;
        }
        let id = self.next_id;
        let ghost old_subs = self.subscribers@;
        let ghost old_map = sockets_map(self.sockets@);
        let mut subs: Vec<Entry> = Vec::new();
        std::mem::swap(&mut subs, &mut self.subscribers);
        subs.push(Entry { id, topics: TopicSet::new() });
        let mut sockets: Vec<SocketName> = Vec::new();
        std::mem::swap(&mut sockets, &mut self.sockets);
        proof {
            lemma_sockets_map(sockets@);
        }
        let ghost before = sockets@;
        match socket_id {
            Some(name) => {
                let found = find_socket(&sockets, &name);
                match found {
                    Some(k) => {
                        proof {
                            assert(sockets@[k as int].name@ == name@);
                        }
                        sockets.remove(k);
                    },
                    None => {},
                }
                let ghost mid = sockets@;
                proof {
                    assert(distinct_socket_names(mid));
                    lemma_sockets_map(mid);
                    assert forall|j: int| 0 <= j < mid.len() implies mid[j].name@ != name@ by {
                        match found {
                            Some(k) => {
                                if j < k {
                                    assert(mid[j] == before[j]);
                                } else {
                                    assert(mid[j] == before[j + 1]);
                                }
                            },
                            None => {
                                assert(mid[j] == before[j]);
                            },
                        }
                    }
                }
                sockets.push(SocketName { name, id });
                proof {
                    let now = sockets@;
                    assert(now.drop_last() =~= mid);
                    assert(distinct_socket_names(now));
                    lemma_sockets_map(now);
                    let m = sockets_map(now);
                    let want = old_map.insert(now.last().name@, id);
                    assert forall|k: Seq<char>| #[trigger] m.contains_key(k) <==> want.contains_key(k) by {
                        if m.contains_key(k) && k != now.last().name@ {
                            let j = choose|j: int| 0 <= j < now.len() && #[trigger] now[j].name@ == k;
                            assert(mid[j].name@ == k);
                            match found {
                                Some(x) => {
                                    if j < x {
                                        assert(before[j].name@ == k);
                                    } else {
                                        assert(before[j + 1].name@ == k);
                                    }
                                },
                                None => {
                                    assert(before[j].name@ == k);
                                },
                            }
                        }
                        if old_map.contains_key(k) && k != now.last().name@ {
                            let j = choose|j: int| 0 <= j < before.len() && #[trigger] before[j].name@ == k;
                            match found {
                                Some(x) => {
                                    assert(j != x);
                                    if j < x {
                                        assert(mid[j].name@ == k);
                                        assert(now[j].name@ == k);
                                    } else {
                                        assert(mid[j - 1].name@ == k);
                                        assert(now[j - 1].name@ == k);
                                    }
                                },
                                None => {
                                    assert(now[j].name@ == k);
                                },
                            }
                        }
                        if k == now.last().name@ {
                            assert(now[now.len() - 1].name@ == k);
                        }
                    }
                    assert forall|k: Seq<char>| #[trigger] m.contains_key(k) implies m[k] == want[k] by {
                        if k != now.last().name@ {
                            let j = choose|j: int| 0 <= j < now.len() && #[trigger] now[j].name@ == k;
                            assert(mid[j] == now[j]);
                            match found {
                                Some(x) => {
                                    if j < x {
                                        assert(before[j] == mid[j]);
                                    } else {
                                        assert(before[j + 1] == mid[j]);
                                    }
                                },
                                None => {
                                    assert(before[j] == mid[j]);
                                },
                            }
                        } else {
                            assert(now[now.len() - 1].name@ == k);
                        }
                    }
                    lemma_map_eq(m, want);
                }
            },
            None => {},
        }
        self.sockets = sockets;
        proof {
            assert(entries_view(subs@) =~= entries_view(old_subs).push((id, Set::<Seq<char>>::empty())));
            assert forall|i: int| 0 <= i < subs@.len() implies #[trigger] subs@[i].id < id + 1 by {
                if i < old_subs.len() {
                    assert(subs@[i] == old_subs[i]);
                }
            }
            assert forall|i: int, j: int| 0 <= i < j < subs@.len() implies entries_view(subs@)[i].0
                != entries_view(subs@)[j].0 by {
                assert(entries_view(subs@)[i].0 == subs@[i].id);
                assert(entries_view(subs@)[j].0 == subs@[j].id);
                if j < old_subs.len() {
                    assert(entries_view(old_subs)[i].0 == old_subs[i].id);
                    assert(entries_view(old_subs)[j].0 == old_subs[j].id);
                } else {
                    assert(subs@[i] == old_subs[i]);
                }
            }
        }
        self.next_id = id + 1;
        self.subscribers = subs;
        Some(id)
    }
}


/// The topics subscriber `id` follows (none when it is not registered).
pub open spec fn topics_of(subs: Seq<SubscriberView>, id: u64) -> Set<Seq<char>> {
    match position(subs, id) {
        Some(i) => subs[i].1,
        None => Set::empty(),
    }
}

/// `subs` with the topics of subscriber `id` replaced by `topics`.
pub open spec fn with_topics(subs: Seq<SubscriberView>, id: u64, topics: Set<Seq<char>>) -> Seq<
    SubscriberView,
> {
    match position(subs, id) {
        Some(i) => subs.update(i, (id, topics)),
        None => subs,
    }
}

impl PubSubRegistry {
    /// Replace the topic set of the subscriber at `i` by applying `edit`.
    fn edit_topics(&mut self, i: usize, topic: String, add: bool) -> (changed: bool)
        requires
            i < old(self).subscribers@.len(),
        ensures
            final(self).subscribers() == old(self).subscribers().update(
                i as int,
                (
                    old(self).subscribers()[i as int].0,
                    if add {
                        old(self).subscribers()[i as int].1.insert(topic@)
                    } else {
                        old(self).subscribers()[i as int].1.remove(topic@)
                    },
                ),
            ),
            changed == (if add {
                !old(self).subscribers()[i as int].1.contains(topic@)
            } else {
                old(self).subscribers()[i as int].1.contains(topic@)
            }),
            final(self).socket_ids() == old(self).socket_ids(),
            final(self).spec_next_id() == old(self).spec_next_id(),
            final(self).spec_published() == old(self).spec_published(),
            distinct_ids(final(self).subscribers()),
    {
        proof {
            use_type_invariant(&*self);
        }
        let ghost old_subs = self.subscribers@;
        let mut subs: Vec<Entry> = Vec::new();
        std::mem::swap(&mut subs, &mut self.subscribers);
        let mut e = subs.remove(i);
        let changed = if add {
            e.topics.insert(topic)
        } else {
            e.topics.remove(&topic)
        };
        subs.insert(i, e);
        proof {
            assert(entries_view(subs@) =~= entries_view(old_subs).update(
                i as int,
                (entries_view(old_subs)[i as int].0, e.topics@),
            ));
            assert forall|j: int| 0 <= j < subs@.len() implies #[trigger] subs@[j].id
                < self.next_id by {
                assert(subs@[j].id == old_subs[j].id);
            }
            assert forall|a: int, b: int| 0 <= a < b < subs@.len() implies entries_view(subs@)[a].0
                != entries_view(subs@)[b].0 by {
                assert(entries_view(subs@)[a].0 == entries_view(old_subs)[a].0);
                assert(entries_view(subs@)[b].0 == entries_view(old_subs)[b].0);
            }
        }
        self.subscribers = subs;
        changed
    }

    /// Subscribe subscriber `id` to `topic`; returns whether `id` is
    /// registered (when it is not, nothing changes).
    pub fn subscribe(&mut self, id: u64, topic: String) -> (known: bool)
        ensures
            distinct_ids(old(self).subscribers()),
            known == (position(old(self).subscribers(), id) is Some),
            final(self).subscribers() == with_topics(
                old(self).subscribers(),
                id,
                topics_of(old(self).subscribers(), id).insert(topic@),
            ),
            final(self).socket_ids() == old(self).socket_ids(),
            final(self).spec_next_id() == old(self).spec_next_id(),
            final(self).spec_published() == old(self).spec_published(),
            distinct_ids(final(self).subscribers()),
    {
        proof {
            use_type_invariant(&*self);
        }
        match self.find(id) {
            Some(i) => {
                self.edit_topics(i, topic, true);
                true
            },
            None => false,
        }
    }

    /// Unsubscribe subscriber `id` from `topic`; returns whether it was
    /// subscribed.
    pub fn unsubscribe(&mut self, id: u64, topic: &String) -> (was: bool)
        ensures
            distinct_ids(old(self).subscribers()),
            was == topics_of(old(self).subscribers(), id).contains(topic@),
            final(self).subscribers() == with_topics(
                old(self).subscribers(),
                id,
                topics_of(old(self).subscribers(), id).remove(topic@),
            ),
            final(self).socket_ids() == old(self).socket_ids(),
            final(self).spec_next_id() == old(self).spec_next_id(),
            final(self).spec_published() == old(self).spec_published(),
            distinct_ids(final(self).subscribers()),
    {
        proof {
            use_type_invariant(&*self);
        }
        match self.find(id) {
            Some(i) => self.edit_topics(i, topic.clone(), false),
            None => false,
        }
    }

    /// Whether subscriber `id` follows `topic`.
    pub fn is_subscribed(&self, id: u64, topic: &String) -> (b: bool)
        ensures
            b == topics_of(self.subscribers(), id).contains(topic@),
    {
        match self.find(id) {
            Some(i) => {
                proof {
                    assert(self.subscribers()[i as int].1 == self.subscribers@[i as int].topics@);
                }
                self.subscribers[i].topics.contains(topic)
            },
            None => false,
        }
    }

    /// The topics subscriber `id` follows, each once (none when it is not
    /// registered).
    pub fn subscriber_topics(&self, id: u64) -> (v: Vec<String>)
        ensures
            names_view(v@).to_set() == topics_of(self.subscribers(), id),
            distinct_names(v@),
    {
        match self.find(id) {
            Some(i) => {
                proof {
                    assert(self.subscribers()[i as int].1 == self.subscribers@[i as int].topics@);
                }
                self.subscribers[i].topics.to_vec()
            },
            None => {
                let v: Vec<String> = Vec::new();
                proof {
                    assert(names_view(v@).to_set() =~= Set::<Seq<char>>::empty());
                }
                v
            },
        }
    }
}


/// The registered socket ids that name a subscriber other than `id`.
pub open spec fn sockets_without(m: Map<Seq<char>, u64>, id: u64) -> Map<Seq<char>, u64> {
    m.restrict(m.dom().filter(|k: Seq<char>| m[k] != id))
}

/// The subscriber a socket id names, if any.
pub open spec fn named_by(m: Map<Seq<char>, u64>, name: Seq<char>) -> Option<u64> {
    if m.contains_key(name) {
        Some(m[name])
    } else {
        None
    }
}

/// The entries of `sockets`, in order, that name a subscriber other than
/// `id`.
spec fn keep_others(sockets: Seq<SocketName>, id: u64) -> Seq<SocketName>
    decreases sockets.len(),
{
    if sockets.len() == 0 {
        Seq::empty()
    } else {
        let rest = keep_others(sockets.drop_last(), id);
        if sockets.last().id != id {
            rest.push(sockets.last())
        } else {
            rest
        }
    }
}

proof fn lemma_keep_others(sockets: Seq<SocketName>, id: u64)
    requires
        distinct_socket_names(sockets),
    ensures
        distinct_socket_names(keep_others(sockets, id)),
        forall|a: int|
            0 <= a < keep_others(sockets, id).len() ==> exists|b: int|
                0 <= b < sockets.len() && sockets[b] == #[trigger] keep_others(sockets, id)[a],
        sockets_map(keep_others(sockets, id)) == sockets_without(sockets_map(sockets), id),
    decreases sockets.len(),
{
    if sockets.len() == 0 {
        assert(sockets_map(keep_others(sockets, id)) =~= sockets_without(sockets_map(sockets), id));
    } else {
        let rest = sockets.drop_last();
        let last = sockets.last();
        assert(distinct_socket_names(rest));
        lemma_keep_others(rest, id);
        lemma_sockets_map(rest);
        let kr = keep_others(rest, id);
        let k = keep_others(sockets, id);
        assert forall|a: int| 0 <= a < kr.len() implies exists|b: int|
            0 <= b < sockets.len() && sockets[b] == #[trigger] kr[a] by {
            let b = choose|b: int| 0 <= b < rest.len() && rest[b] == kr[a];
            assert(sockets[b] == rest[b]);
        }
        assert forall|a: int| 0 <= a < kr.len() implies #[trigger] kr[a].name@ != last.name@ by {
            let b = choose|b: int| 0 <= b < sockets.len() && sockets[b] == kr[a];
            assert(b < sockets.len() - 1) by {
                let c = choose|c: int| 0 <= c < rest.len() && rest[c] == kr[a];
                assert(sockets[c] == kr[a]);
            }
            assert(sockets[b].name@ != sockets[sockets.len() - 1].name@);
        }
        assert(!sockets_map(rest).contains_key(last.name@)) by {
            if sockets_map(rest).contains_key(last.name@) {
                let j = choose|j: int| 0 <= j < rest.len() && #[trigger] rest[j].name@ == last.name@;
                assert(sockets[j].name@ == last.name@);
            }
        }
        if last.id != id {
            assert(k == kr.push(last));
            assert forall|a: int| 0 <= a < k.len() implies exists|b: int|
                0 <= b < sockets.len() && sockets[b] == #[trigger] k[a] by {
                if a < kr.len() {
                    assert(k[a] == kr[a]);
                } else {
                    assert(sockets[sockets.len() - 1] == k[a]);
                }
            }
            assert forall|x: int, y: int| 0 <= x < y < k.len() implies k[x].name@ != k[y].name@ by {
                if y < kr.len() {
                    assert(k[x] == kr[x] && k[y] == kr[y]);
                } else {
                    assert(k[x] == kr[x]);
                }
            }
        } else {
            assert(k == kr);
        }
        let m = sockets_map(rest);
        let full = sockets_map(sockets);
        assert(full == m.insert(last.name@, last.id));
        let t = sockets_without(full, id);
        let w = sockets_without(m, id);
        assert(sockets_map(kr) == w);
        let mk = sockets_map(k);
        if last.id != id {
            assert(k.drop_last() =~= kr);
            assert(mk == w.insert(last.name@, last.id));
        } else {
            assert(mk == w);
        }
        assert forall|key: Seq<char>| #[trigger] mk.contains_key(key) <==> t.contains_key(key) by {
            assert(t.contains_key(key) == (full.contains_key(key) && full[key] != id));
            assert(w.contains_key(key) == (m.contains_key(key) && m[key] != id));
            if key != last.name@ {
                assert(full.contains_key(key) == m.contains_key(key));
                if m.contains_key(key) {
                    assert(full[key] == m[key]);
                }
            }
        }
        assert forall|key: Seq<char>| #[trigger] mk.contains_key(key) implies mk[key] == t[key] by {
            assert(t.contains_key(key) == (full.contains_key(key) && full[key] != id));
            if key != last.name@ {
                assert(full[key] == m[key]);
                assert(w[key] == m[key]);
            }
        }
        lemma_map_eq(mk, t);
    }
}

fn sockets_not_naming(sockets: &Vec<SocketName>, id: u64) -> (kept: Vec<SocketName>)
    ensures
        kept@ == keep_others(sockets@, id),
{
    let mut kept: Vec<SocketName> = Vec::new();
    let mut j: usize = 0;
    while j < sockets.len()
        invariant
            j <= sockets@.len(),
            kept@ == keep_others(sockets@.take(j as int), id),
        decreases sockets@.len() - j,
    {
        proof {
            assert(sockets@.take(j + 1).drop_last() =~= sockets@.take(j as int));
        }
        if sockets[j].id != id {
            let entry = SocketName { name: sockets[j].name.clone(), id: sockets[j].id };
            kept.push(entry);
        }
        j += 1;
    }
    proof {
        assert(sockets@.take(sockets@.len() as int) =~= sockets@);
    }
    kept
}

impl PubSubRegistry {
    /// Remove subscriber `id` and every socket id naming it; returns
    /// whether it was registered.
    pub fn remove_subscriber(&mut self, id: u64) -> (was: bool)
        ensures
            distinct_ids(old(self).subscribers()),
            was == (position(old(self).subscribers(), id) is Some),
            final(self).subscribers() == (match position(old(self).subscribers(), id) {
                Some(i) => old(self).subscribers().remove(i),
                None => old(self).subscribers(),
            }),
            final(self).socket_ids() == sockets_without(old(self).socket_ids(), id),
            final(self).spec_next_id() == old(self).spec_next_id(),
            final(self).spec_published() == old(self).spec_published(),
            distinct_ids(final(self).subscribers()),
    {
        proof {
            use_type_invariant(&*self);
        }
        let found = self.find(id);
        let ghost old_subs = self.subscribers@;
        match found {
            Some(i) => {
                let mut subs: Vec<Entry> = Vec::new();
                std::mem::swap(&mut subs, &mut self.subscribers);
                subs.remove(i);
                proof {
                    assert(entries_view(subs@) =~= entries_view(old_subs).remove(i as int));
                    assert forall|j: int| 0 <= j < subs@.len() implies #[trigger] subs@[j].id
                        < self.next_id by {
                        if j < i {
                            assert(subs@[j] == old_subs[j]);
                        } else {
                            assert(subs@[j] == old_subs[j + 1]);
                        }
                    }
                    assert forall|a: int, b: int| 0 <= a < b < subs@.len() implies entries_view(
                        subs@,
                    )[a].0 != entries_view(subs@)[b].0 by {
                        let ov = entries_view(old_subs);
                        let a2 = if a < i { a } else { a + 1 };
                        let b2 = if b < i { b } else { b + 1 };
                        assert(entries_view(subs@)[a] == ov[a2]);
                        assert(entries_view(subs@)[b] == ov[b2]);
                    }
                }
                self.subscribers = subs;
            },
            None => {},
        }
        let ghost old_sockets = self.sockets@;
        let kept = sockets_not_naming(&self.sockets, id);
        proof {
            lemma_keep_others(old_sockets, id);
        }
        self.sockets = kept;
        found.is_some()
    }
}


impl PublishResult {
    /// The result reported for the recipients of a publish: their number
    /// (truncated to 32 bits) when the topic had subscribers, and zero
    /// without subscribers otherwise.
    pub fn from_recipients(recipients: &Option<Vec<u64>>) -> (r: PublishResult)
        ensures
            r.has_subscribers == (recipients is Some),
            r.count as int == (match recipients {
                Some(v) => v@.len() % 0x1_0000_0000,
                None => 0,
            }),
    {
        match recipients {
            Some(v) => PublishResult {
                count: (v.len() as u64 % 0x1_0000_0000) as u32,
                has_subscribers: true,
            },
            None => PublishResult { count: 0, has_subscribers: false },
        }
    }
}

impl PubSubRegistry {
    /// Publish to `topic`: the ids of the subscribers that receive the
    /// message (those following the topic, except `exclude`), oldest first;
    /// `None` when nobody follows the topic. A publish that finds
    /// subscribers is counted.
    pub fn publish(&mut self, topic: &String, exclude: Option<u64>) -> (to: Option<Vec<u64>>)
        ensures
            distinct_ids(old(self).subscribers()),
            to is Some <==> has_followers(old(self).subscribers(), topic@),
            to matches Some(v) ==> v@ == recipients(old(self).subscribers(), topic@, exclude),
            final(self).spec_published() == (if has_followers(old(self).subscribers(), topic@) {
                crate::stats::wrap_add(old(self).spec_published(), 1)
            } else {
                old(self).spec_published()
            }),
            final(self).subscribers() == old(self).subscribers(),
            final(self).socket_ids() == old(self).socket_ids(),
            final(self).spec_next_id() == old(self).spec_next_id(),
    {
        proof {
            use_type_invariant(&*self);
        }
        let ghost v = self.subscribers();
        let mut out: Vec<u64> = Vec::new();
        let mut found = false;
        let mut i: usize = 0;
        while i < self.subscribers.len()
            invariant
                v == entries_view(self.subscribers@),
                i <= v.len(),
                out@ == recipients(v.take(i as int), topic@, exclude),
                found == has_followers(v.take(i as int), topic@),
            decreases v.len() - i,
        {
            let ghost prefix = v.take(i as int);
            let ghost next = v.take(i + 1);
            proof {
                assert(next.drop_last() =~= prefix);
                assert(next.last() == v[i as int]);
                assert(v[i as int] == (self.subscribers@[i as int].id, self.subscribers@[i as int].topics@));
            }
            let e = &self.subscribers[i];
            if e.topics.contains(topic) {
                proof {
                    assert(next[i as int].1.contains(topic@));
                }
                found = true;
                let skip = match exclude {
                    Some(x) => x == e.id,
                    None => false,
                };
                if !skip {
                    out.push(e.id);
                }
            } else {
                proof {
                    assert forall|j: int| 0 <= j < next.len() implies !#[trigger] next[j].1.contains(
                        topic@,
                    ) || has_followers(prefix, topic@) by {
                        if j < i {
                            assert(next[j] == prefix[j]);
                        }
                    }
                }
            }
            proof {
                if has_followers(prefix, topic@) {
                    let j = choose|j: int| 0 <= j < prefix.len() && #[trigger] prefix[j].1.contains(topic@);
                    assert(next[j] == prefix[j]);
                }
            }
            i += 1;
        }
        proof {
            assert(v.take(v.len() as int) =~= v);
        }
        if found {
            self.published = self.published.wrapping_add(1);
            Some(out)
        } else {
            None
        }
    }

    /// Publish to `topic` excluding the subscriber that `socket_id` names
    /// (nobody is excluded when it names none).
    pub fn publish_excluding_socket_id(&mut self, socket_id: &String, topic: &String) -> (to: Option<
        Vec<u64>,
    >)
        ensures
            to is Some <==> has_followers(old(self).subscribers(), topic@),
            to matches Some(v) ==> v@ == recipients(
                old(self).subscribers(),
                topic@,
                named_by(old(self).socket_ids(), socket_id@),
            ),
            final(self).spec_published() == (if has_followers(old(self).subscribers(), topic@) {
                crate::stats::wrap_add(old(self).spec_published(), 1)
            } else {
                old(self).spec_published()
            }),
            final(self).subscribers() == old(self).subscribers(),
            final(self).socket_ids() == old(self).socket_ids(),
            final(self).spec_next_id() == old(self).spec_next_id(),
    {
        let exclude = self.get_subscriber_by_socket_id(socket_id);
        self.publish(topic, exclude)
    }

    /// The number of subscribers following `topic`.
    pub fn topic_subscriber_count(&self, topic: &String) -> (n: usize)
        ensures
            n == recipients(self.subscribers(), topic@, None).len(),
            distinct_ids(self.subscribers()),
    {
        proof {
            use_type_invariant(self);
        }
        let ghost v = self.subscribers();
        let mut n: usize = 0;
        let mut i: usize = 0;
        while i < self.subscribers.len()
            invariant
                v == entries_view(self.subscribers@),
                i <= v.len(),
                n == recipients(v.take(i as int), topic@, None).len(),
                n <= i,
            decreases v.len() - i,
        {
            proof {
                assert(v.take(i + 1).drop_last() =~= v.take(i as int));
                assert(v.take(i + 1).last() == v[i as int]);
                assert(v[i as int].1 == self.subscribers@[i as int].topics@);
            }
            if self.subscribers[i].topics.contains(topic) {
                n += 1;
            }
            i += 1;
        }
        proof {
            assert(v.take(v.len() as int) =~= v);
        }
        n
    }

    /// The number of distinct topics that at least one subscriber follows.
    pub fn topic_count(&self) -> (n: usize)
        ensures
            n == followed_topics(self.subscribers()).len(),
    {
        let ghost v = self.subscribers();
        let mut all = TopicSet::new();
        let mut i: usize = 0;
        while i < self.subscribers.len()
            invariant
                v == entries_view(self.subscribers@),
                i <= v.len(),
                all@ == followed_topics(v.take(i as int)),
            decreases v.len() - i,
        {
            proof {
                assert(v.take(i + 1).drop_last() =~= v.take(i as int));
                assert(v.take(i + 1).last() == v[i as int]);
                assert(v[i as int].1 == self.subscribers@[i as int].topics@);
            }
            let names = self.subscribers[i].topics.to_vec();
            let ghost start = all@;
            let mut j: usize = 0;
            while j < names.len()
                invariant
                    j <= names@.len(),
                    all@ == start.union(names_view(names@).take(j as int).to_set()),
                decreases names@.len() - j,
            {
                proof {
                    assert(names_view(names@).take(j + 1) =~= names_view(names@).take(j as int).push(
                        names@[j as int]@,
                    ));
                    names_view(names@).take(j as int).lemma_push_to_set_commute(names@[j as int]@);
                    assert(start.union(names_view(names@).take(j + 1).to_set()) =~= start.union(
                        names_view(names@).take(j as int).to_set(),
                    ).insert(names@[j as int]@));
                }
                all.insert(names[j].clone());
                j += 1;
            }
            proof {
                assert(names_view(names@).take(names@.len() as int) =~= names_view(names@));
            }
            i += 1;
        }
        proof {
            assert(v.take(v.len() as int) =~= v);
        }
        all.len()
    }

    /// The number of registered subscribers.
    pub fn subscriber_count(&self) -> (n: usize)
        ensures
            n == self.subscribers().len(),
            distinct_ids(self.subscribers()),
    {
        proof {
            use_type_invariant(self);
        }
        self.subscribers.len()
    }

    /// How many publish operations found subscribers.
    pub fn messages_published(&self) -> (n: u64)
        ensures
            n == self.spec_published(),
    {
        self.published
    }

    /// Topic count, subscriber count and published count, each truncated to
    /// 32 bits.
    pub fn stats(&self) -> (s: PubSubStats)
        ensures
            s.topic_count as int == followed_topics(self.subscribers()).len() % 0x1_0000_0000,
            s.subscriber_count as int == self.subscribers().len() % 0x1_0000_0000,
            s.messages_published as int == self.spec_published() % 0x1_0000_0000,
    {
        let topics = self.topic_count();
        let subs = self.subscriber_count();
        PubSubStats {
            topic_count: (topics as u64 % 0x1_0000_0000) as u32,
            subscriber_count: (subs as u64 % 0x1_0000_0000) as u32,
            messages_published: (self.published % 0x1_0000_0000) as u32,
        }
    }

    /// The subscriber that `socket_id` names, if any.
    pub fn get_subscriber_by_socket_id(&self, socket_id: &String) -> (id: Option<u64>)
        ensures
            id == named_by(self.socket_ids(), socket_id@),
    {
        proof {
            use_type_invariant(self);
            lemma_sockets_map(self.sockets@);
        }
        match find_socket(&self.sockets, socket_id) {
            Some(k) => Some(self.sockets[k].id),
            None => None,
        }
    }

    /// All registered socket ids, each once.
    pub fn all_socket_ids(&self) -> (v: Vec<String>)
        ensures
            names_view(v@).to_set() == self.socket_ids().dom(),
            distinct_names(v@),
    {
        proof {
            use_type_invariant(self);
            lemma_sockets_map(self.sockets@);
        }
        let mut out: Vec<String> = Vec::new();
        let mut i: usize = 0;
        while i < self.sockets.len()
            invariant
                i <= self.sockets@.len(),
                out@.len() == i,
                forall|j: int| 0 <= j < i ==> #[trigger] out@[j]@ == self.sockets@[j].name@,
            decreases self.sockets@.len() - i,
        {
            out.push(self.sockets[i].name.clone());
            i += 1;
        }
        proof {
            let m = self.socket_ids();
            let nv = names_view(out@);
            assert forall|k: Seq<char>| #[trigger] nv.to_set().contains(k) == m.dom().contains(k) by {
                if nv.contains(k) {
                    let j = nv.index_of(k);
                    assert(self.sockets@[j].name@ == k);
                }
                if m.contains_key(k) {
                    let j = choose|j: int| 0 <= j < self.sockets@.len() && #[trigger] self.sockets@[j].name@
                        == k;
                    assert(nv[j] == k);
                }
            }
            assert(nv.to_set() =~= m.dom());
        }
        out
    }
}


/// In a sequence with distinct ids, the position of the id at `i` is `i`.
pub proof fn lemma_position_at(subs: Seq<SubscriberView>, i: int)
    requires
        distinct_ids(subs),
        0 <= i < subs.len(),
    ensures
        position(subs, subs[i].0) == Some(i),
{
    let id = subs[i].0;
    assert(subs[i].0 == id);
    let k = choose|k: int| 0 <= k < subs.len() && #[trigger] subs[k].0 == id;
    if k != i {
        if k < i {
            assert(subs[k].0 != subs[i].0);
        } else {
            assert(subs[i].0 != subs[k].0);
        }
    }
}

/// After subscribing a registered subscriber to a topic it follows the
/// topic, and its other topics are as before; after unsubscribing it no
/// longer follows it.
pub proof fn lemma_subscribe_unsubscribe(subs: Seq<SubscriberView>, id: u64, topic: Seq<char>)
    requires
        distinct_ids(subs),
        position(subs, id) is Some,
    ensures
        topics_of(with_topics(subs, id, topics_of(subs, id).insert(topic)), id) == topics_of(
            subs,
            id,
        ).insert(topic),
        topics_of(with_topics(subs, id, topics_of(subs, id).remove(topic)), id) == topics_of(
            subs,
            id,
        ).remove(topic),
        distinct_ids(with_topics(subs, id, topics_of(subs, id).insert(topic))),
{
    let i = position(subs, id)->0;
    assert(subs[i].0 == id);
    let a = with_topics(subs, id, topics_of(subs, id).insert(topic));
    let b = with_topics(subs, id, topics_of(subs, id).remove(topic));
    assert forall|x: int, y: int| 0 <= x < y < a.len() implies a[x].0 != a[y].0 by {
        assert(a[x].0 == subs[x].0 && a[y].0 == subs[y].0);
    }
    assert forall|x: int, y: int| 0 <= x < y < b.len() implies b[x].0 != b[y].0 by {
        assert(b[x].0 == subs[x].0 && b[y].0 == subs[y].0);
    }
    lemma_position_at(a, i);
    lemma_position_at(b, i);
}

/// The recipients of a publish are exactly the subscribers that follow the
/// topic, minus the excluded one.
pub proof fn lemma_recipients_members(
    subs: Seq<SubscriberView>,
    topic: Seq<char>,
    exclude: Option<u64>,
    id: u64,
)
    requires
        distinct_ids(subs),
    ensures
        recipients(subs, topic, exclude).contains(id) <==> (topics_of(subs, id).contains(topic)
            && exclude != Some(id)),
    decreases subs.len(),
{
    if subs.len() > 0 {
        let rest = subs.drop_last();
        let last = subs.last();
        assert(distinct_ids(rest));
        lemma_recipients_members(rest, topic, exclude, id);
        let r = recipients(rest, topic, exclude);
        if last.0 == id {
            lemma_position_at(subs, subs.len() - 1);
            assert(!r.contains(id)) by {
                lemma_recipients_members(rest, topic, None, id);
                if position(rest, id) is Some {
                    let k = position(rest, id)->0;
                    assert(rest[k].0 == id);
                    assert(subs[k].0 == subs[subs.len() - 1].0);
                }
            }
            if last.1.contains(topic) && exclude != Some(last.0) {
                assert(recipients(subs, topic, exclude) == r.push(id));
                assert(r.push(id)[r.len() as int] == id);
            }
        } else {
            assert(topics_of(subs, id) == topics_of(rest, id)) by {
                if position(subs, id) is Some {
                    let k = position(subs, id)->0;
                    assert(k < subs.len() - 1);
                    assert(rest[k].0 == id);
                    lemma_position_at(rest, k);
                    assert(rest[k] == subs[k]);
                } else if position(rest, id) is Some {
                    let k = position(rest, id)->0;
                    assert(rest[k].0 == id);
                    assert(subs[k].0 == id);
                }
            }
            if last.1.contains(topic) && exclude != Some(last.0) {
                let p = r.push(last.0);
                assert(recipients(subs, topic, exclude) == p);
                if r.contains(id) {
                    let k = r.index_of(id);
                    assert(p[k] == id);
                }
                if p.contains(id) {
                    let k = p.index_of(id);
                    assert(k < r.len());
                    assert(r[k] == id);
                }
            }
        }
    }
}

/// A topic counts as active exactly when some subscriber follows it.
pub proof fn lemma_followed_topics(subs: Seq<SubscriberView>, topic: Seq<char>)
    ensures
        followed_topics(subs).contains(topic) <==> has_followers(subs, topic),
    decreases subs.len(),
{
    if subs.len() > 0 {
        let rest = subs.drop_last();
        lemma_followed_topics(rest, topic);
        if has_followers(rest, topic) {
            let j = choose|j: int| 0 <= j < rest.len() && #[trigger] rest[j].1.contains(topic);
            assert(subs[j] == rest[j]);
        }
        if has_followers(subs, topic) {
            let j = choose|j: int| 0 <= j < subs.len() && #[trigger] subs[j].1.contains(topic);
            if j < subs.len() - 1 {
                assert(rest[j] == subs[j]);
            }
        }
        if subs.last().1.contains(topic) {
            assert(subs[subs.len() - 1].1.contains(topic));
        }
    }
}

/// A removed subscriber follows nothing and receives nothing.
pub proof fn lemma_removed_receives_nothing(subs: Seq<SubscriberView>, id: u64, topic: Seq<char>)
    requires
        distinct_ids(subs),
        position(subs, id) is Some,
    ensures
        position(subs.remove(position(subs, id)->0), id) is None,
        !recipients(subs.remove(position(subs, id)->0), topic, None).contains(id),
{
    let i = position(subs, id)->0;
    let r = subs.remove(i);
    assert(subs[i].0 == id);
    assert forall|x: int, y: int| 0 <= x < y < r.len() implies r[x].0 != r[y].0 by {
        let x2 = if x < i { x } else { x + 1 };
        let y2 = if y < i { y } else { y + 1 };
        assert(r[x] == subs[x2] && r[y] == subs[y2]);
    }
    if position(r, id) is Some {
        let k = position(r, id)->0;
        assert(r[k].0 == id);
        let k2 = if k < i { k } else { k + 1 };
        assert(r[k] == subs[k2]);
        if k2 < i {
            assert(subs[k2].0 != subs[i].0);
        } else {
            assert(subs[i].0 != subs[k2].0);
        }
    }
    lemma_recipients_members(r, topic, None, id);
}

/// A publish reaches each recipient once: no id occurs twice among the
/// recipients.
pub proof fn lemma_recipients_distinct(subs: Seq<SubscriberView>, topic: Seq<char>, exclude: Option<u64>)
    requires
        distinct_ids(subs),
    ensures
        recipients(subs, topic, exclude).no_duplicates(),
    decreases subs.len(),
{
    if subs.len() > 0 {
        let rest = subs.drop_last();
        let last = subs.last();
        assert(distinct_ids(rest));
        lemma_recipients_distinct(rest, topic, exclude);
        let r = recipients(rest, topic, exclude);
        if last.1.contains(topic) && exclude != Some(last.0) {
            assert(!r.contains(last.0)) by {
                lemma_recipients_members(rest, topic, exclude, last.0);
                if position(rest, last.0) is Some {
                    let k = position(rest, last.0)->0;
                    assert(rest[k].0 == last.0);
                    assert(subs[k].0 == subs[subs.len() - 1].0);
                }
            }
            let p = r.push(last.0);
            assert forall|a: int, b: int| 0 <= a < p.len() && 0 <= b < p.len() && a != b implies p[a]
                != p[b] by {
                if a < r.len() && b < r.len() {
                    assert(p[a] == r[a] && p[b] == r[b]);
                } else if a < r.len() {
                    assert(p[a] == r[a]);
                } else if b < r.len() {
                    assert(p[b] == r[b]);
                }
            }
        }
    }
}

/// A topic has subscribers exactly when its recipient list (nobody
/// excluded) is not empty, so a publish reports subscribers exactly when it
/// reaches some.
pub proof fn lemma_followers_iff_recipients(subs: Seq<SubscriberView>, topic: Seq<char>)
    ensures
        has_followers(subs, topic) <==> recipients(subs, topic, None).len() > 0,
    decreases subs.len(),
{
    if subs.len() > 0 {
        let rest = subs.drop_last();
        lemma_followers_iff_recipients(rest, topic);
        if has_followers(rest, topic) {
            let j = choose|j: int| 0 <= j < rest.len() && #[trigger] rest[j].1.contains(topic);
            assert(subs[j] == rest[j]);
        }
        if has_followers(subs, topic) {
            let j = choose|j: int| 0 <= j < subs.len() && #[trigger] subs[j].1.contains(topic);
            if j < subs.len() - 1 {
                assert(rest[j] == subs[j]);
            }
        }
        if subs.last().1.contains(topic) {
            assert(subs[subs.len() - 1].1.contains(topic));
        }
    }
}

proof fn lemma_remove_at_count(subs: Seq<SubscriberView>, topic: Seq<char>, i: int)
    requires
        0 <= i < subs.len(),
    ensures
        recipients(subs.remove(i), topic, None).len() + (if subs[i].1.contains(topic) {
            1int
        } else {
            0int
        }) == recipients(subs, topic, None).len(),
    decreases subs.len(),
{
    if i == subs.len() - 1 {
        assert(subs.remove(i) =~= subs.drop_last());
    } else {
        let rest = subs.drop_last();
        lemma_remove_at_count(rest, topic, i);
        assert(subs.remove(i).drop_last() =~= rest.remove(i));
        assert(subs.remove(i).last() == subs.last());
        assert(rest[i] == subs[i]);
    }
}

/// Removing a registered subscriber lowers the subscriber count of a topic
/// by one when it followed the topic, and leaves it unchanged otherwise.
pub proof fn lemma_remove_lowers_topic_count(subs: Seq<SubscriberView>, id: u64, topic: Seq<char>)
    requires
        distinct_ids(subs),
        position(subs, id) is Some,
    ensures
        recipients(subs.remove(position(subs, id)->0), topic, None).len() == recipients(
            subs,
            topic,
            None,
        ).len() - (if topics_of(subs, id).contains(topic) {
            1int
        } else {
            0int
        }),
{
    lemma_remove_at_count(subs, topic, position(subs, id)->0);
}

/// Publishing while excluding a subscriber reaches every follower of the
/// topic but that one: one fewer than the topic's subscriber count when the
/// excluded subscriber follows it, the full count otherwise.
pub proof fn lemma_excluded_count(subs: Seq<SubscriberView>, topic: Seq<char>, id: u64)
    requires
        distinct_ids(subs),
    ensures
        recipients(subs, topic, Some(id)).len() == recipients(subs, topic, None).len() - (if topics_of(
            subs,
            id,
        ).contains(topic) {
            1int
        } else {
            0int
        }),
    decreases subs.len(),
{
    if subs.len() > 0 {
        let rest = subs.drop_last();
        let last = subs.last();
        assert(distinct_ids(rest));
        lemma_excluded_count(rest, topic, id);
        if last.0 == id {
            lemma_position_at(subs, subs.len() - 1);
            assert(!topics_of(rest, id).contains(topic)) by {
                if position(rest, id) is Some {
                    let k = position(rest, id)->0;
                    assert(rest[k].0 == id);
                    assert(subs[k].0 == subs[subs.len() - 1].0);
                }
            }
        } else {
            assert(topics_of(subs, id) == topics_of(rest, id)) by {
                if position(subs, id) is Some {
                    let k = position(subs, id)->0;
                    assert(k < subs.len() - 1);
                    assert(rest[k].0 == id);
                    lemma_position_at(rest, k);
                    assert(rest[k] == subs[k]);
                } else if position(rest, id) is Some {
                    let k = position(rest, id)->0;
                    assert(rest[k].0 == id);
                    assert(subs[k].0 == id);
                }
            }
        }
    }
}

/// What other subscribers do leaves a subscriber's topics alone: changing
/// the topics of another subscriber, or removing another subscriber, keeps
/// the topics of `id` (and the ids distinct).
pub proof fn lemma_others_keep_topics(
    subs: Seq<SubscriberView>,
    other: u64,
    topics: Set<Seq<char>>,
    id: u64,
)
    requires
        distinct_ids(subs),
        other != id,
    ensures
        topics_of(with_topics(subs, other, topics), id) == topics_of(subs, id),
        distinct_ids(with_topics(subs, other, topics)),
        position(subs, other) is Some ==> topics_of(subs.remove(position(subs, other)->0), id)
            == topics_of(subs, id),
        position(subs, other) is Some ==> distinct_ids(subs.remove(position(subs, other)->0)),
{
    let a = with_topics(subs, other, topics);
    assert forall|x: int, y: int| 0 <= x < y < a.len() implies a[x].0 != a[y].0 by {
        if position(subs, other) is Some {
            let k = position(subs, other)->0;
            assert(subs[k].0 == other);
        }
        assert(a[x].0 == subs[x].0 && a[y].0 == subs[y].0);
    }
    if position(subs, id) is Some {
        let k = position(subs, id)->0;
        assert(subs[k].0 == id);
        assert(a[k].0 == id);
        lemma_position_at(a, k);
        lemma_position_at(subs, k);
        if position(subs, other) is Some {
            let q = position(subs, other)->0;
            assert(subs[q].0 == other);
            assert(q != k);
        }
        assert(a[k] == subs[k]);
    } else if position(a, id) is Some {
        let k = position(a, id)->0;
        assert(a[k].0 == id);
        assert(subs[k].0 == id);
    }
    if position(subs, other) is Some {
        let q = position(subs, other)->0;
        assert(subs[q].0 == other);
        let r = subs.remove(q);
        assert forall|x: int, y: int| 0 <= x < y < r.len() implies r[x].0 != r[y].0 by {
            let x2 = if x < q { x } else { x + 1 };
            let y2 = if y < q { y } else { y + 1 };
            assert(r[x] == subs[x2] && r[y] == subs[y2]);
        }
        if position(subs, id) is Some {
            let k = position(subs, id)->0;
            assert(subs[k].0 == id);
            let k2 = if k < q { k } else { k - 1 };
            assert(k != q);
            assert(r[k2] == subs[k]);
            lemma_position_at(r, k2);
            lemma_position_at(subs, k);
        } else if position(r, id) is Some {
            let k = position(r, id)->0;
            assert(r[k].0 == id);
            let k2 = if k < q { k } else { k + 1 };
            assert(r[k] == subs[k2]);
        }
    }
}

} // verus!
