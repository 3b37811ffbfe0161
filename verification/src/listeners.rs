//! The listener table: how often each event is listened to on each node.

use vstd::prelude::*;
use crate::assoc::{as_map, key_index, lemma_absent, lemma_lookup, lemma_push, lemma_remove, lemma_update, unique_keys};
use crate::text::str_eq;

verus! {

/// The key of a record: node id, event name, and whether the listener bubbles.
pub type ListenerKey = (u32, Seq<char>, bool);

/// How often `key` is retained in `m`.
pub open spec fn count_in(m: Map<ListenerKey, nat>, key: ListenerKey) -> nat {
    if m.contains_key(key) {
        m[key]
    } else {
        0
    }
}

/// Whether `m` holds any record of `node`.
pub open spec fn listening(m: Map<ListenerKey, nat>, node: u32) -> bool {
    exists|k: ListenerKey| #[trigger] m.contains_key(k) && k.0 == node
}

/// `m` after one more retention of `key`.
pub open spec fn retained(m: Map<ListenerKey, nat>, key: ListenerKey) -> Map<ListenerKey, nat> {
    m.insert(key, count_in(m, key) + 1)
}

/// `m` after one release of `key`: the count goes down by one, and the record
/// goes with the last retention. Where there is no record, nothing changes.
pub open spec fn released(m: Map<ListenerKey, nat>, key: ListenerKey) -> Map<ListenerKey, nat> {
    if !m.contains_key(key) {
        m
    } else if m[key] <= 1 {
        m.remove(key)
    } else {
        m.insert(key, (m[key] - 1) as nat)
    }
}

/// The keys of the records of `node` that do not bubble.
pub open spec fn non_bubbling_of(node: u32) -> Set<ListenerKey> {
    Set::new(|k: ListenerKey| k.0 == node && !k.2)
}

/// `m` without the records of `node` that do not bubble.
pub open spec fn purged(m: Map<ListenerKey, nat>, node: u32) -> Map<ListenerKey, nat> {
    m.remove_keys(non_bubbling_of(node))
}

/// The names in `v`, as strings of characters.
pub open spec fn names_of(v: Seq<String>) -> Seq<Seq<char>> {
    Seq::new(v.len(), |i: int| v[i]@)
}

/// What is in a list with one more entry.
pub proof fn lemma_push_contains<A>(s: Seq<A>, x: A, y: A)
    ensures
        s.push(x).contains(y) <==> (s.contains(y) || y == x),
{
    let t = s.push(x);
    if s.contains(y) {
        let j = choose|j: int| 0 <= j < s.len() && s[j] == y;
        assert(t[j] == y);
    }
    if y == x {
        assert(t[s.len() as int] == y);
    }
    if t.contains(y) {
        let j = choose|j: int| 0 <= j < t.len() && t[j] == y;
        if j < s.len() {
            assert(s[j] == y);
        }
    }
}

/// A list without doubles stays one with an entry that it did not hold.
pub proof fn lemma_push_distinct<A>(s: Seq<A>, x: A)
    requires
        s.no_duplicates(),
        !s.contains(x),
    ensures
        s.push(x).no_duplicates(),
{
    let t = s.push(x);
    assert forall|i: int, j: int| 0 <= i < t.len() && 0 <= j < t.len() && i != j implies t[i]
        != t[j] by {
        if i < s.len() && j < s.len() {
            assert(s[i] != s[j]);
        } else if i < s.len() {
            assert(s[i] != x);
        } else {
            assert(s[j] != x);
        }
    }
}

pub struct ListenerRecord {
    pub node: u32,
    pub event: String,
    pub bubbles: bool,
    pub count: u64,
}

/// What a retention was the first of.
#[derive(Clone, Copy, Debug, PartialEq, Eq, Structural)]
pub struct Retained {
    /// No record of the node existed: the node needs its marker.
    pub first_for_node: bool,
    /// No record of the key existed: the platform handler has to be installed.
    pub first_for_event: bool,
}

/// What a release was the last of.
#[derive(Clone, Copy, Debug, PartialEq, Eq, Structural)]
pub struct Released {
    /// The record went: the platform handler has to be taken away.
    pub last_for_event: bool,
    /// The record went and no record of the node is left: the marker goes too.
    pub last_for_node: bool,
}

/// The records, one for each key that is retained at least once.
pub struct ListenerTable {
    pub records: Vec<ListenerRecord>,
}

impl View for ListenerTable {
    type V = Map<ListenerKey, nat>;

    open spec fn view(&self) -> Map<ListenerKey, nat> {
        as_map(self.pairs())
    }
}

impl ListenerTable {
    pub open spec fn pairs(&self) -> Seq<(ListenerKey, nat)> {
        Seq::new(
            self.records@.len(),
            |i: int|
                (
                    (self.records@[i].node, self.records@[i].event@, self.records@[i].bubbles),
                    self.records@[i].count as nat,
                ),
        )
    }

    /// No key has two records, and no record has a count of zero.
    pub open spec fn wf(&self) -> bool {
        &&& unique_keys(self.pairs())
        &&& forall|i: int| 0 <= i < self.records@.len() ==> (#[trigger] self.records@[i]).count >= 1
    }

    pub fn new() -> (t: Self)
        ensures
            t.wf(),
            t@ == Map::<ListenerKey, nat>::empty(),
    {
        let t = ListenerTable { records: Vec::new() };
        assert(t@ =~= Map::<ListenerKey, nat>::empty());
        t
    }

    fn find(&self, node: u32, event: &str, bubbles: bool) -> (r: Option<usize>)
        ensures
            match r {
                Some(i) => i < self.records@.len() && self.pairs()[i as int].0 == (
                    node,
                    event@,
                    bubbles,
                ),
                None => forall|i: int|
                    0 <= i < self.pairs().len() ==> (#[trigger] self.pairs()[i]).0 != (
                        node,
                        event@,
                        bubbles,
                    ),
            },
    {
        let mut i: usize = 0;
        while i < self.records.len()
            invariant
                i <= self.records@.len(),
                forall|j: int|
                    0 <= j < i ==> (#[trigger] self.pairs()[j]).0 != (node, event@, bubbles),
            decreases self.records@.len() - i,
        {
            let r = &self.records[i];
            if r.node == node && r.bubbles == bubbles && str_eq(r.event.as_str(), event) {
                return Some(i);
            }
            i += 1;
        }
        None
    }

    /// How often the key is retained.
    pub fn count(&self, node: u32, event: &str, bubbles: bool) -> (n: u64)
        requires
            self.wf(),
        ensures
            n == count_in(self@, (node, event@, bubbles)),
    {
        match self.find(node, event, bubbles) {
            Some(i) => {
                proof {
                    lemma_lookup(self.pairs(), i as int);
                }
                self.records[i].count
            },
            None => {
                proof {
                    lemma_absent(self.pairs(), (node, event@, bubbles));
                }
                0
            },
        }
    }

    /// Whether any event is listened to on `node`.
    pub fn is_listening(&self, node: u32) -> (b: bool)
        requires
            self.wf(),
        ensures
            b == listening(self@, node),
    {
        let mut i: usize = 0;
        while i < self.records.len()
            invariant
                i <= self.records@.len(),
                self.wf(),
                forall|j: int| 0 <= j < i ==> (#[trigger] self.pairs()[j]).0.0 != node,
            decreases self.records@.len() - i,
        {
            if self.records[i].node == node {
                proof {
                    lemma_lookup(self.pairs(), i as int);
                }
                return true;
            }
            i += 1;
        }
        proof {
            if listening(self@, node) {
                let k = choose|k: ListenerKey| #[trigger] self@.contains_key(k) && k.0 == node;
                let j = key_index(self.pairs(), k);
                assert(self.pairs()[j].0 == k);
            }
        }
        false
    }

    /// Counts one more listener for the key.
    pub fn retain(&mut self, node: u32, event: &str, bubbles: bool) -> (r: Retained)
        requires
            old(self).wf(),
            count_in(old(self)@, (node, event@, bubbles)) < u64::MAX,
        ensures
            final(self).wf(),
            final(self)@ == retained(old(self)@, (node, event@, bubbles)),
            r.first_for_node == !listening(old(self)@, node),
            r.first_for_event == !old(self)@.contains_key((node, event@, bubbles)),
    {
        let first_for_node = !self.is_listening(node);
        let ghost key = (node, event@, bubbles);
        let ghost before = self.pairs();
        match self.find(node, event, bubbles) {
            Some(i) => {
                proof {
                    lemma_lookup(before, i as int);
                    lemma_update(before, i as int, (self.records@[i as int].count + 1) as nat);
                }
                let c = self.records[i].count;
                self.records[i].count = c + 1;
                assert(self.pairs() =~= before.update(i as int, (key, (c + 1) as nat)));
                Retained { first_for_node, first_for_event: false }
            },
            None => {
                proof {
                    lemma_absent(before, key);
                    lemma_push(before, key, 1nat);
                }
                self.records.push(
                    ListenerRecord { node, event: event.to_owned(), bubbles, count: 1 },
                );
                assert(self.pairs() =~= before.push((key, 1nat)));
                Retained { first_for_node, first_for_event: true }
            },
        }
    }

    /// Counts one listener less for the key. A key without a record is left
    /// alone: releasing it is not an error and changes nothing.
    pub fn release(&mut self, node: u32, event: &str, bubbles: bool) -> (r: Released)
        requires
            old(self).wf(),
        ensures
            final(self).wf(),
            final(self)@ == released(old(self)@, (node, event@, bubbles)),
            r.last_for_event == (count_in(old(self)@, (node, event@, bubbles)) == 1),
            r.last_for_node == (r.last_for_event && !listening(final(self)@, node)),
    {
        let ghost key = (node, event@, bubbles);
        let ghost before = self.pairs();
        match self.find(node, event, bubbles) {
            Some(i) => {
                proof {
                    lemma_lookup(before, i as int);
                }
                let c = self.records[i].count;
                if c <= 1 {
                    proof {
                        lemma_remove(before, i as int);
                    }
                    let _ = self.records.remove(i);
                    assert(self.pairs() =~= before.remove(i as int));
                    let last_for_node = !self.is_listening(node);
                    Released { last_for_event: true, last_for_node }
                } else {
                    proof {
                        lemma_update(before, i as int, (c - 1) as nat);
                    }
                    self.records[i].count = c - 1;
                    assert(self.pairs() =~= before.update(i as int, (key, (c - 1) as nat)));
                    Released { last_for_event: false, last_for_node: false }
                }
            },
            None => {
                proof {
                    lemma_absent(before, key);
                }
                Released { last_for_event: false, last_for_node: false }
            },
        }
    }

    /// Drops every record of `node` that does not bubble, whatever its count,
    /// and returns the events of the records dropped, each once: the events
    /// whose handlers on the node have to go with the records.
    pub fn purge_non_bubbling(&mut self, node: u32) -> (events: Vec<String>)
        requires
            old(self).wf(),
        ensures
            final(self).wf(),
            final(self)@ == purged(old(self)@, node),
            forall|e: Seq<char>|
                #[trigger] names_of(events@).contains(e) <==> old(self)@.contains_key(
                    (node, e, false),
                ),
            names_of(events@).no_duplicates(),
    {
        let mut events: Vec<String> = Vec::new();
        let mut i: usize = 0;
        proof {
            assert forall|e: Seq<char>| !(#[trigger] names_of(events@).contains(e)) by {
                if names_of(events@).contains(e) {
                    let j = choose|j: int|
                        0 <= j < names_of(events@).len() && names_of(events@)[j] == e;
                }
            }
        }
        while i < self.records.len()
            invariant
                i <= self.records@.len(),
                self.wf(),
                purged(self@, node) == purged(old(self)@, node),
                forall|j: int|
                    0 <= j < i ==> !non_bubbling_of(node).contains((#[trigger] self.pairs()[j]).0),
                forall|e: Seq<char>|
                    #[trigger] old(self)@.contains_key((node, e, false)) ==> self@.contains_key(
                        (node, e, false),
                    ) || names_of(events@).contains(e),
                forall|e: Seq<char>|
                    #[trigger] self@.contains_key((node, e, false)) ==> old(self)@.contains_key(
                        (node, e, false),
                    ),
                forall|e: Seq<char>|
                    #[trigger] names_of(events@).contains(e) ==> old(self)@.contains_key(
                        (node, e, false),
                    ) && !self@.contains_key((node, e, false)),
                names_of(events@).no_duplicates(),
            decreases self.records@.len() - i,
        {
            if self.records[i].node == node && !self.records[i].bubbles {
                let ghost before = self.pairs();
                let ghost m = self@;
                let ghost names = names_of(events@);
                proof {
                    lemma_lookup(before, i as int);
                    lemma_remove(before, i as int);
                }
                let gone = self.records.remove(i);
                assert(self.pairs() =~= before.remove(i as int));
                assert(purged(self@, node) =~= purged(m, node));
                let ghost e0 = gone.event@;
                events.push(gone.event);
                proof {
                    assert(names_of(events@) =~= names.push(e0));
                    assert(m.contains_key((node, e0, false)));
                    assert(self@ == m.remove((node, e0, false)));
                    assert(!names.contains(e0));
                    assert forall|e: Seq<char>| #[trigger]
                        names.push(e0).contains(e) <==> (names.contains(e) || e == e0) by {
                        lemma_push_contains(names, e0, e);
                    }
                    lemma_push_distinct(names, e0);
                    assert forall|e: Seq<char>| #[trigger]
                        old(self)@.contains_key((node, e, false)) implies self@.contains_key(
                        (node, e, false),
                    ) || names_of(events@).contains(e) by {
                        lemma_push_contains(names, e0, e);
                        assert(m.contains_key((node, e, false)) || names.contains(e));
                    }
                    assert forall|e: Seq<char>| #[trigger]
                        self@.contains_key((node, e, false)) implies old(self)@.contains_key(
                        (node, e, false),
                    ) by {
                        assert(m.contains_key((node, e, false)));
                    }
                    assert forall|e: Seq<char>| #[trigger]
                        names_of(events@).contains(e) implies old(self)@.contains_key(
                        (node, e, false),
                    ) && !self@.contains_key((node, e, false)) by {
                        lemma_push_contains(names, e0, e);
                        if names.contains(e) {
                            assert(!m.contains_key((node, e, false)));
                        }
                    }
                }
            } else {
                i += 1;
            }
        }
        proof {
            assert forall|k: ListenerKey| self@.contains_key(k) implies !non_bubbling_of(
                node,
            ).contains(k) by {
                let j = key_index(self.pairs(), k);
                assert(self.pairs()[j].0 == k);
            }
            assert(purged(self@, node) =~= self@);
            assert forall|e: Seq<char>| #[trigger]
                names_of(events@).contains(e) <==> old(self)@.contains_key(
                    (node, e, false),
                ) by {
                if self@.contains_key((node, e, false)) {
                    assert(non_bubbling_of(node).contains((node, e, false)));
                }
            }
        }
        events
    }
}

} // verus!
