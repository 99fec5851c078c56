//! The scheduled delivery queue: messages held until an instant, handed out earliest
//! first, and cancellable until then.
//!
//! Instants are plain numbers (milliseconds on the caller's clock). The instant at which
//! an entry was scheduled is also its handle: scheduling a second message at the same
//! instant replaces the first, as a map keyed by instant does.
use vstd::prelude::*;
use crate::codec::{Message, MessageV};

verus! {

/// Whether no two entries share a key.
pub open spec fn keys_unique<V>(s: Seq<(u64, V)>) -> bool {
    forall|i: int, j: int|
        0 <= i < s.len() && 0 <= j < s.len() && i != j ==> (#[trigger] s[i]).0 != (#[trigger] s[j]).0
}

/// The entries as a map from key to value.
pub open spec fn entries_map<V>(s: Seq<(u64, V)>) -> Map<u64, V> {
    Map::new(
        |k: u64| exists|i: int| 0 <= i < s.len() && (#[trigger] s[i]).0 == k,
        |k: u64| s[choose|i: int| 0 <= i < s.len() && (#[trigger] s[i]).0 == k].1,
    )
}

/// `k` is the least key of `m`.
pub open spec fn is_least<V>(m: Map<u64, V>, k: u64) -> bool {
    m.contains_key(k) && forall|j: u64| #[trigger] m.contains_key(j) ==> k <= j
}

/// The least key of `m`, where `m` has one.
pub open spec fn earliest<V>(m: Map<u64, V>) -> Option<u64> {
    if exists|k: u64| is_least(m, k) {
        Some(choose|k: u64| is_least(m, k))
    } else {
        None
    }
}

pub proof fn lemma_entry<V>(s: Seq<(u64, V)>, j: int)
    requires
        keys_unique(s),
        0 <= j < s.len(),
    ensures
        entries_map(s).contains_key(s[j].0),
        entries_map(s)[s[j].0] == s[j].1,
{
    let k = s[j].0;
    assert(exists|i: int| 0 <= i < s.len() && (#[trigger] s[i]).0 == k);
    let i = choose|i: int| 0 <= i < s.len() && (#[trigger] s[i]).0 == k;
    assert(i == j);
}

pub proof fn lemma_least_unique<V>(m: Map<u64, V>, k: u64)
    requires
        is_least(m, k),
    ensures
        earliest(m) == Some(k),
{
    let c = choose|c: u64| is_least(m, c);
    assert(c <= k && k <= c);
}

/// A map from keys to values, kept as a list of entries with distinct keys.
pub struct FakeHeap<V> {
    entries: Vec<(u64, V)>,
}

impl<V> View for FakeHeap<V> {
    type V = Map<u64, V>;

    closed spec fn view(&self) -> Map<u64, V> {
        entries_map(self.entries@)
    }
}

impl<V> FakeHeap<V> {
    pub closed spec fn wf(&self) -> bool {
        keys_unique(self.entries@)
    }

    pub fn new() -> (r: Self)
        ensures
            r.wf(),
            r@ == Map::<u64, V>::empty(),
    {
        let r = FakeHeap { entries: Vec::new() };
        assert(r@ =~= Map::<u64, V>::empty());
        r
    }

    fn index_of(&self, k: u64) -> (r: Option<usize>)
        requires
            self.wf(),
        ensures
            match r {
                Some(i) => i < self.entries@.len() && self.entries@[i as int].0 == k,
                None => !self@.contains_key(k),
            },
    {
        let mut i: usize = 0;
        while i < self.entries.len()
            invariant
                i <= self.entries@.len(),
                forall|j: int| 0 <= j < i ==> (#[trigger] self.entries@[j]).0 != k,
            decreases self.entries@.len() - i,
        {
            if self.entries[i].0 == k {
                return Some(i);
            }
            i = i + 1;
        }
        None
    }

    /// Sets the value of key `k`, and returns the value it had.
    pub fn insert(&mut self, k: u64, v: V) -> (r: Option<V>)
        requires
            old(self).wf(),
        ensures
            final(self).wf(),
            final(self)@ == old(self)@.insert(k, v),
            match r {
                Some(x) => old(self)@.contains_key(k) && x == old(self)@[k],
                None => !old(self)@.contains_key(k),
            },
    {
        let ghost s0 = self.entries@;
        match self.index_of(k) {
            Some(i) => {
                proof {
                    lemma_entry(s0, i as int);
                }
                let (_, x) = self.entries.remove(i);
                self.entries.push((k, v));
                let ghost s1 = self.entries@;
                assert(s1 == s0.remove(i as int).push((k, v)));
                assert(keys_unique(s1)) by {
                    assert forall|a: int, b: int|
                        0 <= a < s1.len() && 0 <= b < s1.len() && a != b implies (
                        #[trigger] s1[a]).0 != (#[trigger] s1[b]).0 by {
                        let oa = if a < i { a } else { a + 1 };
                        let ob = if b < i { b } else { b + 1 };
                        if a < s1.len() - 1 && b < s1.len() - 1 {
                            assert(s1[a] == s0[oa] && s1[b] == s0[ob]);
                        } else if a == s1.len() - 1 {
                            assert(s1[b] == s0[ob] && ob != i);
                        } else {
                            assert(s1[a] == s0[oa] && oa != i);
                        }
                    }
                }
                assert forall|key: u64| #[trigger] entries_map(s1).contains_key(key) == old(
                    self,
                )@.insert(k, v).contains_key(key) && (entries_map(s1).contains_key(key) ==>
                    entries_map(s1)[key] == old(self)@.insert(k, v)[key]) by {
                    if key == k {
                        lemma_entry(s1, s1.len() - 1);
                    } else if old(self)@.contains_key(key) {
                        let j = choose|j: int| 0 <= j < s0.len() && (#[trigger] s0[j]).0 == key;
                        lemma_entry(s0, j);
                        let nj = if j < i { j } else { j - 1 };
                        assert(s1[nj] == s0[j]);
                        lemma_entry(s1, nj);
                    } else if entries_map(s1).contains_key(key) {
                        let j = choose|j: int| 0 <= j < s1.len() && (#[trigger] s1[j]).0 == key;
                        let oj = if j < i { j } else { j + 1 };
                        assert(s1[j] == s0[oj]);
                    }
                }
                assert(entries_map(s1) =~= old(self)@.insert(k, v));
                Some(x)
            },
            None => {
                self.entries.push((k, v));
                let ghost s1 = self.entries@;
                assert(keys_unique(s1)) by {
                    assert forall|a: int, b: int|
                        0 <= a < s1.len() && 0 <= b < s1.len() && a != b implies (
                        #[trigger] s1[a]).0 != (#[trigger] s1[b]).0 by {
                        if a == s1.len() - 1 {
                            assert(s1[b] == s0[b]);
                            assert(!entries_map(s0).contains_key(k));
                        } else if b == s1.len() - 1 {
                            assert(s1[a] == s0[a]);
                            assert(!entries_map(s0).contains_key(k));
                        } else {
                            assert(s1[a] == s0[a] && s1[b] == s0[b]);
                        }
                    }
                }
                assert forall|key: u64| #[trigger] entries_map(s1).contains_key(key) == old(
                    self,
                )@.insert(k, v).contains_key(key) && (entries_map(s1).contains_key(key) ==>
                    entries_map(s1)[key] == old(self)@.insert(k, v)[key]) by {
                    if key == k {
                        lemma_entry(s1, s1.len() - 1);
                    } else if old(self)@.contains_key(key) {
                        let j = choose|j: int| 0 <= j < s0.len() && (#[trigger] s0[j]).0 == key;
                        lemma_entry(s0, j);
                        assert(s1[j] == s0[j]);
                        lemma_entry(s1, j);
                    } else if entries_map(s1).contains_key(key) {
                        let j = choose|j: int| 0 <= j < s1.len() && (#[trigger] s1[j]).0 == key;
                        assert(s1[j] == s0[j]);
                    }
                }
                assert(entries_map(s1) =~= old(self)@.insert(k, v));
                None
            },
        }
    }

    /// Takes key `k` out, and returns the value it had.
    pub fn remove(&mut self, k: u64) -> (r: Option<V>)
        requires
            old(self).wf(),
        ensures
            final(self).wf(),
            final(self)@ == old(self)@.remove(k),
            match r {
                Some(x) => old(self)@.contains_key(k) && x == old(self)@[k],
                None => !old(self)@.contains_key(k),
            },
    {
        let ghost s0 = self.entries@;
        match self.index_of(k) {
            Some(i) => {
                proof {
                    lemma_entry(s0, i as int);
                }
                let (_, x) = self.entries.remove(i);
                let ghost s1 = self.entries@;
                assert(keys_unique(s1)) by {
                    assert forall|a: int, b: int|
                        0 <= a < s1.len() && 0 <= b < s1.len() && a != b implies (
                        #[trigger] s1[a]).0 != (#[trigger] s1[b]).0 by {
                        let oa = if a < i { a } else { a + 1 };
                        let ob = if b < i { b } else { b + 1 };
                        assert(s1[a] == s0[oa] && s1[b] == s0[ob]);
                    }
                }
                assert forall|key: u64| #[trigger] entries_map(s1).contains_key(key) == old(
                    self,
                )@.remove(k).contains_key(key) && (entries_map(s1).contains_key(key) ==>
                    entries_map(s1)[key] == old(self)@.remove(k)[key]) by {
                    if key != k && old(self)@.contains_key(key) {
                        let j = choose|j: int| 0 <= j < s0.len() && (#[trigger] s0[j]).0 == key;
                        lemma_entry(s0, j);
                        let nj = if j < i { j } else { j - 1 };
                        assert(s1[nj] == s0[j]);
                        lemma_entry(s1, nj);
                    } else if entries_map(s1).contains_key(key) {
                        let j = choose|j: int| 0 <= j < s1.len() && (#[trigger] s1[j]).0 == key;
                        let oj = if j < i { j } else { j + 1 };
                        assert(s1[j] == s0[oj]);
                        assert(oj != i);
                    }
                }
                assert(entries_map(s1) =~= old(self)@.remove(k));
                Some(x)
            },
            None => {
                assert(old(self)@.remove(k) =~= old(self)@);
                None
            },
        }
    }

    /// The least key.
    pub fn peek(&self) -> (r: Option<u64>)
        requires
            self.wf(),
        ensures
            r == earliest(self@),
    {
        if self.entries.len() == 0 {
            assert forall|k: u64| !is_least(self@, k) by {}
            return None;
        }
        let mut best = self.entries[0].0;
        let mut i: usize = 1;
        while i < self.entries.len()
            invariant
                1 <= i <= self.entries@.len(),
                exists|j: int| 0 <= j < i && (#[trigger] self.entries@[j]).0 == best,
                forall|j: int| 0 <= j < i ==> best <= (#[trigger] self.entries@[j]).0,
            decreases self.entries@.len() - i,
        {
            if self.entries[i].0 < best {
                best = self.entries[i].0;
            }
            i = i + 1;
        }
        proof {
            let j = choose|j: int| 0 <= j < i && (#[trigger] self.entries@[j]).0 == best;
            lemma_entry(self.entries@, j);
            assert forall|key: u64| #[trigger] self@.contains_key(key) implies best <= key by {
                let m = choose|m: int|
                    0 <= m < self.entries@.len() && (#[trigger] self.entries@[m]).0 == key;
            }
            lemma_least_unique(self@, best);
        }
        Some(best)
    }

    /// Takes out the entry with the least key.
    pub fn pop(&mut self) -> (r: Option<(u64, V)>)
        requires
            old(self).wf(),
        ensures
            final(self).wf(),
            match earliest(old(self)@) {
                None => r is None && final(self)@ == old(self)@,
                Some(k) => r matches Some((k2, x)) && k2 == k && x == old(self)@[k]
                    && final(self)@ == old(self)@.remove(k),
            },
    {
        match self.peek() {
            None => None,
            Some(k) => {
                proof {
                    let c = choose|c: u64| is_least(self@, c);
                }
                match self.remove(k) {
                    Some(x) => Some((k, x)),
                    None => None,
                }
            },
        }
    }
}

/// Outbound messages held until their instant.
pub struct MessageQueue {
    heap: FakeHeap<Message>,
}

impl View for MessageQueue {
    type V = Map<u64, Message>;

    closed spec fn view(&self) -> Map<u64, Message> {
        self.heap@
    }
}

impl MessageQueue {
    pub closed spec fn wf(&self) -> bool {
        self.heap.wf()
    }

    /// What is held, each message by its view.
    pub open spec fn msgs(&self) -> Map<u64, MessageV> {
        self@.map_values(|m: Message| m@)
    }

    pub fn new() -> (r: Self)
        ensures
            r.wf(),
            r@ == Map::<u64, Message>::empty(),
    {
        MessageQueue { heap: FakeHeap::new() }
    }

    /// Holds `msg` until instant `at`; the handle returned is `at`.
    pub fn schedule_at(&mut self, msg: Message, at: u64) -> (r: u64)
        requires
            old(self).wf(),
        ensures
            final(self).wf(),
            final(self)@ == old(self)@.insert(at, msg),
            r == at,
    {
        self.heap.insert(at, msg);
        at
    }

    /// Sends `msg` as soon as possible: holds it until `now`.
    pub fn push(&mut self, msg: Message, now: u64) -> (r: u64)
        requires
            old(self).wf(),
        ensures
            final(self).wf(),
            final(self)@ == old(self)@.insert(now, msg),
            r == now,
    {
        self.schedule_at(msg, now)
    }

    /// Holds `msg` until `delay` after `now`.
    pub fn schedule(&mut self, msg: Message, now: u64, delay: u64) -> (r: u64)
        requires
            old(self).wf(),
            now + delay <= u64::MAX,
        ensures
            final(self).wf(),
            final(self)@ == old(self)@.insert((now + delay) as u64, msg),
            r == now + delay,
    {
        self.schedule_at(msg, now + delay)
    }

    /// Takes out the message held until `at`, where it has not been handed out yet.
    pub fn unschedule(&mut self, at: u64) -> (r: Option<Message>)
        requires
            old(self).wf(),
        ensures
            final(self).wf(),
            final(self)@ == old(self)@.remove(at),
            match r {
                Some(m) => old(self)@.contains_key(at) && m == old(self)@[at],
                None => !old(self)@.contains_key(at),
            },
    {
        self.heap.remove(at)
    }

    /// How long after `now` the timer must fire: not at all where nothing is held,
    /// at once where the earliest instant has come.
    pub fn timer_delay(&self, now: u64) -> (r: Option<u64>)
        requires
            self.wf(),
        ensures
            match earliest(self@) {
                None => r is None,
                Some(k) => r == Some(if k <= now { 0 } else { (k - now) as u64 }),
            },
    {
        match self.heap.peek() {
            None => None,
            Some(k) => if k <= now {
                Some(0)
            } else {
                Some(k - now)
            },
        }
    }

    /// What the timer's firing hands out: the earliest message, taken out of the queue.
    /// The timer is armed only while something is held, so it never fires on an empty
    /// queue.
    pub fn fire(&mut self) -> (r: Message)
        requires
            old(self).wf(),
            earliest(old(self)@) is Some,
        ensures
            final(self).wf(),
            r == old(self)@[earliest(old(self)@)->Some_0],
            final(self)@ == old(self)@.remove(earliest(old(self)@)->Some_0),
    {
        let (_, m) = self.heap.pop().unwrap();
        m
    }

    pub fn is_empty(&self) -> (r: bool)
        requires
            self.wf(),
        ensures
            r == (earliest(self@) is None),
    {
        self.heap.peek().is_none()
    }
}

/// Two entries scheduled at instants `t1 < t2`, in either order, on an empty queue give
/// the same queue; the timer hands out the one at `t1` first and the one at `t2` next;
/// cancelling `t2` before that leaves only `t1`; and once `t2` has been handed out,
/// cancelling it finds nothing.
pub proof fn law_earliest_first(a: Message, b: Message, t1: u64, t2: u64)
    requires
        t1 < t2,
    ensures
        ({
            let q = Map::<u64, Message>::empty().insert(t1, a).insert(t2, b);
            &&& q == Map::<u64, Message>::empty().insert(t2, b).insert(t1, a)
            &&& earliest(q) == Some(t1) && q[t1] == a
            &&& earliest(q.remove(t1)) == Some(t2) && q.remove(t1)[t2] == b
            &&& earliest(q.remove(t1).remove(t2)) is None
            &&& earliest(q.remove(t2)) == Some(t1) && earliest(q.remove(t2).remove(t1)) is None
            &&& !q.remove(t1).remove(t2).contains_key(t2)
        }),
{
    let e = Map::<u64, Message>::empty();
    let q = e.insert(t1, a).insert(t2, b);
    assert(q =~= e.insert(t2, b).insert(t1, a));
    lemma_least_unique(q, t1);
    lemma_least_unique(q.remove(t1), t2);
    lemma_least_unique(q.remove(t2), t1);
    assert(q.remove(t1).remove(t2) =~= e);
    assert(q.remove(t2).remove(t1) =~= e);
    assert forall|k: u64| !is_least(e, k) by {}
}

} // verus!
