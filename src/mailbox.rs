//! Per-peer FIFO queues of messages awaiting the simulation.
use std::collections::HashMap;
use std::collections::VecDeque;
use vstd::prelude::*;

verus! {

broadcast use vstd::std_specs::hash::group_hash_axioms;

/// The mailbox after `msg` is queued for `peer`; a peer without a queue
/// leaves it unchanged.
pub open spec fn after_push<T>(m: Map<u64, Seq<T>>, peer: u64, msg: T) -> Map<u64, Seq<T>> {
    if m.contains_key(peer) {
        m.insert(peer, m[peer].push(msg))
    } else {
        m
    }
}

/// The message that a pop for `peer` returns: the oldest one queued.
pub open spec fn popped<T>(m: Map<u64, Seq<T>>, peer: u64) -> Option<T> {
    if m.contains_key(peer) && m[peer].len() > 0 {
        Some(m[peer][0])
    } else {
        None
    }
}

/// The mailbox after a pop for `peer`.
pub open spec fn after_pop<T>(m: Map<u64, Seq<T>>, peer: u64) -> Map<u64, Seq<T>> {
    if m.contains_key(peer) && m[peer].len() > 0 {
        m.insert(peer, m[peer].drop_first())
    } else {
        m
    }
}

/// Queues of pending messages, one per registered peer. A message is handed
/// out at most once, and each peer's messages leave in the order they came.
pub struct Mailbox<T> {
    queues: HashMap<u64, VecDeque<T>>,
}

impl<T> View for Mailbox<T> {
    type V = Map<u64, Seq<T>>;

    closed spec fn view(&self) -> Map<u64, Seq<T>> {
        self.queues@.map_values(|q: VecDeque<T>| q@)
    }
}

impl<T> Mailbox<T> {
    /// A mailbox with no peers.
    pub fn new() -> (r: Self)
        ensures
            r@ == Map::<u64, Seq<T>>::empty(),
    {
        let r = Mailbox { queues: HashMap::new() };
        assert(r@ =~= Map::<u64, Seq<T>>::empty());
        r
    }

    /// Whether `peer` has a queue.
    pub fn contains(&self, peer: u64) -> (r: bool)
        ensures
            r == self@.contains_key(peer),
    {
        self.queues.contains_key(&peer)
    }

    /// Gives `peer` an empty queue, unless it has one; says whether it was created.
    pub fn register(&mut self, peer: u64) -> (r: bool)
        ensures
            r == !old(self)@.contains_key(peer),
            r ==> final(self)@ == old(self)@.insert(peer, Seq::<T>::empty()),
            !r ==> final(self)@ == old(self)@,
    {
        if self.queues.contains_key(&peer) {
            false
        } else {
            self.queues.insert(peer, VecDeque::new());
            assert(self@ =~= old(self)@.insert(peer, Seq::<T>::empty()));
            true
        }
    }

    /// Drops `peer`'s queue and whatever it still held.
    pub fn unregister(&mut self, peer: u64)
        ensures
            final(self)@ == old(self)@.remove(peer),
    {
        self.queues.remove(&peer);
        assert(self@ =~= old(self)@.remove(peer));
    }

    /// Queues `msg` for `peer`; says whether `peer` had a queue (if not, the
    /// message is dropped).
    pub fn push(&mut self, peer: u64, msg: T) -> (r: bool)
        ensures
            r == old(self)@.contains_key(peer),
            final(self)@ == after_push(old(self)@, peer, msg),
    {
        match self.queues.remove(&peer) {
            Some(mut q) => {
                q.push_back(msg);
                self.queues.insert(peer, q);
                assert(self@ =~= after_push(old(self)@, peer, msg));
                true
            },
            None => false,
        }
    }

    /// Takes the oldest message queued for `peer`, if any; never waits.
    pub fn pop(&mut self, peer: u64) -> (r: Option<T>)
        ensures
            r == popped(old(self)@, peer),
            final(self)@ == after_pop(old(self)@, peer),
    {
        match self.queues.remove(&peer) {
            Some(mut q) => {
                let r = q.pop_front();
                self.queues.insert(peer, q);
                if r.is_some() {
                    assert(q@ =~= old(self)@[peer].drop_first());
                    assert(self@ =~= after_pop(old(self)@, peer));
                } else {
                    assert(self@ =~= old(self)@);
                }
                r
            },
            None => None,
        }
    }

    /// How many messages wait for `peer`.
    pub fn pending(&self, peer: u64) -> (r: usize)
        ensures
            self@.contains_key(peer) ==> r == self@[peer].len(),
            !self@.contains_key(peer) ==> r == 0,
    {
        match self.queues.get(&peer) {
            Some(q) => q.len(),
            None => 0,
        }
    }
}

/// A peer's messages leave its queue in the order they were queued: after
/// three messages are pushed onto an empty queue, three pops return them in
/// that order and leave the queue empty.
pub proof fn lemma_mailbox_fifo<T>(m: Map<u64, Seq<T>>, peer: u64, m1: T, m2: T, m3: T)
    requires
        m.contains_key(peer),
        m[peer].len() == 0,
    ensures
        ({
            let full = after_push(after_push(after_push(m, peer, m1), peer, m2), peer, m3);
            let s1 = after_pop(full, peer);
            let s2 = after_pop(s1, peer);
            &&& popped(full, peer) == Some(m1)
            &&& popped(s1, peer) == Some(m2)
            &&& popped(s2, peer) == Some(m3)
            &&& after_pop(s2, peer)[peer].len() == 0
        }),
{
    let full = after_push(after_push(after_push(m, peer, m1), peer, m2), peer, m3);
    assert(full[peer] =~= seq![m1, m2, m3]);
    let s1 = after_pop(full, peer);
    assert(s1[peer] =~= seq![m2, m3]);
    let s2 = after_pop(s1, peer);
    assert(s2[peer] =~= seq![m3]);
}

} // verus!
