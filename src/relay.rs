//! The relay's registry of authenticated peers and the fan-out of each
//! peer's messages to all the others.
use vstd::prelude::*;

verus! {

/// The identities among `ids` other than `from`, in registry order.
pub open spec fn others(ids: Seq<u64>, from: u64) -> Seq<u64>
    decreases ids.len(),
{
    if ids.len() == 0 {
        Seq::empty()
    } else {
        let rest = others(ids.drop_last(), from);
        if ids.last() != from {
            rest.push(ids.last())
        } else {
            rest
        }
    }
}

/// Connected peers, each with the handle of its outbound queue. A
/// connection identity appears at most once.
pub struct PeerRegistry<Q> {
    peers: Vec<(u64, Q)>,
}

impl<Q> PeerRegistry<Q> {
    /// The registered identities, in order of registration.
    pub closed spec fn ids(&self) -> Seq<u64> {
        self.peers@.map_values(|p: (u64, Q)| p.0)
    }

    pub closed spec fn queue_of(&self, id: u64) -> Q {
        self.peers@[self.ids().index_of(id)].1
    }

    pub open spec fn wf(&self) -> bool {
        self.ids().no_duplicates()
    }

    pub fn new() -> (r: PeerRegistry<Q>)
        ensures
            r.wf(),
            r.ids() == Seq::<u64>::empty(),
    {
        let r = PeerRegistry { peers: Vec::new() };
        assert(r.ids() =~= Seq::<u64>::empty());
        r
    }

    pub fn len(&self) -> (r: usize)
        ensures
            r == self.ids().len(),
    {
        self.peers.len()
    }

    /// The position of `id` in the registry, if it is there.
    fn position(&self, id: u64) -> (r: Option<usize>)
        requires
            self.wf(),
        ensures
            r is None ==> !self.ids().contains(id),
            r is Some ==> r->0 < self.ids().len() && self.ids()[r->0 as int] == id,
    {
        let mut i: usize = 0;
        while i < self.peers.len()
            invariant
                i <= self.peers@.len(),
                forall|k: int| 0 <= k < i ==> self.ids()[k] != id,
            decreases self.peers@.len() - i,
        {
            if self.peers[i].0 == id {
                return Some(i);
            }
            i = i + 1;
        }
        None
    }

    /// Whether `id` is registered.
    pub fn contains(&self, id: u64) -> (r: bool)
        requires
            self.wf(),
        ensures
            r == self.ids().contains(id),
    {
        self.position(id).is_some()
    }

    /// Registers a peer with its outbound queue. An identity that is
    /// already registered is refused and the registry stays as it was.
    pub fn register(&mut self, id: u64, queue: Q) -> (r: bool)
        requires
            old(self).wf(),
        ensures
            final(self).wf(),
            r == !old(self).ids().contains(id),
            r ==> final(self).ids() == old(self).ids().push(id) && final(self).queue_of(id) == queue,
            !r ==> final(self).ids() == old(self).ids(),
    {
        if self.position(id).is_some() {
            return false;
        }
        let ghost before = self.ids();
        self.peers.push((id, queue));
        assert(self.ids() =~= before.push(id));
        proof {
            assert(self.ids().index_of(id) == before.len()) by {
                self.ids().index_of_first(id);
                assert(self.ids()[before.len() as int] == id);
            }
        }
        true
    }

    /// Removes a peer. Gives its queue back if it was registered.
    pub fn deregister(&mut self, id: u64) -> (r: Option<Q>)
        requires
            old(self).wf(),
        ensures
            final(self).wf(),
            r is Some == old(self).ids().contains(id),
            r is Some ==> r->0 == old(self).queue_of(id) && final(self).ids().len() + 1 == old(self).ids().len(),
            r is None ==> final(self).ids() == old(self).ids(),
            forall|x: u64| final(self).ids().contains(x) <==> (old(self).ids().contains(x) && x != id),
    {
        match self.position(id) {
            None => None,
            Some(i) => {
                let ghost before = self.ids();
                proof {
                    before.index_of_first(id);
                    assert(before.index_of(id) == i) by {
                        if before.index_of(id) != i {
                            assert(before[before.index_of(id)] == id);
                        }
                    }
                }
                let (_, q) = self.peers.remove(i);
                assert(self.ids() =~= before.remove(i as int));
                proof {
                    assert forall|x: u64| self.ids().contains(x) <==> (before.contains(x) && x != id) by {
                        if self.ids().contains(x) {
                            let k = self.ids().index_of(x);
                            self.ids().index_of_first(x);
                            if k < i {
                                assert(before[k] == x);
                            } else {
                                assert(before[k + 1] == x);
                            }
                        }
                        if before.contains(x) && x != id {
                            let k = before.index_of(x);
                            before.index_of_first(x);
                            if k < i {
                                assert(self.ids()[k] == x);
                            } else {
                                assert(self.ids()[k - 1] == x);
                            }
                        }
                    }
                    assert(self.ids().no_duplicates()) by {
                        assert forall|a: int, b: int| 0 <= a < b < self.ids().len() implies self.ids()[a]
                            != self.ids()[b] by {
                            let a2 = if a < i { a } else { a + 1 };
                            let b2 = if b < i { b } else { b + 1 };
                            assert(before[a2] != before[b2]);
                        }
                    }
                }
                Some(q)
            },
        }
    }

    /// The queue of a registered peer.
    pub fn queue(&self, id: u64) -> (r: Option<&Q>)
        requires
            self.wf(),
        ensures
            r is None == !self.ids().contains(id),
            r is Some ==> *r->0 == self.queue_of(id),
    {
        match self.position(id) {
            None => None,
            Some(i) => {
                proof {
                    self.ids().index_of_first(id);
                    assert(self.ids().index_of(id) == i) by {
                        if self.ids().index_of(id) != i {
                            assert(self.ids()[self.ids().index_of(id)] == id);
                        }
                    }
                }
                Some(&self.peers[i].1)
            },
        }
    }

    /// The peers a message from `from` goes to: every registered peer but
    /// the sender, in registry order. The set is copied out so that the
    /// sending happens without the registry held.
    pub fn recipients(&self, from: u64) -> (r: Vec<u64>)
        ensures
            r@ == others(self.ids(), from),
    {
        let mut out: Vec<u64> = Vec::new();
        let mut i: usize = 0;
        while i < self.peers.len()
            invariant
                i <= self.peers@.len(),
                self.ids().len() == self.peers@.len(),
                out@ == others(self.ids().subrange(0, i as int), from),
            decreases self.peers@.len() - i,
        {
            let id = self.peers[i].0;
            proof {
                assert(self.ids().subrange(0, i + 1).drop_last() =~= self.ids().subrange(0, i as int));
                assert(self.ids()[i as int] == id);
            }
            if id != from {
                out.push(id);
            }
            i = i + 1;
        }
        assert(self.ids().subrange(0, i as int) =~= self.ids());
        out
    }
}

/// A message from `from` is never queued back to its sender, and it is
/// queued for every other peer registered when it was sent.
pub proof fn lemma_fan_out(ids: Seq<u64>, from: u64)
    ensures
        !others(ids, from).contains(from),
        forall|q: u64| others(ids, from).contains(q) <==> (ids.contains(q) && q != from),
    decreases ids.len(),
{
    if ids.len() > 0 {
        let init = ids.drop_last();
        lemma_fan_out(init, from);
        let rest = others(init, from);
        let all = others(ids, from);
        assert forall|q: u64| all.contains(q) <==> (ids.contains(q) && q != from) by {
            if all.contains(q) {
                let k = choose|k: int| 0 <= k < all.len() && all[k] == q;
                if k < rest.len() {
                    assert(rest[k] == q);
                    assert(rest.contains(q));
                    assert(init.contains(q));
                    let j = choose|j: int| 0 <= j < init.len() && init[j] == q;
                    assert(ids[j] == q);
                } else {
                    assert(q == ids.last() && ids.last() != from);
                    assert(ids[ids.len() - 1] == q);
                }
            }
            if ids.contains(q) && q != from {
                let k = choose|k: int| 0 <= k < ids.len() && ids[k] == q;
                if k < ids.len() - 1 {
                    assert(init[k] == q);
                    assert(init.contains(q));
                    assert(rest.contains(q));
                    let j = choose|j: int| 0 <= j < rest.len() && rest[j] == q;
                    assert(all[j] == q);
                } else {
                    assert(all[all.len() - 1] == q);
                }
            }
        }
    }
}

} // verus!
