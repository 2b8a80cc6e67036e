//! The peers of a download: those waiting to be dialed, first come first
//! dialed, and all that were ever heard of, so that a peer the tracker
//! names again is not queued again.

use crate::tracker::response::PeerAddr;
use std::collections::{HashSet, VecDeque};
use vstd::prelude::*;

verus! {

/// An endpoint as one number, different for different endpoints.
pub open spec fn addr_key(p: PeerAddr) -> u64 {
    ((p.ip[0] * 0x100_0000 + p.ip[1] * 0x1_0000 + p.ip[2] * 0x100 + p.ip[3]) * 0x1_0000
        + p.port) as u64
}

/// The queue and the known peers once `peers` have been heard of, one
/// after another: each that was not known is queued and known from then on.
pub open spec fn merged(queue: Seq<PeerAddr>, known: Set<u64>, peers: Seq<PeerAddr>) -> (
    Seq<PeerAddr>,
    Set<u64>,
)
    decreases peers.len(),
{
    if peers.len() == 0 {
        (queue, known)
    } else {
        let (q, k) = merged(queue, known, peers.drop_last());
        let p = peers.last();
        if k.contains(addr_key(p)) {
            (q, k)
        } else {
            (q.push(p), k.insert(addr_key(p)))
        }
    }
}

/// The known peers once `peers` have all been taken note of.
pub open spec fn noted(known: Set<u64>, peers: Seq<PeerAddr>) -> Set<u64>
    decreases peers.len(),
{
    if peers.len() == 0 {
        known
    } else {
        noted(known, peers.drop_last()).insert(addr_key(peers.last()))
    }
}

/// The peers of a download as the contracts see them.
pub struct PeerBookView {
    pub queue: Seq<PeerAddr>,
    pub known: Set<u64>,
    pub total_known: usize,
}

/// The peers of a download.
pub struct PeerBook {
    queue: VecDeque<PeerAddr>,
    known: HashSet<u64>,
    total_known: usize,
}

impl View for PeerBook {
    type V = PeerBookView;

    closed spec fn view(&self) -> PeerBookView {
        PeerBookView { queue: self.queue@, known: self.known@, total_known: self.total_known }
    }
}

/// A count raised by `by`, up to the greatest that a machine word holds.
pub open spec fn raised(count: usize, by: int) -> usize {
    if count + by > usize::MAX {
        usize::MAX
    } else {
        (count + by) as usize
    }
}

impl PeerBook {
    /// The peers that a download starts with: all of them are queued in
    /// their order, and known.
    pub fn new(initial_peers: &Vec<PeerAddr>) -> (r: PeerBook)
        ensures
            r@ == (PeerBookView {
                queue: initial_peers@,
                known: noted(Set::empty(), initial_peers@),
                total_known: initial_peers.len(),
            }),
    {
        let mut queue: VecDeque<PeerAddr> = VecDeque::new();
        let mut known: HashSet<u64> = HashSet::new();
        let mut i: usize = 0;
        proof {
            assert(initial_peers@.take(0) =~= Seq::<PeerAddr>::empty());
        }
        while i < initial_peers.len()
            invariant
                i <= initial_peers.len(),
                queue@ == initial_peers@.take(i as int),
                known@ == noted(Set::empty(), initial_peers@.take(i as int)),
            decreases initial_peers.len() - i,
        {
            let peer = initial_peers[i];
            proof {
                assert(initial_peers@.take(i + 1).drop_last() =~= initial_peers@.take(i as int));
                assert(initial_peers@.take(i + 1) =~= initial_peers@.take(i as int).push(peer));
            }
            known.insert(peer.key());
            queue.push_back(peer);
            i = i + 1;
        }
        proof {
            assert(initial_peers@.take(i as int) =~= initial_peers@);
        }
        PeerBook { queue, known, total_known: initial_peers.len() }
    }

    /// Takes note of the peers that a tracker named: each that was not
    /// known is queued, and the count of known peers grows by their number,
    /// which is returned.
    pub fn merge(&mut self, peers: &Vec<PeerAddr>) -> (r: usize)
        ensures
            final(self)@.queue == merged(old(self)@.queue, old(self)@.known, peers@).0,
            final(self)@.known == merged(old(self)@.queue, old(self)@.known, peers@).1,
            r == final(self)@.queue.len() - old(self)@.queue.len(),
            final(self)@.total_known == raised(old(self)@.total_known, r as int),
    {
        let mut new_count: usize = 0;
        let mut i: usize = 0;
        proof {
            assert(peers@.take(0) =~= Seq::<PeerAddr>::empty());
        }
        while i < peers.len()
            invariant
                i <= peers.len(),
                new_count <= i,
                self.total_known == old(self).total_known,
                self.queue@ == merged(old(self)@.queue, old(self)@.known, peers@.take(i as int)).0,
                self.known@ == merged(old(self)@.queue, old(self)@.known, peers@.take(i as int)).1,
                new_count == self.queue@.len() - old(self)@.queue.len(),
            decreases peers.len() - i,
        {
            let peer = peers[i];
            proof {
                assert(peers@.take(i + 1).drop_last() =~= peers@.take(i as int));
                assert(peers@.take(i + 1).last() == peer);
            }
            if self.known.insert(peer.key()) {
                self.queue.push_back(peer);
                new_count = new_count + 1;
            }
            i = i + 1;
        }
        proof {
            assert(peers@.take(i as int) =~= peers@);
        }
        self.total_known = if new_count > usize::MAX - self.total_known {
            usize::MAX
        } else {
            self.total_known + new_count
        };
        new_count
    }

    /// Takes the peer that has waited longest off the queue.
    pub fn pop(&mut self) -> (r: Option<PeerAddr>)
        ensures
            match r {
                Some(p) => {
                    &&& old(self)@.queue.len() > 0
                    &&& p == old(self)@.queue[0]
                    &&& final(self)@ == (PeerBookView {
                        queue: old(self)@.queue.skip(1),
                        ..old(self)@
                    })
                },
                None => old(self)@.queue.len() == 0 && final(self)@ == old(self)@,
            },
    {
        let r = self.queue.pop_front();
        proof {
            if r is Some {
                assert(self.queue@ =~= old(self)@.queue.skip(1));
            }
        }
        r
    }

    /// Puts a peer at the end of the queue, to be dialed again.
    pub fn requeue(&mut self, peer: PeerAddr)
        ensures
            final(self)@ == (PeerBookView { queue: old(self)@.queue.push(peer), ..old(self)@ }),
    {
        self.queue.push_back(peer);
    }

    /// How many peers were ever heard of.
    pub fn total_known(&self) -> (r: usize)
        ensures
            r == self@.total_known,
    {
        self.total_known
    }

    /// How many peers wait to be dialed.
    pub fn queued(&self) -> (r: usize)
        ensures
            r == self@.queue.len(),
    {
        self.queue.len()
    }
}

/// A peer that is known is never queued by a merge: what the tracker names
/// again is not dialed twice on that account.
pub proof fn law_merge_skips_known(queue: Seq<PeerAddr>, known: Set<u64>, peers: Seq<PeerAddr>)
    ensures
        known.subset_of(merged(queue, known, peers).1),
        merged(queue, known, peers).0.len() >= queue.len(),
        merged(queue, known, peers).0.take(queue.len() as int) == queue,
        forall|i: int|
            queue.len() <= i < merged(queue, known, peers).0.len() ==> !known.contains(
                addr_key(#[trigger] merged(queue, known, peers).0[i]),
            ),
        forall|i: int|
            0 <= i < peers.len() ==> merged(queue, known, peers).1.contains(
                addr_key(#[trigger] peers[i]),
            ),
    decreases peers.len(),
{
    if peers.len() == 0 {
        assert(queue.take(queue.len() as int) =~= queue);
    } else {
        let head = peers.drop_last();
        law_merge_skips_known(queue, known, head);
        let (q, k) = merged(queue, known, head);
        let r = merged(queue, known, peers);
        assert(r.0.take(queue.len() as int) =~= q.take(queue.len() as int));
        assert forall|i: int| 0 <= i < peers.len() implies r.1.contains(
            addr_key(#[trigger] peers[i]),
        ) by {
            if i < head.len() {
                assert(head[i] == peers[i]);
            }
        }
    }
}

} // verus!
