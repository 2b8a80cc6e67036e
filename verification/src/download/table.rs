//! The table of pieces that the workers share: which pieces are done,
//! which are claimed, and which a worker may claim next.

use crate::download::piece::{block_count, Piece, PieceView};
use crate::error::TorrentError;
use crate::peer::connection::{ConnectionView, PeerConnection};
use crate::torrent::metainfo::Metainfo;
use crate::torrent::model::{law_piece_length, MetainfoView};
use vstd::prelude::*;

verus! {

/// The most pieces, and the longest piece, that the peer protocol can
/// speak of: indices and offsets are 32-bit numbers.
pub const PROTOCOL_LIMIT: usize = 0xffff_ffff;

/// A worker with this peer may claim piece `i`: the piece is neither done
/// nor claimed, and the peer has it.
pub open spec fn claimable(t: Seq<PieceView>, peer: ConnectionView, i: int) -> bool {
    &&& 0 <= i < t.len()
    &&& !t[i].is_complete()
    &&& !t[i].in_progress
    &&& peer.has_piece(i)
}

/// The first piece at or after `i` that may be claimed.
pub open spec fn first_claimable(t: Seq<PieceView>, peer: ConnectionView, i: int) -> Option<int>
    decreases t.len() - i,
{
    if i < 0 || i >= t.len() {
        None
    } else if claimable(t, peer, i) {
        Some(i)
    } else {
        first_claimable(t, peer, i + 1)
    }
}

/// The piece that a worker claims: the first piece if it may be claimed,
/// else the last, else the first in order that may be.
pub open spec fn choice(t: Seq<PieceView>, peer: ConnectionView) -> Option<int> {
    if claimable(t, peer, 0) {
        Some(0)
    } else if t.len() > 1 && claimable(t, peer, t.len() - 1) {
        Some(t.len() - 1)
    } else {
        first_claimable(t, peer, 0)
    }
}

/// How many pieces are done.
pub open spec fn completed(t: Seq<PieceView>) -> nat
    decreases t.len(),
{
    if t.len() == 0 {
        0
    } else {
        completed(t.drop_last()) + (if t.last().is_complete() {
            1nat
        } else {
            0nat
        })
    }
}

/// Every piece is done.
pub open spec fn all_complete(t: Seq<PieceView>) -> bool {
    forall|i: int| 0 <= i < t.len() ==> (#[trigger] t[i]).is_complete()
}

/// The table with piece `i` claimed.
pub open spec fn claimed(t: Seq<PieceView>, i: int) -> Seq<PieceView> {
    t.update(i, PieceView { in_progress: true, ..t[i] })
}

/// The table with the claim on piece `i` given up.
pub open spec fn released(t: Seq<PieceView>, i: int) -> Seq<PieceView> {
    if 0 <= i < t.len() {
        t.update(i, PieceView { in_progress: false, ..t[i] })
    } else {
        t
    }
}

/// The table with piece `i` done: its slots filled with empty blocks, the
/// claim on it ended.
pub open spec fn finished(t: Seq<PieceView>, i: int) -> Seq<PieceView> {
    if 0 <= i < t.len() {
        t.update(
            i,
            PieceView {
                blocks: Seq::new(t[i].blocks.len(), |k: int| Some(Seq::<u8>::empty())),
                in_progress: false,
                ..t[i]
            },
        )
    } else {
        t
    }
}

/// The piece `i` of a torrent before anything of it has come in.
pub open spec fn fresh_piece(m: MetainfoView, i: int) -> PieceView {
    PieceView {
        index: i as usize,
        length: m.piece_len(i) as usize,
        hash: m.pieces[i],
        blocks: Seq::new(block_count(m.piece_len(i)) as nat, |k: int| None),
        requested: Seq::new(block_count(m.piece_len(i)) as nat, |k: int| false),
        in_progress: false,
    }
}

/// Every piece stands at its index, has at least one byte, and is within
/// what the protocol can speak of.
pub open spec fn table_wf(t: Seq<PieceView>) -> bool {
    &&& t.len() <= PROTOCOL_LIMIT
    &&& forall|i: int|
        0 <= i < t.len() ==> (#[trigger] t[i]).index == i && 1 <= t[i].length <= PROTOCOL_LIMIT
}

/// The protocol can speak of every piece and of every offset in one.
pub open spec fn addressable(m: MetainfoView) -> bool {
    m.pieces.len() <= PROTOCOL_LIMIT && m.piece_length <= PROTOCOL_LIMIT
}

/// Where a piece changes without a complete piece becoming incomplete, no
/// fewer pieces are done than before.
pub proof fn lemma_completed_update(t: Seq<PieceView>, i: int, p: PieceView)
    requires
        0 <= i < t.len(),
        t[i].is_complete() ==> p.is_complete(),
    ensures
        completed(t.update(i, p)) >= completed(t),
        t[i].is_complete() == p.is_complete() ==> completed(t.update(i, p)) == completed(t),
        completed(t) <= t.len(),
    decreases t.len(),
{
    let u = t.update(i, p);
    if i == t.len() - 1 {
        assert(u.drop_last() =~= t.drop_last());
        lemma_completed_bound(t.drop_last());
    } else {
        assert(u.drop_last() =~= t.drop_last().update(i, p));
        assert(u.last() == t.last());
        lemma_completed_update(t.drop_last(), i, p);
    }
}

/// No more pieces are done than there are, and as many are done as
/// there are just when every piece is done.
pub proof fn lemma_completed_bound(t: Seq<PieceView>)
    ensures
        completed(t) <= t.len(),
        completed(t) == t.len() <==> all_complete(t),
    decreases t.len(),
{
    if t.len() > 0 {
        let head = t.drop_last();
        lemma_completed_bound(head);
        if all_complete(t) {
            assert forall|i: int| 0 <= i < head.len() implies (
            #[trigger] head[i]).is_complete() by {
                assert(head[i] == t[i]);
            }
        }
        if completed(t) == t.len() {
            assert forall|i: int| 0 <= i < t.len() implies (#[trigger] t[i]).is_complete() by {
                if i < head.len() {
                    assert(head[i] == t[i]);
                }
            }
        }
    }
}

/// The first piece that may be claimed may be claimed, and where there is
/// none, no piece from `i` on may be.
pub proof fn lemma_first_claimable(t: Seq<PieceView>, peer: ConnectionView, i: int)
    requires
        0 <= i,
    ensures
        match first_claimable(t, peer, i) {
            Some(k) => i <= k && claimable(t, peer, k),
            None => forall|k: int| i <= k < t.len() ==> !claimable(t, peer, k),
        },
    decreases t.len() - i,
{
    if i < t.len() && !claimable(t, peer, i) {
        lemma_first_claimable(t, peer, i + 1);
    }
}

/// What is claimed may be claimed: the piece is not done, the peer has
/// it, and nobody holds it. So a piece that a worker holds is handed to no
/// second worker, and where nothing may be claimed, nothing is.
pub proof fn law_choice(t: Seq<PieceView>, peer: ConnectionView)
    ensures
        match choice(t, peer) {
            Some(i) => claimable(t, peer, i),
            None => forall|k: int| 0 <= k < t.len() ==> !claimable(t, peer, k),
        },
{
    lemma_first_claimable(t, peer, 0);
}

/// Two claims in a row, by whatever peers, never give the same piece.
pub proof fn law_no_double_claim(t: Seq<PieceView>, first: ConnectionView, second: ConnectionView)
    requires
        choice(t, first) is Some,
        choice(claimed(t, choice(t, first)->0), second) is Some,
    ensures
        choice(claimed(t, choice(t, first)->0), second)->0 != choice(t, first)->0,
{
    law_choice(t, first);
    law_choice(claimed(t, choice(t, first)->0), second);
}

/// The pieces of a download.
pub struct PieceTable {
    pieces: Vec<Piece>,
}

/// Pieces as the contracts see them.
pub open spec fn pieces_view(pieces: Seq<Piece>) -> Seq<PieceView> {
    Seq::new(pieces.len(), |i: int| pieces[i]@)
}

impl View for PieceTable {
    type V = Seq<PieceView>;

    closed spec fn view(&self) -> Seq<PieceView> {
        pieces_view(self.pieces@)
    }
}

impl PieceTable {
    #[verifier::type_invariant]
    spec fn inv(&self) -> bool {
        table_wf(self@)
    }

    /// The table of a torrent, with nothing done and nothing claimed. A
    /// torrent whose pieces do not cover its content exactly is refused, and
    /// so is one with more pieces, or longer pieces, than the peer protocol
    /// can speak of.
    pub fn new(metainfo: &Metainfo) -> (r: Result<PieceTable, TorrentError>)
        ensures
            match r {
                Ok(t) => {
                    &&& metainfo@.consistent()
                    &&& addressable(metainfo@)
                    &&& t@.len() == metainfo@.pieces.len()
                    &&& forall|i: int|
                        0 <= i < t@.len() ==> (#[trigger] t@[i]) == fresh_piece(metainfo@, i)
                    &&& table_wf(t@)
                },
                Err(e) => e == TorrentError::MalformedTorrent && !(metainfo@.consistent()
                    && addressable(metainfo@)),
            },
    {
        if !metainfo.has_valid_layout() {
            return Err(TorrentError::MalformedTorrent);
        }
        let num_pieces = metainfo.num_pieces();
        if num_pieces > PROTOCOL_LIMIT || metainfo.info.piece_length > PROTOCOL_LIMIT {
            return Err(TorrentError::MalformedTorrent);
        }
        let mut pieces: Vec<Piece> = Vec::new();
        let mut i: usize = 0;
        while i < num_pieces
            invariant
                i <= num_pieces,
                num_pieces == metainfo@.pieces.len(),
                num_pieces <= PROTOCOL_LIMIT,
                metainfo@.piece_length <= PROTOCOL_LIMIT,
                metainfo@.consistent(),
                pieces.len() == i,
                forall|k: int| 0 <= k < i ==> (#[trigger] pieces[k])@ == fresh_piece(metainfo@, k),
            decreases num_pieces - i,
        {
            let length = metainfo.piece_len(i);
            pieces.push(Piece::new(i, length, metainfo.info.pieces[i]));
            i = i + 1;
        }
        proof {
            assert forall|k: int| 0 <= k < pieces.len() implies (#[trigger] pieces_view(
                pieces@,
            )[k]).index == k && 1 <= pieces_view(pieces@)[k].length <= PROTOCOL_LIMIT by {
                law_piece_length(metainfo@, k);
                assert(pieces[k]@ == fresh_piece(metainfo@, k));
            }
        }
        Ok(PieceTable { pieces })
    }

    /// The number of pieces.
    pub fn len(&self) -> (r: usize)
        ensures
            r == self@.len(),
    {
        self.pieces.len()
    }

    /// Claims a piece for a worker with this peer, and gives its index,
    /// its length and the digest expected of it: the first piece before all
    /// others, then the last, then the others in order. Only a piece that
    /// is neither done nor claimed, and that the peer has, is claimed.
    pub fn claim(&mut self, peer: &PeerConnection) -> (r: Option<(usize, usize, [u8; 20])>)
        ensures
            match choice(old(self)@, peer@) {
                Some(i) => {
                    &&& r matches Some((index, length, hash))
                    &&& index == i
                    &&& length == old(self)@[i].length
                    &&& hash@ == old(self)@[i].hash
                    &&& !old(self)@[i].in_progress
                    &&& final(self)@ == claimed(old(self)@, i)
                },
                None => r is None && final(self)@ == old(self)@,
            },
            completed(final(self)@) == completed(old(self)@),
            table_wf(old(self)@),
            table_wf(final(self)@),
            r matches Some((index, length, _)) ==> index < old(self)@.len() && index
                <= PROTOCOL_LIMIT && 1 <= length <= PROTOCOL_LIMIT,
    {
        proof {
            use_type_invariant(&*self);
            law_choice(self@, peer@);
        }
        let n = self.pieces.len();
        let mut found: Option<usize> = None;
        if n > 0 && self.can_claim(peer, 0) {
            found = Some(0);
        } else if n > 1 && self.can_claim(peer, n - 1) {
            found = Some(n - 1);
        } else {
            let mut i: usize = 0;
            while i < n
                invariant_except_break
                    found is None,
                    first_claimable(self@, peer@, 0) == first_claimable(self@, peer@, i as int),
                invariant
                    i <= n,
                    n == self@.len(),
                    *self == *old(self),
                ensures
                    match found {
                        Some(k) => first_claimable(self@, peer@, 0) == Some(k as int),
                        None => first_claimable(self@, peer@, 0) is None,
                    },
                    *self == *old(self),
                decreases n - i,
            {
                if self.can_claim(peer, i) {
                    found = Some(i);
                    break;
                }
                i = i + 1;
            }
        }
        match found {
            None => None,
            Some(i) => {
                let ghost before = self@;
                let mut pieces: Vec<Piece> = Vec::new();
                std::mem::swap(&mut self.pieces, &mut pieces);
                pieces[i].set_in_progress(true);
                proof {
                    assert(pieces_view(pieces@) =~= claimed(before, i as int));
                    assert(table_wf(pieces_view(pieces@)));
                }
                std::mem::swap(&mut self.pieces, &mut pieces);
                proof {
                    assert(self@ =~= claimed(before, i as int));
                    lemma_completed_update(before, i as int, self@[i as int]);
                }
                Some((i, self.pieces[i].length(), self.pieces[i].hash()))
            },
        }
    }

    /// Whether piece `i` may be claimed for a worker with this peer.
    fn can_claim(&self, peer: &PeerConnection, i: usize) -> (r: bool)
        requires
            i < self@.len(),
        ensures
            r == claimable(self@, peer@, i as int),
    {
        !self.pieces[i].is_complete() && !self.pieces[i].in_progress() && peer.has_piece(i)
    }

    /// Gives up the claim on a piece, so that another worker can try it.
    pub fn release(&mut self, index: usize)
        ensures
            final(self)@ == released(old(self)@, index as int),
            completed(final(self)@) == completed(old(self)@),
            table_wf(final(self)@),
    {
        proof {
            use_type_invariant(&*self);
        }
        if index < self.pieces.len() {
            let ghost before = self@;
            let mut pieces: Vec<Piece> = Vec::new();
            std::mem::swap(&mut self.pieces, &mut pieces);
            pieces[index].set_in_progress(false);
            proof {
                assert(pieces_view(pieces@) =~= released(before, index as int));
                assert(table_wf(pieces_view(pieces@)));
            }
            std::mem::swap(&mut self.pieces, &mut pieces);
            proof {
                assert(self@ =~= released(before, index as int));
                lemma_completed_update(before, index as int, self@[index as int]);
            }
        }
    }

    /// Marks a piece as done, and ends the claim on it.
    pub fn mark_complete(&mut self, index: usize)
        ensures
            final(self)@ == finished(old(self)@, index as int),
            completed(final(self)@) >= completed(old(self)@),
            table_wf(final(self)@),
    {
        proof {
            use_type_invariant(&*self);
        }
        if index < self.pieces.len() {
            let ghost before = self@;
            let mut pieces: Vec<Piece> = Vec::new();
            std::mem::swap(&mut self.pieces, &mut pieces);
            pieces[index].mark_complete();
            proof {
                assert(pieces_view(pieces@) =~= finished(before, index as int));
                assert(table_wf(pieces_view(pieces@)));
            }
            std::mem::swap(&mut self.pieces, &mut pieces);
            proof {
                assert(self@ =~= finished(before, index as int));
                lemma_completed_update(before, index as int, self@[index as int]);
            }
        }
    }

    /// How many pieces are done, and how many there are.
    pub fn progress(&self) -> (r: (usize, usize))
        ensures
            r.0 == completed(self@),
            r.1 == self@.len(),
            r.0 <= r.1,
            table_wf(self@),
    {
        proof {
            use_type_invariant(self);
        }
        let mut complete: usize = 0;
        let mut i: usize = 0;
        proof {
            assert(self@.take(0) =~= Seq::<PieceView>::empty());
        }
        while i < self.pieces.len()
            invariant
                i <= self.pieces.len(),
                complete == completed(self@.take(i as int)),
                complete <= i,
            decreases self.pieces.len() - i,
        {
            proof {
                assert(self@.take(i + 1).drop_last() =~= self@.take(i as int));
                assert(self@.take(i + 1).last() == self.pieces[i as int]@);
            }
            if self.pieces[i].is_complete() {
                complete = complete + 1;
            }
            i = i + 1;
        }
        proof {
            assert(self@.take(i as int) =~= self@);
        }
        (complete, self.pieces.len())
    }

    /// Whether every piece is done.
    pub fn is_complete(&self) -> (r: bool)
        ensures
            r == all_complete(self@),
    {
        let (complete, total) = self.progress();
        proof {
            lemma_completed_bound(self@);
        }
        complete == total
    }
}

} // verus!
