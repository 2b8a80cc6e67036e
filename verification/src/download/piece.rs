//! One piece of the content while it is assembled from blocks.

use crate::hashing::{digest_matches, sha1_digest, sha1_of};
use vstd::prelude::*;

verus! {

/// The stride of blocks within a piece, and the size of every block but
/// the last: 16 KiB.
pub const BLOCK_SIZE: usize = 16384;

/// How many blocks a piece of `length` bytes has.
pub open spec fn block_count(length: int) -> int {
    (length + BLOCK_SIZE - 1) / (BLOCK_SIZE as int)
}

/// How many bytes block `i` of a piece of `length` bytes has: the stride,
/// but for the last block, which has what is left.
pub open spec fn block_len(length: int, i: int) -> int {
    if i == block_count(length) - 1 {
        length - i * BLOCK_SIZE
    } else {
        BLOCK_SIZE as int
    }
}

/// The blocks one after another; a missing block adds nothing.
pub open spec fn joined(blocks: Seq<Option<Seq<u8>>>) -> Seq<u8>
    decreases blocks.len(),
{
    if blocks.len() == 0 {
        Seq::empty()
    } else {
        joined(blocks.drop_last()) + (match blocks.last() {
            Some(b) => b,
            None => Seq::empty(),
        })
    }
}

/// A piece as the contracts see it.
pub struct PieceView {
    pub index: usize,
    pub length: usize,
    pub hash: Seq<u8>,
    pub blocks: Seq<Option<Seq<u8>>>,
    pub requested: Seq<bool>,
    pub in_progress: bool,
}

impl PieceView {
    /// One slot and one flag for each block of the piece.
    pub open spec fn wf(self) -> bool {
        &&& self.blocks.len() == block_count(self.length as int)
        &&& self.requested.len() == self.blocks.len()
        &&& self.hash.len() == 20
    }

    /// Every slot is filled.
    pub open spec fn is_complete(self) -> bool {
        forall|i: int| 0 <= i < self.blocks.len() ==> (#[trigger] self.blocks[i]) is Some
    }

    /// Block `i` is missing and nobody has asked for it.
    pub open spec fn wanted(self, i: int) -> bool {
        0 <= i < self.blocks.len() && self.blocks[i] is None && !self.requested[i]
    }

    /// `i` is the first block that is wanted.
    pub open spec fn first_wanted(self, i: int) -> bool {
        self.wanted(i) && forall|j: int| 0 <= j < i ==> !self.wanted(j)
    }

    /// The first block at or after `i` that is wanted.
    pub open spec fn next_wanted_from(self, i: int) -> Option<int>
        decreases self.blocks.len() - i,
    {
        if i < 0 || i >= self.blocks.len() {
            None
        } else if self.wanted(i) {
            Some(i)
        } else {
            self.next_wanted_from(i + 1)
        }
    }

    /// The first block that is wanted.
    pub open spec fn next_wanted(self) -> Option<int> {
        self.next_wanted_from(0)
    }

    /// The piece's bytes are all there and hash to the expected digest.
    pub open spec fn verified(self) -> bool {
        self.is_complete() && sha1_digest(joined(self.blocks)) == self.hash
    }
}

/// A piece: its place, its length, the digest expected of it, and the
/// blocks received so far.
#[derive(Debug)]
pub struct Piece {
    index: usize,
    length: usize,
    hash: [u8; 20],
    blocks: Vec<Option<Vec<u8>>>,
    requested: Vec<bool>,
    num_blocks: usize,
    in_progress: bool,
}

impl View for Piece {
    type V = PieceView;

    closed spec fn view(&self) -> PieceView {
        PieceView {
            index: self.index,
            length: self.length,
            hash: self.hash@,
            blocks: Seq::new(
                self.blocks@.len(),
                |i: int|
                    match self.blocks@[i] {
                        Some(b) => Some(b@),
                        None => None,
                    },
            ),
            requested: self.requested@,
            in_progress: self.in_progress,
        }
    }
}

impl Piece {
    #[verifier::type_invariant]
    spec fn inv(&self) -> bool {
        &&& self.num_blocks == self.blocks@.len()
        &&& self@.wf()
    }

    /// A piece with no block received and none requested.
    pub fn new(index: usize, length: usize, hash: [u8; 20]) -> (r: Piece)
        ensures
            r@ == (PieceView {
                index,
                length,
                hash: hash@,
                blocks: Seq::new(block_count(length as int) as nat, |i: int| None),
                requested: Seq::new(block_count(length as int) as nat, |i: int| false),
                in_progress: false,
            }),
            r@.wf(),
    {
        let num_blocks = length / BLOCK_SIZE + (if length % BLOCK_SIZE != 0 {
            1
        } else {
            0
        });
        let mut blocks: Vec<Option<Vec<u8>>> = Vec::new();
        let mut requested: Vec<bool> = Vec::new();
        let mut i: usize = 0;
        while i < num_blocks
            invariant
                i <= num_blocks,
                blocks.len() == i,
                requested.len() == i,
                forall|j: int| 0 <= j < i ==> (#[trigger] blocks[j]) is None,
                forall|j: int| 0 <= j < i ==> !(#[trigger] requested[j]),
            decreases num_blocks - i,
        {
            blocks.push(None);
            requested.push(false);
            i = i + 1;
        }
        let r = Piece { index, length, hash, blocks, requested, num_blocks, in_progress: false };
        proof {
            assert(r@.blocks =~= Seq::new(block_count(length as int) as nat, |i: int| None));
            assert(r@.requested =~= Seq::new(block_count(length as int) as nat, |i: int| false));
        }
        r
    }

    /// The piece's place among the pieces.
    pub fn index(&self) -> (r: usize)
        ensures
            r == self@.index,
    {
        self.index
    }

    /// The piece's length in bytes.
    pub fn length(&self) -> (r: usize)
        ensures
            r == self@.length,
    {
        self.length
    }

    /// The digest expected of the piece's bytes.
    pub fn hash(&self) -> (r: [u8; 20])
        ensures
            r@ == self@.hash,
    {
        self.hash
    }

    /// Whether a worker has claimed the piece.
    pub fn in_progress(&self) -> (r: bool)
        ensures
            r == self@.in_progress,
    {
        self.in_progress
    }

    /// Claims or releases the piece.
    pub fn set_in_progress(&mut self, value: bool)
        ensures
            final(self)@ == (PieceView { in_progress: value, ..old(self)@ }),
            final(self)@.wf(),
    {
        proof {
            use_type_invariant(&*self);
        }
        self.in_progress = value;
    }

    /// Stores the block that begins at `begin`. An offset beyond the
    /// piece's blocks is refused and changes nothing.
    pub fn add_block(&mut self, begin: usize, data: Vec<u8>) -> (r: bool)
        ensures
            r == (begin / BLOCK_SIZE < old(self)@.blocks.len()),
            r ==> final(self)@ == (PieceView {
                blocks: old(self)@.blocks.update((begin / BLOCK_SIZE) as int, Some(data@)),
                ..old(self)@
            }),
            !r ==> final(self)@ == old(self)@,
            final(self)@.wf(),
    {
        proof {
            use_type_invariant(&*self);
        }
        let block_index = begin / BLOCK_SIZE;
        if block_index >= self.num_blocks {
            return false;
        }
        self.blocks[block_index] = Some(data);
        proof {
            assert(self@.blocks =~= old(self)@.blocks.update(block_index as int, Some(data@)));
        }
        true
    }

    /// Whether every block is there.
    pub fn is_complete(&self) -> (r: bool)
        ensures
            r == self@.is_complete(),
            self@.wf(),
    {
        proof {
            use_type_invariant(self);
        }
        let mut i: usize = 0;
        while i < self.blocks.len()
            invariant
                i <= self.blocks.len(),
                self@.wf(),
                forall|j: int| 0 <= j < i ==> (#[trigger] self@.blocks[j]) is Some,
            decreases self.blocks.len() - i,
        {
            if self.blocks[i].is_none() {
                proof {
                    assert(self@.blocks[i as int] is None);
                }
                return false;
            }
            i = i + 1;
        }
        true
    }

    /// The piece's bytes, once every block is there.
    pub fn data(&self) -> (r: Option<Vec<u8>>)
        ensures
            self@.is_complete() ==> r is Some && r->0@ == joined(self@.blocks),
            !self@.is_complete() ==> r is None,
    {
        if !self.is_complete() {
            return None;
        }
        let mut result: Vec<u8> = Vec::new();
        let mut i: usize = 0;
        proof {
            assert(self@.blocks.take(0) =~= Seq::<Option<Seq<u8>>>::empty());
        }
        while i < self.blocks.len()
            invariant
                i <= self.blocks.len(),
                self@.is_complete(),
                result@ == joined(self@.blocks.take(i as int)),
            decreases self.blocks.len() - i,
        {
            let ghost before = result@;
            proof {
                assert(self@.blocks[i as int] is Some);
                assert(self@.blocks.take(i + 1).drop_last() =~= self@.blocks.take(i as int));
            }
            match &self.blocks[i] {
                Some(block) => {
                    result.extend_from_slice(block.as_slice());
                    proof {
                        assert(result@ =~= before + block@);
                    }
                },
                None => {},
            }
            i = i + 1;
        }
        proof {
            assert(self@.blocks.take(i as int) =~= self@.blocks);
        }
        Some(result)
    }

    /// Whether the piece is complete and its bytes have the digest
    /// expected of it.
    pub fn verify(&self) -> (r: bool)
        ensures
            r == self@.verified(),
    {
        match self.data() {
            None => false,
            Some(bytes) => {
                let digest = sha1_of(bytes.as_slice());
                digest_matches(&digest, &self.hash)
            },
        }
    }

    /// The first block that is missing and was not asked for yet, as its
    /// offset and its length; the block is marked as asked for. `None`, and
    /// nothing changed, if there is no such block.
    pub fn next_block_to_request(&mut self) -> (r: Option<(usize, usize)>)
        ensures
            final(self)@.wf(),
            match r {
                Some((begin, length)) => {
                    let i = begin as int / (BLOCK_SIZE as int);
                    &&& old(self)@.first_wanted(i)
                    &&& begin == i * BLOCK_SIZE
                    &&& length == block_len(old(self)@.length as int, i)
                    &&& 1 <= length <= BLOCK_SIZE
                    &&& begin + length <= old(self)@.length
                    &&& final(self)@ == (PieceView {
                        requested: old(self)@.requested.update(i, true),
                        ..old(self)@
                    })
                },
                None => {
                    &&& forall|i: int| !old(self)@.wanted(i)
                    &&& final(self)@ == old(self)@
                },
            },
            old(self)@.next_wanted() == (match r {
                Some((begin, _)) => Some(begin as int / (BLOCK_SIZE as int)),
                None => None,
            }),
    {
        proof {
            use_type_invariant(&*self);
        }
        let mut i: usize = 0;
        while i < self.num_blocks
            invariant
                *self == *old(self),
                self.num_blocks == self.blocks@.len(),
                self@.wf(),
                i <= self.num_blocks,
                forall|j: int| 0 <= j < i ==> !self@.wanted(j),
                self@.next_wanted() == self@.next_wanted_from(i as int),
            decreases self.num_blocks - i,
        {
            if self.blocks[i].is_none() && !self.requested[i] {
                proof {
                    assert(self@.blocks[i as int] is None);
                    assert(self@.wanted(i as int));
                    law_block_length(self.length as int, i as int);
                }
                self.requested[i] = true;
                let begin = i * BLOCK_SIZE;
                let length = if i == self.num_blocks - 1 {
                    self.length - begin
                } else {
                    BLOCK_SIZE
                };
                proof {
                    assert(begin as int / (BLOCK_SIZE as int) == i);
                    assert(self@.blocks =~= old(self)@.blocks);
                }
                return Some((begin, length));
            }
            proof {
                assert(!self@.wanted(i as int));
            }
            i = i + 1;
        }
        None
    }

    /// Marks the piece as delivered: every block is replaced by an empty
    /// one, so that the piece stays complete while its bytes are let go, and
    /// the claim on it ends.
    pub fn mark_complete(&mut self)
        ensures
            final(self)@ == (PieceView {
                blocks: Seq::new(old(self)@.blocks.len(), |i: int| Some(Seq::<u8>::empty())),
                in_progress: false,
                ..old(self)@
            }),
            final(self)@.is_complete(),
            final(self)@.wf(),
    {
        proof {
            use_type_invariant(&*self);
        }
        let mut i: usize = 0;
        while i < self.num_blocks
            invariant
                self.num_blocks == self.blocks@.len(),
                self.blocks@.len() == old(self).blocks@.len(),
                self.index == old(self).index,
                self.length == old(self).length,
                self.hash == old(self).hash,
                self.requested == old(self).requested,
                self.in_progress == old(self).in_progress,
                old(self)@.wf(),
                i <= self.num_blocks,
                forall|j: int|
                    0 <= j < i ==> (#[trigger] self.blocks@[j]) is Some && self.blocks@[j]->0@
                        == Seq::<u8>::empty(),
            decreases self.num_blocks - i,
        {
            self.blocks[i] = Some(Vec::new());
            i = i + 1;
        }
        self.in_progress = false;
        proof {
            assert(self@.blocks =~= Seq::new(
                old(self)@.blocks.len(),
                |i: int| Some(Seq::<u8>::empty()),
            ));
        }
    }
}

impl Clone for Piece {
    fn clone(&self) -> (r: Piece)
        ensures
            r@ == self@,
    {
        proof {
            use_type_invariant(self);
        }
        let mut blocks: Vec<Option<Vec<u8>>> = Vec::new();
        let mut requested: Vec<bool> = Vec::new();
        let mut i: usize = 0;
        while i < self.num_blocks
            invariant
                i <= self.num_blocks,
                self.num_blocks == self.blocks@.len(),
                self.requested@.len() == self.blocks@.len(),
                blocks.len() == i,
                requested.len() == i,
                forall|j: int|
                    0 <= j < i ==> ((#[trigger] blocks[j]) is Some) == (self.blocks[j] is Some),
                forall|j: int|
                    0 <= j < i && blocks[j] is Some ==> (#[trigger] blocks[j])->0@
                        == self.blocks[j]->0@,
                forall|j: int| 0 <= j < i ==> (#[trigger] requested[j]) == self.requested[j],
            decreases self.num_blocks - i,
        {
            match &self.blocks[i] {
                Some(block) => {
                    blocks.push(Some(vstd::slice::slice_to_vec(block.as_slice())));
                },
                None => {
                    blocks.push(None);
                },
            }
            requested.push(self.requested[i]);
            i = i + 1;
        }
        let r = Piece {
            index: self.index,
            length: self.length,
            hash: self.hash,
            blocks,
            requested,
            num_blocks: self.num_blocks,
            in_progress: self.in_progress,
        };
        proof {
            assert(r@.blocks =~= self@.blocks);
            assert(r@.requested =~= self@.requested);
        }
        r
    }
}

/// Every block of a piece begins within the piece and has between one byte
/// and a full stride.
pub proof fn law_block_length(length: int, i: int)
    requires
        0 <= length,
        0 <= i < block_count(length),
    ensures
        1 <= block_len(length, i) <= BLOCK_SIZE,
        i * BLOCK_SIZE + block_len(length, i) <= length,
        i < block_count(length) - 1 ==> (i + 1) * BLOCK_SIZE < length,
{
    let n = block_count(length);
    assert(n == (length + 16383) / 16384);
    assert((n - 1) * 16384 < length <= n * 16384);
    assert(i * 16384 <= (n - 1) * 16384) by (nonlinear_arith)
        requires
            i <= n - 1,
    ;
    if i < n - 1 {
        assert((i + 1) * 16384 <= (n - 1) * 16384) by (nonlinear_arith)
            requires
                i + 1 <= n - 1,
        ;
    }
}

} // verus!
