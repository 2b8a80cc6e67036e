//! How many block requests a worker keeps outstanding with its peer: few
//! at first, more while the peer answers fast, fewer when it is slow.

use vstd::prelude::*;

verus! {

/// The number of outstanding requests that a worker starts a piece with.
pub const INITIAL_PIPELINE: usize = 3;

/// The least number of outstanding requests aimed at.
pub const MIN_PIPELINE: usize = 1;

/// The greatest number of outstanding requests aimed at.
pub const MAX_PIPELINE: usize = 20;

/// An answer that takes less than this many milliseconds is fast.
pub const FAST_RESPONSE_MS: u64 = 500;

/// An answer that takes more than this many milliseconds is slow.
pub const SLOW_RESPONSE_MS: u64 = 2000;

/// How many fast answers in a row raise the target by one.
pub const FAST_STREAK: usize = 5;

/// The pipeline of one worker: the target, how many requests are
/// outstanding, and how many fast answers came in a row.
#[derive(Debug, Clone, Copy, PartialEq, Eq)]
pub struct Pipeline {
    pub size: usize,
    pub pending: usize,
    pub fast_streak: usize,
}

impl Pipeline {
    /// The target is within its range, and the streak is short of a raise.
    pub open spec fn wf(self) -> bool {
        &&& MIN_PIPELINE <= self.size <= MAX_PIPELINE
        &&& self.fast_streak < FAST_STREAK
        &&& self.pending <= MAX_PIPELINE
    }

    /// The pipeline at the start of a piece.
    pub open spec fn initial() -> Pipeline {
        Pipeline { size: INITIAL_PIPELINE, pending: 0, fast_streak: 0 }
    }

    /// Whether another request may be sent: the peer is not choking, and
    /// fewer requests are outstanding than aimed at.
    pub open spec fn may_request(self, choking: bool) -> bool {
        !choking && self.pending < self.size
    }

    /// The pipeline once a request has gone out: one more is outstanding.
    /// The count stops at the greatest target.
    pub open spec fn after_request(self) -> Pipeline {
        Pipeline {
            pending: if self.pending < MAX_PIPELINE {
                (self.pending + 1) as usize
            } else {
                self.pending
            },
            ..self
        }
    }

    /// The pipeline once a block has come in that took `elapsed_ms`: one
    /// request fewer is outstanding; the fifth fast answer in a row raises
    /// the target by one, up to its greatest; one slow answer halves it,
    /// down to its least. An answer that is not fast ends the row.
    pub open spec fn after_block(self, elapsed_ms: u64) -> Pipeline {
        let pending = if self.pending > 0 {
            (self.pending - 1) as usize
        } else {
            0
        };
        if elapsed_ms < FAST_RESPONSE_MS {
            if self.fast_streak + 1 >= FAST_STREAK {
                Pipeline {
                    size: if self.size < MAX_PIPELINE {
                        (self.size + 1) as usize
                    } else {
                        self.size
                    },
                    pending,
                    fast_streak: 0,
                }
            } else {
                Pipeline { size: self.size, pending, fast_streak: (self.fast_streak + 1) as usize }
            }
        } else if elapsed_ms > SLOW_RESPONSE_MS {
            Pipeline {
                size: if self.size > MIN_PIPELINE {
                    self.size / 2
                } else {
                    self.size
                },
                pending,
                fast_streak: 0,
            }
        } else {
            Pipeline { size: self.size, pending, fast_streak: 0 }
        }
    }

    /// The pipeline once the peer has choked us: nothing is outstanding
    /// any more, and the target is back at its least.
    pub open spec fn after_choke(self) -> Pipeline {
        Pipeline { size: MIN_PIPELINE, pending: 0, fast_streak: self.fast_streak }
    }

    /// The pipeline at the start of a piece.
    pub fn new() -> (r: Pipeline)
        ensures
            r == Pipeline::initial(),
            r.wf(),
    {
        Pipeline { size: INITIAL_PIPELINE, pending: 0, fast_streak: 0 }
    }

    /// Whether another request may be sent.
    pub fn can_request(&self, choking: bool) -> (r: bool)
        ensures
            r == self.may_request(choking),
    {
        !choking && self.pending < self.size
    }

    /// Takes note of a request that has gone out.
    pub fn on_request(&mut self)
        requires
            old(self).wf(),
        ensures
            *final(self) == old(self).after_request(),
            final(self).wf(),
    {
        if self.pending < MAX_PIPELINE {
            self.pending = self.pending + 1;
        }
    }

    /// Takes note of a block that has come in after `elapsed_ms`.
    pub fn on_block(&mut self, elapsed_ms: u64)
        requires
            old(self).wf(),
        ensures
            *final(self) == old(self).after_block(elapsed_ms),
            final(self).wf(),
    {
        if self.pending > 0 {
            self.pending = self.pending - 1;
        }
        if elapsed_ms < FAST_RESPONSE_MS {
            self.fast_streak = self.fast_streak + 1;
            if self.fast_streak >= FAST_STREAK {
                if self.size < MAX_PIPELINE {
                    self.size = self.size + 1;
                }
                self.fast_streak = 0;
            }
        } else {
            if elapsed_ms > SLOW_RESPONSE_MS && self.size > MIN_PIPELINE {
                self.size = self.size / 2;
            }
            self.fast_streak = 0;
        }
    }

    /// Takes note of the peer choking us.
    pub fn on_choke(&mut self)
        requires
            old(self).wf(),
        ensures
            *final(self) == old(self).after_choke(),
            final(self).wf(),
    {
        self.pending = 0;
        self.size = MIN_PIPELINE;
    }
}

/// Whatever comes in, the target stays between 1 and 20.
pub proof fn law_pipeline_range(p: Pipeline, elapsed_ms: u64)
    requires
        p.wf(),
    ensures
        p.after_block(elapsed_ms).wf(),
        p.after_choke().wf(),
        p.after_request().wf(),
{
}

} // verus!
