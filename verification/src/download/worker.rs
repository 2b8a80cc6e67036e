//! The decisions of one peer worker. The worker's caller owns the socket
//! and the clock: it carries out each action and reports what came of it,
//! and the worker says what to do next.

use crate::download::piece::{block_count, block_len, joined, Piece, PieceView, BLOCK_SIZE};
use crate::download::pipeline::Pipeline;
use crate::download::table::{
    choice, claimed, completed, finished, released, PieceTable, PROTOCOL_LIMIT,
};
use crate::peer::connection::{ConnectionView, PeerConnection};
use crate::peer::message::{Message, MessageView};
use vstd::prelude::*;

verus! {

/// How long a peer has to accept the connection and to answer the
/// handshake, in seconds.
pub const CONNECT_TIMEOUT_SECS: u64 = 30;

/// How long to wait for a message, in milliseconds.
pub const RECEIVE_TIMEOUT_MS: u64 = 30000;

/// How long to wait for the peer to unchoke us, in milliseconds.
pub const UNCHOKE_BUDGET_MS: u64 = 30000;

/// How long to sleep when no piece can be claimed, in seconds.
pub const IDLE_SLEEP_SECS: u64 = 2;

/// Where a worker stands.
#[derive(Debug, Clone, Copy, PartialEq, Eq)]
pub enum Phase {
    /// Waiting for the peer's first message, its bitfield mostly.
    FirstMessage,
    /// Telling the peer of our interest.
    Interest,
    /// Waiting for the peer to unchoke us.
    Unchoke,
    /// No piece could be claimed; asleep.
    Idle,
    /// A block request is being sent.
    Requesting,
    /// Waiting for a message while a piece is assembled.
    Receiving,
    /// A keep-alive is being sent.
    KeepAlive,
    /// A verified piece is being handed to the storage.
    Delivering,
    /// The worker is done with this peer.
    Stopped,
}

/// What came of the action that the worker asked for.
#[derive(Debug)]
pub enum Event {
    /// The connection stands and handshakes are exchanged.
    Started,
    /// A message came in, `elapsed_ms` after it was waited for.
    Received { message: Message, elapsed_ms: u64 },
    /// The peer closed the connection.
    Closed,
    /// Reading failed, or the peer broke the protocol.
    Failed,
    /// No message came in time.
    TimedOut,
    /// The bytes were written.
    Sent,
    /// Writing failed.
    SendFailed,
    /// The sleep is over.
    Woke,
    /// The storage took the piece.
    Delivered,
    /// The storage is gone.
    DeliverFailed,
}

/// What the worker asks its caller to do.
#[derive(Debug)]
pub enum Action {
    /// Wait for a message, for at most so many milliseconds, or for as
    /// long as it takes.
    Receive { timeout_ms: Option<u64> },
    /// Write these bytes to the peer.
    Send { bytes: Vec<u8> },
    /// Sleep for so many seconds.
    Sleep { secs: u64 },
    /// Hand this verified piece to the storage.
    Deliver { index: usize, data: Vec<u8> },
    /// Give up the connection.
    Stop,
}

/// An event as the contracts see it.
pub enum EventView {
    Started,
    Received { message: MessageView, elapsed_ms: u64 },
    Closed,
    Failed,
    TimedOut,
    Sent,
    SendFailed,
    Woke,
    Delivered,
    DeliverFailed,
}

/// An action as the contracts see it.
pub enum ActionView {
    Receive { timeout_ms: Option<u64> },
    Send { bytes: Seq<u8> },
    Sleep { secs: u64 },
    Deliver { index: usize, data: Seq<u8> },
    Stop,
}

impl View for Event {
    type V = EventView;

    open spec fn view(&self) -> EventView {
        match self {
            Event::Started => EventView::Started,
            Event::Received { message, elapsed_ms } => EventView::Received {
                message: message@,
                elapsed_ms: *elapsed_ms,
            },
            Event::Closed => EventView::Closed,
            Event::Failed => EventView::Failed,
            Event::TimedOut => EventView::TimedOut,
            Event::Sent => EventView::Sent,
            Event::SendFailed => EventView::SendFailed,
            Event::Woke => EventView::Woke,
            Event::Delivered => EventView::Delivered,
            Event::DeliverFailed => EventView::DeliverFailed,
        }
    }
}

impl View for Action {
    type V = ActionView;

    open spec fn view(&self) -> ActionView {
        match self {
            Action::Receive { timeout_ms } => ActionView::Receive { timeout_ms: *timeout_ms },
            Action::Send { bytes } => ActionView::Send { bytes: bytes@ },
            Action::Sleep { secs } => ActionView::Sleep { secs: *secs },
            Action::Deliver { index, data } => ActionView::Deliver { index: *index, data: data@ },
            Action::Stop => ActionView::Stop,
        }
    }
}

/// What a worker has left to do in the table of pieces.
#[derive(Debug, Clone, Copy, PartialEq, Eq)]
pub enum Pending {
    /// Nothing.
    Nothing,
    /// To claim a piece.
    Claim,
    /// To give up the claim on a piece, and to claim another.
    Release(usize),
    /// To mark a piece as done, and to claim another.
    Complete(usize),
}

/// A worker as the contracts see it.
pub struct WorkerView {
    pub phase: Phase,
    pub piece: Option<PieceView>,
    pub pipeline: Pipeline,
    pub unchoke_budget_ms: u64,
    pub pending: Pending,
}

/// What the part of a step leads to that needs no table: the worker and
/// the connection after it, and the action asked for, or none where the
/// table is needed to go on.
pub struct LocalOutcome {
    pub worker: WorkerView,
    pub conn: ConnectionView,
    pub action: Option<ActionView>,
}

/// What a step leads to: the worker, the connection and the table after
/// it, and the action asked for.
pub struct Outcome {
    pub worker: WorkerView,
    pub conn: ConnectionView,
    pub table: Seq<PieceView>,
    pub action: ActionView,
}

/// A piece as a worker starts on it: nothing received, nothing asked for.
pub open spec fn started_piece(index: usize, length: usize, hash: Seq<u8>) -> PieceView {
    PieceView {
        index,
        length,
        hash,
        blocks: Seq::new(block_count(length as int) as nat, |k: int| None),
        requested: Seq::new(block_count(length as int) as nat, |k: int| false),
        in_progress: false,
    }
}

/// The worker gives up the connection.
pub open spec fn stop(w: WorkerView, c: ConnectionView) -> LocalOutcome {
    LocalOutcome {
        worker: WorkerView { phase: Phase::Stopped, pending: Pending::Nothing, ..w },
        conn: c,
        action: Some(ActionView::Stop),
    }
}

/// The worker waits for a message.
pub open spec fn wait(w: WorkerView, c: ConnectionView) -> LocalOutcome {
    LocalOutcome {
        worker: WorkerView { phase: Phase::Receiving, ..w },
        conn: c,
        action: Some(ActionView::Receive { timeout_ms: Some(RECEIVE_TIMEOUT_MS) }),
    }
}

/// The worker turns to the table with something to do there.
pub open spec fn defer(w: WorkerView, c: ConnectionView, pending: Pending) -> LocalOutcome {
    LocalOutcome { worker: WorkerView { pending, ..w }, conn: c, action: None }
}

/// The worker asks for the next block of its piece, if it may and if one
/// is left to ask for, and else waits for a message.
pub open spec fn ask(w: WorkerView, c: ConnectionView) -> LocalOutcome {
    let p = w.piece->0;
    if w.piece is Some && w.pipeline.may_request(c.peer_choking) && p.next_wanted() is Some {
        let i = p.next_wanted()->0;
        LocalOutcome {
            worker: WorkerView {
                phase: Phase::Requesting,
                piece: Some(PieceView { requested: p.requested.update(i, true), ..p }),
                ..w
            },
            conn: c,
            action: Some(
                ActionView::Send {
                    bytes: (MessageView::Request {
                        index: p.index as u32,
                        begin: (i * BLOCK_SIZE) as u32,
                        length: block_len(p.length as int, i) as u32,
                    }).frame(),
                },
            ),
        }
    } else {
        wait(w, c)
    }
}

/// The worker goes on with its piece: a complete piece is verified, and
/// delivered if its digest is right, or given up for another worker to try
/// if it is not; an incomplete one is asked for.
pub open spec fn pump(w: WorkerView, c: ConnectionView) -> LocalOutcome {
    let p = w.piece->0;
    if w.piece is None {
        stop(w, c)
    } else if p.is_complete() {
        if p.verified() {
            LocalOutcome {
                worker: WorkerView { phase: Phase::Delivering, ..w },
                conn: c,
                action: Some(ActionView::Deliver { index: p.index, data: joined(p.blocks) }),
            }
        } else {
            defer(WorkerView { piece: None, ..w }, c, Pending::Release(p.index))
        }
    } else {
        ask(w, c)
    }
}

/// What a message does to the piece in work and to the pipeline: a block
/// of the piece in work is stored, and counted by the pipeline if it was
/// not refused; a choke empties the pipeline; anything else changes
/// nothing.
pub open spec fn absorb(w: WorkerView, m: MessageView, elapsed_ms: u64) -> WorkerView {
    let p = w.piece->0;
    match m {
        MessageView::Piece { index, begin, data } => {
            let slot = begin as int / (BLOCK_SIZE as int);
            if w.piece is Some && index as int == p.index && slot < p.blocks.len() {
                WorkerView {
                    piece: Some(PieceView { blocks: p.blocks.update(slot, Some(data)), ..p }),
                    pipeline: w.pipeline.after_block(elapsed_ms),
                    ..w
                }
            } else {
                w
            }
        },
        MessageView::Choke => WorkerView { pipeline: w.pipeline.after_choke(), ..w },
        _ => w,
    }
}

/// What a worker does on an event, as far as it goes without the table of
/// pieces. A worker that still has something to do in the table takes no
/// event, and gives up.
pub open spec fn local_spec(w: WorkerView, c: ConnectionView, e: EventView) -> LocalOutcome {
    if w.pending != Pending::Nothing {
        stop(w, c)
    } else {
        match w.phase {
            Phase::FirstMessage => match e {
                EventView::Started => LocalOutcome {
                    worker: w,
                    conn: c,
                    action: Some(ActionView::Receive { timeout_ms: None }),
                },
                EventView::Received { .. } | EventView::Closed => LocalOutcome {
                    worker: WorkerView { phase: Phase::Interest, ..w },
                    conn: ConnectionView { am_interested: true, ..c },
                    action: Some(ActionView::Send { bytes: MessageView::Interested.frame() }),
                },
                _ => stop(w, c),
            },
            Phase::Interest => match e {
                EventView::Sent => LocalOutcome {
                    worker: WorkerView {
                        phase: Phase::Unchoke,
                        unchoke_budget_ms: UNCHOKE_BUDGET_MS,
                        ..w
                    },
                    conn: c,
                    action: Some(ActionView::Receive { timeout_ms: Some(UNCHOKE_BUDGET_MS) }),
                },
                _ => stop(w, c),
            },
            Phase::Unchoke => match e {
                EventView::Received { message, elapsed_ms } => {
                    if message is Unchoke {
                        defer(w, c, Pending::Claim)
                    } else if elapsed_ms >= w.unchoke_budget_ms {
                        stop(w, c)
                    } else {
                        let left = (w.unchoke_budget_ms - elapsed_ms) as u64;
                        LocalOutcome {
                            worker: WorkerView { unchoke_budget_ms: left, ..w },
                            conn: c,
                            action: Some(ActionView::Receive { timeout_ms: Some(left) }),
                        }
                    }
                },
                _ => stop(w, c),
            },
            Phase::Idle => match e {
                EventView::Woke => defer(w, c, Pending::Claim),
                _ => stop(w, c),
            },
            Phase::Requesting => match e {
                EventView::Sent => pump(
                    WorkerView { pipeline: w.pipeline.after_request(), ..w },
                    c,
                ),
                EventView::SendFailed => wait(w, c),
                _ => stop(w, c),
            },
            Phase::Receiving => match e {
                EventView::Received { message, elapsed_ms } => pump(
                    absorb(w, message, elapsed_ms),
                    c,
                ),
                EventView::TimedOut => LocalOutcome {
                    worker: WorkerView { phase: Phase::KeepAlive, ..w },
                    conn: c,
                    action: Some(ActionView::Send { bytes: MessageView::KeepAlive.frame() }),
                },
                _ => stop(w, c),
            },
            Phase::KeepAlive => match e {
                EventView::Sent => pump(w, c),
                _ => stop(w, c),
            },
            Phase::Delivering => match e {
                EventView::Delivered => match w.piece {
                    Some(p) => defer(
                        WorkerView { piece: None, ..w },
                        c,
                        Pending::Complete(p.index),
                    ),
                    None => stop(w, c),
                },
                _ => stop(w, c),
            },
            Phase::Stopped => stop(w, c),
        }
    }
}

/// The outcome of a step that needed no table.
pub open spec fn with_table(l: LocalOutcome, t: Seq<PieceView>) -> Outcome {
    Outcome { worker: l.worker, conn: l.conn, table: t, action: l.action->0 }
}

/// The worker claims a piece and starts on it with a fresh pipeline, or
/// sleeps where none can be claimed.
pub open spec fn seek(w: WorkerView, c: ConnectionView, t: Seq<PieceView>) -> Outcome {
    match choice(t, c) {
        Some(i) => with_table(
            ask(
                WorkerView {
                    piece: Some(started_piece(i as usize, t[i].length, t[i].hash)),
                    pipeline: Pipeline::initial(),
                    pending: Pending::Nothing,
                    ..w
                },
                c,
            ),
            claimed(t, i),
        ),
        None => Outcome {
            worker: WorkerView { phase: Phase::Idle, piece: None, pending: Pending::Nothing, ..w },
            conn: c,
            table: t,
            action: ActionView::Sleep { secs: IDLE_SLEEP_SECS },
        },
    }
}

/// What a worker does in the table: what it has left to do there, and then
/// it claims a piece. A worker with nothing to do there gives up.
pub open spec fn table_spec(w: WorkerView, c: ConnectionView, t: Seq<PieceView>) -> Outcome {
    match w.pending {
        Pending::Nothing => with_table(stop(w, c), t),
        Pending::Claim => seek(w, c, t),
        Pending::Release(i) => seek(w, c, released(t, i as int)),
        Pending::Complete(i) => seek(w, c, finished(t, i as int)),
    }
}

/// What a worker does on an event: what it does without the table, and
/// where that asks for the table, what it does there.
pub open spec fn step_spec(
    w: WorkerView,
    c: ConnectionView,
    t: Seq<PieceView>,
    e: EventView,
) -> Outcome {
    let l = local_spec(w, c, e);
    if l.action is Some {
        with_table(l, t)
    } else {
        table_spec(l.worker, l.conn, t)
    }
}

/// The state of one peer worker.
pub struct Worker {
    phase: Phase,
    piece: Option<Piece>,
    pipeline: Pipeline,
    unchoke_budget_ms: u64,
    pending: Pending,
}

impl View for Worker {
    type V = WorkerView;

    closed spec fn view(&self) -> WorkerView {
        WorkerView {
            phase: self.phase,
            piece: match self.piece {
                Some(p) => Some(p@),
                None => None,
            },
            pipeline: self.pipeline,
            unchoke_budget_ms: self.unchoke_budget_ms,
            pending: self.pending,
        }
    }
}

impl WorkerView {
    /// The piece in work is within what the protocol can speak of, and the
    /// pipeline within its range.
    pub open spec fn wf(self) -> bool {
        &&& self.pipeline.wf()
        &&& match self.piece {
            Some(p) => p.wf() && p.index <= PROTOCOL_LIMIT && 1 <= p.length <= PROTOCOL_LIMIT,
            None => true,
        }
    }
}

impl Worker {
    #[verifier::type_invariant]
    spec fn inv(&self) -> bool {
        self@.wf()
    }

    /// A worker for a connection that has just been made.
    pub fn new() -> (r: Worker)
        ensures
            r@ == (WorkerView {
                phase: Phase::FirstMessage,
                piece: None,
                pipeline: Pipeline::initial(),
                unchoke_budget_ms: UNCHOKE_BUDGET_MS,
                pending: Pending::Nothing,
            }),
            r@.wf(),
    {
        Worker {
            phase: Phase::FirstMessage,
            piece: None,
            pipeline: Pipeline::new(),
            unchoke_budget_ms: UNCHOKE_BUDGET_MS,
            pending: Pending::Nothing,
        }
    }

    /// Where the worker stands.
    pub fn phase(&self) -> (r: Phase)
        ensures
            r == self@.phase,
    {
        self.phase
    }

    /// What to do on an event. The table of pieces is used where the step
    /// needs it; a caller that shares the table with other workers, and
    /// means to lock it no longer than needed, takes the step in its two
    /// parts, `step_local` and `step_table`.
    pub fn step(&mut self, conn: &mut PeerConnection, table: &mut PieceTable, event: Event) -> (r:
        Action)
        ensures
            ({
                let o = step_spec(old(self)@, old(conn)@, old(table)@, event@);
                &&& final(self)@ == o.worker
                &&& final(conn)@ == o.conn
                &&& final(table)@ == o.table
                &&& r@ == o.action
            }),
            completed(final(table)@) >= completed(old(table)@),
    {
        proof {
            crate::download::worker_laws::law_step_progress(self@, conn@, table@, event@);
        }
        match self.step_local(conn, event) {
            Some(action) => action,
            None => self.step_table(conn, table),
        }
    }

    /// The part of a step that needs no table of pieces: what to do on an
    /// event, or `None` where the step goes on in the table, with
    /// `step_table`.
    #[verifier::rlimit(60)]
    pub fn step_local(&mut self, conn: &mut PeerConnection, event: Event) -> (r: Option<Action>)
        ensures
            ({
                let l = local_spec(old(self)@, old(conn)@, event@);
                &&& final(self)@ == l.worker
                &&& final(conn)@ == l.conn
                &&& match r {
                    Some(action) => l.action == Some(action@),
                    None => l.action is None,
                }
            }),
    {
        proof {
            use_type_invariant(&*self);
        }
        match self.pending {
            Pending::Nothing => {},
            _ => {
                return Some(self.halt());
            },
        }
        match self.phase {
            Phase::FirstMessage => match event {
                Event::Started => Some(Action::Receive { timeout_ms: None }),
                Event::Received { .. } | Event::Closed => {
                    let bytes = conn.send_interested();
                    self.phase = Phase::Interest;
                    Some(Action::Send { bytes })
                },
                _ => Some(self.halt()),
            },
            Phase::Interest => match event {
                Event::Sent => {
                    self.phase = Phase::Unchoke;
                    self.unchoke_budget_ms = UNCHOKE_BUDGET_MS;
                    Some(Action::Receive { timeout_ms: Some(UNCHOKE_BUDGET_MS) })
                },
                _ => Some(self.halt()),
            },
            Phase::Unchoke => match event {
                Event::Received { message, elapsed_ms } => {
                    let unchoked = match message {
                        Message::Unchoke => true,
                        _ => false,
                    };
                    if unchoked {
                        self.pending = Pending::Claim;
                        None
                    } else if elapsed_ms >= self.unchoke_budget_ms {
                        Some(self.halt())
                    } else {
                        let left = self.unchoke_budget_ms - elapsed_ms;
                        self.unchoke_budget_ms = left;
                        Some(Action::Receive { timeout_ms: Some(left) })
                    }
                },
                _ => Some(self.halt()),
            },
            Phase::Idle => match event {
                Event::Woke => {
                    self.pending = Pending::Claim;
                    None
                },
                _ => Some(self.halt()),
            },
            Phase::Requesting => match event {
                Event::Sent => {
                    let mut pipeline = self.pipeline;
                    pipeline.on_request();
                    self.pipeline = pipeline;
                    self.go_on(conn)
                },
                Event::SendFailed => {
                    self.phase = Phase::Receiving;
                    Some(Action::Receive { timeout_ms: Some(RECEIVE_TIMEOUT_MS) })
                },
                _ => Some(self.halt()),
            },
            Phase::Receiving => match event {
                Event::Received { message, elapsed_ms } => {
                    self.take_in(message, elapsed_ms);
                    self.go_on(conn)
                },
                Event::TimedOut => {
                    self.phase = Phase::KeepAlive;
                    Some(Action::Send { bytes: Message::KeepAlive.encode() })
                },
                _ => Some(self.halt()),
            },
            Phase::KeepAlive => match event {
                Event::Sent => self.go_on(conn),
                _ => Some(self.halt()),
            },
            Phase::Delivering => match event {
                Event::Delivered => {
                    let held = match &self.piece {
                        Some(p) => Some(p.index()),
                        None => None,
                    };
                    match held {
                        Some(index) => {
                            self.piece = None;
                            self.pending = Pending::Complete(index);
                            None
                        },
                        None => Some(self.halt()),
                    }
                },
                _ => Some(self.halt()),
            },
            Phase::Stopped => Some(self.halt()),
        }
    }

    /// The part of a step that goes on in the table of pieces: a claim is
    /// given up or a piece marked as done, as the part before left it to
    /// do, and a piece is claimed. The table is to be locked for the call,
    /// and for no longer.
    pub fn step_table(&mut self, conn: &PeerConnection, table: &mut PieceTable) -> (r: Action)
        ensures
            ({
                let o = table_spec(old(self)@, conn@, old(table)@);
                &&& final(self)@ == o.worker
                &&& final(table)@ == o.table
                &&& r@ == o.action
            }),
            completed(final(table)@) >= completed(old(table)@),
    {
        proof {
            use_type_invariant(&*self);
            crate::download::worker_laws::law_table_progress(self@, conn@, table@);
        }
        match self.pending {
            Pending::Nothing => {
                return self.halt();
            },
            Pending::Claim => {},
            Pending::Release(index) => {
                table.release(index);
            },
            Pending::Complete(index) => {
                table.mark_complete(index);
            },
        }
        self.pending = Pending::Nothing;
        match table.claim(conn) {
            Some((index, length, hash)) => {
                let piece = Piece::new(index, length, hash);
                self.piece = Some(piece);
                self.pipeline = Pipeline::new();
                match self.request_or_wait(conn) {
                    Some(action) => action,
                    None => self.halt(),
                }
            },
            None => {
                self.piece = None;
                self.phase = Phase::Idle;
                Action::Sleep { secs: IDLE_SLEEP_SECS }
            },
        }
    }

    /// Gives up the connection.
    fn halt(&mut self) -> (r: Action)
        ensures
            final(self)@ == (WorkerView {
                phase: Phase::Stopped,
                pending: Pending::Nothing,
                ..old(self)@
            }),
            r@ == ActionView::Stop,
    {
        proof {
            use_type_invariant(&*self);
        }
        self.phase = Phase::Stopped;
        self.pending = Pending::Nothing;
        Action::Stop
    }

    /// Stores a block of the piece in work, or takes note of a choke.
    fn take_in(&mut self, message: Message, elapsed_ms: u64)
        ensures
            final(self)@ == absorb(old(self)@, message@, elapsed_ms),
    {
        proof {
            use_type_invariant(&*self);
        }
        match message {
            Message::Piece { index, begin, data } => {
                let mut piece_slot: Option<Piece> = None;
                std::mem::swap(&mut self.piece, &mut piece_slot);
                let mut stored = false;
                match piece_slot {
                    Some(mut piece) => {
                        if index as usize == piece.index() {
                            stored = piece.add_block(begin as usize, data);
                        }
                        piece_slot = Some(piece);
                    },
                    None => {},
                }
                std::mem::swap(&mut self.piece, &mut piece_slot);
                if stored {
                    let mut pipeline = self.pipeline;
                    pipeline.on_block(elapsed_ms);
                    self.pipeline = pipeline;
                }
            },
            Message::Choke => {
                let mut pipeline = self.pipeline;
                pipeline.on_choke();
                self.pipeline = pipeline;
            },
            _ => {},
        }
    }

    /// Asks for the next block, or waits for a message.
    fn request_or_wait(&mut self, conn: &PeerConnection) -> (r: Option<Action>)
        ensures
            ({
                let l = ask(old(self)@, conn@);
                &&& final(self)@ == l.worker
                &&& r is Some
                &&& l.action == Some(r->0@)
            }),
    {
        proof {
            use_type_invariant(&*self);
        }
        if self.pipeline.can_request(conn.is_choking()) {
            let mut piece_slot: Option<Piece> = None;
            std::mem::swap(&mut self.piece, &mut piece_slot);
            let mut wanted: Option<(usize, usize, usize)> = None;
            match piece_slot {
                Some(mut piece) => {
                    match piece.next_block_to_request() {
                        Some((begin, length)) => {
                            wanted = Some((piece.index(), begin, length));
                        },
                        None => {},
                    }
                    piece_slot = Some(piece);
                },
                None => {},
            }
            std::mem::swap(&mut self.piece, &mut piece_slot);
            match wanted {
                Some((index, begin, length)) => {
                    match conn.request_piece(index as u32, begin as u32, length as u32) {
                        Ok(bytes) => {
                            self.phase = Phase::Requesting;
                            return Some(Action::Send { bytes });
                        },
                        Err(_) => {},
                    }
                },
                None => {},
            }
        }
        self.phase = Phase::Receiving;
        Some(Action::Receive { timeout_ms: Some(RECEIVE_TIMEOUT_MS) })
    }

    /// Goes on with the piece in work.
    fn go_on(&mut self, conn: &PeerConnection) -> (r: Option<Action>)
        requires
            old(self)@.pending == Pending::Nothing,
        ensures
            ({
                let l = pump(old(self)@, conn@);
                &&& final(self)@ == l.worker
                &&& match r {
                    Some(action) => l.action == Some(action@),
                    None => l.action is None,
                }
            }),
    {
        proof {
            use_type_invariant(&*self);
        }
        let mut verdict: Option<(usize, Option<Vec<u8>>)> = None;
        if self.piece.is_none() {
            return Some(self.halt());
        }
        match &self.piece {
            Some(piece) => {
                if piece.is_complete() {
                    if piece.verify() {
                        verdict = Some((piece.index(), piece.data()));
                    } else {
                        verdict = Some((piece.index(), None));
                    }
                }
            },
            None => {},
        }
        match verdict {
            None => self.request_or_wait(conn),
            Some((index, Some(data))) => {
                self.phase = Phase::Delivering;
                Some(Action::Deliver { index, data })
            },
            Some((index, None)) => {
                self.piece = None;
                self.pending = Pending::Release(index);
                None
            },
        }
    }
}

} // verus!
