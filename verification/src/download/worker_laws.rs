//! What holds of the workers of a download, whatever they do and in
//! whatever order they take their steps.

use crate::download::piece::PieceView;
use crate::download::table::{
    choice, claimed, completed, finished, law_choice, lemma_completed_update, released, table_wf,
};
use crate::download::worker::{
    absorb, ask, local_spec, pump, seek, step_spec, table_spec, ActionView, EventView, Pending,
    Phase, WorkerView,
};
use crate::hashing::sha1_digest;
use crate::peer::connection::ConnectionView;
use vstd::prelude::*;

verus! {

/// The piece on which a worker has a claim: the piece in work, or the
/// piece whose claim it has left to give up or to mark as done.
pub open spec fn claim_of(w: WorkerView) -> Option<usize> {
    match w.piece {
        Some(p) => Some(p.index),
        None => match w.pending {
            Pending::Release(i) => Some(i),
            Pending::Complete(i) => Some(i),
            _ => None,
        },
    }
}

/// The piece on which the worker has a claim is one of the table's, and
/// the table has it as claimed; the piece in work has the digest that the
/// table expects of it, and nothing is left to do for another piece.
pub open spec fn holds(w: WorkerView, t: Seq<PieceView>) -> bool {
    &&& match claim_of(w) {
        Some(i) => i < t.len() && t[i as int].in_progress,
        None => true,
    }
    &&& match w.piece {
        Some(p) => t[p.index as int].hash == p.hash && !(w.pending is Release) && !(w.pending
            is Complete),
        None => true,
    }
}

/// Two workers have no claim on the same piece.
pub open spec fn apart(a: WorkerView, b: WorkerView) -> bool {
    claim_of(a) is Some && claim_of(b) is Some ==> claim_of(a)->0 != claim_of(b)->0
}

/// Asking for a block changes nothing in what the worker has a claim on.
pub proof fn lemma_ask(w: WorkerView, c: ConnectionView, t: Seq<PieceView>, other: WorkerView)
    requires
        holds(w, t),
        apart(w, other),
    ensures
        holds(ask(w, c).worker, t),
        apart(ask(w, c).worker, other),
        ask(w, c).action is Some,
        !(ask(w, c).action->0 is Deliver),
{
}

/// Going on with a piece changes nothing in what the worker has a claim
/// on, and what it delivers has the digest that the table expects.
pub proof fn lemma_pump(w: WorkerView, c: ConnectionView, t: Seq<PieceView>, other: WorkerView)
    requires
        holds(w, t),
        apart(w, other),
        w.pending == Pending::Nothing,
    ensures
        holds(pump(w, c).worker, t),
        apart(pump(w, c).worker, other),
        pump(w, c).action matches Some(ActionView::Deliver { index, data }) ==> {
            &&& index < t.len()
            &&& sha1_digest(data) == t[index as int].hash
            &&& t[index as int].in_progress
        },
{
    lemma_ask(w, c, t, other);
}

/// Claiming a piece leaves the claims of other workers alone, gives the
/// worker a piece that nobody else has a claim on, and delivers nothing.
pub proof fn lemma_seek(w: WorkerView, c: ConnectionView, t: Seq<PieceView>, other: WorkerView)
    requires
        table_wf(t),
        holds(other, t),
    ensures
        holds(seek(w, c, t).worker, seek(w, c, t).table),
        holds(other, seek(w, c, t).table),
        apart(seek(w, c, t).worker, other),
        completed(seek(w, c, t).table) == completed(t),
        table_wf(seek(w, c, t).table),
        !(seek(w, c, t).action is Deliver),
{
    law_choice(t, c);
    match choice(t, c) {
        Some(i) => {
            lemma_completed_update(t, i, PieceView { in_progress: true, ..t[i] });
        },
        None => {},
    }
}

/// The part of a step that needs no table leaves the worker's claim as it
/// is, and what it delivers is a piece that the worker has a claim on, with
/// the digest that the table expects of the piece.
pub proof fn law_local_step(
    w: WorkerView,
    other: WorkerView,
    c: ConnectionView,
    t: Seq<PieceView>,
    e: EventView,
)
    requires
        holds(w, t),
        apart(w, other),
    ensures
        holds(local_spec(w, c, e).worker, t),
        apart(local_spec(w, c, e).worker, other),
        local_spec(w, c, e).action matches Some(ActionView::Deliver { index, data }) ==> {
            &&& index < t.len()
            &&& sha1_digest(data) == t[index as int].hash
            &&& t[index as int].in_progress
        },
{
    if w.pending == Pending::Nothing {
        match w.phase {
            Phase::Requesting => {
                lemma_pump(WorkerView { pipeline: w.pipeline.after_request(), ..w }, c, t, other);
            },
            Phase::Receiving => {
                match e {
                    EventView::Received { message, elapsed_ms } => {
                        lemma_pump(absorb(w, message, elapsed_ms), c, t, other);
                    },
                    _ => {},
                }
            },
            Phase::KeepAlive => {
                lemma_pump(w, c, t, other);
            },
            _ => {},
        }
    }
}

/// The part of a step that goes on in the table leaves every other
/// worker's claim alone, and gives the worker no piece that another one
/// has a claim on. It delivers nothing.
pub proof fn law_table_step(w: WorkerView, other: WorkerView, c: ConnectionView, t: Seq<PieceView>)
    requires
        table_wf(t),
        holds(w, t),
        holds(other, t),
        apart(w, other),
    ensures
        holds(table_spec(w, c, t).worker, table_spec(w, c, t).table),
        holds(other, table_spec(w, c, t).table),
        apart(table_spec(w, c, t).worker, other),
        table_wf(table_spec(w, c, t).table),
        !(table_spec(w, c, t).action is Deliver),
{
    match w.pending {
        Pending::Nothing => {},
        Pending::Claim => {
            lemma_seek(w, c, t, other);
        },
        Pending::Release(i) => {
            lemma_seek(w, c, released(t, i as int), other);
        },
        Pending::Complete(i) => {
            lemma_seek(w, c, finished(t, i as int), other);
        },
    }
}

/// No two workers have a claim on the same piece at any time: a step of
/// one worker, in one part or in two, leaves every other worker's claim
/// alone, and gives the worker no piece that another one has a claim on.
pub proof fn law_workers_apart(
    w: WorkerView,
    other: WorkerView,
    c: ConnectionView,
    t: Seq<PieceView>,
    e: EventView,
)
    requires
        table_wf(t),
        holds(w, t),
        holds(other, t),
        apart(w, other),
    ensures
        holds(other, step_spec(w, c, t, e).table),
        table_wf(step_spec(w, c, t, e).table),
        holds(step_spec(w, c, t, e).worker, step_spec(w, c, t, e).table),
        apart(step_spec(w, c, t, e).worker, other),
{
    law_local_step(w, other, c, t, e);
    let l = local_spec(w, c, e);
    if l.action is None {
        law_table_step(l.worker, other, l.conn, t);
    }
}

/// What a worker hands to the storage is a piece that it has a claim on,
/// and the bytes have the digest that the table expects of the piece.
pub proof fn law_delivery(w: WorkerView, c: ConnectionView, t: Seq<PieceView>, e: EventView)
    requires
        table_wf(t),
        holds(w, t),
    ensures
        step_spec(w, c, t, e).action matches ActionView::Deliver { index, data } ==> {
            &&& index < t.len()
            &&& sha1_digest(data) == t[index as int].hash
            &&& t[index as int].in_progress
            &&& step_spec(w, c, t, e).table == t
        },
{
    let nobody = WorkerView { piece: None, pending: Pending::Nothing, ..w };
    law_local_step(w, nobody, c, t, e);
    let l = local_spec(w, c, e);
    if l.action is None {
        law_table_step(l.worker, nobody, l.conn, t);
    }
}

/// Claiming a piece changes nothing in how many pieces are done.
pub proof fn lemma_seek_completed(w: WorkerView, c: ConnectionView, t: Seq<PieceView>)
    ensures
        completed(seek(w, c, t).table) == completed(t),
{
    law_choice(t, c);
    match choice(t, c) {
        Some(i) => {
            lemma_completed_update(t, i, PieceView { in_progress: true, ..t[i] });
        },
        None => {},
    }
}

/// What a worker does in the table never takes a piece back from the
/// pieces that are done: their number never falls.
pub proof fn law_table_progress(w: WorkerView, c: ConnectionView, t: Seq<PieceView>)
    ensures
        completed(table_spec(w, c, t).table) >= completed(t),
{
    match w.pending {
        Pending::Nothing => {},
        Pending::Claim => {
            lemma_seek_completed(w, c, t);
        },
        Pending::Release(i) => {
            let t2 = released(t, i as int);
            if i < t.len() {
                lemma_completed_update(t, i as int, t2[i as int]);
            }
            lemma_seek_completed(w, c, t2);
        },
        Pending::Complete(i) => {
            let t2 = finished(t, i as int);
            if i < t.len() {
                lemma_completed_update(t, i as int, t2[i as int]);
            }
            lemma_seek_completed(w, c, t2);
        },
    }
}

/// A step never takes a piece back from the pieces that are done: their
/// number never falls.
pub proof fn law_step_progress(w: WorkerView, c: ConnectionView, t: Seq<PieceView>, e: EventView)
    ensures
        completed(step_spec(w, c, t, e).table) >= completed(t),
{
    let l = local_spec(w, c, e);
    if l.action is None {
        law_table_progress(l.worker, l.conn, t);
    }
}

} // verus!
