//! The per-path resource worker: a task bound to one remote path under one
//! configuration generation, owning the single open remote file handle.
//!
//! The worker is a state machine — Starting, then Serving or Draining, then
//! Stopped — whose decisions are verified here.  The slow operations
//! (connect, open, stat, seek, read) happen outside and hand their results
//! in as plain values: the worker says exactly what response each outcome
//! owes.  A worker that failed at startup does not disappear; it drains
//! every queued and later request with the captured startup error until its
//! channel closes.

use vstd::prelude::*;

use crate::range::spec_resolve_window;
use crate::response::StreamResponse;
use crate::response::is_error_response;
use crate::response::is_partial_response;

verus! {

/// The lifecycle phase of a worker.
pub enum WorkerPhase {
    /// Created; the remote session is not yet established.
    Starting,
    /// The handle is open and `total_size` was fetched once by `stat`; it
    /// is trusted for the worker's whole lifetime.
    Serving { total_size: u64 },
    /// Startup failed; every request is answered with the captured error.
    Draining { error: String },
    /// Shut down; the handle is closed and no request is processed.
    Stopped,
}

/// A worker bound to one remote path.
pub struct Worker {
    pub path: String,
    pub phase: WorkerPhase,
}

/// What a request's optional raw range header looks like to the model.
pub open spec fn opt_view(range: Option<&str>) -> Option<Seq<char>> {
    match range {
        Some(s) => Some(s@),
        None => None,
    }
}

/// The message an error response carries when the remote file is empty.
pub open spec fn empty_file_msg() -> Seq<char> {
    "Remote file is empty or size unavailable."@
}

/// The message an error response carries when the remote read came up
/// short of the requested window.
pub open spec fn short_read_msg() -> Seq<char> {
    "Failed to read remote file: short read."@
}

/// What one Serving-phase read owes, with the remote file modelled as the
/// byte sequence `file`: an error when the file is empty, else the
/// resolved window and exactly its bytes.
pub ghost enum ReadOutcome {
    Failed { msg: Seq<char> },
    Served { start: u64, end: u64, body: Seq<u8> },
}

/// The outcome owed for one request with range header `range` against the
/// remote file `file`.
pub open spec fn serve_outcome(file: Seq<u8>, range: Option<Seq<char>>) -> ReadOutcome
    recommends
        file.len() <= u64::MAX,
{
    if file.len() == 0 {
        ReadOutcome::Failed { msg: empty_file_msg() }
    } else {
        let w = spec_resolve_window(range, file.len() as u64);
        ReadOutcome::Served { start: w.0, end: w.1, body: file.subrange(w.0 as int, w.1 + 1) }
    }
}

impl Worker {
    /// A fresh worker for `path`, not yet connected.
    pub fn new(path: String) -> (w: Worker)
        ensures
            w.path == path,
            w.phase is Starting,
    {
        Worker { path, phase: WorkerPhase::Starting }
    }

    /// Record the outcome of startup: connecting, opening the remote path
    /// and fetching its size.  Success begins Serving with that size;
    /// failure begins Draining with the captured error, under which every
    /// request will be answered.
    pub fn on_start(&mut self, outcome: Result<u64, String>)
        requires
            old(self).phase is Starting,
        ensures
            final(self).path == old(self).path,
            match outcome {
                Ok(total) => final(self).phase matches WorkerPhase::Serving { total_size }
                    && total_size == total,
                Err(e) => final(self).phase matches WorkerPhase::Draining { error } && error@
                    == e@,
            },
    {
        match outcome {
            Ok(total) => {
                self.phase = WorkerPhase::Serving { total_size: total };
            },
            Err(e) => {
                self.phase = WorkerPhase::Draining { error: e };
            },
        }
    }

    /// Decide how to handle one read request.  While Serving, a non-empty
    /// file yields the serve window the caller must read, and an empty
    /// file the error response; while Draining, every request is answered
    /// with the captured startup error.
    pub fn plan_request(&self, range: Option<&str>) -> (r: Result<(u64, u64), StreamResponse>)
        requires
            self.phase matches WorkerPhase::Serving { .. } || self.phase matches
                WorkerPhase::Draining { .. },
        ensures
            match self.phase {
                WorkerPhase::Serving { total_size } => match r {
                    Ok(w) => total_size > 0 && w == spec_resolve_window(
                        opt_view(range),
                        total_size,
                    ) && w.0 <= w.1 < total_size,
                    Err(resp) => total_size == 0 && is_error_response(
                        resp,
                        500,
                        empty_file_msg(),
                    ),
                },
                WorkerPhase::Draining { error } => r matches Err(resp) && is_error_response(
                    resp,
                    500,
                    error@,
                ),
                _ => false,
            },
    {
        match &self.phase {
            WorkerPhase::Serving { total_size } => {
                let total = *total_size;
                if total == 0 {
                    Err(crate::response::error_response(
                        500,
                        "Remote file is empty or size unavailable.",
                    ))
                } else {
                    let range_str: Option<&str> = range;
                    let w = match range_str {
                        Some(h) => match crate::range::parse_range_header(h, total) {
                            Some(w) => w,
                            None => default_window_exec(total),
                        },
                        None => default_window_exec(total),
                    };
                    proof {
                        assert(w == spec_resolve_window(opt_view(range), total));
                    }
                    Ok(w)
                }
            },
            WorkerPhase::Draining { error } => {
                let msg = error.clone();
                Err(crate::response::error_response(500, msg.as_str()))
            },
            _ => unreached(),
        }
    }

    /// Assemble the response for a planned read whose remote I/O has
    /// completed.  Exactly the window's bytes yield the partial-content
    /// response; a short or long read, or a seek/read failure, yields the
    /// structured error instead — never a truncated, mis-labelled body.
    pub fn finish_request(&self, start: u64, end: u64, outcome: Result<Vec<u8>, String>) -> (r:
        StreamResponse)
        requires
            self.phase matches WorkerPhase::Serving { total_size } && total_size > 0 && start
                <= end < total_size,
        ensures
            ({
                let total_size = self.phase->Serving_total_size;
                match outcome {
                    Ok(bytes) => if bytes@.len() == end - start + 1 {
                        is_partial_response(r, self.path@, total_size, start, end, bytes@)
                    } else {
                        is_error_response(r, 500, short_read_msg())
                    },
                    Err(msg) => is_error_response(r, 500, msg@),
                }
            }),
    {
        let total = match &self.phase {
            WorkerPhase::Serving { total_size } => *total_size,
            _ => 0,
        };
        match outcome {
            Ok(bytes) => {
                let want = end - start + 1;
                if bytes.len() as u64 == want {
                    crate::response::partial_response(self.path.as_str(), total, start, end, bytes)
                } else {
                    crate::response::error_response(500, "Failed to read remote file: short read.")
                }
            },
            Err(msg) => crate::response::error_response(500, msg.as_str()),
        }
    }

    /// Honour a shutdown signal.  A Serving worker stops — the caller then
    /// closes the handle and ends the loop; a Draining worker keeps
    /// draining, since its queue must still be answered until the channel
    /// closes.
    pub fn on_shutdown(&mut self) -> (stop: bool)
        ensures
            final(self).path == old(self).path,
            match old(self).phase {
                WorkerPhase::Draining { error } => !stop && (final(self).phase matches
                    WorkerPhase::Draining { error: e } && e@ == error@),
                _ => stop && final(self).phase is Stopped,
            },
    {
        match &self.phase {
            WorkerPhase::Draining { .. } => false,
            _ => {
                self.phase = WorkerPhase::Stopped;
                true
            },
        }
    }
}

/// A request or control message, as the model sees one worker's mailbox.
pub ghost enum MsgModel {
    Read { range: Option<Seq<char>> },
    Shutdown,
}

/// One Serving worker's whole run over its mailbox: messages are taken
/// strictly in arrival order against the single owned handle on `file`;
/// each read is answered at once, and a shutdown stops the run, leaving
/// later messages unprocessed.  The result is the sequence of responses
/// delivered, in delivery order, and whether the worker stopped.
pub open spec fn run_serving(file: Seq<u8>, msgs: Seq<MsgModel>) -> (Seq<ReadOutcome>, bool)
    decreases msgs.len(),
{
    if msgs.len() == 0 {
        (Seq::<ReadOutcome>::empty(), false)
    } else {
        match msgs[0] {
            MsgModel::Shutdown => (Seq::<ReadOutcome>::empty(), true),
            MsgModel::Read { range } => {
                let rest = run_serving(file, msgs.skip(1));
                (seq![serve_outcome(file, range)] + rest.0, rest.1)
            },
        }
    }
}

/// Responses leave a worker in the order its requests arrived: over any
/// mailbox of read requests, the worker delivers exactly one response per
/// request, and the i-th response answers the i-th request.
pub proof fn lemma_responses_in_request_order(file: Seq<u8>, msgs: Seq<MsgModel>)
    requires
        forall|i: int| 0 <= i < msgs.len() ==> #[trigger] msgs[i] is Read,
    ensures
        run_serving(file, msgs).0.len() == msgs.len(),
        forall|i: int|
            0 <= i < msgs.len() ==> #[trigger] run_serving(file, msgs).0[i] == serve_outcome(
                file,
                msgs[i]->Read_range,
            ),
    decreases msgs.len(),
{
    if msgs.len() > 0 {
        let tail = msgs.skip(1);
        assert(forall|i: int| 0 <= i < tail.len() ==> #[trigger] tail[i] is Read);
        lemma_responses_in_request_order(file, tail);
        let out = run_serving(file, msgs).0;
        assert forall|i: int| 0 <= i < msgs.len() implies #[trigger] out[i] == serve_outcome(
            file,
            msgs[i]->Read_range,
        ) by {
            if i > 0 {
                assert(out[i] == run_serving(file, tail).0[i - 1]);
                assert(tail[i - 1] == msgs[i]);
            }
        }
    }
}

/// A shutdown signal is queued, not preemptive: with reads pending ahead
/// of it in the mailbox, every pending read is still answered, in order,
/// and only then does the worker stop.
pub proof fn lemma_shutdown_after_pending(file: Seq<u8>, pending: Seq<MsgModel>)
    requires
        forall|i: int| 0 <= i < pending.len() ==> #[trigger] pending[i] is Read,
    ensures
        run_serving(file, pending.push(MsgModel::Shutdown)).0.len() == pending.len(),
        run_serving(file, pending.push(MsgModel::Shutdown)).1,
        forall|i: int|
            0 <= i < pending.len() ==> #[trigger] run_serving(
                file,
                pending.push(MsgModel::Shutdown),
            ).0[i] == serve_outcome(file, pending[i]->Read_range),
    decreases pending.len(),
{
    let msgs = pending.push(MsgModel::Shutdown);
    if pending.len() == 0 {
        assert(msgs[0] is Shutdown);
    } else {
        let tail = pending.skip(1);
        assert(forall|i: int| 0 <= i < tail.len() ==> #[trigger] tail[i] is Read);
        lemma_shutdown_after_pending(file, tail);
        assert(msgs.skip(1) =~= tail.push(MsgModel::Shutdown));
        assert(msgs[0] == pending[0]);
        let out = run_serving(file, msgs).0;
        assert forall|i: int| 0 <= i < pending.len() implies #[trigger] out[i] == serve_outcome(
            file,
            pending[i]->Read_range,
        ) by {
            if i > 0 {
                assert(out[i] == run_serving(file, tail.push(MsgModel::Shutdown)).0[i - 1]);
                assert(tail[i - 1] == pending[i]);
            }
        }
    }
}

/// The bounded default window for a non-empty file, executably.
fn default_window_exec(total: u64) -> (w: (u64, u64))
    requires
        total > 0,
    ensures
        w == crate::range::default_window(total),
{
    let last = total - 1;
    let chunk_last = crate::DEFAULT_CHUNK_SIZE - 1;
    (0u64, if chunk_last < last {
        chunk_last
    } else {
        last
    })
}

} // verus!
