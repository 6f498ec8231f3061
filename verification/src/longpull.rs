//! The long-poll queue leaf: a FIFO buffer of update payloads backing a
//! blocking fetch endpoint.
//!
//! The embedding program owns the lock and the wake primitive; this module
//! holds the buffer itself and the decision a fetch makes each time it holds
//! the buffer: answer now with a batch, answer now with nothing, or suspend
//! and re-check after a wake or the deadline.

use vstd::prelude::*;

use serde_json::Value;

use crate::describe::{doc_model, DocModel, RouteDoc};

use vstd::string::StringExecFns;

verus! {

/// Parameters of a long-poll fetch request. `offset` is accepted but has no
/// defined effect; `timeout` defaults to 0 (answer immediately); `limit`
/// defaults to 1000 and caps the batch size.
#[derive(Clone, Copy)]
pub struct GetUpdatesParams {
    pub offset: Option<i64>,
    pub timeout: Option<u64>,
    pub limit: Option<u64>,
}

impl GetUpdatesParams {
    /// Effective timeout in seconds; absent means answer immediately.
    pub open spec fn timeout_secs(self) -> u64 {
        match self.timeout {
            Some(t) => t,
            None => 0,
        }
    }

    /// Effective batch cap; absent means the default of 1000.
    pub open spec fn batch_limit(self) -> u64 {
        match self.limit {
            Some(l) => l,
            None => 1000,
        }
    }
}

/// How many items a fetch drains from a buffer of length `len` under a cap
/// of `limit`: everything that is there, up to the cap.
pub open spec fn batch_size(len: int, limit: int) -> int {
    if len <= limit {
        len
    } else {
        limit
    }
}

/// Mathematical model of a queue: its path and the buffered payloads in
/// arrival order.
pub struct LongPollModel {
    pub path: Seq<char>,
    pub updates: Seq<Value>,
}

/// A long-poll queue leaf: the HTTP path it serves and its FIFO buffer.
pub struct LongPollRoute {
    pub path: String,
    updates: Vec<Value>,
}

impl View for LongPollRoute {
    type V = LongPollModel;

    closed spec fn view(&self) -> LongPollModel {
        LongPollModel { path: self.path@, updates: self.updates@ }
    }
}

/// What one buffer inspection decides: reply `{ok: true, result: batch}` at
/// once, or release the buffer and wait for a wake or the deadline.
pub enum PollStep {
    Reply(Vec<Value>),
    Wait,
}

impl LongPollRoute {
    /// A fresh queue serving `path`, with an empty buffer.
    pub fn new(path: String) -> (r: LongPollRoute)
        ensures
            r@.path == path@,
            r@.updates == Seq::<Value>::empty(),
    {
        LongPollRoute { path, updates: Vec::new() }
    }

    /// The HTTP path this queue serves.
    pub fn path(&self) -> (r: &String)
        ensures
            r@ == self@.path,
    {
        &self.path
    }

    /// One-line self-description, as served locally.
    pub fn print(&self) -> (r: String)
        ensures
            r@ == "longpull: http://0.0.0.0"@ + self@.path,
    {
        let mut text = "longpull: http://0.0.0.0".to_owned();
        text.append(self.path.as_str());
        text
    }

    /// Self-description: a long-poll leaf names the path it serves.
    pub fn json_struct(&self) -> (r: RouteDoc)
        ensures
            doc_model(r) == (DocModel::Longpoll { path: self@.path }),
    {
        RouteDoc::Longpoll { path: self.path.clone() }
    }

    /// Delivery into the queue: append the update at the tail. The embedding
    /// program wakes every waiting fetch right after this returns.
    pub fn process(&mut self, update: Value)
        ensures
            final(self)@.path == old(self)@.path,
            final(self)@.updates == old(self)@.updates.push(update),
    {
        self.updates.push(update);
    }

    /// One round of the blocking-fetch loop, taken while holding the buffer:
    /// a non-empty buffer is drained from the head, up to the cap, and
    /// answered at once; an empty buffer is answered with an empty batch when
    /// no time budget is left (`timeout` of 0, or `timed_out` reported by the
    /// caller's clock), and is otherwise released to wait for a wake.
    pub fn handle_request(&mut self, params: &GetUpdatesParams, timed_out: bool) -> (r: PollStep)
        ensures
            final(self)@.path == old(self)@.path,
            ({
                let buf = old(self)@.updates;
                let k = batch_size(buf.len() as int, params.batch_limit() as int);
                &&& (buf.len() > 0 ==> ({
                    &&& r matches PollStep::Reply(batch)
                    &&& batch@ == buf.take(k)
                    &&& final(self)@.updates == buf.skip(k)
                }))
                &&& (buf.len() == 0 && (params.timeout_secs() == 0 || timed_out) ==> ({
                    &&& r matches PollStep::Reply(batch)
                    &&& batch@ == Seq::<Value>::empty()
                    &&& final(self)@.updates == buf
                }))
                &&& (buf.len() == 0 && params.timeout_secs() != 0 && !timed_out
                    ==> r == PollStep::Wait && final(self)@.updates == buf)
            }),
    {
        let ghost buf = self@.updates;
        let timeout_sec: u64 = match params.timeout {
            Some(t) => t,
            None => 0,
        };
        if self.updates.len() > 0 {
            let limit: u64 = match params.limit {
                Some(l) => l,
                None => 1000,
            };
            let ghost k = batch_size(buf.len() as int, limit as int);
            let mut batch: Vec<Value> = Vec::new();
            while (batch.len() as u64) < limit && self.updates.len() > 0
                invariant
                    batch@.len() <= k,
                    batch@ == buf.take(batch@.len() as int),
                    self.updates@ == buf.skip(batch@.len() as int),
                    self.path@ == old(self)@.path,
                    k == batch_size(buf.len() as int, limit as int),
                    (batch@.len() as u64) < limit || batch@.len() == k,
                    self.updates@.len() > 0 || batch@.len() == k,
                decreases self.updates@.len(),
            {
                let u = self.updates.remove(0);
                batch.push(u);
                proof {
                    assert(batch@ == buf.take(batch@.len() as int)) by {
                        assert(batch@ =~= buf.take(batch@.len() as int));
                    }
                    assert(self.updates@ =~= buf.skip(batch@.len() as int));
                }
            }
            proof {
                assert(batch@.len() == k);
            }
            PollStep::Reply(batch)
        } else if timeout_sec == 0 || timed_out {
            PollStep::Reply(Vec::new())
        } else {
            PollStep::Wait
        }
    }
}

} // verus!
