//! The non-blocking bridge from a one-shot asynchronous result channel to
//! the host's per-frame polling loop. The unverified adapter owns the actual
//! receiving end; this state machine tracks whether that end is still
//! installed and decides, from each poll's reported outcome, what the host
//! sees and whether the end is put back or dropped for good.

use vstd::prelude::*;

use crate::outcome::FunctionOutcome;
use crate::outcome::empty_host_map;
use crate::outcome::empty_host_result;
use crate::outcome::function_result_to_host;
use crate::outcome::outcome_host_spec;
use crate::value::HostValue;

verus! {

/// What one non-blocking poll of the channel's receiving end reported: a
/// delivered result, nothing yet with the channel still open, or a channel
/// closed without ever delivering.
pub enum PollEvent {
    Received(FunctionOutcome),
    Empty,
    Closed,
}

/// A host-owned handle on a pending mutation or action result. `installed`
/// says whether the receiving end of the channel is still held; once the
/// channel reports closed, the end is dropped and every later poll returns
/// the empty host map without touching backend resources.
pub struct ResultReceiver {
    pub success: bool,
    pub installed: bool,
}

impl ResultReceiver {
    /// A fresh handle around a newly created channel end.
    pub fn new() -> (r: ResultReceiver)
        ensures
            r.success,
            r.installed,
    {
        ResultReceiver { success: true, installed: true }
    }

    /// Whether the receiving end is still installed, so that the adapter
    /// knows to poll the channel before calling `get_result`.
    pub fn needs_poll(&self) -> (b: bool)
        ensures
            b == self.installed,
    {
        self.installed
    }

    /// One poll step. The adapter polls the channel exactly when the end is
    /// installed and reports the outcome; with a delivered result the end is
    /// put back (the channel itself guarantees at most one delivery) and the
    /// host receives the converted result; with nothing yet the host
    /// receives the empty map and polling may continue; with a closed
    /// channel the end is dropped permanently, and from then on every poll
    /// returns the empty map.
    pub fn get_result(&mut self, event: Option<PollEvent>) -> (d: HostValue)
        requires
            old(self).installed <==> event is Some,
        ensures
            final(self).success == old(self).success,
            match event {
                Some(PollEvent::Received(o)) => final(self).installed && d@ == outcome_host_spec(
                    o@,
                ),
                Some(PollEvent::Empty) => final(self).installed && d@ == empty_host_map(),
                Some(PollEvent::Closed) => !final(self).installed && d@ == empty_host_map(),
                None => !final(self).installed && d@ == empty_host_map(),
            },
    {
        match event {
            Some(PollEvent::Received(o)) => function_result_to_host(&o),
            Some(PollEvent::Empty) => empty_host_result(),
            Some(PollEvent::Closed) => {
                self.installed = false;
                empty_host_result()
            },
            None => empty_host_result(),
        }
    }
}

} // verus!
