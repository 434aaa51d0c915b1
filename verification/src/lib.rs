//! Verified core of a host-to-backend bridge: a bidirectional codec between a
//! host scripting runtime's dynamic values and the backend's typed value
//! model, plus the handle and polling state machines around it.

pub mod args;
pub mod bridge;
pub mod client;
pub mod codec;
pub mod laws;
pub mod outcome;
pub mod value;

use vstd::prelude::*;

verus! {

/// Returns the serialized outbound protocol message handed over by the
/// backend client, or the empty string when none is pending.
pub fn pop_next_message(msg: Option<String>) -> (text: String)
    ensures
        match msg {
            Some(s) => text@ == s@,
            None => text@ == Seq::<char>::empty(),
        },
{
    match msg {
        Some(s) => s,
        None => String::new(),
    }
}

} // verus!
