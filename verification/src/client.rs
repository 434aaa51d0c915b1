//! The host-facing operation surface: subscription handles and the decisions
//! behind `subscribe`, `mutation` and `action`. The backend client itself is
//! an opaque external collaborator; these functions decide, from the path
//! parse outcome and the host argument map, whether a backend call may be
//! made and with which typed arguments, and they guard every handle before
//! its identifier may be used as a result-map key.

use vstd::prelude::*;

use crate::args::decode_args;
use crate::args::decode_args_spec;
use crate::codec::ConversionError;
use crate::value::HostValue;
use crate::value::TVal;
use crate::value::TypedValue;
use crate::value::typed_view_entries;

verus! {

/// A host-owned subscription handle: a validity flag and, when valid, the
/// backend-issued subscription identifier. Invalid handles carry no
/// identifier and are never dereferenced into the backend's result map.
pub struct Subscription {
    pub success: bool,
    pub subscriber_id: Option<u64>,
}

/// A handle is well-formed when it carries an identifier exactly if it is
/// marked valid.
pub open spec fn subscription_wf(s: Subscription) -> bool {
    s.success <==> s.subscriber_id is Some
}

/// What `subscribe` decided: hand the host an invalid handle without any
/// backend call, or forward the typed arguments to the backend.
pub enum SubscribeDecision {
    Reject(Subscription),
    Forward(Vec<(String, TypedValue)>),
}

/// The `subscribe` decision: an unparsable path or an undecodable argument
/// map yields an invalid handle (the call never raises to the host, which
/// has no exception channel here); otherwise the typed arguments are
/// forwarded to the backend, whose issued identifier then makes the valid
/// handle via `accept_subscription`.
pub fn subscribe(path_ok: bool, args: &Vec<(HostValue, HostValue)>) -> (d: SubscribeDecision)
    ensures
        match d {
            SubscribeDecision::Reject(s) => !s.success && s.subscriber_id is None && (!path_ok
                || decode_args_spec(args@) is Err),
            SubscribeDecision::Forward(m) => path_ok && decode_args_spec(args@) == Ok::<
                _,
                ConversionError,
            >(typed_view_entries(m@, 0)),
        },
{
    if !path_ok {
        return SubscribeDecision::Reject(Subscription { success: false, subscriber_id: None });
    }
    match decode_args(args) {
        Ok(m) => SubscribeDecision::Forward(m),
        Err(_) => SubscribeDecision::Reject(
            Subscription { success: false, subscriber_id: None },
        ),
    }
}

/// Wraps a backend-issued subscription identifier as a valid handle.
pub fn accept_subscription(id: u64) -> (s: Subscription)
    ensures
        s.success,
        s.subscriber_id == Some(id),
        subscription_wf(s),
{
    Subscription { success: true, subscriber_id: Some(id) }
}

/// The guard before the backend's result map may be consulted: an invalid
/// handle (or one without an identifier) yields no key, and the query is
/// then answered as if no result existed.
pub fn subscription_result_key(s: &Subscription) -> (k: Option<u64>)
    ensures
        k == if s.success {
            s.subscriber_id
        } else {
            None::<u64>
        },
{
    if s.success {
        s.subscriber_id
    } else {
        None
    }
}

/// The `mutation` decision: `Some` typed arguments to forward exactly when
/// the path parsed and the argument map decodes; `None` otherwise, in which
/// case no backend call is made and the host receives nothing.
pub fn mutation(path_ok: bool, args: &Vec<(HostValue, HostValue)>) -> (d: Option<
    Vec<(String, TypedValue)>,
>)
    ensures
        match d {
            Some(m) => path_ok && decode_args_spec(args@) == Ok::<_, ConversionError>(
                typed_view_entries(m@, 0),
            ),
            None => !path_ok || decode_args_spec(args@) is Err,
        },
{
    if !path_ok {
        return None;
    }
    match decode_args(args) {
        Ok(m) => Some(m),
        Err(_) => None,
    }
}

/// The `action` decision: same contract as `mutation`.
pub fn action(path_ok: bool, args: &Vec<(HostValue, HostValue)>) -> (d: Option<
    Vec<(String, TypedValue)>,
>)
    ensures
        match d {
            Some(m) => path_ok && decode_args_spec(args@) == Ok::<_, ConversionError>(
                typed_view_entries(m@, 0),
            ),
            None => !path_ok || decode_args_spec(args@) is Err,
        },
{
    mutation(path_ok, args)
}

} // verus!
