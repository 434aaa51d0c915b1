//! Function results: the outcome of evaluating a backend operation, and its
//! fixed, tagged conversion into a host map.

use vstd::prelude::*;

use crate::codec::encode;
use crate::codec::encode_spec;
use crate::value::HVal;
use crate::value::HostValue;
use crate::value::TVal;
use crate::value::TypedValue;
use crate::value::host_view_pairs;

verus! {

/// Ghost model of a function result.
pub ghost enum FOut {
    Value(TVal),
    ErrorMessage(Seq<char>),
    ConvexError(Seq<char>, TVal),
    Absent,
}

/// The outcome of a backend operation: a success value, a plain error
/// message, a structured error carrying a message and a data value, or no
/// result at all (none arrived yet, or none exists for the queried key).
pub enum FunctionOutcome {
    Value(TypedValue),
    ErrorMessage(String),
    ConvexError(String, TypedValue),
    Absent,
}

impl View for FunctionOutcome {
    type V = FOut;

    open spec fn view(&self) -> FOut {
        match *self {
            FunctionOutcome::Value(v) => FOut::Value(v@),
            FunctionOutcome::ErrorMessage(m) => FOut::ErrorMessage(m@),
            FunctionOutcome::ConvexError(m, d) => FOut::ConvexError(m@, d@),
            FunctionOutcome::Absent => FOut::Absent,
        }
    }
}

/// The host map an outcome converts to: a string discriminator under the key
/// "type", plus the case's payload fields, in insertion order.
pub open spec fn outcome_host_spec(r: FOut) -> HVal {
    match r {
        FOut::Value(v) => HVal::Dict(
            seq![
                (HVal::Text("type"@), HVal::Text("value"@)),
                (HVal::Text("data"@), encode_spec(v)),
            ],
        ),
        FOut::ErrorMessage(m) => HVal::Dict(
            seq![
                (HVal::Text("type"@), HVal::Text("error"@)),
                (HVal::Text("message"@), HVal::Text(m)),
            ],
        ),
        FOut::ConvexError(m, d) => HVal::Dict(
            seq![
                (HVal::Text("type"@), HVal::Text("convex_error"@)),
                (HVal::Text("message"@), HVal::Text(m)),
                (HVal::Text("data"@), encode_spec(d)),
            ],
        ),
        FOut::Absent => HVal::Dict(seq![(HVal::Text("type"@), HVal::Text("no_result"@))]),
    }
}

/// The empty host map, handed to the host when a poll has nothing to report.
pub open spec fn empty_host_map() -> HVal {
    HVal::Dict(Seq::empty())
}

/// Converts a function result into its host map form: a "type" string
/// discriminator plus the case's payload fields. Total and infallible, as
/// encoding a typed value never fails.
pub fn function_result_to_host(r: &FunctionOutcome) -> (d: HostValue)
    ensures
        d@ == outcome_host_spec(r@),
{
    proof {
        reveal_with_fuel(host_view_pairs, 5);
    }
    match r {
        FunctionOutcome::Value(v) => {
            let mut pairs: Vec<(HostValue, HostValue)> = Vec::new();
            pairs.push((HostValue::Text("type".to_owned()), HostValue::Text("value".to_owned())));
            pairs.push((HostValue::Text("data".to_owned()), encode(v)));
            let d = HostValue::Dict(pairs);
            proof {
                assert(host_view_pairs(d->Dict_0@, 0) =~= outcome_host_spec(r@)->Dict_0);
            }
            d
        },
        FunctionOutcome::ErrorMessage(m) => {
            let mut pairs: Vec<(HostValue, HostValue)> = Vec::new();
            pairs.push((HostValue::Text("type".to_owned()), HostValue::Text("error".to_owned())));
            pairs.push((HostValue::Text("message".to_owned()), HostValue::Text(m.clone())));
            let d = HostValue::Dict(pairs);
            proof {
                assert(host_view_pairs(d->Dict_0@, 0) =~= outcome_host_spec(r@)->Dict_0);
            }
            d
        },
        FunctionOutcome::ConvexError(m, data) => {
            let mut pairs: Vec<(HostValue, HostValue)> = Vec::new();
            pairs.push(
                (
                    HostValue::Text("type".to_owned()),
                    HostValue::Text("convex_error".to_owned()),
                ),
            );
            pairs.push((HostValue::Text("message".to_owned()), HostValue::Text(m.clone())));
            pairs.push((HostValue::Text("data".to_owned()), encode(data)));
            let d = HostValue::Dict(pairs);
            proof {
                assert(host_view_pairs(d->Dict_0@, 0) =~= outcome_host_spec(r@)->Dict_0);
            }
            d
        },
        FunctionOutcome::Absent => {
            let mut pairs: Vec<(HostValue, HostValue)> = Vec::new();
            pairs.push(
                (HostValue::Text("type".to_owned()), HostValue::Text("no_result".to_owned())),
            );
            let d = HostValue::Dict(pairs);
            proof {
                assert(host_view_pairs(d->Dict_0@, 0) =~= outcome_host_spec(r@)->Dict_0);
            }
            d
        },
    }
}

/// The empty host map value.
pub fn empty_host_result() -> (d: HostValue)
    ensures
        d@ == empty_host_map(),
{
    let pairs: Vec<(HostValue, HostValue)> = Vec::new();
    let d = HostValue::Dict(pairs);
    proof {
        assert(host_view_pairs(d->Dict_0@, 0) =~= Seq::<(HVal, HVal)>::empty());
    }
    d
}

} // verus!
