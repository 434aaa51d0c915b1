//! Value models for the two sides of the boundary: the host runtime's dynamic
//! tagged value and the backend's closed typed value, each with a ghost deep
//! view used by every contract of the codec.
//!
//! Floating-point payloads are carried as their IEEE-754 bit patterns
//! (`u64`), so that equality of models is bit equality; the unverified host
//! adapter converts between bits and native doubles at the outermost edge.

use vstd::prelude::*;

verus! {

/// Ghost model of a host dynamic value.
pub ghost enum HVal {
    Nil,
    Bool(bool),
    Int(i64),
    Float(u64),
    Text(Seq<char>),
    Bytes(Seq<u8>),
    Arr(Seq<HVal>),
    Dict(Seq<(HVal, HVal)>),
    Opaque(u32),
}

/// Ghost model of a backend typed value. In a well-formed value an object's
/// entries are sorted by strictly ascending key.
pub ghost enum TVal {
    Null,
    Boolean(bool),
    Int64(i64),
    Float64(u64),
    Text(Seq<char>),
    Bytes(Seq<u8>),
    Array(Seq<TVal>),
    Object(Seq<(Seq<char>, TVal)>),
}

/// A host dynamic value at the boundary: the host runtime's tagged union,
/// with every tag the codec recognizes, plus `Opaque` standing for any other
/// host tag (object references, callables, resource handles, ...), carrying
/// the host's numeric tag code.
#[derive(Debug)]
pub enum HostValue {
    Nil,
    Bool(bool),
    Int(i64),
    Float(u64),
    Text(String),
    Bytes(Vec<u8>),
    Arr(Vec<HostValue>),
    Dict(Vec<(HostValue, HostValue)>),
    Opaque(u32),
}

/// The backend's canonical typed value: a closed sum over scalars, blobs,
/// ordered sequences and key-ordered string-keyed maps.
#[derive(Debug)]
pub enum TypedValue {
    Null,
    Boolean(bool),
    Int64(i64),
    Float64(u64),
    Text(String),
    Bytes(Vec<u8>),
    Array(Vec<TypedValue>),
    Object(Vec<(String, TypedValue)>),
}

pub open spec fn host_view(v: HostValue) -> HVal
    decreases v, 0int,
{
    match v {
        HostValue::Nil => HVal::Nil,
        HostValue::Bool(b) => HVal::Bool(b),
        HostValue::Int(i) => HVal::Int(i),
        HostValue::Float(bits) => HVal::Float(bits),
        HostValue::Text(s) => HVal::Text(s@),
        HostValue::Bytes(b) => HVal::Bytes(b@),
        HostValue::Arr(items) => {
            proof {
                assert(decreases_to!(v, 0int => items@, items@.len() - 0));
            }
            HVal::Arr(host_view_seq(items@, 0))
        },
        HostValue::Dict(entries) => {
            proof {
                assert(decreases_to!(v, 0int => entries@, entries@.len() - 0));
            }
            HVal::Dict(host_view_pairs(entries@, 0))
        },
        HostValue::Opaque(tag) => HVal::Opaque(tag),
    }
}

/// The views of the elements of `s` from index `i` on.
pub open spec fn host_view_seq(s: Seq<HostValue>, i: int) -> Seq<HVal>
    decreases s, s.len() - i,
{
    if i < 0 || i >= s.len() {
        Seq::empty()
    } else {
        seq![host_view(s[i])] + host_view_seq(s, i + 1)
    }
}

/// The views of the key/value pairs of `s` from index `i` on.
pub open spec fn host_view_pairs(s: Seq<(HostValue, HostValue)>, i: int) -> Seq<(HVal, HVal)>
    decreases s, s.len() - i,
{
    if i < 0 || i >= s.len() {
        Seq::empty()
    } else {
        proof {
            assert(decreases_to!(s, s.len() - i => s[i].0, 0int));
            assert(decreases_to!(s, s.len() - i => s[i].1, 0int));
        }
        seq![(host_view(s[i].0), host_view(s[i].1))] + host_view_pairs(s, i + 1)
    }
}

pub open spec fn typed_view(v: TypedValue) -> TVal
    decreases v, 0int,
{
    match v {
        TypedValue::Null => TVal::Null,
        TypedValue::Boolean(b) => TVal::Boolean(b),
        TypedValue::Int64(i) => TVal::Int64(i),
        TypedValue::Float64(bits) => TVal::Float64(bits),
        TypedValue::Text(s) => TVal::Text(s@),
        TypedValue::Bytes(b) => TVal::Bytes(b@),
        TypedValue::Array(items) => {
            proof {
                assert(decreases_to!(v, 0int => items@, items@.len() - 0));
            }
            TVal::Array(typed_view_seq(items@, 0))
        },
        TypedValue::Object(entries) => {
            proof {
                assert(decreases_to!(v, 0int => entries@, entries@.len() - 0));
            }
            TVal::Object(typed_view_entries(entries@, 0))
        },
    }
}

/// The views of the elements of `s` from index `i` on.
pub open spec fn typed_view_seq(s: Seq<TypedValue>, i: int) -> Seq<TVal>
    decreases s, s.len() - i,
{
    if i < 0 || i >= s.len() {
        Seq::empty()
    } else {
        seq![typed_view(s[i])] + typed_view_seq(s, i + 1)
    }
}

/// The views of the key/value entries of `s` from index `i` on.
pub open spec fn typed_view_entries(s: Seq<(String, TypedValue)>, i: int) -> Seq<
    (Seq<char>, TVal),
>
    decreases s, s.len() - i,
{
    if i < 0 || i >= s.len() {
        Seq::empty()
    } else {
        proof {
            assert(decreases_to!(s, s.len() - i => s[i].1, 0int));
        }
        seq![(s[i].0@, typed_view(s[i].1))] + typed_view_entries(s, i + 1)
    }
}

impl View for HostValue {
    type V = HVal;

    open spec fn view(&self) -> HVal {
        host_view(*self)
    }
}

impl View for TypedValue {
    type V = TVal;

    open spec fn view(&self) -> TVal {
        typed_view(*self)
    }
}

/// Strict lexicographic order on key sequences, by character code point.
pub open spec fn key_lt(a: Seq<char>, b: Seq<char>) -> bool
    decreases a.len(),
{
    if b.len() == 0 {
        false
    } else if a.len() == 0 {
        true
    } else if a[0] != b[0] {
        (a[0] as int) < (b[0] as int)
    } else {
        key_lt(a.drop_first(), b.drop_first())
    }
}

/// Entries are sorted by strictly ascending key (hence keys are unique).
pub open spec fn entries_sorted(es: Seq<(Seq<char>, TVal)>) -> bool {
    forall|i: int, j: int| 0 <= i < j < es.len() ==> key_lt(es[i].0, es[j].0)
}

/// Well-formedness of a typed value: every object, at every depth, holds its
/// entries in strictly ascending key order.
pub open spec fn tval_wf(v: TVal) -> bool
    decreases v,
{
    match v {
        TVal::Array(items) => forall|i: int|
            0 <= i < items.len() ==> tval_wf(#[trigger] items[i]),
        TVal::Object(es) => entries_sorted(es) && forall|i: int|
            0 <= i < es.len() ==> tval_wf(#[trigger] es[i].1),
        _ => true,
    }
}

} // verus!
