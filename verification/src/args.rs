//! The argument-map codec: host map entries in host iteration order become a
//! key-ordered string-keyed typed map, and back. Decoding aborts on the
//! first failing entry; encoding is total.

use vstd::prelude::*;

use crate::codec::ConversionError;
use crate::codec::decode;
use crate::codec::decode_entries_spec;
use crate::codec::encode;
use crate::codec::encode_entries_spec;
use crate::codec::lemma_host_view_pairs_index;
use crate::codec::lemma_encode_entries_index;
use crate::codec::lemma_typed_view_entries_index;
use crate::codec::obj_insert_exec;
use crate::value::HVal;
use crate::value::HostValue;
use crate::value::TypedValue;
use crate::value::host_view;
use crate::value::host_view_pairs;
use crate::value::typed_view;
use crate::value::typed_view_entries;

verus! {

/// What decoding a host argument map means: the fold of the entry decoder
/// over the pairs, starting from the empty ordered map.
pub open spec fn decode_args_spec(entries: Seq<(HostValue, HostValue)>) -> Result<
    Seq<(Seq<char>, crate::value::TVal)>,
    ConversionError,
> {
    decode_entries_spec(host_view_pairs(entries, 0), 0, Seq::empty())
}

/// Decodes a host map, given as its entries in host iteration order, into a
/// key-ordered typed map; the first failing key or value aborts the whole
/// conversion with that error.
#[verifier::loop_isolation(false)]
pub fn decode_args(entries: &Vec<(HostValue, HostValue)>) -> (r: Result<
    Vec<(String, TypedValue)>,
    ConversionError,
>)
    ensures
        match r {
            Ok(m) => decode_args_spec(entries@) == Ok::<_, ConversionError>(
                typed_view_entries(m@, 0),
            ),
            Err(e) => decode_args_spec(entries@) == Err::<Seq<(Seq<char>, crate::value::TVal)>, _>(
                e,
            ),
        },
{
    let ghost hs = host_view_pairs(entries@, 0);
    proof {
        lemma_host_view_pairs_index(entries@, 0);
    }
    let mut out: Vec<(String, TypedValue)> = Vec::new();
    let mut j: usize = 0;
    while j < entries.len()
        invariant
            j <= entries@.len(),
            decode_entries_spec(hs, 0, Seq::empty()) == decode_entries_spec(
                hs,
                j as int,
                typed_view_entries(out@, 0),
            ),
        decreases entries@.len() - j,
    {
        let e = &entries[j];
        match &e.0 {
            HostValue::Text(k) => {
                match decode(&e.1) {
                    Ok(tv) => {
                        let key = k.clone();
                        obj_insert_exec(&mut out, key, tv);
                        j = j + 1;
                    },
                    Err(err) => {
                        return Err(err);
                    },
                }
            },
            _ => {
                return Err(ConversionError::InvalidKey);
            },
        }
    }
    Ok(out)
}

/// Encodes a key-ordered typed map into host map entries, one pair per
/// entry, in the map's key order; total, as every typed value encodes.
#[verifier::loop_isolation(false)]
pub fn encode_args(map: &Vec<(String, TypedValue)>) -> (r: Vec<(HostValue, HostValue)>)
    ensures
        host_view_pairs(r@, 0) == encode_entries_spec(typed_view_entries(map@, 0), 0),
{
    let mut out: Vec<(HostValue, HostValue)> = Vec::new();
    let mut j: usize = 0;
    while j < map.len()
        invariant
            j <= map@.len(),
            out@.len() == j,
            forall|l: int|
                0 <= l < j ==> host_view(#[trigger] out@[l].0) == HVal::Text(map@[l].0@)
                    && host_view(out@[l].1) == crate::codec::encode_spec(typed_view(map@[l].1)),
        decreases map@.len() - j,
    {
        let e = &map[j];
        let hv = encode(&e.1);
        out.push((HostValue::Text(e.0.clone()), hv));
        j = j + 1;
    }
    proof {
        lemma_host_view_pairs_index(out@, 0);
        lemma_typed_view_entries_index(map@, 0);
        lemma_encode_entries_index(typed_view_entries(map@, 0), 0);
        assert(host_view_pairs(out@, 0) =~= encode_entries_spec(typed_view_entries(map@, 0), 0));
    }
    out
}

} // verus!
