//! The bidirectional codec between host dynamic values and backend typed
//! values: a total, recursive mapping defined first at the ghost level
//! (`encode_spec` / `decode_spec`) and then implemented by verified
//! executable functions whose contracts are exactly those spec functions.

use vstd::prelude::*;

use crate::value::HVal;
use crate::value::HostValue;
use crate::value::TVal;
use crate::value::TypedValue;
use crate::value::entries_sorted;
use crate::value::host_view;
use crate::value::host_view_pairs;
use crate::value::host_view_seq;
use crate::value::key_lt;
use crate::value::tval_wf;
use crate::value::typed_view;
use crate::value::typed_view_entries;
use crate::value::typed_view_seq;

verus! {

/// Why a host value was rejected by the decoder.
#[derive(Clone, Copy, Debug, PartialEq, Eq, Structural)]
pub enum ConversionError {
    /// The host value (or one nested inside) carries a tag outside the
    /// mapped set; the payload is the host's numeric tag code.
    UnsupportedHostType(u32),
    /// A host map key is not a string.
    InvalidKey,
}

/// Encoding a typed value into a host value: total, defined for every
/// variant; object entries become a host map whose pairs keep the object's
/// key order.
pub open spec fn encode_spec(v: TVal) -> HVal
    decreases v, 0int,
{
    match v {
        TVal::Null => HVal::Nil,
        TVal::Boolean(b) => HVal::Bool(b),
        TVal::Int64(i) => HVal::Int(i),
        TVal::Float64(bits) => HVal::Float(bits),
        TVal::Text(s) => HVal::Text(s),
        TVal::Bytes(b) => HVal::Bytes(b),
        TVal::Array(items) => HVal::Arr(encode_seq_spec(items, 0)),
        TVal::Object(es) => HVal::Dict(encode_entries_spec(es, 0)),
    }
}

/// The encodings of the elements of `s` from index `i` on.
pub open spec fn encode_seq_spec(s: Seq<TVal>, i: int) -> Seq<HVal>
    decreases s, s.len() - i,
{
    if i < 0 || i >= s.len() {
        Seq::empty()
    } else {
        seq![encode_spec(s[i])] + encode_seq_spec(s, i + 1)
    }
}

/// The encodings of the object entries of `s` from index `i` on: each entry
/// becomes a string-keyed host pair.
pub open spec fn encode_entries_spec(s: Seq<(Seq<char>, TVal)>, i: int) -> Seq<(HVal, HVal)>
    decreases s, s.len() - i,
{
    if i < 0 || i >= s.len() {
        Seq::empty()
    } else {
        proof {
            assert(decreases_to!(s, s.len() - i => s[i].1, 0int));
        }
        seq![(HVal::Text(s[i].0), encode_spec(s[i].1))] + encode_entries_spec(s, i + 1)
    }
}

/// Insertion into a key-sorted entry sequence: an existing entry with the
/// same key is overwritten, otherwise the new entry lands at its ordered
/// position.
pub open spec fn obj_insert(es: Seq<(Seq<char>, TVal)>, k: Seq<char>, v: TVal) -> Seq<
    (Seq<char>, TVal),
>
    decreases es.len(),
{
    if es.len() == 0 {
        seq![(k, v)]
    } else if key_lt(k, es[0].0) {
        seq![(k, v)] + es
    } else if k == es[0].0 {
        seq![(k, v)] + es.drop_first()
    } else {
        seq![es[0]] + obj_insert(es.drop_first(), k, v)
    }
}

/// Decoding a host value into a typed value: total over the recognized host
/// tags, rejecting opaque tags; sequences and maps decode element-wise with
/// the first error aborting the whole conversion.
pub open spec fn decode_spec(h: HVal) -> Result<TVal, ConversionError>
    decreases h, 0int,
{
    match h {
        HVal::Nil => Ok(TVal::Null),
        HVal::Bool(b) => Ok(TVal::Boolean(b)),
        HVal::Int(i) => Ok(TVal::Int64(i)),
        HVal::Float(bits) => Ok(TVal::Float64(bits)),
        HVal::Text(s) => Ok(TVal::Text(s)),
        HVal::Bytes(b) => Ok(TVal::Bytes(b)),
        HVal::Arr(items) => match decode_seq_spec(items, 0, Seq::empty()) {
            Ok(ts) => Ok(TVal::Array(ts)),
            Err(e) => Err(e),
        },
        HVal::Dict(entries) => match decode_entries_spec(entries, 0, Seq::empty()) {
            Ok(es) => Ok(TVal::Object(es)),
            Err(e) => Err(e),
        },
        HVal::Opaque(tag) => Err(ConversionError::UnsupportedHostType(tag)),
    }
}

/// Decodes the elements of `s` from index `i` on, appending to `acc`; the
/// first failing element decides the error.
pub open spec fn decode_seq_spec(s: Seq<HVal>, i: int, acc: Seq<TVal>) -> Result<
    Seq<TVal>,
    ConversionError,
>
    decreases s, s.len() - i,
{
    if i < 0 || i >= s.len() {
        Ok(acc)
    } else {
        match decode_spec(s[i]) {
            Err(e) => Err(e),
            Ok(t) => decode_seq_spec(s, i + 1, acc.push(t)),
        }
    }
}

/// Decodes host map pairs from index `i` on, inserting into the key-sorted
/// accumulator `acc`; a non-string key fails with `InvalidKey`, a failing
/// value decides the error, and a repeated key overwrites the earlier entry.
pub open spec fn decode_entries_spec(
    s: Seq<(HVal, HVal)>,
    i: int,
    acc: Seq<(Seq<char>, TVal)>,
) -> Result<Seq<(Seq<char>, TVal)>, ConversionError>
    decreases s, s.len() - i,
{
    if i < 0 || i >= s.len() {
        Ok(acc)
    } else {
        proof {
            assert(decreases_to!(s, s.len() - i => s[i].1, 0int));
        }
        match s[i].0 {
            HVal::Text(k) => match decode_spec(s[i].1) {
                Err(e) => Err(e),
                Ok(t) => decode_entries_spec(s, i + 1, obj_insert(acc, k, t)),
            },
            _ => Err(ConversionError::InvalidKey),
        }
    }
}

/// The key order never holds in both directions at once.
pub proof fn lemma_key_lt_asym(a: Seq<char>, b: Seq<char>)
    ensures
        !(key_lt(a, b) && key_lt(b, a)),
    decreases a.len(),
{
    if a.len() > 0 && b.len() > 0 && a[0] == b[0] {
        lemma_key_lt_asym(a.drop_first(), b.drop_first());
    }
}

/// Keys that the order separates in neither direction are equal.
pub proof fn lemma_key_lt_connex(a: Seq<char>, b: Seq<char>)
    ensures
        !key_lt(a, b) && !key_lt(b, a) ==> a == b,
    decreases a.len(),
{
    if a.len() > 0 && b.len() > 0 && a[0] != b[0] {
        assert((a[0] as int) != (b[0] as int));
    }
    if a.len() > 0 && b.len() > 0 && a[0] == b[0] && !key_lt(a, b) && !key_lt(b, a) {
        lemma_key_lt_connex(a.drop_first(), b.drop_first());
        assert(a =~= b) by {
            assert(a.drop_first() == b.drop_first());
            assert(a.drop_first().len() == a.len() - 1);
            assert(b.drop_first().len() == b.len() - 1);
            assert(a.len() == b.len());
            assert forall|l: int| 0 <= l < a.len() implies a[l] == b[l] by {
                if l > 0 {
                    assert(a.drop_first()[l - 1] == a[l]);
                    assert(b.drop_first()[l - 1] == b[l]);
                }
            }
        }
    }
}

/// The key order is transitive.
pub proof fn lemma_key_lt_trans(a: Seq<char>, b: Seq<char>, c: Seq<char>)
    requires
        key_lt(a, b),
        key_lt(b, c),
    ensures
        key_lt(a, c),
    decreases a.len(),
{
    if a.len() > 0 && b.len() > 0 && c.len() > 0 && a[0] == b[0] && b[0] == c[0] {
        lemma_key_lt_trans(a.drop_first(), b.drop_first(), c.drop_first());
    }
}

/// Sharing a common prefix of length `i`, two keys compare as their suffixes do.
pub proof fn lemma_key_lt_skip(a: Seq<char>, b: Seq<char>, i: int)
    requires
        0 <= i <= a.len(),
        i <= b.len(),
        forall|l: int| 0 <= l < i ==> a[l] == b[l],
    ensures
        key_lt(a, b) == key_lt(a.skip(i), b.skip(i)),
    decreases i,
{
    if i > 0 {
        assert(a[0] == b[0]);
        lemma_key_lt_skip(a.drop_first(), b.drop_first(), i - 1);
        assert(forall|l: int|
            0 <= l < i - 1 ==> a.drop_first()[l] == b.drop_first()[l]) by {
            assert(forall|l: int| 0 <= l < i - 1 ==> a.drop_first()[l] == a[l + 1]);
        }
        assert(a.drop_first().skip(i - 1) =~= a.skip(i));
        assert(b.drop_first().skip(i - 1) =~= b.skip(i));
    } else {
        assert(a.skip(0) =~= a);
        assert(b.skip(0) =~= b);
    }
}

/// Decides the key order on two strings.
pub fn key_lt_exec(a: &str, b: &str) -> (r: bool)
    ensures
        r == key_lt(a@, b@),
{
    let alen = a.unicode_len();
    let blen = b.unicode_len();
    let mut i: usize = 0;
    while i < alen && i < blen
        invariant
            alen == a@.len(),
            blen == b@.len(),
            i <= alen,
            i <= blen,
            forall|l: int| 0 <= l < i ==> a@[l] == b@[l],
        decreases alen - i,
    {
        let ca = a.get_char(i);
        let cb = b.get_char(i);
        if ca != cb {
            proof {
                lemma_key_lt_skip(a@, b@, i as int);
            }
            return ca < cb;
        }
        i = i + 1;
    }
    proof {
        lemma_key_lt_skip(a@, b@, i as int);
    }
    i < blen
}

/// The elements of `typed_view_seq(s, i)` are the views of the elements of
/// `s` from `i` on.
pub proof fn lemma_typed_view_seq_index(s: Seq<TypedValue>, i: int)
    requires
        0 <= i <= s.len(),
    ensures
        typed_view_seq(s, i).len() == s.len() - i,
        forall|j: int|
            0 <= j < s.len() - i ==> typed_view_seq(s, i)[j] == typed_view(s[i + j]),
    decreases s.len() - i,
{
    if i < s.len() {
        lemma_typed_view_seq_index(s, i + 1);
    }
}

/// The entries of `typed_view_entries(s, i)` are the views of the entries of
/// `s` from `i` on.
pub proof fn lemma_typed_view_entries_index(s: Seq<(String, TypedValue)>, i: int)
    requires
        0 <= i <= s.len(),
    ensures
        typed_view_entries(s, i).len() == s.len() - i,
        forall|j: int|
            0 <= j < s.len() - i ==> typed_view_entries(s, i)[j] == (
                s[i + j].0@,
                typed_view(s[i + j].1),
            ),
    decreases s.len() - i,
{
    if i < s.len() {
        lemma_typed_view_entries_index(s, i + 1);
    }
}

/// The elements of `host_view_seq(s, i)` are the views of the elements of
/// `s` from `i` on.
pub proof fn lemma_host_view_seq_index(s: Seq<HostValue>, i: int)
    requires
        0 <= i <= s.len(),
    ensures
        host_view_seq(s, i).len() == s.len() - i,
        forall|j: int| 0 <= j < s.len() - i ==> host_view_seq(s, i)[j] == host_view(s[i + j]),
    decreases s.len() - i,
{
    if i < s.len() {
        lemma_host_view_seq_index(s, i + 1);
    }
}

/// The pairs of `host_view_pairs(s, i)` are the views of the pairs of `s`
/// from `i` on.
pub proof fn lemma_host_view_pairs_index(s: Seq<(HostValue, HostValue)>, i: int)
    requires
        0 <= i <= s.len(),
    ensures
        host_view_pairs(s, i).len() == s.len() - i,
        forall|j: int|
            0 <= j < s.len() - i ==> host_view_pairs(s, i)[j] == (
                host_view(s[i + j].0),
                host_view(s[i + j].1),
            ),
    decreases s.len() - i,
{
    if i < s.len() {
        lemma_host_view_pairs_index(s, i + 1);
    }
}

/// The elements of `encode_seq_spec(s, i)` are the encodings of the elements
/// of `s` from `i` on.
pub proof fn lemma_encode_seq_index(s: Seq<TVal>, i: int)
    requires
        0 <= i <= s.len(),
    ensures
        encode_seq_spec(s, i).len() == s.len() - i,
        forall|j: int|
            0 <= j < s.len() - i ==> encode_seq_spec(s, i)[j] == encode_spec(s[i + j]),
    decreases s.len() - i,
{
    if i < s.len() {
        lemma_encode_seq_index(s, i + 1);
    }
}

/// The pairs of `encode_entries_spec(s, i)` are the encoded entries of `s`
/// from `i` on.
pub proof fn lemma_encode_entries_index(s: Seq<(Seq<char>, TVal)>, i: int)
    requires
        0 <= i <= s.len(),
    ensures
        encode_entries_spec(s, i).len() == s.len() - i,
        forall|j: int|
            0 <= j < s.len() - i ==> encode_entries_spec(s, i)[j] == (
                HVal::Text(s[i + j].0),
                encode_spec(s[i + j].1),
            ),
    decreases s.len() - i,
{
    if i < s.len() {
        lemma_encode_entries_index(s, i + 1);
    }
}

/// Round trip: decoding the encoding of any well-formed typed value gives
/// back that very value.
pub proof fn lemma_round_trip(v: TVal)
    requires
        tval_wf(v),
    ensures
        decode_spec(encode_spec(v)) == Ok::<TVal, ConversionError>(v),
    decreases v, 0int,
{
    match v {
        TVal::Array(items) => {
            lemma_round_trip_seq(items, 0);
            assert(items.take(0) =~= Seq::empty());
        },
        TVal::Object(es) => {
            lemma_round_trip_entries(es, 0);
            assert(es.take(0) =~= Seq::empty());
        },
        _ => {},
    }
}

proof fn lemma_round_trip_seq(items: Seq<TVal>, j: int)
    requires
        0 <= j <= items.len(),
        forall|l: int| 0 <= l < items.len() ==> tval_wf(#[trigger] items[l]),
    ensures
        decode_seq_spec(encode_seq_spec(items, 0), j, items.take(j)) == Ok::<
            Seq<TVal>,
            ConversionError,
        >(items),
    decreases items, items.len() - j,
{
    let hs = encode_seq_spec(items, 0);
    lemma_encode_seq_index(items, 0);
    if j == items.len() {
        assert(items.take(j) =~= items);
    } else {
        lemma_round_trip(items[j]);
        lemma_round_trip_seq(items, j + 1);
        assert(items.take(j).push(items[j]) =~= items.take(j + 1));
    }
}

proof fn lemma_round_trip_entries(es: Seq<(Seq<char>, TVal)>, j: int)
    requires
        0 <= j <= es.len(),
        entries_sorted(es),
        forall|l: int| 0 <= l < es.len() ==> tval_wf(#[trigger] es[l].1),
    ensures
        decode_entries_spec(encode_entries_spec(es, 0), j, es.take(j)) == Ok::<
            Seq<(Seq<char>, TVal)>,
            ConversionError,
        >(es),
    decreases es, es.len() - j,
{
    let hs = encode_entries_spec(es, 0);
    lemma_encode_entries_index(es, 0);
    if j == es.len() {
        assert(es.take(j) =~= es);
    } else {
        lemma_round_trip(es[j].1);
        assert forall|l: int| 0 <= l < j implies key_lt(#[trigger] es.take(j)[l].0, es[j].0) by {
            assert(es.take(j)[l] == es[l]);
        }
        lemma_obj_insert_skip(es.take(j), es[j].0, es[j].1, j);
        assert(es.take(j).skip(j) =~= Seq::empty());
        assert(es.take(j).take(j) =~= es.take(j));
        assert(obj_insert(Seq::empty(), es[j].0, es[j].1) == seq![(es[j].0, es[j].1)]);
        assert(es.take(j) + seq![(es[j].0, es[j].1)] =~= es.take(j + 1));
        assert(obj_insert(es.take(j), es[j].0, es[j].1) == es.take(j + 1));
        lemma_round_trip_entries(es, j + 1);
    }
}

/// Pushing an element extends the sequence of views by the element's view.
pub proof fn lemma_typed_view_seq_push(s: Seq<TypedValue>, x: TypedValue)
    ensures
        typed_view_seq(s.push(x), 0) == typed_view_seq(s, 0).push(typed_view(x)),
{
    lemma_typed_view_seq_index(s.push(x), 0);
    lemma_typed_view_seq_index(s, 0);
    assert(typed_view_seq(s.push(x), 0) =~= typed_view_seq(s, 0).push(typed_view(x)));
}

/// Once every entry before `j` is known to sort below `k`, insertion acts
/// only on the rest of the sequence.
pub proof fn lemma_obj_insert_skip(es: Seq<(Seq<char>, TVal)>, k: Seq<char>, v: TVal, j: int)
    requires
        0 <= j <= es.len(),
        forall|l: int| 0 <= l < j ==> key_lt(#[trigger] es[l].0, k),
    ensures
        obj_insert(es, k, v) == es.take(j) + obj_insert(es.skip(j), k, v),
    decreases j,
{
    if j == 0 {
        assert(es.skip(0) =~= es);
        assert(es.take(0) + obj_insert(es, k, v) =~= obj_insert(es, k, v));
    } else {
        assert(key_lt(es[0].0, k));
        lemma_key_lt_asym(es[0].0, k);
        assert(k != es[0].0) by {
            if k == es[0].0 {
                lemma_key_lt_asym(k, k);
            }
        }
        let tail = es.drop_first();
        assert forall|l: int| 0 <= l < j - 1 implies key_lt(#[trigger] tail[l].0, k) by {
            assert(tail[l] == es[l + 1]);
        }
        lemma_obj_insert_skip(tail, k, v, j - 1);
        assert(obj_insert(es, k, v) == seq![es[0]] + obj_insert(tail, k, v));
        assert(tail.take(j - 1) =~= es.subrange(1, j));
        assert(tail.skip(j - 1) =~= es.skip(j));
        assert(seq![es[0]] + (tail.take(j - 1) + obj_insert(tail.skip(j - 1), k, v)) =~= es.take(
            j,
        ) + obj_insert(es.skip(j), k, v));
    }
}

/// Finds the first position whose key does not sort below `k`.
fn lower_pos(es: &Vec<(String, TypedValue)>, k: &str) -> (j: usize)
    ensures
        j <= es@.len(),
        forall|l: int| 0 <= l < j ==> key_lt(#[trigger] es@[l].0@, k@),
        j < es@.len() ==> !key_lt(es@[j as int].0@, k@),
{
    let mut j: usize = 0;
    while j < es.len()
        invariant
            j <= es@.len(),
            forall|l: int| 0 <= l < j ==> key_lt(#[trigger] es@[l].0@, k@),
        decreases es@.len() - j,
    {
        if !key_lt_exec(es[j].0.as_str(), k) {
            return j;
        }
        j = j + 1;
    }
    j
}

/// Inserts an entry into a key-sorted entry vector, overwriting an entry
/// with the same key, so that the views relate by `obj_insert`.
pub fn obj_insert_exec(es: &mut Vec<(String, TypedValue)>, k: String, v: TypedValue)
    ensures
        typed_view_entries(final(es)@, 0) == obj_insert(
            typed_view_entries(old(es)@, 0),
            k@,
            typed_view(v),
        ),
{
    let ghost ves = typed_view_entries(es@, 0);
    let ghost olds = es@;
    proof {
        lemma_typed_view_entries_index(es@, 0);
    }
    let j = lower_pos(es, k.as_str());
    proof {
        lemma_obj_insert_skip(ves, k@, typed_view(v), j as int);
    }
    if j < es.len() {
        if key_lt_exec(k.as_str(), es[j].0.as_str()) {
            proof {
                assert(ves.skip(j as int)[0] == ves[j as int]);
            }
            let ghost vk = k@;
            let ghost vv = typed_view(v);
            es.insert(j, (k, v));
            proof {
                lemma_typed_view_entries_index(es@, 0);
                assert(obj_insert(ves.skip(j as int), vk, vv) == seq![(vk, vv)] + ves.skip(
                    j as int,
                ));
                assert(typed_view_entries(es@, 0) =~= ves.take(j as int) + (seq![(vk, vv)]
                    + ves.skip(j as int)));
            }
        } else {
            proof {
                lemma_key_lt_connex(k@, olds[j as int].0@);
                assert(k@ == olds[j as int].0@);
                assert(ves.skip(j as int)[0] == ves[j as int]);
            }
            let ghost vk = k@;
            let ghost vv = typed_view(v);
            es.remove(j);
            es.insert(j, (k, v));
            proof {
                lemma_typed_view_entries_index(es@, 0);
                assert(!key_lt(vk, ves.skip(j as int)[0].0));
                assert(obj_insert(ves.skip(j as int), vk, vv) == seq![(vk, vv)] + ves.skip(
                    j as int,
                ).drop_first());
                assert(typed_view_entries(es@, 0) =~= ves.take(j as int) + (seq![(vk, vv)]
                    + ves.skip(j as int).drop_first()));
            }
        }
    } else {
        let ghost vk = k@;
        let ghost vv = typed_view(v);
        es.push((k, v));
        proof {
            lemma_typed_view_entries_index(es@, 0);
            assert(ves.skip(j as int) =~= Seq::empty());
            assert(obj_insert(ves.skip(j as int), vk, vv) == seq![(vk, vv)]);
            assert(ves.take(j as int) =~= ves);
            assert(typed_view_entries(es@, 0) =~= ves + seq![(vk, vv)]);
        }
    }
}

/// Decides equality of two byte vectors.
fn bytes_eq(a: &Vec<u8>, b: &Vec<u8>) -> (r: bool)
    ensures
        r == (a@ == b@),
{
    if a.len() != b.len() {
        return false;
    }
    let mut j: usize = 0;
    while j < a.len()
        invariant
            a@.len() == b@.len(),
            j <= a@.len(),
            forall|l: int| 0 <= l < j ==> a@[l] == b@[l],
        decreases a@.len() - j,
    {
        if a[j] != b[j] {
            return false;
        }
        j = j + 1;
    }
    proof {
        assert(a@ =~= b@);
    }
    true
}

/// The view keeps the variant: each typed value and its view are tagged
/// alike.
proof fn lemma_typed_view_variant(v: TypedValue)
    ensures
        (v is Null <==> typed_view(v) is Null),
        (v is Boolean <==> typed_view(v) is Boolean),
        (v is Int64 <==> typed_view(v) is Int64),
        (v is Float64 <==> typed_view(v) is Float64),
        (v is Text <==> typed_view(v) is Text),
        (v is Bytes <==> typed_view(v) is Bytes),
        (v is Array <==> typed_view(v) is Array),
        (v is Object <==> typed_view(v) is Object),
{
    match v {
        TypedValue::Null => {},
        TypedValue::Boolean(_) => {},
        TypedValue::Int64(_) => {},
        TypedValue::Float64(_) => {},
        TypedValue::Text(_) => {},
        TypedValue::Bytes(_) => {},
        TypedValue::Array(_) => {},
        TypedValue::Object(_) => {},
    }
}

/// Decides deep equality of two typed values: true exactly when their views
/// are equal.
#[verifier::loop_isolation(false)]
pub fn value_eq(a: &TypedValue, b: &TypedValue) -> (r: bool)
    ensures
        r == (a@ == b@),
    decreases *a,
{
    match (a, b) {
        (TypedValue::Null, TypedValue::Null) => true,
        (TypedValue::Boolean(x), TypedValue::Boolean(y)) => *x == *y,
        (TypedValue::Int64(x), TypedValue::Int64(y)) => *x == *y,
        (TypedValue::Float64(x), TypedValue::Float64(y)) => *x == *y,
        (TypedValue::Text(x), TypedValue::Text(y)) => *x == *y,
        (TypedValue::Bytes(x), TypedValue::Bytes(y)) => bytes_eq(x, y),
        (TypedValue::Array(x), TypedValue::Array(y)) => {
            proof {
                lemma_typed_view_seq_index(x@, 0);
                lemma_typed_view_seq_index(y@, 0);
            }
            if x.len() != y.len() {
                proof {
                    assert(a@ == TVal::Array(typed_view_seq(x@, 0)));
                    assert(b@ == TVal::Array(typed_view_seq(y@, 0)));
                    assert(typed_view_seq(x@, 0).len() != typed_view_seq(y@, 0).len());
                }
                return false;
            }
            let mut j: usize = 0;
            while j < x.len()
                invariant
                    x@.len() == y@.len(),
                    j <= x@.len(),
                    forall|l: int|
                        0 <= l < j ==> typed_view(#[trigger] x@[l]) == typed_view(y@[l]),
                decreases x@.len() - j,
            {
                proof {
                    assert(decreases_to!(*a => x@));
                    assert(decreases_to!(x@ => x@[j as int]));
                    assert(decreases_to!(*a => x@[j as int]));
                }
                if !value_eq(&x[j], &y[j]) {
                    proof {
                        assert(typed_view_seq(x@, 0)[j as int] == typed_view(x@[j as int]));
                        assert(typed_view_seq(y@, 0)[j as int] == typed_view(y@[j as int]));
                        assert(a@ == TVal::Array(typed_view_seq(x@, 0)));
                        assert(b@ == TVal::Array(typed_view_seq(y@, 0)));
                    }
                    return false;
                }
                j = j + 1;
            }
            proof {
                assert(typed_view_seq(x@, 0) =~= typed_view_seq(y@, 0));
            }
            true
        },
        (TypedValue::Object(x), TypedValue::Object(y)) => {
            proof {
                lemma_typed_view_entries_index(x@, 0);
                lemma_typed_view_entries_index(y@, 0);
            }
            if x.len() != y.len() {
                proof {
                    assert(a@ == TVal::Object(typed_view_entries(x@, 0)));
                    assert(b@ == TVal::Object(typed_view_entries(y@, 0)));
                    assert(typed_view_entries(x@, 0).len() != typed_view_entries(y@, 0).len());
                }
                return false;
            }
            let mut j: usize = 0;
            while j < x.len()
                invariant
                    x@.len() == y@.len(),
                    j <= x@.len(),
                    forall|l: int|
                        0 <= l < j ==> (#[trigger] x@[l]).0@ == y@[l].0@ && typed_view(x@[l].1)
                            == typed_view(y@[l].1),
                decreases x@.len() - j,
            {
                proof {
                    assert(decreases_to!(*a => x@));
                    assert(decreases_to!(x@ => x@[j as int]));
                    assert(decreases_to!(x@[j as int] => x@[j as int].1));
                    assert(decreases_to!(*a => x@[j as int].1));
                }
                let ex = &x[j];
                let ey = &y[j];
                proof {
                    assert(typed_view_entries(x@, 0)[j as int] == (
                        x@[j as int].0@,
                        typed_view(x@[j as int].1),
                    ));
                    assert(typed_view_entries(y@, 0)[j as int] == (
                        y@[j as int].0@,
                        typed_view(y@[j as int].1),
                    ));
                    assert(a@ == TVal::Object(typed_view_entries(x@, 0)));
                    assert(b@ == TVal::Object(typed_view_entries(y@, 0)));
                }
                if !(ex.0 == ey.0) {
                    return false;
                }
                if !value_eq(&ex.1, &ey.1) {
                    return false;
                }
                j = j + 1;
            }
            proof {
                assert(typed_view_entries(x@, 0) =~= typed_view_entries(y@, 0));
            }
            true
        },
        _ => {
            proof {
                lemma_typed_view_variant(*a);
                lemma_typed_view_variant(*b);
            }
            false
        },
    }
}

/// Copies a byte vector.
fn copy_bytes(b: &Vec<u8>) -> (r: Vec<u8>)
    ensures
        r@ == b@,
{
    let mut r: Vec<u8> = Vec::new();
    let mut j: usize = 0;
    while j < b.len()
        invariant
            j <= b@.len(),
            r@ == b@.take(j as int),
        decreases b@.len() - j,
    {
        r.push(b[j]);
        proof {
            assert(r@ =~= b@.take(j as int + 1));
        }
        j = j + 1;
    }
    proof {
        assert(b@.take(b@.len() as int) =~= b@);
    }
    r
}

/// Encodes a typed value into its host representation: total, and exactly
/// `encode_spec` on the views.
#[verifier::loop_isolation(false)]
pub fn encode(v: &TypedValue) -> (r: HostValue)
    ensures
        r@ == encode_spec(v@),
    decreases *v,
{
    match v {
        TypedValue::Null => HostValue::Nil,
        TypedValue::Boolean(b) => HostValue::Bool(*b),
        TypedValue::Int64(i) => HostValue::Int(*i),
        TypedValue::Float64(bits) => HostValue::Float(*bits),
        TypedValue::Text(s) => HostValue::Text(s.clone()),
        TypedValue::Bytes(b) => HostValue::Bytes(copy_bytes(b)),
        TypedValue::Array(items) => {
            let mut out: Vec<HostValue> = Vec::new();
            let mut j: usize = 0;
            while j < items.len()
                invariant
                    j <= items@.len(),
                    out@.len() == j,
                    forall|l: int|
                        0 <= l < j ==> host_view(#[trigger] out@[l]) == encode_spec(
                            typed_view(items@[l]),
                        ),
                decreases items@.len() - j,
            {
                proof {
                    assert(decreases_to!(*v => items@));
                    assert(decreases_to!(items@ => items@[j as int]));
                    assert(decreases_to!(*v => items@[j as int]));
                }
                let hv = encode(&items[j]);
                out.push(hv);
                j = j + 1;
            }
            proof {
                lemma_host_view_seq_index(out@, 0);
                lemma_typed_view_seq_index(items@, 0);
                lemma_encode_seq_index(typed_view_seq(items@, 0), 0);
                assert(host_view_seq(out@, 0) =~= encode_seq_spec(typed_view_seq(items@, 0), 0));
            }
            HostValue::Arr(out)
        },
        TypedValue::Object(entries) => {
            let mut out: Vec<(HostValue, HostValue)> = Vec::new();
            let mut j: usize = 0;
            while j < entries.len()
                invariant
                    j <= entries@.len(),
                    out@.len() == j,
                    forall|l: int|
                        0 <= l < j ==> host_view(#[trigger] out@[l].0) == HVal::Text(
                            entries@[l].0@,
                        ) && host_view(out@[l].1) == encode_spec(typed_view(entries@[l].1)),
                decreases entries@.len() - j,
            {
                proof {
                    assert(decreases_to!(*v => entries@));
                    assert(decreases_to!(entries@ => entries@[j as int].1));
                    assert(decreases_to!(*v => entries@[j as int].1));
                }
                let e = &entries[j];
                let hv = encode(&e.1);
                out.push((HostValue::Text(e.0.clone()), hv));
                j = j + 1;
            }
            proof {
                lemma_host_view_pairs_index(out@, 0);
                lemma_typed_view_entries_index(entries@, 0);
                lemma_encode_entries_index(typed_view_entries(entries@, 0), 0);
                assert(host_view_pairs(out@, 0) =~= encode_entries_spec(
                    typed_view_entries(entries@, 0),
                    0,
                ));
            }
            HostValue::Dict(out)
        },
    }
}

/// Decodes a host value into a typed value: exactly `decode_spec` on the
/// views, succeeding or failing with the very error `decode_spec` assigns.
#[verifier::loop_isolation(false)]
pub fn decode(h: &HostValue) -> (r: Result<TypedValue, ConversionError>)
    ensures
        match r {
            Ok(tv) => decode_spec(h@) == Ok::<TVal, ConversionError>(typed_view(tv)),
            Err(e) => decode_spec(h@) == Err::<TVal, ConversionError>(e),
        },
        r matches Ok(tv) ==> tval_wf(typed_view(tv)),
    decreases *h,
{
    proof {
        crate::laws::lemma_decode_wf(h@);
    }
    match h {
        HostValue::Nil => Ok(TypedValue::Null),
        HostValue::Bool(b) => Ok(TypedValue::Boolean(*b)),
        HostValue::Int(i) => Ok(TypedValue::Int64(*i)),
        HostValue::Float(bits) => Ok(TypedValue::Float64(*bits)),
        HostValue::Text(s) => Ok(TypedValue::Text(s.clone())),
        HostValue::Bytes(b) => Ok(TypedValue::Bytes(copy_bytes(b))),
        HostValue::Opaque(tag) => Err(ConversionError::UnsupportedHostType(*tag)),
        HostValue::Arr(items) => {
            let ghost hs = host_view_seq(items@, 0);
            proof {
                lemma_host_view_seq_index(items@, 0);
            }
            let mut out: Vec<TypedValue> = Vec::new();
            let mut j: usize = 0;
            while j < items.len()
                invariant
                    j <= items@.len(),
                    out@.len() == j,
                    hs == host_view_seq(items@, 0),
                    hs.len() == items@.len(),
                    decode_seq_spec(hs, 0, Seq::empty()) == decode_seq_spec(
                        hs,
                        j as int,
                        typed_view_seq(out@, 0),
                    ),
                decreases items@.len() - j,
            {
                proof {
                    lemma_host_view_seq_index(items@, 0);
                    assert(decreases_to!(*h => items@));
                    assert(decreases_to!(items@ => items@[j as int]));
                    assert(decreases_to!(*h => items@[j as int]));
                }
                let d = decode(&items[j]);
                match d {
                    Ok(tv) => {
                        proof {
                            lemma_typed_view_seq_push(out@, tv);
                        }
                        out.push(tv);
                        j = j + 1;
                    },
                    Err(e) => {
                        return Err(e);
                    },
                }
            }
            proof {
                lemma_typed_view_seq_index(out@, 0);
            }
            Ok(TypedValue::Array(out))
        },
        HostValue::Dict(entries) => {
            let ghost hs = host_view_pairs(entries@, 0);
            proof {
                lemma_host_view_pairs_index(entries@, 0);
            }
            let mut out: Vec<(String, TypedValue)> = Vec::new();
            let mut j: usize = 0;
            while j < entries.len()
                invariant
                    j <= entries@.len(),
                    hs == host_view_pairs(entries@, 0),
                    hs.len() == entries@.len(),
                    decode_entries_spec(hs, 0, Seq::empty()) == decode_entries_spec(
                        hs,
                        j as int,
                        typed_view_entries(out@, 0),
                    ),
                decreases entries@.len() - j,
            {
                proof {
                    lemma_host_view_pairs_index(entries@, 0);
                    assert(decreases_to!(*h => entries@));
                    assert(decreases_to!(entries@ => entries@[j as int].1));
                    assert(decreases_to!(*h => entries@[j as int].1));
                }
                let e = &entries[j];
                match &e.0 {
                    HostValue::Text(k) => {
                        let d = decode(&e.1);
                        match d {
                            Ok(tv) => {
                                let key = k.clone();
                                let ghost acc = typed_view_entries(out@, 0);
                                obj_insert_exec(&mut out, key, tv);
                                j = j + 1;
                            },
                            Err(e) => {
                                return Err(e);
                            },
                        }
                    },
                    _ => {
                        return Err(ConversionError::InvalidKey);
                    },
                }
            }
            proof {
                lemma_typed_view_entries_index(out@, 0);
            }
            Ok(TypedValue::Object(out))
        },
    }
}

} // verus!
