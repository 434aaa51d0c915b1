//! Laws of the codec beyond the round trip: decoded maps are well-formed
//! (key-sorted at every depth), and decoding a host map does not depend on
//! the host's iteration order when its keys are unique.

use vstd::prelude::*;

use crate::codec::ConversionError;
use crate::codec::decode_entries_spec;
use crate::codec::decode_seq_spec;
use crate::codec::decode_spec;
use crate::codec::lemma_key_lt_asym;
use crate::codec::lemma_key_lt_connex;
use crate::codec::lemma_key_lt_trans;
use crate::codec::obj_insert;
use crate::value::HVal;
use crate::value::TVal;
use crate::value::entries_sorted;
use crate::value::key_lt;
use crate::value::tval_wf;

verus! {

/// The entry keys of an object model, as a mathematical map from key to
/// value; on a duplicated key the earlier entry wins, which never arises on
/// a sorted sequence.
pub open spec fn obj_to_map(es: Seq<(Seq<char>, TVal)>) -> Map<Seq<char>, TVal>
    decreases es.len(),
{
    if es.len() == 0 {
        Map::empty()
    } else {
        obj_to_map(es.drop_first()).insert(es[0].0, es[0].1)
    }
}

/// Insertion keeps an entry sequence sorted, and every entry of the result
/// is the inserted pair or one of the old entries.
pub proof fn lemma_obj_insert_sorted(es: Seq<(Seq<char>, TVal)>, k: Seq<char>, v: TVal)
    requires
        entries_sorted(es),
    ensures
        entries_sorted(obj_insert(es, k, v)),
        forall|l: int|
            0 <= l < obj_insert(es, k, v).len() ==> (#[trigger] obj_insert(es, k, v)[l] == (k, v)
                || exists|m: int| 0 <= m < es.len() && obj_insert(es, k, v)[l] == es[m]),
    decreases es.len(),
{
    let res = obj_insert(es, k, v);
    if es.len() == 0 {
    } else if key_lt(k, es[0].0) {
        assert forall|i: int, j: int| 0 <= i < j < res.len() implies key_lt(
            res[i].0,
            res[j].0,
        ) by {
            if i == 0 {
                if j > 1 {
                    lemma_key_lt_trans(k, es[0].0, es[j - 1].0);
                }
            }
        }
        assert forall|l: int|
            0 <= l < res.len() implies (#[trigger] res[l] == (k, v) || exists|m: int|
            0 <= m < es.len() && res[l] == es[m]) by {
            if l > 0 {
                assert(res[l] == es[l - 1]);
            }
        }
    } else if k == es[0].0 {
        assert forall|i: int, j: int| 0 <= i < j < res.len() implies key_lt(
            res[i].0,
            res[j].0,
        ) by {
            if i == 0 {
                assert(res[j] == es[j]);
            } else {
                assert(res[i] == es[i]);
                assert(res[j] == es[j]);
            }
        }
        assert forall|l: int|
            0 <= l < res.len() implies (#[trigger] res[l] == (k, v) || exists|m: int|
            0 <= m < es.len() && res[l] == es[m]) by {
            if l > 0 {
                assert(res[l] == es[l]);
            }
        }
    } else {
        lemma_key_lt_connex(k, es[0].0);
        lemma_key_lt_asym(k, es[0].0);
        assert(key_lt(es[0].0, k));
        let tail = es.drop_first();
        assert forall|i: int, j: int| 0 <= i < j < tail.len() implies key_lt(
            #[trigger] tail[i].0,
            #[trigger] tail[j].0,
        ) by {
            assert(tail[i] == es[i + 1]);
            assert(tail[j] == es[j + 1]);
        }
        lemma_obj_insert_sorted(tail, k, v);
        let rec = obj_insert(tail, k, v);
        assert(res == seq![es[0]] + rec);
        assert forall|i: int, j: int| 0 <= i < j < res.len() implies key_lt(
            res[i].0,
            res[j].0,
        ) by {
            if i == 0 {
                assert(res[j] == rec[j - 1]);
                if rec[j - 1] == (k, v) {
                    assert(key_lt(es[0].0, k));
                } else {
                    let m = choose|m: int| 0 <= m < tail.len() && rec[j - 1] == tail[m];
                    assert(tail[m] == es[m + 1]);
                }
            } else {
                assert(res[i] == rec[i - 1]);
                assert(res[j] == rec[j - 1]);
            }
        }
        assert forall|l: int|
            0 <= l < res.len() implies (#[trigger] res[l] == (k, v) || exists|m: int|
            0 <= m < es.len() && res[l] == es[m]) by {
            if l == 0 {
                assert(res[0] == es[0]);
            } else {
                assert(res[l] == rec[l - 1]);
                if rec[l - 1] != (k, v) {
                    let m = choose|m: int| 0 <= m < tail.len() && rec[l - 1] == tail[m];
                    assert(tail[m] == es[m + 1]);
                }
            }
        }
    }
}

/// Insertion into the entry sequence is insertion into its map.
pub proof fn lemma_obj_insert_map(es: Seq<(Seq<char>, TVal)>, k: Seq<char>, v: TVal)
    ensures
        obj_to_map(obj_insert(es, k, v)) == obj_to_map(es).insert(k, v),
    decreases es.len(),
{
    let res = obj_insert(es, k, v);
    if es.len() == 0 {
        assert(res == seq![(k, v)]);
        assert(res.len() == 1);
        assert(res[0] == (k, v));
        assert(res.drop_first() =~= Seq::<(Seq<char>, TVal)>::empty());
        assert(obj_to_map(res.drop_first()) == Map::<Seq<char>, TVal>::empty());
        assert(obj_to_map(res) == Map::<Seq<char>, TVal>::empty().insert(k, v));
        assert(obj_to_map(es) == Map::<Seq<char>, TVal>::empty());
    } else if key_lt(k, es[0].0) {
        assert(res.drop_first() =~= es);
        assert(obj_to_map(res) =~= obj_to_map(es).insert(k, v));
    } else if k == es[0].0 {
        assert(res.drop_first() =~= es.drop_first());
        assert(obj_to_map(res) =~= obj_to_map(es).insert(k, v));
    } else {
        lemma_key_lt_asym(k, es[0].0);
        lemma_key_lt_connex(k, es[0].0);
        assert(k != es[0].0);
        lemma_obj_insert_map(es.drop_first(), k, v);
        assert(res.drop_first() =~= obj_insert(es.drop_first(), k, v));
        assert(res[0] == es[0]);
        assert(obj_to_map(res) == obj_to_map(es.drop_first()).insert(k, v).insert(
            es[0].0,
            es[0].1,
        ));
        assert(obj_to_map(es.drop_first()).insert(k, v).insert(es[0].0, es[0].1)
            =~= obj_to_map(es.drop_first()).insert(es[0].0, es[0].1).insert(k, v));
        assert(obj_to_map(res) =~= obj_to_map(es).insert(k, v));
    }
}

/// On a sorted sequence, the map holds exactly the entries: each entry is a
/// pair of the map, and each key of the map is the key of some entry.
pub proof fn lemma_obj_to_map_keys(es: Seq<(Seq<char>, TVal)>)
    requires
        entries_sorted(es),
    ensures
        forall|l: int|
            0 <= l < es.len() ==> obj_to_map(es).contains_pair(#[trigger] es[l].0, es[l].1),
        forall|k: Seq<char>|
            obj_to_map(es).dom().contains(k) ==> exists|l: int| 0 <= l < es.len() && (
            #[trigger] es[l].0) == k,
    decreases es.len(),
{
    if es.len() > 0 {
        let tail = es.drop_first();
        assert forall|i: int, j: int| 0 <= i < j < tail.len() implies key_lt(
            #[trigger] tail[i].0,
            #[trigger] tail[j].0,
        ) by {
            assert(tail[i] == es[i + 1]);
            assert(tail[j] == es[j + 1]);
        }
        lemma_obj_to_map_keys(tail);
        assert(!obj_to_map(tail).dom().contains(es[0].0)) by {
            if obj_to_map(tail).dom().contains(es[0].0) {
                let l = choose|l: int| 0 <= l < tail.len() && (#[trigger] tail[l].0) == es[0].0;
                assert(tail[l] == es[l + 1]);
                assert(key_lt(es[0].0, es[l + 1].0));
                lemma_key_lt_asym(es[0].0, es[0].0);
            }
        }
        assert(obj_to_map(es).dom() =~= obj_to_map(tail).dom().insert(es[0].0));
        assert forall|l: int|
            0 <= l < es.len() implies obj_to_map(es).contains_pair(
            #[trigger] es[l].0,
            es[l].1,
        ) by {
            if l > 0 {
                assert(tail[l - 1] == es[l]);
                assert(obj_to_map(tail).contains_pair(es[l].0, es[l].1));
                assert(es[l].0 != es[0].0) by {
                    assert(key_lt(es[0].0, es[l].0));
                    lemma_key_lt_asym(es[0].0, es[0].0);
                }
            }
        }
        assert forall|k: Seq<char>| obj_to_map(es).dom().contains(k) implies exists|l: int|
            0 <= l < es.len() && (#[trigger] es[l].0) == k by {
            if k == es[0].0 {
                assert(es[0].0 == k);
            } else {
                let l = choose|l: int| 0 <= l < tail.len() && (#[trigger] tail[l].0) == k;
                assert(es[l + 1].0 == k);
            }
        }
    }
}

/// Every typed value a decode can produce is well-formed: its objects are
/// key-sorted at every depth.
pub proof fn lemma_decode_wf(h: HVal)
    ensures
        decode_spec(h) matches Ok(t) ==> tval_wf(t),
    decreases h, 0int,
{
    match h {
        HVal::Arr(items) => {
            lemma_decode_seq_wf(items, 0, Seq::empty());
        },
        HVal::Dict(entries) => {
            lemma_decode_entries_wf(entries, 0, Seq::empty());
        },
        _ => {},
    }
}

proof fn lemma_decode_seq_wf(s: Seq<HVal>, i: int, acc: Seq<TVal>)
    requires
        forall|l: int| 0 <= l < acc.len() ==> tval_wf(#[trigger] acc[l]),
    ensures
        decode_seq_spec(s, i, acc) matches Ok(res) ==> forall|l: int|
            0 <= l < res.len() ==> tval_wf(#[trigger] res[l]),
    decreases s, s.len() - i,
{
    if 0 <= i < s.len() {
        match decode_spec(s[i]) {
            Ok(t) => {
                assert(decreases_to!(s, s.len() - i => s[i], 0int));
                lemma_decode_wf(s[i]);
                assert forall|l: int| 0 <= l < acc.push(t).len() implies tval_wf(
                    #[trigger] acc.push(t)[l],
                ) by {
                    if l < acc.len() {
                        assert(acc.push(t)[l] == acc[l]);
                    }
                }
                lemma_decode_seq_wf(s, i + 1, acc.push(t));
            },
            Err(_) => {},
        }
    }
}

proof fn lemma_decode_entries_wf(s: Seq<(HVal, HVal)>, i: int, acc: Seq<(Seq<char>, TVal)>)
    requires
        entries_sorted(acc),
        forall|l: int| 0 <= l < acc.len() ==> tval_wf(#[trigger] acc[l].1),
    ensures
        decode_entries_spec(s, i, acc) matches Ok(res) ==> entries_sorted(res) && (forall|l: int|
            0 <= l < res.len() ==> tval_wf(#[trigger] res[l].1)),
    decreases s, s.len() - i,
{
    if 0 <= i < s.len() {
        match s[i].0 {
            HVal::Text(k) => {
                match decode_spec(s[i].1) {
                    Ok(t) => {
                        assert(decreases_to!(s, s.len() - i => s[i], 0int));
                        assert(decreases_to!(s[i], 0int => s[i].1, 0int));
                        assert(decreases_to!(s, s.len() - i => s[i].1, 0int));
                        lemma_decode_wf(s[i].1);
                        lemma_obj_insert_sorted(acc, k, t);
                        let acc2 = obj_insert(acc, k, t);
                        assert forall|l: int| 0 <= l < acc2.len() implies tval_wf(
                            #[trigger] acc2[l].1,
                        ) by {
                            if acc2[l] != (k, t) {
                                let m = choose|m: int| 0 <= m < acc.len() && acc2[l] == acc[m];
                                assert(tval_wf(acc[m].1));
                            }
                        }
                        lemma_decode_entries_wf(s, i + 1, acc2);
                    },
                    Err(_) => {},
                }
            },
            _ => {},
        }
    }
}

/// A host pair carries the string key `k`.
pub open spec fn pair_key_is(p: (HVal, HVal), k: Seq<char>) -> bool {
    p.0 == HVal::Text(k)
}

/// No two pairs of `s` carry the same string key.
pub open spec fn unique_text_keys(s: Seq<(HVal, HVal)>) -> bool {
    forall|l1: int, l2: int, k: Seq<char>|
        0 <= l1 < s.len() && 0 <= l2 < s.len() && #[trigger] pair_key_is(s[l1], k) && #[trigger] pair_key_is(
            s[l2],
            k,
        ) ==> l1 == l2
}

proof fn lemma_decode_entries_map(s: Seq<(HVal, HVal)>, i: int, acc: Seq<(Seq<char>, TVal)>)
    requires
        0 <= i <= s.len(),
        unique_text_keys(s),
        forall|l: int, k: Seq<char>|
            i <= l < s.len() && #[trigger] pair_key_is(s[l], k) ==> !obj_to_map(
                acc,
            ).dom().contains(k),
    ensures
        decode_entries_spec(s, i, acc) matches Ok(res) ==> forall|k: Seq<char>, tv: TVal|
            #![trigger obj_to_map(res).contains_pair(k, tv)]
            obj_to_map(res).contains_pair(k, tv) <==> (obj_to_map(acc).contains_pair(k, tv)
                || exists|l: int|
                i <= l < s.len() && #[trigger] pair_key_is(s[l], k) && decode_spec(s[l].1) == Ok::<
                    TVal,
                    ConversionError,
                >(tv)),
    decreases s.len() - i,
{
    if i < s.len() {
        match s[i].0 {
            HVal::Text(k0) => {
                match decode_spec(s[i].1) {
                    Ok(t) => {
                        assert(pair_key_is(s[i], k0));
                        let acc2 = obj_insert(acc, k0, t);
                        lemma_obj_insert_map(acc, k0, t);
                        assert forall|l: int, k: Seq<char>|
                            i + 1 <= l < s.len() && #[trigger] pair_key_is(s[l], k) implies
                            !obj_to_map(acc2).dom().contains(k) by {
                            assert(k != k0);
                        }
                        lemma_decode_entries_map(s, i + 1, acc2);
                        match decode_entries_spec(s, i + 1, acc2) {
                            Ok(res) => {
                                assert forall|k: Seq<char>, tv: TVal|
                                    #![trigger obj_to_map(res).contains_pair(k, tv)]
                                    obj_to_map(res).contains_pair(k, tv) <==> (obj_to_map(
                                        acc,
                                    ).contains_pair(k, tv) || exists|l: int|
                                        i <= l < s.len() && #[trigger] pair_key_is(s[l], k)
                                            && decode_spec(s[l].1) == Ok::<TVal, ConversionError>(
                                            tv,
                                        )) by {
                                    if obj_to_map(res).contains_pair(k, tv) {
                                        if obj_to_map(acc2).contains_pair(k, tv) {
                                            if k == k0 && tv == t {
                                                assert(pair_key_is(s[i], k) && decode_spec(s[i].1)
                                                    == Ok::<TVal, ConversionError>(tv));
                                            }
                                        }
                                    } else {
                                        if obj_to_map(acc).contains_pair(k, tv) {
                                            assert(k != k0) by {
                                                if k == k0 {
                                                    assert(pair_key_is(s[i], k0));
                                                }
                                            }
                                            assert(obj_to_map(acc2).contains_pair(k, tv));
                                        }
                                        if exists|l: int|
                                            i <= l < s.len() && #[trigger] pair_key_is(s[l], k)
                                                && decode_spec(s[l].1) == Ok::<
                                                TVal,
                                                ConversionError,
                                            >(tv) {
                                            let l = choose|l: int|
                                                i <= l < s.len() && #[trigger] pair_key_is(s[l], k)
                                                    && decode_spec(s[l].1) == Ok::<
                                                    TVal,
                                                    ConversionError,
                                                >(tv);
                                            if l == i {
                                                assert(k == k0 && tv == t);
                                                assert(obj_to_map(acc2).contains_pair(k, tv));
                                            }
                                        }
                                    }
                                }
                            },
                            Err(_) => {},
                        }
                    },
                    Err(_) => {},
                }
            },
            _ => {},
        }
    }
}

/// A sorted entry sequence splits into its head and a tail whose map lacks
/// the head key.
proof fn lemma_sorted_tail(es: Seq<(Seq<char>, TVal)>)
    requires
        entries_sorted(es),
        es.len() > 0,
    ensures
        entries_sorted(es.drop_first()),
        !obj_to_map(es.drop_first()).dom().contains(es[0].0),
        obj_to_map(es.drop_first()) == obj_to_map(es).remove(es[0].0),
{
    let tail = es.drop_first();
    assert forall|i: int, j: int| 0 <= i < j < tail.len() implies key_lt(
        #[trigger] tail[i].0,
        #[trigger] tail[j].0,
    ) by {
        assert(tail[i] == es[i + 1]);
        assert(tail[j] == es[j + 1]);
    }
    lemma_obj_to_map_keys(tail);
    assert(!obj_to_map(tail).dom().contains(es[0].0)) by {
        if obj_to_map(tail).dom().contains(es[0].0) {
            let l = choose|l: int| 0 <= l < tail.len() && (#[trigger] tail[l].0) == es[0].0;
            assert(tail[l] == es[l + 1]);
            assert(key_lt(es[0].0, es[l + 1].0));
            lemma_key_lt_asym(es[0].0, es[0].0);
        }
    }
    assert(obj_to_map(tail) =~= obj_to_map(es).remove(es[0].0));
}

/// Two sorted entry sequences with the same map are the same sequence: the
/// sorted form of a map is canonical.
pub proof fn lemma_sorted_entries_canonical(e1: Seq<(Seq<char>, TVal)>, e2: Seq<(Seq<char>, TVal)>)
    requires
        entries_sorted(e1),
        entries_sorted(e2),
        obj_to_map(e1) == obj_to_map(e2),
    ensures
        e1 == e2,
    decreases e1.len(),
{
    lemma_obj_to_map_keys(e1);
    lemma_obj_to_map_keys(e2);
    if e1.len() == 0 {
        if e2.len() > 0 {
            assert(obj_to_map(e2).contains_pair(e2[0].0, e2[0].1));
            assert(obj_to_map(e1) == Map::<Seq<char>, TVal>::empty());
            assert(false);
        }
        assert(e1 =~= e2);
    } else if e2.len() == 0 {
        assert(obj_to_map(e1).contains_pair(e1[0].0, e1[0].1));
        assert(obj_to_map(e2) == Map::<Seq<char>, TVal>::empty());
        assert(false);
    } else {
        assert(obj_to_map(e2).contains_pair(e1[0].0, e1[0].1));
        let l = choose|l: int| 0 <= l < e2.len() && (#[trigger] e2[l].0) == e1[0].0;
        assert(obj_to_map(e1).contains_pair(e2[0].0, e2[0].1));
        let m = choose|m: int| 0 <= m < e1.len() && (#[trigger] e1[m].0) == e2[0].0;
        if l > 0 {
            assert(key_lt(e2[0].0, e2[l].0));
            if m > 0 {
                assert(key_lt(e1[0].0, e1[m].0));
                lemma_key_lt_trans(e1[0].0, e1[m].0, e2[l].0);
                lemma_key_lt_asym(e1[0].0, e1[0].0);
            } else {
                lemma_key_lt_asym(e1[0].0, e1[0].0);
            }
            assert(false);
        }
        assert(e2[0].0 == e1[0].0);
        assert(obj_to_map(e1).contains_pair(e1[0].0, e1[0].1));
        assert(obj_to_map(e2).contains_pair(e2[0].0, e2[0].1));
        assert(e1[0].1 == e2[0].1);
        lemma_sorted_tail(e1);
        lemma_sorted_tail(e2);
        lemma_sorted_entries_canonical(e1.drop_first(), e2.drop_first());
        assert(e1 =~= e2) by {
            assert(e1.drop_first().len() == e2.drop_first().len());
            assert forall|x: int| 0 <= x < e1.len() implies e1[x] == e2[x] by {
                if x > 0 {
                    assert(e1.drop_first()[x - 1] == e1[x]);
                    assert(e2.drop_first()[x - 1] == e2[x]);
                }
            }
        }
    }
}

/// Key-order independence: two host maps holding the same entries, each with
/// unique string keys, decode to the same key-ordered map, whichever order
/// the host iterates them in.
pub proof fn lemma_decode_map_order_independent(e1: Seq<(HVal, HVal)>, e2: Seq<(HVal, HVal)>)
    requires
        forall|p: (HVal, HVal)| #[trigger] e1.contains(p) <==> #[trigger] e2.contains(p),
        unique_text_keys(e1),
        unique_text_keys(e2),
        decode_entries_spec(e1, 0, Seq::empty()) is Ok,
        decode_entries_spec(e2, 0, Seq::empty()) is Ok,
    ensures
        decode_entries_spec(e1, 0, Seq::empty()) == decode_entries_spec(e2, 0, Seq::empty()),
        decode_spec(HVal::Dict(e1)) == decode_spec(HVal::Dict(e2)),
{
    let empty_acc = Seq::<(Seq<char>, TVal)>::empty();
    assert(obj_to_map(empty_acc) == Map::<Seq<char>, TVal>::empty());
    lemma_decode_entries_map(e1, 0, empty_acc);
    lemma_decode_entries_map(e2, 0, empty_acc);
    lemma_decode_entries_wf(e1, 0, empty_acc);
    lemma_decode_entries_wf(e2, 0, empty_acc);
    let r1 = decode_entries_spec(e1, 0, empty_acc)->Ok_0;
    let r2 = decode_entries_spec(e2, 0, empty_acc)->Ok_0;
    assert forall|k: Seq<char>, tv: TVal|
        #![trigger obj_to_map(r1).contains_pair(k, tv), obj_to_map(r2).contains_pair(k, tv)]
        obj_to_map(r1).contains_pair(k, tv) == obj_to_map(r2).contains_pair(k, tv) by {
        if obj_to_map(r1).contains_pair(k, tv) {
            let l = choose|l: int|
                0 <= l < e1.len() && #[trigger] pair_key_is(e1[l], k) && decode_spec(e1[l].1)
                    == Ok::<TVal, ConversionError>(tv);
            assert(e1.contains(e1[l]));
            assert(e2.contains(e1[l]));
            let j = choose|j: int| 0 <= j < e2.len() && e2[j] == e1[l];
            assert(pair_key_is(e2[j], k) && decode_spec(e2[j].1) == Ok::<TVal, ConversionError>(
                tv,
            ));
            assert(obj_to_map(r2).contains_pair(k, tv));
        }
        if obj_to_map(r2).contains_pair(k, tv) {
            let l = choose|l: int|
                0 <= l < e2.len() && #[trigger] pair_key_is(e2[l], k) && decode_spec(e2[l].1)
                    == Ok::<TVal, ConversionError>(tv);
            assert(e2.contains(e2[l]));
            assert(e1.contains(e2[l]));
            let j = choose|j: int| 0 <= j < e1.len() && e1[j] == e2[l];
            assert(pair_key_is(e1[j], k) && decode_spec(e1[j].1) == Ok::<TVal, ConversionError>(
                tv,
            ));
            assert(obj_to_map(r1).contains_pair(k, tv));
        }
    }
    assert(obj_to_map(r1) =~= obj_to_map(r2)) by {
        assert forall|k: Seq<char>|
            obj_to_map(r1).dom().contains(k) == obj_to_map(r2).dom().contains(k) by {
            if obj_to_map(r1).dom().contains(k) {
                assert(obj_to_map(r1).contains_pair(k, obj_to_map(r1)[k]));
                assert(obj_to_map(r2).contains_pair(k, obj_to_map(r1)[k]));
            }
            if obj_to_map(r2).dom().contains(k) {
                assert(obj_to_map(r2).contains_pair(k, obj_to_map(r2)[k]));
                assert(obj_to_map(r1).contains_pair(k, obj_to_map(r2)[k]));
            }
        }
        assert forall|k: Seq<char>| obj_to_map(r1).dom().contains(k) implies obj_to_map(r1)[k]
            == obj_to_map(r2)[k] by {
            assert(obj_to_map(r1).contains_pair(k, obj_to_map(r1)[k]));
            assert(obj_to_map(r2).contains_pair(k, obj_to_map(r1)[k]));
        }
    }
    lemma_sorted_entries_canonical(r1, r2);
}

} // verus!
