use vstd::prelude::*;

use crate::value::{
    field, find_key, has_key, keys_unique, lemma_field_is, lemma_push_field, lemma_update_field, wf,
    wf_fields, Json, JsonValue,
};

verus! {

broadcast use vstd::std_specs::vec::group_vec_axioms;

/// `r` is `extra` merged into `sink`: where both are objects, each field of
/// `extra` is merged into the field of `sink` under the same key (into `Null`
/// where `sink` has none) and the other fields of `sink` stay; anywhere else
/// `extra` replaces `sink` whole.
pub open spec fn merges_to(sink: JsonValue, extra: JsonValue, r: JsonValue) -> bool
    decreases extra,
{
    match extra {
        JsonValue::Object(e) => match sink {
            JsonValue::Object(s) => match r {
                JsonValue::Object(o) => {
                    &&& forall|k: Seq<char>| #[trigger]
                        has_key(o@, k) <==> has_key(s@, k) || has_key(e@, k)
                    &&& forall|k: Seq<char>|
                        has_key(s@, k) && !has_key(e@, k) ==> #[trigger] field(o@, k) == field(
                            s@,
                            k,
                        )
                    &&& forall|i: int|
                        0 <= i < e.len() ==> merges_to(
                            field(s@, (#[trigger] e@[i]).0@),
                            e@[i].1,
                            field(o@, e@[i].0@),
                        )
                },
                _ => false,
            },
            _ => r == extra,
        },
        _ => r == extra,
    }
}

proof fn lemma_has_key_extend(es: Seq<(String, JsonValue)>, j: int, k: Seq<char>)
    requires
        0 <= j < es.len(),
    ensures
        has_key(es.subrange(0, j + 1), k) <==> has_key(es.subrange(0, j), k) || es[j].0@ == k,
{
    let a = es.subrange(0, j + 1);
    let b = es.subrange(0, j);
    if has_key(a, k) {
        let i = choose|i: int| 0 <= i < a.len() && #[trigger] a[i].0@ == k;
        if i < j {
            assert(b[i].0@ == k);
        }
    }
    if has_key(b, k) {
        let i = choose|i: int| 0 <= i < b.len() && #[trigger] b[i].0@ == k;
        assert(a[i].0@ == k);
    }
    if es[j].0@ == k {
        assert(a[j].0@ == k);
    }
}

/// Merges `extra` into `sink`: objects are merged key by key, recursively;
/// any other `extra` replaces `sink`.
pub fn merge(sink: JsonValue, extra: JsonValue) -> (r: JsonValue)
    requires
        wf(sink),
        wf(extra),
    ensures
        wf(r),
        merges_to(sink, extra, r),
    decreases extra,
{
    match extra {
        JsonValue::Object(e) => match sink {
            JsonValue::Object(s) => {
                let ghost s0 = s@;
                let ghost e0 = e@;
                proof {
                    assert forall|i: int| 0 <= i < e0.len() implies decreases_to!(extra => #[trigger] e0[i].1) by {
                        assert(decreases_to!(e => e[i]));
                    }
                }
                let mut out = s;
                let mut rest = e;
                let mut j: usize = 0;
                while rest.len() > 0
                    invariant
                        j <= e0.len() <= usize::MAX,
                        rest@ == e0.subrange(j as int, e0.len() as int),
                        wf_fields(s0),
                        wf_fields(e0),
                        wf_fields(out@),
                        forall|i: int| 0 <= i < e0.len() ==> decreases_to!(extra => #[trigger] e0[i].1),
                        forall|k: Seq<char>| #[trigger]
                            has_key(out@, k) <==> has_key(s0, k) || has_key(e0.subrange(0, j as int), k),
                        forall|k: Seq<char>|
                            has_key(s0, k) && !has_key(e0.subrange(0, j as int), k) ==> #[trigger] field(
                                out@,
                                k,
                            ) == field(s0, k),
                        forall|i: int|
                            0 <= i < j ==> merges_to(
                                field(s0, (#[trigger] e0[i]).0@),
                                e0[i].1,
                                field(out@, e0[i].0@),
                            ),
                    decreases rest.len(),
                {
                    let ghost out0 = out@;
                    assert(j < e0.len());
                    assert(rest@[0] == e0[j as int]);
                    let (k, v) = rest.remove(0);
                    proof {
                        lemma_field_is(e0, j as int, k@);
                    }
                    match find_key(&out, &k) {
                        Some(idx) => {
                            let (k2, old) = out.remove(idx);
                            assert(decreases_to!(extra => v));
                            let nv = merge(old, v);
                            out.insert(idx, (k2, nv));
                            proof {
                                assert(out@ =~= out0.update(idx as int, (out0[idx as int].0, nv)));
                                lemma_update_field(out0, idx as int, nv);
                                lemma_field_is(out0, idx as int, k@);
                            }
                        },
                        None => {
                            let ghost kk = k;
                            let ghost vv = v;
                            out.push((k, v));
                            proof {
                                lemma_push_field(out0, kk, vv);
                            }
                        },
                    }
                    proof {
                        assert forall|k2: Seq<char>| #[trigger]
                            has_key(e0.subrange(0, j as int + 1), k2) <==> has_key(e0.subrange(0, j as int), k2) || e0[j as int].0@ == k2 by {
                            lemma_has_key_extend(e0, j as int, k2);
                        }
                        assert forall|i: int| 0 <= i < j implies e0[i].0@ != e0[j as int].0@ by {}
                    }
                    j += 1;
                }
                assert(e0.subrange(0, j as int) =~= e0);
                JsonValue::Object(out)
            },
            _ => JsonValue::Object(e),
        },
        other => other,
    }
}

/// `r` is `rest` merged into `start` one after another, in order.
pub open spec fn folds_to(start: JsonValue, rest: Seq<JsonValue>, r: JsonValue) -> bool
    decreases rest.len(),
{
    if rest.len() == 0 {
        r == start
    } else {
        exists|mid: JsonValue| folds_to(start, rest.drop_last(), mid) && merges_to(mid, rest.last(), r)
    }
}

/// `o` is `v` as an object: its own fields where it is one, else the single
/// field `"value"` holding `v`.
pub open spec fn rooted(v: JsonValue, o: Seq<(String, JsonValue)>) -> bool {
    match v {
        JsonValue::Object(es) => o == es@,
        _ => o.len() == 1 && o[0].0@ == "value"@ && o[0].1 == v,
    }
}

/// Merges each of `rest` in turn into `start`, later documents taking
/// precedence, and returns the result as an object.
pub fn merge_sources(start: JsonValue, rest: Vec<JsonValue>) -> (r: Json)
    requires
        wf(start),
        forall|i: int| 0 <= i < rest.len() ==> wf(#[trigger] rest@[i]),
    ensures
        wf_fields(r@),
        exists|m: JsonValue| folds_to(start, rest@, m) && rooted(m, r@),
        rest.len() == 0 ==> rooted(start, r@),
{
    let ghost rest0 = rest@;
    assert(rest0.len() == rest.len());
    let mut current = start;
    let mut rest = rest;
    let mut j: usize = 0;
    while rest.len() > 0
        invariant
            j <= rest0.len() <= usize::MAX,
            rest@ == rest0.subrange(j as int, rest0.len() as int),
            forall|i: int| 0 <= i < rest0.len() ==> wf(#[trigger] rest0[i]),
            wf(current),
            folds_to(start, rest0.subrange(0, j as int), current),
        decreases rest.len(),
    {
        assert(j < rest0.len());
        assert(rest@[0] == rest0[j as int]);
        let ghost before = current;
        let next = rest.remove(0);
        current = merge(current, next);
        proof {
            let sub = rest0.subrange(0, j as int + 1);
            assert(sub.drop_last() =~= rest0.subrange(0, j as int));
            assert(folds_to(start, sub.drop_last(), before) && merges_to(before, sub.last(), current));
        }
        j += 1;
    }
    assert(rest0.subrange(0, j as int) =~= rest0);
    let ghost fin = current;
    assert(folds_to(start, rest0, fin));
    match current {
        JsonValue::Object(fields) => {
            assert(rooted(fin, fields@));
            fields
        },
        other => {
            let mut fields: Json = Vec::new();
            let key = String::from_str("value");
            proof {
                reveal_strlit("value");
            }
            fields.push((key, other));
            proof {
                assert(keys_unique(fields@));
                assert(rooted(fin, fields@));
            }
            fields
        },
    }
}

} // verus!
