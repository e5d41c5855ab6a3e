use vstd::prelude::*;

verus! {

broadcast use vstd::std_specs::vec::group_vec_axioms;

/// A JSON document.
#[derive(Debug)]
pub enum JsonValue {
    Null,
    Bool(bool),
    /// A number, held as its JSON text (`5`, `-3`, `2.5`).
    Number(String),
    String(String),
    Array(Vec<JsonValue>),
    /// The fields of an object, each key at most once.
    Object(Vec<(String, JsonValue)>),
}

/// The fields of a JSON object.
pub type Json = Vec<(String, JsonValue)>;

/// Some field of `es` has the key `k`.
pub open spec fn has_key(es: Seq<(String, JsonValue)>, k: Seq<char>) -> bool {
    exists|i: int| 0 <= i < es.len() && #[trigger] es[i].0@ == k
}

/// No key occurs twice among the fields `es`.
pub open spec fn keys_unique(es: Seq<(String, JsonValue)>) -> bool {
    forall|i: int, j: int| 0 <= i < es.len() && 0 <= j < es.len() && i != j ==> es[i].0@ != es[j].0@
}

/// The value of the field with key `k`, or `Null` where `es` has no such field.
pub open spec fn field(es: Seq<(String, JsonValue)>, k: Seq<char>) -> JsonValue {
    if has_key(es, k) {
        es[choose|i: int| 0 <= i < es.len() && #[trigger] es[i].0@ == k].1
    } else {
        JsonValue::Null
    }
}

/// The fields of `v` where it is an object; no fields otherwise.
pub open spec fn fields_of(v: JsonValue) -> Seq<(String, JsonValue)> {
    match v {
        JsonValue::Object(es) => es@,
        _ => Seq::empty(),
    }
}

/// Every object within `v` holds each key at most once.
pub open spec fn wf(v: JsonValue) -> bool
    decreases v,
{
    match v {
        JsonValue::Array(a) => forall|i: int| 0 <= i < a.len() ==> wf(#[trigger] a@[i]),
        JsonValue::Object(es) => {
            &&& keys_unique(es@)
            &&& forall|i: int| 0 <= i < es.len() ==> wf(#[trigger] es@[i].1)
        },
        _ => true,
    }
}

/// The fields of an object are well formed: keys unique, values well formed.
pub open spec fn wf_fields(es: Seq<(String, JsonValue)>) -> bool {
    &&& keys_unique(es)
    &&& forall|i: int| 0 <= i < es.len() ==> wf(#[trigger] es[i].1)
}

/// The field at position `i` is the one that its key names.
pub proof fn lemma_field_is(es: Seq<(String, JsonValue)>, i: int, k: Seq<char>)
    requires
        keys_unique(es),
        0 <= i < es.len(),
        es[i].0@ == k,
    ensures
        has_key(es, k),
        field(es, k) == es[i].1,
{
}

/// Replacing the value of one field keeps the keys and every other field.
pub proof fn lemma_update_field(es: Seq<(String, JsonValue)>, idx: int, nv: JsonValue)
    requires
        keys_unique(es),
        0 <= idx < es.len(),
    ensures
        keys_unique(es.update(idx, (es[idx].0, nv))),
        forall|k: Seq<char>| #[trigger]
            has_key(es.update(idx, (es[idx].0, nv)), k) == has_key(es, k),
        field(es.update(idx, (es[idx].0, nv)), es[idx].0@) == nv,
        forall|k: Seq<char>|
            k != es[idx].0@ ==> #[trigger] field(es.update(idx, (es[idx].0, nv)), k) == field(
                es,
                k,
            ),
{
    let es2 = es.update(idx, (es[idx].0, nv));
    assert forall|k: Seq<char>| #[trigger] has_key(es2, k) == has_key(es, k) by {
        if has_key(es, k) {
            let i = choose|i: int| 0 <= i < es.len() && #[trigger] es[i].0@ == k;
            assert(es2[i].0@ == k);
        }
        if has_key(es2, k) {
            let i = choose|i: int| 0 <= i < es2.len() && #[trigger] es2[i].0@ == k;
            assert(es[i].0@ == k);
        }
    }
    lemma_field_is(es2, idx, es[idx].0@);
    assert forall|k: Seq<char>| k != es[idx].0@ implies #[trigger] field(es2, k) == field(
        es,
        k,
    ) by {
        if has_key(es, k) {
            let i = choose|i: int| 0 <= i < es.len() && #[trigger] es[i].0@ == k;
            lemma_field_is(es, i, k);
            lemma_field_is(es2, i, k);
        }
    }
}

/// Appending a field under a new key keeps every other field.
pub proof fn lemma_push_field(es: Seq<(String, JsonValue)>, key: String, v: JsonValue)
    requires
        keys_unique(es),
        !has_key(es, key@),
    ensures
        keys_unique(es.push((key, v))),
        forall|k: Seq<char>| #[trigger] has_key(es.push((key, v)), k) == (has_key(es, k) || k == key@),
        field(es.push((key, v)), key@) == v,
        forall|k: Seq<char>| k != key@ ==> #[trigger] field(es.push((key, v)), k) == field(es, k),
{
    let es2 = es.push((key, v));
    assert forall|i: int, j: int|
        0 <= i < es2.len() && 0 <= j < es2.len() && i != j implies es2[i].0@ != es2[j].0@ by {
        if i == es.len() as int {
            assert(es[j].0@ == es2[j].0@);
        } else if j == es.len() as int {
            assert(es[i].0@ == es2[i].0@);
        }
    }
    assert forall|k: Seq<char>| #[trigger] has_key(es2, k) == (has_key(es, k) || k == key@) by {
        if has_key(es, k) {
            let i = choose|i: int| 0 <= i < es.len() && #[trigger] es[i].0@ == k;
            assert(es2[i].0@ == k);
        }
        if k == key@ {
            assert(es2[es.len() as int].0@ == k);
        }
        if has_key(es2, k) && k != key@ {
            let i = choose|i: int| 0 <= i < es2.len() && #[trigger] es2[i].0@ == k;
            assert(es[i].0@ == k);
        }
    }
    lemma_field_is(es2, es.len() as int, key@);
    assert forall|k: Seq<char>| k != key@ implies #[trigger] field(es2, k) == field(es, k) by {
        if has_key(es, k) {
            let i = choose|i: int| 0 <= i < es.len() && #[trigger] es[i].0@ == k;
            lemma_field_is(es, i, k);
            lemma_field_is(es2, i, k);
        }
    }
}

/// The position of the field with key `k` among `es`, if there is one.
pub(crate) fn find_key(es: &Vec<(String, JsonValue)>, k: &String) -> (r: Option<usize>)
    ensures
        match r {
            Some(i) => i < es.len() && es@[i as int].0@ == k@,
            None => !has_key(es@, k@),
        },
{
    let mut i: usize = 0;
    while i < es.len()
        invariant
            i <= es.len(),
            forall|t: int| 0 <= t < i ==> es@[t].0@ != k@,
        decreases es.len() - i,
    {
        if es[i].0 == *k {
            return Some(i);
        }
        i += 1;
    }
    None
}

} // verus!
