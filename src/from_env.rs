use vstd::prelude::*;
use vstd::string::StrSliceExecFns;

use crate::json::{json_of_text, parse_text};
use crate::ConfigError;
use crate::value::{
    field, fields_of, find_key, has_key, lemma_field_is, lemma_push_field, lemma_update_field, wf,
    wf_fields, Json, JsonValue,
};

verus! {

/// `v` is what the text `s` of a variable stands for: the document that `s`
/// holds as JSON text, else `s` itself as a string.
pub open spec fn env_value(s: Seq<char>, v: JsonValue) -> bool {
    match json_of_text(s) {
        Some(d) => v == d,
        None => v matches JsonValue::String(t) && t@ == s,
    }
}

/// Reads `s` as JSON text; text that is no JSON stands for itself, as a string.
pub fn attempt_parse(s: &str) -> (r: JsonValue)
    ensures
        env_value(s@, r),
        wf(r),
{
    match parse_text(s) {
        Some(v) => v,
        None => JsonValue::String(s.to_owned()),
    }
}

/// The pieces of `s` between the separators `__`, the separators found from
/// the left.
pub open spec fn segments(s: Seq<char>) -> Seq<Seq<char>>
    decreases s.len(),
{
    if s.len() == 0 {
        seq![Seq::empty()]
    } else if s.len() >= 2 && s[0] == '_' && s[1] == '_' {
        seq![Seq::<char>::empty()] + segments(s.subrange(2, s.len() as int))
    } else {
        let t = segments(s.subrange(1, s.len() as int));
        t.update(0, seq![s[0]] + t[0])
    }
}

/// Every text has at least one segment.
pub proof fn lemma_segments_nonempty(s: Seq<char>)
    ensures
        segments(s).len() >= 1,
    decreases s.len(),
{
    if s.len() >= 2 && s[0] == '_' && s[1] == '_' {
        lemma_segments_nonempty(s.subrange(2, s.len() as int));
    } else if s.len() > 0 {
        lemma_segments_nonempty(s.subrange(1, s.len() as int));
    }
}

/// The texts of `ss`.
pub open spec fn views(ss: Seq<String>) -> Seq<Seq<char>> {
    ss.map_values(|s: String| s@)
}

/// Splits a variable name into the path it names, at each `__`.
pub fn split_path(key: &str) -> (r: Vec<String>)
    ensures
        views(r@) == segments(key@),
{
    let n = key.unicode_len();
    let ghost s = key@;
    let mut out: Vec<String> = Vec::new();
    let mut st: usize = 0;
    let mut i: usize = 0;
    proof {
        lemma_segments_nonempty(s);
        assert(s.subrange(0, n as int) =~= s);
        assert(s.subrange(0, 0) + segments(s)[0] =~= segments(s)[0]);
        assert(segments(s) =~= views(out@) + seq![s.subrange(0, 0) + segments(s)[0]] + segments(s).drop_first());
    }
    while i < n
        invariant
            st <= i <= n,
            n == s.len(),
            s == key@,
            segments(s) == views(out@) + seq![s.subrange(st as int, i as int) + segments(s.subrange(i as int, n as int))[0]]
                + segments(s.subrange(i as int, n as int)).drop_first(),
        decreases n - i,
    {
        let ghost u = s.subrange(i as int, n as int);
        let ghost cur = s.subrange(st as int, i as int);
        let ghost old_out = views(out@);
        if i + 1 < n && key.get_char(i) == '_' && key.get_char(i + 1) == '_' {
            let piece = key.substring_char(st, i).to_owned();
            out.push(piece);
            proof {
                let u2 = s.subrange(i as int + 2, n as int);
                assert(u.subrange(2, u.len() as int) =~= u2);
                lemma_segments_nonempty(u2);
                assert(segments(u) =~= seq![Seq::<char>::empty()] + segments(u2));
                assert(views(out@) =~= old_out.push(cur));
                assert(s.subrange(i as int + 2, i as int + 2) + segments(u2)[0] =~= segments(u2)[0]);
                assert(cur + segments(u)[0] =~= cur);
                assert(segments(u).drop_first() =~= segments(u2));
                assert(segments(s) =~= views(out@) + seq![s.subrange(i as int + 2, i as int + 2) + segments(u2)[0]] + segments(u2).drop_first());
            }
            i = i + 2;
            st = i;
        } else {
            proof {
                let u1 = s.subrange(i as int + 1, n as int);
                assert(u.subrange(1, u.len() as int) =~= u1);
                lemma_segments_nonempty(u1);
                let t = segments(u1);
                assert(segments(u) == t.update(0, seq![u[0]] + t[0]));
                assert(s.subrange(st as int, i as int + 1) =~= cur + seq![u[0]]);
                assert(cur + segments(u)[0] =~= s.subrange(st as int, i as int + 1) + t[0]);
                assert(segments(u).drop_first() =~= t.drop_first());
            }
            i = i + 1;
        }
    }
    let ghost old_out = views(out@);
    let last = key.substring_char(st, n).to_owned();
    out.push(last);
    proof {
        assert(s.subrange(n as int, n as int) =~= Seq::<char>::empty());
        assert(segments(Seq::<char>::empty()) =~= seq![Seq::<char>::empty()]);
        assert(s.subrange(st as int, n as int) + Seq::<char>::empty() =~= s.subrange(st as int, n as int));
        assert(views(out@) =~= old_out.push(s.subrange(st as int, n as int)));
        assert(segments(s) =~= views(out@));
    }
    out
}

/// `r` is the fields `m` with `v` placed at `path`: each key of the path but
/// the last names an object (an empty one where there was none, or where
/// something else stood), the last key names `v`, and all else stays.
pub open spec fn placed(
    m: Seq<(String, JsonValue)>,
    path: Seq<Seq<char>>,
    v: JsonValue,
    r: Seq<(String, JsonValue)>,
) -> bool
    decreases path.len(),
{
    &&& path.len() > 0
    &&& forall|x: Seq<char>| #[trigger] has_key(r, x) <==> has_key(m, x) || x == path[0]
    &&& forall|x: Seq<char>| x != path[0] ==> #[trigger] field(r, x) == field(m, x)
    &&& if path.len() == 1 {
        field(r, path[0]) == v
    } else {
        &&& field(r, path[0]) is Object
        &&& placed(
            fields_of(field(m, path[0])),
            path.drop_first(),
            v,
            fields_of(field(r, path[0])),
        )
    }
}

/// Places `value` at the path `path[at..]` within `map`.
pub fn insert_path(map: Json, path: &Vec<String>, at: usize, value: JsonValue) -> (r: Json)
    requires
        wf_fields(map@),
        wf(value),
        at < path.len(),
    ensures
        wf_fields(r@),
        placed(map@, views(path@).subrange(at as int, path.len() as int), value, r@),
    decreases path.len() - at,
{
    let ghost p = views(path@).subrange(at as int, path.len() as int);
    let ghost m0 = map@;
    let key = path[at].clone();
    let last = at + 1 == path.len();
    let mut map = map;
    match find_key(&map, &key) {
        Some(idx) => {
            let (k2, old) = map.remove(idx);
            proof {
                lemma_field_is(m0, idx as int, key@);
                assert(wf(m0[idx as int].1));
            }
            let nv = if last {
                value
            } else {
                let sub: Json = match old {
                    JsonValue::Object(es) => es,
                    _ => Vec::new(),
                };
                JsonValue::Object(insert_path(sub, path, at + 1, value))
            };
            map.insert(idx, (k2, nv));
            proof {
                assert(map@ =~= m0.update(idx as int, (m0[idx as int].0, nv)));
                lemma_update_field(m0, idx as int, nv);
                assert forall|i: int| 0 <= i < map@.len() implies wf(#[trigger] map@[i].1) by {
                    if i != idx {
                        assert(map@[i] == m0[i]);
                    }
                }
            }
        },
        None => {
            let ghost kk = key;
            let nv = if last {
                value
            } else {
                JsonValue::Object(insert_path(Vec::new(), path, at + 1, value))
            };
            map.push((key, nv));
            proof {
                lemma_push_field(m0, kk, nv);
                assert forall|i: int| 0 <= i < map@.len() implies wf(#[trigger] map@[i].1) by {
                    if i < m0.len() {
                        assert(map@[i] == m0[i]);
                    }
                }
            }
        },
    }
    proof {
        assert(p[0] == key@);
        assert(p.drop_first() =~= views(path@).subrange(at as int + 1, path.len() as int));
    }
    map
}

/// A value that is no object, once placed at `k`, is discarded by a later
/// placement beneath `k`: `k` then names an object that holds the nested
/// field alone.
pub proof fn lemma_nesting_discards_scalar(
    m: Seq<(String, JsonValue)>,
    k: Seq<char>,
    v1: JsonValue,
    m1: Seq<(String, JsonValue)>,
    k2: Seq<char>,
    v2: JsonValue,
    m2: Seq<(String, JsonValue)>,
)
    requires
        !(v1 is Object),
        placed(m, seq![k], v1, m1),
        placed(m1, seq![k, k2], v2, m2),
    ensures
        field(m2, k) is Object,
        forall|x: Seq<char>| #[trigger] has_key(fields_of(field(m2, k)), x) <==> x == k2,
        field(fields_of(field(m2, k)), k2) == v2,
{
    let inner = fields_of(field(m2, k));
    assert(seq![k, k2].drop_first() =~= seq![k2]);
    assert(fields_of(field(m1, k)) =~= Seq::<(String, JsonValue)>::empty());
    assert(placed(Seq::empty(), seq![k2], v2, inner));
}

/// `key` begins with `prefix`.
pub open spec fn has_prefix(prefix: Seq<char>, key: Seq<char>) -> bool {
    prefix.len() <= key.len() && key.subrange(0, prefix.len() as int) == prefix
}

/// `key` without its first `prefix.len()` characters.
pub open spec fn rest_key(prefix: Seq<char>, key: Seq<char>) -> Seq<char> {
    key.subrange(prefix.len() as int, key.len() as int)
}

fn starts_with(key: &str, prefix: &str) -> (r: bool)
    ensures
        r == has_prefix(prefix@, key@),
{
    let n = key.unicode_len();
    let m = prefix.unicode_len();
    if m > n {
        return false;
    }
    let mut i: usize = 0;
    while i < m
        invariant
            i <= m <= n,
            n == key@.len(),
            m == prefix@.len(),
            forall|t: int| 0 <= t < i ==> key@[t] == prefix@[t],
        decreases m - i,
    {
        if key.get_char(i) != prefix.get_char(i) {
            return false;
        }
        i += 1;
    }
    assert(key@.subrange(0, m as int) =~= prefix@);
    true
}

/// An environment variable: its name, and its value where that is valid
/// text, else a lossy rendering of it.
pub type EnvVar = (String, Result<String, String>);

/// The variable `var` bears on the prefix `prefix` and its value is no text.
pub open spec fn badly_encoded(prefix: Seq<char>, var: EnvVar) -> bool {
    has_prefix(prefix, var.0@) && var.1 is Err
}

/// `e` reports the first variable among `vars` that bears on `prefix` and
/// whose value is no text: its name without the prefix, and its value.
pub open spec fn first_bad_encoding(prefix: Seq<char>, vars: Seq<EnvVar>, e: ConfigError) -> bool {
    exists|i: int|
        {
            &&& 0 <= i < vars.len()
            &&& badly_encoded(prefix, #[trigger] vars[i])
            &&& forall|j: int| 0 <= j < i ==> !badly_encoded(prefix, #[trigger] vars[j])
            &&& e matches ConfigError::InvalidEnvEncoding { key, value }
            &&& key@ == rest_key(prefix, vars[i].0@)
            &&& vars[i].1 == Err::<String, String>(value)
        }
}

/// `r` is the fields `mid` after the variable `var` is read for the prefix
/// `prefix`: where its name begins with the prefix, what its value stands for
/// is placed at the path that the rest of its name gives; else nothing changes.
pub open spec fn ingests_one(
    prefix: Seq<char>,
    var: EnvVar,
    mid: Seq<(String, JsonValue)>,
    r: Seq<(String, JsonValue)>,
) -> bool {
    if has_prefix(prefix, var.0@) {
        match var.1 {
            Ok(text) => exists|v: JsonValue|
                #[trigger] env_value(text@, v) && placed(mid, segments(rest_key(prefix, var.0@)), v, r),
            Err(_) => false,
        }
    } else {
        r == mid
    }
}

/// `r` is the fields built from `vars`, read in order, from no fields.
pub open spec fn ingests(prefix: Seq<char>, vars: Seq<EnvVar>, r: Seq<(String, JsonValue)>) -> bool
    decreases vars.len(),
{
    if vars.len() == 0 {
        r.len() == 0
    } else {
        exists|mid: Seq<(String, JsonValue)>|
            #[trigger] ingests_one(prefix, vars.last(), mid, r) && ingests(prefix, vars.drop_last(), mid)
    }
}

proof fn lemma_ingests_skip(prefix: Seq<char>, vars: Seq<EnvVar>, r: Seq<(String, JsonValue)>)
    requires
        vars.len() > 0,
        ingests(prefix, vars.drop_last(), r),
        !has_prefix(prefix, vars.last().0@),
    ensures
        ingests(prefix, vars, r),
{
    assert(ingests_one(prefix, vars.last(), r, r));
}

proof fn lemma_ingests_place(
    prefix: Seq<char>,
    vars: Seq<EnvVar>,
    mid: Seq<(String, JsonValue)>,
    v: JsonValue,
    r: Seq<(String, JsonValue)>,
)
    requires
        vars.len() > 0,
        ingests(prefix, vars.drop_last(), mid),
        has_prefix(prefix, vars.last().0@),
        vars.last().1 matches Ok(text) && env_value(text@, v),
        placed(mid, segments(rest_key(prefix, vars.last().0@)), v, r),
    ensures
        ingests(prefix, vars, r),
{
    assert(ingests_one(prefix, vars.last(), mid, r));
}

/// Builds a configuration object from the environment variables `vars` whose
/// names begin with `prefix`; fails on the first such variable whose value is
/// no valid text.
pub fn from_env(prefix: &str, vars: &Vec<EnvVar>) -> (r: Result<Json, ConfigError>)
    ensures
        r is Ok <==> forall|i: int| 0 <= i < vars.len() ==> !badly_encoded(prefix@, #[trigger] vars@[i]),
        r matches Ok(o) ==> wf_fields(o@) && ingests(prefix@, vars@, o@),
        r matches Err(e) ==> first_bad_encoding(prefix@, vars@, e),
{
    let mut map: Json = Vec::new();
    let mut i: usize = 0;
    let plen = prefix.unicode_len();
    proof {
        assert(vars@.subrange(0, 0) =~= Seq::<EnvVar>::empty());
    }
    while i < vars.len()
        invariant
            i <= vars.len(),
            plen == prefix@.len(),
            wf_fields(map@),
            ingests(prefix@, vars@.subrange(0, i as int), map@),
            forall|j: int| 0 <= j < i ==> !badly_encoded(prefix@, #[trigger] vars@[j]),
        decreases vars.len() - i,
    {
        let ghost mid = map@;
        let ghost sub = vars@.subrange(0, i as int + 1);
        proof {
            assert(sub.drop_last() =~= vars@.subrange(0, i as int));
            assert(sub.last() == vars@[i as int]);
        }
        let key = vars[i].0.as_str();
        if starts_with(key, prefix) {
            let n = key.unicode_len();
            let rest = key.substring_char(plen, n);
            match &vars[i].1 {
                Ok(text) => {
                    let v = attempt_parse(text.as_str());
                    let path = split_path(rest);
                    proof {
                        lemma_segments_nonempty(rest@);
                        assert(views(path@).subrange(0, path.len() as int) =~= views(path@));
                    }
                    map = insert_path(map, &path, 0, v);
                    proof {
                        assert(env_value(text@, v) && placed(mid, segments(rest_key(prefix@, sub.last().0@)), v, map@));
                        lemma_ingests_place(prefix@, sub, mid, v, map@);
                    }
                },
                Err(lossy) => {
                    let ghost at = i as int;
                    assert(badly_encoded(prefix@, vars@[at]));
                    return Err(
                        ConfigError::InvalidEnvEncoding { key: rest.to_owned(), value: lossy.clone() },
                    );
                },
            }
        } else {
            proof {
                lemma_ingests_skip(prefix@, sub, mid);
            }
        }
        i += 1;
    }
    proof {
        assert(vars@.subrange(0, i as int) =~= vars@);
    }
    Ok(map)
}

} // verus!
