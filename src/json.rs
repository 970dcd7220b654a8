//! JSON values as the library reads them: scalars, arrays and objects.

use vstd::prelude::*;

use crate::text::{decimal_i64, decimal_u64, int_decimal, nat_decimal, str_eq};

verus! {

/// A JSON value. Integers are kept exactly; any other number is kept as its
/// natural decimal text. Object members keep their order.
#[derive(Debug)]
pub enum JsonValue {
    Null,
    Bool(bool),
    /// An integer that fits in `i64`.
    Int(i64),
    /// An integer above `i64::MAX`.
    UInt(u64),
    /// A number that is not an integer, as its natural text.
    Number(String),
    Str(String),
    Array(Vec<JsonValue>),
    Object(Vec<(String, JsonValue)>),
}

/// The value of the first member named `key` at or after position `i`.
pub open spec fn member_from(members: Seq<(String, JsonValue)>, key: Seq<char>, i: int) -> Option<
    JsonValue,
>
    decreases members.len() - i,
{
    if i < 0 || i >= members.len() {
        None
    } else if members[i].0@ == key {
        Some(members[i].1)
    } else {
        member_from(members, key, i + 1)
    }
}

/// The member `key` of an object; nothing for other values.
pub open spec fn json_get(v: JsonValue, key: Seq<char>) -> Option<JsonValue> {
    match v {
        JsonValue::Object(members) => member_from(members@, key, 0),
        _ => None,
    }
}

/// The natural string form of a scalar: strings as they are, numbers in
/// decimal, anything else empty.
pub open spec fn scalar_text(v: JsonValue) -> Seq<char> {
    match v {
        JsonValue::Str(s) => s@,
        JsonValue::Int(n) => int_decimal(n as int),
        JsonValue::UInt(n) => nat_decimal(n as nat),
        JsonValue::Number(t) => t@,
        _ => Seq::empty(),
    }
}

/// The first element of an array, if any.
pub open spec fn first_element(v: JsonValue) -> Option<JsonValue> {
    match v {
        JsonValue::Array(items) => if items@.len() > 0 {
            Some(items@[0])
        } else {
            None
        },
        _ => None,
    }
}

impl JsonValue {
    /// The member `key` of an object.
    pub fn get(&self, key: &str) -> (r: Option<&JsonValue>)
        ensures
            match r {
                Some(x) => json_get(*self, key@) == Some(*x),
                None => json_get(*self, key@) is None,
            },
    {
        match self {
            JsonValue::Object(members) => {
                let mut i: usize = 0;
                while i < members.len()
                    invariant
                        i <= members@.len(),
                        json_get(*self, key@) == member_from(members@, key@, i as int),
                    decreases members.len() - i,
                {
                    if str_eq(members[i].0.as_str(), key) {
                        assert(member_from(members@, key@, i as int) == Some(members@[i as int].1));
                        return Some(&members[i].1);
                    }
                    i = i + 1;
                }
                assert(member_from(members@, key@, i as int) is None);
                None
            },
            _ => None,
        }
    }

    /// The first element of an array.
    pub fn first(&self) -> (r: Option<&JsonValue>)
        ensures
            match r {
                Some(x) => first_element(*self) == Some(*x),
                None => first_element(*self) is None,
            },
    {
        match self {
            JsonValue::Array(items) => {
                if items.len() > 0 {
                    Some(&items[0])
                } else {
                    None
                }
            },
            _ => None,
        }
    }
}

/// The natural string form of a scalar value; empty for the others.
pub fn value_to_string(value: &JsonValue) -> (r: String)
    ensures
        r@ == scalar_text(*value),
{
    match value {
        JsonValue::Str(s) => s.clone(),
        JsonValue::Int(n) => decimal_i64(*n),
        JsonValue::UInt(n) => decimal_u64(*n),
        JsonValue::Number(t) => t.clone(),
        _ => String::new(),
    }
}

/// Whether `a` comes before `b` in code point order (the byte order of
/// their UTF-8 text).
pub open spec fn key_less(a: Seq<char>, b: Seq<char>) -> bool
    decreases a.len(),
{
    if a.len() == 0 {
        b.len() > 0
    } else if b.len() == 0 {
        false
    } else if a[0] != b[0] {
        a[0] < b[0]
    } else {
        key_less(a.drop_first(), b.drop_first())
    }
}

proof fn lemma_key_total(a: Seq<char>, b: Seq<char>)
    ensures
        a != b && !key_less(a, b) ==> key_less(b, a),
    decreases a.len(),
{
    if a.len() > 0 && b.len() > 0 && a[0] == b[0] {
        lemma_key_total(a.drop_first(), b.drop_first());
        if a.drop_first() == b.drop_first() {
            assert(a =~= seq![a[0]] + a.drop_first());
            assert(b =~= seq![b[0]] + b.drop_first());
        }
    }
    if a.len() == 0 && b.len() == 0 {
        assert(a =~= b);
    }
}

/// Whether `a` comes before `b` (see `key_less`).
pub fn str_less(a: &str, b: &str) -> (r: bool)
    ensures
        r == key_less(a@, b@),
{
    let n = a.unicode_len();
    let m = b.unicode_len();
    let mut i: usize = 0;
    assert(a@.skip(0) =~= a@);
    assert(b@.skip(0) =~= b@);
    while i < n && i < m
        invariant
            n == a@.len(),
            m == b@.len(),
            i <= n,
            i <= m,
            key_less(a@, b@) == key_less(a@.skip(i as int), b@.skip(i as int)),
        decreases n - i,
    {
        let x = a.get_char(i);
        let y = b.get_char(i);
        if x != y {
            return x < y;
        }
        assert(a@.skip(i as int).drop_first() =~= a@.skip(i + 1));
        assert(b@.skip(i as int).drop_first() =~= b@.skip(i + 1));
        i = i + 1;
    }
    i == n && i < m
}

/// Whether no later member has the key of member `i` (among the first `k`).
pub open spec fn last_within(ms: Seq<(String, JsonValue)>, i: int, k: int) -> bool {
    forall|j: int| i < j < k ==> (#[trigger] ms[j]).0@ != ms[i].0@
}

/// Whether the members' keys ascend strictly from one member to the next.
pub open spec fn keys_ascending(ms: Seq<(String, JsonValue)>) -> bool {
    forall|j: int| 0 <= j < ms.len() - 1 ==> key_less((#[trigger] ms[j]).0@, ms[j + 1].0@)
}

/// Whether the members' keys are pairwise different.
pub open spec fn keys_distinct(ms: Seq<(String, JsonValue)>) -> bool {
    forall|a: int, b: int| 0 <= a < b < ms.len() ==> (#[trigger] ms[a]).0@ != (#[trigger] ms[b]).0@
}

/// Whether `out` holds, in ascending key order and without repeats, the
/// keys among the first `k` members of `ms`, each with the normalized value
/// of its last occurrence there.
pub open spec fn members_normalized(
    out: Seq<(String, JsonValue)>,
    ms: Seq<(String, JsonValue)>,
    k: int,
) -> bool
    decreases ms,
{
    &&& keys_ascending(out)
    &&& keys_distinct(out)
    &&& forall|j: int|
        0 <= j < out.len() ==> exists|i: int| 0 <= i < k && #[trigger] ms[i].0@ == (#[trigger] out[j]).0@
    &&& forall|i: int|
        0 <= i < k && i < ms.len() && last_within(ms, i, k) ==> exists|j: int|
            0 <= j < out.len() && (#[trigger] out[j]).0@ == (#[trigger] ms[i]).0@ && normalizes(
                out[j].1,
                ms[i].1,
            )
}

/// Whether `r` is `v` with the members of every object in ascending key
/// order, a repeated key keeping its last value, all the way down.
pub open spec fn normalizes(r: JsonValue, v: JsonValue) -> bool
    decreases v,
{
    match v {
        JsonValue::Array(items) => match r {
            JsonValue::Array(out) => out@.len() == items@.len() && forall|i: int|
                0 <= i < items@.len() ==> normalizes(out@[i], #[trigger] items@[i]),
            _ => false,
        },
        JsonValue::Object(ms) => match r {
            JsonValue::Object(out) => members_normalized(out@, ms@, ms@.len() as int),
            _ => false,
        },
        _ => r == v,
    }
}

fn key_position(out: &Vec<(String, JsonValue)>, key: &str) -> (r: Option<usize>)
    ensures
        match r {
            Some(q) => q < out@.len() && out@[q as int].0@ == key@,
            None => forall|j: int| 0 <= j < out@.len() ==> (#[trigger] out@[j]).0@ != key@,
        },
{
    let mut q: usize = 0;
    while q < out.len()
        invariant
            q <= out@.len(),
            forall|j: int| 0 <= j < q ==> (#[trigger] out@[j]).0@ != key@,
        decreases out.len() - q,
    {
        if str_eq(out[q].0.as_str(), key) {
            return Some(q);
        }
        q = q + 1;
    }
    None
}

fn insertion_point(out: &Vec<(String, JsonValue)>, key: &str) -> (p: usize)
    ensures
        p <= out@.len(),
        forall|j: int| 0 <= j < p ==> !key_less(key@, (#[trigger] out@[j]).0@),
        p < out@.len() ==> key_less(key@, out@[p as int].0@),
{
    let mut p: usize = 0;
    while p < out.len() && !str_less(key, out[p].0.as_str())
        invariant
            p <= out@.len(),
            forall|j: int| 0 <= j < p ==> !key_less(key@, (#[trigger] out@[j]).0@),
        decreases out.len() - p,
    {
        p = p + 1;
    }
    p
}

/// What storing a member under `key` does to a list of members.
pub open spec fn upserted(
    before: Seq<(String, JsonValue)>,
    after: Seq<(String, JsonValue)>,
    key: Seq<char>,
    value: JsonValue,
) -> bool {
    &&& keys_ascending(after)
    &&& keys_distinct(after)
    &&& exists|j: int| 0 <= j < after.len() && (#[trigger] after[j]).0@ == key && after[j].1 == value
    &&& forall|j: int|
        0 <= j < before.len() && (#[trigger] before[j]).0@ != key ==> exists|j2: int|
            0 <= j2 < after.len() && #[trigger] after[j2] == before[j]
    &&& forall|j2: int|
        0 <= j2 < after.len() ==> (#[trigger] after[j2]).0@ == key || exists|j: int|
            0 <= j < before.len() && #[trigger] before[j] == after[j2]
}

proof fn lemma_replace_keeps_order(
    before: Seq<(String, JsonValue)>,
    q: int,
    x: (String, JsonValue),
)
    requires
        keys_ascending(before),
        keys_distinct(before),
        0 <= q < before.len(),
        before[q].0@ == x.0@,
    ensures
        upserted(before, before.update(q, x), x.0@, x.1),
{
    let after = before.update(q, x);
    assert forall|j: int| 0 <= j < after.len() - 1 implies key_less(
        (#[trigger] after[j]).0@,
        after[j + 1].0@,
    ) by {
        assert(before[j].0@ == after[j].0@);
        assert(before[j + 1].0@ == after[j + 1].0@);
    }
    assert forall|a: int, b: int| 0 <= a < b < after.len() implies (#[trigger] after[a]).0@ != (
    #[trigger] after[b]).0@ by {
        assert(before[a].0@ == after[a].0@);
        assert(before[b].0@ == after[b].0@);
    }
    assert(after[q].0@ == x.0@ && after[q].1 == x.1);
    assert forall|j: int| 0 <= j < before.len() && (#[trigger] before[j]).0@ != x.0@ implies exists|
        j2: int,
    | 0 <= j2 < after.len() && #[trigger] after[j2] == before[j] by {
        assert(after[j] == before[j]);
    }
    assert forall|j2: int| 0 <= j2 < after.len() implies (#[trigger] after[j2]).0@ == x.0@ || exists|
        j: int,
    | 0 <= j < before.len() && #[trigger] before[j] == after[j2] by {
        if j2 != q {
            assert(before[j2] == after[j2]);
        }
    }
}

#[verifier::rlimit(60)]
proof fn lemma_insert_keeps_order(before: Seq<(String, JsonValue)>, p: int, x: (String, JsonValue))
    requires
        keys_ascending(before),
        keys_distinct(before),
        0 <= p <= before.len(),
        forall|j: int| 0 <= j < before.len() ==> (#[trigger] before[j]).0@ != x.0@,
        forall|j: int| 0 <= j < p ==> !key_less(x.0@, (#[trigger] before[j]).0@),
        p < before.len() ==> key_less(x.0@, before[p].0@),
    ensures
        upserted(before, before.insert(p, x), x.0@, x.1),
{
    let after = before.insert(p, x);
    let k = x.0@;
    assert(after[p].0@ == k && after[p].1 == x.1);
    assert forall|j: int| 0 <= j < after.len() - 1 implies key_less(
        (#[trigger] after[j]).0@,
        after[j + 1].0@,
    ) by {
        if j + 1 < p {
            assert(after[j] == before[j] && after[j + 1] == before[j + 1]);
        } else if j + 1 == p {
            assert(after[j] == before[j]);
            lemma_key_total(k, before[j].0@);
        } else if j == p {
            assert(after[j + 1] == before[j]);
        } else {
            assert(after[j] == before[j - 1] && after[j + 1] == before[j]);
        }
    }
    assert forall|a: int, b: int| 0 <= a < b < after.len() implies (#[trigger] after[a]).0@ != (
    #[trigger] after[b]).0@ by {
        let a0 = if a < p {
            a
        } else {
            a - 1
        };
        let b0 = if b < p {
            b
        } else {
            b - 1
        };
        if a != p && b != p {
            assert(after[a] == before[a0] && after[b] == before[b0]);
        } else if a == p {
            assert(after[b] == before[b0]);
        } else {
            assert(after[a] == before[a0]);
        }
    }
    assert forall|j: int| 0 <= j < before.len() && (#[trigger] before[j]).0@ != k implies exists|
        j2: int,
    | 0 <= j2 < after.len() && #[trigger] after[j2] == before[j] by {
        if j < p {
            assert(after[j] == before[j]);
        } else {
            assert(after[j + 1] == before[j]);
        }
    }
    assert forall|j2: int| 0 <= j2 < after.len() implies (#[trigger] after[j2]).0@ == k || exists|
        j: int,
    | 0 <= j < before.len() && #[trigger] before[j] == after[j2] by {
        if j2 < p {
            assert(before[j2] == after[j2]);
        } else if j2 > p {
            assert(before[j2 - 1] == after[j2]);
        }
    }
}

/// Stores `(key, value)` in members kept in ascending key order: replaces
/// the value of an equal key, else inserts at its place.
fn upsert_member(out: &mut Vec<(String, JsonValue)>, key: String, value: JsonValue)
    requires
        keys_ascending(old(out)@),
        keys_distinct(old(out)@),
    ensures
        upserted(old(out)@, final(out)@, key@, value),
{
    let ghost before = out@;
    let ghost x = (key, value);
    match key_position(out, key.as_str()) {
        Some(q) => {
            proof {
                lemma_replace_keeps_order(before, q as int, x);
            }
            out.set(q, (key, value));
        },
        None => {
            let p = insertion_point(out, key.as_str());
            proof {
                lemma_insert_keeps_order(before, p as int, x);
            }
            out.insert(p, (key, value));
        },
    }
}

/// The items of an array, each normalized (see `normalize_json`).
#[verifier::loop_isolation(false)]
pub fn normalize_items(items: Vec<JsonValue>) -> (out: Vec<JsonValue>)
    ensures
        out@.len() == items@.len(),
        forall|i: int| 0 <= i < items@.len() ==> normalizes(out@[i], #[trigger] items@[i]),
    decreases items,
{
    let ghost items0 = items;
    let ghost orig = items@;
    let n = items.len();
    let mut rest = items;
    let mut out: Vec<JsonValue> = Vec::new();
    let mut k: usize = 0;
    while k < n
        invariant
            orig == items0@,
            n == orig.len(),
            k <= n,
            out@.len() == k,
            rest@ == orig.subrange(k as int, n as int),
            forall|i: int| 0 <= i < k ==> normalizes(out@[i], #[trigger] orig[i]),
        decreases n - k,
    {
        let x = rest.remove(0);
        proof {
            assert(x == orig[k as int]);
            assert(decreases_to!(items0 => items0@));
            assert(decreases_to!(items0@ => items0@[k as int]));
        }
        let nx = normalize_json(x);
        out.push(nx);
        proof {
            assert(rest@ =~= orig.subrange(k + 1, n as int));
            assert forall|i: int| 0 <= i < k + 1 implies normalizes(out@[i], #[trigger] orig[i]) by {}
        }
        k = k + 1;
    }
    out
}

/// The members of an object in ascending key order, a repeated key keeping
/// its last value, each value normalized (see `normalize_json`).
#[verifier::loop_isolation(false)]
pub fn normalize_members(members: Vec<(String, JsonValue)>) -> (out: Vec<(String, JsonValue)>)
    ensures
        members_normalized(out@, members@, members@.len() as int),
    decreases members,
{
    let ghost ms0 = members;
    let ghost orig = members@;
        let n = members.len();
        let mut rest = members;
        let mut out: Vec<(String, JsonValue)> = Vec::new();
        let mut k: usize = 0;
        while k < n
            invariant
                orig == ms0@,
                n == orig.len(),
                k <= n,
                rest@ == orig.subrange(k as int, n as int),
                members_normalized(out@, orig, k as int),
            decreases n - k,
        {
            let (key, v) = rest.remove(0);
            proof {
                assert(decreases_to!(ms0 => ms0@));
                assert(decreases_to!(ms0@ => ms0@[k as int]));
                assert(decreases_to!(ms0@[k as int] => ms0@[k as int].1));
            }
            let nv = normalize_json(v);
            let ghost before = out@;
            let ghost kk = key@;
            upsert_member(&mut out, key, nv);
            assert(upserted(before, out@, kk, nv));
            proof {
                assert(rest@ =~= orig.subrange(k + 1, n as int));
                assert(orig[k as int].0@ == kk);
                assert forall|j: int| 0 <= j < out@.len() implies exists|i: int|
                    0 <= i < k + 1 && #[trigger] orig[i].0@ == (#[trigger] out@[j]).0@ by {
                    if out@[j].0@ == kk {
                        assert(orig[k as int].0@ == out@[j].0@);
                    } else {
                        let j0 = choose|j0: int| 0 <= j0 < before.len() && #[trigger] before[j0] == out@[j];
                        assert(before[j0].0@ == out@[j].0@);
                        let i0 = choose|i0: int| 0 <= i0 < k && #[trigger] orig[i0].0@ == (#[trigger] before[j0]).0@;
                        assert(orig[i0].0@ == out@[j].0@);
                    }
                }
                assert forall|i: int| 0 <= i < k + 1 && last_within(orig, i, k + 1) implies exists|j: int|
                    0 <= j < out@.len() && (#[trigger] out@[j]).0@ == (#[trigger] orig[i]).0@
                        && normalizes(out@[j].1, orig[i].1) by {
                    if i == k {
                        let j = choose|j: int| 0 <= j < out@.len() && (#[trigger] out@[j]).0@ == kk && out@[j].1 == nv;
                        assert(out@[j].0@ == orig[i].0@);
                    } else {
                        assert(orig[k as int].0@ != orig[i].0@);
                        assert(last_within(orig, i, k as int));
                        let j0 = choose|j0: int| 0 <= j0 < before.len() && (#[trigger] before[j0]).0@ == (#[trigger] orig[i]).0@
                            && normalizes(before[j0].1, orig[i].1);
                        assert(before[j0].0@ != kk);
                        let j2 = choose|j2: int| 0 <= j2 < out@.len() && #[trigger] out@[j2] == before[j0];
                        assert(out@[j2].0@ == orig[i].0@);
                    }
                }
            }
            k = k + 1;
        }
    out
}

/// `value` with the members of every object in ascending key order, a
/// repeated key keeping its last value, all the way down.
pub fn normalize_json(value: JsonValue) -> (r: JsonValue)
    ensures
        normalizes(r, value),
    decreases value,
{
    match value {
        JsonValue::Array(items) => {
            proof {
                assert(decreases_to!(value => value->Array_0));
            }
            JsonValue::Array(normalize_items(items))
        },
        JsonValue::Object(members) => {
            proof {
                assert(decreases_to!(value => value->Object_0));
            }
            JsonValue::Object(normalize_members(members))
        },
        other => other,
    }
}

} // verus!
