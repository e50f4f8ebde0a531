//! A JSON value the library can reason about, and the operations the
//! gateway performs on response messages: reading their text content and
//! tool calls, filtering tool arguments and writing canonical JSON text.

use vstd::prelude::*;

verus! {

/// A JSON value. Numbers are kept as the text serde_json writes for them;
/// object members keep their order (for values read by serde_json, that is
/// ascending key order).
#[derive(Debug, PartialEq)]
pub enum JsonValue {
    Null,
    Bool(bool),
    Number(String),
    Str(String),
    Array(Vec<JsonValue>),
    Object(Vec<(String, JsonValue)>),
}

/// The mathematical value of a [`JsonValue`].
pub enum JsonView {
    Null,
    Bool(bool),
    Number(Seq<char>),
    Str(Seq<char>),
    Array(Seq<JsonView>),
    Object(Seq<(Seq<char>, JsonView)>),
}

/// The view of a JSON value.
pub open spec fn jview(v: JsonValue) -> JsonView
    decreases v,
{
    match v {
        JsonValue::Null => JsonView::Null,
        JsonValue::Bool(b) => JsonView::Bool(b),
        JsonValue::Number(n) => JsonView::Number(n@),
        JsonValue::Str(s) => JsonView::Str(s@),
        JsonValue::Array(items) => JsonView::Array(jview_items(items@)),
        JsonValue::Object(members) => JsonView::Object(jview_members(members@)),
    }
}

/// The views of array items.
pub open spec fn jview_items(items: Seq<JsonValue>) -> Seq<JsonView>
    decreases items,
{
    if items.len() == 0 {
        Seq::empty()
    } else {
        jview_items(items.drop_last()).push(jview(items.last()))
    }
}

/// The views of object members.
pub open spec fn jview_members(members: Seq<(String, JsonValue)>) -> Seq<(Seq<char>, JsonView)>
    decreases members,
{
    if members.len() == 0 {
        Seq::empty()
    } else {
        jview_members(members.drop_last()).push((members.last().0@, jview(members.last().1)))
    }
}


/// A copy of a JSON value.
pub fn copy_json(v: &JsonValue) -> (r: JsonValue)
    ensures
        jview(r) == jview(*v),
    decreases v,
{
    match v {
        JsonValue::Null => JsonValue::Null,
        JsonValue::Bool(b) => JsonValue::Bool(*b),
        JsonValue::Number(n) => JsonValue::Number(n.clone()),
        JsonValue::Str(s) => JsonValue::Str(s.clone()),
        JsonValue::Array(items) => {
            let mut out: Vec<JsonValue> = Vec::new();
            let mut i: usize = 0;
            while i < items.len()
                invariant
                    i <= items@.len(),
                    *v == JsonValue::Array(*items),
                    jview_items(out@) == jview_items(items@.take(i as int)),
                decreases items@.len() - i,
            {
                proof {
                    assert(decreases_to!(*v => (*v)->Array_0));
                    assert(decreases_to!(*items => items@));
                    assert(decreases_to!(items@ => items@[i as int]));
                }
                let c = copy_json(&items[i]);
                let ghost before = out@;
                out.push(c);
                proof {
                    assert(out@.drop_last() =~= before);
                    assert(items@.take(i + 1).drop_last() =~= items@.take(i as int));
                }
                i = i + 1;
            }
            assert(items@.take(items@.len() as int) =~= items@);
            JsonValue::Array(out)
        },
        JsonValue::Object(members) => {
            let mut out: Vec<(String, JsonValue)> = Vec::new();
            let mut i: usize = 0;
            while i < members.len()
                invariant
                    i <= members@.len(),
                    *v == JsonValue::Object(*members),
                    jview_members(out@) == jview_members(members@.take(i as int)),
                decreases members@.len() - i,
            {
                proof {
                    assert(decreases_to!(*v => (*v)->Object_0));
                    assert(decreases_to!(*members => members@));
                    assert(decreases_to!(members@ => members@[i as int]));
                    assert(decreases_to!(members@[i as int] => members@[i as int].1));
                }
                let c = copy_json(&members[i].1);
                let k = members[i].0.clone();
                let ghost before = out@;
                out.push((k, c));
                proof {
                    assert(out@.drop_last() =~= before);
                    assert(members@.take(i + 1).drop_last() =~= members@.take(i as int));
                }
                i = i + 1;
            }
            assert(members@.take(members@.len() as int) =~= members@);
            JsonValue::Object(out)
        },
    }
}

/// The views of array items, element by element.
pub proof fn lemma_jview_items(items: Seq<JsonValue>)
    ensures
        jview_items(items).len() == items.len(),
        forall|i: int| 0 <= i < items.len() ==> #[trigger] jview_items(items)[i] == jview(items[i]),
    decreases items.len(),
{
    if items.len() > 0 {
        lemma_jview_items(items.drop_last());
        assert forall|i: int| 0 <= i < items.len() implies #[trigger] jview_items(items)[i] == jview(items[i]) by {
            if i < items.len() - 1 {
                assert(items.drop_last()[i] == items[i]);
            }
        }
    }
}

/// The views of object members, member by member.
pub proof fn lemma_jview_members(members: Seq<(String, JsonValue)>)
    ensures
        jview_members(members).len() == members.len(),
        forall|i: int| 0 <= i < members.len() ==> #[trigger] jview_members(members)[i] == (members[i].0@, jview(members[i].1)),
    decreases members.len(),
{
    if members.len() > 0 {
        lemma_jview_members(members.drop_last());
        assert forall|i: int| 0 <= i < members.len() implies #[trigger] jview_members(members)[i] == (members[i].0@, jview(members[i].1)) by {
            if i < members.len() - 1 {
                assert(members.drop_last()[i] == members[i]);
            }
        }
    }
}

/// The value of the first member named `key`, if any.
pub open spec fn jlookup(ms: Seq<(Seq<char>, JsonView)>, key: Seq<char>) -> Option<JsonView>
    decreases ms.len(),
{
    if ms.len() == 0 {
        None
    } else {
        match jlookup(ms.drop_last(), key) {
            Some(v) => Some(v),
            None => if ms.last().0 == key {
                Some(ms.last().1)
            } else {
                None
            },
        }
    }
}

/// The value of member `key` of an object; `None` for other values.
pub open spec fn jget(v: JsonView, key: Seq<char>) -> Option<JsonView> {
    match v {
        JsonView::Object(ms) => jlookup(ms, key),
        _ => None,
    }
}

/// The member `key` of `v`, when `v` is an object that has it.
pub fn get_member<'a>(v: &'a JsonValue, key: &str) -> (r: Option<&'a JsonValue>)
    ensures
        match r {
            Some(x) => jget(jview(*v), key@) == Some(jview(*x)),
            None => jget(jview(*v), key@) is None,
        },
{
    match v {
        JsonValue::Object(members) => {
            let ghost mv = jview_members(members@);
            proof {
                lemma_jview_members(members@);
            }
            let k = crate::text::owned(key);
            let mut i: usize = 0;
            while i < members.len()
                invariant
                    i <= members@.len(),
                    k@ == key@,
                    *v == JsonValue::Object(*members),
                    mv == jview_members(members@),
                    mv.len() == members@.len(),
                    forall|j: int| 0 <= j < members@.len() ==> #[trigger] mv[j] == (members@[j].0@, jview(members@[j].1)),
                    jlookup(mv.take(i as int), key@) is None,
                decreases members@.len() - i,
            {
                assert(mv.take(i + 1).drop_last() =~= mv.take(i as int));
                if members[i].0 == k {
                    assert(jlookup(mv.take(i + 1), key@) == Some(jview(members@[i as int].1)));
                    proof {
                        lemma_jlookup_prefix(mv, key@, i as int + 1);
                        assert(jview(*v) == JsonView::Object(mv));
                    }
                    return Some(&members[i].1);
                }
                i = i + 1;
            }
            assert(mv.take(members@.len() as int) =~= mv);
            assert(jview(*v) == JsonView::Object(mv));
            None
        },
        _ => None,
    }
}

/// A member found in a prefix is what the whole object gives.
pub proof fn lemma_jlookup_prefix(ms: Seq<(Seq<char>, JsonView)>, key: Seq<char>, n: int)
    requires
        0 <= n <= ms.len(),
        jlookup(ms.take(n), key) is Some,
    ensures
        jlookup(ms, key) == jlookup(ms.take(n), key),
    decreases ms.len() - n,
{
    if n < ms.len() {
        assert(ms.take(n + 1).drop_last() =~= ms.take(n));
        lemma_jlookup_prefix(ms, key, n + 1);
    } else {
        assert(ms.take(n) =~= ms);
    }
}

/// The members with `key` set to `value`: the first member of that name
/// gets the new value, or the member is added at the end.
pub open spec fn jinsert(ms: Seq<(Seq<char>, JsonView)>, key: Seq<char>, value: JsonView) -> Seq<(Seq<char>, JsonView)> {
    if exists|i: int| 0 <= i < ms.len() && ms[i].0 == key {
        let i = choose|i: int| 0 <= i < ms.len() && ms[i].0 == key && forall|j: int| 0 <= j < i ==> ms[j].0 != key;
        ms.update(i, (key, value))
    } else {
        ms.push((key, value))
    }
}

/// Sets member `key` of an object's members to `value` (see [`jinsert`]).
pub fn insert_member(members: &mut Vec<(String, JsonValue)>, key: String, value: JsonValue)
    ensures
        jview_members(final(members)@) == jinsert(jview_members(old(members)@), key@, jview(value)),
{
    let ghost mv = jview_members(members@);
    proof {
        lemma_jview_members(members@);
    }
    let mut i: usize = 0;
    while i < members.len()
        invariant
            i <= members@.len(),
            members@ == old(members)@,
            mv == jview_members(members@),
            mv.len() == members@.len(),
            forall|j: int| 0 <= j < members@.len() ==> #[trigger] mv[j] == (members@[j].0@, jview(members@[j].1)),
            forall|j: int| 0 <= j < i ==> mv[j].0 != key@,
        decreases members@.len() - i,
    {
        if members[i].0 == key {
            let ghost kv = key@;
            let ghost vv = jview(value);
            assert(mv[i as int].0 == kv);
            let ghost target = choose|p: int| 0 <= p < mv.len() && mv[p].0 == kv && forall|j: int| 0 <= j < p ==> mv[j].0 != kv;
            assert(target == i) by {
                assert(0 <= target < mv.len() && mv[target].0 == kv && forall|j: int| 0 <= j < target ==> mv[j].0 != kv);
                if target < i {
                } else if target > i {
                    assert(mv[i as int].0 != kv);
                }
            }
            members.set(i, (key, value));
            proof {
                lemma_jview_members(members@);
                assert(jview_members(members@) =~= mv.update(i as int, (kv, vv)));
            }
            return;
        }
        i = i + 1;
    }
    let ghost kv = key@;
    let ghost vv = jview(value);
    members.push((key, value));
    proof {
        lemma_jview_members(members@);
        assert(jview_members(members@) =~= mv.push((kv, vv)));
    }
}

/// A lookup finds nothing when no member has the name.
pub proof fn lemma_jlookup_absent(ms: Seq<(Seq<char>, JsonView)>, key: Seq<char>)
    requires
        forall|j: int| 0 <= j < ms.len() ==> #[trigger] ms[j].0 != key,
    ensures
        jlookup(ms, key) is None,
    decreases ms.len(),
{
    if ms.len() > 0 {
        lemma_jlookup_absent(ms.drop_last(), key);
    }
}

/// A lookup finds the first member with the name.
pub proof fn lemma_jlookup_first(ms: Seq<(Seq<char>, JsonView)>, key: Seq<char>, i: int)
    requires
        0 <= i < ms.len(),
        ms[i].0 == key,
        forall|j: int| 0 <= j < i ==> #[trigger] ms[j].0 != key,
    ensures
        jlookup(ms, key) == Some(ms[i].1),
    decreases ms.len(),
{
    if i < ms.len() - 1 {
        lemma_jlookup_first(ms.drop_last(), key, i);
    } else {
        lemma_jlookup_absent(ms.drop_last(), key);
    }
}

/// When some member has the name, one of them comes first.
proof fn lemma_first_occurrence(ms: Seq<(Seq<char>, JsonView)>, key: Seq<char>, i: int)
    requires
        0 <= i < ms.len(),
        ms[i].0 == key,
    ensures
        exists|p: int| 0 <= p < ms.len() && ms[p].0 == key && forall|j: int| 0 <= j < p ==> ms[j].0 != key,
    decreases i,
{
    if exists|j: int| 0 <= j < i && ms[j].0 == key {
        let j = choose|j: int| 0 <= j < i && ms[j].0 == key;
        lemma_first_occurrence(ms, key, j);
    } else {
        assert(forall|j: int| 0 <= j < i ==> ms[j].0 != key);
    }
}

/// Replacing a member by one of another name leaves a lookup unchanged.
proof fn lemma_jlookup_update_other(
    ms: Seq<(Seq<char>, JsonView)>,
    p: int,
    entry: (Seq<char>, JsonView),
    key: Seq<char>,
)
    requires
        0 <= p < ms.len(),
        ms[p].0 != key,
        entry.0 != key,
    ensures
        jlookup(ms.update(p, entry), key) == jlookup(ms, key),
    decreases ms.len(),
{
    let u = ms.update(p, entry);
    if p < ms.len() - 1 {
        assert(u.drop_last() =~= ms.drop_last().update(p, entry));
        lemma_jlookup_update_other(ms.drop_last(), p, entry, key);
    } else {
        assert(u.drop_last() =~= ms.drop_last());
    }
}

/// Read after write: after setting member `key`, looking it up gives the
/// value written.
pub proof fn law_member_read_after_write(ms: Seq<(Seq<char>, JsonView)>, key: Seq<char>, value: JsonView)
    ensures
        jlookup(jinsert(ms, key, value), key) == Some(value),
{
    if exists|i: int| 0 <= i < ms.len() && ms[i].0 == key {
        let i0 = choose|i: int| 0 <= i < ms.len() && ms[i].0 == key;
        lemma_first_occurrence(ms, key, i0);
        let p = choose|p: int| 0 <= p < ms.len() && ms[p].0 == key && forall|j: int| 0 <= j < p ==> ms[j].0 != key;
        let u = ms.update(p, (key, value));
        assert forall|j: int| 0 <= j < p implies #[trigger] u[j].0 != key by {
            assert(u[j] == ms[j]);
        }
        lemma_jlookup_first(u, key, p);
    } else {
        lemma_jlookup_absent(ms, key);
        assert(ms.push((key, value)).drop_last() =~= ms);
    }
}

/// Setting a member leaves the members of other names as they were.
pub proof fn law_member_write_keeps_others(
    ms: Seq<(Seq<char>, JsonView)>,
    key: Seq<char>,
    value: JsonView,
    other: Seq<char>,
)
    requires
        other != key,
    ensures
        jlookup(jinsert(ms, key, value), other) == jlookup(ms, other),
{
    if exists|i: int| 0 <= i < ms.len() && ms[i].0 == key {
        let i0 = choose|i: int| 0 <= i < ms.len() && ms[i].0 == key;
        lemma_first_occurrence(ms, key, i0);
        let p = choose|p: int| 0 <= p < ms.len() && ms[p].0 == key && forall|j: int| 0 <= j < p ==> ms[j].0 != key;
        lemma_jlookup_update_other(ms, p, (key, value), other);
    } else {
        assert(ms.push((key, value)).drop_last() =~= ms);
    }
}

/// A copy of an object's members.
pub fn copy_members(members: &Vec<(String, JsonValue)>) -> (r: Vec<(String, JsonValue)>)
    ensures
        jview_members(r@) == jview_members(members@),
{
    let mut out: Vec<(String, JsonValue)> = Vec::new();
    let mut i: usize = 0;
    while i < members.len()
        invariant
            i <= members@.len(),
            jview_members(out@) == jview_members(members@.take(i as int)),
        decreases members@.len() - i,
    {
        let c = copy_json(&members[i].1);
        let k = members[i].0.clone();
        let ghost before = out@;
        out.push((k, c));
        proof {
            assert(out@.drop_last() =~= before);
            assert(members@.take(i + 1).drop_last() =~= members@.take(i as int));
        }
        i = i + 1;
    }
    assert(members@.take(members@.len() as int) =~= members@);
    out
}

} // verus!
