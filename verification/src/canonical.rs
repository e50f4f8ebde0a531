//! Canonical JSON text: object members sorted by key, no white space, so
//! that equal values always give the same text.

use vstd::prelude::*;
use crate::json::{jview, jview_items, jview_members, JsonValue, JsonView};
use crate::text::seq_join;

verus! {

#[verifier::external_type_specification]
#[verifier::external_body]
pub struct ExJsonValue(serde_json::Value);

/// A hexadecimal digit, lower case.
pub open spec fn hex_digit(n: int) -> char {
    if n < 10 {
        (n + 48) as char
    } else {
        (n + 87) as char
    }
}

/// How serde_json writes a character inside a string literal: quote and
/// backslash escaped with a backslash, the usual short escapes for
/// backspace, tab, line feed, form feed and carriage return, other control
/// characters as `\u00` and two hexadecimal digits, everything else as is.
pub open spec fn escaped_char(c: char) -> Seq<char> {
    if c == '"' {
        seq!['\\', '"']
    } else if c == '\\' {
        seq!['\\', '\\']
    } else if c == '\u{8}' {
        seq!['\\', 'b']
    } else if c == '\t' {
        seq!['\\', 't']
    } else if c == '\n' {
        seq!['\\', 'n']
    } else if c == '\u{c}' {
        seq!['\\', 'f']
    } else if c == '\r' {
        seq!['\\', 'r']
    } else if (c as int) < 32 {
        seq!['\\', 'u', '0', '0', hex_digit((c as int) / 16), hex_digit((c as int) % 16)]
    } else {
        seq![c]
    }
}

/// Every character escaped (see [`escaped_char`]).
pub open spec fn escaped(s: Seq<char>) -> Seq<char>
    decreases s.len(),
{
    if s.len() == 0 {
        Seq::empty()
    } else {
        escaped(s.drop_last()) + escaped_char(s.last())
    }
}

/// What `serde_json::to_string` writes for a string: the escaped text
/// between double quotes.
pub open spec fn json_quoted(s: Seq<char>) -> Seq<char> {
    seq!['"'] + escaped(s) + seq!['"']
}

/// `serde_json::to_string` on a string. Claims what serde_json's compact
/// serializer does (`format_escaped_str` with its escape table): the
/// string quoted and escaped as [`json_quoted`] states; serialising a
/// string cannot fail.
#[verifier::external_body]
pub fn json_quote(s: &str) -> (r: String)
    ensures
        r@ == json_quoted(s@),
{
    serde_json::to_string(s).unwrap_or_default()
}

/// `a` comes strictly before `b` in lexicographic character order (the
/// order of `String`'s `Ord`).
pub open spec fn key_lt(a: Seq<char>, b: Seq<char>) -> bool
    decreases a.len(),
{
    if b.len() == 0 {
        false
    } else if a.len() == 0 {
        true
    } else if a[0] < b[0] {
        true
    } else if a[0] == b[0] {
        key_lt(a.skip(1), b.skip(1))
    } else {
        false
    }
}

/// Whether `a` comes strictly before `b` (see [`key_lt`]).
pub fn key_less(a: &String, b: &String) -> (r: bool)
    ensures
        r == key_lt(a@, b@),
{
    let ac = crate::text::chars_of(a.as_str());
    let bc = crate::text::chars_of(b.as_str());
    let mut i: usize = 0;
    assert(a@.skip(0) =~= a@);
    assert(b@.skip(0) =~= b@);
    while i < ac.len() && i < bc.len() && ac[i] == bc[i]
        invariant
            i <= ac@.len(),
            i <= bc@.len(),
            ac@ == a@,
            bc@ == b@,
            key_lt(a@, b@) == key_lt(a@.skip(i as int), b@.skip(i as int)),
        decreases ac@.len() - i,
    {
        assert(a@.skip(i as int).skip(1) =~= a@.skip(i + 1));
        assert(b@.skip(i as int).skip(1) =~= b@.skip(i + 1));
        i = i + 1;
    }
    proof {
        if i == 0 {
            assert(a@.skip(0) =~= a@);
            assert(b@.skip(0) =~= b@);
        }
    }
    if i == bc.len() {
        assert(b@.skip(i as int).len() == 0);
        false
    } else if i == ac.len() {
        true
    } else {
        assert(a@.skip(i as int)[0] == ac@[i as int]);
        assert(b@.skip(i as int)[0] == bc@[i as int]);
        ac[i] < bc[i]
    }
}

/// `ms` with `m` inserted before the first entry whose key is greater.
pub open spec fn insert_sorted<V>(ms: Seq<(Seq<char>, V)>, m: (Seq<char>, V)) -> Seq<(Seq<char>, V)>
    decreases ms.len(),
{
    if ms.len() == 0 {
        seq![m]
    } else if key_lt(m.0, ms[0].0) {
        seq![m] + ms
    } else {
        seq![ms[0]] + insert_sorted(ms.skip(1), m)
    }
}

/// The entries sorted by key (stable insertion sort).
pub open spec fn sort_by_key<V>(ms: Seq<(Seq<char>, V)>) -> Seq<(Seq<char>, V)>
    decreases ms.len(),
{
    if ms.len() == 0 {
        Seq::empty()
    } else {
        insert_sorted(sort_by_key(ms.drop_last()), ms.last())
    }
}

/// Inserting before the first greater key is inserting at that position.
proof fn lemma_insert_sorted_at<V>(ms: Seq<(Seq<char>, V)>, m: (Seq<char>, V), p: int)
    requires
        0 <= p <= ms.len(),
        forall|j: int| 0 <= j < p ==> !key_lt(m.0, #[trigger] ms[j].0),
        p == ms.len() || key_lt(m.0, ms[p].0),
    ensures
        insert_sorted(ms, m) == ms.insert(p, m),
    decreases ms.len(),
{
    if ms.len() == 0 {
        assert(ms.insert(p, m) =~= seq![m]);
    } else if p == 0 {
        assert(ms.insert(0, m) =~= seq![m] + ms);
    } else {
        assert forall|j: int| 0 <= j < p - 1 implies !key_lt(m.0, #[trigger] ms.skip(1)[j].0) by {
            assert(ms.skip(1)[j] == ms[j + 1]);
        }
        if p < ms.len() {
            assert(ms.skip(1)[p - 1] == ms[p]);
        }
        lemma_insert_sorted_at(ms.skip(1), m, p - 1);
        assert(!key_lt(m.0, ms[0].0));
        assert(seq![ms[0]] + ms.skip(1).insert(p - 1, m) =~= ms.insert(p, m));
    }
}

/// The views of a list of string pairs.
pub open spec fn pairs_view(v: Seq<(String, String)>) -> Seq<(Seq<char>, Seq<char>)> {
    v.map_values(|p: (String, String)| (p.0@, p.1@))
}

/// The pairs sorted by their first component (see [`sort_by_key`]).
pub fn sort_pairs(pairs: Vec<(String, String)>) -> (r: Vec<(String, String)>)
    ensures
        pairs_view(r@) == sort_by_key(pairs_view(pairs@)),
{
    let ghost pv = pairs_view(pairs@);
    let mut out: Vec<(String, String)> = Vec::new();
    let mut i: usize = 0;
    while i < pairs.len()
        invariant
            i <= pairs@.len(),
            pv == pairs_view(pairs@),
            pairs_view(out@) == sort_by_key(pv.take(i as int)),
        decreases pairs@.len() - i,
    {
        let ghost ov = pairs_view(out@);
        let ghost m = pv[i as int];
        assert(pv.take(i + 1).drop_last() =~= pv.take(i as int));
        assert(pv.take(i + 1).last() == m);
        let mut p: usize = 0;
        while p < out.len() && !key_less(&pairs[i].0, &out[p].0)
            invariant
                p <= out@.len(),
                i < pairs@.len(),
                ov == pairs_view(out@),
                m == (pairs@[i as int].0@, pairs@[i as int].1@),
                forall|j: int| 0 <= j < p ==> !key_lt(m.0, #[trigger] ov[j].0),
            decreases out@.len() - p,
        {
            p = p + 1;
        }
        proof {
            lemma_insert_sorted_at(ov, m, p as int);
        }
        out.insert(p, (pairs[i].0.clone(), pairs[i].1.clone()));
        assert(pairs_view(out@) =~= ov.insert(p as int, m));
        i = i + 1;
    }
    assert(pv.take(pairs@.len() as int) =~= pv);
    out
}

/// Canonical JSON text: objects as `{"key":value,...}` with members sorted
/// by key, arrays as `[item,...]`, strings quoted as serde_json quotes them,
/// numbers, booleans and null as written.
pub open spec fn canonical(v: JsonView) -> Seq<char>
    decreases v,
{
    match v {
        JsonView::Null => "null"@,
        JsonView::Bool(b) => if b {
            "true"@
        } else {
            "false"@
        },
        JsonView::Number(n) => n,
        JsonView::Str(s) => json_quoted(s),
        JsonView::Array(items) => "["@ + seq_join(canonical_items(items), ","@) + "]"@,
        JsonView::Object(ms) => "{"@ + seq_join(member_texts(sort_by_key(keyed_texts(ms))), ","@) + "}"@,
    }
}

/// The canonical texts of array items.
pub open spec fn canonical_items(items: Seq<JsonView>) -> Seq<Seq<char>>
    decreases items,
{
    if items.len() == 0 {
        Seq::empty()
    } else {
        canonical_items(items.drop_last()).push(canonical(items.last()))
    }
}

/// Each member's key with its value's canonical text.
pub open spec fn keyed_texts(ms: Seq<(Seq<char>, JsonView)>) -> Seq<(Seq<char>, Seq<char>)>
    decreases ms,
{
    if ms.len() == 0 {
        Seq::empty()
    } else {
        keyed_texts(ms.drop_last()).push((ms.last().0, canonical(ms.last().1)))
    }
}

/// `"key":text` for each keyed text.
pub open spec fn member_texts(kts: Seq<(Seq<char>, Seq<char>)>) -> Seq<Seq<char>> {
    kts.map_values(|kt: (Seq<char>, Seq<char>)| json_quoted(kt.0) + ":"@ + kt.1)
}

fn surround(open: &str, inner: String, close: &str) -> (r: String)
    ensures
        r@ == open@ + inner@ + close@,
{
    let mut r = crate::text::owned(open);
    r.append(inner.as_str());
    r.append(close);
    r
}

/// The canonical JSON text of a value (see [`canonical`]).
pub fn canonical_json(v: &JsonValue) -> (r: String)
    ensures
        r@ == canonical(jview(*v)),
    decreases v,
{
    match v {
        JsonValue::Null => crate::text::owned("null"),
        JsonValue::Bool(b) => if *b {
            crate::text::owned("true")
        } else {
            crate::text::owned("false")
        },
        JsonValue::Number(n) => n.clone(),
        JsonValue::Str(s) => json_quote(s.as_str()),
        JsonValue::Array(items) => {
            let mut texts: Vec<String> = Vec::new();
            let mut i: usize = 0;
            while i < items.len()
                invariant
                    i <= items@.len(),
                    *v == JsonValue::Array(*items),
                    texts@.map_values(|t: String| t@) == canonical_items(jview_items(items@.take(i as int))),
                decreases items@.len() - i,
            {
                proof {
                    assert(decreases_to!(*v => (*v)->Array_0));
                    assert(decreases_to!(*items => items@));
                    assert(decreases_to!(items@ => items@[i as int]));
                }
                let t = canonical_json(&items[i]);
                let ghost before = texts@.map_values(|t: String| t@);
                texts.push(t);
                proof {
                    assert(items@.take(i + 1).drop_last() =~= items@.take(i as int));
                    assert(jview_items(items@.take(i + 1)).drop_last() =~= jview_items(items@.take(i as int)));
                    assert(texts@.map_values(|t: String| t@) =~= before.push(t@));
                }
                i = i + 1;
            }
            assert(items@.take(items@.len() as int) =~= items@);
            let inner = crate::text::join_strings(&texts, ",");
            surround("[", inner, "]")
        },
        JsonValue::Object(members) => {
            let mut kts: Vec<(String, String)> = Vec::new();
            let mut i: usize = 0;
            while i < members.len()
                invariant
                    i <= members@.len(),
                    *v == JsonValue::Object(*members),
                    pairs_view(kts@) == keyed_texts(jview_members(members@.take(i as int))),
                decreases members@.len() - i,
            {
                proof {
                    assert(decreases_to!(*v => (*v)->Object_0));
                    assert(decreases_to!(*members => members@));
                    assert(decreases_to!(members@ => members@[i as int]));
                    assert(decreases_to!(members@[i as int] => members@[i as int].1));
                }
                let t = canonical_json(&members[i].1);
                let ghost before = pairs_view(kts@);
                kts.push((members[i].0.clone(), t));
                proof {
                    assert(members@.take(i + 1).drop_last() =~= members@.take(i as int));
                    assert(jview_members(members@.take(i + 1)).drop_last() =~= jview_members(members@.take(i as int)));
                    assert(pairs_view(kts@) =~= before.push((members@[i as int].0@, t@)));
                }
                i = i + 1;
            }
            assert(members@.take(members@.len() as int) =~= members@);
            let sorted = sort_pairs(kts);
            let mut texts: Vec<String> = Vec::new();
            let mut j: usize = 0;
            while j < sorted.len()
                invariant
                    j <= sorted@.len(),
                    texts@.len() == j,
                    forall|k: int| 0 <= k < j ==> (#[trigger] texts@[k])@ == json_quoted(sorted@[k].0@) + ":"@ + sorted@[k].1@,
                decreases sorted@.len() - j,
            {
                let mut t = json_quote(sorted[j].0.as_str());
                t.append(":");
                t.append(sorted[j].1.as_str());
                texts.push(t);
                j = j + 1;
            }
            assert(texts@.map_values(|t: String| t@) =~= member_texts(pairs_view(sorted@)));
            let inner = crate::text::join_strings(&texts, ",");
            surround("{", inner, "}")
        },
    }
}

/// Every key occurs once.
pub open spec fn keys_unique<V>(s: Seq<(Seq<char>, V)>) -> bool {
    forall|i: int, j: int| 0 <= i < s.len() && 0 <= j < s.len() && i != j ==> s[i].0 != s[j].0
}

/// The keys strictly increase.
pub open spec fn strictly_sorted<V>(s: Seq<(Seq<char>, V)>) -> bool {
    forall|i: int, j: int| 0 <= i < j < s.len() ==> key_lt(#[trigger] s[i].0, #[trigger] s[j].0)
}

proof fn lemma_key_lt_irreflexive(a: Seq<char>)
    ensures
        !key_lt(a, a),
    decreases a.len(),
{
    if a.len() > 0 {
        lemma_key_lt_irreflexive(a.skip(1));
    }
}

proof fn lemma_key_lt_transitive(a: Seq<char>, b: Seq<char>, c: Seq<char>)
    requires
        key_lt(a, b),
        key_lt(b, c),
    ensures
        key_lt(a, c),
    decreases a.len(),
{
    if a.len() > 0 && a[0] == b[0] && b[0] == c[0] {
        lemma_key_lt_transitive(a.skip(1), b.skip(1), c.skip(1));
    }
}

proof fn lemma_key_lt_total(a: Seq<char>, b: Seq<char>)
    requires
        a != b,
    ensures
        key_lt(a, b) || key_lt(b, a),
    decreases a.len(),
{
    if a.len() > 0 && b.len() > 0 && a[0] == b[0] {
        if a.skip(1) == b.skip(1) {
            assert(a =~= seq![a[0]] + a.skip(1));
            assert(b =~= seq![b[0]] + b.skip(1));
        }
        lemma_key_lt_total(a.skip(1), b.skip(1));
    } else if a.len() == 0 && b.len() == 0 {
        assert(a =~= b);
    }
}

/// Inserting into sorted entries keeps every entry and adds the new one;
/// the result is sorted when its key is new.
proof fn lemma_insert_sorted_props<V>(ms: Seq<(Seq<char>, V)>, m: (Seq<char>, V))
    ensures
        insert_sorted(ms, m).len() == ms.len() + 1,
        forall|x: (Seq<char>, V)|
            #![trigger insert_sorted(ms, m).contains(x)]
            #![trigger ms.contains(x)]
            insert_sorted(ms, m).contains(x) <==> (ms.contains(x) || x == m),
        strictly_sorted(ms) && (forall|j: int| 0 <= j < ms.len() ==> #[trigger] ms[j].0 != m.0) ==> strictly_sorted(
            insert_sorted(ms, m),
        ),
    decreases ms.len(),
{
    let r = insert_sorted(ms, m);
    if ms.len() == 0 {
        assert forall|x: (Seq<char>, V)| #[trigger] r.contains(x) <==> (ms.contains(x) || x == m) by {
            if r.contains(x) {
                let i = choose|i: int| 0 <= i < r.len() && r[i] == x;
                assert(i == 0);
            }
            if x == m {
                assert(r[0] == m);
            }
        }
    } else if key_lt(m.0, ms[0].0) {
        assert forall|x: (Seq<char>, V)| #[trigger] r.contains(x) <==> (ms.contains(x) || x == m) by {
            if r.contains(x) {
                let i = choose|i: int| 0 <= i < r.len() && r[i] == x;
                if i > 0 {
                    assert(ms[i - 1] == x);
                }
            }
            if ms.contains(x) {
                let i = choose|i: int| 0 <= i < ms.len() && ms[i] == x;
                assert(r[i + 1] == x);
            }
            if x == m {
                assert(r[0] == m);
            }
        }
        if strictly_sorted(ms) {
            assert forall|i: int, j: int| 0 <= i < j < r.len() implies key_lt(#[trigger] r[i].0, #[trigger] r[j].0) by {
                if i == 0 {
                    if j > 1 {
                        assert(key_lt(ms[0].0, ms[j - 1].0));
                        lemma_key_lt_transitive(m.0, ms[0].0, ms[j - 1].0);
                    }
                } else {
                    assert(r[i] == ms[i - 1] && r[j] == ms[j - 1]);
                }
            }
        }
    } else {
        let t = ms.skip(1);
        let rest = insert_sorted(t, m);
        lemma_insert_sorted_props(t, m);
        assert(r == seq![ms[0]] + rest);
        assert forall|x: (Seq<char>, V)| #[trigger] r.contains(x) <==> (ms.contains(x) || x == m) by {
            if r.contains(x) {
                let i = choose|i: int| 0 <= i < r.len() && r[i] == x;
                if i > 0 {
                    assert(rest[i - 1] == x);
                    assert(rest.contains(x));
                    if t.contains(x) {
                        let k = choose|k: int| 0 <= k < t.len() && t[k] == x;
                        assert(ms[k + 1] == x);
                    }
                } else {
                    assert(ms[0] == x);
                }
            }
            if ms.contains(x) {
                let i = choose|i: int| 0 <= i < ms.len() && ms[i] == x;
                if i > 0 {
                    assert(t[i - 1] == x);
                    assert(t.contains(x));
                    let k = choose|k: int| 0 <= k < rest.len() && rest[k] == x;
                    assert(r[k + 1] == x);
                } else {
                    assert(r[0] == x);
                }
            }
            if x == m {
                assert(rest.contains(m));
                let k = choose|k: int| 0 <= k < rest.len() && rest[k] == m;
                assert(r[k + 1] == m);
            }
        }
        if strictly_sorted(ms) && (forall|j: int| 0 <= j < ms.len() ==> #[trigger] ms[j].0 != m.0) {
            assert(ms[0].0 != m.0);
            lemma_key_lt_total(m.0, ms[0].0);
            assert(key_lt(ms[0].0, m.0));
            assert forall|i: int, j: int| 0 <= i < j < t.len() implies key_lt(#[trigger] t[i].0, #[trigger] t[j].0) by {
                assert(t[i] == ms[i + 1] && t[j] == ms[j + 1]);
            }
            assert forall|j: int| 0 <= j < t.len() implies #[trigger] t[j].0 != m.0 by {
                assert(t[j] == ms[j + 1]);
            }
            assert forall|i: int, j: int| 0 <= i < j < r.len() implies key_lt(#[trigger] r[i].0, #[trigger] r[j].0) by {
                if i == 0 {
                    let y = rest[j - 1];
                    assert(r[j] == y);
                    assert(rest.contains(y));
                    if t.contains(y) {
                        let k = choose|k: int| 0 <= k < t.len() && t[k] == y;
                        assert(ms[k + 1] == y);
                        assert(key_lt(ms[0].0, ms[k + 1].0));
                    }
                } else {
                    assert(r[i] == rest[i - 1] && r[j] == rest[j - 1]);
                }
            }
        }
    }
}

/// Sorting keeps the entries, and sorts them strictly when no key repeats.
proof fn lemma_sort_props<V>(s: Seq<(Seq<char>, V)>)
    ensures
        sort_by_key(s).len() == s.len(),
        forall|x: (Seq<char>, V)| #![trigger sort_by_key(s).contains(x)] #![trigger s.contains(x)] sort_by_key(s).contains(x) <==> s.contains(x),
        keys_unique(s) ==> strictly_sorted(sort_by_key(s)),
    decreases s.len(),
{
    if s.len() > 0 {
        let d = s.drop_last();
        let sd = sort_by_key(d);
        lemma_sort_props(d);
        lemma_insert_sorted_props(sd, s.last());
        assert forall|x: (Seq<char>, V)| #[trigger] sort_by_key(s).contains(x) <==> s.contains(x) by {
            if s.contains(x) {
                let i = choose|i: int| 0 <= i < s.len() && s[i] == x;
                if i < s.len() - 1 {
                    assert(d[i] == x);
                    assert(d.contains(x));
                }
            }
            if d.contains(x) {
                let i = choose|i: int| 0 <= i < d.len() && d[i] == x;
                assert(s[i] == x);
            }
            if x == s.last() {
                assert(s[s.len() - 1] == x);
            }
        }
        if keys_unique(s) {
            assert(keys_unique(d)) by {
                assert forall|i: int, j: int| 0 <= i < d.len() && 0 <= j < d.len() && i != j implies d[i].0 != d[j].0 by {
                    assert(d[i] == s[i] && d[j] == s[j]);
                }
            }
            assert forall|j: int| 0 <= j < sd.len() implies #[trigger] sd[j].0 != s.last().0 by {
                assert(sd.contains(sd[j]));
                let i = choose|i: int| 0 <= i < d.len() && d[i] == sd[j];
                assert(s[i] == d[i]);
                assert(s[i].0 != s[s.len() - 1].0);
            }
        }
    }
}

/// Two strictly sorted sequences with the same entries are equal.
proof fn lemma_sorted_unique<V>(s: Seq<(Seq<char>, V)>, t: Seq<(Seq<char>, V)>)
    requires
        strictly_sorted(s),
        strictly_sorted(t),
        forall|x: (Seq<char>, V)| #![trigger s.contains(x)] #![trigger t.contains(x)] s.contains(x) <==> t.contains(x),
    ensures
        s == t,
    decreases s.len(),
{
    if s.len() == 0 || t.len() == 0 {
        if s.len() > 0 {
            assert(s.contains(s[0]));
        }
        if t.len() > 0 {
            assert(t.contains(t[0]));
        }
        assert(s =~= t);
    } else {
        assert(s.contains(s[0]));
        assert(t.contains(t[0]));
        let k = choose|k: int| 0 <= k < t.len() && t[k] == s[0];
        let l = choose|l: int| 0 <= l < s.len() && s[l] == t[0];
        if k > 0 {
            assert(key_lt(t[0].0, t[k].0));
            if l > 0 {
                assert(key_lt(s[0].0, s[l].0));
                lemma_key_lt_transitive(s[0].0, t[0].0, s[0].0);
                lemma_key_lt_irreflexive(s[0].0);
            } else {
                lemma_key_lt_irreflexive(s[0].0);
            }
        }
        assert(s[0] == t[0]);
        let s1 = s.skip(1);
        let t1 = t.skip(1);
        assert forall|i: int, j: int| 0 <= i < j < s1.len() implies key_lt(#[trigger] s1[i].0, #[trigger] s1[j].0) by {
            assert(s1[i] == s[i + 1] && s1[j] == s[j + 1]);
        }
        assert forall|i: int, j: int| 0 <= i < j < t1.len() implies key_lt(#[trigger] t1[i].0, #[trigger] t1[j].0) by {
            assert(t1[i] == t[i + 1] && t1[j] == t[j + 1]);
        }
        assert forall|x: (Seq<char>, V)| #![trigger s1.contains(x)] #![trigger t1.contains(x)] s1.contains(x) <==> t1.contains(x) by {
            if s1.contains(x) {
                let i = choose|i: int| 0 <= i < s1.len() && s1[i] == x;
                assert(s[i + 1] == x);
                assert(s.contains(x));
                let j = choose|j: int| 0 <= j < t.len() && t[j] == x;
                if j == 0 {
                    assert(key_lt(s[0].0, s[i + 1].0));
                    lemma_key_lt_irreflexive(s[0].0);
                }
                assert(t1[j - 1] == x);
            }
            if t1.contains(x) {
                let i = choose|i: int| 0 <= i < t1.len() && t1[i] == x;
                assert(t[i + 1] == x);
                assert(t.contains(x));
                let j = choose|j: int| 0 <= j < s.len() && s[j] == x;
                if j == 0 {
                    assert(key_lt(t[0].0, t[i + 1].0));
                    lemma_key_lt_irreflexive(t[0].0);
                }
                assert(s1[j - 1] == x);
            }
        }
        lemma_sorted_unique(s1, t1);
        assert(s =~= seq![s[0]] + s1);
        assert(t =~= seq![t[0]] + t1);
    }
}

proof fn lemma_keyed_texts(ms: Seq<(Seq<char>, JsonView)>)
    ensures
        keyed_texts(ms).len() == ms.len(),
        forall|i: int| 0 <= i < ms.len() ==> #[trigger] keyed_texts(ms)[i] == (ms[i].0, canonical(ms[i].1)),
    decreases ms.len(),
{
    if ms.len() > 0 {
        lemma_keyed_texts(ms.drop_last());
        assert forall|i: int| 0 <= i < ms.len() implies #[trigger] keyed_texts(ms)[i] == (ms[i].0, canonical(ms[i].1)) by {
            if i < ms.len() - 1 {
                assert(ms.drop_last()[i] == ms[i]);
            }
        }
    }
}

/// Member order does not matter: two objects with the same members, each
/// key once, have the same canonical text.
pub proof fn law_canonical_ignores_member_order(ms1: Seq<(Seq<char>, JsonView)>, ms2: Seq<(Seq<char>, JsonView)>)
    requires
        keys_unique(ms1),
        keys_unique(ms2),
        forall|x: (Seq<char>, JsonView)| #![trigger ms1.contains(x)] #![trigger ms2.contains(x)] ms1.contains(x) <==> ms2.contains(x),
    ensures
        canonical(JsonView::Object(ms1)) == canonical(JsonView::Object(ms2)),
{
    let k1 = keyed_texts(ms1);
    let k2 = keyed_texts(ms2);
    lemma_keyed_texts(ms1);
    lemma_keyed_texts(ms2);
    assert(keys_unique(k1)) by {
        assert forall|i: int, j: int| 0 <= i < k1.len() && 0 <= j < k1.len() && i != j implies k1[i].0 != k1[j].0 by {
            assert(k1[i].0 == ms1[i].0 && k1[j].0 == ms1[j].0);
        }
    }
    assert(keys_unique(k2)) by {
        assert forall|i: int, j: int| 0 <= i < k2.len() && 0 <= j < k2.len() && i != j implies k2[i].0 != k2[j].0 by {
            assert(k2[i].0 == ms2[i].0 && k2[j].0 == ms2[j].0);
        }
    }
    assert forall|x: (Seq<char>, Seq<char>)| #![trigger k1.contains(x)] #![trigger k2.contains(x)] k1.contains(x) <==> k2.contains(x) by {
        if k1.contains(x) {
            let i = choose|i: int| 0 <= i < k1.len() && k1[i] == x;
            assert(ms1.contains(ms1[i]));
            let j = choose|j: int| 0 <= j < ms2.len() && ms2[j] == ms1[i];
            assert(k2[j] == x);
        }
        if k2.contains(x) {
            let i = choose|i: int| 0 <= i < k2.len() && k2[i] == x;
            assert(ms2.contains(ms2[i]));
            let j = choose|j: int| 0 <= j < ms1.len() && ms1[j] == ms2[i];
            assert(k1[j] == x);
        }
    }
    lemma_sort_props(k1);
    lemma_sort_props(k2);
    let s1 = sort_by_key(k1);
    let s2 = sort_by_key(k2);
    assert forall|x: (Seq<char>, Seq<char>)| #![trigger s1.contains(x)] #![trigger s2.contains(x)] s1.contains(x) <==> s2.contains(x) by {
        assert(s1.contains(x) <==> k1.contains(x));
        assert(s2.contains(x) <==> k2.contains(x));
    }
    lemma_sorted_unique(s1, s2);
}

} // verus!
