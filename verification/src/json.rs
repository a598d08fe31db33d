//! A JSON value model with the compact text form that `serde_json` writes.
use vstd::prelude::*;

use crate::text::{
    chars_lt, chars_of, find_char, first_char_index, lemma_first_char_index, seq_lt, slice_chars,
    slice_string, str_eq, string_of,
};

verus! {

/// A JSON value. Numbers keep their decimal text, so no floating point is involved.
#[derive(Debug)]
pub enum Json {
    Null,
    Bool(bool),
    Number(String),
    String(String),
    Array(Vec<Json>),
    Object(Vec<(String, Json)>),
}

/// The mathematical value of a [`Json`].
pub enum JsonView {
    Null,
    Bool(bool),
    Number(Seq<char>),
    String(Seq<char>),
    Array(Seq<JsonView>),
    Object(Seq<(Seq<char>, JsonView)>),
}

pub open spec fn json_view(j: Json) -> JsonView
    decreases j,
{
    match j {
        Json::Null => JsonView::Null,
        Json::Bool(b) => JsonView::Bool(b),
        Json::Number(n) => JsonView::Number(n@),
        Json::String(s) => JsonView::String(s@),
        Json::Array(v) => JsonView::Array(
            Seq::new(
                v@.len(),
                |i: int|
                    if 0 <= i < v@.len() {
                        json_view(v@[i])
                    } else {
                        JsonView::Null
                    },
            ),
        ),
        Json::Object(m) => JsonView::Object(
            Seq::new(
                m@.len(),
                |i: int|
                    if 0 <= i < m@.len() {
                        (m@[i].0@, json_view(m@[i].1))
                    } else {
                        (Seq::empty(), JsonView::Null)
                    },
            ),
        ),
    }
}

impl View for Json {
    type V = JsonView;

    open spec fn view(&self) -> JsonView {
        json_view(*self)
    }
}

/// The view of the entries of an object.
pub open spec fn entries_view(m: Seq<(String, Json)>) -> Seq<(Seq<char>, JsonView)> {
    Seq::new(m.len(), |i: int| (m[i].0@, json_view(m[i].1)))
}

/// The views of the items of an array.
pub open spec fn items_view(v: Seq<Json>) -> Seq<JsonView> {
    Seq::new(v.len(), |i: int| json_view(v[i]))
}

pub proof fn lemma_view_parts(j: Json)
    ensures
        j matches Json::Object(m) ==> j@ == JsonView::Object(entries_view(m@)),
        j matches Json::Array(v) ==> j@ == JsonView::Array(items_view(v@)),
{
    match j {
        Json::Object(m) => {
            assert(entries_view(m@) =~= (match j@ {
                JsonView::Object(e) => e,
                _ => Seq::empty(),
            }));
        },
        Json::Array(v) => {
            assert(items_view(v@) =~= (match j@ {
                JsonView::Array(e) => e,
                _ => Seq::empty(),
            }));
        },
        _ => {},
    }
}

// ---------------------------------------------------------------- text form

pub open spec fn hex_digit(n: int) -> char {
    if n < 10 {
        (n + 48) as char
    } else {
        (n + 87) as char
    }
}

/// How `serde_json` writes one character inside a string literal.
pub open spec fn escape_char(c: char) -> Seq<char> {
    if c == '"' {
        seq!['\\', '"']
    } else if c == '\\' {
        seq!['\\', '\\']
    } else if c == '\u{8}' {
        seq!['\\', 'b']
    } else if c == '\u{c}' {
        seq!['\\', 'f']
    } else if c == '\n' {
        seq!['\\', 'n']
    } else if c == '\r' {
        seq!['\\', 'r']
    } else if c == '\t' {
        seq!['\\', 't']
    } else if (c as u32) < 0x20 {
        seq!['\\', 'u', '0', '0', hex_digit(((c as u32) / 16) as int), hex_digit(((c as u32) % 16) as int)]
    } else {
        seq![c]
    }
}

pub open spec fn escape(s: Seq<char>) -> Seq<char>
    decreases s.len(),
{
    if s.len() == 0 {
        Seq::empty()
    } else {
        escape(s.drop_last()) + escape_char(s.last())
    }
}

pub open spec fn quoted(s: Seq<char>) -> Seq<char> {
    seq!['"'] + escape(s) + seq!['"']
}

/// The compact text of a JSON value, as `serde_json::to_string` writes it.
pub open spec fn json_text(j: JsonView) -> Seq<char>
    decreases j,
{
    match j {
        JsonView::Null => seq!['n', 'u', 'l', 'l'],
        JsonView::Bool(b) => if b {
            seq!['t', 'r', 'u', 'e']
        } else {
            seq!['f', 'a', 'l', 's', 'e']
        },
        JsonView::Number(n) => n,
        JsonView::String(s) => quoted(s),
        JsonView::Array(items) => seq!['['] + items_text(items) + seq![']'],
        JsonView::Object(entries) => seq!['{'] + entries_text(entries) + seq!['}'],
    }
}

pub open spec fn items_text(items: Seq<JsonView>) -> Seq<char>
    decreases items,
{
    if items.len() == 0 {
        Seq::empty()
    } else if items.len() == 1 {
        json_text(items[0])
    } else {
        items_text(items.drop_last()) + seq![','] + json_text(items.last())
    }
}

pub open spec fn entries_text(entries: Seq<(Seq<char>, JsonView)>) -> Seq<char>
    decreases entries,
{
    if entries.len() == 0 {
        Seq::empty()
    } else if entries.len() == 1 {
        quoted(entries[0].0) + seq![':'] + json_text(entries[0].1)
    } else {
        entries_text(entries.drop_last()) + seq![','] + quoted(entries.last().0) + seq![':']
            + json_text(entries.last().1)
    }
}


// ---------------------------------------------------------------- writing

fn hex_char(n: u32) -> (c: char)
    requires
        n < 16,
    ensures
        c == hex_digit(n as int),
{
    let b = n as u8;
    if b < 10 {
        (b + 48) as char
    } else {
        (b + 87) as char
    }
}

fn push_escaped(c: char, out: &mut Vec<char>)
    ensures
        final(out)@ == old(out)@ + escape_char(c),
{
    let ghost start = out@;
    if c == '"' {
        out.push('\\');
        out.push('"');
    } else if c == '\\' {
        out.push('\\');
        out.push('\\');
    } else if c == '\u{8}' {
        out.push('\\');
        out.push('b');
    } else if c == '\u{c}' {
        out.push('\\');
        out.push('f');
    } else if c == '\n' {
        out.push('\\');
        out.push('n');
    } else if c == '\r' {
        out.push('\\');
        out.push('r');
    } else if c == '\t' {
        out.push('\\');
        out.push('t');
    } else if (c as u32) < 0x20 {
        let code = c as u32;
        out.push('\\');
        out.push('u');
        out.push('0');
        out.push('0');
        out.push(hex_char(code / 16));
        out.push(hex_char(code % 16));
    } else {
        out.push(c);
    }
    assert(out@ =~= start + escape_char(c));
}

fn write_quoted(s: &str, out: &mut Vec<char>)
    ensures
        final(out)@ == old(out)@ + quoted(s@),
{
    let ghost start = out@;
    let cs = chars_of(s);
    out.push('"');
    let mut i: usize = 0;
    while i < cs.len()
        invariant
            cs@ == s@,
            i <= cs.len(),
            out@ == start + seq!['"'] + escape(cs@.take(i as int)),
        decreases cs.len() - i,
    {
        proof {
            assert(cs@.take(i + 1).drop_last() =~= cs@.take(i as int));
        }
        push_escaped(cs[i], out);
        proof {
            assert(out@ =~= start + seq!['"'] + escape(cs@.take(i + 1)));
        }
        i = i + 1;
    }
    out.push('"');
    proof {
        assert(cs@.take(cs.len() as int) =~= cs@);
        assert(out@ =~= start + quoted(s@));
    }
}

/// Appends the compact text of `j` to `out`.
pub fn write_json(j: &Json, out: &mut Vec<char>)
    ensures
        final(out)@ == old(out)@ + json_text(j@),
    decreases j@,
{
    let ghost start = out@;
    proof { lemma_view_parts(*j); }
    match j {
        Json::Null => {
            out.push('n');
            out.push('u');
            out.push('l');
            out.push('l');
            assert(out@ =~= start + json_text(j@));
        },
        Json::Bool(b) => {
            if *b {
                out.push('t');
                out.push('r');
                out.push('u');
                out.push('e');
            } else {
                out.push('f');
                out.push('a');
                out.push('l');
                out.push('s');
                out.push('e');
            }
            assert(out@ =~= start + json_text(j@));
        },
        Json::Number(n) => {
            let cs = chars_of(n.as_str());
            let mut i: usize = 0;
            while i < cs.len()
                invariant
                    cs@ == n@,
                    i <= cs.len(),
                    out@ == start + cs@.take(i as int),
                decreases cs.len() - i,
            {
                out.push(cs[i]);
                proof { assert(out@ =~= start + cs@.take(i + 1)); }
                i = i + 1;
            }
            proof { assert(cs@.take(cs.len() as int) =~= cs@); }
        },
        Json::String(s) => {
            write_quoted(s.as_str(), out);
        },
        Json::Array(v) => {
            let ghost iv = items_view(v@);
            out.push('[');
            let mut i: usize = 0;
            while i < v.len()
                invariant
                    *j == Json::Array(*v),
                    iv == items_view(v@),
                    i <= v.len(),
                    out@ == start + seq!['['] + items_text(iv.take(i as int)),
                decreases v.len() - i,
            {
                if i > 0 {
                    out.push(',');
                }
                proof {
                    lemma_view_parts(*j);
                    assert(iv[i as int] == v@[i as int]@);
                    assert(j@ == JsonView::Array(iv));
                    assert(decreases_to!(j@ => j@->Array_0));
                    assert(decreases_to!(j@->Array_0 => (j@->Array_0)[i as int]));
                }
                write_json(&v[i], out);
                proof {
                    let t = iv.take(i + 1);
                    assert(t.drop_last() =~= iv.take(i as int));
                    assert(t.last() == v@[i as int]@);
                    if i == 0 {
                        assert(out@ =~= start + seq!['['] + items_text(t));
                    } else {
                        assert(out@ =~= start + seq!['['] + items_text(t));
                    }
                }
                i = i + 1;
            }
            out.push(']');
            proof {
                assert(iv.take(v.len() as int) =~= iv);
                assert(out@ =~= start + json_text(j@));
            }
        },
        Json::Object(m) => {
            let ghost ev = entries_view(m@);
            out.push('{');
            let mut i: usize = 0;
            while i < m.len()
                invariant
                    *j == Json::Object(*m),
                    ev == entries_view(m@),
                    i <= m.len(),
                    out@ == start + seq!['{'] + entries_text(ev.take(i as int)),
                decreases m.len() - i,
            {
                let ghost before = out@;
                if i > 0 {
                    out.push(',');
                }
                write_quoted(m[i].0.as_str(), out);
                out.push(':');
                proof {
                    lemma_view_parts(*j);
                    assert(ev[i as int].1 == m@[i as int].1@);
                    assert(j@ == JsonView::Object(ev));
                    assert(decreases_to!(j@ => j@->Object_0));
                    assert(decreases_to!(j@->Object_0 => (j@->Object_0)[i as int]));
                    assert(decreases_to!((j@->Object_0)[i as int] => (j@->Object_0)[i as int].1));
                }
                write_json(&m[i].1, out);
                proof {
                    let t = ev.take(i + 1);
                    assert(t.drop_last() =~= ev.take(i as int));
                    assert(t.last() == (m@[i as int].0@, m@[i as int].1@));
                    assert(out@ =~= start + seq!['{'] + entries_text(t));
                }
                i = i + 1;
            }
            out.push('}');
            proof {
                assert(ev.take(m.len() as int) =~= ev);
                assert(out@ =~= start + json_text(j@));
            }
        },
    }
}

impl Json {
    /// The compact JSON text of this value, as `serde_json` writes it.
    pub fn to_text(&self) -> (r: String)
        ensures
            r@ == json_text(self@),
    {
        let mut out: Vec<char> = Vec::new();
        write_json(self, &mut out);
        assert(out@ =~= json_text(self@));
        string_of(out.as_slice())
    }
}


// ---------------------------------------------------------------- objects

/// The first index in `i..n` that satisfies `p`, or `n` when there is none.
pub open spec fn first_from(i: int, n: int, p: spec_fn(int) -> bool) -> int
    decreases n - i,
{
    if i >= n {
        n
    } else if p(i) {
        i
    } else {
        first_from(i + 1, n, p)
    }
}

pub proof fn lemma_first_from(i: int, n: int, p: spec_fn(int) -> bool)
    requires
        i <= n,
    ensures
        i <= first_from(i, n, p) <= n,
        first_from(i, n, p) < n ==> p(first_from(i, n, p)),
        forall|k: int| i <= k < first_from(i, n, p) ==> !#[trigger] p(k),
    decreases n - i,
{
    if i < n && !p(i) {
        lemma_first_from(i + 1, n, p);
    }
}

pub proof fn lemma_first_from_is(i: int, n: int, p: spec_fn(int) -> bool, r: int)
    requires
        i <= r <= n,
        r < n ==> p(r),
        forall|k: int| i <= k < r ==> !#[trigger] p(k),
    ensures
        first_from(i, n, p) == r,
    decreases n - i,
{
    if i < r {
        lemma_first_from_is(i + 1, n, p, r);
    }
}

/// Position of the first entry whose key is `key` (the length when there is none).
pub open spec fn key_pos(entries: Seq<(Seq<char>, JsonView)>, key: Seq<char>) -> int {
    first_from(0, entries.len() as int, key_at(entries, key))
}

/// Whether the entry at an index has the key `key`.
pub open spec fn key_at(entries: Seq<(Seq<char>, JsonView)>, key: Seq<char>) -> spec_fn(int) -> bool {
    |k: int| entries[k].0 == key
}

/// Whether the key of the entry at an index sorts after `key`.
pub open spec fn sorts_after(entries: Seq<(Seq<char>, JsonView)>, key: Seq<char>) -> spec_fn(int) -> bool {
    |k: int| seq_lt(key, entries[k].0)
}

/// The value stored under `key`, if any.
pub open spec fn obj_get(entries: Seq<(Seq<char>, JsonView)>, key: Seq<char>) -> Option<JsonView> {
    let p = key_pos(entries, key);
    if p < entries.len() {
        Some(entries[p].1)
    } else {
        None
    }
}

/// Where a new key goes: before the first key that sorts after it, as in a `BTreeMap`.
pub open spec fn insert_pos(entries: Seq<(Seq<char>, JsonView)>, key: Seq<char>) -> int {
    first_from(0, entries.len() as int, sorts_after(entries, key))
}

/// `BTreeMap::insert`: replaces the value of an existing key, or adds the key in key
/// order.
pub open spec fn map_set(
    entries: Seq<(Seq<char>, JsonView)>,
    key: Seq<char>,
    value: JsonView,
) -> Seq<(Seq<char>, JsonView)> {
    let p = key_pos(entries, key);
    if p < entries.len() {
        entries.update(p, (key, value))
    } else {
        entries.insert(insert_pos(entries, key), (key, value))
    }
}

/// `serde_json::Map::insert` (with insertion order kept): replaces the value of an
/// existing key in place, or appends the key.
pub open spec fn obj_set(entries: Seq<(Seq<char>, JsonView)>, key: Seq<char>, value: JsonView) -> Seq<
    (Seq<char>, JsonView),
> {
    let p = key_pos(entries, key);
    if p < entries.len() {
        entries.update(p, (key, value))
    } else {
        entries.push((key, value))
    }
}

/// `serde_json::Map::remove` (with insertion order kept): the last entry takes the
/// place of the entry of `key`, if any.
pub open spec fn obj_remove(entries: Seq<(Seq<char>, JsonView)>, key: Seq<char>) -> Seq<
    (Seq<char>, JsonView),
> {
    let p = key_pos(entries, key);
    if p < entries.len() {
        entries.update(p, entries.last()).drop_last()
    } else {
        entries
    }
}

/// Reading a key back after writing it gives the written value, and every other key
/// keeps its value.
pub proof fn lemma_obj_set_get(entries: Seq<(Seq<char>, JsonView)>, key: Seq<char>, value: JsonView)
    ensures
        obj_get(obj_set(entries, key, value), key) == Some(value),
        forall|other: Seq<char>|
            other != key ==> #[trigger] obj_get(obj_set(entries, key, value), other) == obj_get(
                entries,
                other,
            ),
{
    let n = entries.len() as int;
    let fk = key_at(entries, key);
    lemma_first_from(0, n, fk);
    let p = key_pos(entries, key);
    let e2 = obj_set(entries, key, value);
    let m = e2.len() as int;
    let q0 = if p < n {
        p
    } else {
        n
    };
    let gk = key_at(e2, key);
    assert forall|k: int| 0 <= k < q0 implies !#[trigger] gk(k) by {
        assert(e2[k] == entries[k]);
        assert(!fk(k));
    }
    lemma_first_from_is(0, m, gk, q0);
    assert forall|other: Seq<char>| other != key implies #[trigger] obj_get(e2, other) == obj_get(
        entries,
        other,
    ) by {
        let fo = key_at(entries, other);
        let go = key_at(e2, other);
        lemma_first_from(0, n, fo);
        let q = key_pos(entries, other);
        let q2 = if q < n {
            q
        } else {
            m
        };
        assert forall|k: int| 0 <= k < q2 implies !#[trigger] go(k) by {
            if k < n {
                if k != p {
                    assert(e2[k] == entries[k]);
                }
                if k < q {
                    assert(!fo(k));
                }
            }
        }
        if q < n {
            assert(q != p);
            assert(e2[q] == entries[q]);
            assert(go(q));
        }
        lemma_first_from_is(0, m, go, q2);
    }
}

/// `BTreeMap::remove`: drops the entry of `key`, if any, keeping the order of the others.
pub open spec fn map_remove(entries: Seq<(Seq<char>, JsonView)>, key: Seq<char>) -> Seq<
    (Seq<char>, JsonView),
> {
    let p = key_pos(entries, key);
    if p < entries.len() {
        entries.remove(p)
    } else {
        entries
    }
}

/// `value[key]` in `serde_json`: the member `key` of an object, `null` otherwise.
pub open spec fn index_key(j: JsonView, key: Seq<char>) -> JsonView {
    match j {
        JsonView::Object(entries) => match obj_get(entries, key) {
            Some(v) => v,
            None => JsonView::Null,
        },
        _ => JsonView::Null,
    }
}

/// `Value::as_str`.
pub open spec fn as_str(j: JsonView) -> Option<Seq<char>> {
    match j {
        JsonView::String(s) => Some(s),
        _ => None,
    }
}

/// Finds the position of `key` among the entries.
pub fn key_position(entries: &Vec<(String, Json)>, key: &str) -> (r: usize)
    ensures
        r as int == key_pos(entries_view(entries@), key@),
{
    let ghost ev = entries_view(entries@);
    let ghost p = key_at(ev, key@);
    let mut i: usize = 0;
    while i < entries.len()
        invariant
            ev == entries_view(entries@),
            p == key_at(ev, key@),
            i <= entries.len(),
            forall|k: int| 0 <= k < i ==> !#[trigger] p(k),
        decreases entries.len() - i,
    {
        if str_eq(entries[i].0.as_str(), key) {
            proof { lemma_first_from_is(0, ev.len() as int, p, i as int); }
            return i;
        }
        i = i + 1;
    }
    proof { lemma_first_from_is(0, ev.len() as int, p, ev.len() as int); }
    i
}

/// Finds where a key absent from the entries would be inserted.
pub fn insert_position(entries: &Vec<(String, Json)>, key: &str) -> (r: usize)
    ensures
        r as int == insert_pos(entries_view(entries@), key@),
{
    let ghost ev = entries_view(entries@);
    let ghost p = sorts_after(ev, key@);
    let kc = chars_of(key);
    let mut i: usize = 0;
    while i < entries.len()
        invariant
            ev == entries_view(entries@),
            p == sorts_after(ev, key@),
            kc@ == key@,
            i <= entries.len(),
            forall|k: int| 0 <= k < i ==> !#[trigger] p(k),
        decreases entries.len() - i,
    {
        let ec = chars_of(entries[i].0.as_str());
        if chars_lt(&kc, &ec) {
            proof { lemma_first_from_is(0, ev.len() as int, p, i as int); }
            return i;
        }
        i = i + 1;
    }
    proof { lemma_first_from_is(0, ev.len() as int, p, ev.len() as int); }
    i
}

/// `serde_json::Map::insert`, on the library's object entries.
pub fn obj_insert(entries: &mut Vec<(String, Json)>, key: String, value: Json)
    ensures
        entries_view(final(entries)@) == obj_set(entries_view(old(entries)@), key@, value@),
{
    let ghost ev = entries_view(entries@);
    let p = key_position(entries, key.as_str());
    if p < entries.len() {
        let _ = entries.remove(p);
        entries.insert(p, (key, value));
        proof {
            assert(entries_view(entries@) =~= ev.update(p as int, (key@, value@)));
        }
    } else {
        entries.push((key, value));
        proof {
            assert(entries_view(entries@) =~= ev.push((key@, value@)));
        }
    }
}

/// `serde_json::Map::remove`, on the library's object entries.
pub fn obj_delete(entries: &mut Vec<(String, Json)>, key: &str)
    ensures
        entries_view(final(entries)@) == obj_remove(entries_view(old(entries)@), key@),
{
    let ghost ev = entries_view(entries@);
    let p = key_position(entries, key);
    if p < entries.len() {
        let last = entries.pop().unwrap();
        if p < entries.len() {
            let _ = entries.remove(p);
            entries.insert(p, last);
        }
        proof {
            assert(entries_view(entries@) =~= ev.update(p as int, ev.last()).drop_last());
        }
    }
}

/// `BTreeMap::insert`, on the library's object entries.
pub fn map_insert(entries: &mut Vec<(String, Json)>, key: String, value: Json)
    ensures
        entries_view(final(entries)@) == map_set(entries_view(old(entries)@), key@, value@),
{
    let ghost ev = entries_view(entries@);
    let p = key_position(entries, key.as_str());
    if p < entries.len() {
        let _ = entries.remove(p);
        entries.insert(p, (key, value));
        proof {
            assert(entries_view(entries@) =~= ev.update(p as int, (key@, value@)));
        }
    } else {
        let q = insert_position(entries, key.as_str());
        proof { lemma_first_from(0, ev.len() as int, sorts_after(ev, key@)); }
        entries.insert(q, (key, value));
        proof {
            assert(entries_view(entries@) =~= ev.insert(q as int, (key@, value@)));
        }
    }
}

/// `BTreeMap::remove`, on the library's object entries.
pub fn map_delete(entries: &mut Vec<(String, Json)>, key: &str)
    ensures
        entries_view(final(entries)@) == map_remove(entries_view(old(entries)@), key@),
{
    let ghost ev = entries_view(entries@);
    let p = key_position(entries, key);
    if p < entries.len() {
        let _ = entries.remove(p);
        proof {
            assert(entries_view(entries@) =~= ev.remove(p as int));
        }
    }
}


// ---------------------------------------------------------------- copies

/// A copy of `j` with the same value.
pub fn clone_json(j: &Json) -> (r: Json)
    ensures
        r@ == j@,
    decreases j@,
{
    proof { lemma_view_parts(*j); }
    match j {
        Json::Null => Json::Null,
        Json::Bool(b) => Json::Bool(*b),
        Json::Number(n) => Json::Number(n.clone()),
        Json::String(s) => Json::String(s.clone()),
        Json::Array(v) => {
            let ghost iv = items_view(v@);
            let mut out: Vec<Json> = Vec::new();
            let mut i: usize = 0;
            while i < v.len()
                invariant
                    *j == Json::Array(*v),
                    iv == items_view(v@),
                    i <= v.len(),
                    out@.len() == i,
                    items_view(out@) == iv.take(i as int),
                decreases v.len() - i,
            {
                proof {
                    lemma_view_parts(*j);
                    assert(j@ == JsonView::Array(iv));
                    assert(decreases_to!(j@ => j@->Array_0));
                    assert(decreases_to!(j@->Array_0 => (j@->Array_0)[i as int]));
                }
                let c = clone_json(&v[i]);
                let ghost before = out@;
                out.push(c);
                proof {
                    assert(out@ == before.push(c));
                    assert(c@ == iv[i as int]);
                    assert forall|k: int| 0 <= k < i implies items_view(out@)[k] == iv.take(
                        i + 1,
                    )[k] by {
                        assert(items_view(before)[k] == iv.take(i as int)[k]);
                        assert(out@[k] == before[k]);
                        assert(before.len() == i);
                        assert(out@.len() == i + 1);
                        assert(items_view(out@)[k] == json_view(out@[k]));
                        assert(items_view(before)[k] == json_view(before[k]));
                    }
                    assert(items_view(out@) =~= iv.take(i + 1));
                }
                i = i + 1;
            }
            let r = Json::Array(out);
            proof {
                lemma_view_parts(r);
                assert(iv.take(v.len() as int) =~= iv);
            }
            r
        },
        Json::Object(m) => {
            let ghost ev = entries_view(m@);
            let mut out: Vec<(String, Json)> = Vec::new();
            let mut i: usize = 0;
            while i < m.len()
                invariant
                    *j == Json::Object(*m),
                    ev == entries_view(m@),
                    i <= m.len(),
                    out@.len() == i,
                    entries_view(out@) == ev.take(i as int),
                decreases m.len() - i,
            {
                proof {
                    lemma_view_parts(*j);
                    assert(j@ == JsonView::Object(ev));
                    assert(decreases_to!(j@ => j@->Object_0));
                    assert(decreases_to!(j@->Object_0 => (j@->Object_0)[i as int]));
                    assert(decreases_to!((j@->Object_0)[i as int] => (j@->Object_0)[i as int].1));
                }
                let c = clone_json(&m[i].1);
                let ghost before = out@;
                out.push((m[i].0.clone(), c));
                proof {
                    assert(c@ == ev[i as int].1);
                    assert forall|k: int| 0 <= k < i implies entries_view(out@)[k] == ev.take(
                        i + 1,
                    )[k] by {
                        assert(entries_view(before)[k] == ev.take(i as int)[k]);
                    }
                    assert(entries_view(out@) =~= ev.take(i + 1));
                }
                i = i + 1;
            }
            let r = Json::Object(out);
            proof {
                lemma_view_parts(r);
                assert(ev.take(m.len() as int) =~= ev);
            }
            r
        },
    }
}

impl Clone for Json {
    fn clone(&self) -> (r: Json)
        ensures
            r@ == self@,
    {
        clone_json(self)
    }
}

/// The member `key` of `j` when `j` is an object holding it, `null` otherwise (`j[key]`).
pub fn get_key(j: &Json, key: &str) -> (r: Json)
    ensures
        r@ == index_key(j@, key@),
{
    proof { lemma_view_parts(*j); }
    match j {
        Json::Object(m) => {
            let p = key_position(m, key);
            if p < m.len() {
                clone_json(&m[p].1)
            } else {
                Json::Null
            }
        },
        _ => Json::Null,
    }
}

// ---------------------------------------------------------------- paths

/// Writing `leaf` at a dotted path into object entries, creating intermediate objects;
/// `None` when an existing intermediate member is not an object.
pub open spec fn set_path(entries: Seq<(Seq<char>, JsonView)>, path: Seq<char>, leaf: JsonView) -> Option<
    Seq<(Seq<char>, JsonView)>,
>
    decreases path.len(),
{
    let d = first_char_index(path, '.');
    if d < 0 {
        Some(obj_set(entries, path, leaf))
    } else {
        proof { lemma_first_char_index(path, '.'); }
        let field = path.subrange(0, d);
        let rest = path.subrange(d + 1, path.len() as int);
        match obj_get(entries, field) {
            None => match set_path(Seq::empty(), rest, leaf) {
                Some(inner) => Some(obj_set(entries, field, JsonView::Object(inner))),
                None => None,
            },
            Some(JsonView::Object(inner)) => match set_path(inner, rest, leaf) {
                Some(new_inner) => Some(obj_set(entries, field, JsonView::Object(new_inner))),
                None => None,
            },
            Some(_) => None,
        }
    }
}

/// The value at a dotted path inside object entries, when every member on the way is
/// an object.
pub open spec fn get_path(entries: Seq<(Seq<char>, JsonView)>, path: Seq<char>) -> Option<JsonView>
    decreases path.len(),
{
    let d = first_char_index(path, '.');
    if d < 0 {
        obj_get(entries, path)
    } else {
        proof { lemma_first_char_index(path, '.'); }
        match obj_get(entries, path.subrange(0, d)) {
            Some(JsonView::Object(inner)) => get_path(inner, path.subrange(d + 1, path.len() as int)),
            _ => None,
        }
    }
}

/// The member of the entries that a write at `path` goes through: the part before the
/// first dot, or the whole path.
pub open spec fn first_segment(path: Seq<char>) -> Seq<char> {
    let d = first_char_index(path, '.');
    if d < 0 {
        path
    } else {
        path.subrange(0, d)
    }
}

/// Whether a write at `path` into the entries meets, before the path's last segment, a
/// member that exists and is not an object.
pub open spec fn path_blocked(entries: Seq<(Seq<char>, JsonView)>, path: Seq<char>) -> bool
    decreases path.len(),
{
    let d = first_char_index(path, '.');
    if d < 0 {
        false
    } else {
        proof { lemma_first_char_index(path, '.'); }
        match obj_get(entries, path.subrange(0, d)) {
            None => false,
            Some(JsonView::Object(inner)) => path_blocked(inner, path.subrange(d + 1, path.len() as int)),
            Some(_) => true,
        }
    }
}

/// A write at a path fails exactly when it meets, before the last segment, a member
/// that exists and is not an object; missing members on the way are created.
pub proof fn lemma_set_path_fails(entries: Seq<(Seq<char>, JsonView)>, path: Seq<char>, leaf: JsonView)
    ensures
        set_path(entries, path, leaf) is None <==> path_blocked(entries, path),
    decreases path.len(),
{
    let d = first_char_index(path, '.');
    if d >= 0 {
        lemma_first_char_index(path, '.');
        let rest = path.subrange(d + 1, path.len() as int);
        match obj_get(entries, path.subrange(0, d)) {
            None => {
                lemma_set_path_empty(rest, leaf);
            },
            Some(JsonView::Object(inner)) => {
                lemma_set_path_fails(inner, rest, leaf);
            },
            Some(_) => {},
        }
    }
}

/// Reading a path back after writing it gives the written value, and the members
/// outside the path's first segment keep their values.
pub proof fn lemma_set_path_get(entries: Seq<(Seq<char>, JsonView)>, path: Seq<char>, leaf: JsonView)
    requires
        set_path(entries, path, leaf) is Some,
    ensures
        get_path(set_path(entries, path, leaf)->0, path) == Some(leaf),
        forall|k: Seq<char>|
            k != first_segment(path) ==> #[trigger] obj_get(set_path(entries, path, leaf)->0, k)
                == obj_get(entries, k),
    decreases path.len(),
{
    let d = first_char_index(path, '.');
    lemma_first_char_index(path, '.');
    if d < 0 {
        lemma_obj_set_get(entries, path, leaf);
    } else {
        let field = path.subrange(0, d);
        let rest = path.subrange(d + 1, path.len() as int);
        match obj_get(entries, field) {
            None => {
                lemma_set_path_get(Seq::empty(), rest, leaf);
                lemma_obj_set_get(entries, field, JsonView::Object(set_path(Seq::empty(), rest, leaf)->0));
            },
            Some(JsonView::Object(inner)) => {
                lemma_set_path_get(inner, rest, leaf);
                lemma_obj_set_get(entries, field, JsonView::Object(set_path(inner, rest, leaf)->0));
            },
            Some(_) => {},
        }
    }
}

/// Removing a key keeps every other key's value, and leaves no value under the key when
/// no key occurs twice.
pub proof fn lemma_map_remove_get(entries: Seq<(Seq<char>, JsonView)>, key: Seq<char>)
    ensures
        forall|other: Seq<char>|
            other != key ==> #[trigger] obj_get(map_remove(entries, key), other) == obj_get(entries, other),
        unique_keys(entries) ==> obj_get(map_remove(entries, key), key) is None,
{
    let n = entries.len() as int;
    let fk = key_at(entries, key);
    lemma_first_from(0, n, fk);
    let p = key_pos(entries, key);
    let e2 = map_remove(entries, key);
    if p < n {
        assert(e2 == entries.remove(p));
        assert forall|other: Seq<char>| other != key implies #[trigger] obj_get(e2, other) == obj_get(
            entries,
            other,
        ) by {
            let fo = key_at(entries, other);
            let go = key_at(e2, other);
            lemma_first_from(0, n, fo);
            let q = key_pos(entries, other);
            let q2 = if q < p {
                q
            } else {
                q - 1
            };
            assert(q != p);
            assert forall|k: int| 0 <= k < q2 implies !#[trigger] go(k) by {
                if k < p {
                    assert(e2[k] == entries[k]);
                    assert(!fo(k));
                } else {
                    assert(e2[k] == entries[k + 1]);
                    assert(!fo(k + 1));
                }
            }
            if q < n {
                if q < p {
                    assert(e2[q] == entries[q]);
                } else {
                    assert(e2[q - 1] == entries[q]);
                }
                assert(go(q2));
            }
            lemma_first_from_is(0, n - 1, go, q2);
        }
        if unique_keys(entries) {
            let gk = key_at(e2, key);
            assert forall|k: int| 0 <= k < n - 1 implies !#[trigger] gk(k) by {
                if k < p {
                    assert(e2[k] == entries[k]);
                    assert(entries[k].0 != entries[p].0);
                } else {
                    assert(e2[k] == entries[k + 1]);
                    assert(entries[p].0 != entries[k + 1].0);
                }
            }
            lemma_first_from_is(0, n - 1, gk, n - 1);
        }
    } else {
        assert(e2 == entries);
    }
}

/// No key occurs twice among the entries, as in any object `serde_json` builds.
pub open spec fn unique_keys(entries: Seq<(Seq<char>, JsonView)>) -> bool {
    forall|i: int, j: int| 0 <= i < j < entries.len() ==> #[trigger] entries[i].0 != #[trigger] entries[j].0
}

/// Whether every character of `s` is a decimal digit.
pub open spec fn all_digits(s: Seq<char>) -> bool {
    forall|i: int| 0 <= i < s.len() ==> '0' <= #[trigger] s[i] && s[i] <= '9'
}

/// The integer part of a JSON number: digits without a leading zero, at most 300 of
/// them.
pub open spec fn plain_integer(s: Seq<char>) -> bool {
    &&& 1 <= s.len() <= 300
    &&& all_digits(s)
    &&& (s.len() == 1 || s[0] != '0')
}

/// The value of a sequence of decimal digits.
pub open spec fn digits_value(s: Seq<char>) -> nat
    decreases s.len(),
{
    if s.len() == 0 {
        0
    } else {
        digits_value(s.drop_last()) * 10 + ((s.last() as int) - ('0' as int)) as nat
    }
}

/// The mantissa of a JSON number: an integer part of at most 300 digits, and an
/// optional fraction.
pub open spec fn plain_mantissa(m: Seq<char>) -> bool {
    let d = first_char_index(m, '.');
    if d < 0 {
        plain_integer(m)
    } else {
        &&& plain_integer(m.subrange(0, d))
        &&& d + 1 < m.len()
        &&& all_digits(m.subrange(d + 1, m.len() as int))
    }
}

/// The number of digits of the integer part of a mantissa.
pub open spec fn integer_digits(m: Seq<char>) -> int {
    let d = first_char_index(m, '.');
    if d < 0 {
        m.len() as int
    } else {
        d
    }
}

/// The exponent of a JSON number, after its `e` or `E`, for a mantissa with `int_digits`
/// integer digits: digits with an optional sign; a positive exponent keeps the number
/// below 10 to the 300th.
pub open spec fn plain_exponent(x: Seq<char>, int_digits: int) -> bool {
    if x.len() > 0 && x[0] == '-' {
        x.len() > 1 && all_digits(x.drop_first())
    } else {
        let digits = if x.len() > 0 && x[0] == '+' {
            x.drop_first()
        } else {
            x
        };
        &&& digits.len() > 0
        &&& all_digits(digits)
        &&& int_digits + digits_value(digits) <= 300
    }
}

/// Where the exponent marker of a number's text stands, or -1.
pub open spec fn exponent_index(body: Seq<char>) -> int {
    let e = first_char_index(body, 'e');
    let big = first_char_index(body, 'E');
    if e < 0 {
        big
    } else if big < 0 || e < big {
        e
    } else {
        big
    }
}

/// A JSON number whose value is within the range of the floats that `serde_json` reads
/// numbers into: its integer part has at most 300 digits, and a positive exponent keeps
/// it below 10 to the 300th (a negative one at most makes it round to zero).
pub open spec fn plain_number(t: Seq<char>) -> bool {
    let body = if t.len() > 0 && t[0] == '-' {
        t.drop_first()
    } else {
        t
    };
    let x = exponent_index(body);
    if x < 0 {
        plain_mantissa(body)
    } else {
        let m = body.subrange(0, x);
        &&& plain_mantissa(m)
        &&& plain_exponent(body.subrange(x + 1, body.len() as int), integer_digits(m))
    }
}

/// A value whose text `serde_json` reads back with the same shape: plain numbers, no
/// key twice in an object, and at most `depth` levels of arrays and objects.
pub open spec fn readable_within(j: JsonView, depth: nat) -> bool
    decreases depth,
{
    match j {
        JsonView::Number(t) => plain_number(t),
        JsonView::Array(items) => depth > 0 && forall|i: int|
            0 <= i < items.len() ==> readable_within(#[trigger] items[i], (depth - 1) as nat),
        JsonView::Object(entries) => depth > 0 && unique_keys(entries) && forall|i: int|
            0 <= i < entries.len() ==> readable_within(#[trigger] entries[i].1, (depth - 1) as nat),
        _ => true,
    }
}

/// A value whose text `serde_json` reads back with the same shape, nested within its
/// recursion limit (127 levels of arrays and objects; the 128th is refused).
pub open spec fn readable_json(j: JsonView) -> bool {
    readable_within(j, 127)
}

pub proof fn lemma_set_path_empty(path: Seq<char>, leaf: JsonView)
    ensures
        set_path(Seq::empty(), path, leaf) is Some,
    decreases path.len(),
{
    let d = first_char_index(path, '.');
    if d >= 0 {
        lemma_first_char_index(path, '.');
        let rest = path.subrange(d + 1, path.len() as int);
        lemma_set_path_empty(rest, leaf);
        lemma_first_from(0, 0, |k: int| Seq::<(Seq<char>, JsonView)>::empty()[k].0 == path.subrange(0, d));
    }
}

pub fn set_in(entries: Vec<(String, Json)>, path: Vec<char>, leaf: Json) -> (r: Result<
    Vec<(String, Json)>,
    Vec<(String, Json)>,
>)
    ensures
        match r {
            Ok(e) => set_path(entries_view(entries@), path@, leaf@) == Some(entries_view(e@)),
            Err(e) => set_path(entries_view(entries@), path@, leaf@) is None && entries_view(e@)
                == entries_view(entries@),
        },
    decreases path@.len(),
{
    let ghost ev = entries_view(entries@);
    match find_char(&path, '.') {
        None => {
            let key = string_of(path.as_slice());
            let mut e = entries;
            obj_insert(&mut e, key, leaf);
            Ok(e)
        },
        Some(d) => {
            proof { lemma_first_char_index(path@, '.'); }
            let field = slice_string(&path, 0, d);
            let rest = slice_chars(&path, d + 1, path.len());
            let p = key_position(&entries, field.as_str());
            let mut e = entries;
            if p == e.len() {
                proof { lemma_set_path_empty(rest@, leaf@); }
                let empty: Vec<(String, Json)> = Vec::new();
                proof { assert(entries_view(empty@) =~= Seq::empty()); }
                match set_in(empty, rest, leaf) {
                    Ok(inner) => {
                        let ghost iv = entries_view(inner@);
                        let new_member = Json::Object(inner);
                        proof {
                            lemma_view_parts(new_member);
                        }
                        obj_insert(&mut e, field, new_member);
                        Ok(e)
                    },
                    Err(_) => Err(e),
                }
            } else {
                proof { lemma_first_from(0, ev.len() as int, |k: int| ev[k].0 == field@); }
                let (k, v) = e.remove(p);
                let ghost removed = e@;
                match v {
                    Json::Object(inner) => {
                        let ghost old_inner = inner@;
                        proof { lemma_view_parts(Json::Object(inner)); }
                        match set_in(inner, rest, leaf) {
                            Ok(new_inner) => {
                                let member = Json::Object(new_inner);
                                proof { lemma_view_parts(member); }
                                e.insert(p, (k, member));
                                proof {
                                    assert(entries_view(e@) =~= ev.update(
                                        p as int,
                                        (field@, member@),
                                    ));
                                }
                                Ok(e)
                            },
                            Err(inner_back) => {
                                let member = Json::Object(inner_back);
                                proof { lemma_view_parts(member); }
                                e.insert(p, (k, member));
                                proof {
                                    assert(member@ == ev[p as int].1);
                                    assert(entries_view(e@) =~= ev);
                                }
                                Err(e)
                            },
                        }
                    },
                    other => {
                        e.insert(p, (k, other));
                        proof { assert(entries_view(e@) =~= ev); }
                        Err(e)
                    },
                }
            }
        },
    }
}

} // verus!
