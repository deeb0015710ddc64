//! JSON values, read from text and written to text with `serde_json`.

use crate::text::{chars_of, same_text};
use vstd::prelude::*;
use vstd::string::*;

verus! {

// ---------------------------------------------------------------------------
// The values
// ---------------------------------------------------------------------------

/// A JSON value. A number is an unsigned integer, a negative integer or, where it has a
/// fraction or an exponent, the decimal text of a double.
pub enum Json {
    Null,
    Bool(bool),
    Unsigned(u64),
    Negative(i64),
    Float(String),
    Text(String),
    Array(Vec<Json>),
    Object(Vec<(String, Json)>),
}

/// A JSON value as mathematics: texts are sequences of characters.
pub enum JsonView {
    Null,
    Bool(bool),
    Unsigned(u64),
    Negative(i64),
    Float(Seq<char>),
    Text(Seq<char>),
    Array(Seq<JsonView>),
    Object(Seq<(Seq<char>, JsonView)>),
}

/// The mathematics of a value.
pub open spec fn json_view(j: Json) -> JsonView
    decreases j,
{
    match j {
        Json::Null => JsonView::Null,
        Json::Bool(b) => JsonView::Bool(b),
        Json::Unsigned(n) => JsonView::Unsigned(n),
        Json::Negative(n) => JsonView::Negative(n),
        Json::Float(t) => JsonView::Float(t@),
        Json::Text(t) => JsonView::Text(t@),
        Json::Array(items) => JsonView::Array(
            Seq::new(
                items@.len(),
                |i: int|
                    if 0 <= i < items@.len() {
                        json_view(items@[i])
                    } else {
                        JsonView::Null
                    },
            ),
        ),
        Json::Object(entries) => JsonView::Object(
            Seq::new(
                entries@.len(),
                |i: int|
                    if 0 <= i < entries@.len() {
                        (entries@[i].0@, json_view(entries@[i].1))
                    } else {
                        (Seq::empty(), JsonView::Null)
                    },
            ),
        ),
    }
}

impl View for Json {
    type V = JsonView;

    open spec fn view(&self) -> JsonView {
        json_view(*self)
    }
}

/// The mathematics of a list of values.
pub open spec fn json_views(items: Seq<Json>) -> Seq<JsonView> {
    items.map_values(|j: Json| j@)
}

/// The mathematics of the entries of an object.
pub open spec fn entry_views(entries: Seq<(String, Json)>) -> Seq<(Seq<char>, JsonView)> {
    entries.map_values(|e: (String, Json)| (e.0@, e.1@))
}

/// An array's value is that of its items, an object's that of its entries.
pub proof fn lemma_view_parts(j: Json)
    ensures
        j matches Json::Array(items) ==> j@ == JsonView::Array(json_views(items@)),
        j matches Json::Object(entries) ==> j@ == JsonView::Object(entry_views(entries@)),
{
    match j {
        Json::Array(items) => {
            assert(j@->Array_0 =~= json_views(items@));
        },
        Json::Object(entries) => {
            assert(j@->Object_0 =~= entry_views(entries@));
        },
        _ => {},
    }
}

// ---------------------------------------------------------------------------
// Access
// ---------------------------------------------------------------------------

/// The value of the first entry under `key`.
pub open spec fn lookup(entries: Seq<(Seq<char>, JsonView)>, key: Seq<char>) -> Option<JsonView>
    decreases entries.len(),
{
    if entries.len() == 0 {
        None
    } else if entries[0].0 == key {
        Some(entries[0].1)
    } else {
        lookup(entries.drop_first(), key)
    }
}

/// The member `key` of a value; `Null` where the value is no object or has no such member.
pub open spec fn member(v: JsonView, key: Seq<char>) -> JsonView {
    match v {
        JsonView::Object(entries) => match lookup(entries, key) {
            Some(x) => x,
            None => JsonView::Null,
        },
        _ => JsonView::Null,
    }
}

/// The number, where the value is an unsigned integer.
pub open spec fn as_u64(v: JsonView) -> Option<u64> {
    match v {
        JsonView::Unsigned(n) => Some(n),
        _ => None,
    }
}

/// The number, where the value is an integer that a signed 64-bit integer holds.
pub open spec fn as_i64(v: JsonView) -> Option<i64> {
    match v {
        JsonView::Unsigned(n) => if n <= i64::MAX {
            Some(n as i64)
        } else {
            None
        },
        JsonView::Negative(n) => Some(n),
        _ => None,
    }
}

/// The decimal text of the number, where the value is a number.
pub open spec fn as_number(v: JsonView) -> Option<Seq<char>> {
    match v {
        JsonView::Unsigned(n) => Some(crate::text::dec(n as nat)),
        JsonView::Negative(n) => Some(crate::text::int_dec(n as int)),
        JsonView::Float(t) => Some(t),
        _ => None,
    }
}

/// The text, where the value is a text.
pub open spec fn as_str(v: JsonView) -> Option<Seq<char>> {
    match v {
        JsonView::Text(t) => Some(t),
        _ => None,
    }
}

/// The truth value, where the value is one.
pub open spec fn as_bool(v: JsonView) -> Option<bool> {
    match v {
        JsonView::Bool(b) => Some(b),
        _ => None,
    }
}

/// The items, where the value is an array.
pub open spec fn as_array(v: JsonView) -> Option<Seq<JsonView>> {
    match v {
        JsonView::Array(items) => Some(items),
        _ => None,
    }
}

/// The entries, where the value is an object.
pub open spec fn as_object(v: JsonView) -> Option<Seq<(Seq<char>, JsonView)>> {
    match v {
        JsonView::Object(entries) => Some(entries),
        _ => None,
    }
}

/// The text of an optional string.
pub open spec fn opt_text(s: Option<String>) -> Option<Seq<char>> {
    match s {
        Some(t) => Some(t@),
        None => None,
    }
}

/// The text of an optional string slice.
pub open spec fn opt_str(s: Option<&str>) -> Option<Seq<char>> {
    match s {
        Some(t) => Some(t@),
        None => None,
    }
}

proof fn lemma_lookup(entries: Seq<(Seq<char>, JsonView)>, key: Seq<char>)
    ensures
        match lookup(entries, key) {
            Some(x) => exists|i: int|
                0 <= i < entries.len() && #[trigger] entries[i] == (key, x) && forall|j: int|
                    0 <= j < i ==> (#[trigger] entries[j]).0 != key,
            None => forall|j: int| 0 <= j < entries.len() ==> (#[trigger] entries[j]).0 != key,
        },
    decreases entries.len(),
{
    if entries.len() > 0 {
        let rest = entries.drop_first();
        lemma_lookup(rest, key);
        if entries[0].0 == key {
            assert(entries[0] == (key, entries[0].1));
        } else {
            match lookup(rest, key) {
                Some(x) => {
                    let i = choose|i: int|
                        0 <= i < rest.len() && #[trigger] rest[i] == (key, x) && forall|j: int|
                            0 <= j < i ==> (#[trigger] rest[j]).0 != key;
                    assert(entries[i + 1] == (key, x));
                    assert forall|j: int| 0 <= j < i + 1 implies (#[trigger] entries[j]).0
                        != key by {
                        if j > 0 {
                            assert(rest[j - 1] == entries[j]);
                        }
                    }
                },
                None => {
                    assert forall|j: int| 0 <= j < entries.len() implies (#[trigger] entries[j]).0
                        != key by {
                        if j > 0 {
                            assert(rest[j - 1] == entries[j]);
                        }
                    }
                },
            }
        }
    }
}

/// An entry whose key no earlier entry has is found under its key.
pub proof fn lemma_lookup_at(entries: Seq<(Seq<char>, JsonView)>, i: int)
    requires
        0 <= i < entries.len(),
        forall|j: int| 0 <= j < i ==> (#[trigger] entries[j]).0 != entries[i].0,
    ensures
        lookup(entries, entries[i].0) == Some(entries[i].1),
{
    lemma_lookup(entries, entries[i].0);
    let key = entries[i].0;
    match lookup(entries, key) {
        Some(x) => {
            let k = choose|k: int|
                0 <= k < entries.len() && #[trigger] entries[k] == (key, x) && forall|j: int|
                    0 <= j < k ==> (#[trigger] entries[j]).0 != key;
            if k < i {
                assert(entries[k].0 != key);
            }
            if i < k {
                assert(entries[i].0 != key);
            }
        },
        None => {
            assert(entries[i].0 != key);
        },
    }
}

/// The member under a key is the value of the first entry with that key, and `Null` where the
/// value has no such entry.
pub proof fn law_member(v: JsonView, key: Seq<char>)
    ensures
        match v {
            JsonView::Object(entries) => (exists|i: int|
                0 <= i < entries.len() && #[trigger] entries[i] == (key, member(v, key))
                    && forall|j: int| 0 <= j < i ==> (#[trigger] entries[j]).0 != key) || (member(
                v,
                key,
            ) == JsonView::Null && forall|j: int|
                0 <= j < entries.len() ==> (#[trigger] entries[j]).0 != key),
            _ => member(v, key) == JsonView::Null,
        },
{
    if let JsonView::Object(entries) = v {
        lemma_lookup(entries, key);
    }
}

/// A value is read as what it is and as nothing else: an unsigned integer as that number, also
/// where a signed one or a decimal is asked for, as far as it fits; a negative one never as
/// unsigned.
pub proof fn law_kinds_of_values(v: JsonView, n: u64, i: i64)
    ensures
        as_u64(v) == Some(n) <==> v == JsonView::Unsigned(n),
        as_u64(v) == Some(n) ==> as_number(v) == Some(crate::text::dec(n as nat)),
        as_i64(v) == Some(i) <==> v == JsonView::Negative(i) || (i >= 0 && v == JsonView::Unsigned(
            i as u64,
        )),
        as_i64(v) == Some(i) ==> as_number(v) == Some(crate::text::int_dec(i as int)),
        as_number(v) is Some <==> v is Unsigned || v is Negative || v is Float,
        as_str(v) is Some ==> v == JsonView::Text(as_str(v)->0),
        as_bool(v) is Some ==> v == JsonView::Bool(as_bool(v)->0),
        as_array(v) is Some ==> v == JsonView::Array(as_array(v)->0),
        as_object(v) is Some ==> v == JsonView::Object(as_object(v)->0),
        v is Text ==> as_str(v) is Some,
        v is Bool ==> as_bool(v) is Some,
        v is Array ==> as_array(v) is Some,
        v is Object ==> as_object(v) is Some,
        v matches JsonView::Float(t) ==> as_number(v) == Some(t),
{
    if v is Unsigned && v->Unsigned_0 <= i64::MAX {
        assert((v->Unsigned_0 as i64) as u64 == v->Unsigned_0);
    }
    if i >= 0 {
        assert((i as u64) as i64 == i);
    }
}

impl Json {
    /// The member `key`, where this is an object that has one.
    pub fn get(&self, key: &str) -> (res: Option<&Json>)
        ensures
            res matches Some(j) ==> j@ == member(self@, key@),
            res is None ==> member(self@, key@) == JsonView::Null,
    {
        proof {
            lemma_view_parts(*self);
        }
        match self {
            Json::Object(entries) => {
                let ghost all = entry_views(entries@);
                assert(all.skip(0) =~= all);
                for i in 0..entries.len()
                    invariant
                        *self == Json::Object(*entries),
                        self@ == JsonView::Object(all),
                        all == entry_views(entries@),
                        lookup(all, key@) == lookup(all.skip(i as int), key@),
                {
                    assert(all.skip(i as int)[0] == (entries@[i as int].0@, entries@[i as int].1@));
                    assert(all.skip(i as int).drop_first() =~= all.skip(i + 1));
                    if same_text(entries[i].0.as_str(), key) {
                        return Some(&entries[i].1);
                    }
                }
                None
            },
            _ => None,
        }
    }

    /// The number, where this is an unsigned integer.
    pub fn as_u64(&self) -> (res: Option<u64>)
        ensures
            res == as_u64(self@),
    {
        match self {
            Json::Unsigned(n) => Some(*n),
            _ => None,
        }
    }

    /// The number, where this is an integer that a signed 64-bit integer holds.
    pub fn as_i64(&self) -> (res: Option<i64>)
        ensures
            res == as_i64(self@),
    {
        match self {
            Json::Unsigned(n) => if *n <= i64::MAX as u64 {
                Some(*n as i64)
            } else {
                None
            },
            Json::Negative(n) => Some(*n),
            _ => None,
        }
    }

    /// The decimal text of the number, where this is a number.
    pub fn as_number(&self) -> (res: Option<String>)
        ensures
            opt_text(res) == as_number(self@),
    {
        match self {
            Json::Unsigned(n) => Some(crate::text::dec_text(*n)),
            Json::Negative(n) => Some(crate::text::int_text(*n)),
            Json::Float(t) => Some(t.clone()),
            _ => None,
        }
    }

    /// The text, where this is a text.
    pub fn as_str(&self) -> (res: Option<&str>)
        ensures
            opt_str(res) == as_str(self@),
    {
        match self {
            Json::Text(t) => Some(t.as_str()),
            _ => None,
        }
    }

    /// The truth value, where this is one.
    pub fn as_bool(&self) -> (res: Option<bool>)
        ensures
            res == as_bool(self@),
    {
        match self {
            Json::Bool(b) => Some(*b),
            _ => None,
        }
    }

    /// The items, where this is an array.
    pub fn as_array(&self) -> (res: Option<&Vec<Json>>)
        ensures
            res matches Some(items) ==> as_array(self@) == Some(json_views(items@)),
            res is None ==> as_array(self@) is None,
    {
        proof {
            lemma_view_parts(*self);
        }
        match self {
            Json::Array(items) => Some(items),
            _ => None,
        }
    }

    /// The entries, where this is an object.
    pub fn as_object(&self) -> (res: Option<&Vec<(String, Json)>>)
        ensures
            res matches Some(entries) ==> as_object(self@) == Some(entry_views(entries@)),
            res is None ==> as_object(self@) is None,
    {
        proof {
            lemma_view_parts(*self);
        }
        match self {
            Json::Object(entries) => Some(entries),
            _ => None,
        }
    }

    /// The member `key` as an unsigned integer.
    pub fn get_u64(&self, key: &str) -> (res: Option<u64>)
        ensures
            res == as_u64(member(self@, key@)),
    {
        match self.get(key) {
            Some(j) => j.as_u64(),
            None => None,
        }
    }

    /// The member `key` as the decimal text of a number.
    pub fn get_number(&self, key: &str) -> (res: Option<String>)
        ensures
            opt_text(res) == as_number(member(self@, key@)),
    {
        match self.get(key) {
            Some(j) => j.as_number(),
            None => None,
        }
    }

    /// The member `key` as a text.
    pub fn get_str(&self, key: &str) -> (res: Option<&str>)
        ensures
            opt_str(res) == as_str(member(self@, key@)),
    {
        match self.get(key) {
            Some(j) => j.as_str(),
            None => None,
        }
    }

    /// The member `key` as the items of an array.
    pub fn get_array(&self, key: &str) -> (res: Option<&Vec<Json>>)
        ensures
            res matches Some(items) ==> as_array(member(self@, key@)) == Some(json_views(items@)),
            res is None ==> as_array(member(self@, key@)) is None,
    {
        match self.get(key) {
            Some(j) => j.as_array(),
            None => None,
        }
    }

    /// The member `key` as the entries of an object.
    pub fn get_object(&self, key: &str) -> (res: Option<&Vec<(String, Json)>>)
        ensures
            res matches Some(entries) ==> as_object(member(self@, key@)) == Some(
                entry_views(entries@),
            ),
            res is None ==> as_object(member(self@, key@)) is None,
    {
        match self.get(key) {
            Some(j) => j.as_object(),
            None => None,
        }
    }

    /// A value equal to this one.
    pub fn copy(&self) -> (res: Json)
        ensures
            res@ == self@,
        decreases *self,
    {
        proof {
            lemma_view_parts(*self);
        }
        match self {
            Json::Null => Json::Null,
            Json::Bool(b) => Json::Bool(*b),
            Json::Unsigned(n) => Json::Unsigned(*n),
            Json::Negative(n) => Json::Negative(*n),
            Json::Float(t) => Json::Float(t.clone()),
            Json::Text(t) => Json::Text(t.clone()),
            Json::Array(items) => {
                let mut out: Vec<Json> = Vec::new();
                for i in 0..items.len()
                    invariant
                        *self == Json::Array(*items),
                        json_views(out@) == json_views(items@.take(i as int)),
                {
                    let ghost before = json_views(out@);
                    assert(decreases_to!(*self => (*self)->Array_0));
                    assert(decreases_to!((*self)->Array_0 => (*self)->Array_0@));
                    assert(decreases_to!((*self)->Array_0@ => (*self)->Array_0@[i as int]));
                    out.push(items[i].copy());
                    assert(json_views(out@) =~= before.push(items@[i as int]@));
                    assert(json_views(items@.take(i + 1)) =~= before.push(items@[i as int]@));
                }
                assert(items@.take(items@.len() as int) =~= items@);
                let res = Json::Array(out);
                proof {
                    lemma_view_parts(res);
                }
                res
            },
            Json::Object(entries) => {
                let mut out: Vec<(String, Json)> = Vec::new();
                for i in 0..entries.len()
                    invariant
                        *self == Json::Object(*entries),
                        entry_views(out@) == entry_views(entries@.take(i as int)),
                {
                    let ghost before = entry_views(out@);
                    let ghost e = entries@[i as int];
                    assert(decreases_to!(*self => (*self)->Object_0));
                    assert(decreases_to!((*self)->Object_0 => (*self)->Object_0@));
                    assert(decreases_to!((*self)->Object_0@ => (*self)->Object_0@[i as int]));
                    assert(decreases_to!(e => e.1));
                    out.push((entries[i].0.clone(), entries[i].1.copy()));
                    assert(entry_views(out@) =~= before.push((e.0@, e.1@)));
                    assert(entry_views(entries@.take(i + 1)) =~= before.push((e.0@, e.1@)));
                }
                assert(entries@.take(entries@.len() as int) =~= entries@);
                let res = Json::Object(out);
                proof {
                    lemma_view_parts(res);
                }
                res
            },
        }
    }
}

// ---------------------------------------------------------------------------
// Objects in the order of their keys
// ---------------------------------------------------------------------------

/// `a` comes before `b` in the order of texts.
pub open spec fn text_before(a: Seq<char>, b: Seq<char>) -> bool
    decreases a.len(),
{
    if b.len() == 0 {
        false
    } else if a.len() == 0 {
        true
    } else if a[0] != b[0] {
        a[0] < b[0]
    } else {
        text_before(a.drop_first(), b.drop_first())
    }
}

/// The keys come in ascending order, none of them twice.
pub open spec fn keys_ascend(entries: Seq<(Seq<char>, JsonView)>) -> bool {
    forall|i: int, j: int|
        0 <= i < j < entries.len() ==> text_before((#[trigger] entries[i]).0, (
        #[trigger] entries[j]).0)
}

/// The keys of every object in the value come in ascending order, none of them twice.
pub open spec fn ordered(v: JsonView) -> bool
    decreases v,
{
    match v {
        JsonView::Array(items) => forall|i: int|
            0 <= i < items.len() ==> ordered(#[trigger] items[i]),
        JsonView::Object(entries) => keys_ascend(entries) && (forall|i: int|
            0 <= i < entries.len() ==> ordered((#[trigger] entries[i]).1)),
        _ => true,
    }
}

/// The entries with `value` put under `key`: in place of the entry under that key, or before
/// the first entry with a greater key.
pub open spec fn put(
    entries: Seq<(Seq<char>, JsonView)>,
    key: Seq<char>,
    value: JsonView,
) -> Seq<(Seq<char>, JsonView)>
    decreases entries.len(),
{
    if entries.len() == 0 {
        seq![(key, value)]
    } else if entries[0].0 == key {
        seq![(key, value)] + entries.drop_first()
    } else if text_before(key, entries[0].0) {
        seq![(key, value)] + entries
    } else {
        seq![entries[0]] + put(entries.drop_first(), key, value)
    }
}

/// The order of texts is irreflexive and total.
proof fn lemma_text_total(a: Seq<char>, b: Seq<char>)
    ensures
        !text_before(a, a),
        a != b ==> text_before(a, b) || text_before(b, a),
    decreases a.len(),
{
    if a.len() > 0 {
        lemma_text_total(a.drop_first(), a.drop_first());
        if b.len() > 0 && a[0] == b[0] {
            lemma_text_total(a.drop_first(), b.drop_first());
            if a.drop_first() == b.drop_first() {
                assert(a =~= seq![a[0]] + a.drop_first());
                assert(b =~= seq![b[0]] + b.drop_first());
            }
        }
    } else if b.len() == 0 {
        assert(a =~= b);
    }
}

/// The order of texts is transitive.
proof fn lemma_text_transitive(a: Seq<char>, b: Seq<char>, c: Seq<char>)
    requires
        text_before(a, b),
        text_before(b, c),
    ensures
        text_before(a, c),
    decreases a.len(),
{
    if a.len() > 0 && a[0] == b[0] && b[0] == c[0] {
        lemma_text_transitive(a.drop_first(), b.drop_first(), c.drop_first());
    }
}

/// After a value was put under a key, that key holds it and every other key holds what it held.
pub proof fn lemma_put_lookup(
    entries: Seq<(Seq<char>, JsonView)>,
    key: Seq<char>,
    value: JsonView,
    k: Seq<char>,
)
    ensures
        lookup(put(entries, key, value), k) == (if k == key {
            Some(value)
        } else {
            lookup(entries, k)
        }),
    decreases entries.len(),
{
    let after = put(entries, key, value);
    if entries.len() == 0 {
        assert(after.drop_first() =~= Seq::empty());
    } else if entries[0].0 == key {
        assert(after.drop_first() =~= entries.drop_first());
    } else if text_before(key, entries[0].0) {
        assert(after.drop_first() =~= entries);
    } else {
        assert(after.drop_first() =~= put(entries.drop_first(), key, value));
        lemma_put_lookup(entries.drop_first(), key, value, k);
    }
}

/// Every entry after `put` is the new one or was there before.
proof fn lemma_put_members(
    entries: Seq<(Seq<char>, JsonView)>,
    key: Seq<char>,
    value: JsonView,
    i: int,
)
    requires
        0 <= i < put(entries, key, value).len(),
    ensures
        put(entries, key, value)[i] == (key, value) || entries.contains(
            put(entries, key, value)[i],
        ),
    decreases entries.len(),
{
    let after = put(entries, key, value);
    if entries.len() == 0 {
    } else if entries[0].0 == key {
        if i > 0 {
            assert(after[i] == entries[i]);
        }
    } else if text_before(key, entries[0].0) {
        if i > 0 {
            assert(after[i] == entries[i - 1]);
        }
    } else {
        if i > 0 {
            let rest = entries.drop_first();
            lemma_put_members(rest, key, value, i - 1);
            assert(after[i] == put(rest, key, value)[i - 1]);
            if rest.contains(after[i]) {
                let j = choose|j: int| 0 <= j < rest.len() && rest[j] == after[i];
                assert(entries[j + 1] == after[i]);
            }
        } else {
            assert(after[0] == entries[0]);
        }
    }
}

/// Putting a value under a key keeps the keys in ascending order.
pub proof fn lemma_put_ascends(
    entries: Seq<(Seq<char>, JsonView)>,
    key: Seq<char>,
    value: JsonView,
)
    requires
        keys_ascend(entries),
    ensures
        keys_ascend(put(entries, key, value)),
    decreases entries.len(),
{
    let after = put(entries, key, value);
    if entries.len() > 0 {
        let first = entries[0].0;
        lemma_text_total(first, key);
        if first == key {
            assert forall|i: int, j: int| 0 <= i < j < after.len() implies text_before(
                (#[trigger] after[i]).0,
                (#[trigger] after[j]).0,
            ) by {
                assert(after[i].0 == entries[i].0 && after[j].0 == entries[j].0);
            }
        } else if text_before(key, first) {
            assert forall|i: int, j: int| 0 <= i < j < after.len() implies text_before(
                (#[trigger] after[i]).0,
                (#[trigger] after[j]).0,
            ) by {
                assert(after[j] == entries[j - 1]);
                if i > 0 {
                    assert(after[i] == entries[i - 1]);
                } else if j > 1 {
                    assert(text_before(entries[0].0, entries[j - 1].0));
                    lemma_text_transitive(key, first, after[j].0);
                }
            }
        } else {
            let rest = entries.drop_first();
            assert forall|i: int, j: int| 0 <= i < j < rest.len() implies text_before(
                (#[trigger] rest[i]).0,
                (#[trigger] rest[j]).0,
            ) by {
                assert(rest[i] == entries[i + 1] && rest[j] == entries[j + 1]);
            }
            lemma_put_ascends(rest, key, value);
            let tail = put(rest, key, value);
            assert forall|i: int, j: int| 0 <= i < j < after.len() implies text_before(
                (#[trigger] after[i]).0,
                (#[trigger] after[j]).0,
            ) by {
                assert(after[j] == tail[j - 1]);
                if i > 0 {
                    assert(after[i] == tail[i - 1]);
                } else {
                    lemma_put_members(rest, key, value, j - 1);
                    if after[j] != (key, value) {
                        let m = choose|m: int| 0 <= m < rest.len() && rest[m] == after[j];
                        assert(entries[m + 1] == after[j]);
                        assert(entries[0].0 == after[0].0);
                    }
                }
            }
        }
    }
}

/// Putting an ordered value under a key keeps an object ordered.
pub proof fn lemma_put_ordered(
    entries: Seq<(Seq<char>, JsonView)>,
    key: Seq<char>,
    value: JsonView,
)
    requires
        ordered(JsonView::Object(entries)),
        ordered(value),
    ensures
        ordered(JsonView::Object(put(entries, key, value))),
{
    reveal_with_fuel(ordered, 2);
    let before = JsonView::Object(entries);
    let after = put(entries, key, value);
    assert(before->Object_0 == entries);
    lemma_put_ascends(entries, key, value);
    assert forall|i: int| 0 <= i < after.len() implies ordered((#[trigger] after[i]).1) by {
        lemma_put_members(entries, key, value, i);
        if after[i] != (key, value) {
            let m = choose|m: int| 0 <= m < entries.len() && entries[m] == after[i];
            assert(ordered(before->Object_0[m].1));
        }
    }
}

/// Whether `a` comes before `b` in the order of texts.
fn precedes(a: &str, b: &str) -> (res: bool)
    ensures
        res == text_before(a@, b@),
{
    let x = chars_of(a);
    let y = chars_of(b);
    let mut i: usize = 0;
    assert(x@.skip(0) =~= x@);
    assert(y@.skip(0) =~= y@);
    while i < x.len() && i < y.len() && x[i] == y[i]
        invariant
            i <= x@.len(),
            i <= y@.len(),
            text_before(x@, y@) == text_before(x@.skip(i as int), y@.skip(i as int)),
        decreases x@.len() - i,
    {
        assert(x@.skip(i as int).drop_first() =~= x@.skip(i + 1));
        assert(y@.skip(i as int).drop_first() =~= y@.skip(i + 1));
        i += 1;
    }
    if i == y.len() {
        false
    } else if i == x.len() {
        true
    } else {
        x[i] < y[i]
    }
}

/// Puts `value` under `key`.
pub fn put_entry(entries: &mut Vec<(String, Json)>, key: &str, value: Json)
    ensures
        entry_views(final(entries)@) == put(entry_views(old(entries)@), key@, value@),
{
    let ghost all = entry_views(entries@);
    let ghost v = value@;
    let mut i: usize = 0;
    assert(all.skip(0) =~= all);
    assert(all.take(0) + put(all.skip(0), key@, v) =~= put(all, key@, v));
    while i < entries.len() && !same_text(entries[i].0.as_str(), key) && !precedes(
        key,
        entries[i].0.as_str(),
    )
        invariant
            i <= entries@.len(),
            all == entry_views(entries@),
            put(all, key@, v) == all.take(i as int) + put(all.skip(i as int), key@, v),
        decreases entries@.len() - i,
    {
        let ghost here = all.skip(i as int);
        assert(here[0] == all[i as int]);
        assert(all[i as int].0 == entries@[i as int].0@);
        assert(here.drop_first() =~= all.skip(i + 1));
        assert(all.take(i + 1) =~= all.take(i as int) + seq![all[i as int]]);
        assert(all.take(i as int) + put(here, key@, v) =~= all.take(i + 1) + put(
            all.skip(i + 1),
            key@,
            v,
        ));
        i += 1;
    }
    let ghost here = all.skip(i as int);
    if i < entries.len() && same_text(entries[i].0.as_str(), key) {
        assert(here[0].0 == entries@[i as int].0@);
        entries.set(i, (key.to_owned(), value));
        assert(entry_views(entries@) =~= all.take(i as int) + put(here, key@, v));
    } else {
        proof {
            if i < entries@.len() {
                assert(here[0].0 == entries@[i as int].0@);
            } else {
                assert(here =~= Seq::empty());
            }
        }
        entries.insert(i, (key.to_owned(), value));
        assert(entry_views(entries@) =~= all.take(i as int) + put(here, key@, v));
    }
}

// ---------------------------------------------------------------------------
// Reading and writing text
// ---------------------------------------------------------------------------

/// The error of `serde_json`, carried through as it is.
#[verifier::external_type_specification]
#[verifier::external_body]
pub struct ExJsonError(serde_json::Error);

/// A value of `serde_json`.
#[verifier::external_type_specification]
#[verifier::external_body]
pub struct ExJsonValue(serde_json::Value);

/// What a value of `serde_json` holds, the entries of each object in the order of the map.
pub uninterp spec fn json_content(value: serde_json::Value) -> JsonView;

/// What `serde_json::from_str` reads from a text; `None` where it reports an error.
pub uninterp spec fn json_read(text: Seq<char>) -> Option<JsonView>;

/// What `serde_json::Number` reads from a text, as a value; `Null` where it reports an error.
pub uninterp spec fn json_number(text: Seq<char>) -> JsonView;

/// The compact text that `serde_json` writes for a value.
pub uninterp spec fn json_text(v: JsonView) -> Seq<char>;

/// One level of a value of `serde_json`.
pub(crate) enum Node {
    Null,
    Bool(bool),
    Unsigned(u64),
    Negative(i64),
    Float(String),
    Text(String),
    Array(Vec<serde_json::Value>),
    Object(Vec<(String, serde_json::Value)>),
}

/// What the values of a list hold.
pub open spec fn contents(items: Seq<serde_json::Value>) -> Seq<JsonView> {
    items.map_values(|v: serde_json::Value| json_content(v))
}

/// What the entries of a map hold.
pub open spec fn entry_contents(entries: Seq<(String, serde_json::Value)>) -> Seq<
    (Seq<char>, JsonView),
> {
    entries.map_values(|e: (String, serde_json::Value)| (e.0@, json_content(e.1)))
}

/// What one level holds.
pub(crate) open spec fn node_content(node: Node) -> JsonView {
    match node {
        Node::Null => JsonView::Null,
        Node::Bool(b) => JsonView::Bool(b),
        Node::Unsigned(n) => JsonView::Unsigned(n),
        Node::Negative(n) => JsonView::Negative(n),
        Node::Float(t) => JsonView::Float(t@),
        Node::Text(t) => JsonView::Text(t@),
        Node::Array(items) => JsonView::Array(contents(items@)),
        Node::Object(entries) => JsonView::Object(entry_contents(entries@)),
    }
}

/// The value with each decimal text of a double replaced by what `serde_json` reads from it.
pub open spec fn rendered(v: JsonView) -> JsonView
    decreases v,
{
    match v {
        JsonView::Negative(n) => if n < 0 {
            v
        } else {
            JsonView::Unsigned(n as u64)
        },
        JsonView::Float(t) => json_number(t),
        JsonView::Array(items) => JsonView::Array(
            Seq::new(
                items.len(),
                |i: int|
                    if 0 <= i < items.len() {
                        rendered(items[i])
                    } else {
                        JsonView::Null
                    },
            ),
        ),
        JsonView::Object(entries) => JsonView::Object(
            Seq::new(
                entries.len(),
                |i: int|
                    if 0 <= i < entries.len() {
                        (entries[i].0, rendered(entries[i].1))
                    } else {
                        (Seq::empty(), JsonView::Null)
                    },
            ),
        ),
        _ => v,
    }
}

/// Calls `serde_json::from_str`. Its result depends on the text alone: it is the value that
/// `json_read` names, or an error where `json_read` names none.
#[verifier::external_body]
fn value_from_str(text: &str) -> (res: Result<serde_json::Value, serde_json::Error>)
    ensures
        res matches Ok(v) ==> json_read(text@) == Some(json_content(v)),
        res is Err ==> json_read(text@) is None,
{
    serde_json::from_str(text)
}

/// Takes a value of `serde_json` apart, one level deep, variant by variant. A number is an
/// unsigned integer, else a signed one, else a double, which is handed out as the text that
/// `serde_json` writes for it and reads back as the same double. The map of an object hands
/// its entries out in ascending order of the keys.
#[verifier::external_body]
fn open_value(value: serde_json::Value) -> (res: Node)
    ensures
        node_content(res) == json_content(value),
        res matches Node::Negative(n) ==> n < 0,
        res matches Node::Float(t) ==> json_number(t@) == JsonView::Float(t@),
        res matches Node::Object(entries) ==> keys_ascend(entry_contents(entries@)),
{
    match value {
        serde_json::Value::Null => Node::Null,
        serde_json::Value::Bool(b) => Node::Bool(b),
        serde_json::Value::Number(n) => match (n.as_u64(), n.as_i64()) {
            (Some(u), _) => Node::Unsigned(u),
            (_, Some(i)) => Node::Negative(i),
            _ => Node::Float(n.to_string()),
        },
        serde_json::Value::String(t) => Node::Text(t),
        serde_json::Value::Array(items) => Node::Array(items),
        serde_json::Value::Object(map) => Node::Object(map.into_iter().collect()),
    }
}

/// Puts a value of `serde_json` together from one level, variant by variant. The decimal text
/// of a double is read by `serde_json::Number`. An object is stated where its keys ascend:
/// the map keeps its entries in that order.
#[verifier::external_body]
fn close_value(node: Node) -> (res: serde_json::Value)
    requires
        node matches Node::Negative(n) ==> n < 0,
    ensures
        node matches Node::Float(t) ==> json_content(res) == json_number(t@),
        node matches Node::Object(entries) ==> keys_ascend(entry_contents(entries@))
            ==> json_content(res) == node_content(node),
        !(node is Float) && !(node is Object) ==> json_content(res) == node_content(node),
{
    match node {
        Node::Null => serde_json::Value::Null,
        Node::Bool(b) => serde_json::Value::Bool(b),
        Node::Unsigned(n) => serde_json::Value::from(n),
        Node::Negative(n) => serde_json::Value::from(n),
        Node::Float(t) => t.parse().map_or(serde_json::Value::Null, serde_json::Value::Number),
        Node::Text(t) => serde_json::Value::String(t),
        Node::Array(items) => serde_json::Value::Array(items),
        Node::Object(entries) => serde_json::Value::Object(entries.into_iter().collect()),
    }
}

/// Writes a value of `serde_json` with its `Display`: the compact text, which depends on what
/// the value holds alone. Integers are written as decimal numerals and truth values as words.
#[verifier::external_body]
fn value_text(value: &serde_json::Value) -> (res: String)
    ensures
        res@ == json_text(json_content(*value)),
        json_content(*value) matches JsonView::Unsigned(n) ==> res@ == crate::text::dec(n as nat),
        json_content(*value) matches JsonView::Negative(n) ==> res@ == crate::text::int_dec(
            n as int,
        ),
        json_content(*value) == JsonView::Null ==> res@ == "null"@,
        json_content(*value) == JsonView::Bool(true) ==> res@ == "true"@,
        json_content(*value) == JsonView::Bool(false) ==> res@ == "false"@,
{
    value.to_string()
}

/// Every double in the value has the text that `serde_json` gives it, every negative integer
/// is negative, and the keys of its objects ascend: what a value read from text is like.
pub open spec fn canonical(v: JsonView) -> bool
    decreases v,
{
    match v {
        JsonView::Negative(n) => n < 0,
        JsonView::Float(t) => json_number(t) == v,
        JsonView::Array(items) => forall|i: int|
            0 <= i < items.len() ==> canonical(#[trigger] items[i]),
        JsonView::Object(entries) => keys_ascend(entries) && (forall|i: int|
            0 <= i < entries.len() ==> canonical((#[trigger] entries[i]).1)),
        _ => true,
    }
}

/// A canonical value is ordered and is rendered as itself.
pub proof fn lemma_canonical(v: JsonView)
    requires
        canonical(v),
    ensures
        ordered(v),
        rendered(v) == v,
    decreases v,
{
    match v {
        JsonView::Array(items) => {
            assert forall|i: int| 0 <= i < items.len() implies ordered(#[trigger] items[i])
                && rendered(items[i]) == items[i] by {
                lemma_canonical(items[i]);
            }
            assert(rendered(v)->Array_0 =~= items);
        },
        JsonView::Object(entries) => {
            assert forall|i: int| 0 <= i < entries.len() implies ordered(
                (#[trigger] entries[i]).1,
            ) && rendered(entries[i].1) == entries[i].1 by {
                lemma_canonical(entries[i].1);
            }
            assert(rendered(v)->Object_0 =~= entries);
        },
        _ => {},
    }
}

/// The library's value for a value of `serde_json`.
fn json_of(value: serde_json::Value) -> (res: Json)
    ensures
        res@ == json_content(value),
        canonical(res@),
    decreases json_content(value),
{
    match open_value(value) {
        Node::Null => Json::Null,
        Node::Bool(b) => Json::Bool(b),
        Node::Unsigned(n) => Json::Unsigned(n),
        Node::Negative(n) => Json::Negative(n),
        Node::Float(t) => Json::Float(t),
        Node::Text(t) => Json::Text(t),
        Node::Array(items) => {
            let ghost all = contents(items@);
            let ghost v = json_content(value);
            let mut out: Vec<Json> = Vec::new();
            for item in it: items
                invariant
                    v == JsonView::Array(all),
                    v == json_content(value),
                    all == contents(it.seq()),
                    out@.len() == it.index(),
                    forall|i: int|
                        0 <= i < out@.len() ==> (#[trigger] out@[i])@ == all[i] && canonical(
                            out@[i]@,
                        ),
            {
                let ghost k = it.index() as int;
                assert(json_content(item) == all[k]);
                assert(decreases_to!(v => v->Array_0));
                assert(decreases_to!(v->Array_0 => v->Array_0[k]));
                out.push(json_of(item));
            }
            let res = Json::Array(out);
            proof {
                lemma_view_parts(res);
                assert(json_views(out@) =~= all);
                assert forall|i: int| 0 <= i < all.len() implies canonical(#[trigger] all[i]) by {
                    assert(out@[i]@ == all[i]);
                }
            }
            res
        },
        Node::Object(entries) => {
            let ghost all = entry_contents(entries@);
            let ghost v = json_content(value);
            let mut out: Vec<(String, Json)> = Vec::new();
            for entry in it: entries
                invariant
                    v == JsonView::Object(all),
                    v == json_content(value),
                    all == entry_contents(it.seq()),
                    out@.len() == it.index(),
                    forall|i: int|
                        0 <= i < out@.len() ==> ((#[trigger] out@[i]).0@, out@[i].1@) == all[i]
                            && canonical(out@[i].1@),
            {
                let ghost k = it.index() as int;
                assert((entry.0@, json_content(entry.1)) == all[k]);
                assert(decreases_to!(v => v->Object_0));
                assert(decreases_to!(v->Object_0 => v->Object_0[k]));
                assert(decreases_to!(v->Object_0[k] => v->Object_0[k].1));
                out.push((entry.0, json_of(entry.1)));
            }
            let res = Json::Object(out);
            proof {
                lemma_view_parts(res);
                assert(entry_views(out@) =~= all);
                assert forall|i: int| 0 <= i < all.len() implies canonical(
                    (#[trigger] all[i]).1,
                ) by {
                    assert(out@[i].1@ == all[i].1);
                }
            }
            res
        },
    }
}

proof fn lemma_ordered_item(items: Seq<JsonView>, i: int)
    requires
        ordered(JsonView::Array(items)),
        0 <= i < items.len(),
    ensures
        ordered(items[i]),
{
    reveal_with_fuel(ordered, 2);
    assert(JsonView::Array(items)->Array_0[i] == items[i]);
}

/// The value of `serde_json` for a value of the library.
fn value_of(j: &Json) -> (res: serde_json::Value)
    ensures
        ordered(j@) ==> json_content(res) == rendered(j@),
    decreases *j,
{
    proof {
        lemma_view_parts(*j);
    }
    match j {
        Json::Null => close_value(Node::Null),
        Json::Bool(b) => close_value(Node::Bool(*b)),
        Json::Unsigned(n) => close_value(Node::Unsigned(*n)),
        Json::Negative(n) => if *n < 0 {
            close_value(Node::Negative(*n))
        } else {
            close_value(Node::Unsigned(*n as u64))
        },
        Json::Float(t) => close_value(Node::Float(t.clone())),
        Json::Text(t) => close_value(Node::Text(t.clone())),
        Json::Array(items) => {
            let mut out: Vec<serde_json::Value> = Vec::new();
            for i in 0..items.len()
                invariant
                    *j == Json::Array(*items),
                    j@ == JsonView::Array(json_views(items@)),
                    out@.len() == i,
                    ordered(j@) ==> forall|k: int|
                        0 <= k < i ==> json_content(#[trigger] out@[k]) == rendered(items@[k]@),
            {
                assert(decreases_to!(*j => (*j)->Array_0));
                assert(decreases_to!((*j)->Array_0 => (*j)->Array_0@));
                assert(decreases_to!((*j)->Array_0@ => (*j)->Array_0@[i as int]));
                proof {
                    let all = json_views(items@);
                    assert(all.len() == items@.len());
                    assert(all[i as int] == items@[i as int]@);
                    if ordered(j@) {
                        lemma_ordered_item(all, i as int);
                    }
                }
                out.push(value_of(&items[i]));
            }
            proof {
                if ordered(j@) {
                    assert(contents(out@) =~= rendered(j@)->Array_0);
                }
            }
            close_value(Node::Array(out))
        },
        Json::Object(entries) => {
            let mut out: Vec<(String, serde_json::Value)> = Vec::new();
            for i in 0..entries.len()
                invariant
                    *j == Json::Object(*entries),
                    j@ == JsonView::Object(entry_views(entries@)),
                    out@.len() == i,
                    forall|k: int| 0 <= k < i ==> (#[trigger] out@[k]).0@ == entries@[k].0@,
                    ordered(j@) ==> forall|k: int|
                        0 <= k < i ==> json_content((#[trigger] out@[k]).1) == rendered(
                            entries@[k].1@,
                        ),
            {
                assert(decreases_to!(*j => (*j)->Object_0));
                assert(decreases_to!((*j)->Object_0 => (*j)->Object_0@));
                assert(decreases_to!((*j)->Object_0@ => (*j)->Object_0@[i as int]));
                assert(decreases_to!(entries@[i as int] => entries@[i as int].1));
                assert(ordered(j@) ==> ordered(entry_views(entries@)[i as int].1));
                out.push((entries[i].0.clone(), value_of(&entries[i].1)));
            }
            proof {
                if ordered(j@) {
                    let all = entry_views(entries@);
                    let done = entry_contents(out@);
                    assert(done =~= rendered(j@)->Object_0);
                    assert forall|i: int, k: int| 0 <= i < k < done.len() implies text_before(
                        (#[trigger] done[i]).0,
                        (#[trigger] done[k]).0,
                    ) by {
                        assert(all[i].0 == done[i].0);
                        assert(all[k].0 == done[k].0);
                    }
                }
            }
            close_value(Node::Object(out))
        },
    }
}

/// Reads a JSON value from text.
pub fn parse_json(text: &str) -> (res: Result<Json, serde_json::Error>)
    ensures
        res matches Ok(j) ==> json_read(text@) == Some(j@) && canonical(j@),
        res is Err ==> json_read(text@) is None,
{
    match value_from_str(text) {
        Ok(value) => Ok(json_of(value)),
        Err(e) => Err(e),
    }
}

/// The text of a value whose objects have ascending keys.
pub open spec fn is_json_text(v: JsonView, text: Seq<char>) -> bool {
    &&& ordered(v) ==> text == json_text(rendered(v))
    &&& v matches JsonView::Unsigned(n) ==> text == crate::text::dec(n as nat)
}

/// Writes a JSON value as compact text.
pub fn write_json(j: &Json) -> (res: String)
    ensures
        is_json_text(j@, res@),
{
    value_text(&value_of(j))
}

/// A scalar as it is shown: a text without quotes, anything else as JSON.
pub open spec fn scalar_text(v: JsonView) -> Seq<char> {
    match v {
        JsonView::Text(t) => t,
        JsonView::Unsigned(n) => crate::text::dec(n as nat),
        _ => json_text(rendered(v)),
    }
}

/// Display a JSON scalar: strings without their quotes, numbers/bools verbatim.
pub fn json_scalar_str(v: &Json) -> (res: String)
    requires
        !(v@ is Array) && !(v@ is Object),
    ensures
        res@ == scalar_text(v@),
{
    match v {
        Json::Text(t) => t.clone(),
        other => write_json(other),
    }
}

} // verus!
