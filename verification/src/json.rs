//! JSON documents: the in-memory value, its mathematical model, key lookup, objects built key
//! by key, and the JSON text that `serde_json` reads and writes.
//!
//! Object entries keep the order in which they were stored; storing a key again replaces its
//! value in place, as in a JSON map.
use vstd::prelude::*;
use crate::text::{str_equal, string_from_chars};
use serde_json::Value;

verus! {

/// A JSON document as a mathematical value.
pub enum Json {
    Null,
    Bool(bool),
    /// The number's JSON text, such as `-32600` or `3600000`.
    Number(Seq<char>),
    Str(Seq<char>),
    Array(Seq<Json>),
    Object(Seq<(Seq<char>, Json)>),
}

/// A JSON document held in memory. A number keeps its JSON text, so that it can be echoed
/// back unchanged.
#[derive(Debug)]
pub enum JsonValue {
    Null,
    Bool(bool),
    Number(String),
    Str(String),
    Array(Vec<JsonValue>),
    Object(Vec<(String, JsonValue)>),
}

/// The mathematical value of an in-memory JSON document.
pub open spec fn json_of(v: JsonValue) -> Json
    decreases v,
{
    match v {
        JsonValue::Null => Json::Null,
        JsonValue::Bool(b) => Json::Bool(b),
        JsonValue::Number(n) => Json::Number(n@),
        JsonValue::Str(s) => Json::Str(s@),
        JsonValue::Array(items) => Json::Array(
            Seq::new(
                items@.len(),
                |i: int|
                    if 0 <= i < items@.len() {
                        json_of(items@[i])
                    } else {
                        Json::Null
                    },
            ),
        ),
        JsonValue::Object(entries) => Json::Object(
            Seq::new(
                entries@.len(),
                |i: int|
                    if 0 <= i < entries@.len() {
                        (entries@[i].0@, json_of(entries@[i].1))
                    } else {
                        (Seq::empty(), Json::Null)
                    },
            ),
        ),
    }
}

impl View for JsonValue {
    type V = Json;

    open spec fn view(&self) -> Json {
        json_of(*self)
    }
}

/// The mathematical value of an optional borrowed document.
pub open spec fn opt_json(v: Option<&JsonValue>) -> Option<Json> {
    match v {
        Some(x) => Some(json_of(*x)),
        None => None,
    }
}

/// The value stored under `key` in an entry list: the first entry with that key.
pub open spec fn lookup(entries: Seq<(Seq<char>, Json)>, key: Seq<char>) -> Option<Json>
    decreases entries.len(),
{
    if entries.len() == 0 {
        None
    } else if entries[0].0 == key {
        Some(entries[0].1)
    } else {
        lookup(entries.drop_first(), key)
    }
}

impl Json {
    pub open spec fn is_object(self) -> bool {
        self is Object
    }

    /// The member `key` of an object; `None` for a missing key or a value that is no object.
    pub open spec fn get(self, key: Seq<char>) -> Option<Json> {
        match self {
            Json::Object(entries) => lookup(entries, key),
            _ => None,
        }
    }

    pub open spec fn as_str(self) -> Option<Seq<char>> {
        match self {
            Json::Str(s) => Some(s),
            _ => None,
        }
    }

    /// The keys of an object, in order.
    pub open spec fn keys(self) -> Seq<Seq<char>> {
        match self {
            Json::Object(entries) => entries.map_values(|e: (Seq<char>, Json)| e.0),
            _ => Seq::empty(),
        }
    }
}

/// The decimal digit of `d` (below 10).
pub open spec fn decimal_digit(d: nat) -> char {
    if d == 0 { '0' } else if d == 1 { '1' } else if d == 2 { '2' } else if d == 3 { '3' }
    else if d == 4 { '4' } else if d == 5 { '5' } else if d == 6 { '6' } else if d == 7 { '7' }
    else if d == 8 { '8' } else { '9' }
}

/// The decimal digits of a natural number, without leading zeros.
pub open spec fn decimal(n: nat) -> Seq<char>
    decreases n,
{
    if n < 10 {
        seq![decimal_digit(n)]
    } else {
        decimal(n / 10).push(decimal_digit(n % 10))
    }
}

/// The JSON text of an integer.
pub open spec fn integer_text(n: int) -> Seq<char> {
    if n < 0 {
        seq!['-'] + decimal((-n) as nat)
    } else {
        decimal(n as nat)
    }
}

fn decimal_digit_exec(d: u64) -> (c: char)
    requires
        d < 10,
    ensures
        c == decimal_digit(d as nat),
{
    if d == 0 { '0' } else if d == 1 { '1' } else if d == 2 { '2' } else if d == 3 { '3' }
    else if d == 4 { '4' } else if d == 5 { '5' } else if d == 6 { '6' } else if d == 7 { '7' }
    else if d == 8 { '8' } else { '9' }
}

/// Appends the decimal digits of `n`.
pub fn push_decimal(n: u64, out: &mut Vec<char>)
    ensures
        final(out)@ == old(out)@ + decimal(n as nat),
    decreases n,
{
    if n >= 10 {
        push_decimal(n / 10, out);
    }
    out.push(decimal_digit_exec(n % 10));
    proof {
        if n >= 10 {
            assert(old(out)@ + decimal(n as nat) =~= old(out)@ + decimal((n / 10) as nat) + seq![
                decimal_digit((n % 10) as nat),
            ]);
        } else {
            assert(old(out)@ + decimal(n as nat) =~= old(out)@ + seq![decimal_digit(n as nat)]);
        }
    }
}

/// Looks up `key` among object entries: the value of the first entry with that key.
pub fn entries_get<'a>(entries: &'a Vec<(String, JsonValue)>, key: &str) -> (found: Option<
    &'a JsonValue,
>)
    ensures
        opt_json(found) == json_of(JsonValue::Object(*entries)).get(key@),
{
    let ghost view = match json_of(JsonValue::Object(*entries)) {
        Json::Object(e) => e,
        _ => Seq::empty(),
    };
    assert(view.skip(0) =~= view);
    let mut i: usize = 0;
    while i < entries.len()
        invariant
            i <= entries.len(),
            view.len() == entries@.len(),
            json_of(JsonValue::Object(*entries)) == Json::Object(view),
            forall|k: int|
                0 <= k < entries@.len() ==> view[k] == (
                    #[trigger] entries@[k].0@,
                    json_of(entries@[k].1),
                ),
            lookup(view, key@) == lookup(view.skip(i as int), key@),
        decreases entries.len() - i,
    {
        proof {
            let rest = view.skip(i as int);
            assert(rest[0] == view[i as int]);
            assert(rest.drop_first() =~= view.skip(i as int + 1));
        }
        if str_equal(entries[i].0.as_str(), key) {
            return Some(&entries[i].1);
        }
        i = i + 1;
    }
    assert(view.skip(i as int).len() == 0);
    None
}

proof fn lemma_array_view_eq(a: Vec<JsonValue>, b: Vec<JsonValue>)
    requires
        a@.len() == b@.len(),
        forall|k: int| 0 <= k < a@.len() ==> json_of(#[trigger] a@[k]) == json_of(b@[k]),
    ensures
        json_of(JsonValue::Array(a)) == json_of(JsonValue::Array(b)),
{
    let (sa, sb) = match (json_of(JsonValue::Array(a)), json_of(JsonValue::Array(b))) {
        (Json::Array(x), Json::Array(y)) => (x, y),
        _ => (Seq::empty(), Seq::empty()),
    };
    assert(sa =~= sb);
}

proof fn lemma_object_view_eq(a: Vec<(String, JsonValue)>, b: Vec<(String, JsonValue)>)
    requires
        a@.len() == b@.len(),
        forall|k: int|
            0 <= k < a@.len() ==> (#[trigger] a@[k]).0@ == b@[k].0@ && json_of(a@[k].1) == json_of(
                b@[k].1,
            ),
    ensures
        json_of(JsonValue::Object(a)) == json_of(JsonValue::Object(b)),
{
    let (sa, sb) = match (json_of(JsonValue::Object(a)), json_of(JsonValue::Object(b))) {
        (Json::Object(x), Json::Object(y)) => (x, y),
        _ => (Seq::empty(), Seq::empty()),
    };
    assert(sa =~= sb);
}


/// The views of a list of entries, entry by entry.
pub open spec fn entry_views(entries: Seq<(String, JsonValue)>) -> Seq<(Seq<char>, Json)> {
    Seq::new(entries.len(), |i: int| (entries[i].0@, json_of(entries[i].1)))
}

/// The views of a list of documents, item by item.
pub open spec fn item_views(items: Seq<JsonValue>) -> Seq<Json> {
    Seq::new(items.len(), |i: int| json_of(items[i]))
}

/// Stores `value` under `key` in a list of entries, as a JSON map does: an entry with that
/// key has its value replaced in place; otherwise the entry is added at the end.
pub open spec fn stored(entries: Seq<(Seq<char>, Json)>, key: Seq<char>, value: Json) -> Seq<
    (Seq<char>, Json),
>
    decreases entries.len(),
{
    if entries.len() == 0 {
        seq![(key, value)]
    } else if entries[0].0 == key {
        seq![(key, value)] + entries.drop_first()
    } else {
        seq![entries[0]] + stored(entries.drop_first(), key, value)
    }
}

/// The entries of an object built by storing `pairs` one after the other, starting empty.
pub open spec fn insert_all(pairs: Seq<(Seq<char>, Json)>) -> Seq<(Seq<char>, Json)>
    decreases pairs.len(),
{
    if pairs.len() == 0 {
        Seq::empty()
    } else {
        stored(insert_all(pairs.drop_last()), pairs.last().0, pairs.last().1)
    }
}

/// The object built by storing `pairs` one after the other, as a JSON map does.
pub open spec fn obj(pairs: Seq<(Seq<char>, Json)>) -> Json {
    Json::Object(insert_all(pairs))
}

/// Reading a key right after storing it gives the stored value, and storing a key leaves
/// every other key's value as it was.
pub proof fn lemma_insert_then_lookup(
    entries: Seq<(Seq<char>, Json)>,
    key: Seq<char>,
    value: Json,
    other: Seq<char>,
)
    ensures
        lookup(stored(entries, key, value), key) == Some(value),
        other != key ==> lookup(stored(entries, key, value), other) == lookup(
            entries,
            other,
        ),
    decreases entries.len(),
{
    let result = stored(entries, key, value);
    if entries.len() == 0 {
        assert(result[0] == (key, value));
        assert(result.drop_first() =~= Seq::<(Seq<char>, Json)>::empty());
        if other != key {
            assert(lookup(result, other) == lookup(result.drop_first(), other));
        }
    } else if entries[0].0 == key {
        assert(result[0] == (key, value));
        assert(result.drop_first() =~= entries.drop_first());
        if other != key {
            assert(lookup(result, other) == lookup(result.drop_first(), other));
            assert(lookup(entries, other) == lookup(entries.drop_first(), other));
        }
    } else {
        lemma_insert_then_lookup(entries.drop_first(), key, value, other);
        assert(result[0] == entries[0]);
        assert(result.drop_first() =~= stored(entries.drop_first(), key, value));
        if entries[0].0 != other && other != key {
            assert(lookup(result, other) == lookup(result.drop_first(), other));
            assert(lookup(entries, other) == lookup(entries.drop_first(), other));
        }
    }
}

/// The value of the last pair stored under `key`, if any.
pub open spec fn last_stored(pairs: Seq<(Seq<char>, Json)>, key: Seq<char>) -> Option<Json>
    decreases pairs.len(),
{
    if pairs.len() == 0 {
        None
    } else if pairs.last().0 == key {
        Some(pairs.last().1)
    } else {
        last_stored(pairs.drop_last(), key)
    }
}

/// Reading a key of an object built by storing pairs one after the other gives the value
/// stored last under that key, and nothing for a key never stored.
pub proof fn lemma_object_reads_last_write(pairs: Seq<(Seq<char>, Json)>, key: Seq<char>)
    ensures
        obj(pairs).get(key) == last_stored(pairs, key),
    decreases pairs.len(),
{
    if pairs.len() > 0 {
        lemma_object_reads_last_write(pairs.drop_last(), key);
        lemma_insert_then_lookup(insert_all(pairs.drop_last()), pairs.last().0, pairs.last().1, key);
    }
}

proof fn lemma_object_entry_views(entries: Vec<(String, JsonValue)>)
    ensures
        json_of(JsonValue::Object(entries)) == Json::Object(entry_views(entries@)),
{
    let s = match json_of(JsonValue::Object(entries)) {
        Json::Object(x) => x,
        _ => Seq::empty(),
    };
    assert(s =~= entry_views(entries@));
}

proof fn lemma_array_item_views(items: Vec<JsonValue>)
    ensures
        json_of(JsonValue::Array(items)) == Json::Array(item_views(items@)),
{
    let s = match json_of(JsonValue::Array(items)) {
        Json::Array(x) => x,
        _ => Seq::empty(),
    };
    assert(s =~= item_views(items@));
}

/// Stores `value` under `key` in a list of entries (see `stored`).
fn insert_entry(entries: &mut Vec<(String, JsonValue)>, key: &str, value: JsonValue)
    ensures
        entry_views(final(entries)@) == stored(entry_views(old(entries)@), key@, value@),
{
    let ghost full = entry_views(entries@);
    let ghost v = value@;
    proof {
        assert(full.skip(0) =~= full);
        assert(full.take(0) + stored(full, key@, v) =~= stored(full, key@, v));
    }
    let mut i: usize = 0;
    while i < entries.len()
        invariant
            i <= entries@.len(),
            full == entry_views(entries@),
            full == entry_views(old(entries)@),
            v == value@,
            stored(full, key@, v) == full.take(i as int) + stored(full.skip(i as int), key@, v),
        decreases entries.len() - i,
    {
        let ghost rest = full.skip(i as int);
        assert(rest[0] == full[i as int]);
        assert(full[i as int].0 == entries@[i as int].0@);
        if str_equal(entries[i].0.as_str(), key) {
            entries.set(i, (key.to_owned(), value));
            proof {
                assert(rest.drop_first() =~= full.skip(i as int + 1));
                assert(stored(rest, key@, v) == seq![(key@, v)] + rest.drop_first());
                assert(entry_views(entries@) =~= full.take(i as int) + stored(rest, key@, v));
            }
            return;
        }
        proof {
            assert(rest.drop_first() =~= full.skip(i as int + 1));
            assert(full.take(i as int + 1) =~= full.take(i as int) + seq![full[i as int]]);
        }
        i = i + 1;
    }
    entries.push((key.to_owned(), value));
    proof {
        assert(full.skip(i as int).len() == 0);
        assert(entry_views(entries@) =~= full.take(i as int) + stored(full.skip(i as int), key@, v));
    }
}

/// A JSON object under construction. Its view is the sequence of key-value pairs stored so
/// far, in order; storing a key again replaces its value, as in a JSON map.
pub struct JsonObject {
    entries: Vec<(String, JsonValue)>,
    pairs: Ghost<Seq<(Seq<char>, Json)>>,
}

impl JsonObject {
    #[verifier::type_invariant]
    spec fn entries_match_pairs(self) -> bool {
        entry_views(self.entries@) == insert_all(self.pairs@)
    }

    pub closed spec fn stored_pairs(self) -> Seq<(Seq<char>, Json)> {
        self.pairs@
    }

    /// An object with no entries.
    pub fn new() -> (o: JsonObject)
        ensures
            o@ == Seq::<(Seq<char>, Json)>::empty(),
    {
        let entries: Vec<(String, JsonValue)> = Vec::new();
        assert(entry_views(entries@) =~= Seq::<(Seq<char>, Json)>::empty());
        assert(insert_all(Seq::empty()) == Seq::<(Seq<char>, Json)>::empty());
        JsonObject { entries, pairs: Ghost(Seq::empty()) }
    }

    /// The object with `value` stored under `key`.
    pub fn with(self, key: &str, value: JsonValue) -> (o: JsonObject)
        ensures
            o@ == self@.push((key@, value@)),
    {
        proof {
            use_type_invariant(&self);
        }
        let ghost v = value@;
        let JsonObject { mut entries, pairs } = self;
        insert_entry(&mut entries, key, value);
        let ghost next = pairs@.push((key@, v));
        proof {
            assert(next.drop_last() =~= pairs@);
        }
        JsonObject { entries, pairs: Ghost(next) }
    }

    /// The finished object.
    pub fn build(self) -> (v: JsonValue)
        ensures
            v@ == obj(self@),
    {
        proof {
            use_type_invariant(&self);
        }
        let JsonObject { entries, pairs } = self;
        proof {
            lemma_object_entry_views(entries);
        }
        JsonValue::Object(entries)
    }
}

impl View for JsonObject {
    type V = Seq<(Seq<char>, Json)>;

    open spec fn view(&self) -> Seq<(Seq<char>, Json)> {
        self.stored_pairs()
    }
}

impl JsonValue {
    /// The object `{k1: v1}`.
    pub fn object1(k1: &str, v1: JsonValue) -> (v: JsonValue)
        ensures
            v@ == obj(seq![(k1@, v1@)]),
    {
        let ghost a = v1@;
        let o = JsonObject::new().with(k1, v1);
        assert(o@ =~= seq![(k1@, a)]);
        o.build()
    }

    /// The object built by storing `k1`, then `k2`.
    pub fn object2(k1: &str, v1: JsonValue, k2: &str, v2: JsonValue) -> (v: JsonValue)
        ensures
            v@ == obj(seq![(k1@, v1@), (k2@, v2@)]),
    {
        let ghost (a, b) = (v1@, v2@);
        let o = JsonObject::new().with(k1, v1).with(k2, v2);
        assert(o@ =~= seq![(k1@, a), (k2@, b)]);
        o.build()
    }

    /// The object built by storing `k1`, `k2`, then `k3`.
    pub fn object3(k1: &str, v1: JsonValue, k2: &str, v2: JsonValue, k3: &str, v3: JsonValue) -> (v:
        JsonValue)
        ensures
            v@ == obj(seq![(k1@, v1@), (k2@, v2@), (k3@, v3@)]),
    {
        let ghost (a, b, c) = (v1@, v2@, v3@);
        let o = JsonObject::new().with(k1, v1).with(k2, v2).with(k3, v3);
        assert(o@ =~= seq![(k1@, a), (k2@, b), (k3@, c)]);
        o.build()
    }

    /// The object built by storing `k1`, `k2`, `k3`, then `k4`.
    pub fn object4(
        k1: &str,
        v1: JsonValue,
        k2: &str,
        v2: JsonValue,
        k3: &str,
        v3: JsonValue,
        k4: &str,
        v4: JsonValue,
    ) -> (v: JsonValue)
        ensures
            v@ == obj(seq![(k1@, v1@), (k2@, v2@), (k3@, v3@), (k4@, v4@)]),
    {
        let ghost (a, b, c, d) = (v1@, v2@, v3@, v4@);
        let o = JsonObject::new().with(k1, v1).with(k2, v2).with(k3, v3).with(k4, v4);
        assert(o@ =~= seq![(k1@, a), (k2@, b), (k3@, c), (k4@, d)]);
        o.build()
    }

    /// The array `[a]`.
    pub fn array1(a: JsonValue) -> (v: JsonValue)
        ensures
            v@ == Json::Array(seq![a@]),
    {
        let ghost x = a@;
        let mut items: Vec<JsonValue> = Vec::new();
        items.push(a);
        assert(item_views(items@) =~= seq![x]);
        JsonValue::array(items)
    }

    /// The array `[a, b]`.
    pub fn array2(a: JsonValue, b: JsonValue) -> (v: JsonValue)
        ensures
            v@ == Json::Array(seq![a@, b@]),
    {
        let ghost (x, y) = (a@, b@);
        let mut items: Vec<JsonValue> = Vec::new();
        items.push(a);
        items.push(b);
        assert(item_views(items@) =~= seq![x, y]);
        JsonValue::array(items)
    }

    /// A JSON string holding `s`.
    pub fn string(s: &str) -> (v: JsonValue)
        ensures
            v@ == Json::Str(s@),
    {
        JsonValue::Str(s.to_owned())
    }

    /// A JSON number holding a non-negative integer.
    pub fn from_u64(n: u64) -> (v: JsonValue)
        ensures
            v@ == Json::Number(integer_text(n as int)),
    {
        let mut digits: Vec<char> = Vec::new();
        push_decimal(n, &mut digits);
        assert(digits@ =~= decimal(n as nat));
        JsonValue::Number(string_from_chars(&digits))
    }

    /// A JSON number holding an integer.
    pub fn from_i64(n: i64) -> (v: JsonValue)
        ensures
            v@ == Json::Number(integer_text(n as int)),
    {
        let mut digits: Vec<char> = Vec::new();
        if n < 0 {
            digits.push('-');
            let magnitude: u64 = if n == i64::MIN {
                9223372036854775808u64
            } else {
                (-n) as u64
            };
            push_decimal(magnitude, &mut digits);
            assert(digits@ =~= seq!['-'] + decimal((-n) as nat));
        } else {
            push_decimal(n as u64, &mut digits);
            assert(digits@ =~= decimal(n as nat));
        }
        JsonValue::Number(string_from_chars(&digits))
    }

    /// A JSON array holding `items` in order.
    pub fn array(items: Vec<JsonValue>) -> (v: JsonValue)
        ensures
            v@ == Json::Array(item_views(items@)),
    {
        proof {
            lemma_array_item_views(items);
        }
        JsonValue::Array(items)
    }

    /// The member `key` of an object; `None` for a missing key or a value that is no object.
    pub fn get(&self, key: &str) -> (member: Option<&JsonValue>)
        ensures
            opt_json(member) == self@.get(key@),
    {
        match self {
            JsonValue::Object(entries) => entries_get(entries, key),
            _ => None,
        }
    }

    /// The entries of an object.
    pub fn as_object(&self) -> (entries: Option<&Vec<(String, JsonValue)>>)
        ensures
            entries is Some <==> self@.is_object(),
            entries matches Some(e) ==> json_of(JsonValue::Object(*e)) == self@,
    {
        match self {
            JsonValue::Object(entries) => Some(entries),
            _ => None,
        }
    }

    /// The text of a string value.
    pub fn as_str(&self) -> (text: Option<&str>)
        ensures
            text is Some <==> self@.as_str() is Some,
            text matches Some(t) ==> self@.as_str() == Some(t@),
    {
        match self {
            JsonValue::Str(s) => Some(s.as_str()),
            _ => None,
        }
    }

    pub fn is_object(&self) -> (object: bool)
        ensures
            object == self@.is_object(),
    {
        match self {
            JsonValue::Object(_) => true,
            _ => false,
        }
    }

    /// The compact JSON text of the document, as `serde_json` writes it (see `serialized`).
    pub fn to_text(&self) -> (text: String)
        ensures
            text@ == serialized(self@),
    {
        serialize_document(self)
    }

    /// A deep copy of the document.
    pub fn duplicate(&self) -> (copy: JsonValue)
        ensures
            copy@ == self@,
        decreases self,
    {
        match self {
            JsonValue::Null => JsonValue::Null,
            JsonValue::Bool(b) => JsonValue::Bool(*b),
            JsonValue::Number(n) => JsonValue::Number(n.clone()),
            JsonValue::Str(s) => JsonValue::Str(s.clone()),
            JsonValue::Array(items) => {
                let mut copied: Vec<JsonValue> = Vec::new();
                let mut i: usize = 0;
                while i < items.len()
                    invariant
                        *self == JsonValue::Array(*items),
                        i <= items.len(),
                        copied@.len() == i,
                        forall|k: int|
                            0 <= k < i ==> json_of(#[trigger] copied@[k]) == json_of(items@[k]),
                    decreases items.len() - i,
                {
                    proof {
                        assert(decreases_to!(*self => (*self)->Array_0));
                        assert(decreases_to!(*items => items@));
                        assert(decreases_to!(items@ => items@[i as int]));
                    }
                    copied.push(items[i].duplicate());
                    i = i + 1;
                }
                let copy = JsonValue::Array(copied);
                proof {
                    lemma_array_view_eq(copied, *items);
                }
                copy
            },
            JsonValue::Object(entries) => {
                let mut copied: Vec<(String, JsonValue)> = Vec::new();
                let mut i: usize = 0;
                while i < entries.len()
                    invariant
                        *self == JsonValue::Object(*entries),
                        i <= entries.len(),
                        copied@.len() == i,
                        forall|k: int|
                            0 <= k < i ==> (#[trigger] copied@[k]).0@ == entries@[k].0@
                                && json_of(copied@[k].1) == json_of(entries@[k].1),
                    decreases entries.len() - i,
                {
                    proof {
                        assert(decreases_to!(*self => (*self)->Object_0));
                        assert(decreases_to!(*entries => entries@));
                        assert(decreases_to!(entries@ => entries@[i as int]));
                        assert(decreases_to!(entries@[i as int] => entries@[i as int].1));
                    }
                    let value = entries[i].1.duplicate();
                    copied.push((entries[i].0.clone(), value));
                    i = i + 1;
                }
                let copy = JsonValue::Object(copied);
                proof {
                    lemma_object_view_eq(copied, *entries);
                }
                copy
            },
        }
    }
}

// ---------------------------------------------------------------------------------------------
// Decoding JSON text
// ---------------------------------------------------------------------------------------------

#[verifier::external_type_specification]
#[verifier::external_body]
pub struct ExDecodedValue(serde_json::Value);

/// The document that a UTF-8 JSON text holds, as `serde_json::from_slice` reads it; `None`
/// when the bytes are no JSON text.
pub uninterp spec fn parsed_document(bytes: Seq<u8>) -> Option<Json>;

/// Converts a document decoded by `serde_json` into the library's document, variant for
/// variant; a number keeps the JSON text that `serde_json` writes for it.
#[verifier::external_body]
fn document_from_value(value: &Value) -> JsonValue {
    match value {
        Value::Null => JsonValue::Null,
        Value::Bool(b) => JsonValue::Bool(*b),
        Value::Number(n) => JsonValue::Number(n.to_string()),
        Value::String(s) => JsonValue::Str(s.clone()),
        Value::Array(items) => JsonValue::Array(items.iter().map(document_from_value).collect()),
        Value::Object(map) => JsonValue::Object(
            map.iter().map(|(k, v)| (k.clone(), document_from_value(v))).collect(),
        ),
    }
}

/// `serde_json::from_slice`: decodes UTF-8 JSON text. The contract names the document it
/// reads (`parsed_document`) and says no more of it: that depends on the bytes alone.
#[verifier::external_body]
pub(crate) fn decode_document(bytes: &[u8]) -> (document: Option<JsonValue>)
    ensures
        match document {
            Some(d) => parsed_document(bytes@) == Some(d@),
            None => parsed_document(bytes@) is None,
        },
{
    match serde_json::from_slice::<Value>(bytes) {
        Ok(value) => Some(document_from_value(&value)),
        Err(_) => None,
    }
}

/// The compact JSON text that `serde_json::to_string` writes for a document, held as a
/// `serde_json` map: each object's keys once, in ascending order, with the value stored last
/// under each.
pub uninterp spec fn serialized(document: Json) -> Seq<char>;

/// Converts a library document into a `serde_json` document, variant for variant; a number's
/// JSON text is read back as a `serde_json` number.
#[verifier::external_body]
fn value_from_document(document: &JsonValue) -> Value {
    match document {
        JsonValue::Null => Value::Null,
        JsonValue::Bool(b) => Value::Bool(*b),
        JsonValue::Number(n) => n.parse::<serde_json::Number>().map(Value::Number).unwrap_or(Value::Null),
        JsonValue::Str(s) => Value::String(s.clone()),
        JsonValue::Array(items) => Value::Array(items.iter().map(value_from_document).collect()),
        JsonValue::Object(entries) => Value::Object(
            entries.iter().map(|(k, v)| (k.clone(), value_from_document(v))).collect(),
        ),
    }
}

/// `serde_json::to_string`: the compact JSON text of a document. The contract names the text
/// (`serialized`), which depends on the document alone, and says no more of it.
#[verifier::external_body]
fn serialize_document(document: &JsonValue) -> (text: String)
    ensures
        text@ == serialized(document@),
{
    match serde_json::to_string(&value_from_document(document)) {
        Ok(text) => text,
        Err(_) => String::new(),
    }
}

} // verus!
