//! JSON values as this library models them, with objects kept as sequences of
//! entries sorted by key, the order in which `serde_json`'s map keeps them.
//! Parsing and printing go through `serde_json`.
use vstd::prelude::*;
use crate::text::{chars_of, str_eq};

verus! {

/// A JSON value.
#[derive(Debug, PartialEq, Eq)]
pub enum Json {
    Null,
    Bool(bool),
    /// A number, held as the text that `serde_json` writes for it.
    Number(String),
    Str(String),
    Array(Vec<Json>),
    /// An object's entries; a well-formed value keeps them in increasing
    /// order of key.
    Object(Vec<(String, Json)>),
}

/// The mathematical value of a `Json`.
pub enum JsonModel {
    Null,
    Bool(bool),
    Number(Seq<char>),
    Str(Seq<char>),
    Array(Seq<JsonModel>),
    Object(Seq<(Seq<char>, JsonModel)>),
}

impl Json {
    /// The value this `Json` stands for.
    pub open spec fn model(&self) -> JsonModel
        decreases self,
    {
        match self {
            Json::Null => JsonModel::Null,
            Json::Bool(b) => JsonModel::Bool(*b),
            Json::Number(n) => JsonModel::Number(n@),
            Json::Str(s) => JsonModel::Str(s@),
            Json::Array(items) => JsonModel::Array(items_model(items@)),
            Json::Object(entries) => JsonModel::Object(entries_model(entries@)),
        }
    }
}

/// The models of a sequence of values.
pub open spec fn items_model(s: Seq<Json>) -> Seq<JsonModel>
    decreases s,
{
    if s.len() == 0 {
        Seq::empty()
    } else {
        items_model(s.drop_last()).push(s.last().model())
    }
}

/// The entries of an object, by their models.
pub open spec fn entries_model(s: Seq<(String, Json)>) -> Seq<(Seq<char>, JsonModel)>
    decreases s,
{
    if s.len() == 0 {
        Seq::empty()
    } else {
        entries_model(s.drop_last()).push((s.last().0@, s.last().1.model()))
    }
}

/// `items_model` maps each item to its model.
pub proof fn lemma_items_model(s: Seq<Json>)
    ensures
        items_model(s).len() == s.len(),
        forall|i: int| 0 <= i < s.len() ==> #[trigger] items_model(s)[i] == s[i].model(),
    decreases s.len(),
{
    if s.len() > 0 {
        lemma_items_model(s.drop_last());
    }
}

/// `entries_model` maps each entry to its key's view and its value's model.
pub proof fn lemma_entries_model(s: Seq<(String, Json)>)
    ensures
        entries_model(s).len() == s.len(),
        forall|i: int|
            0 <= i < s.len() ==> #[trigger] entries_model(s)[i] == (s[i].0@, s[i].1.model()),
    decreases s.len(),
{
    if s.len() > 0 {
        lemma_entries_model(s.drop_last());
    }
}

impl View for Json {
    type V = JsonModel;

    open spec fn view(&self) -> JsonModel {
        self.model()
    }
}

/// Strict lexicographic order on keys by code point, the order of `String`
/// in a `BTreeMap`.
pub open spec fn key_lt(a: Seq<char>, b: Seq<char>) -> bool
    decreases a.len(),
{
    if a.len() == 0 {
        b.len() > 0
    } else if b.len() == 0 {
        false
    } else if a[0] == b[0] {
        key_lt(a.drop_first(), b.drop_first())
    } else {
        (a[0] as u32) < (b[0] as u32)
    }
}

/// The keys of `es` strictly increase.
pub open spec fn keys_sorted(es: Seq<(Seq<char>, JsonModel)>) -> bool {
    forall|i: int, j: int| 0 <= i < j < es.len() ==> key_lt(#[trigger] es[i].0, #[trigger] es[j].0)
}

impl JsonModel {
    /// Every object within this value has strictly increasing keys.
    pub open spec fn wf(self) -> bool
        decreases self,
    {
        match self {
            JsonModel::Array(items) => items_wf(items),
            JsonModel::Object(es) => keys_sorted(es) && values_wf(es),
            _ => true,
        }
    }
}

/// Every item is well formed.
pub open spec fn items_wf(s: Seq<JsonModel>) -> bool
    decreases s,
{
    if s.len() == 0 {
        true
    } else {
        items_wf(s.drop_last()) && s.last().wf()
    }
}

/// Every entry's value is well formed.
pub open spec fn values_wf(s: Seq<(Seq<char>, JsonModel)>) -> bool
    decreases s,
{
    if s.len() == 0 {
        true
    } else {
        values_wf(s.drop_last()) && s.last().1.wf()
    }
}

/// `values_wf` holds exactly when each value is well formed.
pub proof fn lemma_values_wf(s: Seq<(Seq<char>, JsonModel)>)
    ensures
        values_wf(s) == forall|i: int| 0 <= i < s.len() ==> #[trigger] s[i].1.wf(),
    decreases s.len(),
{
    if s.len() > 0 {
        let t = s.drop_last();
        lemma_values_wf(t);
        assert(values_wf(s) == (values_wf(t) && s.last().1.wf()));
        assert(s.last() == s[s.len() - 1]);
        assert forall|i: int| 0 <= i < t.len() implies #[trigger] t[i] == s[i] by {}
        if values_wf(s) {
            assert forall|i: int| 0 <= i < s.len() implies #[trigger] s[i].1.wf() by {
                if i < s.len() - 1 {
                    assert(t[i] == s[i]);
                }
            }
        }
        if forall|i: int| 0 <= i < s.len() ==> #[trigger] s[i].1.wf() {
            assert forall|i: int| 0 <= i < t.len() implies #[trigger] t[i].1.wf() by {
                assert(t[i] == s[i]);
                assert(s[i].1.wf());
            }
            assert(s[s.len() - 1].1.wf());
        }
    }
}

/// An object's entries are sorted and each value is well formed.
pub open spec fn entries_wf(es: Seq<(Seq<char>, JsonModel)>) -> bool {
    keys_sorted(es) && forall|i: int| 0 <= i < es.len() ==> #[trigger] es[i].1.wf()
}

/// An object is well formed exactly when its entries are.
pub proof fn lemma_object_wf(es: Seq<(Seq<char>, JsonModel)>)
    ensures
        JsonModel::Object(es).wf() == entries_wf(es),
{
    lemma_values_wf(es);
}

/// The value stored under `k` in `es`, the first such entry.
pub open spec fn lookup(es: Seq<(Seq<char>, JsonModel)>, k: Seq<char>) -> Option<JsonModel>
    decreases es.len(),
{
    if es.len() == 0 {
        None
    } else if es[0].0 == k {
        Some(es[0].1)
    } else {
        lookup(es.drop_first(), k)
    }
}

/// `es` with `k` set to `v`: an entry with key `k` is replaced, otherwise the
/// new entry goes before the first greater key.
pub open spec fn obj_insert(es: Seq<(Seq<char>, JsonModel)>, k: Seq<char>, v: JsonModel) -> Seq<
    (Seq<char>, JsonModel),
>
    decreases es.len(),
{
    if es.len() == 0 {
        seq![(k, v)]
    } else if es[0].0 == k {
        seq![(k, v)] + es.drop_first()
    } else if key_lt(k, es[0].0) {
        seq![(k, v)] + es
    } else {
        seq![es[0]] + obj_insert(es.drop_first(), k, v)
    }
}

/// No key comes before itself.
pub proof fn lemma_key_lt_irrefl(a: Seq<char>)
    ensures
        !key_lt(a, a),
    decreases a.len(),
{
    if a.len() > 0 {
        lemma_key_lt_irrefl(a.drop_first());
    }
}

/// Two keys do not each come before the other.
pub proof fn lemma_key_lt_asym(a: Seq<char>, b: Seq<char>)
    ensures
        !(key_lt(a, b) && key_lt(b, a)),
    decreases a.len(),
{
    if a.len() > 0 && b.len() > 0 && a[0] == b[0] {
        lemma_key_lt_asym(a.drop_first(), b.drop_first());
    }
}

/// Key order is transitive.
pub proof fn lemma_key_lt_trans(a: Seq<char>, b: Seq<char>, c: Seq<char>)
    requires
        key_lt(a, b),
        key_lt(b, c),
    ensures
        key_lt(a, c),
    decreases a.len(),
{
    if a.len() > 0 && b.len() > 0 && c.len() > 0 && a[0] == b[0] && b[0] == c[0] {
        lemma_key_lt_trans(a.drop_first(), b.drop_first(), c.drop_first());
    }
}

/// Of two different keys, one comes before the other.
pub proof fn lemma_key_lt_total(a: Seq<char>, b: Seq<char>)
    ensures
        a == b || key_lt(a, b) || key_lt(b, a),
    decreases a.len(),
{
    if a.len() > 0 && b.len() > 0 && a[0] == b[0] {
        lemma_key_lt_total(a.drop_first(), b.drop_first());
        if a.drop_first() == b.drop_first() {
            assert(a =~= seq![a[0]] + a.drop_first());
            assert(b =~= seq![b[0]] + b.drop_first());
        }
    } else if a.len() == 0 && b.len() == 0 {
        assert(a =~= b);
    } else if a.len() > 0 && b.len() > 0 {
        let x = a[0] as u32;
        let y = b[0] as u32;
        assert(x != y) by {
            vstd::utf8::char_u32_cast(a[0], x);
            vstd::utf8::char_u32_cast(b[0], y);
        }
    }
}

/// Sortedness is kept when the first entry is dropped.
proof fn lemma_sorted_drop_first(es: Seq<(Seq<char>, JsonModel)>)
    requires
        keys_sorted(es),
        es.len() > 0,
    ensures
        keys_sorted(es.drop_first()),
{
    assert forall|i: int, j: int| 0 <= i < j < es.drop_first().len() implies key_lt(
        #[trigger] es.drop_first()[i].0,
        #[trigger] es.drop_first()[j].0,
    ) by {
        assert(es[i + 1].0 == es.drop_first()[i].0);
        assert(es[j + 1].0 == es.drop_first()[j].0);
    }
}

/// In sorted entries whose first key exceeds `k`, `k` is absent.
proof fn lemma_lookup_below(es: Seq<(Seq<char>, JsonModel)>, k: Seq<char>)
    requires
        keys_sorted(es),
        es.len() > 0,
        key_lt(k, es[0].0),
    ensures
        lookup(es, k) is None,
    decreases es.len(),
{
    lemma_key_lt_irrefl(k);
    assert(es[0].0 != k);
    assert(lookup(es, k) == lookup(es.drop_first(), k));
    if es.len() > 1 {
        lemma_sorted_drop_first(es);
        assert(key_lt(es[0].0, es[1].0));
        lemma_key_lt_trans(k, es[0].0, es[1].0);
        assert(es.drop_first()[0] == es[1]);
        lemma_lookup_below(es.drop_first(), k);
    } else {
        assert(es.drop_first().len() == 0);
        assert(lookup(es.drop_first(), k) is None);
    }
}

/// After `obj_insert`, `k` maps to `v`, every other key keeps its value, and
/// the keys stay sorted.
pub proof fn lemma_obj_insert(es: Seq<(Seq<char>, JsonModel)>, k: Seq<char>, v: JsonModel)
    requires
        keys_sorted(es),
    ensures
        keys_sorted(obj_insert(es, k, v)),
        lookup(obj_insert(es, k, v), k) == Some(v),
        forall|k2: Seq<char>| k2 != k ==> lookup(obj_insert(es, k, v), k2) == lookup(es, k2),
        forall|i: int|
            0 <= i < obj_insert(es, k, v).len() ==> (#[trigger] obj_insert(es, k, v)[i] == (k, v)
                || exists|j: int| 0 <= j < es.len() && obj_insert(es, k, v)[i] == es[j]),
    decreases es.len(),
{
    let r = obj_insert(es, k, v);
    if es.len() == 0 {
        assert forall|k2: Seq<char>| k2 != k implies lookup(r, k2) == lookup(es, k2) by {
            assert(r.drop_first().len() == 0);
            assert(lookup(r, k2) == lookup(r.drop_first(), k2));
        }
    } else if es[0].0 == k {
        assert forall|i: int, j: int| 0 <= i < j < r.len() implies key_lt(
            #[trigger] r[i].0,
            #[trigger] r[j].0,
        ) by {
            assert(key_lt(es[i].0, es[j].0));
        }
        assert forall|k2: Seq<char>| k2 != k implies lookup(r, k2) == lookup(es, k2) by {
            assert(r.drop_first() =~= es.drop_first());
        }
        assert forall|i: int| 0 <= i < r.len() implies (#[trigger] r[i] == (k, v) || exists|
            j: int,
        | 0 <= j < es.len() && r[i] == es[j]) by {
            if i > 0 {
                assert(r[i] == es[i]);
            }
        }
    } else if key_lt(k, es[0].0) {
        assert forall|i: int, j: int| 0 <= i < j < r.len() implies key_lt(
            #[trigger] r[i].0,
            #[trigger] r[j].0,
        ) by {
            if i == 0 {
                if j > 1 {
                    assert(key_lt(es[0].0, es[j - 1].0));
                    lemma_key_lt_trans(k, es[0].0, es[j - 1].0);
                }
            } else {
                assert(key_lt(es[i - 1].0, es[j - 1].0));
            }
        }
        lemma_lookup_below(es, k);
        assert forall|k2: Seq<char>| k2 != k implies lookup(r, k2) == lookup(es, k2) by {
            assert(r.drop_first() =~= es);
        }
        assert forall|i: int| 0 <= i < r.len() implies (#[trigger] r[i] == (k, v) || exists|
            j: int,
        | 0 <= j < es.len() && r[i] == es[j]) by {
            if i > 0 {
                assert(r[i] == es[i - 1]);
            }
        }
    } else {
        let t = es.drop_first();
        lemma_sorted_drop_first(es);
        lemma_obj_insert(t, k, v);
        let rt = obj_insert(t, k, v);
        assert(r =~= seq![es[0]] + rt);
        lemma_key_lt_total(k, es[0].0);
        assert(key_lt(es[0].0, k));
        lemma_key_lt_irrefl(k);
        assert(r.drop_first() =~= rt);
        assert forall|i: int, j: int| 0 <= i < j < r.len() implies key_lt(
            #[trigger] r[i].0,
            #[trigger] r[j].0,
        ) by {
            if i == 0 {
                assert(r[j] == rt[j - 1]);
                if rt[j - 1] != (k, v) {
                    let m = choose|m: int| 0 <= m < t.len() && rt[j - 1] == t[m];
                    assert(key_lt(es[0].0, es[m + 1].0));
                }
            } else {
                assert(r[i] == rt[i - 1]);
                assert(r[j] == rt[j - 1]);
            }
        }
        assert(lookup(r, k) == lookup(rt, k));
        assert forall|k2: Seq<char>| k2 != k implies lookup(r, k2) == lookup(es, k2) by {
            assert(r[0] == es[0]);
            if k2 != es[0].0 {
                assert(lookup(r, k2) == lookup(r.drop_first(), k2));
                assert(lookup(rt, k2) == lookup(t, k2));
                assert(lookup(es, k2) == lookup(t, k2));
            }
        }
        assert forall|i: int| 0 <= i < r.len() implies (#[trigger] r[i] == (k, v) || exists|
            j: int,
        | 0 <= j < es.len() && r[i] == es[j]) by {
            if i == 0 {
                assert(r[0] == es[0]);
            } else {
                assert(r[i] == rt[i - 1]);
                if rt[i - 1] != (k, v) {
                    let m = choose|m: int| 0 <= m < t.len() && rt[i - 1] == t[m];
                    assert(r[i] == es[m + 1]);
                }
            }
        }
    }
}

/// `obj_insert` keeps every value well formed when the new one is.
pub proof fn lemma_obj_insert_wf(es: Seq<(Seq<char>, JsonModel)>, k: Seq<char>, v: JsonModel)
    requires
        entries_wf(es),
        v.wf(),
    ensures
        entries_wf(obj_insert(es, k, v)),
{
    lemma_obj_insert(es, k, v);
    let r = obj_insert(es, k, v);
    assert forall|i: int| 0 <= i < r.len() implies #[trigger] r[i].1.wf() by {
        if r[i] != (k, v) {
            let j = choose|j: int| 0 <= j < es.len() && r[i] == es[j];
            assert(es[j].1.wf());
        }
    }
}

/// Whether `a` comes before `b` in key order.
pub fn key_less(a: &str, b: &str) -> (r: bool)
    ensures
        r == key_lt(a@, b@),
{
    let x = chars_of(a);
    let y = chars_of(b);
    let mut i: usize = 0;
    assert(a@.skip(0) =~= a@);
    assert(b@.skip(0) =~= b@);
    while i < x.len() && i < y.len() && x[i] == y[i]
        invariant
            x@ == a@,
            y@ == b@,
            i <= x.len(),
            i <= y.len(),
            key_lt(a@, b@) == key_lt(a@.skip(i as int), b@.skip(i as int)),
        decreases x.len() - i,
    {
        proof {
            let s = a@.skip(i as int);
            let t = b@.skip(i as int);
            assert(s.drop_first() =~= a@.skip(i + 1));
            assert(t.drop_first() =~= b@.skip(i + 1));
        }
        i = i + 1;
    }
    if i == x.len() {
        i < y.len()
    } else if i == y.len() {
        false
    } else {
        (x[i] as u32) < (y[i] as u32)
    }
}

/// Exec: the value stored under `key`, if any.
pub fn object_get<'a>(entries: &'a Vec<(String, Json)>, key: &str) -> (r: Option<&'a Json>)
    ensures
        match r {
            Some(j) => lookup(entries_model(entries@), key@) == Some(j@),
            None => lookup(entries_model(entries@), key@) is None,
        },
{
    let ghost es = entries_model(entries@);
    proof {
        lemma_entries_model(entries@);
    }
    let mut i: usize = 0;
    assert(es.skip(0) =~= es);
    while i < entries.len()
        invariant
            i <= entries.len(),
            es == entries_model(entries@),
            es.len() == entries.len(),
            forall|m: int| 0 <= m < entries.len() ==> #[trigger] es[m] == (entries@[m].0@, entries@[m].1@),
            lookup(es, key@) == lookup(es.skip(i as int), key@),
        decreases entries.len() - i,
    {
        proof {
            let s = es.skip(i as int);
            assert(s.drop_first() =~= es.skip(i + 1));
            assert(s[0] == es[i as int]);
        }
        if str_eq(entries[i].0.as_str(), key) {
            return Some(&entries[i].1);
        }
        i = i + 1;
    }
    assert(es.skip(i as int).len() == 0);
    None
}

/// Sets `key` to `value` in the sorted entries of an object.
pub fn object_insert(entries: &mut Vec<(String, Json)>, key: String, value: Json)
    ensures
        entries_model(final(entries)@) == obj_insert(entries_model(old(entries)@), key@, value@),
{
    let ghost es = entries_model(entries@);
    proof {
        lemma_entries_model(entries@);
    }
    let mut i: usize = 0;
    assert(es.skip(0) =~= es);
    assert(es.take(0) + obj_insert(es, key@, value@) =~= obj_insert(es, key@, value@));
    while i < entries.len() && key_less(entries[i].0.as_str(), key.as_str())
        invariant
            i <= entries.len(),
            es == entries_model(old(entries)@),
            entries@ == old(entries)@,
            es.len() == entries.len(),
            forall|m: int| 0 <= m < entries.len() ==> #[trigger] es[m] == (entries@[m].0@, entries@[m].1@),
            obj_insert(es, key@, value@) == es.take(i as int) + obj_insert(
                es.skip(i as int),
                key@,
                value@,
            ),
        decreases entries.len() - i,
    {
        proof {
            let s = es.skip(i as int);
            assert(s[0] == es[i as int]);
            assert(s.drop_first() =~= es.skip(i + 1));
            assert(s[0].0 != key@) by {
                lemma_key_lt_irrefl(key@);
            }
            assert(!key_lt(key@, s[0].0)) by {
                lemma_key_lt_asym(key@, s[0].0);
            }
            assert(obj_insert(s, key@, value@) == seq![s[0]] + obj_insert(s.drop_first(), key@, value@));
            assert(es.take(i + 1) =~= es.take(i as int) + seq![s[0]]);
        }
        i = i + 1;
    }
    let ghost s = es.skip(i as int);
    if i < entries.len() && str_eq(entries[i].0.as_str(), key.as_str()) {
        proof {
            assert(s[0] == es[i as int]);
            assert(s.drop_first() =~= es.skip(i + 1));
            assert(obj_insert(s, key@, value@) == seq![(key@, value@)] + s.drop_first());
        }
        let ghost kv = (key@, value@);
        entries.set(i, (key, value));
        proof {
            lemma_entries_model(entries@);
            assert(entries_model(entries@) =~= es.take(i as int) + seq![kv] + es.skip(i + 1));
        }
    } else {
        proof {
            if i < entries.len() {
                assert(s[0] == es[i as int]);
                lemma_key_lt_total(key@, s[0].0);
                assert(obj_insert(s, key@, value@) == seq![(key@, value@)] + s);
            } else {
                assert(s.len() == 0);
            }
        }
        let ghost kv = (key@, value@);
        entries.insert(i, (key, value));
        proof {
            lemma_entries_model(entries@);
            assert(entries_model(entries@) =~= es.take(i as int) + seq![kv] + es.skip(i as int));
        }
    }
}

/// `serde_json`'s dynamically typed value, which the conversions below take
/// and give.
#[verifier::external_type_specification]
#[verifier::external_body]
pub struct ExJsonValue(serde_json::Value);

/// The `serde_json` value for `json`. A `Number` whose text `serde_json`
/// cannot read as a number becomes a string. Nothing is stated of it.
#[verifier::external_body]
fn json_to_serde(json: &Json) -> serde_json::Value {
    match json {
        Json::Null => serde_json::Value::Null,
        Json::Bool(b) => serde_json::Value::Bool(*b),
        Json::Number(n) => n.parse::<serde_json::Number>().map_or_else(
            |_| serde_json::Value::String(n.clone()),
            serde_json::Value::Number,
        ),
        Json::Str(s) => serde_json::Value::String(s.clone()),
        Json::Array(items) => serde_json::Value::Array(items.iter().map(json_to_serde).collect()),
        Json::Object(es) => serde_json::Value::Object(
            es.iter().map(|(k, v)| (k.clone(), json_to_serde(v))).collect(),
        ),
    }
}

/// The `Json` for a `serde_json` value; an object's entries come in the order
/// of its map, which is key order. Nothing is stated of it.
#[verifier::external_body]
fn json_from_serde(value: &serde_json::Value) -> Json {
    match value {
        serde_json::Value::Null => Json::Null,
        serde_json::Value::Bool(b) => Json::Bool(*b),
        serde_json::Value::Number(n) => Json::Number(n.to_string()),
        serde_json::Value::String(s) => Json::Str(s.clone()),
        serde_json::Value::Array(items) => Json::Array(items.iter().map(json_from_serde).collect()),
        serde_json::Value::Object(map) => Json::Object(
            map.iter().map(|(k, v)| (k.clone(), json_from_serde(v))).collect(),
        ),
    }
}

/// What `serde_json::from_str::<serde_json::Value>` gives for a text: the
/// value, or the text of its error.
pub uninterp spec fn spec_parse_json(text: Seq<char>) -> Result<JsonModel, Seq<char>>;

/// What `serde_json::to_string_pretty` writes for a value.
pub uninterp spec fn spec_json_pretty(value: JsonModel) -> Seq<char>;

/// What `serde_json::to_string` writes for a value, which is also what
/// `Display` for `serde_json::Value` writes.
pub uninterp spec fn spec_json_compact(value: JsonModel) -> Seq<char>;

/// Parses JSON text with `serde_json::from_str`. Its result is named by
/// `spec_parse_json`; the one fact stated beside it is that the keys of every
/// object come out strictly increasing, since `serde_json` (without its
/// `preserve_order` feature) keeps an object's entries in a `BTreeMap`.
#[verifier::external_body]
pub fn parse_json(text: &str) -> (r: Result<Json, String>)
    ensures
        match r {
            Ok(j) => spec_parse_json(text@) == Ok::<JsonModel, Seq<char>>(j@) && j@.wf(),
            Err(e) => spec_parse_json(text@) == Err::<JsonModel, Seq<char>>(e@),
        },
{
    match serde_json::from_str::<serde_json::Value>(text) {
        Ok(value) => Ok(json_from_serde(&value)),
        Err(error) => Err(error.to_string()),
    }
}

/// Writes `json` with `serde_json::to_string_pretty`; its result is named by
/// `spec_json_pretty`. Writing a `serde_json::Value` cannot fail.
#[verifier::external_body]
pub fn json_pretty(json: &Json) -> (r: String)
    ensures
        r@ == spec_json_pretty(json@),
{
    serde_json::to_string_pretty(&json_to_serde(json)).unwrap_or_default()
}

/// Writes `json` with `serde_json::to_string`; its result is named by
/// `spec_json_compact`. Writing a `serde_json::Value` cannot fail.
#[verifier::external_body]
pub fn json_compact(json: &Json) -> (r: String)
    ensures
        r@ == spec_json_compact(json@),
{
    serde_json::to_string(&json_to_serde(json)).unwrap_or_default()
}

} // verus!
