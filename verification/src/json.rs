//! JSON values as plain data, parsed by `serde_json`.

use vstd::prelude::*;

use crate::text::chars_eq;
use crate::text::chars_of;

verus! {

/// A JSON document tree. Object entries keep the order in which `serde_json`
/// hands them out; keys are unique.
#[derive(Debug, PartialEq)]
pub enum JsonValue {
    Null,
    Bool(bool),
    /// A number, kept in the textual form `serde_json` prints for it.
    Number(String),
    Str(String),
    Array(Vec<JsonValue>),
    Object(Vec<(String, JsonValue)>),
}

/// The mathematical view of a [`JsonValue`].
pub enum JsonView {
    Null,
    Bool(bool),
    Number(Seq<char>),
    Str(Seq<char>),
    Array(Seq<JsonView>),
    Object(Seq<(Seq<char>, JsonView)>),
}

/// The view of a JSON value.
pub open spec fn json_view(v: JsonValue) -> JsonView
    decreases v, 0int,
{
    match v {
        JsonValue::Null => JsonView::Null,
        JsonValue::Bool(b) => JsonView::Bool(b),
        JsonValue::Number(n) => JsonView::Number(n@),
        JsonValue::Str(s) => JsonView::Str(s@),
        JsonValue::Array(items) => JsonView::Array(json_views(items@)),
        JsonValue::Object(entries) => JsonView::Object(entry_views(entries@)),
    }
}

/// The views of a sequence of JSON values.
pub open spec fn json_views(items: Seq<JsonValue>) -> Seq<JsonView>
    decreases items, items.len(),
{
    if items.len() == 0 {
        Seq::empty()
    } else {
        seq![json_view(items[0])] + json_views(items.drop_first())
    }
}

/// The views of a sequence of object entries.
pub open spec fn entry_views(entries: Seq<(String, JsonValue)>) -> Seq<(Seq<char>, JsonView)>
    decreases entries, entries.len(),
{
    if entries.len() == 0 {
        Seq::empty()
    } else {
        seq![(entries[0].0@, json_view(entries[0].1))] + entry_views(entries.drop_first())
    }
}

impl View for JsonValue {
    type V = JsonView;

    open spec fn view(&self) -> JsonView {
        json_view(*self)
    }
}

/// What `serde_json::from_str::<serde_json::Value>` gives for a text: the
/// document, or the error message it reports.
pub uninterp spec fn serde_json_parse(text: Seq<char>) -> Result<JsonView, Seq<char>>;

#[verifier::external_type_specification]
#[verifier::external_body]
pub struct ExSerdeJsonValue(serde_json::Value);

#[verifier::external_body]
fn json_from_serde(v: serde_json::Value) -> JsonValue {
    match v {
        serde_json::Value::Null => JsonValue::Null,
        serde_json::Value::Bool(b) => JsonValue::Bool(b),
        serde_json::Value::Number(n) => JsonValue::Number(n.to_string()),
        serde_json::Value::String(s) => JsonValue::Str(s),
        serde_json::Value::Array(a) => JsonValue::Array(a.into_iter().map(json_from_serde).collect()),
        serde_json::Value::Object(o) => JsonValue::Object(
            o.into_iter().map(|(k, x)| (k, json_from_serde(x))).collect(),
        ),
    }
}

/// Parses `text` with `serde_json::from_str` into a generic JSON value. The
/// contract only names the outcome (`serde_json_parse`): the document on
/// success, the error's message on failure.
#[verifier::external_body]
pub(crate) fn parse_json(text: &str) -> (r: Result<JsonValue, String>)
    ensures
        match r {
            Ok(v) => serde_json_parse(text@) == Ok::<JsonView, Seq<char>>(v@),
            Err(e) => serde_json_parse(text@) == Err::<JsonView, Seq<char>>(e@),
        },
{
    match serde_json::from_str::<serde_json::Value>(text) {
        Ok(v) => Ok(json_from_serde(v)),
        Err(e) => Err(e.to_string()),
    }
}

/// The value under `key` in a list of object entries.
pub open spec fn lookup(entries: Seq<(Seq<char>, JsonView)>, key: Seq<char>) -> Option<JsonView>
    decreases entries.len(),
{
    if entries.len() == 0 {
        None
    } else if entries[0].0 == key {
        Some(entries[0].1)
    } else {
        lookup(entries.drop_first(), key)
    }
}

/// `Value::get(key)`: the member `key` of an object, `None` for other values.
pub open spec fn json_get(v: JsonView, key: Seq<char>) -> Option<JsonView> {
    match v {
        JsonView::Object(entries) => lookup(entries, key),
        _ => None,
    }
}

/// `Value::as_str`.
pub open spec fn json_str(v: Option<JsonView>) -> Option<Seq<char>> {
    match v {
        Some(JsonView::Str(s)) => Some(s),
        _ => None,
    }
}

/// `Value::as_bool`.
pub open spec fn json_bool(v: Option<JsonView>) -> Option<bool> {
    match v {
        Some(JsonView::Bool(b)) => Some(b),
        _ => None,
    }
}

/// Follows a path of object keys (`Value::pointer` with `/k1/k2/..`).
pub open spec fn json_path(v: JsonView, path: Seq<Seq<char>>) -> Option<JsonView>
    decreases path.len(),
{
    if path.len() == 0 {
        Some(v)
    } else {
        match json_get(v, path[0]) {
            Some(inner) => json_path(inner, path.drop_first()),
            None => None,
        }
    }
}

pub open spec fn opt_view(r: Option<&JsonValue>) -> Option<JsonView> {
    match r {
        Some(x) => Some(x@),
        None => None,
    }
}

pub proof fn lemma_entry_views(entries: Seq<(String, JsonValue)>)
    ensures
        entry_views(entries).len() == entries.len(),
        forall|i: int|
            0 <= i < entries.len() ==> #[trigger] entry_views(entries)[i] == (
                entries[i].0@,
                json_view(entries[i].1),
            ),
    decreases entries.len(),
{
    if entries.len() > 0 {
        lemma_entry_views(entries.drop_first());
        assert forall|i: int| 0 <= i < entries.len() implies #[trigger] entry_views(entries)[i] == (
            entries[i].0@,
            json_view(entries[i].1),
        ) by {
            if i > 0 {
                assert(entries.drop_first()[i - 1] == entries[i]);
            }
        }
    }
}

pub proof fn lemma_json_views(items: Seq<JsonValue>)
    ensures
        json_views(items).len() == items.len(),
        forall|i: int| 0 <= i < items.len() ==> #[trigger] json_views(items)[i] == json_view(items[i]),
    decreases items.len(),
{
    if items.len() > 0 {
        lemma_json_views(items.drop_first());
        assert forall|i: int| 0 <= i < items.len() implies #[trigger] json_views(items)[i]
            == json_view(items[i]) by {
            if i > 0 {
                assert(items.drop_first()[i - 1] == items[i]);
            }
        }
    }
}

impl JsonValue {
    /// `Value::get(key)`.
    pub fn get(&self, key: &str) -> (r: Option<&JsonValue>)
        ensures
            opt_view(r) == json_get(self@, key@),
    {
        match self {
            JsonValue::Object(entries) => {
                let k = chars_of(key);
                let ghost es = match self@ {
                    JsonView::Object(es) => es,
                    _ => Seq::empty(),
                };
                proof {
                    lemma_entry_views(entries@);
                    assert(es.subrange(0, es.len() as int) =~= es);
                    assert(self@ == JsonView::Object(es));
                }
                let mut i: usize = 0;
                while i < entries.len()
                    invariant
                        i <= entries@.len() == es.len(),
                        k@ == key@,
                        self@ == JsonView::Object(es),
                        forall|j: int| 0 <= j < es.len() ==> es[j] == (entries@[j].0@, entries@[j].1@),
                        lookup(es, key@) == lookup(es.subrange(i as int, es.len() as int), key@),
                    decreases entries.len() - i,
                {
                    let ek = chars_of(entries[i].0.as_str());
                    assert(es.subrange(i as int, es.len() as int).drop_first() =~= es.subrange(
                        i + 1,
                        es.len() as int,
                    ));
                    assert(es.subrange(i as int, es.len() as int)[0] == es[i as int]);
                    if chars_eq(&ek, &k) {
                        assert(es[i as int].0 == key@);
                        assert(lookup(es, key@) == Some(es[i as int].1));
                        assert(es[i as int].1 == entries@[i as int].1@);
                        let r = Some(&entries[i].1);
                        assert(opt_view(r) == Some(entries@[i as int].1@));
                        return r;
                    }
                    i = i + 1;
                }
                None
            },
            _ => None,
        }
    }

    /// `Value::as_str`.
    pub fn as_str(&self) -> (r: Option<&str>)
        ensures
            match r {
                Some(s) => json_str(Some(self@)) == Some(s@),
                None => json_str(Some(self@)) is None,
            },
    {
        match self {
            JsonValue::Str(s) => Some(s.as_str()),
            _ => None,
        }
    }

    /// `Value::as_bool`.
    pub fn as_bool(&self) -> (r: Option<bool>)
        ensures
            r == json_bool(Some(self@)),
    {
        match self {
            JsonValue::Bool(b) => Some(*b),
            _ => None,
        }
    }

    /// The string under `key`, if there is one.
    pub fn get_str(&self, key: &str) -> (r: Option<&str>)
        ensures
            match r {
                Some(s) => json_str(json_get(self@, key@)) == Some(s@),
                None => json_str(json_get(self@, key@)) is None,
            },
    {
        match self.get(key) {
            Some(v) => v.as_str(),
            None => None,
        }
    }
}


/// The path of keys as character sequences.
pub open spec fn key_views(keys: Seq<&str>) -> Seq<Seq<char>> {
    keys.map_values(|k: &str| k@)
}

/// `Value::as_array`.
pub open spec fn json_array(v: Option<JsonView>) -> Option<Seq<JsonView>> {
    match v {
        Some(JsonView::Array(items)) => Some(items),
        _ => None,
    }
}

impl JsonValue {
    /// `Value::pointer` with a path of object keys.
    pub fn pointer(&self, keys: &[&str]) -> (r: Option<&JsonValue>)
        ensures
            opt_view(r) == json_path(self@, key_views(keys@)),
    {
        let mut cur: &JsonValue = self;
        let mut i: usize = 0;
        assert(key_views(keys@).skip(0) =~= key_views(keys@));
        while i < keys.len()
            invariant
                i <= keys@.len(),
                json_path(self@, key_views(keys@)) == json_path(cur@, key_views(keys@).skip(i as int)),
            decreases keys.len() - i,
        {
            assert(key_views(keys@).skip(i as int).drop_first() =~= key_views(keys@).skip(i + 1));
            assert(key_views(keys@).skip(i as int)[0] == keys@[i as int]@);
            match cur.get(keys[i]) {
                Some(next) => {
                    cur = next;
                },
                None => {
                    return None;
                },
            }
            i = i + 1;
        }
        assert(key_views(keys@).skip(i as int).len() == 0);
        Some(cur)
    }

    /// `Value::as_array`.
    pub fn as_array(&self) -> (r: Option<&Vec<JsonValue>>)
        ensures
            match r {
                Some(items) => json_array(Some(self@)) == Some(json_views(items@)),
                None => json_array(Some(self@)) is None,
            },
    {
        match self {
            JsonValue::Array(items) => Some(items),
            _ => None,
        }
    }
}

} // verus!
