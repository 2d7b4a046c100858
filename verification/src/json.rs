//! What the library reads of JSON texts, taken from `serde_json`.

use vstd::prelude::*;

use crate::errors::opt_view;
use crate::text::str_eq;

verus! {

/// The top-level members of a JSON text whose string values matter: for a text that
/// `serde_json` parses, the members of the top-level object in its iteration order, each
/// key with its value when that value is a JSON string (`None` for any other value); no
/// members when the top-level value is not an object. `None` when the text does not parse.
pub uninterp spec fn spec_json_top_strings(text: Seq<char>) -> Option<Seq<(Seq<char>, Option<Seq<char>>)>>;

/// The views of a list of members.
pub open spec fn members_view(v: Seq<(String, Option<String>)>) -> Seq<(Seq<char>, Option<Seq<char>>)> {
    v.map_values(|p: (String, Option<String>)| (p.0@, opt_view(p.1)))
}

/// `serde_json::from_str::<serde_json::Value>(text)`, keeping of the parsed value its
/// top-level members, each with its string value if it is a string.
/// Claimed: the result is the named reading of the text.
#[verifier::external_body]
pub(crate) fn json_top_strings(text: &str) -> (r: Option<Vec<(String, Option<String>)>>)
    ensures
        match r {
            Some(v) => spec_json_top_strings(text@) == Some(members_view(v@)),
            None => spec_json_top_strings(text@) is None,
        },
{
    match serde_json::from_str::<serde_json::Value>(text) {
        Ok(serde_json::Value::Object(map)) => Some(map.into_iter().map(|(k, v)| match v {
            serde_json::Value::String(s) => (k, Some(s)),
            _ => (k, None),
        }).collect()),
        Ok(_) => Some(Vec::new()),
        Err(_) => None,
    }
}

/// `value.get(key)` on an object's members: the first member named `key`, holding its
/// string value if it has one.
pub open spec fn member(m: Seq<(Seq<char>, Option<Seq<char>>)>, key: Seq<char>) -> Option<
    Option<Seq<char>>,
>
    decreases m.len(),
{
    if m.len() == 0 {
        None
    } else if m[0].0 == key {
        Some(m[0].1)
    } else {
        member(m.drop_first(), key)
    }
}

/// `Option::or`: the first of two lookups that found a member.
pub open spec fn or_member(a: Option<Option<Seq<char>>>, b: Option<Option<Seq<char>>>) -> Option<
    Option<Seq<char>>,
> {
    match a {
        Some(x) => Some(x),
        None => b,
    }
}

/// `and_then(Value::as_str)`: the string of a found member, if it is a string.
pub open spec fn as_str(a: Option<Option<Seq<char>>>) -> Option<Seq<char>> {
    match a {
        Some(Some(s)) => Some(s),
        _ => None,
    }
}

/// The member named `key`, as `member` says.
pub fn get_member(m: &Vec<(String, Option<String>)>, key: &str) -> (r: Option<Option<String>>)
    ensures
        match r {
            Some(x) => member(members_view(m@), key@) == Some(opt_view(x)),
            None => member(members_view(m@), key@) is None,
        },
{
    let ghost mv = members_view(m@);
    let mut i: usize = 0;
    assert(mv.skip(0) == mv);
    while i < m.len()
        invariant
            i <= m@.len(),
            mv == members_view(m@),
            member(mv, key@) == member(mv.skip(i as int), key@),
        decreases m.len() - i,
    {
        let ghost rest = mv.skip(i as int);
        assert(rest[0] == mv[i as int]);
        assert(rest.drop_first() == mv.skip(i + 1));
        if str_eq(m[i].0.as_str(), key) {
            let v = match &m[i].1 {
                Some(s) => Some(s.clone()),
                None => None,
            };
            return Some(v);
        }
        i = i + 1;
    }
    None
}

/// `get_member` followed by `as_str`.
pub fn get_str(m: &Vec<(String, Option<String>)>, key: &str) -> (r: Option<String>)
    ensures
        opt_view(r) == as_str(member(members_view(m@), key@)),
{
    match get_member(m, key) {
        Some(Some(s)) => Some(s),
        _ => None,
    }
}

} // verus!

verus! {

/// `serde_json::Value`, carried into the library only to be converted to `Json`.
#[verifier::external_type_specification]
#[verifier::external_body]
pub struct ExSerdeJsonValue(serde_json::Value);

/// What `serde_json` parses a text into, in the library's form: numbers as the text
/// `serde_json` writes for them, objects as their members in `serde_json`'s iteration
/// order. `None` when the text is not JSON.
pub uninterp spec fn spec_json_parse(text: Seq<char>) -> Option<JsonModel>;

/// The library form of a `serde_json::Value`, variant for variant: a number as the text
/// `serde_json` writes for it (`Display`), an object's members in its iteration order.
/// Nothing is claimed of it here; `json_parse` states what the two together give.
#[verifier::external_body]
fn json_of_value(v: serde_json::Value) -> Json {
    match v {
        serde_json::Value::Null => Json::Null,
        serde_json::Value::Bool(b) => Json::Bool(b),
        serde_json::Value::Number(n) => Json::Number(n.to_string()),
        serde_json::Value::String(s) => Json::Str(s),
        serde_json::Value::Array(items) => Json::Array(items.into_iter().map(json_of_value).collect()),
        serde_json::Value::Object(m) => Json::Object(m.into_iter().map(|(k, x)| (k, json_of_value(x))).collect()),
    }
}

/// `serde_json::from_str::<serde_json::Value>(text)`, converted to the library's form.
/// Claimed: a value exactly when the named parse has one, and then the value it names;
/// the parse error otherwise. The parse reads the text alone.
#[verifier::external_body]
pub(crate) fn json_parse(text: &str) -> (r: Result<Json, serde_json::Error>)
    ensures
        match r {
            Ok(j) => spec_json_parse(text@) == Some(model(j)),
            Err(_) => spec_json_parse(text@) is None,
        },
{
    serde_json::from_str::<serde_json::Value>(text).map(json_of_value)
}

/// A JSON value: numbers are kept as their text, objects as their members in order.
#[derive(Debug)]
pub enum Json {
    Null,
    Bool(bool),
    Number(String),
    Str(String),
    Array(Vec<Json>),
    Object(Vec<(String, Json)>),
}

/// What a JSON value holds, with texts as character sequences.
pub enum JsonModel {
    Null,
    Bool(bool),
    Number(Seq<char>),
    Str(Seq<char>),
    Array(Seq<JsonModel>),
    Object(Seq<(Seq<char>, JsonModel)>),
}

/// The model of a JSON value.
pub open spec fn model(j: Json) -> JsonModel
    decreases j,
{
    match j {
        Json::Null => JsonModel::Null,
        Json::Bool(b) => JsonModel::Bool(b),
        Json::Number(n) => JsonModel::Number(n@),
        Json::Str(s) => JsonModel::Str(s@),
        Json::Array(v) => JsonModel::Array(model_items(v@)),
        Json::Object(m) => JsonModel::Object(model_members(m@)),
    }
}

/// The models of the items of an array.
pub open spec fn model_items(s: Seq<Json>) -> Seq<JsonModel>
    decreases s,
{
    if s.len() == 0 {
        Seq::empty()
    } else {
        model_items(s.subrange(0, s.len() - 1)).push(model(s[s.len() - 1]))
    }
}

/// The models of the members of an object.
pub open spec fn model_members(s: Seq<(String, Json)>) -> Seq<(Seq<char>, JsonModel)>
    decreases s,
{
    if s.len() == 0 {
        Seq::empty()
    } else {
        model_members(s.subrange(0, s.len() - 1)).push((s[s.len() - 1].0@, model(s[s.len() - 1].1)))
    }
}

} // verus!

verus! {

/// Appending an item extends the models by the item's model.
pub proof fn lemma_model_items_push(s: Seq<Json>, x: Json)
    ensures
        model_items(s.push(x)) == model_items(s).push(model(x)),
{
    assert(s.push(x).subrange(0, s.len() as int) == s);
}

/// Appending a member extends the models by the member's model.
pub proof fn lemma_model_members_push(s: Seq<(String, Json)>, x: (String, Json))
    ensures
        model_members(s.push(x)) == model_members(s).push((x.0@, model(x.1))),
{
    assert(s.push(x).subrange(0, s.len() as int) == s);
}

impl Json {
    /// A copy of the value.
    pub fn deep_copy(&self) -> (r: Json)
        ensures
            model(r) == model(*self),
        decreases self,
    {
        match self {
            Json::Null => Json::Null,
            Json::Bool(b) => Json::Bool(*b),
            Json::Number(n) => Json::Number(n.clone()),
            Json::Str(s) => Json::Str(s.clone()),
            Json::Array(v) => {
                let mut r: Vec<Json> = Vec::new();
                assert(r@ == v@.take(0));
                for i in 0..v.len()
                    invariant
                        *self == Json::Array(*v),
                        model_items(r@) == model_items(v@.take(i as int)),
                {
                    proof {
                        assert(decreases_to!(*self => self->Array_0));
                        assert(decreases_to!(*v => v@[i as int]));
                    }
                    let x = v[i].deep_copy();
                    proof {
                        lemma_model_items_push(r@, x);
                        lemma_model_items_push(v@.take(i as int), v@[i as int]);
                        assert(v@.take(i + 1) == v@.take(i as int).push(v@[i as int]));
                    }
                    r.push(x);
                }
                assert(v@.take(v@.len() as int) == v@);
                Json::Array(r)
            },
            Json::Object(m) => {
                let mut r: Vec<(String, Json)> = Vec::new();
                assert(r@ == m@.take(0));
                for i in 0..m.len()
                    invariant
                        *self == Json::Object(*m),
                        model_members(r@) == model_members(m@.take(i as int)),
                {
                    proof {
                        assert(decreases_to!(*self => self->Object_0));
                        assert(decreases_to!(*m => m@[i as int]));
                        assert(decreases_to!(m@[i as int] => m@[i as int].1));
                    }
                    let x = (m[i].0.clone(), m[i].1.deep_copy());
                    proof {
                        lemma_model_members_push(r@, x);
                        lemma_model_members_push(m@.take(i as int), m@[i as int]);
                        assert(m@.take(i + 1) == m@.take(i as int).push(m@[i as int]));
                    }
                    r.push(x);
                }
                assert(m@.take(m@.len() as int) == m@);
                Json::Object(r)
            },
        }
    }
}

} // verus!

verus! {

/// The models of an object's members, member by member.
pub proof fn lemma_model_members_index(s: Seq<(String, Json)>)
    ensures
        model_members(s).len() == s.len(),
        forall|j: int|
            0 <= j < s.len() ==> #[trigger] model_members(s)[j] == (s[j].0@, model(s[j].1)),
    decreases s.len(),
{
    if s.len() > 0 {
        let t = s.subrange(0, s.len() - 1);
        lemma_model_members_index(t);
        assert forall|j: int| 0 <= j < s.len() implies #[trigger] model_members(s)[j] == (
            s[j].0@,
            model(s[j].1),
        ) by {
            if j < s.len() - 1 {
                assert(t[j] == s[j]);
            }
        }
    }
}

/// The position of the first member named `key`.
pub open spec fn key_index(m: Seq<(Seq<char>, JsonModel)>, key: Seq<char>) -> Option<int>
    decreases m.len(),
{
    if m.len() == 0 {
        None
    } else if m[0].0 == key {
        Some(0)
    } else {
        match key_index(m.drop_first(), key) {
            Some(i) => Some(i + 1),
            None => None,
        }
    }
}

pub proof fn lemma_key_index(m: Seq<(Seq<char>, JsonModel)>, key: Seq<char>, i: int)
    requires
        0 <= i <= m.len(),
        forall|j: int| 0 <= j < i ==> m[j].0 != key,
    ensures
        i == m.len() ==> key_index(m, key) is None,
        i < m.len() && m[i].0 == key ==> key_index(m, key) == Some(i),
    decreases i,
{
    if i > 0 {
        lemma_key_index(m.drop_first(), key, i - 1);
    }
}

pub proof fn lemma_key_index_props(m: Seq<(Seq<char>, JsonModel)>, key: Seq<char>)
    ensures
        key_index(m, key) matches Some(i) ==> 0 <= i < m.len() && m[i].0 == key,
    decreases m.len(),
{
    if m.len() > 0 {
        lemma_key_index_props(m.drop_first(), key);
    }
}

/// `Map::get` on an object's members: the value of the first member named `key`.
pub open spec fn obj_get(m: Seq<(Seq<char>, JsonModel)>, key: Seq<char>) -> Option<JsonModel> {
    match key_index(m, key) {
        Some(i) => Some(m[i].1),
        None => None,
    }
}

/// `Map::insert` on an object's members: the first member named `key` takes the value,
/// or a member is added at the end.
pub open spec fn obj_insert(m: Seq<(Seq<char>, JsonModel)>, key: Seq<char>, value: JsonModel) -> Seq<
    (Seq<char>, JsonModel),
> {
    match key_index(m, key) {
        Some(i) => m.update(i, (key, value)),
        None => m.push((key, value)),
    }
}

/// The position of the first member named `key`.
pub fn find_member(m: &Vec<(String, Json)>, key: &str) -> (r: Option<usize>)
    ensures
        match r {
            Some(i) => i < m@.len() && key_index(model_members(m@), key@) == Some(i as int),
            None => key_index(model_members(m@), key@) is None,
        },
{
    proof {
        lemma_model_members_index(m@);
    }
    for i in 0..m.len()
        invariant
            model_members(m@).len() == m@.len(),
            forall|j: int|
                0 <= j < m@.len() ==> #[trigger] model_members(m@)[j] == (m@[j].0@, model(m@[j].1)),
            forall|j: int| 0 <= j < i ==> model_members(m@)[j].0 != key@,
    {
        if str_eq(m[i].0.as_str(), key) {
            proof {
                lemma_key_index(model_members(m@), key@, i as int);
            }
            return Some(i);
        }
    }
    proof {
        lemma_key_index(model_members(m@), key@, m@.len() as int);
    }
    None
}

/// A response body with the envelope removed: the `data` member of an object body; when
/// that member is an object, it gains `request_id` from the body's `request.id` unless
/// it has one. Any other body is kept.
pub open spec fn spec_unwrap_envelope(v: JsonModel) -> JsonModel {
    match v {
        JsonModel::Object(o) => match obj_get(o, "data"@) {
            Some(JsonModel::Object(d)) => JsonModel::Object(
                match obj_get(o, "request"@) {
                    Some(JsonModel::Object(req)) => match obj_get(req, "id"@) {
                        Some(id) => if obj_get(d, "request_id"@) is Some {
                            d
                        } else {
                            obj_insert(d, "request_id"@, id)
                        },
                        None => d,
                    },
                    _ => d,
                },
            ),
            Some(data) => data,
            None => v,
        },
        _ => v,
    }
}

/// The request id to add to an unwrapped `data` object, if any.
fn request_id_of(o: &Vec<(String, Json)>) -> (r: Option<Json>)
    ensures
        match r {
            Some(id) => obj_get(model_members(o@), "request"@) matches Some(JsonModel::Object(req))
                && obj_get(req, "id"@) == Some(model(id)),
            None => !(obj_get(model_members(o@), "request"@) matches Some(JsonModel::Object(req))
                && obj_get(req, "id"@) is Some),
        },
{
    proof {
        lemma_model_members_index(o@);
    }
    match find_member(o, "request") {
        Some(ri) => match &o[ri].1 {
            Json::Object(req) => {
                proof {
                    lemma_model_members_index(req@);
                }
                match find_member(req, "id") {
                    Some(ii) => Some(req[ii].1.deep_copy()),
                    None => None,
                }
            },
            _ => None,
        },
        None => None,
    }
}

/// Removes the response envelope.
pub fn unwrap_envelope(value: Json) -> (r: Json)
    ensures
        model(r) == spec_unwrap_envelope(model(value)),
{
    let ghost v = model(value);
    match &value {
        Json::Object(o) => {
            proof {
                lemma_model_members_index(o@);
            }
            match find_member(o, "data") {
                Some(di) => {
                    let data = o[di].1.deep_copy();
                    match data {
                        Json::Object(mut d) => {
                            let ghost dm = model_members(d@);
                            let id = request_id_of(o);
                            match id {
                                Some(id) => {
                                    match find_member(&d, "request_id") {
                                        Some(_) => {},
                                        None => {
                                            let ghost before = d@;
                                            let key = String::from_str("request_id");
                                            d.push((key, id));
                                            proof {
                                                lemma_model_members_push(before, d@.last());
                                                assert(before.push(d@.last()) == d@);
                                            }
                                            assert(model_members(d@) == obj_insert(dm, "request_id"@, model(id)));
                                        },
                                    }
                                },
                                None => {},
                            }
                            Json::Object(d)
                        },
                        other => other,
                    }
                },
                None => value,
            }
        },
        _ => value,
    }
}

/// `payload["stream"] = true` on an object payload; any other payload is kept.
pub open spec fn spec_with_stream_flag(v: JsonModel) -> JsonModel {
    match v {
        JsonModel::Object(o) => JsonModel::Object(obj_insert(o, "stream"@, JsonModel::Bool(true))),
        _ => v,
    }
}

/// Marks an object payload as a streaming request.
pub fn with_stream_flag(payload: Json) -> (r: Json)
    ensures
        model(r) == spec_with_stream_flag(model(payload)),
{
    match payload {
        Json::Object(mut o) => {
            let ghost before = o@;
            proof {
                lemma_model_members_index(o@);
            }
            match find_member(&o, "stream") {
                Some(i) => {
                    proof {
                        lemma_key_index_props(model_members(before), "stream"@);
                    }
                    let key = o[i].0.clone();
                    o.set(i, (key, Json::Bool(true)));
                    proof {
                        lemma_model_members_index(o@);
                        assert(model_members(o@) =~= model_members(before).update(
                            i as int,
                            ("stream"@, JsonModel::Bool(true)),
                        ));
                    }
                },
                None => {
                    let key = String::from_str("stream");
                    o.push((key, Json::Bool(true)));
                    proof {
                        lemma_model_members_push(before, o@.last());
                        assert(before.push(o@.last()) == o@);
                    }
                },
            }
            Json::Object(o)
        },
        other => other,
    }
}

} // verus!
