//! The JSON value model used by the evaluation context and the rendered
//! responses. Numbers are modelled as signed 64-bit integers; a JSON number
//! outside that range becomes null when it crosses the boundary.

use vstd::prelude::*;
use serde_json::Value as OutsideJson;

verus! {

#[derive(PartialEq, Eq, Debug)]
pub enum JsonValue {
    Null,
    Bool(bool),
    Int(i64),
    Str(String),
    Arr(Vec<JsonValue>),
    Obj(Vec<(String, JsonValue)>),
}

/// The mathematical shape of a JSON value.
#[verifier::ext_equal]
pub enum JsonSpec {
    Null,
    Bool(bool),
    Int(int),
    Str(Seq<char>),
    Arr(Seq<JsonSpec>),
    Obj(Seq<(Seq<char>, JsonSpec)>),
}

pub open spec fn json_view(v: JsonValue) -> JsonSpec
    decreases v,
{
    match v {
        JsonValue::Null => JsonSpec::Null,
        JsonValue::Bool(b) => JsonSpec::Bool(b),
        JsonValue::Int(i) => JsonSpec::Int(i as int),
        JsonValue::Str(s) => JsonSpec::Str(s@),
        JsonValue::Arr(items) => JsonSpec::Arr(json_seq_view(items@)),
        JsonValue::Obj(pairs) => JsonSpec::Obj(json_pairs_view(pairs@)),
    }
}

pub open spec fn json_seq_view(items: Seq<JsonValue>) -> Seq<JsonSpec>
    decreases items,
{
    Seq::new(items.len(), |i: int| if 0 <= i < items.len() {
        json_view(items[i])
    } else {
        JsonSpec::Null
    })
}

pub open spec fn json_pairs_view(pairs: Seq<(String, JsonValue)>) -> Seq<(Seq<char>, JsonSpec)>
    decreases pairs,
{
    Seq::new(pairs.len(), |i: int| if 0 <= i < pairs.len() {
        (pairs[i].0@, json_view(pairs[i].1))
    } else {
        (Seq::empty(), JsonSpec::Null)
    })
}

impl View for JsonValue {
    type V = JsonSpec;

    open spec fn view(&self) -> JsonSpec {
        json_view(*self)
    }
}

/// First value bound to `key` in an object.
pub open spec fn spec_json_lookup(
    pairs: Seq<(Seq<char>, JsonSpec)>,
    key: Seq<char>,
) -> Option<JsonSpec>
    decreases pairs.len(),
{
    if pairs.len() == 0 {
        None
    } else if pairs[0].0 == key {
        Some(pairs[0].1)
    } else {
        spec_json_lookup(pairs.drop_first(), key)
    }
}

pub open spec fn spec_json_get(v: JsonSpec, key: Seq<char>) -> Option<JsonSpec> {
    match v {
        JsonSpec::Obj(pairs) => spec_json_lookup(pairs, key),
        _ => None,
    }
}

impl JsonValue {
    /// Looks a key up in an object; `None` on every other variant.
    pub fn get<'a>(&'a self, key: &str) -> (r: Option<&'a JsonValue>)
        ensures
            match r {
                Some(v) => spec_json_get(self@, key@) == Some(v@),
                None => spec_json_get(self@, key@) is None,
            },
    {
        match self {
            JsonValue::Obj(pairs) => {
                let ghost pv = json_pairs_view(pairs@);
                proof {
                    assert(pv.skip(0) =~= pv);
                }
                let n = pairs.len();
                let mut i: usize = 0;
                while i < n
                    invariant
                        n == pairs.len(),
                        pv == json_pairs_view(pairs@),
                        self@ == JsonSpec::Obj(pv),
                        0 <= i <= n,
                        spec_json_lookup(pv, key@) == spec_json_lookup(pv.skip(i as int), key@),
                    decreases n - i,
                {
                    proof {
                        assert(pv.skip(i as int)[0] == pv[i as int]);
                        assert(pv.skip(i as int).drop_first() =~= pv.skip(i as int + 1));
                    }
                    if crate::text::str_eq(pairs[i].0.as_str(), key) {
                        return Some(&pairs[i].1);
                    }
                    i = i + 1;
                }
                proof {
                    assert(pv.skip(n as int).len() == 0);
                }
                None
            },
            _ => None,
        }
    }

    pub fn is_null(&self) -> (r: bool)
        ensures
            r == (self@ is Null),
    {
        matches!(self, JsonValue::Null)
    }

    pub fn as_str<'a>(&'a self) -> (r: Option<&'a str>)
        ensures
            match r {
                Some(s) => self@ == JsonSpec::Str(s@),
                None => !(self@ is Str),
            },
    {
        match self {
            JsonValue::Str(s) => Some(s.as_str()),
            _ => None,
        }
    }

    pub fn as_bool(&self) -> (r: Option<bool>)
        ensures
            match r {
                Some(b) => self@ == JsonSpec::Bool(b),
                None => !(self@ is Bool),
            },
    {
        match self {
            JsonValue::Bool(b) => Some(*b),
            _ => None,
        }
    }

    pub fn as_i64(&self) -> (r: Option<i64>)
        ensures
            match r {
                Some(i) => self@ == JsonSpec::Int(i as int),
                None => !(self@ is Int),
            },
    {
        match self {
            JsonValue::Int(i) => Some(*i),
            _ => None,
        }
    }

    /// Structure-preserving deep clone.
    pub fn deep_copy(&self) -> (r: Self)
        ensures
            r@ == self@,
        decreases self,
    {
        match self {
            JsonValue::Null => JsonValue::Null,
            JsonValue::Bool(b) => JsonValue::Bool(*b),
            JsonValue::Int(i) => JsonValue::Int(*i),
            JsonValue::Str(s) => JsonValue::Str(crate::yaml::clone_string(s)),
            JsonValue::Arr(items) => {
                let mut out: Vec<JsonValue> = Vec::new();
                let n = items.len();
                let mut i: usize = 0;
                while i < n
                    invariant
                        n == items.len(),
                        *self == JsonValue::Arr(*items),
                        0 <= i <= n,
                        out@.len() == i,
                        forall|k: int|
                            0 <= k < i ==> #[trigger] json_seq_view(out@)[k] == json_seq_view(
                                items@,
                            )[k],
                    decreases n - i,
                {
                    proof {
                        assert(decreases_to!(*self => self->Arr_0));
                        assert(decreases_to!(self->Arr_0 => self->Arr_0@));
                        assert(decreases_to!(self->Arr_0@ => self->Arr_0@[i as int]));
                    }
                    let ghost prev = out@;
                    out.push(items[i].deep_copy());
                    proof {
                        assert forall|k: int| 0 <= k < i + 1 implies #[trigger] json_seq_view(
                            out@,
                        )[k] == json_seq_view(items@)[k] by {
                            if k < i {
                                assert(json_seq_view(prev)[k] == json_seq_view(items@)[k]);
                                assert(out@[k] == prev[k]);
                            }
                        }
                    }
                    i = i + 1;
                }
                proof {
                    assert(json_seq_view(out@) =~= json_seq_view(items@));
                }
                JsonValue::Arr(out)
            },
            JsonValue::Obj(pairs) => {
                let mut out: Vec<(String, JsonValue)> = Vec::new();
                let n = pairs.len();
                let mut i: usize = 0;
                while i < n
                    invariant
                        n == pairs.len(),
                        *self == JsonValue::Obj(*pairs),
                        0 <= i <= n,
                        out@.len() == i,
                        forall|k: int|
                            0 <= k < i ==> #[trigger] json_pairs_view(out@)[k] == json_pairs_view(
                                pairs@,
                            )[k],
                    decreases n - i,
                {
                    proof {
                        assert(decreases_to!(*self => self->Obj_0));
                        assert(decreases_to!(self->Obj_0 => self->Obj_0@));
                        assert(decreases_to!(self->Obj_0@ => self->Obj_0@[i as int]));
                        assert(decreases_to!(self->Obj_0@[i as int] => self->Obj_0@[i as int].1));
                    }
                    let k = crate::yaml::clone_string(&pairs[i].0);
                    let v = pairs[i].1.deep_copy();
                    let ghost prev = out@;
                    out.push((k, v));
                    proof {
                        assert forall|m: int| 0 <= m < i + 1 implies #[trigger] json_pairs_view(
                            out@,
                        )[m] == json_pairs_view(pairs@)[m] by {
                            if m < i {
                                assert(json_pairs_view(prev)[m] == json_pairs_view(pairs@)[m]);
                                assert(out@[m] == prev[m]);
                            }
                        }
                    }
                    i = i + 1;
                }
                proof {
                    assert(json_pairs_view(out@) =~= json_pairs_view(pairs@));
                }
                JsonValue::Obj(out)
            },
        }
    }
}

/// Declares `serde_json::Value` so the conversion wrappers below can
/// mention it.
#[verifier::external_type_specification]
#[verifier::external_body]
pub struct ExSerdeJsonValue(serde_json::Value);

/// Carries an outside JSON value into the model. Numbers outside the signed
/// 64-bit range become null.
#[verifier::external_body]
pub(crate) fn json_of_outside(v: serde_json::Value) -> JsonValue {
    match v {
        OutsideJson::Null => JsonValue::Null,
        OutsideJson::Bool(b) => JsonValue::Bool(b),
        OutsideJson::Number(n) => n.as_i64().map(JsonValue::Int).unwrap_or(JsonValue::Null),
        OutsideJson::String(s) => JsonValue::Str(s),
        OutsideJson::Array(a) => JsonValue::Arr(a.into_iter().map(json_of_outside).collect()),
        OutsideJson::Object(m) => JsonValue::Obj(
            m.into_iter().map(|(k, w)| (k, json_of_outside(w))).collect(),
        ),
    }
}

/// Carries a value of the model out to the outside JSON type.
#[verifier::external_body]
pub(crate) fn json_to_outside(v: &JsonValue) -> serde_json::Value {
    match v {
        JsonValue::Null => OutsideJson::Null,
        JsonValue::Bool(b) => OutsideJson::Bool(*b),
        JsonValue::Int(i) => OutsideJson::Number((*i).into()),
        JsonValue::Str(s) => OutsideJson::String(s.clone()),
        JsonValue::Arr(items) => OutsideJson::Array(items.iter().map(json_to_outside).collect()),
        JsonValue::Obj(pairs) => OutsideJson::Object(
            pairs.iter().map(|(k, w)| (k.clone(), json_to_outside(w))).collect(),
        ),
    }
}

/// The JSON text a value serializes to, as a function of the value alone.
pub uninterp spec fn json_text_of(v: JsonSpec) -> Seq<char>;

/// Relies on `serde_json::Value::to_string`: compact JSON text of a value,
/// depending on the value alone.
#[verifier::external_body]
pub fn json_to_string(v: &JsonValue) -> (r: String)
    ensures
        r@ == json_text_of(v@),
{
    json_to_outside(v).to_string()
}

/// What parsing JSON text yields, as a function of the text alone.
pub uninterp spec fn json_parse_of(s: Seq<char>) -> Option<JsonSpec>;

/// Relies on `serde_json::from_str`: parses JSON text; the outcome depends
/// on the text alone.
#[verifier::external_body]
pub fn json_parse(s: &str) -> (r: Option<JsonValue>)
    ensures
        match r {
            Some(v) => json_parse_of(s@) == Some(v@),
            None => json_parse_of(s@) is None,
        },
{
    serde_json::from_str::<serde_json::Value>(s).ok().map(json_of_outside)
}

} // verus!
