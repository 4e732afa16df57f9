//! The internal shape of an incoming HTTP request: query parameters,
//! headers and a JSON body.

use vstd::prelude::*;
use crate::json::{json_pairs_view, JsonSpec, JsonValue};
use crate::text::env_view;

verus! {

pub struct Request {
    pub params: Vec<(String, String)>,
    pub headers: Vec<(String, String)>,
    pub body: JsonValue,
}

/// A string map as a JSON object, in order.
pub open spec fn spec_str_obj(pairs: Seq<(Seq<char>, Seq<char>)>) -> JsonSpec {
    JsonSpec::Obj(pairs.map_values(|p: (Seq<char>, Seq<char>)| (p.0, JsonSpec::Str(p.1))))
}

/// The `incoming` global built from a request.
pub open spec fn spec_incoming(r: Request) -> JsonSpec {
    JsonSpec::Obj(
        seq![
            ("headers"@, spec_str_obj(env_view(r.headers@))),
            ("params"@, spec_str_obj(env_view(r.params@))),
            ("body"@, r.body@),
        ],
    )
}

/// A string map carried into a JSON object value.
fn obj_of_pairs(pairs: &Vec<(String, String)>) -> (r: JsonValue)
    ensures
        r@ == spec_str_obj(env_view(pairs@)),
{
    let n = pairs.len();
    let mut out: Vec<(String, JsonValue)> = Vec::new();
    let mut i: usize = 0;
    while i < n
        invariant
            n == pairs.len(),
            0 <= i <= n,
            out@.len() == i,
            forall|k: int|
                0 <= k < i ==> #[trigger] json_pairs_view(out@)[k] == (
                    pairs@[k].0@,
                    JsonSpec::Str(pairs@[k].1@),
                ),
        decreases n - i,
    {
        let k = crate::yaml::clone_string(&pairs[i].0);
        let v = crate::yaml::clone_string(&pairs[i].1);
        let ghost prev = out@;
        out.push((k, JsonValue::Str(v)));
        proof {
            assert forall|m: int| 0 <= m < i + 1 implies #[trigger] json_pairs_view(out@)[m] == (
                pairs@[m].0@,
                JsonSpec::Str(pairs@[m].1@),
            ) by {
                if m < i {
                    assert(json_pairs_view(prev)[m] == (pairs@[m].0@, JsonSpec::Str(pairs@[m].1@)));
                    assert(out@[m] == prev[m]);
                }
            }
        }
        i = i + 1;
    }
    proof {
        assert(json_pairs_view(out@) =~= env_view(pairs@).map_values(
            |p: (Seq<char>, Seq<char>)| (p.0, JsonSpec::Str(p.1)),
        ));
    }
    JsonValue::Obj(out)
}

impl Request {
    pub fn new(
        headers: Vec<(String, String)>,
        body: JsonValue,
        query: Vec<(String, String)>,
    ) -> (r: Self)
        ensures
            r.headers == headers,
            r.body == body,
            r.params == query,
    {
        Self { params: query, headers: headers, body: body }
    }

    /// The request reified as the JSON object bound to `incoming`.
    pub fn into_json(self) -> (r: JsonValue)
        ensures
            r@ == spec_incoming(self),
    {
        let headers = obj_of_pairs(&self.headers);
        let params = obj_of_pairs(&self.params);
        let mut out: Vec<(String, JsonValue)> = Vec::new();
        out.push(("headers".to_owned(), headers));
        out.push(("params".to_owned(), params));
        out.push(("body".to_owned(), self.body));
        let r = JsonValue::Obj(out);
        proof {
            assert(json_pairs_view(out@).len() == 3);
            assert(json_pairs_view(out@)[0] == ("headers"@, spec_str_obj(env_view(self.headers@))));
            assert(json_pairs_view(out@)[1] == ("params"@, spec_str_obj(env_view(self.params@))));
            assert(json_pairs_view(out@)[2] == ("body"@, self.body@));
            assert(json_pairs_view(out@) =~= seq![
                ("headers"@, spec_str_obj(env_view(self.headers@))),
                ("params"@, spec_str_obj(env_view(self.params@))),
                ("body"@, self.body@),
            ]);
            assert(r@ == spec_incoming(self));
        }
        r
    }
}

impl Default for Request {
    /// The empty request: no parameters, no headers, null body.
    fn default() -> (r: Self)
        ensures
            r.params@.len() == 0,
            r.headers@.len() == 0,
            r.body@ is Null,
    {
        Self { params: Vec::new(), headers: Vec::new(), body: JsonValue::Null }
    }
}

} // verus!
