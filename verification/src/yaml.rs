//! The YAML value model: an order-preserving tree of nulls, booleans,
//! integers, strings, sequences, mappings and tagged values.
//!
//! Mappings keep their entries in declaration order, which the task graph
//! depends on. Numbers are modelled as signed 64-bit integers; a parsed
//! number outside that range is treated as null, as rendering would do.

use vstd::prelude::*;
use serde_yaml_ng::value::{Tag, TaggedValue};
use serde_yaml_ng::Value as OutsideYaml;

verus! {

#[derive(PartialEq, Eq, Debug)]
pub enum YamlValue {
    Null,
    Bool(bool),
    Int(i64),
    Str(String),
    Sequence(Vec<YamlValue>),
    Mapping(Vec<(YamlValue, YamlValue)>),
    Tagged(String, Box<YamlValue>),
}

/// The mathematical shape of a YAML value, over `Seq` and `int`.
#[verifier::ext_equal]
pub enum YamlSpec {
    Null,
    Bool(bool),
    Int(int),
    Str(Seq<char>),
    Sequence(Seq<YamlSpec>),
    Mapping(Seq<(YamlSpec, YamlSpec)>),
    Tagged(Seq<char>, Box<YamlSpec>),
}

pub open spec fn yaml_view(v: YamlValue) -> YamlSpec
    decreases v,
{
    match v {
        YamlValue::Null => YamlSpec::Null,
        YamlValue::Bool(b) => YamlSpec::Bool(b),
        YamlValue::Int(i) => YamlSpec::Int(i as int),
        YamlValue::Str(s) => YamlSpec::Str(s@),
        YamlValue::Sequence(items) => YamlSpec::Sequence(yaml_seq_view(items@)),
        YamlValue::Mapping(pairs) => YamlSpec::Mapping(yaml_pairs_view(pairs@)),
        YamlValue::Tagged(tag, inner) => YamlSpec::Tagged(tag@, Box::new(yaml_view(*inner))),
    }
}

pub open spec fn yaml_seq_view(items: Seq<YamlValue>) -> Seq<YamlSpec>
    decreases items,
{
    Seq::new(items.len(), |i: int| if 0 <= i < items.len() {
        yaml_view(items[i])
    } else {
        YamlSpec::Null
    })
}

pub open spec fn yaml_pairs_view(pairs: Seq<(YamlValue, YamlValue)>) -> Seq<(YamlSpec, YamlSpec)>
    decreases pairs,
{
    Seq::new(pairs.len(), |i: int| if 0 <= i < pairs.len() {
        (yaml_view(pairs[i].0), yaml_view(pairs[i].1))
    } else {
        (YamlSpec::Null, YamlSpec::Null)
    })
}

impl View for YamlValue {
    type V = YamlSpec;

    open spec fn view(&self) -> YamlSpec {
        yaml_view(*self)
    }
}

/// First value bound to the string key `key` among `pairs`.
pub open spec fn spec_lookup_pairs(
    pairs: Seq<(YamlSpec, YamlSpec)>,
    key: Seq<char>,
) -> Option<YamlSpec>
    decreases pairs.len(),
{
    if pairs.len() == 0 {
        None
    } else if pairs[0].0 matches YamlSpec::Str(s) && s == key {
        Some(pairs[0].1)
    } else {
        spec_lookup_pairs(pairs.drop_first(), key)
    }
}

/// Value of `key` when `v` is a mapping holding it, as `get` reads it.
pub open spec fn spec_get(v: YamlSpec, key: Seq<char>) -> Option<YamlSpec> {
    match v {
        YamlSpec::Mapping(pairs) => spec_lookup_pairs(pairs, key),
        _ => None,
    }
}

impl YamlValue {
    /// Looks a string key up in a mapping; `None` on every other variant.
    pub fn get<'a>(&'a self, key: &str) -> (r: Option<&'a YamlValue>)
        ensures
            match r {
                Some(v) => spec_get(self@, key@) == Some(v@),
                None => spec_get(self@, key@) is None,
            },
    {
        match self {
            YamlValue::Mapping(pairs) => {
                let ghost pv = yaml_pairs_view(pairs@);
                proof {
                    assert(pv.skip(0) =~= pv);
                }
                let n = pairs.len();
                let mut i: usize = 0;
                while i < n
                    invariant
                        n == pairs.len(),
                        pv == yaml_pairs_view(pairs@),
                        self@ == YamlSpec::Mapping(pv),
                        0 <= i <= n,
                        spec_lookup_pairs(pv, key@) == spec_lookup_pairs(pv.skip(i as int), key@),
                    decreases n - i,
                {
                    proof {
                        assert(pv.skip(i as int)[0] == pv[i as int]);
                        assert(pv.skip(i as int).drop_first() =~= pv.skip(i as int + 1));
                    }
                    match &pairs[i].0 {
                        YamlValue::Str(s) => {
                            if crate::text::str_eq(s.as_str(), key) {
                                proof {
                                    assert(pv[i as int].0 == YamlSpec::Str(s@));
                                }
                                return Some(&pairs[i].1);
                            }
                        },
                        _ => {},
                    }
                    i = i + 1;
                }
                proof {
                    assert(pv.skip(n as int).len() == 0);
                }
                None
            },
            _ => None,
        }
    }

    pub fn is_null(&self) -> (r: bool)
        ensures
            r == (self@ is Null),
    {
        matches!(self, YamlValue::Null)
    }

    pub fn is_mapping(&self) -> (r: bool)
        ensures
            r == (self@ is Mapping),
    {
        matches!(self, YamlValue::Mapping(_))
    }

    pub fn is_sequence(&self) -> (r: bool)
        ensures
            r == (self@ is Sequence),
    {
        matches!(self, YamlValue::Sequence(_))
    }

    pub fn as_str<'a>(&'a self) -> (r: Option<&'a str>)
        ensures
            match r {
                Some(s) => self@ == YamlSpec::Str(s@),
                None => !(self@ is Str),
            },
    {
        match self {
            YamlValue::Str(s) => Some(s.as_str()),
            _ => None,
        }
    }

    pub fn as_sequence<'a>(&'a self) -> (r: Option<&'a Vec<YamlValue>>)
        ensures
            match r {
                Some(v) => self@ == YamlSpec::Sequence(yaml_seq_view(v@)),
                None => !(self@ is Sequence),
            },
    {
        match self {
            YamlValue::Sequence(v) => Some(v),
            _ => None,
        }
    }

    pub fn as_u64(&self) -> (r: Option<u64>)
        ensures
            match r {
                Some(u) => self@ == YamlSpec::Int(u as int),
                None => !(self@ matches YamlSpec::Int(i) && i >= 0),
            },
    {
        match self {
            YamlValue::Int(i) => {
                if *i >= 0 {
                    Some(*i as u64)
                } else {
                    None
                }
            },
            _ => None,
        }
    }

    /// Structure-preserving deep clone.
    pub fn deep_copy(&self) -> (r: Self)
        ensures
            r@ == self@,
        decreases self,
    {
        match self {
            YamlValue::Null => YamlValue::Null,
            YamlValue::Bool(b) => YamlValue::Bool(*b),
            YamlValue::Int(i) => YamlValue::Int(*i),
            YamlValue::Str(s) => YamlValue::Str(clone_string(s)),
            YamlValue::Sequence(items) => {
                let mut out: Vec<YamlValue> = Vec::new();
                let n = items.len();
                let mut i: usize = 0;
                while i < n
                    invariant
                        n == items.len(),
                        *self == YamlValue::Sequence(*items),
                        0 <= i <= n,
                        out@.len() == i,
                        forall|k: int|
                            0 <= k < i ==> #[trigger] yaml_seq_view(out@)[k] == yaml_seq_view(
                                items@,
                            )[k],
                    decreases n - i,
                {
                    proof {
                        assert(decreases_to!(*self => self->Sequence_0));
                        assert(decreases_to!(self->Sequence_0 => self->Sequence_0@));
                        assert(decreases_to!(self->Sequence_0@ => self->Sequence_0@[i as int]));
                    }
                    let ghost prev = out@;
                    out.push(items[i].deep_copy());
                    proof {
                        assert forall|k: int| 0 <= k < i + 1 implies #[trigger] yaml_seq_view(
                            out@,
                        )[k] == yaml_seq_view(items@)[k] by {
                            if k < i {
                                assert(yaml_seq_view(prev)[k] == yaml_seq_view(items@)[k]);
                                assert(out@[k] == prev[k]);
                            }
                        }
                    }
                    i = i + 1;
                }
                proof {
                    assert(yaml_seq_view(out@) =~= yaml_seq_view(items@));
                }
                YamlValue::Sequence(out)
            },
            YamlValue::Mapping(pairs) => {
                let mut out: Vec<(YamlValue, YamlValue)> = Vec::new();
                let n = pairs.len();
                let mut i: usize = 0;
                while i < n
                    invariant
                        n == pairs.len(),
                        *self == YamlValue::Mapping(*pairs),
                        0 <= i <= n,
                        out@.len() == i,
                        forall|k: int|
                            0 <= k < i ==> #[trigger] yaml_pairs_view(out@)[k] == yaml_pairs_view(
                                pairs@,
                            )[k],
                    decreases n - i,
                {
                    proof {
                        assert(decreases_to!(*self => self->Mapping_0));
                        assert(decreases_to!(self->Mapping_0 => self->Mapping_0@));
                        assert(decreases_to!(self->Mapping_0@ => self->Mapping_0@[i as int]));
                        assert(decreases_to!(self->Mapping_0@[i as int] => self->Mapping_0@[i as int].0));
                        assert(decreases_to!(self->Mapping_0@[i as int] => self->Mapping_0@[i as int].1));
                    }
                    let k = pairs[i].0.deep_copy();
                    let v = pairs[i].1.deep_copy();
                    let ghost prev = out@;
                    out.push((k, v));
                    proof {
                        assert forall|m: int| 0 <= m < i + 1 implies #[trigger] yaml_pairs_view(
                            out@,
                        )[m] == yaml_pairs_view(pairs@)[m] by {
                            if m < i {
                                assert(yaml_pairs_view(prev)[m] == yaml_pairs_view(pairs@)[m]);
                                assert(out@[m] == prev[m]);
                            }
                        }
                    }
                    i = i + 1;
                }
                proof {
                    assert(yaml_pairs_view(out@) =~= yaml_pairs_view(pairs@));
                }
                YamlValue::Mapping(out)
            },
            YamlValue::Tagged(tag, inner) => {
                YamlValue::Tagged(clone_string(tag), Box::new(inner.deep_copy()))
            },
        }
    }
}

/// Clone of a `String`, with its contents known to be preserved.
pub fn clone_string(s: &String) -> (r: String)
    ensures
        r@ == s@,
{
    let c = crate::text::str_chars(s.as_str());
    crate::text::chars_to_string(&c)
}

/// Declares `serde_yaml_ng::Value`, the parser's value type, so the
/// conversion wrappers below can mention it.
#[verifier::external_type_specification]
#[verifier::external_body]
pub struct ExSerdeYamlValue(serde_yaml_ng::Value);

/// Carries a freshly deserialized YAML document into the value model.
/// Numbers outside the signed 64-bit range become null; a tagged value keeps
/// its tag as text.
#[verifier::external_body]
fn yaml_of_outside(v: serde_yaml_ng::Value) -> YamlValue {
    match v {
        OutsideYaml::Null => YamlValue::Null,
        OutsideYaml::Bool(b) => YamlValue::Bool(b),
        OutsideYaml::Number(n) => n.as_i64().map(YamlValue::Int).unwrap_or(YamlValue::Null),
        OutsideYaml::String(s) => YamlValue::Str(s),
        OutsideYaml::Sequence(xs) => YamlValue::Sequence(xs.into_iter().map(yaml_of_outside).collect()),
        OutsideYaml::Mapping(m) => YamlValue::Mapping(
            m.into_iter().map(|(k, w)| (yaml_of_outside(k), yaml_of_outside(w))).collect(),
        ),
        OutsideYaml::Tagged(t) => YamlValue::Tagged(
            format!("{}", t.tag),
            Box::new(yaml_of_outside(t.value)),
        ),
    }
}

/// Carries a value of the model back out for serialization. YAML has no
/// syntax for an empty tag (`Tag::new` refuses one), so a value tagged with
/// the empty string serializes as its inner value alone.
#[verifier::external_body]
fn yaml_to_outside(v: &YamlValue) -> serde_yaml_ng::Value {
    match v {
        YamlValue::Null => OutsideYaml::Null,
        YamlValue::Bool(b) => OutsideYaml::Bool(*b),
        YamlValue::Int(i) => OutsideYaml::Number((*i).into()),
        YamlValue::Str(s) => OutsideYaml::String(s.clone()),
        YamlValue::Sequence(xs) => OutsideYaml::Sequence(xs.iter().map(yaml_to_outside).collect()),
        YamlValue::Mapping(ps) => OutsideYaml::Mapping(
            ps.iter().map(|(k, w)| (yaml_to_outside(k), yaml_to_outside(w))).collect(),
        ),
        YamlValue::Tagged(tag, inner) if tag.is_empty() => yaml_to_outside(inner),
        YamlValue::Tagged(tag, inner) => tagged_to_outside(tag, inner),
    }
}

/// The tagged leg of the conversion: `Tag::new` panics on an empty string,
/// so an empty tag is excluded here and collapsed by the caller instead.
#[verifier::external_body]
fn tagged_to_outside(tag: &String, inner: &YamlValue) -> serde_yaml_ng::Value
    requires
        tag@.len() > 0,
{
    OutsideYaml::Tagged(Box::new(
        TaggedValue { tag: Tag::new(tag.clone()), value: yaml_to_outside(inner) },
    ))
}

/// What parsing a YAML document yields, as a function of the text alone.
pub uninterp spec fn yaml_parse_of(s: Seq<char>) -> Option<YamlSpec>;

/// Relies on `serde_yaml_ng::from_str`: parses one YAML document, or fails;
/// the outcome depends on the text alone.
#[verifier::external_body]
pub fn parse_yaml(s: &str) -> (r: Option<YamlValue>)
    ensures
        match r {
            Some(v) => yaml_parse_of(s@) == Some(v@),
            None => yaml_parse_of(s@) is None,
        },
{
    serde_yaml_ng::from_str::<serde_yaml_ng::Value>(s).ok().map(yaml_of_outside)
}

/// The YAML text a value serializes to, as a function of the value alone.
pub uninterp spec fn yaml_text_of(v: YamlSpec) -> Seq<char>;

/// Relies on `serde_yaml_ng::to_string`: serializes a value back to YAML
/// text; an unserializable value becomes the empty string. The text depends
/// on the value alone.
#[verifier::external_body]
pub fn yaml_to_string(v: &YamlValue) -> (r: String)
    ensures
        r@ == yaml_text_of(v@),
{
    serde_yaml_ng::to_string(&yaml_to_outside(v)).unwrap_or(String::new())
}

} // verus!
