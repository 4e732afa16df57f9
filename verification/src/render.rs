//! The render pipeline: environment-variable preprocessing of a parsed task
//! tree, and rendering a YAML value into JSON through the expression
//! evaluator.

use vstd::prelude::*;
use crate::context::{spec_is_obj, spec_is_template, Context};
use crate::json::{json_pairs_view, json_seq_view, JsonSpec, JsonValue};
use crate::text::{env_view, spec_fill_env_vars};
use crate::yaml::{yaml_pairs_view, yaml_seq_view, YamlSpec, YamlValue};

verus! {

/// `[#VAR]` substitution over a whole YAML tree: every string, keys
/// included, is substituted once; tagged values are left as they stand.
pub open spec fn spec_preprocess(v: YamlSpec, env: Seq<(Seq<char>, Seq<char>)>) -> YamlSpec
    decreases v,
{
    match v {
        YamlSpec::Str(s) => YamlSpec::Str(spec_fill_env_vars(s, env)),
        YamlSpec::Sequence(items) => YamlSpec::Sequence(
            Seq::new(items.len(), |i: int| if 0 <= i < items.len() {
                spec_preprocess(items[i], env)
            } else {
                YamlSpec::Null
            }),
        ),
        YamlSpec::Mapping(pairs) => YamlSpec::Mapping(
            Seq::new(pairs.len(), |i: int| if 0 <= i < pairs.len() {
                (spec_preprocess(pairs[i].0, env), spec_preprocess(pairs[i].1, env))
            } else {
                (YamlSpec::Null, YamlSpec::Null)
            }),
        ),
        _ => v,
    }
}

/// Substitutes `[#VAR]` markers in every string of the tree.
pub fn preprocess_obj(yml: &YamlValue, env: &Vec<(String, String)>) -> (r: YamlValue)
    ensures
        r@ == spec_preprocess(yml@, env_view(env@)),
    decreases yml,
{
    match yml {
        YamlValue::Str(s) => YamlValue::Str(crate::text::fill_env_vars(s.as_str(), env)),
        YamlValue::Sequence(items) => {
            let mut out: Vec<YamlValue> = Vec::new();
            let n = items.len();
            let mut i: usize = 0;
            while i < n
                invariant
                    n == items.len(),
                    *yml == YamlValue::Sequence(*items),
                    0 <= i <= n,
                    out@.len() == i,
                    forall|k: int|
                        0 <= k < i ==> #[trigger] yaml_seq_view(out@)[k] == spec_preprocess(
                            yaml_seq_view(items@)[k],
                            env_view(env@),
                        ),
                decreases n - i,
            {
                proof {
                    assert(decreases_to!(*yml => yml->Sequence_0));
                    assert(decreases_to!(yml->Sequence_0 => yml->Sequence_0@));
                    assert(decreases_to!(yml->Sequence_0@ => yml->Sequence_0@[i as int]));
                }
                let ghost prev = out@;
                out.push(preprocess_obj(&items[i], env));
                proof {
                    assert forall|k: int| 0 <= k < i + 1 implies #[trigger] yaml_seq_view(out@)[k]
                        == spec_preprocess(yaml_seq_view(items@)[k], env_view(env@)) by {
                        if k < i {
                            assert(yaml_seq_view(prev)[k] == spec_preprocess(
                                yaml_seq_view(items@)[k],
                                env_view(env@),
                            ));
                            assert(out@[k] == prev[k]);
                        }
                    }
                }
                i = i + 1;
            }
            proof {
                assert(yaml_seq_view(out@) =~= spec_preprocess(yml@, env_view(env@))->Sequence_0);
            }
            YamlValue::Sequence(out)
        },
        YamlValue::Mapping(pairs) => {
            let mut out: Vec<(YamlValue, YamlValue)> = Vec::new();
            let n = pairs.len();
            let mut i: usize = 0;
            while i < n
                invariant
                    n == pairs.len(),
                    *yml == YamlValue::Mapping(*pairs),
                    0 <= i <= n,
                    out@.len() == i,
                    forall|k: int|
                        0 <= k < i ==> #[trigger] yaml_pairs_view(out@)[k] == (
                            spec_preprocess(yaml_pairs_view(pairs@)[k].0, env_view(env@)),
                            spec_preprocess(yaml_pairs_view(pairs@)[k].1, env_view(env@)),
                        ),
                decreases n - i,
            {
                proof {
                    assert(decreases_to!(*yml => yml->Mapping_0));
                    assert(decreases_to!(yml->Mapping_0 => yml->Mapping_0@));
                    assert(decreases_to!(yml->Mapping_0@ => yml->Mapping_0@[i as int]));
                    assert(decreases_to!(yml->Mapping_0@[i as int] => yml->Mapping_0@[i as int].0));
                    assert(decreases_to!(yml->Mapping_0@[i as int] => yml->Mapping_0@[i as int].1));
                }
                let pk = preprocess_obj(&pairs[i].0, env);
                let pv = preprocess_obj(&pairs[i].1, env);
                let ghost prev = out@;
                out.push((pk, pv));
                proof {
                    assert forall|m: int| 0 <= m < i + 1 implies #[trigger] yaml_pairs_view(
                        out@,
                    )[m] == (
                        spec_preprocess(yaml_pairs_view(pairs@)[m].0, env_view(env@)),
                        spec_preprocess(yaml_pairs_view(pairs@)[m].1, env_view(env@)),
                    ) by {
                        if m < i {
                            assert(yaml_pairs_view(prev)[m] == (
                                spec_preprocess(yaml_pairs_view(pairs@)[m].0, env_view(env@)),
                                spec_preprocess(yaml_pairs_view(pairs@)[m].1, env_view(env@)),
                            ));
                            assert(out@[m] == prev[m]);
                        }
                    }
                }
                i = i + 1;
            }
            proof {
                assert(yaml_pairs_view(out@) =~= spec_preprocess(yml@, env_view(env@))->Mapping_0);
            }
            YamlValue::Mapping(out)
        },
        _ => yml.deep_copy(),
    }
}

/// Preprocessing substitutes every `[#VAR]` marker of a string node exactly
/// once: the substituted value is emitted verbatim, never rescanned, and
/// rendering performs no further substitution.
pub proof fn lemma_preprocess_substitutes_once(
    name: Seq<char>,
    rest: Seq<char>,
    env: Seq<(Seq<char>, Seq<char>)>,
)
    requires
        !crate::text::spec_contains_char(name, ']'),
    ensures
        spec_preprocess(YamlSpec::Str(seq!['[', '#'] + name + seq![']'] + rest), env)
            == YamlSpec::Str(
            crate::text::spec_env_lookup(env, name) + spec_fill_env_vars(rest, env),
        ),
{
    crate::text::lemma_fill_substitutes_once(name, rest, env);
}

/// How a YAML value renders to JSON: direct transcription of scalars, a
/// plain string to itself, an expression string to whatever the evaluator
/// returned, entry-wise rendering of sequences, string-keyed entry-wise
/// rendering of mappings, tagged values to null.
pub open spec fn spec_renders(y: YamlSpec, r: JsonSpec) -> bool
    decreases y, 0int, 0int,
{
    match y {
        YamlSpec::Null => r is Null,
        YamlSpec::Bool(b) => r == JsonSpec::Bool(b),
        YamlSpec::Int(i) => r == JsonSpec::Int(i),
        YamlSpec::Str(s) => if !spec_is_obj(s) && !spec_is_template(s) {
            r == JsonSpec::Str(s)
        } else {
            true
        },
        YamlSpec::Sequence(items) => r matches JsonSpec::Arr(rs) && rs.len() == items.len()
            && spec_renders_items(items, rs, 0),
        YamlSpec::Mapping(pairs) => r matches JsonSpec::Obj(rps) && spec_renders_entries(
            pairs,
            rps,
            0,
        ),
        YamlSpec::Tagged(_, _) => r is Null,
    }
}

pub open spec fn spec_renders_items(items: Seq<YamlSpec>, rs: Seq<JsonSpec>, i: int) -> bool
    decreases items, 1int, items.len() - i,
{
    if i < 0 || i >= items.len() {
        true
    } else {
        &&& i < rs.len()
        &&& spec_renders(items[i], rs[i])
        &&& spec_renders_items(items, rs, i + 1)
    }
}

/// Mapping entries with string keys render pairwise, in order; entries with
/// other keys are dropped.
pub open spec fn spec_renders_entries(
    pairs: Seq<(YamlSpec, YamlSpec)>,
    rps: Seq<(Seq<char>, JsonSpec)>,
    i: int,
) -> bool
    decreases pairs, 1int, pairs.len() - i,
{
    if i < 0 || i >= pairs.len() {
        rps.len() == 0
    } else {
        match pairs[i].0 {
            YamlSpec::Str(k) => {
                &&& rps.len() > 0
                &&& rps[0].0 == k
                &&& spec_renders(pairs[i].1, rps[0].1)
                &&& spec_renders_entries(pairs, rps.drop_first(), i + 1)
            },
            _ => spec_renders_entries(pairs, rps, i + 1),
        }
    }
}

/// Renders a YAML value into JSON through the context's evaluator.
pub fn render_obj(yml: &YamlValue, context: &Context) -> (r: JsonValue)
    ensures
        spec_renders(yml@, r@),
    decreases yml,
{
    match yml {
        YamlValue::Null => JsonValue::Null,
        YamlValue::Bool(b) => JsonValue::Bool(*b),
        YamlValue::Int(i) => JsonValue::Int(*i),
        YamlValue::Str(s) => context.evaluate_expr(s.as_str()),
        YamlValue::Sequence(items) => {
            let mut out: Vec<JsonValue> = Vec::new();
            let n = items.len();
            let mut i: usize = 0;
            while i < n
                invariant
                    n == items.len(),
                    *yml == YamlValue::Sequence(*items),
                    0 <= i <= n,
                    out@.len() == i,
                    forall|k: int|
                        0 <= k < i ==> spec_renders(
                            yaml_seq_view(items@)[k],
                            #[trigger] json_seq_view(out@)[k],
                        ),
                decreases n - i,
            {
                proof {
                    assert(decreases_to!(*yml => yml->Sequence_0));
                    assert(decreases_to!(yml->Sequence_0 => yml->Sequence_0@));
                    assert(decreases_to!(yml->Sequence_0@ => yml->Sequence_0@[i as int]));
                }
                let ghost prev = out@;
                out.push(render_obj(&items[i], context));
                proof {
                    assert forall|k: int| 0 <= k < i + 1 implies spec_renders(
                        yaml_seq_view(items@)[k],
                        #[trigger] json_seq_view(out@)[k],
                    ) by {
                        if k < i {
                            assert(spec_renders(yaml_seq_view(items@)[k], json_seq_view(prev)[k]));
                            assert(out@[k] == prev[k]);
                        }
                    }
                }
                i = i + 1;
            }
            let r = JsonValue::Arr(out);
            proof {
                lemma_renders_items_join(yaml_seq_view(items@), json_seq_view(out@), 0);
            }
            r
        },
        YamlValue::Mapping(pairs) => {
            let mut out: Vec<(String, JsonValue)> = Vec::new();
            let n = pairs.len();
            let mut i: usize = 0;
            while i < n
                invariant
                    n == pairs.len(),
                    *yml == YamlValue::Mapping(*pairs),
                    0 <= i <= n,
                    spec_renders_upto(yaml_pairs_view(pairs@), json_pairs_view(out@), i as int),
                decreases n - i,
            {
                proof {
                    assert(decreases_to!(*yml => yml->Mapping_0));
                    assert(decreases_to!(yml->Mapping_0 => yml->Mapping_0@));
                    assert(decreases_to!(yml->Mapping_0@ => yml->Mapping_0@[i as int]));
                    assert(decreases_to!(yml->Mapping_0@[i as int] => yml->Mapping_0@[i as int].1));
                }
                match &pairs[i].0 {
                    YamlValue::Str(k) => {
                        let key = crate::yaml::clone_string(k);
                        let v = render_obj(&pairs[i].1, context);
                        let ghost prev = out@;
                        out.push((key, v));
                        proof {
                            assert(json_pairs_view(out@).drop_last() =~= json_pairs_view(prev));
                            assert(json_pairs_view(out@).last() == (k@, v@));
                            assert(yaml_pairs_view(pairs@)[i as int].0 == YamlSpec::Str(k@));
                        }
                    },
                    _ => {},
                }
                i = i + 1;
            }
            let r = JsonValue::Obj(out);
            proof {
                lemma_renders_upto_entries(
                    yaml_pairs_view(pairs@),
                    json_pairs_view(out@),
                    Seq::empty(),
                    n as int,
                );
                assert(json_pairs_view(out@) + Seq::<(Seq<char>, JsonSpec)>::empty()
                    =~= json_pairs_view(out@));
            }
            r
        },
        YamlValue::Tagged(_, _) => JsonValue::Null,
    }
}

/// Elementwise rendering of a prefix extends to the whole sequence.
proof fn lemma_renders_items_join(items: Seq<YamlSpec>, rs: Seq<JsonSpec>, i: int)
    requires
        items.len() == rs.len(),
        forall|k: int| i <= k < items.len() ==> spec_renders(items[k], #[trigger] rs[k]),
    ensures
        spec_renders_items(items, rs, i),
    decreases items, 1int, items.len() - i,
{
    if 0 <= i < items.len() {
        lemma_renders_items_join(items, rs, i + 1);
    }
}

/// Rendering checked over the first `i` input entries: the output built so
/// far matches them, last entry first.
pub open spec fn spec_renders_upto(
    pairs: Seq<(YamlSpec, YamlSpec)>,
    rps: Seq<(Seq<char>, JsonSpec)>,
    i: int,
) -> bool
    decreases pairs, 2int, i,
{
    if i <= 0 || i > pairs.len() {
        rps.len() == 0
    } else {
        match pairs[i - 1].0 {
            YamlSpec::Str(k) => {
                &&& rps.len() > 0
                &&& rps.last().0 == k
                &&& spec_renders(pairs[i - 1].1, rps.last().1)
                &&& spec_renders_upto(pairs, rps.drop_last(), i - 1)
            },
            _ => spec_renders_upto(pairs, rps, i - 1),
        }
    }
}

/// A fully checked prefix, joined to a checked remainder, checks whole.
proof fn lemma_renders_upto_entries(
    pairs: Seq<(YamlSpec, YamlSpec)>,
    rps1: Seq<(Seq<char>, JsonSpec)>,
    rps2: Seq<(Seq<char>, JsonSpec)>,
    i: int,
)
    requires
        0 <= i <= pairs.len(),
        spec_renders_upto(pairs, rps1, i),
        spec_renders_entries(pairs, rps2, i),
    ensures
        spec_renders_entries(pairs, rps1 + rps2, 0),
    decreases i,
{
    if i == 0 {
        assert(rps1 + rps2 =~= rps2);
    } else {
        match pairs[i - 1].0 {
            YamlSpec::Str(k) => {
                let last = rps1.last();
                let front = rps1.drop_last();
                assert(spec_renders_entries(pairs, seq![last] + rps2, i - 1)) by {
                    assert((seq![last] + rps2).drop_first() =~= rps2);
                }
                lemma_renders_upto_entries(pairs, front, seq![last] + rps2, i - 1);
                assert(front + (seq![last] + rps2) =~= rps1 + rps2);
            },
            _ => {
                lemma_renders_upto_entries(pairs, rps1, rps2, i - 1);
            },
        }
    }
}

} // verus!
