//! Declaration merging: folds an endpoint's YAML and its guards' YAML into a
//! single declaration document for API documentation.
//!
//! The executable functions mirror a recursive type-merge; recursion depth is
//! bounded by an ample budget, and a merge whose depth would exceed it falls
//! back to its left operand, the same fallback the merge uses for every other
//! shape it cannot combine.

use vstd::prelude::*;
use crate::parser::Endpoint;
use crate::yaml::{spec_get, spec_lookup_pairs, yaml_pairs_view, yaml_seq_view, YamlSpec, YamlValue};

verus! {

/// Recursion budget for the type merge; deeper inputs fall back to the left
/// operand, as an unmergeable pair does.
pub const MERGE_FUEL: u32 = 1000000;

/// Index of the first entry with string key `key`; meaningful only when the
/// lookup succeeds.
pub open spec fn spec_key_at(pairs: Seq<(YamlSpec, YamlSpec)>, key: Seq<char>) -> int
    decreases pairs.len(),
{
    if pairs.len() == 0 {
        0
    } else if pairs[0].0 matches YamlSpec::Str(s) && s == key {
        0
    } else {
        1 + spec_key_at(pairs.drop_first(), key)
    }
}

pub proof fn lemma_key_at(pairs: Seq<(YamlSpec, YamlSpec)>, key: Seq<char>)
    ensures
        spec_lookup_pairs(pairs, key) is Some ==> 0 <= spec_key_at(pairs, key) < pairs.len()
            && pairs[spec_key_at(pairs, key)].0 == YamlSpec::Str(key) && spec_lookup_pairs(
            pairs,
            key,
        ) == Some(pairs[spec_key_at(pairs, key)].1),
        spec_lookup_pairs(pairs, key) is Some ==> forall|k: int|
            0 <= k < spec_key_at(pairs, key) ==> !(#[trigger] pairs[k].0 matches YamlSpec::Str(s)
                && s == key),
        spec_lookup_pairs(pairs, key) is None ==> forall|k: int|
            0 <= k < pairs.len() ==> !(#[trigger] pairs[k].0 matches YamlSpec::Str(s) && s == key),
    decreases pairs.len(),
{
    if pairs.len() == 0 {
    } else if pairs[0].0 matches YamlSpec::Str(s) && s == key {
    } else {
        lemma_key_at(pairs.drop_first(), key);
        let t = pairs.drop_first();
        assert(forall|k: int| 1 <= k < pairs.len() ==> pairs[k] == t[k - 1]);
    }
}

/// `Mapping::insert` on the model: replaces the value of an existing string
/// key in place, else appends the entry; any other shape is left unchanged.
pub open spec fn spec_map_set(m: YamlSpec, key: Seq<char>, val: YamlSpec) -> YamlSpec {
    match m {
        YamlSpec::Mapping(pairs) => {
            if spec_lookup_pairs(pairs, key) is Some {
                YamlSpec::Mapping(
                    pairs.update(spec_key_at(pairs, key), (pairs[spec_key_at(pairs, key)].0, val)),
                )
            } else {
                YamlSpec::Mapping(pairs.push((YamlSpec::Str(key), val)))
            }
        },
        _ => m,
    }
}

/// Inserts `val` under `key` when `into` is a mapping, keeping the key's
/// position when it is already present.
pub fn yaml_insert(into: &mut YamlValue, key: &str, val: YamlValue)
    ensures
        final (into)@ == spec_map_set(old(into)@, key@, val@),
{
    match into {
        YamlValue::Mapping(pairs) => {
            let ghost pv = yaml_pairs_view(pairs@);
            proof {
                lemma_key_at(pv, key@);
            }
            let n = pairs.len();
            let mut i: usize = 0;
            let mut at: Option<usize> = None;
            while i < n && at.is_none()
                invariant
                    n == pairs.len(),
                    pv == yaml_pairs_view(pairs@),
                    0 <= i <= n,
                    match at {
                        Some(j) => j == i && i < n && (pv[j as int].0 matches YamlSpec::Str(s) && s
                            == key@) && (forall|k: int|
                            0 <= k < j ==> !(#[trigger] pv[k].0 matches YamlSpec::Str(s) && s
                                == key@)),
                        None => forall|k: int|
                            0 <= k < i ==> !(#[trigger] pv[k].0 matches YamlSpec::Str(s) && s
                                == key@),
                    },
                decreases n - i + (if at is Some {
                    0int
                } else {
                    1int
                }),
            {
                match &pairs[i].0 {
                    YamlValue::Str(s) => {
                        if crate::text::str_eq(s.as_str(), key) {
                            proof {
                                assert(pv[i as int].0 == YamlSpec::Str(s@));
                            }
                            at = Some(i);
                        }
                    },
                    _ => {},
                }
                if at.is_none() {
                    i = i + 1;
                }
            }
            match at {
                Some(j) => {
                    proof {
                        lemma_key_at_index(pv, key@, j as int);
                    }
                    let k0 = pairs[j].0.deep_copy();
                    pairs.set(j, (k0, val));
                    proof {
                        assert(yaml_pairs_view(pairs@) =~= pv.update(
                            j as int,
                            (pv[j as int].0, val@),
                        ));
                    }
                },
                None => {
                    proof {
                        assert(spec_lookup_pairs(pv, key@) is None) by {
                            lemma_lookup_none(pv, key@);
                        }
                    }
                    let ks = crate::text::str_chars(key);
                    let key_string = crate::text::chars_to_string(&ks);
                    pairs.push((YamlValue::Str(key_string), val));
                    proof {
                        assert(yaml_pairs_view(pairs@) =~= pv.push((YamlSpec::Str(key@), val@)));
                    }
                },
            }
        },
        _ => {},
    }
}

/// A key occurring at some index makes the lookup succeed.
pub proof fn lemma_lookup_from_index(pairs: Seq<(YamlSpec, YamlSpec)>, key: Seq<char>, j: int)
    requires
        0 <= j < pairs.len(),
        pairs[j].0 matches YamlSpec::Str(s) && s == key,
    ensures
        spec_lookup_pairs(pairs, key) is Some,
    decreases pairs.len(),
{
    if pairs.len() == 0 {
    } else if pairs[0].0 matches YamlSpec::Str(s) && s == key {
    } else {
        assert(j != 0);
        lemma_lookup_from_index(pairs.drop_first(), key, j - 1);
    }
}

/// A key at no index makes the lookup fail.
pub proof fn lemma_lookup_none(pairs: Seq<(YamlSpec, YamlSpec)>, key: Seq<char>)
    requires
        forall|k: int|
            0 <= k < pairs.len() ==> !(#[trigger] pairs[k].0 matches YamlSpec::Str(s) && s == key),
    ensures
        spec_lookup_pairs(pairs, key) is None,
    decreases pairs.len(),
{
    if pairs.len() == 0 {
    } else {
        let t = pairs.drop_first();
        assert(forall|k: int| 0 <= k < t.len() ==> t[k] == pairs[k + 1]);
        lemma_lookup_none(t, key);
    }
}

/// The first match of a key is at `j` when `j` matches and nothing before.
pub proof fn lemma_key_at_index(pairs: Seq<(YamlSpec, YamlSpec)>, key: Seq<char>, j: int)
    requires
        0 <= j < pairs.len(),
        pairs[j].0 matches YamlSpec::Str(s) && s == key,
        forall|k: int|
            0 <= k < j ==> !(#[trigger] pairs[k].0 matches YamlSpec::Str(s) && s == key),
    ensures
        spec_lookup_pairs(pairs, key) is Some,
        spec_key_at(pairs, key) == j,
{
    lemma_lookup_from_index(pairs, key, j);
    lemma_key_at(pairs, key);
}

/// Deep structural equality of two values, decided at the view level.
pub fn yaml_value_eq(a: &YamlValue, b: &YamlValue) -> (r: bool)
    ensures
        r == (a@ == b@),
    decreases a,
{
    match (a, b) {
        (YamlValue::Null, YamlValue::Null) => true,
        (YamlValue::Bool(x), YamlValue::Bool(y)) => x == y,
        (YamlValue::Int(x), YamlValue::Int(y)) => x == y,
        (YamlValue::Str(x), YamlValue::Str(y)) => crate::text::str_eq(x.as_str(), y.as_str()),
        (YamlValue::Sequence(xs), YamlValue::Sequence(ys)) => {
            if xs.len() != ys.len() {
                proof {
                    assert(yaml_seq_view(xs@).len() != yaml_seq_view(ys@).len());
                }
                return false;
            }
            let n = xs.len();
            let mut i: usize = 0;
            while i < n
                invariant
                    n == xs.len() == ys.len(),
                    a is Sequence && a->Sequence_0 == *xs,
                    b is Sequence && b->Sequence_0 == *ys,
                    0 <= i <= n,
                    forall|k: int|
                        0 <= k < i ==> #[trigger] yaml_seq_view(xs@)[k] == yaml_seq_view(ys@)[k],
                decreases n - i,
            {
                proof {
                    assert(decreases_to!(*a => a->Sequence_0));
                    assert(decreases_to!(a->Sequence_0 => a->Sequence_0@));
                    assert(decreases_to!(a->Sequence_0@ => a->Sequence_0@[i as int]));
                }
                if !yaml_value_eq(&xs[i], &ys[i]) {
                    proof {
                        assert(yaml_seq_view(xs@)[i as int] != yaml_seq_view(ys@)[i as int]);
                    }
                    return false;
                }
                i = i + 1;
            }
            proof {
                assert(yaml_seq_view(xs@) =~= yaml_seq_view(ys@));
            }
            true
        },
        (YamlValue::Mapping(xs), YamlValue::Mapping(ys)) => {
            if xs.len() != ys.len() {
                proof {
                    assert(yaml_pairs_view(xs@).len() != yaml_pairs_view(ys@).len());
                }
                return false;
            }
            let n = xs.len();
            let mut i: usize = 0;
            while i < n
                invariant
                    n == xs.len() == ys.len(),
                    a is Mapping && a->Mapping_0 == *xs,
                    b is Mapping && b->Mapping_0 == *ys,
                    0 <= i <= n,
                    forall|k: int|
                        0 <= k < i ==> #[trigger] yaml_pairs_view(xs@)[k] == yaml_pairs_view(
                            ys@,
                        )[k],
                decreases n - i,
            {
                proof {
                    assert(decreases_to!(*a => a->Mapping_0));
                    assert(decreases_to!(a->Mapping_0 => a->Mapping_0@));
                    assert(decreases_to!(a->Mapping_0@ => a->Mapping_0@[i as int]));
                    assert(decreases_to!(a->Mapping_0@[i as int] => a->Mapping_0@[i as int].0));
                    assert(decreases_to!(a->Mapping_0@[i as int] => a->Mapping_0@[i as int].1));
                }
                let keys_eq = yaml_value_eq(&xs[i].0, &ys[i].0);
                let vals_eq = yaml_value_eq(&xs[i].1, &ys[i].1);
                if !keys_eq || !vals_eq {
                    proof {
                        assert(yaml_pairs_view(xs@)[i as int] != yaml_pairs_view(ys@)[i as int]);
                    }
                    return false;
                }
                i = i + 1;
            }
            proof {
                assert(yaml_pairs_view(xs@) =~= yaml_pairs_view(ys@));
            }
            true
        },
        (YamlValue::Tagged(tx, ix), YamlValue::Tagged(ty, iy)) => {
            let tags_eq = crate::text::str_eq(tx.as_str(), ty.as_str());
            if !tags_eq {
                return false;
            }
            proof {
                assert(decreases_to!(*a => a->Tagged_1));
            }
            yaml_value_eq(ix, iy)
        },
        _ => {
            proof {
                assert(a@ != b@);
            }
            false
        },
    }
}

} // verus!

verus! {

pub open spec fn spec_field_name(v: YamlSpec) -> Option<Seq<char>> {
    match spec_get(v, "field"@) {
        Some(YamlSpec::Str(s)) => Some(s),
        _ => None,
    }
}

/// The `type` of a descriptor, defaulting to `string`.
pub open spec fn spec_type_name(v: YamlSpec) -> Seq<char> {
    match spec_get(v, "type"@) {
        Some(YamlSpec::Str(s)) => s,
        _ => "string"@,
    }
}

pub open spec fn spec_desc_of(v: YamlSpec) -> Option<Seq<char>> {
    match spec_get(v, "description"@) {
        Some(YamlSpec::Str(s)) => Some(s),
        _ => None,
    }
}

pub open spec fn spec_seq_items(v: YamlSpec) -> Seq<YamlSpec> {
    match v {
        YamlSpec::Sequence(s) => s,
        _ => Seq::empty(),
    }
}

pub open spec fn spec_enum_items(v: YamlSpec) -> Seq<YamlSpec> {
    match spec_get(v, "enum"@) {
        Some(YamlSpec::Sequence(s)) => s,
        _ => Seq::empty(),
    }
}

/// Keeps the first occurrence of every value, in first-seen order.
pub open spec fn spec_unique(s: Seq<YamlSpec>) -> Seq<YamlSpec>
    decreases s.len(),
{
    if s.len() == 0 {
        Seq::empty()
    } else if s.drop_last().contains(s.last()) {
        spec_unique(s.drop_last())
    } else {
        spec_unique(s.drop_last()).push(s.last())
    }
}

/// The deduplicated sequence holds exactly the values of its input.
pub proof fn lemma_unique_contains(s: Seq<YamlSpec>)
    ensures
        forall|x: YamlSpec| #[trigger] spec_unique(s).contains(x) <==> s.contains(x),
    decreases s.len(),
{
    if s.len() == 0 {
    } else {
        let d = s.drop_last();
        let u = spec_unique(s);
        let ud = spec_unique(d);
        lemma_unique_contains(d);
        assert forall|x: YamlSpec| #[trigger] s.contains(x) implies u.contains(x) by {
            let i = choose|i: int| 0 <= i < s.len() && s[i] == x;
            if i < s.len() - 1 {
                assert(d[i] == x);
                assert(d.contains(x));
                assert(ud.contains(x));
                let k = choose|k: int| 0 <= k < ud.len() && ud[k] == x;
                if !d.contains(s.last()) {
                    assert(u[k] == x);
                } else {
                    assert(u[k] == x);
                }
            } else {
                if d.contains(s.last()) {
                    let m = choose|m: int| 0 <= m < d.len() && d[m] == s.last();
                    assert(d[m] == x);
                    assert(d.contains(x));
                    assert(ud.contains(x));
                    let k = choose|k: int| 0 <= k < ud.len() && ud[k] == x;
                    assert(u[k] == x);
                } else {
                    assert(u[u.len() - 1] == x);
                }
            }
            assert(u.contains(x));
        }
        assert forall|x: YamlSpec| #[trigger] u.contains(x) implies s.contains(x) by {
            let i = choose|i: int| 0 <= i < u.len() && u[i] == x;
            if d.contains(s.last()) {
                assert(ud[i] == x);
                assert(ud.contains(x));
                assert(d.contains(x));
                let k = choose|k: int| 0 <= k < d.len() && d[k] == x;
                assert(s[k] == x);
            } else {
                if i < u.len() - 1 {
                    assert(ud[i] == x);
                    assert(ud.contains(x));
                    assert(d.contains(x));
                    let k = choose|k: int| 0 <= k < d.len() && d[k] == x;
                    assert(s[k] == x);
                } else {
                    assert(s[s.len() - 1] == x);
                }
            }
            assert(s.contains(x));
        }
    }
}

/// The union step of `enum` lists: concatenated and deduplicated, written
/// under `enum` when anything is there.
pub open spec fn spec_enum_step(l: YamlSpec, r: YamlSpec, into: YamlSpec) -> YamlSpec {
    let es = spec_unique(spec_enum_items(l) + spec_enum_items(r));
    if es.len() > 0 {
        spec_map_set(into, "enum"@, YamlSpec::Sequence(es))
    } else {
        into
    }
}

/// The `description` step: both sides joined with `"; "`, left first.
pub open spec fn spec_desc_step(l: YamlSpec, r: YamlSpec, into: YamlSpec) -> YamlSpec {
    match (spec_desc_of(l), spec_desc_of(r)) {
        (Some(a), Some(b)) => spec_map_set(into, "description"@, YamlSpec::Str(a + "; "@ + b)),
        (Some(a), None) => spec_map_set(into, "description"@, YamlSpec::Str(a)),
        (None, Some(b)) => spec_map_set(into, "description"@, YamlSpec::Str(b)),
        (None, None) => into,
    }
}

/// Merging two type descriptors, recursion bounded by `fuel`. A scalar or
/// mixed pair that no rule covers keeps the left side, as does an exhausted
/// budget.
pub open spec fn spec_merge_two_types(l: YamlSpec, r: YamlSpec, fuel: nat) -> YamlSpec
    decreases fuel, 0int, 0int,
{
    if fuel == 0 {
        l
    } else if l is Null {
        r
    } else if r is Null {
        l
    } else if l is Sequence && r is Mapping {
        spec_merge_seq_with_map(l, r, (fuel - 1) as nat)
    } else if l is Mapping && r is Sequence {
        spec_merge_seq_with_map(r, l, (fuel - 1) as nat)
    } else if l is Mapping && r is Mapping {
        spec_merge_mappings(l, r, (fuel - 1) as nat)
    } else if l is Sequence && r is Sequence {
        spec_merge_sequences(l, r, (fuel - 1) as nat)
    } else {
        l
    }
}

/// Merges a field sequence into an object descriptor's `fields` entry.
pub open spec fn spec_merge_seq_with_map(s: YamlSpec, o: YamlSpec, fuel: nat) -> YamlSpec
    decreases fuel, 1int, 0int,
{
    let mf = match spec_get(o, "fields"@) {
        Some(f) => spec_merge_two_types(s, f, fuel),
        None => s,
    };
    spec_map_set(o, "fields"@, mf)
}

/// The `items` step of two `array` descriptors: candidates are the two
/// `items` entries that are mappings; one is kept, two are merged.
pub open spec fn spec_array_step(l: YamlSpec, r: YamlSpec, into: YamlSpec, fuel: nat) -> YamlSpec
    decreases fuel, 1int, 0int,
{
    let lm = match spec_get(l, "items"@) {
        Some(v) => if v is Mapping {
            Some(v)
        } else {
            None
        },
        None => None,
    };
    let rm = match spec_get(r, "items"@) {
        Some(v) => if v is Mapping {
            Some(v)
        } else {
            None
        },
        None => None,
    };
    match (lm, rm) {
        (None, None) => into,
        (Some(a), None) => spec_map_set(into, "items"@, a),
        (None, Some(b)) => spec_map_set(into, "items"@, b),
        (Some(a), Some(b)) => spec_map_set(into, "items"@, spec_merge_two_types(a, b, fuel)),
    }
}

/// The `fields` step of two `object` descriptors: candidates are the two
/// `fields` entries that are sequences.
pub open spec fn spec_object_step(l: YamlSpec, r: YamlSpec, into: YamlSpec, fuel: nat) -> YamlSpec
    decreases fuel, 1int, 0int,
{
    let lm = match spec_get(l, "fields"@) {
        Some(v) => if v is Sequence {
            Some(v)
        } else {
            None
        },
        None => None,
    };
    let rm = match spec_get(r, "fields"@) {
        Some(v) => if v is Sequence {
            Some(v)
        } else {
            None
        },
        None => None,
    };
    match (lm, rm) {
        (None, None) => into,
        (Some(a), None) => spec_map_set(into, "fields"@, a),
        (None, Some(b)) => spec_map_set(into, "fields"@, b),
        (Some(a), Some(b)) => spec_map_set(into, "fields"@, spec_merge_two_types(a, b, fuel)),
    }
}

/// Merging two mapping descriptors of the same `type`: the left side copied,
/// then the `items` or `fields` step, the description join, the enum union.
/// Different `type`s keep the left side.
pub open spec fn spec_merge_mappings(l: YamlSpec, r: YamlSpec, fuel: nat) -> YamlSpec
    decreases fuel, 2int, 0int,
{
    if spec_type_name(l) != spec_type_name(r) {
        l
    } else {
        let c0 = l;
        let c1 = if spec_type_name(l) == "array"@ {
            spec_array_step(l, r, c0, fuel)
        } else {
            c0
        };
        let c2 = if spec_type_name(l) == "object"@ {
            spec_object_step(l, r, c1, fuel)
        } else {
            c1
        };
        spec_enum_step(l, r, spec_desc_step(l, r, c2))
    }
}

/// Whether the entry at `i` was already merged into an earlier entry with
/// the same `field` name.
pub open spec fn spec_consumed(list: Seq<YamlSpec>, i: int) -> bool {
    exists|j: int|
        0 <= j < i && spec_field_name(list[i]) is Some && #[trigger] spec_field_name(list[j])
            == spec_field_name(list[i])
}

/// Folds every entry of `rest` whose `field` equals `name` into `cur`,
/// left to right.
pub open spec fn spec_merge_chain(
    cur: YamlSpec,
    name: Option<Seq<char>>,
    rest: Seq<YamlSpec>,
    fuel: nat,
) -> YamlSpec
    decreases fuel, 0int, rest.len(),
{
    if rest.len() == 0 {
        cur
    } else {
        let c = if name is Some && spec_field_name(rest[0]) == name {
            spec_merge_two_types(cur, rest[0], fuel)
        } else {
            cur
        };
        spec_merge_chain(c, name, rest.drop_first(), fuel)
    }
}

/// Field-list deduplication from position `i` on: each first occurrence of a
/// `field` name absorbs all later entries with the same name.
pub open spec fn spec_dedup_from(list: Seq<YamlSpec>, i: int, fuel: nat) -> Seq<YamlSpec>
    decreases fuel, 1int, list.len() - i,
{
    if i < 0 || i >= list.len() {
        Seq::empty()
    } else if spec_consumed(list, i) {
        spec_dedup_from(list, i + 1, fuel)
    } else {
        seq![spec_merge_chain(list[i], spec_field_name(list[i]), list.skip(i + 1), fuel)]
            + spec_dedup_from(list, i + 1, fuel)
    }
}

/// Merging two sequences: concatenation, then field-list deduplication.
pub open spec fn spec_merge_sequences(l: YamlSpec, r: YamlSpec, fuel: nat) -> YamlSpec
    decreases fuel, 2int, 0int,
{
    YamlSpec::Sequence(spec_dedup_from(spec_seq_items(l) + spec_seq_items(r), 0, fuel))
}

} // verus!

verus! {

/// Whether both values carry the same `field` name.
fn field_names_match(a: &YamlValue, b: &YamlValue) -> (r: bool)
    ensures
        r == (spec_field_name(a@) is Some && spec_field_name(a@) == spec_field_name(b@)),
{
    match (a.get("field"), b.get("field")) {
        (Some(x), Some(y)) => match (x.as_str(), y.as_str()) {
            (Some(sx), Some(sy)) => crate::text::str_eq(sx, sy),
            _ => false,
        },
        _ => false,
    }
}

/// The `type` entry of a descriptor, defaulting to `string`.
fn type_of<'a>(v: &'a YamlValue) -> (r: &'a str)
    ensures
        r@ == spec_type_name(v@),
{
    match v.get("type") {
        Some(t) => match t.as_str() {
            Some(s) => s,
            None => "string",
        },
        None => "string",
    }
}

/// Whether some element of `items` equals `x`, at the view level.
fn contains_value(items: &Vec<YamlValue>, x: &YamlValue) -> (r: bool)
    ensures
        r == yaml_seq_view(items@).contains(x@),
{
    let n = items.len();
    let mut i: usize = 0;
    while i < n
        invariant
            n == items.len(),
            0 <= i <= n,
            forall|k: int| 0 <= k < i ==> #[trigger] yaml_seq_view(items@)[k] != x@,
        decreases n - i,
    {
        if yaml_value_eq(&items[i], x) {
            proof {
                assert(yaml_seq_view(items@)[i as int] == x@);
            }
            return true;
        }
        i = i + 1;
    }
    proof {
        if yaml_seq_view(items@).contains(x@) {
            let k = choose|k: int|
                0 <= k < yaml_seq_view(items@).len() && yaml_seq_view(items@)[k] == x@;
        }
    }
    false
}

fn merge_two_types_fueled(l: &YamlValue, r: &YamlValue, fuel: u32) -> (out: YamlValue)
    ensures
        out@ == spec_merge_two_types(l@, r@, fuel as nat),
    decreases fuel, 0int, 0int,
{
    if fuel == 0 {
        return l.deep_copy();
    }
    if l.is_null() {
        return r.deep_copy();
    }
    if r.is_null() {
        return l.deep_copy();
    }
    if l.is_sequence() && r.is_mapping() {
        return merge_seq_with_map_fueled(l, r, fuel - 1);
    }
    if l.is_mapping() && r.is_sequence() {
        return merge_seq_with_map_fueled(r, l, fuel - 1);
    }
    if l.is_mapping() && r.is_mapping() {
        return merge_mappings_fueled(l, r, fuel - 1);
    }
    if l.is_sequence() && r.is_sequence() {
        return merge_sequences_fueled(l, r, fuel - 1);
    }
    l.deep_copy()
}

fn merge_seq_with_map_fueled(s: &YamlValue, o: &YamlValue, fuel: u32) -> (out: YamlValue)
    ensures
        out@ == spec_merge_seq_with_map(s@, o@, fuel as nat),
    decreases fuel, 1int, 0int,
{
    let mut obj_copy = o.deep_copy();
    let merged_fields = match o.get("fields") {
        Some(f) => merge_two_types_fueled(s, f, fuel),
        None => s.deep_copy(),
    };
    yaml_insert(&mut obj_copy, "fields", merged_fields);
    obj_copy
}

fn merge_mappings_type_array_fueled(l: &YamlValue, r: &YamlValue, into: &mut YamlValue, fuel: u32)
    ensures
        final (into)@ == spec_array_step(l@, r@, old(into)@, fuel as nat),
    decreases fuel, 1int, 0int,
{
    let lm = match l.get("items") {
        Some(v) => if v.is_mapping() {
            Some(v)
        } else {
            None
        },
        None => None,
    };
    let rm = match r.get("items") {
        Some(v) => if v.is_mapping() {
            Some(v)
        } else {
            None
        },
        None => None,
    };
    match (lm, rm) {
        (None, None) => {},
        (Some(a), None) => yaml_insert(into, "items", a.deep_copy()),
        (None, Some(b)) => yaml_insert(into, "items", b.deep_copy()),
        (Some(a), Some(b)) => {
            let m = merge_two_types_fueled(a, b, fuel);
            yaml_insert(into, "items", m);
        },
    }
}

fn merge_mappings_type_object_fueled(l: &YamlValue, r: &YamlValue, into: &mut YamlValue, fuel: u32)
    ensures
        final (into)@ == spec_object_step(l@, r@, old(into)@, fuel as nat),
    decreases fuel, 1int, 0int,
{
    let lm = match l.get("fields") {
        Some(v) => if v.is_sequence() {
            Some(v)
        } else {
            None
        },
        None => None,
    };
    let rm = match r.get("fields") {
        Some(v) => if v.is_sequence() {
            Some(v)
        } else {
            None
        },
        None => None,
    };
    match (lm, rm) {
        (None, None) => {},
        (Some(a), None) => yaml_insert(into, "fields", a.deep_copy()),
        (None, Some(b)) => yaml_insert(into, "fields", b.deep_copy()),
        (Some(a), Some(b)) => {
            let m = merge_two_types_fueled(a, b, fuel);
            yaml_insert(into, "fields", m);
        },
    }
}

fn merge_mappings_fueled(l: &YamlValue, r: &YamlValue, fuel: u32) -> (out: YamlValue)
    ensures
        out@ == spec_merge_mappings(l@, r@, fuel as nat),
    decreases fuel, 2int, 0int,
{
    let tl = type_of(l);
    let tr = type_of(r);
    if !crate::text::str_eq(tl, tr) {
        return l.deep_copy();
    }
    let mut type_copy = l.deep_copy();
    if crate::text::str_eq(tl, "array") {
        merge_mappings_type_array_fueled(l, r, &mut type_copy, fuel);
    }
    if crate::text::str_eq(tl, "object") {
        merge_mappings_type_object_fueled(l, r, &mut type_copy, fuel);
    }
    Endpoint::merge_mappings_descriptions(l, r, &mut type_copy);
    Endpoint::merge_mappings_enum(l, r, &mut type_copy);
    type_copy
}

fn merge_sequences_fueled(l: &YamlValue, r: &YamlValue, fuel: u32) -> (out: YamlValue)
    ensures
        out@ == spec_merge_sequences(l@, r@, fuel as nat),
    decreases fuel, 2int, 0int,
{
    let mut combined: Vec<YamlValue> = Vec::new();
    let ghost all = spec_seq_items(l@) + spec_seq_items(r@);
    match l.as_sequence() {
        Some(items) => {
            let n = items.len();
            let mut i: usize = 0;
            while i < n
                invariant
                    n == items.len(),
                    0 <= i <= n,
                    yaml_seq_view(items@) == spec_seq_items(l@),
                    combined@.len() == i,
                    forall|k: int|
                        0 <= k < i ==> #[trigger] yaml_seq_view(combined@)[k] == spec_seq_items(
                            l@,
                        )[k],
                decreases n - i,
            {
                let ghost prev = combined@;
                combined.push(items[i].deep_copy());
                proof {
                    assert forall|k: int| 0 <= k < i + 1 implies #[trigger] yaml_seq_view(
                        combined@,
                    )[k] == spec_seq_items(l@)[k] by {
                        if k < i {
                            assert(yaml_seq_view(prev)[k] == spec_seq_items(l@)[k]);
                            assert(combined@[k] == prev[k]);
                        }
                    }
                }
                i = i + 1;
            }
        },
        None => {},
    }
    let ghost nl = spec_seq_items(l@).len();
    match r.as_sequence() {
        Some(items) => {
            let n = items.len();
            let mut i: usize = 0;
            while i < n
                invariant
                    n == items.len(),
                    0 <= i <= n,
                    yaml_seq_view(items@) == spec_seq_items(r@),
                    nl == spec_seq_items(l@).len(),
                    all == spec_seq_items(l@) + spec_seq_items(r@),
                    combined@.len() == nl + i,
                    forall|k: int|
                        0 <= k < nl + i ==> #[trigger] yaml_seq_view(combined@)[k] == all[k],
                decreases n - i,
            {
                let ghost prev = combined@;
                combined.push(items[i].deep_copy());
                proof {
                    assert forall|k: int| 0 <= k < nl + i + 1 implies #[trigger] yaml_seq_view(
                        combined@,
                    )[k] == all[k] by {
                        if k < nl + i {
                            assert(yaml_seq_view(prev)[k] == all[k]);
                            assert(combined@[k] == prev[k]);
                        } else {
                            assert(all[nl + i] == spec_seq_items(r@)[i as int]);
                            assert(yaml_seq_view(items@)[i as int] == spec_seq_items(r@)[i as int]);
                        }
                    }
                }
                i = i + 1;
            }
        },
        None => {},
    }
    proof {
        assert(yaml_seq_view(combined@) =~= all);
    }
    let deduped = remove_fields_duplicate_fueled(&combined, fuel);
    YamlValue::Sequence(deduped)
}

fn remove_fields_duplicate_fueled(list: &Vec<YamlValue>, fuel: u32) -> (out: Vec<YamlValue>)
    ensures
        yaml_seq_view(out@) == spec_dedup_from(yaml_seq_view(list@), 0, fuel as nat),
    decreases fuel, 1int, 0int,
{
    let ghost lv = yaml_seq_view(list@);
    let n = list.len();
    let mut out: Vec<YamlValue> = Vec::new();
    let mut i: usize = 0;
    while i < n
        invariant
            n == list.len(),
            lv == yaml_seq_view(list@),
            0 <= i <= n,
            spec_dedup_from(lv, 0, fuel as nat) == yaml_seq_view(out@) + spec_dedup_from(
                lv,
                i as int,
                fuel as nat,
            ),
        decreases n - i,
    {
        // was this entry already merged into an earlier one?
        let mut consumed = false;
        let mut j: usize = 0;
        while j < i
            invariant
                n == list.len(),
                lv == yaml_seq_view(list@),
                0 <= j <= i <= n,
                i < n,
                consumed ==> spec_consumed(lv, i as int),
                !consumed ==> forall|k: int|
                    0 <= k < j ==> !(spec_field_name(lv[i as int]) is Some
                        && #[trigger] spec_field_name(lv[k]) == spec_field_name(lv[i as int])),
            decreases i - j + (if consumed {
                0int
            } else {
                1int
            }),
        {
            proof {
                assert(lv[i as int] == list@[i as int]@);
                assert(lv[j as int] == list@[j as int]@);
            }
            if !consumed && field_names_match(&list[i], &list[j]) {
                consumed = true;
            } else {
                j = j + 1;
            }
        }
        if !consumed {
            proof {
                assert(!spec_consumed(lv, i as int));
            }
            let mut cur = list[i].deep_copy();
            let ghost name = spec_field_name(lv[i as int]);
            let ghost chain_fuel = fuel as nat;
            let mut j: usize = i + 1;
            while j < n
                invariant
                    n == list.len(),
                    lv == yaml_seq_view(list@),
                    0 <= i < j <= n,
                    name == spec_field_name(lv[i as int]),
                    chain_fuel == fuel as nat,
                    spec_merge_chain(cur@, name, lv.skip(j as int), chain_fuel)
                        == spec_merge_chain(
                        lv[i as int],
                        name,
                        lv.skip(i as int + 1),
                        chain_fuel,
                    ),
                decreases n - j,
            {
                let ghost tail = lv.skip(j as int);
                proof {
                    assert(tail[0] == lv[j as int]);
                    assert(tail.drop_first() =~= lv.skip(j as int + 1));
                    assert(lv[i as int] == list@[i as int]@);
                    assert(lv[j as int] == list@[j as int]@);
                }
                if field_names_match(&list[i], &list[j]) {
                    cur = merge_two_types_fueled(&cur, &list[j], fuel);
                }
                j = j + 1;
            }
            proof {
                assert(lv.skip(n as int).len() == 0);
            }
            let ghost prev = out@;
            out.push(cur);
            proof {
                assert(yaml_seq_view(out@) =~= yaml_seq_view(prev).push(cur@));
                assert(spec_dedup_from(lv, i as int, fuel as nat) == seq![
                    spec_merge_chain(lv[i as int], name, lv.skip(i as int + 1), fuel as nat),
                ] + spec_dedup_from(lv, i as int + 1, fuel as nat));
                assert(yaml_seq_view(out@) + spec_dedup_from(lv, i as int + 1, fuel as nat)
                    =~= yaml_seq_view(prev) + spec_dedup_from(lv, i as int, fuel as nat));
            }
        }
        i = i + 1;
    }
    proof {
        assert(spec_dedup_from(lv, n as int, fuel as nat).len() == 0);
        assert(yaml_seq_view(out@) =~= yaml_seq_view(out@) + spec_dedup_from(
            lv,
            n as int,
            fuel as nat,
        ));
    }
    out
}

impl Endpoint {
    /// Merges two type descriptors, as the declaration fold uses them.
    pub fn merge_two_types(b_left: &YamlValue, b_right: &YamlValue) -> (r: YamlValue)
        ensures
            r@ == spec_merge_two_types(b_left@, b_right@, MERGE_FUEL as nat),
    {
        merge_two_types_fueled(b_left, b_right, MERGE_FUEL)
    }

    /// Merges a field sequence into an object descriptor.
    pub fn merge_seq_with_map(seq_side: &YamlValue, obj: &YamlValue) -> (r: YamlValue)
        ensures
            r@ == spec_merge_seq_with_map(seq_side@, obj@, MERGE_FUEL as nat),
    {
        merge_seq_with_map_fueled(seq_side, obj, MERGE_FUEL)
    }

    /// Merges two mapping descriptors of equal `type`.
    pub fn merge_mappings(b_left: &YamlValue, b_right: &YamlValue) -> (r: YamlValue)
        ensures
            r@ == spec_merge_mappings(b_left@, b_right@, MERGE_FUEL as nat),
    {
        merge_mappings_fueled(b_left, b_right, MERGE_FUEL)
    }

    /// Concatenates two sequences and deduplicates them by `field` name.
    pub fn merge_sequences(b_left: &YamlValue, b_right: &YamlValue) -> (r: YamlValue)
        ensures
            r@ == spec_merge_sequences(b_left@, b_right@, MERGE_FUEL as nat),
    {
        merge_sequences_fueled(b_left, b_right, MERGE_FUEL)
    }

    /// The `items` step of the `array` descriptor merge.
    pub fn merge_mappings_type_array(b_left: &YamlValue, b_right: &YamlValue, into: &mut YamlValue)
        ensures
            final (into)@ == spec_array_step(b_left@, b_right@, old(into)@, MERGE_FUEL as nat),
    {
        merge_mappings_type_array_fueled(b_left, b_right, into, MERGE_FUEL)
    }

    /// The `fields` step of the `object` descriptor merge.
    pub fn merge_mappings_type_object(b_left: &YamlValue, b_right: &YamlValue, into: &mut YamlValue)
        ensures
            final (into)@ == spec_object_step(b_left@, b_right@, old(into)@, MERGE_FUEL as nat),
    {
        merge_mappings_type_object_fueled(b_left, b_right, into, MERGE_FUEL)
    }

    /// Joins the two `description` strings with `"; "`, left before right.
    pub fn merge_mappings_descriptions(
        b_left: &YamlValue,
        b_right: &YamlValue,
        into: &mut YamlValue,
    )
        ensures
            final (into)@ == spec_desc_step(b_left@, b_right@, old(into)@),
    {
        broadcast use vstd::string::group_string_axioms;

        let dl = match b_left.get("description") {
            Some(v) => v.as_str(),
            None => None,
        };
        let dr = match b_right.get("description") {
            Some(v) => v.as_str(),
            None => None,
        };
        match (dl, dr) {
            (Some(a), Some(b)) => {
                let mut joined = String::new();
                joined.append(a);
                joined.append("; ");
                joined.append(b);
                yaml_insert(into, "description", YamlValue::Str(joined));
            },
            (Some(a), None) => {
                yaml_insert(into, "description", YamlValue::Str(a.to_owned()));
            },
            (None, Some(b)) => {
                yaml_insert(into, "description", YamlValue::Str(b.to_owned()));
            },
            (None, None) => {},
        }
    }

    /// Unions the two `enum` lists, keeping first-seen order.
    pub fn merge_mappings_enum(b_left: &YamlValue, b_right: &YamlValue, into: &mut YamlValue)
        ensures
            final (into)@ == spec_enum_step(b_left@, b_right@, old(into)@),
    {
        let ghost all = spec_enum_items(b_left@) + spec_enum_items(b_right@);
        let mut enums: Vec<YamlValue> = Vec::new();
        let el = match b_left.get("enum") {
            Some(v) => v.as_sequence(),
            None => None,
        };
        let er = match b_right.get("enum") {
            Some(v) => v.as_sequence(),
            None => None,
        };
        let ghost nl = spec_enum_items(b_left@).len();
        proof {
            assert(all.take(0) =~= Seq::empty());
        }
        match el {
            Some(items) => {
                let n = items.len();
                let mut i: usize = 0;
                while i < n
                    invariant
                        n == items.len(),
                        0 <= i <= n,
                        yaml_seq_view(items@) == spec_enum_items(b_left@),
                        nl == n,
                        all == spec_enum_items(b_left@) + spec_enum_items(b_right@),
                        yaml_seq_view(enums@) == spec_unique(all.take(i as int)),
                    decreases n - i,
                {
                    push_unique(&mut enums, &items[i], Ghost(all), Ghost(i as int));
                    i = i + 1;
                }
            },
            None => {
                proof {
                    assert(nl == 0);
                }
            },
        }
        match er {
            Some(items) => {
                let n = items.len();
                let mut i: usize = 0;
                while i < n
                    invariant
                        n == items.len(),
                        0 <= i <= n,
                        yaml_seq_view(items@) == spec_enum_items(b_right@),
                        all == spec_enum_items(b_left@) + spec_enum_items(b_right@),
                        nl == spec_enum_items(b_left@).len(),
                        yaml_seq_view(enums@) == spec_unique(all.take(nl + i)),
                    decreases n - i,
                {
                    proof {
                        assert(all[nl + i] == spec_enum_items(b_right@)[i as int]);
                    }
                    push_unique(&mut enums, &items[i], Ghost(all), Ghost(nl + i));
                    i = i + 1;
                }
            },
            None => {},
        }
        proof {
            assert(all.take(all.len() as int) =~= all);
        }
        if enums.len() > 0 {
            yaml_insert(into, "enum", YamlValue::Sequence(enums));
        }
    }
}

/// Appends `x` unless an equal value was seen, maintaining the first-seen
/// deduplication of the prefix `all.take(k)`.
fn push_unique(enums: &mut Vec<YamlValue>, x: &YamlValue, all: Ghost<Seq<YamlSpec>>, k: Ghost<int>)
    requires
        0 <= k@ < all@.len(),
        all@[k@] == x@,
        yaml_seq_view(old(enums)@) == spec_unique(all@.take(k@)),
    ensures
        yaml_seq_view(final (enums)@) == spec_unique(all@.take(k@ + 1)),
{
    proof {
        assert(all@.take(k@ + 1).drop_last() =~= all@.take(k@));
        assert(all@.take(k@ + 1).last() == x@);
        lemma_unique_contains(all@.take(k@));
    }
    if !contains_value(enums, x) {
        let ghost prev = enums@;
        enums.push(x.deep_copy());
        proof {
            assert(yaml_seq_view(enums@) =~= yaml_seq_view(prev).push(x@));
        }
    }
}

} // verus!

verus! {

pub open spec fn refs_view(s: Seq<&YamlValue>) -> Seq<YamlSpec> {
    Seq::new(s.len(), |i: int| s[i]@)
}

/// Whether a task body is a declaration: its `call` entry is `declare`.
pub open spec fn spec_is_declare(v: YamlSpec) -> bool {
    spec_get(v, "call"@) matches Some(e) && e == YamlSpec::Str("declare"@)
}

/// The declaration entries among a mapping's values, in order.
pub open spec fn spec_declare_of_pairs(pairs: Seq<(YamlSpec, YamlSpec)>) -> Seq<YamlSpec>
    decreases pairs.len(),
{
    if pairs.len() == 0 {
        Seq::empty()
    } else if spec_is_declare(pairs[0].1) {
        seq![pairs[0].1] + spec_declare_of_pairs(pairs.drop_first())
    } else {
        spec_declare_of_pairs(pairs.drop_first())
    }
}

pub open spec fn spec_declare_values(v: YamlSpec) -> Seq<YamlSpec> {
    match v {
        YamlSpec::Mapping(pairs) => spec_declare_of_pairs(pairs),
        _ => Seq::empty(),
    }
}

/// Left fold of all non-missing `description` strings, joined with `"; "`.
pub open spec fn spec_desc_fold(acc: Seq<char>, es: Seq<YamlSpec>) -> Seq<char>
    decreases es.len(),
{
    if es.len() == 0 {
        acc
    } else {
        let acc2 = match spec_desc_of(es[0]) {
            Some(d) => if acc.len() > 0 {
                acc + "; "@ + d
            } else {
                acc + d
            },
            None => acc,
        };
        spec_desc_fold(acc2, es.drop_first())
    }
}

/// The sequence under `allowlist.<key>` of an entry, or empty.
pub open spec fn spec_al_items(e: YamlSpec, key: Seq<char>) -> Seq<YamlSpec> {
    match spec_get(e, "allowlist"@) {
        Some(al) => match spec_get(al, key) {
            Some(YamlSpec::Sequence(s)) => s,
            _ => Seq::empty(),
        },
        None => Seq::empty(),
    }
}

/// All `allowlist.params` and `allowlist.query` entries, entry by entry.
pub open spec fn spec_params_fold(es: Seq<YamlSpec>) -> Seq<YamlSpec>
    decreases es.len(),
{
    if es.len() == 0 {
        Seq::empty()
    } else {
        spec_al_items(es[0], "params"@) + spec_al_items(es[0], "query"@) + spec_params_fold(
            es.drop_first(),
        )
    }
}

pub open spec fn spec_headers_fold(es: Seq<YamlSpec>) -> Seq<YamlSpec>
    decreases es.len(),
{
    if es.len() == 0 {
        Seq::empty()
    } else {
        spec_al_items(es[0], "headers"@) + spec_headers_fold(es.drop_first())
    }
}

/// Left fold of the `allowlist.body` descriptors through the type merge.
pub open spec fn spec_body_fold(acc: YamlSpec, es: Seq<YamlSpec>) -> YamlSpec
    decreases es.len(),
{
    if es.len() == 0 {
        acc
    } else {
        let acc2 = match spec_get(es[0], "allowlist"@) {
            Some(al) => match spec_get(al, "body"@) {
                Some(bd) => if acc is Null && !(bd is Null) {
                    bd
                } else {
                    spec_merge_two_types(acc, bd, MERGE_FUEL as nat)
                },
                None => acc,
            },
            None => acc,
        };
        spec_body_fold(acc2, es.drop_first())
    }
}

/// The merged declaration document of two YAML documents: descriptions
/// joined left before right, params and headers concatenated then
/// deduplicated by `field`, bodies type-merged, wrapped under `declaration`.
pub open spec fn spec_merge_two_declarations(l: YamlSpec, r: YamlSpec) -> YamlSpec {
    let es = spec_declare_values(l) + spec_declare_values(r);
    let desc = spec_desc_fold(Seq::empty(), es);
    let params = spec_dedup_from(spec_params_fold(es), 0, MERGE_FUEL as nat);
    let headers = spec_dedup_from(spec_headers_fold(es), 0, MERGE_FUEL as nat);
    let body = spec_body_fold(YamlSpec::Null, es);
    YamlSpec::Mapping(
        seq![
            (
                YamlSpec::Str("declaration"@),
                YamlSpec::Mapping(
                    seq![
                        (YamlSpec::Str("call"@), YamlSpec::Str("declare"@)),
                        (YamlSpec::Str("description"@), YamlSpec::Str(desc)),
                        (
                            YamlSpec::Str("allowlist"@),
                            YamlSpec::Mapping(
                                seq![
                                    (YamlSpec::Str("params"@), YamlSpec::Sequence(params)),
                                    (YamlSpec::Str("headers"@), YamlSpec::Sequence(headers)),
                                    (YamlSpec::Str("body"@), body),
                                ],
                            ),
                        ),
                    ],
                ),
            ),
        ],
    )
}

/// Collects the declaration entries of one parsed document.
fn declare_values<'a>(v: &'a YamlValue, entries: &mut Vec<&'a YamlValue>)
    ensures
        refs_view(final (entries)@) == refs_view(old(entries)@) + spec_declare_values(v@),
{
    match v {
        YamlValue::Mapping(pairs) => {
            let ghost pv = yaml_pairs_view(pairs@);
            let ghost base = refs_view(old(entries)@);
            proof {
                assert(pv.skip(0) =~= pv);
                assert(refs_view(entries@) + spec_declare_of_pairs(pv.skip(0)) =~= base
                    + spec_declare_of_pairs(pv));
            }
            let n = pairs.len();
            let mut i: usize = 0;
            while i < n
                invariant
                    n == pairs.len(),
                    pv == yaml_pairs_view(pairs@),
                    v@ == YamlSpec::Mapping(pv),
                    0 <= i <= n,
                    refs_view(entries@) + spec_declare_of_pairs(pv.skip(i as int)) == base
                        + spec_declare_of_pairs(pv),
                decreases n - i,
            {
                let ghost tail = pv.skip(i as int);
                proof {
                    assert(tail[0] == pv[i as int]);
                    assert(tail.drop_first() =~= pv.skip(i as int + 1));
                    assert(pv[i as int].1 == pairs@[i as int].1@);
                }
                let is_declare = match pairs[i].1.get("call") {
                    Some(c) => match c.as_str() {
                        Some(s) => crate::text::str_eq(s, "declare"),
                        None => false,
                    },
                    None => false,
                };
                if is_declare {
                    let ghost prev = entries@;
                    entries.push(&pairs[i].1);
                    proof {
                        assert(refs_view(entries@) =~= refs_view(prev).push(pairs@[i as int].1@));
                        assert(refs_view(entries@) + spec_declare_of_pairs(pv.skip(i as int + 1))
                            =~= refs_view(prev) + spec_declare_of_pairs(tail));
                    }
                } else {
                    proof {
                        assert(refs_view(entries@) + spec_declare_of_pairs(pv.skip(i as int + 1))
                            =~= refs_view(entries@) + spec_declare_of_pairs(tail));
                    }
                }
                i = i + 1;
            }
            proof {
                assert(pv.skip(n as int).len() == 0);
                assert(refs_view(entries@) =~= refs_view(entries@) + spec_declare_of_pairs(
                    pv.skip(n as int),
                ));
            }
        },
        _ => {},
    }
}

/// Pushes deep copies of `items` onto `out`.
fn extend_copies(out: &mut Vec<YamlValue>, items: &Vec<YamlValue>)
    ensures
        yaml_seq_view(final (out)@) == yaml_seq_view(old(out)@) + yaml_seq_view(items@),
{
    let n = items.len();
    let ghost base = yaml_seq_view(old(out)@);
    let ghost nl = base.len();
    let mut i: usize = 0;
    while i < n
        invariant
            n == items.len(),
            0 <= i <= n,
            nl == base.len(),
            out@.len() == nl + i,
            forall|k: int| 0 <= k < nl ==> #[trigger] yaml_seq_view(out@)[k] == base[k],
            forall|k: int|
                0 <= k < i ==> #[trigger] yaml_seq_view(out@)[nl + k] == yaml_seq_view(items@)[k],
        decreases n - i,
    {
        let ghost prev = out@;
        out.push(items[i].deep_copy());
        proof {
            assert forall|k: int| 0 <= k < nl implies #[trigger] yaml_seq_view(out@)[k]
                == base[k] by {
                assert(yaml_seq_view(prev)[k] == base[k]);
                assert(out@[k] == prev[k]);
            }
            assert forall|k: int| 0 <= k < i + 1 implies #[trigger] yaml_seq_view(out@)[nl + k]
                == yaml_seq_view(items@)[k] by {
                if k < i {
                    assert(yaml_seq_view(prev)[nl + k] == yaml_seq_view(items@)[k]);
                    assert(out@[nl + k] == prev[nl + k]);
                }
            }
        }
        i = i + 1;
    }
    proof {
        assert forall|k: int| 0 <= k < yaml_seq_view(out@).len() implies #[trigger] yaml_seq_view(
            out@,
        )[k] == (base + yaml_seq_view(items@))[k] by {
            if k >= nl {
                assert(yaml_seq_view(out@)[nl + (k - nl)] == yaml_seq_view(items@)[k - nl]);
            }
        }
        assert(yaml_seq_view(out@) =~= base + yaml_seq_view(items@));
    }
}

impl Endpoint {
    /// Deduplicates a field list: the first entry with a `field` name
    /// absorbs every later entry with the same name.
    pub fn remove_fields_duplicate(to_remove: Vec<YamlValue>) -> (r: Vec<YamlValue>)
        ensures
            yaml_seq_view(r@) == spec_dedup_from(
                yaml_seq_view(to_remove@),
                0,
                MERGE_FUEL as nat,
            ),
    {
        remove_fields_duplicate_fueled(&to_remove, MERGE_FUEL)
    }

    /// Merges two parsed documents into one declaration document.
    pub fn merge_two_declarations(decl_l: &YamlValue, decl_r: &YamlValue) -> (r: YamlValue)
        ensures
            r@ == spec_merge_two_declarations(decl_l@, decl_r@),
    {
        broadcast use vstd::string::group_string_axioms;

        let mut entries: Vec<&YamlValue> = Vec::new();
        proof {
            assert(refs_view(Seq::<&YamlValue>::empty()) =~= Seq::<YamlSpec>::empty());
            assert(refs_view(entries@).len() == 0);
        }
        declare_values(decl_l, &mut entries);
        declare_values(decl_r, &mut entries);
        let ghost es = spec_declare_values(decl_l@) + spec_declare_values(decl_r@);
        proof {
            assert(refs_view(entries@) =~= es);
        }
        let n = entries.len();

        // description: all non-empty strings joined with "; "
        let mut description = String::new();
        let mut i: usize = 0;
        proof {
            assert(es.skip(0) =~= es);
        }
        while i < n
            invariant
                n == entries.len(),
                refs_view(entries@) == es,
                0 <= i <= n,
                spec_desc_fold(description@, es.skip(i as int)) == spec_desc_fold(
                    Seq::empty(),
                    es,
                ),
            decreases n - i,
        {
            let ghost tail = es.skip(i as int);
            proof {
                assert(tail[0] == es[i as int]);
                assert(tail.drop_first() =~= es.skip(i as int + 1));
                assert(entries@[i as int]@ == es[i as int]);
            }
            let d_opt = match entries[i].get("description") {
                Some(v) => v.as_str(),
                None => None,
            };
            match d_opt {
                Some(d) => {
                    if !description.as_str().is_empty() {
                        description.append("; ");
                    }
                    description.append(d);
                },
                None => {},
            }
            i = i + 1;
        }
        proof {
            assert(es.skip(n as int).len() == 0);
        }

        // params and query, then headers, collected entry by entry
        let mut params: Vec<YamlValue> = Vec::new();
        let mut headers: Vec<YamlValue> = Vec::new();
        let mut i: usize = 0;
        proof {
            assert(yaml_seq_view(params@).len() == 0);
            assert(yaml_seq_view(params@) + spec_params_fold(es.skip(0)) =~= spec_params_fold(es));
            assert(yaml_seq_view(headers@) + spec_headers_fold(es.skip(0)) =~= spec_headers_fold(
                es,
            ));
        }
        while i < n
            invariant
                n == entries.len(),
                refs_view(entries@) == es,
                0 <= i <= n,
                yaml_seq_view(params@) + spec_params_fold(es.skip(i as int)) == spec_params_fold(
                    es,
                ),
                yaml_seq_view(headers@) + spec_headers_fold(es.skip(i as int))
                    == spec_headers_fold(es),
            decreases n - i,
        {
            let ghost tail = es.skip(i as int);
            proof {
                assert(tail[0] == es[i as int]);
                assert(tail.drop_first() =~= es.skip(i as int + 1));
                assert(entries@[i as int]@ == es[i as int]);
            }
            match entries[i].get("allowlist") {
                Some(al) => {
                    match al.get("params") {
                        Some(pm) => match pm.as_sequence() {
                            Some(items) => extend_copies(&mut params, items),
                            None => {},
                        },
                        None => {},
                    }
                    match al.get("query") {
                        Some(pm) => match pm.as_sequence() {
                            Some(items) => extend_copies(&mut params, items),
                            None => {},
                        },
                        None => {},
                    }
                    match al.get("headers") {
                        Some(hd) => match hd.as_sequence() {
                            Some(items) => extend_copies(&mut headers, items),
                            None => {},
                        },
                        None => {},
                    }
                },
                None => {},
            }
            proof {
                assert(yaml_seq_view(params@) + spec_params_fold(es.skip(i as int + 1))
                    =~= spec_params_fold(es));
                assert(yaml_seq_view(headers@) + spec_headers_fold(es.skip(i as int + 1))
                    =~= spec_headers_fold(es));
            }
            i = i + 1;
        }
        proof {
            assert(es.skip(n as int).len() == 0);
            assert(yaml_seq_view(params@) =~= spec_params_fold(es));
            assert(yaml_seq_view(headers@) =~= spec_headers_fold(es));
        }

        // body: the type-merge fold
        let mut body = YamlValue::Null;
        let mut i: usize = 0;
        while i < n
            invariant
                n == entries.len(),
                refs_view(entries@) == es,
                0 <= i <= n,
                spec_body_fold(body@, es.skip(i as int)) == spec_body_fold(YamlSpec::Null, es),
            decreases n - i,
        {
            let ghost tail = es.skip(i as int);
            proof {
                assert(tail[0] == es[i as int]);
                assert(tail.drop_first() =~= es.skip(i as int + 1));
                assert(entries@[i as int]@ == es[i as int]);
            }
            match entries[i].get("allowlist") {
                Some(al) => match al.get("body") {
                    Some(bd) => {
                        let body_is_null = body.is_null();
                        if body_is_null && !bd.is_null() {
                            body = bd.deep_copy();
                        } else {
                            body = Self::merge_two_types(&body, bd);
                        }
                    },
                    None => {},
                },
                None => {},
            }
            i = i + 1;
        }
        proof {
            assert(es.skip(n as int).len() == 0);
        }

        let headers = Self::remove_fields_duplicate(headers);
        let params = Self::remove_fields_duplicate(params);

        let ghost desc_spec = spec_desc_fold(Seq::<char>::empty(), es);
        let ghost params_spec = spec_dedup_from(spec_params_fold(es), 0, MERGE_FUEL as nat);
        let ghost headers_spec = spec_dedup_from(spec_headers_fold(es), 0, MERGE_FUEL as nat);
        let ghost body_spec = spec_body_fold(YamlSpec::Null, es);

        let mut allowlist_pairs: Vec<(YamlValue, YamlValue)> = Vec::new();
        allowlist_pairs.push((YamlValue::Str("params".to_owned()), YamlValue::Sequence(params)));
        allowlist_pairs.push((YamlValue::Str("headers".to_owned()), YamlValue::Sequence(headers)));
        allowlist_pairs.push((YamlValue::Str("body".to_owned()), body));
        let allowlist = YamlValue::Mapping(allowlist_pairs);
        proof {
            assert(yaml_pairs_view(allowlist_pairs@) =~= seq![
                (YamlSpec::Str("params"@), YamlSpec::Sequence(params_spec)),
                (YamlSpec::Str("headers"@), YamlSpec::Sequence(headers_spec)),
                (YamlSpec::Str("body"@), body_spec),
            ]);
        }

        let mut task_pairs: Vec<(YamlValue, YamlValue)> = Vec::new();
        task_pairs.push((YamlValue::Str("call".to_owned()), YamlValue::Str(
            "declare".to_owned(),
        )));
        task_pairs.push((YamlValue::Str("description".to_owned()), YamlValue::Str(description)));
        task_pairs.push((YamlValue::Str("allowlist".to_owned()), allowlist));
        let declare_task = YamlValue::Mapping(task_pairs);
        proof {
            assert(yaml_pairs_view(task_pairs@) =~= seq![
                (YamlSpec::Str("call"@), YamlSpec::Str("declare"@)),
                (YamlSpec::Str("description"@), YamlSpec::Str(desc_spec)),
                (YamlSpec::Str("allowlist"@), allowlist@),
            ]);
        }

        let mut outer: Vec<(YamlValue, YamlValue)> = Vec::new();
        outer.push((YamlValue::Str("declaration".to_owned()), declare_task));
        let result = YamlValue::Mapping(outer);
        proof {
            assert(yaml_pairs_view(outer@) =~= seq![
                (YamlSpec::Str("declaration"@), declare_task@),
            ]);
            assert(result@ =~~= spec_merge_two_declarations(decl_l@, decl_r@));
        }
        result
    }

    /// Folds the declaration of every guard into the endpoint's own YAML and
    /// stores the serialized document.
    pub fn merge_declaration(&mut self)
        ensures
            final (self).merged_declaration@ == crate::yaml::yaml_text_of(
                spec_endpoint_declaration(
                    old(self).yml_content@,
                    crate::parser::guards_view(old(self).guards@),
                ),
            ),
            final (self).guards == old(self).guards,
            final (self).tag == old(self).tag,
            final (self).url_path == old(self).url_path,
            final (self).method == old(self).method,
            final (self).yml_content == old(self).yml_content,
    {
        let ghost gs = crate::parser::guards_view(self.guards@);
        let mut declaration = Self::merge_two_declarations(&self.yml_content, &YamlValue::Null);
        let n = self.guards.len();
        let mut i: usize = 0;
        proof {
            assert(gs.skip(0) =~= gs);
        }
        while i < n
            invariant
                n == self.guards.len(),
                self.guards == old(self).guards,
                self.yml_content == old(self).yml_content,
                self.tag == old(self).tag,
                self.url_path == old(self).url_path,
                self.method == old(self).method,
                gs == crate::parser::guards_view(self.guards@),
                0 <= i <= n,
                spec_declaration_fold(declaration@, gs.skip(i as int)) == spec_endpoint_declaration(
                    old(self).yml_content@,
                    gs,
                ),
            decreases n - i,
        {
            let ghost tail = gs.skip(i as int);
            proof {
                assert(tail[0] == gs[i as int]);
                assert(tail.drop_first() =~= gs.skip(i as int + 1));
                assert(gs[i as int] == self.guards@[i as int]@);
            }
            declaration = Self::merge_two_declarations(&declaration, &self.guards[i].yml_content);
            i = i + 1;
        }
        proof {
            assert(gs.skip(n as int).len() == 0);
        }
        self.merged_declaration = crate::yaml::yaml_to_string(&declaration);
    }
}

/// Folding guard declarations into an accumulated declaration, outermost
/// guard first.
pub open spec fn spec_declaration_fold(acc: YamlSpec, gs: Seq<YamlSpec>) -> YamlSpec
    decreases gs.len(),
{
    if gs.len() == 0 {
        acc
    } else {
        spec_declaration_fold(spec_merge_two_declarations(acc, gs[0]), gs.drop_first())
    }
}

/// The declaration document of an endpoint: its own YAML first, then each
/// guard's, outermost first.
pub open spec fn spec_endpoint_declaration(yml: YamlSpec, gs: Seq<YamlSpec>) -> YamlSpec {
    spec_declaration_fold(spec_merge_two_declarations(yml, YamlSpec::Null), gs)
}

} // verus!

verus! {

/// Declaration merge is left-biased on descriptions: when each side carries
/// one declaration entry with a non-empty description, the merged document's
/// description is the left text, `"; "`, then the right text.
pub proof fn lemma_description_left_biased(
    l: YamlSpec,
    r: YamlSpec,
    e1: YamlSpec,
    e2: YamlSpec,
    d1: Seq<char>,
    d2: Seq<char>,
)
    requires
        spec_declare_values(l) == seq![e1],
        spec_declare_values(r) == seq![e2],
        spec_desc_of(e1) == Some(d1),
        spec_desc_of(e2) == Some(d2),
        d1.len() > 0,
        d2.len() > 0,
    ensures
        spec_get(spec_merge_two_declarations(l, r), "declaration"@) matches Some(decl)
            && spec_get(decl, "description"@) == Some(YamlSpec::Str(d1 + "; "@ + d2)),
{
    let es = spec_declare_values(l) + spec_declare_values(r);
    assert(es =~= seq![e1, e2]);
    let after1 = es.drop_first();
    assert(after1 =~= seq![e2]);
    assert(after1.drop_first().len() == 0);
    assert(Seq::<char>::empty() + d1 =~= d1);
    assert(es[0] == e1 && after1[0] == e2);
    assert(spec_desc_fold(Seq::empty(), es) == spec_desc_fold(Seq::<char>::empty() + d1, after1));
    assert(spec_desc_fold(d1, after1) == spec_desc_fold(d1 + "; "@ + d2, after1.drop_first()));
    assert(spec_desc_fold(d1 + "; "@ + d2, after1.drop_first()) == d1 + "; "@ + d2);
    assert(spec_desc_fold(Seq::empty(), es) == d1 + "; "@ + d2);
    let m = spec_merge_two_declarations(l, r);
    let outer = spec_merge_outer_pairs(l, r);
    assert(spec_get(m, "declaration"@) == spec_lookup_pairs(outer, "declaration"@));
    assert(spec_lookup_pairs(outer, "declaration"@) == Some(outer[0].1));
    let task = outer[0].1;
    let tp = task->Mapping_0;
    assert(spec_lookup_pairs(tp, "description"@) == spec_lookup_pairs(
        tp.drop_first(),
        "description"@,
    )) by {
        reveal_strlit("call");
        reveal_strlit("description");
        assert("call"@.len() == 4);
        assert("description"@.len() == 11);
    }
    assert(tp.drop_first()[0] == tp[1]);
    assert(spec_lookup_pairs(tp.drop_first(), "description"@) == Some(tp[1].1));
}

/// The mapping entries of the merged declaration document.
pub open spec fn spec_merge_outer_pairs(l: YamlSpec, r: YamlSpec) -> Seq<(YamlSpec, YamlSpec)> {
    spec_merge_two_declarations(l, r)->Mapping_0
}

/// Declaration merge is commutative on enum values read as sets: the union
/// step yields the same set of values whichever side comes first.
pub proof fn lemma_enum_union_commutative(a: Seq<YamlSpec>, b: Seq<YamlSpec>)
    ensures
        spec_unique(a + b).to_set() == spec_unique(b + a).to_set(),
{
    lemma_unique_contains(a + b);
    lemma_unique_contains(b + a);
    assert forall|x: YamlSpec| #[trigger] (a + b).contains(x) implies (b + a).contains(x) by {
        let i = choose|i: int| 0 <= i < (a + b).len() && (a + b)[i] == x;
        if i < a.len() {
            assert((b + a)[b.len() + i] == x);
        } else {
            assert((b + a)[i - a.len()] == x);
        }
    }
    assert forall|x: YamlSpec| #[trigger] (b + a).contains(x) implies (a + b).contains(x) by {
        let i = choose|i: int| 0 <= i < (b + a).len() && (b + a)[i] == x;
        if i < b.len() {
            assert((a + b)[a.len() + i] == x);
        } else {
            assert((a + b)[i - b.len()] == x);
        }
    }
    assert(spec_unique(a + b).to_set() =~= spec_unique(b + a).to_set());
}

} // verus!
