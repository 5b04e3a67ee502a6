//! JSON values as text, by way of the `serde_json` crate.

use serde_json::ser::Formatter;
use serde_json::Value as SerdeValue;
use vstd::prelude::*;

use crate::json::{
    is_finite_bits, json_ok, lemma_array, lemma_array_item_smaller, lemma_object,
    lemma_object_entry_smaller, trees_of, Json, JsonNumber, JsonTree,
};
use crate::strmap::{
    ascending, entries_map, has_key, key_index, lemma_distinct, lemma_entry, StrMap,
};
use crate::value::{lemma_entries_correspond, lemma_key_has_entry};

verus! {

/// A JSON value of `serde_json`.
#[verifier::external_type_specification]
#[verifier::external_body]
pub struct ExSerdeValue(serde_json::Value);

/// What a `serde_json` value holds.
pub uninterp spec fn serde_tree(v: SerdeValue) -> JsonTree;

/// The compact text that `serde_json` writes for a value.
pub uninterp spec fn compact_text(t: JsonTree) -> Seq<char>;

/// The indented text that `serde_json` writes for a value.
pub uninterp spec fn pretty_text(t: JsonTree) -> Seq<char>;

/// What a `serde_json` value is made of.
pub enum SerdeParts {
    /// `null`
    Null,
    /// `true` or `false`
    Bool(bool),
    /// An integer from zero up.
    PosInt(u64),
    /// An integer below zero.
    NegInt(i64),
    /// A finite double, as its bit pattern.
    Float(u64),
    /// A string.
    Str(String),
    /// Items of an array.
    Array(Vec<SerdeValue>),
    /// Members of an object.
    Object(Vec<(String, SerdeValue)>),
}

/// The object that members stand for.
pub open spec fn serde_members(s: Seq<(String, SerdeValue)>) -> Map<Seq<char>, JsonTree> {
    Map::new(|k: Seq<char>| has_key(s, k), |k: Seq<char>| serde_tree(s[key_index(s, k)].1))
}

/// No two members have the same name.
pub open spec fn names_distinct(s: Seq<(String, SerdeValue)>) -> bool {
    forall|i: int, j: int| 0 <= i < j < s.len() ==> (#[trigger] s[i]).0@ != (#[trigger] s[j]).0@
}

/// The parts are those of one value.
pub open spec fn parts_ok(p: SerdeParts) -> bool {
    match p {
        SerdeParts::NegInt(i) => i < 0,
        SerdeParts::Float(bits) => is_finite_bits(bits),
        SerdeParts::Object(members) => names_distinct(members@),
        _ => true,
    }
}

/// What a value made of these parts stands for.
pub open spec fn serde_parts_tree(p: SerdeParts) -> JsonTree {
    match p {
        SerdeParts::Null => JsonTree::Null,
        SerdeParts::Bool(b) => JsonTree::Bool(b),
        SerdeParts::PosInt(u) => JsonTree::Number(JsonNumber::PosInt(u)),
        SerdeParts::NegInt(i) => JsonTree::Number(JsonNumber::NegInt(i)),
        SerdeParts::Float(bits) => JsonTree::Number(JsonNumber::Float(bits)),
        SerdeParts::Str(s) => JsonTree::Str(s@),
        SerdeParts::Array(items) => JsonTree::Array(
            Seq::new(items@.len(), |i: int| serde_tree(items@[i])),
        ),
        SerdeParts::Object(members) => JsonTree::Object(serde_members(members@)),
    }
}

/// Makes a `serde_json::Value`: the variant that the parts name, with their
/// contents; numbers by `serde_json::Number`'s conversions.
#[verifier::external_body]
fn serde_build(p: SerdeParts) -> (r: SerdeValue)
    requires
        parts_ok(p),
    ensures
        serde_tree(r) == serde_parts_tree(p),
{
    match p {
        SerdeParts::Null => SerdeValue::Null,
        SerdeParts::Bool(b) => SerdeValue::Bool(b),
        SerdeParts::PosInt(u) => SerdeValue::Number(u.into()),
        SerdeParts::NegInt(i) => SerdeValue::Number(i.into()),
        SerdeParts::Float(bits) => {
            let number = serde_json::Number::from_f64(bytemuck::cast(bits));
            number.map_or(SerdeValue::Null, SerdeValue::Number)
        },
        SerdeParts::Str(s) => SerdeValue::String(s),
        SerdeParts::Array(items) => SerdeValue::Array(items),
        SerdeParts::Object(members) => SerdeValue::Object(members.into_iter().collect()),
    }
}

/// Opens a `serde_json::Value` by one level: the variant it is, with its
/// contents. A number is an unsigned integer if it fits one, else a negative
/// one, else a double, which is finite. No member name comes twice.
#[verifier::external_body]
fn serde_open(v: &SerdeValue) -> (r: SerdeParts)
    ensures
        serde_parts_tree(r) == serde_tree(*v),
        parts_ok(r),
{
    match v {
        SerdeValue::Null => SerdeParts::Null,
        SerdeValue::Bool(b) => SerdeParts::Bool(*b),
        SerdeValue::Number(n) => match (n.as_u64(), n.as_i64(), n.as_f64()) {
            (Some(u), _, _) => SerdeParts::PosInt(u),
            (_, Some(i), _) => SerdeParts::NegInt(i),
            (_, _, f) => SerdeParts::Float(f.unwrap_or_default().to_bits()),
        },
        SerdeValue::String(s) => SerdeParts::Str(s.clone()),
        SerdeValue::Array(items) => SerdeParts::Array(items.clone()),
        SerdeValue::Object(m) => SerdeParts::Object(m.clone().into_iter().collect()),
    }
}

/// What parsing a text as JSON gives: a value, or the text of the error.
pub uninterp spec fn parsed_json(text: Seq<char>) -> Result<JsonTree, Seq<char>>;

/// The outcome of parsing.
pub open spec fn parsing(r: Result<SerdeValue, String>) -> Result<JsonTree, Seq<char>> {
    match r {
        Ok(v) => Ok(serde_tree(v)),
        Err(e) => Err(e@),
    }
}

/// `serde_json::from_str` to a value: what the text parses to, or the text of
/// the error.
#[verifier::external_body]
fn serde_parse(text: &str) -> (r: Result<SerdeValue, String>)
    ensures
        parsing(r) == parsed_json(text@),
{
    serde_json::from_str::<SerdeValue>(text).map_err(|e| e.to_string())
}

/// `serde_json::Value`'s `to_string`: the compact text of the value.
#[verifier::external_body]
fn serde_compact(v: &SerdeValue) -> (r: String)
    ensures
        r@ == compact_text(serde_tree(*v)),
{
    v.to_string()
}

/// `serde_json::to_string_pretty`: the indented text of the value. It fails on
/// no value of this type.
#[verifier::external_body]
fn serde_pretty(v: &SerdeValue) -> (r: String)
    ensures
        r@ == pretty_text(serde_tree(*v)),
{
    serde_json::to_string_pretty(v).unwrap()
}

/// Whether the bit pattern of a single-precision number is that of a finite one:
/// its exponent field is not all ones.
pub open spec fn is_finite_single(bits: u32) -> bool {
    (bits / 0x80_0000) % 0x100 != 0xff
}

/// Whether a bit pattern is that of a finite single-precision number.
pub fn finite_single(bits: u32) -> (r: bool)
    ensures
        r == is_finite_single(bits),
{
    (bits / 0x80_0000) % 0x100 != 0xff
}

/// The text that `serde_json` writes for a finite single-precision number, by
/// its bits.
pub uninterp spec fn single_text(bits: u32) -> Seq<char>;

/// `write_f32` of `serde_json`'s formatter, which is for finite numbers: the text
/// of the number, which depends on its bits alone. Writing to memory does not
/// fail, and what is written is ASCII.
#[verifier::external_body]
pub(crate) fn write_single(bits: u32) -> (r: String)
    requires
        is_finite_single(bits),
    ensures
        r@ == single_text(bits),
{
    let mut out: Vec<u8> = Vec::new();
    serde_json::ser::CompactFormatter.write_f32(&mut out, bytemuck::cast(bits)).unwrap();
    String::from_utf8(out).unwrap()
}

/// The `serde_json` form of a JSON value.
pub fn to_serde(j: &Json) -> (r: SerdeValue)
    requires
        json_ok(j@),
    ensures
        serde_tree(r) == j@,
    decreases j,
{
    match j {
        Json::Null => serde_build(SerdeParts::Null),
        Json::Bool(b) => serde_build(SerdeParts::Bool(*b)),
        Json::Number(n) => match *n {
            JsonNumber::PosInt(u) => serde_build(SerdeParts::PosInt(u)),
            JsonNumber::NegInt(i) => serde_build(SerdeParts::NegInt(i)),
            JsonNumber::Float(bits) => serde_build(SerdeParts::Float(bits)),
        },
        Json::String(s) => serde_build(SerdeParts::Str(s.clone())),
        Json::Array(items) => {
            let mut out: Vec<SerdeValue> = Vec::new();
            let mut i: usize = 0;
            while i < items.len()
                invariant
                    *j == Json::Array(*items),
                    json_ok(j@),
                    i <= items@.len(),
                    out@.len() == i,
                    forall|k: int| 0 <= k < i ==> serde_tree(#[trigger] out@[k]) == items@[k]@,
                decreases items@.len() - i,
            {
                proof {
                    lemma_array_item_smaller(*items, i as int);
                    assert(j@->Array_0[i as int] == items@[i as int]@);
                }
                let item = to_serde(&items[i]);
                out.push(item);
                i = i + 1;
            }
            assert(serde_parts_tree(SerdeParts::Array(out))->Array_0 =~= j@->Array_0);
            serde_build(SerdeParts::Array(out))
        },
        Json::Object(m) => {
            proof {
                use_type_invariant(m);
                lemma_object(*m);
            }
            let mut out: Vec<(String, SerdeValue)> = Vec::new();
            let mut i: usize = 0;
            while i < m.entries.len()
                invariant
                    *j == Json::Object(*m),
                    json_ok(j@),
                    j@ == JsonTree::Object(trees_of(m@)),
                    ascending(m.entries@),
                    i <= m.entries@.len(),
                    out@.len() == i,
                    forall|k: int|
                        0 <= k < i ==> (#[trigger] out@[k]).0@ == m.entries@[k].0@ && serde_tree(
                            out@[k].1,
                        ) == m.entries@[k].1@,
                decreases m.entries@.len() - i,
            {
                proof {
                    lemma_object_entry_smaller(*m, i as int);
                    lemma_entry(m.entries@, i as int);
                    let key = m.entries@[i as int].0@;
                    assert(j@->Object_0.contains_key(key));
                    assert(json_ok(j@->Object_0[key]));
                    assert(trees_of(m@)[key] == m.entries@[i as int].1@);
                }
                let value = to_serde(&m.entries[i].1);
                out.push((m.entries[i].0.clone(), value));
                i = i + 1;
            }
            proof {
                lemma_entries_correspond(m.entries@, out@);
                assert(names_distinct(out@)) by {
                    assert forall|a: int, b: int| 0 <= a < b < out@.len() implies (
                    #[trigger] out@[a]).0@ != (#[trigger] out@[b]).0@ by {
                        if out@[a].0@ == out@[b].0@ {
                            lemma_distinct(out@, a, b);
                        }
                    }
                }
                let want = trees_of(m@);
                let have = serde_members(out@);
                assert forall|k: Seq<char>| want.contains_key(k) == have.contains_key(k) by {
                    assert(m@.contains_key(k) == entries_map(out@).contains_key(k));
                }
                assert forall|k: Seq<char>| want.contains_key(k) implies want[k] == have[k] by {
                    let n = lemma_key_has_entry(m.entries@, k);
                    assert(m.entries@[n].0@ == k);
                    lemma_entry(out@, n);
                }
                assert(want =~= have);
            }
            serde_build(SerdeParts::Object(out))
        },
    }
}

/// The JSON value that a `serde_json` value holds.
pub fn from_serde(v: &SerdeValue) -> (r: Json)
    ensures
        r@ == serde_tree(*v),
        json_ok(r@),
    decreases serde_tree(*v),
{
    match serde_open(v) {
        SerdeParts::Null => Json::Null,
        SerdeParts::Bool(b) => Json::Bool(b),
        SerdeParts::PosInt(u) => Json::Number(JsonNumber::PosInt(u)),
        SerdeParts::NegInt(i) => Json::Number(JsonNumber::NegInt(i)),
        SerdeParts::Float(bits) => Json::Number(JsonNumber::Float(bits)),
        SerdeParts::Str(s) => Json::String(s),
        SerdeParts::Array(items) => {
            let mut out: Vec<Json> = Vec::new();
            let mut i: usize = 0;
            while i < items.len()
                invariant
                    serde_tree(*v) == serde_parts_tree(SerdeParts::Array(items)),
                    i <= items@.len(),
                    out@.len() == i,
                    forall|k: int|
                        0 <= k < i ==> (#[trigger] out@[k])@ == serde_tree(items@[k]) && json_ok(
                            out@[k]@,
                        ),
                decreases items@.len() - i,
            {
                proof {
                    let t = serde_tree(*v);
                    assert(decreases_to!(t => t->Array_0));
                    assert(decreases_to!(t->Array_0 => t->Array_0[i as int]));
                }
                let item = from_serde(&items[i]);
                out.push(item);
                i = i + 1;
            }
            proof {
                let want = serde_tree(*v)->Array_0;
                lemma_array(out, want);
                assert forall|k: int| 0 <= k < want.len() implies json_ok(#[trigger] want[k]) by {
                    assert(out@[k]@ == want[k]);
                }
            }
            Json::Array(out)
        },
        SerdeParts::Object(members) => {
            let mut out: StrMap<Json> = StrMap::new();
            let mut i: usize = 0;
            while i < members.len()
                invariant
                    serde_tree(*v) == JsonTree::Object(serde_members(members@)),
                    names_distinct(members@),
                    i <= members@.len(),
                    forall|k: Seq<char>|
                        #[trigger] out@.contains_key(k) ==> exists|j: int|
                            0 <= j < i && (#[trigger] members@[j]).0@ == k,
                    forall|j: int|
                        0 <= j < i ==> ({
                            let k = (#[trigger] members@[j]).0@;
                            out@.contains_key(k) && out@[k]@ == serde_tree(members@[j].1)
                                && json_ok(out@[k]@)
                        }),
                decreases members@.len() - i,
            {
                let ghost before = out@;
                proof {
                    lemma_member(members@, i as int);
                    let t = serde_tree(*v);
                    assert(decreases_to!(t => t->Object_0[members@[i as int].0@]));
                }
                let value = from_serde(&members[i].1);
                out.insert(members[i].0.clone(), value);
                proof {
                    assert forall|k: Seq<char>| #[trigger]
                        out@.contains_key(k) implies exists|j: int|
                        0 <= j < i + 1 && (#[trigger] members@[j]).0@ == k by {
                        if k == members@[i as int].0@ {
                        } else {
                            assert(before.contains_key(k));
                        }
                    }
                }
                i = i + 1;
            }
            proof {
                lemma_object(out);
                let want = serde_members(members@);
                assert forall|k: Seq<char>| want.contains_key(k) implies trees_of(
                    out@,
                ).contains_key(k) && trees_of(out@)[k] == want[k] && json_ok(#[trigger] want[k]) by {
                    let j = key_index(members@, k);
                    lemma_member(members@, j);
                    assert(members@[j].0@ == k);
                }
                assert forall|k: Seq<char>| out@.contains_key(k) implies want.contains_key(k) by {
                    let j = choose|j: int| 0 <= j < i && (#[trigger] members@[j]).0@ == k;
                    lemma_member(members@, j);
                }
                assert(trees_of(out@) =~= want);
            }
            Json::Object(out)
        },
    }
}

/// Where names are distinct, each member is the one that its name leads to.
proof fn lemma_member(s: Seq<(String, SerdeValue)>, i: int)
    requires
        names_distinct(s),
        0 <= i < s.len(),
    ensures
        serde_members(s).contains_key(s[i].0@),
        serde_members(s)[s[i].0@] == serde_tree(s[i].1),
{
    let k = s[i].0@;
    assert(has_key(s, k));
    let j = key_index(s, k);
    if i < j {
        assert(s[i].0@ != s[j].0@);
    }
    if j < i {
        assert(s[j].0@ != s[i].0@);
    }
}

/// Parse a text as JSON.
pub fn parse_json(text: &str) -> (r: Result<Json, String>)
    ensures
        match r {
            Ok(j) => parsed_json(text@) == Ok::<JsonTree, Seq<char>>(j@) && json_ok(j@),
            Err(e) => parsed_json(text@) == Err::<JsonTree, Seq<char>>(e@),
        },
{
    match serde_parse(text) {
        Ok(v) => Ok(from_serde(&v)),
        Err(e) => Err(e),
    }
}

/// The compact text of a JSON value.
pub fn json_compact(j: &Json) -> (r: String)
    requires
        json_ok(j@),
    ensures
        r@ == compact_text(j@),
{
    serde_compact(&to_serde(j))
}

/// The indented text of a JSON value.
pub fn json_pretty(j: &Json) -> (r: String)
    requires
        json_ok(j@),
    ensures
        r@ == pretty_text(j@),
{
    serde_pretty(&to_serde(j))
}

} // verus!
