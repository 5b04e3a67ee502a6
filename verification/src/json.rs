//! JSON values as scene state holds them, and their way into and out of
//! expressions.

use vstd::prelude::*;
use vstd::set_lib::lemma_subset_equality;

use crate::strmap::{ascending, lemma_entry, lemma_value_smaller, StrMap};
use crate::text::same_text;
use crate::value::{
    doubles_equal, lemma_entries_correspond, lemma_entry_smaller, lemma_item_smaller,
    lemma_key_has_entry, lemma_list, lemma_mapping, same_doubles, vals_of, EvalValue, Val,
};

verus! {

/// A JSON number: an unsigned integer, a negative integer or a double.
#[derive(Debug, Clone, Copy)]
pub enum JsonNumber {
    /// An integer from zero up.
    PosInt(u64),
    /// An integer below zero.
    NegInt(i64),
    /// A finite double, as its bit pattern.
    Float(u64),
}

/// A JSON value.
#[derive(Debug)]
pub enum Json {
    /// `null`
    Null,
    /// `true` or `false`
    Bool(bool),
    /// A number.
    Number(JsonNumber),
    /// A string.
    String(String),
    /// An array.
    Array(Vec<Json>),
    /// An object.
    Object(StrMap<Json>),
}

/// What a [`Json`] stands for.
#[verifier::ext_equal]
pub enum JsonTree {
    /// `null`
    Null,
    /// `true` or `false`
    Bool(bool),
    /// A number.
    Number(JsonNumber),
    /// A string.
    Str(Seq<char>),
    /// An array.
    Array(Seq<JsonTree>),
    /// An object.
    Object(Map<Seq<char>, JsonTree>),
}

/// The meaning of a JSON value.
pub open spec fn json_tree(v: Json) -> JsonTree
    decreases v,
{
    match v {
        Json::Null => JsonTree::Null,
        Json::Bool(b) => JsonTree::Bool(b),
        Json::Number(n) => JsonTree::Number(n),
        Json::String(s) => JsonTree::Str(s@),
        Json::Array(items) => JsonTree::Array(
            Seq::new(
                items@.len(),
                |i: int|
                    if 0 <= i < items@.len() {
                        json_tree(items@[i])
                    } else {
                        JsonTree::Null
                    },
            ),
        ),
        Json::Object(m) => JsonTree::Object(
            Map::new(
                |k: Seq<char>| m@.contains_key(k),
                |k: Seq<char>|
                    if m@.contains_key(k) {
                        json_tree(m@[k])
                    } else {
                        JsonTree::Null
                    },
            ),
        ),
    }
}

impl View for Json {
    type V = JsonTree;

    open spec fn view(&self) -> JsonTree {
        json_tree(*self)
    }
}

/// The meanings of the values of a map, key by key.
pub open spec fn trees_of(m: Map<Seq<char>, Json>) -> Map<Seq<char>, JsonTree> {
    Map::new(|k: Seq<char>| m.contains_key(k), |k: Seq<char>| m[k]@)
}

/// An object stands for the meanings of its values.
pub proof fn lemma_object(m: StrMap<Json>)
    ensures
        Json::Object(m)@ == JsonTree::Object(trees_of(m@)),
{
    assert(Json::Object(m)@->Object_0 =~= trees_of(m@));
}

/// An array stands for the meanings of its items.
pub proof fn lemma_array(items: Vec<Json>, s: Seq<JsonTree>)
    requires
        s.len() == items@.len(),
        forall|i: int| 0 <= i < s.len() ==> items@[i]@ == #[trigger] s[i],
    ensures
        Json::Array(items)@ == JsonTree::Array(s),
{
    assert(Json::Array(items)@->Array_0 =~= s);
}

/// An array is larger than each of its items.
pub proof fn lemma_array_item_smaller(items: Vec<Json>, i: int)
    requires
        0 <= i < items@.len(),
    ensures
        decreases_to!(Json::Array(items) => items@[i]),
{
    let v = Json::Array(items);
    assert(decreases_to!(v => v->Array_0));
    assert(decreases_to!(items => items@));
    assert(decreases_to!(items@ => items@[i]));
}

/// An object is larger than each of its values.
pub(crate) proof fn lemma_object_entry_smaller(m: StrMap<Json>, i: int)
    requires
        0 <= i < m.entries@.len(),
    ensures
        decreases_to!(Json::Object(m) => m.entries@[i].1),
{
    let v = Json::Object(m);
    assert(decreases_to!(v => v->Object_0));
    assert(decreases_to!(m => m.entries));
    assert(decreases_to!(m.entries => m.entries@));
    assert(decreases_to!(m.entries@ => m.entries@[i]));
    assert(decreases_to!(m.entries@[i] => m.entries@[i].1));
}

/// Whether the bit pattern of a double is that of a finite number: its
/// exponent field is not all ones.
pub open spec fn is_finite_bits(bits: u64) -> bool {
    (bits / 0x10_0000_0000_0000) % 0x800 != 0x7ff
}

/// Whether a bit pattern is that of a finite double.
pub fn finite_bits(bits: u64) -> (r: bool)
    ensures
        r == is_finite_bits(bits),
{
    (bits / 0x10_0000_0000_0000) % 0x800 != 0x7ff
}

/// The value of a number: a signed integer where it fits one, else an unsigned
/// integer, else a double; nothing for a double that is not finite.
pub open spec fn number_val(n: JsonNumber) -> Val {
    match n {
        JsonNumber::PosInt(u) => if u <= i64::MAX {
            Val::Int(u as i64)
        } else {
            Val::UInt(u)
        },
        JsonNumber::NegInt(i) => Val::Int(i),
        JsonNumber::Float(bits) => if is_finite_bits(bits) {
            Val::Float(bits)
        } else {
            Val::Null
        },
    }
}

/// What a JSON value is to an expression.
pub open spec fn json_val(t: JsonTree) -> Val
    decreases t,
{
    match t {
        JsonTree::Null => Val::Null,
        JsonTree::Bool(b) => Val::Bool(b),
        JsonTree::Number(n) => number_val(n),
        JsonTree::Str(s) => Val::Str(s),
        JsonTree::Array(items) => Val::List(
            Seq::new(
                items.len(),
                |i: int|
                    if 0 <= i < items.len() {
                        json_val(items[i])
                    } else {
                        Val::Null
                    },
            ),
        ),
        JsonTree::Object(m) => Val::Mapping(
            Map::new(
                |k: Seq<char>| m.contains_key(k),
                |k: Seq<char>|
                    if m.contains_key(k) {
                        json_val(m[k])
                    } else {
                        Val::Null
                    },
            ),
        ),
    }
}

/// The JSON form of a value; a double that is not finite has none and is
/// `null`.
pub open spec fn val_json(v: Val) -> JsonTree
    decreases v,
{
    match v {
        Val::Null => JsonTree::Null,
        Val::Bool(b) => JsonTree::Bool(b),
        Val::Int(i) => JsonTree::Number(
            if i >= 0 {
                JsonNumber::PosInt(i as u64)
            } else {
                JsonNumber::NegInt(i)
            },
        ),
        Val::UInt(u) => JsonTree::Number(JsonNumber::PosInt(u)),
        Val::Float(bits) => if is_finite_bits(bits) {
            JsonTree::Number(JsonNumber::Float(bits))
        } else {
            JsonTree::Null
        },
        Val::Str(s) => JsonTree::Str(s),
        Val::List(items) => JsonTree::Array(
            Seq::new(
                items.len(),
                |i: int|
                    if 0 <= i < items.len() {
                        val_json(items[i])
                    } else {
                        JsonTree::Null
                    },
            ),
        ),
        Val::Mapping(m) => JsonTree::Object(
            Map::new(
                |k: Seq<char>| m.contains_key(k),
                |k: Seq<char>|
                    if m.contains_key(k) {
                        val_json(m[k])
                    } else {
                        JsonTree::Null
                    },
            ),
        ),
    }
}

/// Coerce a JSON value into a value that an expression can read.
pub fn json_to_eval_value(v: &Json) -> (r: EvalValue)
    ensures
        r@ == json_val(v@),
    decreases v,
{
    match v {
        Json::Null => EvalValue::Null,
        Json::Bool(b) => EvalValue::Bool(*b),
        Json::Number(n) => match *n {
            JsonNumber::PosInt(u) => if u <= i64::MAX as u64 {
                EvalValue::Int(u as i64)
            } else {
                EvalValue::UInt(u)
            },
            JsonNumber::NegInt(i) => EvalValue::Int(i),
            JsonNumber::Float(bits) => if finite_bits(bits) {
                EvalValue::Float(bits)
            } else {
                EvalValue::Null
            },
        },
        Json::String(s) => EvalValue::String(s.clone()),
        Json::Array(items) => {
            let mut out: Vec<EvalValue> = Vec::new();
            let mut i: usize = 0;
            while i < items.len()
                invariant
                    *v == Json::Array(*items),
                    i <= items@.len(),
                    out@.len() == i,
                    forall|j: int| 0 <= j < i ==> (#[trigger] out@[j])@ == json_val(items@[j]@),
                decreases items@.len() - i,
            {
                proof {
                    lemma_array_item_smaller(*items, i as int);
                }
                let item = json_to_eval_value(&items[i]);
                out.push(item);
                i = i + 1;
            }
            proof {
                lemma_list(out, json_val(v@)->List_0);
            }
            EvalValue::List(out)
        },
        Json::Object(m) => {
            let copy = object_to_map(m);
            proof {
                lemma_object(*m);
                lemma_mapping(copy);
                assert(vals_of(copy@) =~= json_val(v@)->Mapping_0);
            }
            EvalValue::Mapping(copy)
        },
    }
}

/// Coerce the values of an object, key by key.
pub fn object_to_map(m: &StrMap<Json>) -> (r: StrMap<EvalValue>)
    ensures
        r@.dom() == m@.dom(),
        forall|k: Seq<char>| m@.contains_key(k) ==> (#[trigger] r@[k])@ == json_val(m@[k]@),
    decreases m,
{
    proof {
        use_type_invariant(m);
    }
    let mut out: Vec<(String, EvalValue)> = Vec::new();
    let mut i: usize = 0;
    while i < m.entries.len()
        invariant
            i <= m.entries@.len(),
            out@.len() == i,
            forall|j: int|
                0 <= j < i ==> (#[trigger] out@[j]).0@ == m.entries@[j].0@ && out@[j].1@
                    == json_val(m.entries@[j].1@),
        decreases m.entries@.len() - i,
    {
        proof {
            lemma_value_smaller(*m, i as int);
        }
        let value = json_to_eval_value(&m.entries[i].1);
        out.push((m.entries[i].0.clone(), value));
        i = i + 1;
    }
    proof {
        lemma_entries_correspond(m.entries@, out@);
        assert forall|k: Seq<char>| m@.contains_key(k) implies (#[trigger] crate::strmap::entries_map(
            out@,
        )[k])@ == json_val(m@[k]@) by {
            let j = lemma_key_has_entry(m.entries@, k);
            assert(m.entries@[j].0@ == k);
        }
    }
    StrMap { entries: out }
}

/// Coerce a value into its JSON form, for storage in scene state.
pub fn eval_value_to_json(v: &EvalValue) -> (r: Json)
    ensures
        r@ == val_json(v@),
    decreases v,
{
    match v {
        EvalValue::Null => Json::Null,
        EvalValue::Bool(b) => Json::Bool(*b),
        EvalValue::Int(i) => if *i >= 0 {
            Json::Number(JsonNumber::PosInt(*i as u64))
        } else {
            Json::Number(JsonNumber::NegInt(*i))
        },
        EvalValue::UInt(u) => Json::Number(JsonNumber::PosInt(*u)),
        EvalValue::Float(bits) => if finite_bits(*bits) {
            Json::Number(JsonNumber::Float(*bits))
        } else {
            Json::Null
        },
        EvalValue::String(s) => Json::String(s.clone()),
        EvalValue::List(items) => {
            let mut out: Vec<Json> = Vec::new();
            let mut i: usize = 0;
            while i < items.len()
                invariant
                    *v == EvalValue::List(*items),
                    i <= items@.len(),
                    out@.len() == i,
                    forall|j: int| 0 <= j < i ==> (#[trigger] out@[j])@ == val_json(items@[j]@),
                decreases items@.len() - i,
            {
                proof {
                    lemma_item_smaller(*items, i as int);
                }
                let item = eval_value_to_json(&items[i]);
                out.push(item);
                i = i + 1;
            }
            proof {
                lemma_array(out, val_json(v@)->Array_0);
            }
            Json::Array(out)
        },
        EvalValue::Mapping(m) => {
            proof {
                use_type_invariant(m);
            }
            let mut out: Vec<(String, Json)> = Vec::new();
            let mut i: usize = 0;
            while i < m.entries.len()
                invariant
                    *v == EvalValue::Mapping(*m),
                    i <= m.entries@.len(),
                    out@.len() == i,
                    forall|j: int|
                        0 <= j < i ==> (#[trigger] out@[j]).0@ == m.entries@[j].0@ && out@[j].1@
                            == val_json(m.entries@[j].1@),
                decreases m.entries@.len() - i,
            {
                proof {
                    lemma_entry_smaller(*m, i as int);
                }
                let value = eval_value_to_json(&m.entries[i].1);
                out.push((m.entries[i].0.clone(), value));
                i = i + 1;
            }
            proof {
                lemma_entries_correspond(m.entries@, out@);
            }
            let copy = StrMap { entries: out };
            proof {
                lemma_mapping(*m);
                lemma_object(copy);
                assert forall|k: Seq<char>| m@.contains_key(k) implies copy@[k]@ == val_json(
                    m@[k]@,
                ) by {
                    let j = lemma_key_has_entry(m.entries@, k);
                    assert(m.entries@[j].0@ == k);
                }
                assert(trees_of(copy@) =~= val_json(v@)->Object_0);
            }
            Json::Object(copy)
        },
    }
}

/// Whether two numbers are equal: of the same form, and equal as numbers.
pub open spec fn numbers_equal(a: JsonNumber, b: JsonNumber) -> bool {
    match (a, b) {
        (JsonNumber::PosInt(x), JsonNumber::PosInt(y)) => x == y,
        (JsonNumber::NegInt(x), JsonNumber::NegInt(y)) => x == y,
        (JsonNumber::Float(x), JsonNumber::Float(y)) => doubles_equal(x, y),
        _ => false,
    }
}

/// Whether two numbers are equal.
fn same_numbers(a: JsonNumber, b: JsonNumber) -> (r: bool)
    ensures
        r == numbers_equal(a, b),
{
    match (a, b) {
        (JsonNumber::PosInt(x), JsonNumber::PosInt(y)) => x == y,
        (JsonNumber::NegInt(x), JsonNumber::NegInt(y)) => x == y,
        (JsonNumber::Float(x), JsonNumber::Float(y)) => same_doubles(x, y),
        _ => false,
    }
}

impl PartialEq for JsonNumber {
    fn eq(&self, other: &Self) -> (r: bool) {
        same_numbers(*self, *other)
    }
}

impl vstd::std_specs::cmp::PartialEqSpecImpl for JsonNumber {
    open spec fn obeys_eq_spec() -> bool {
        true
    }

    open spec fn eq_spec(&self, other: &Self) -> bool {
        numbers_equal(*self, *other)
    }
}

/// Whether two values are equal: of the same kind, with equal contents.
pub open spec fn trees_equal(a: JsonTree, b: JsonTree) -> bool
    decreases a,
{
    match (a, b) {
        (JsonTree::Null, JsonTree::Null) => true,
        (JsonTree::Bool(x), JsonTree::Bool(y)) => x == y,
        (JsonTree::Number(x), JsonTree::Number(y)) => numbers_equal(x, y),
        (JsonTree::Str(x), JsonTree::Str(y)) => x == y,
        (JsonTree::Array(x), JsonTree::Array(y)) => x.len() == y.len() && forall|i: int|
            0 <= i < x.len() ==> trees_equal(#[trigger] x[i], y[i]),
        (JsonTree::Object(x), JsonTree::Object(y)) => x.dom() == y.dom() && forall|k: Seq<char>|
            x.contains_key(k) ==> trees_equal(#[trigger] x[k], y[k]),
        _ => false,
    }
}

/// Whether two values are equal.
fn same_json(a: &Json, b: &Json) -> (r: bool)
    ensures
        r == trees_equal(a@, b@),
    decreases a,
{
    match (a, b) {
        (Json::Null, Json::Null) => true,
        (Json::Bool(x), Json::Bool(y)) => *x == *y,
        (Json::Number(x), Json::Number(y)) => same_numbers(*x, *y),
        (Json::String(x), Json::String(y)) => same_text(x.as_str(), y.as_str()),
        (Json::Array(x), Json::Array(y)) => {
            if x.len() != y.len() {
                return false;
            }
            let mut i: usize = 0;
            while i < x.len()
                invariant
                    *a == Json::Array(*x),
                    *b == Json::Array(*y),
                    x@.len() == y@.len(),
                    i <= x@.len(),
                    forall|j: int|
                        0 <= j < i ==> trees_equal(#[trigger] a@->Array_0[j], b@->Array_0[j]),
                decreases x@.len() - i,
            {
                proof {
                    lemma_array_item_smaller(*x, i as int);
                }
                let same = same_json(&x[i], &y[i]);
                assert(a@->Array_0[i as int] == x@[i as int]@);
                assert(b@->Array_0[i as int] == y@[i as int]@);
                if !same {
                    return false;
                }
                i = i + 1;
            }
            true
        },
        (Json::Object(x), Json::Object(y)) => {
            proof {
                use_type_invariant(x);
                lemma_object(*x);
                lemma_object(*y);
                assert(a@->Object_0.dom() =~= x@.dom());
                assert(b@->Object_0.dom() =~= y@.dom());
            }
            if x.len() != y.len() {
                return false;
            }
            let mut i: usize = 0;
            while i < x.entries.len()
                invariant
                    *a == Json::Object(*x),
                    *b == Json::Object(*y),
                    a@ == JsonTree::Object(trees_of(x@)),
                    b@ == JsonTree::Object(trees_of(y@)),
                    ascending(x.entries@),
                    i <= x.entries@.len(),
                    forall|j: int|
                        0 <= j < i ==> y@.contains_key((#[trigger] x.entries@[j]).0@)
                            && trees_equal(x.entries@[j].1@, y@[x.entries@[j].0@]@),
                decreases x.entries@.len() - i,
            {
                proof {
                    lemma_object_entry_smaller(*x, i as int);
                    lemma_entry(x.entries@, i as int);
                    assert(a@->Object_0.contains_key(x.entries@[i as int].0@));
                    assert(a@->Object_0[x.entries@[i as int].0@] == x.entries@[i as int].1@);
                }
                match y.get(x.entries[i].0.as_str()) {
                    None => {
                        assert(!b@->Object_0.dom().contains(x.entries@[i as int].0@));
                        return false;
                    },
                    Some(other) => {
                        if !same_json(&x.entries[i].1, other) {
                            return false;
                        }
                    },
                }
                i = i + 1;
            }
            proof {
                assert forall|k: Seq<char>| x@.contains_key(k) implies y@.contains_key(k)
                    && trees_equal(#[trigger] a@->Object_0[k], b@->Object_0[k]) by {
                    let j = lemma_key_has_entry(x.entries@, k);
                    assert(x.entries@[j].0@ == k);
                    lemma_entry(x.entries@, j);
                }
                assert forall|k: Seq<char>| x@.dom().contains(k) implies y@.dom().contains(k) by {
                    assert(x@.contains_key(k));
                    assert(trees_equal(a@->Object_0[k], b@->Object_0[k]));
                }
                lemma_subset_equality(x@.dom(), y@.dom());
            }
            true
        },
        _ => false,
    }
}

impl PartialEq for Json {
    fn eq(&self, other: &Self) -> (r: bool) {
        same_json(self, other)
    }
}

impl vstd::std_specs::cmp::PartialEqSpecImpl for Json {
    open spec fn obeys_eq_spec() -> bool {
        true
    }

    open spec fn eq_spec(&self, other: &Self) -> bool {
        trees_equal(self@, other@)
    }
}

impl Clone for Json {
    fn clone(&self) -> (r: Self)
        ensures
            r@ == self@,
        decreases self,
    {
        match self {
            Json::Null => Json::Null,
            Json::Bool(b) => Json::Bool(*b),
            Json::Number(n) => Json::Number(*n),
            Json::String(s) => Json::String(s.clone()),
            Json::Array(items) => {
                let mut out: Vec<Json> = Vec::new();
                let mut i: usize = 0;
                while i < items.len()
                    invariant
                        *self == Json::Array(*items),
                        i <= items@.len(),
                        out@.len() == i,
                        forall|j: int| 0 <= j < i ==> (#[trigger] out@[j])@ == items@[j]@,
                    decreases items@.len() - i,
                {
                    proof {
                        lemma_array_item_smaller(*items, i as int);
                    }
                    let item = items[i].clone();
                    out.push(item);
                    i = i + 1;
                }
                proof {
                    lemma_array(out, self@->Array_0);
                }
                Json::Array(out)
            },
            Json::Object(m) => {
                let copy = m.clone();
                proof {
                    lemma_object(*m);
                    lemma_object(copy);
                    assert(trees_of(m@) =~= trees_of(copy@));
                }
                Json::Object(copy)
            },
        }
    }
}

impl Clone for StrMap<Json> {
    fn clone(&self) -> (r: Self)
        ensures
            r@.dom() == self@.dom(),
            forall|k: Seq<char>| self@.contains_key(k) ==> (#[trigger] r@[k])@ == self@[k]@,
        decreases self,
    {
        proof {
            use_type_invariant(self);
        }
        let mut out: Vec<(String, Json)> = Vec::new();
        let mut i: usize = 0;
        while i < self.entries.len()
            invariant
                i <= self.entries@.len(),
                out@.len() == i,
                forall|j: int|
                    0 <= j < i ==> (#[trigger] out@[j]).0@ == self.entries@[j].0@ && out@[j].1@
                        == self.entries@[j].1@,
            decreases self.entries@.len() - i,
        {
            proof {
                lemma_value_smaller(*self, i as int);
            }
            let value = self.entries[i].1.clone();
            out.push((self.entries[i].0.clone(), value));
            i = i + 1;
        }
        proof {
            lemma_entries_correspond(self.entries@, out@);
            assert forall|k: Seq<char>| self@.contains_key(k) implies (
            #[trigger] crate::strmap::entries_map(out@)[k])@ == self@[k]@ by {
                let j = lemma_key_has_entry(self.entries@, k);
                assert(self.entries@[j].0@ == k);
            }
        }
        StrMap { entries: out }
    }
}

/// A number is well formed: the form that a negative integer has is for
/// negative integers, and a double is finite.
pub open spec fn number_ok(n: JsonNumber) -> bool {
    match n {
        JsonNumber::PosInt(_) => true,
        JsonNumber::NegInt(i) => i < 0,
        JsonNumber::Float(bits) => is_finite_bits(bits),
    }
}

/// All numbers in a JSON value are well formed.
pub open spec fn json_ok(t: JsonTree) -> bool
    decreases t,
{
    match t {
        JsonTree::Number(n) => number_ok(n),
        JsonTree::Array(items) => forall|i: int|
            0 <= i < items.len() ==> json_ok(#[trigger] items[i]),
        JsonTree::Object(m) => forall|k: Seq<char>| m.contains_key(k) ==> json_ok(#[trigger] m[k]),
        _ => true,
    }
}

/// A value in the form in which it comes back out of JSON: an unsigned integer
/// that fits a signed one is signed, a double that is not finite is missing.
pub open spec fn settled(v: Val) -> Val
    decreases v,
{
    match v {
        Val::UInt(u) => if u <= i64::MAX {
            Val::Int(u as i64)
        } else {
            v
        },
        Val::Float(bits) => if is_finite_bits(bits) {
            v
        } else {
            Val::Null
        },
        Val::List(items) => Val::List(
            Seq::new(
                items.len(),
                |i: int|
                    if 0 <= i < items.len() {
                        settled(items[i])
                    } else {
                        Val::Null
                    },
            ),
        ),
        Val::Mapping(m) => Val::Mapping(
            Map::new(
                |k: Seq<char>| m.contains_key(k),
                |k: Seq<char>|
                    if m.contains_key(k) {
                        settled(m[k])
                    } else {
                        Val::Null
                    },
            ),
        ),
        _ => v,
    }
}

/// State survives a trip through an expression: a well-formed JSON value that
/// is handed to an expression and stored again is the same value.
pub proof fn law_json_survives_evaluation(t: JsonTree)
    requires
        json_ok(t),
    ensures
        val_json(json_val(t)) == t,
    decreases t,
{
    match t {
        JsonTree::Array(items) => {
            assert forall|i: int| 0 <= i < items.len() implies val_json(json_val(items[i]))
                == #[trigger] items[i] by {
                assert(json_ok(items[i]));
                law_json_survives_evaluation(items[i]);
            }
            assert(val_json(json_val(t))->Array_0 =~= items);
        },
        JsonTree::Object(m) => {
            assert forall|k: Seq<char>| m.contains_key(k) implies val_json(json_val(m[k]))
                == #[trigger] m[k] by {
                assert(json_ok(m[k]));
                law_json_survives_evaluation(m[k]);
            }
            assert(val_json(json_val(t))->Object_0 =~= m);
        },
        _ => {},
    }
}

/// What an expression reads back after its result was stored is that result,
/// settled.
pub proof fn law_value_read_back_is_settled(v: Val)
    ensures
        json_val(val_json(v)) == settled(v),
    decreases v,
{
    match v {
        Val::List(items) => {
            assert forall|i: int| 0 <= i < items.len() implies json_val(
                val_json(#[trigger] items[i]),
            ) == settled(items[i]) by {
                law_value_read_back_is_settled(items[i]);
            }
            assert(json_val(val_json(v))->List_0 =~= settled(v)->List_0);
        },
        Val::Mapping(m) => {
            assert forall|k: Seq<char>| m.contains_key(k) implies json_val(
                val_json(#[trigger] m[k]),
            ) == settled(m[k]) by {
                law_value_read_back_is_settled(m[k]);
            }
            assert(json_val(val_json(v))->Mapping_0 =~= settled(v)->Mapping_0);
        },
        _ => {},
    }
}

/// Every result of an expression is stored as well-formed JSON.
pub proof fn law_stored_values_are_well_formed(v: Val)
    ensures
        json_ok(val_json(v)),
    decreases v,
{
    match v {
        Val::List(items) => {
            assert forall|i: int| 0 <= i < items.len() implies json_ok(
                #[trigger] val_json(v)->Array_0[i],
            ) by {
                law_stored_values_are_well_formed(items[i]);
            }
        },
        Val::Mapping(m) => {
            assert forall|k: Seq<char>| m.contains_key(k) implies json_ok(
                #[trigger] val_json(v)->Object_0[k],
            ) by {
                law_stored_values_are_well_formed(m[k]);
            }
        },
        _ => {},
    }
}

/// What a JSON value is to an expression, kind by kind: text, booleans and `null`
/// as themselves; a number as a signed integer where it fits one, else as an
/// unsigned one, and as a double where it is one; a list item by item and an
/// object field by field.
pub proof fn law_json_reads_kind_by_kind(t: JsonTree)
    ensures
        t is Null ==> json_val(t) == Val::Null,
        t matches JsonTree::Bool(b) ==> json_val(t) == Val::Bool(b),
        t matches JsonTree::Str(s) ==> json_val(t) == Val::Str(s),
        t matches JsonTree::Number(JsonNumber::PosInt(u)) ==> if u <= 0x7fff_ffff_ffff_ffff {
            json_val(t) matches Val::Int(i) && i == u
        } else {
            json_val(t) == Val::UInt(u)
        },
        t matches JsonTree::Number(JsonNumber::NegInt(i)) ==> json_val(t) == Val::Int(i),
        t matches JsonTree::Number(JsonNumber::Float(bits)) ==> (json_val(t) == if (bits
            / 0x10_0000_0000_0000) % 0x800 != 0x7ff {
            Val::Float(bits)
        } else {
            Val::Null
        }),
        t matches JsonTree::Array(items) ==> (json_val(t) matches Val::List(vs) && vs.len()
            == items.len() && forall|i: int|
            0 <= i < items.len() ==> #[trigger] vs[i] == json_val(items[i])),
        t matches JsonTree::Object(m) ==> (json_val(t) matches Val::Mapping(vs) && forall|
            k: Seq<char>,
        |
            (#[trigger] vs.contains_key(k) <==> m.contains_key(k)) && (m.contains_key(k) ==> vs[k]
                == json_val(m[k]))),
{
}

/// What a value is stored as, kind by kind: an integer as an integer, negative or
/// not, a double as a double where it is finite and else as `null`, a list item by
/// item and a map field by field.
pub proof fn law_values_are_stored_kind_by_kind(v: Val)
    ensures
        v is Null ==> val_json(v) == JsonTree::Null,
        v matches Val::Bool(b) ==> val_json(v) == JsonTree::Bool(b),
        v matches Val::Str(s) ==> val_json(v) == JsonTree::Str(s),
        v matches Val::UInt(u) ==> val_json(v) == JsonTree::Number(JsonNumber::PosInt(u)),
        v matches Val::Int(i) ==> if i < 0 {
            val_json(v) == JsonTree::Number(JsonNumber::NegInt(i))
        } else {
            val_json(v) matches JsonTree::Number(JsonNumber::PosInt(u)) && u == i
        },
        v matches Val::Float(bits) ==> (val_json(v) == if (bits / 0x10_0000_0000_0000) % 0x800
            != 0x7ff {
            JsonTree::Number(JsonNumber::Float(bits))
        } else {
            JsonTree::Null
        }),
        v matches Val::List(items) ==> (val_json(v) matches JsonTree::Array(ts) && ts.len()
            == items.len() && forall|i: int|
            0 <= i < items.len() ==> #[trigger] ts[i] == val_json(items[i])),
        v matches Val::Mapping(m) ==> (val_json(v) matches JsonTree::Object(ts) && forall|
            k: Seq<char>,
        |
            (#[trigger] ts.contains_key(k) <==> m.contains_key(k)) && (m.contains_key(k) ==> ts[k]
                == val_json(m[k]))),
{
}

/// Storing changes a value only in its unsigned integers that fit a signed one and
/// in its doubles that are not finite.
pub proof fn law_storing_settles_numbers_only(v: Val)
    ensures
        v is Null || v is Bool || v is Int || v is Str ==> settled(v) == v,
        v matches Val::UInt(u) ==> if u <= 0x7fff_ffff_ffff_ffff {
            settled(v) matches Val::Int(i) && i == u
        } else {
            settled(v) == v
        },
        v matches Val::Float(bits) ==> (settled(v) == if (bits / 0x10_0000_0000_0000) % 0x800
            != 0x7ff {
            v
        } else {
            Val::Null
        }),
        v matches Val::List(items) ==> (settled(v) matches Val::List(vs) && vs.len() == items.len()
            && forall|i: int| 0 <= i < items.len() ==> #[trigger] vs[i] == settled(items[i])),
        v matches Val::Mapping(m) ==> (settled(v) matches Val::Mapping(vs) && forall|k: Seq<char>|
            (#[trigger] vs.contains_key(k) <==> m.contains_key(k)) && (m.contains_key(k) ==> vs[k]
                == settled(m[k]))),
{
}

/// Equal JSON values are equal both ways, and a value equals itself where no
/// number in it is a NaN. Values of different kinds are not equal.
pub proof fn law_json_equality_goes_both_ways(a: JsonTree, b: JsonTree)
    ensures
        trees_equal(a, b) == trees_equal(b, a),
        json_ok(a) ==> trees_equal(a, a),
        a matches JsonTree::Str(s) ==> trees_equal(a, b) == (b == JsonTree::Str(s)),
        a matches JsonTree::Bool(x) ==> trees_equal(a, b) == (b == JsonTree::Bool(x)),
        a is Null ==> trees_equal(a, b) == (b is Null),
    decreases a,
{
    match a {
        JsonTree::Array(x) => {
            assert forall|i: int| 0 <= i < x.len() && json_ok(a) implies trees_equal(
                #[trigger] x[i],
                x[i],
            ) by {
                assert(json_ok(x[i]));
                law_json_equality_goes_both_ways(x[i], x[i]);
            }
            if let JsonTree::Array(y) = b {
                if x.len() == y.len() {
                    assert forall|i: int| 0 <= i < x.len() implies trees_equal(
                        #[trigger] x[i],
                        y[i],
                    ) == trees_equal(y[i], x[i]) by {
                        law_json_equality_goes_both_ways(x[i], y[i]);
                    }
                    if trees_equal(a, b) {
                        assert forall|i: int| 0 <= i < y.len() implies trees_equal(
                            #[trigger] y[i],
                            x[i],
                        ) by {
                            assert(trees_equal(x[i], y[i]));
                        }
                    }
                    if trees_equal(b, a) {
                        assert forall|i: int| 0 <= i < x.len() implies trees_equal(
                            #[trigger] x[i],
                            y[i],
                        ) by {
                            assert(trees_equal(y[i], x[i]));
                        }
                    }
                }
            }
        },
        JsonTree::Object(x) => {
            assert forall|k: Seq<char>| x.contains_key(k) && json_ok(a) implies trees_equal(
                #[trigger] x[k],
                x[k],
            ) by {
                assert(json_ok(x[k]));
                law_json_equality_goes_both_ways(x[k], x[k]);
            }
            if let JsonTree::Object(y) = b {
                if x.dom() == y.dom() {
                    assert forall|k: Seq<char>| x.contains_key(k) implies trees_equal(
                        #[trigger] x[k],
                        y[k],
                    ) == trees_equal(y[k], x[k]) by {
                        law_json_equality_goes_both_ways(x[k], y[k]);
                    }
                    if trees_equal(a, b) {
                        assert forall|k: Seq<char>| y.contains_key(k) implies trees_equal(
                            #[trigger] y[k],
                            x[k],
                        ) by {
                            assert(x.dom().contains(k));
                            assert(trees_equal(x[k], y[k]));
                        }
                    }
                    if trees_equal(b, a) {
                        assert forall|k: Seq<char>| x.contains_key(k) implies trees_equal(
                            #[trigger] x[k],
                            y[k],
                        ) by {
                            assert(y.dom().contains(k));
                            assert(trees_equal(y[k], x[k]));
                        }
                    }
                }
            }
        },
        _ => {},
    }
}

/// Numbers of JSON are equal within their kind only: integers if they are the same,
/// doubles as numbers are. Lists and objects are equal item by item and field by
/// field.
pub proof fn law_json_compares_kind_by_kind(a: JsonTree, b: JsonTree)
    ensures
        a matches JsonTree::Number(JsonNumber::PosInt(x)) ==> trees_equal(a, b) == (b == a),
        a matches JsonTree::Number(JsonNumber::NegInt(x)) ==> trees_equal(a, b) == (b == a),
        a matches JsonTree::Number(JsonNumber::Float(x)) ==> trees_equal(a, b) == (
        b matches JsonTree::Number(JsonNumber::Float(y)) && doubles_equal(x, y)),
        a matches JsonTree::Array(x) ==> trees_equal(a, b) == (b matches JsonTree::Array(y)
            && x.len() == y.len() && forall|i: int|
            0 <= i < x.len() ==> trees_equal(#[trigger] x[i], y[i])),
        a matches JsonTree::Object(x) ==> trees_equal(a, b) == (b matches JsonTree::Object(y)
            && x.dom() == y.dom() && forall|k: Seq<char>|
            x.contains_key(k) ==> trees_equal(#[trigger] x[k], y[k])),
{
}

} // verus!
