//! The engine-neutral values that expressions read and produce.

use vstd::prelude::*;
use vstd::set_lib::lemma_subset_equality;

use crate::strmap::{
    ascending, entries_map, has_key, key_index, lemma_entry, lemma_value_smaller, StrMap,
};
use crate::text::same_text;

verus! {

/// A value produced by an expression, or bound in its environment.
///
/// Narrower than what any single engine knows: just the variants that scene
/// state and interface state need.
#[derive(Debug)]
pub enum EvalValue {
    /// A missing value.
    Null,
    /// Boolean.
    Bool(bool),
    /// Signed 64-bit integer.
    Int(i64),
    /// Unsigned 64-bit integer.
    UInt(u64),
    /// IEEE-754 double, as its bit pattern.
    Float(u64),
    /// Owned text.
    String(String),
    /// Ordered list of further values.
    List(Vec<EvalValue>),
    /// String-keyed map.
    Mapping(StrMap<EvalValue>),
}

/// What an [`EvalValue`] stands for.
#[verifier::ext_equal]
pub enum Val {
    /// A missing value.
    Null,
    /// Boolean.
    Bool(bool),
    /// Signed integer.
    Int(i64),
    /// Unsigned integer.
    UInt(u64),
    /// Bit pattern of a double.
    Float(u64),
    /// Text.
    Str(Seq<char>),
    /// List.
    List(Seq<Val>),
    /// String-keyed map.
    Mapping(Map<Seq<char>, Val>),
}

/// The meaning of a value.
pub open spec fn val_of(v: EvalValue) -> Val
    decreases v,
{
    match v {
        EvalValue::Null => Val::Null,
        EvalValue::Bool(b) => Val::Bool(b),
        EvalValue::Int(i) => Val::Int(i),
        EvalValue::UInt(u) => Val::UInt(u),
        EvalValue::Float(bits) => Val::Float(bits),
        EvalValue::String(s) => Val::Str(s@),
        EvalValue::List(items) => Val::List(
            Seq::new(
                items@.len(),
                |i: int|
                    if 0 <= i < items@.len() {
                        val_of(items@[i])
                    } else {
                        Val::Null
                    },
            ),
        ),
        EvalValue::Mapping(m) => Val::Mapping(
            Map::new(
                |k: Seq<char>| m@.contains_key(k),
                |k: Seq<char>|
                    if m@.contains_key(k) {
                        val_of(m@[k])
                    } else {
                        Val::Null
                    },
            ),
        ),
    }
}

impl View for EvalValue {
    type V = Val;

    open spec fn view(&self) -> Val {
        val_of(*self)
    }
}

/// The meanings of the values of a map, key by key.
pub open spec fn vals_of(m: Map<Seq<char>, EvalValue>) -> Map<Seq<char>, Val> {
    Map::new(|k: Seq<char>| m.contains_key(k), |k: Seq<char>| m[k]@)
}

/// A map stands for the meanings of its values.
pub proof fn lemma_mapping(m: StrMap<EvalValue>)
    ensures
        EvalValue::Mapping(m)@ == Val::Mapping(vals_of(m@)),
{
    assert(EvalValue::Mapping(m)@->Mapping_0 =~= vals_of(m@));
}

/// A list stands for the meanings of its items.
pub proof fn lemma_list(items: Vec<EvalValue>, s: Seq<Val>)
    requires
        s.len() == items@.len(),
        forall|i: int| 0 <= i < s.len() ==> items@[i]@ == #[trigger] s[i],
    ensures
        EvalValue::List(items)@ == Val::List(s),
{
    assert(EvalValue::List(items)@->List_0 =~= s);
}

/// A list is larger than each of its items.
pub proof fn lemma_item_smaller(items: Vec<EvalValue>, i: int)
    requires
        0 <= i < items@.len(),
    ensures
        decreases_to!(EvalValue::List(items) => items@[i]),
{
    let v = EvalValue::List(items);
    assert(decreases_to!(v => v->List_0));
    assert(decreases_to!(items => items@));
    assert(decreases_to!(items@ => items@[i]));
}

/// A map is larger than each of its values.
pub(crate) proof fn lemma_entry_smaller(m: StrMap<EvalValue>, i: int)
    requires
        0 <= i < m.entries@.len(),
    ensures
        decreases_to!(EvalValue::Mapping(m) => m.entries@[i].1),
{
    let v = EvalValue::Mapping(m);
    assert(decreases_to!(v => v->Mapping_0));
    assert(decreases_to!(m => m.entries));
    assert(decreases_to!(m.entries => m.entries@));
    assert(decreases_to!(m.entries@ => m.entries@[i]));
    assert(decreases_to!(m.entries@[i] => m.entries@[i].1));
}

/// Two lists of entries with the same keys at the same places, and values that
/// correspond place by place, give maps that correspond key by key.
pub proof fn lemma_entries_correspond<A, B>(s: Seq<(String, A)>, t: Seq<(String, B)>)
    requires
        s.len() == t.len(),
        ascending(s),
        forall|i: int| 0 <= i < s.len() ==> (#[trigger] s[i]).0@ == t[i].0@,
    ensures
        ascending(t),
        entries_map(s).dom() == entries_map(t).dom(),
        forall|i: int|
            0 <= i < s.len() ==> entries_map(s).contains_key((#[trigger] s[i]).0@)
                && entries_map(s)[s[i].0@] == s[i].1 && entries_map(t)[s[i].0@] == t[i].1,
{
    assert(ascending(t)) by {
        assert forall|i: int, j: int| 0 <= i < j < t.len() implies crate::text::key_before(
            (#[trigger] t[i]).0@,
            (#[trigger] t[j]).0@,
        ) by {
            assert(crate::text::key_before(s[i].0@, s[j].0@));
        }
    }
    assert forall|k: Seq<char>| has_key(s, k) == has_key(t, k) by {
        if has_key(s, k) {
            let i = key_index(s, k);
            assert(t[i].0@ == k);
        }
        if has_key(t, k) {
            let i = key_index(t, k);
            assert(s[i].0@ == k);
        }
    }
    assert(entries_map(s).dom() =~= entries_map(t).dom());
    assert forall|i: int| 0 <= i < s.len() implies entries_map(s).contains_key(
        (#[trigger] s[i]).0@,
    ) && entries_map(s)[s[i].0@] == s[i].1 && entries_map(t)[s[i].0@] == t[i].1 by {
        lemma_entry(s, i);
        lemma_entry(t, i);
    }
}

/// Every key of a map has an entry.
pub proof fn lemma_key_has_entry<V>(s: Seq<(String, V)>, k: Seq<char>) -> (i: int)
    requires
        entries_map(s).contains_key(k),
    ensures
        0 <= i < s.len(),
        s[i].0@ == k,
{
    assert(has_key(s, k));
    key_index(s, k)
}

impl EvalValue {
    /// Stable variant name, as error messages show it.
    pub fn variant_name(&self) -> (name: &'static str)
        ensures
            name@ == variant_text(self@),
    {
        match self {
            EvalValue::Null => "Null",
            EvalValue::Bool(_) => "Bool",
            EvalValue::Int(_) => "Int",
            EvalValue::UInt(_) => "UInt",
            EvalValue::Float(_) => "Float",
            EvalValue::String(_) => "String",
            EvalValue::List(_) => "List",
            EvalValue::Mapping(_) => "Map",
        }
    }
}

/// The name of the kind of a value.
pub open spec fn variant_text(v: Val) -> Seq<char> {
    match v {
        Val::Null => "Null"@,
        Val::Bool(_) => "Bool"@,
        Val::Int(_) => "Int"@,
        Val::UInt(_) => "UInt"@,
        Val::Float(_) => "Float"@,
        Val::Str(_) => "String"@,
        Val::List(_) => "List"@,
        Val::Mapping(_) => "Map"@,
    }
}

/// Whether a bit pattern is that of a NaN: the exponent field is all ones, and
/// the fraction is not zero.
pub open spec fn is_nan_bits(bits: u64) -> bool {
    (bits / 0x10_0000_0000_0000) % 0x800 == 0x7ff && bits % 0x10_0000_0000_0000 != 0
}

/// Whether two bit patterns are those of equal doubles: a NaN equals nothing,
/// the two zeros equal each other, and nothing else equals but itself.
pub open spec fn doubles_equal(a: u64, b: u64) -> bool {
    let both_zero = a % 0x8000_0000_0000_0000 == 0 && b % 0x8000_0000_0000_0000 == 0;
    !is_nan_bits(a) && !is_nan_bits(b) && (a == b || both_zero)
}

/// Whether a bit pattern is that of a NaN.
pub fn nan_bits(bits: u64) -> (r: bool)
    ensures
        r == is_nan_bits(bits),
{
    (bits / 0x10_0000_0000_0000) % 0x800 == 0x7ff && bits % 0x10_0000_0000_0000 != 0
}

/// Whether two bit patterns are those of equal doubles.
pub fn same_doubles(a: u64, b: u64) -> (r: bool)
    ensures
        r == doubles_equal(a, b),
{
    let both_zero = a % 0x8000_0000_0000_0000 == 0 && b % 0x8000_0000_0000_0000 == 0;
    !nan_bits(a) && !nan_bits(b) && (a == b || both_zero)
}

/// Whether two values are equal: of the same kind, with equal contents. Doubles
/// are compared as numbers.
pub open spec fn vals_equal(a: Val, b: Val) -> bool
    decreases a,
{
    match (a, b) {
        (Val::Null, Val::Null) => true,
        (Val::Bool(x), Val::Bool(y)) => x == y,
        (Val::Int(x), Val::Int(y)) => x == y,
        (Val::UInt(x), Val::UInt(y)) => x == y,
        (Val::Float(x), Val::Float(y)) => doubles_equal(x, y),
        (Val::Str(x), Val::Str(y)) => x == y,
        (Val::List(x), Val::List(y)) => x.len() == y.len() && forall|i: int|
            0 <= i < x.len() ==> vals_equal(#[trigger] x[i], y[i]),
        (Val::Mapping(x), Val::Mapping(y)) => x.dom() == y.dom() && forall|k: Seq<char>|
            x.contains_key(k) ==> vals_equal(#[trigger] x[k], y[k]),
        _ => false,
    }
}

/// Whether two values are equal.
fn same_values(a: &EvalValue, b: &EvalValue) -> (r: bool)
    ensures
        r == vals_equal(a@, b@),
    decreases a,
{
    match (a, b) {
        (EvalValue::Null, EvalValue::Null) => true,
        (EvalValue::Bool(x), EvalValue::Bool(y)) => *x == *y,
        (EvalValue::Int(x), EvalValue::Int(y)) => *x == *y,
        (EvalValue::UInt(x), EvalValue::UInt(y)) => *x == *y,
        (EvalValue::Float(x), EvalValue::Float(y)) => same_doubles(*x, *y),
        (EvalValue::String(x), EvalValue::String(y)) => same_text(x.as_str(), y.as_str()),
        (EvalValue::List(x), EvalValue::List(y)) => {
            if x.len() != y.len() {
                return false;
            }
            let mut i: usize = 0;
            while i < x.len()
                invariant
                    *a == EvalValue::List(*x),
                    *b == EvalValue::List(*y),
                    x@.len() == y@.len(),
                    i <= x@.len(),
                    forall|j: int|
                        0 <= j < i ==> vals_equal(#[trigger] a@->List_0[j], b@->List_0[j]),
                decreases x@.len() - i,
            {
                proof {
                    lemma_item_smaller(*x, i as int);
                }
                let same = same_values(&x[i], &y[i]);
                assert(a@->List_0[i as int] == x@[i as int]@);
                assert(b@->List_0[i as int] == y@[i as int]@);
                if !same {
                    return false;
                }
                i = i + 1;
            }
            true
        },
        (EvalValue::Mapping(x), EvalValue::Mapping(y)) => {
            proof {
                use_type_invariant(x);
                lemma_mapping(*x);
                lemma_mapping(*y);
                assert(a@->Mapping_0.dom() =~= x@.dom());
                assert(b@->Mapping_0.dom() =~= y@.dom());
            }
            if x.len() != y.len() {
                return false;
            }
            let mut i: usize = 0;
            while i < x.entries.len()
                invariant
                    *a == EvalValue::Mapping(*x),
                    *b == EvalValue::Mapping(*y),
                    a@ == Val::Mapping(vals_of(x@)),
                    b@ == Val::Mapping(vals_of(y@)),
                    ascending(x.entries@),
                    i <= x.entries@.len(),
                    forall|j: int|
                        0 <= j < i ==> y@.contains_key((#[trigger] x.entries@[j]).0@)
                            && vals_equal(x.entries@[j].1@, y@[x.entries@[j].0@]@),
                decreases x.entries@.len() - i,
            {
                proof {
                    lemma_entry_smaller(*x, i as int);
                    lemma_entry(x.entries@, i as int);
                    assert(a@->Mapping_0.contains_key(x.entries@[i as int].0@));
                    assert(a@->Mapping_0[x.entries@[i as int].0@] == x.entries@[i as int].1@);
                }
                match y.get(x.entries[i].0.as_str()) {
                    None => {
                        assert(!b@->Mapping_0.dom().contains(x.entries@[i as int].0@));
                        return false;
                    },
                    Some(other) => {
                        if !same_values(&x.entries[i].1, other) {
                            return false;
                        }
                    },
                }
                i = i + 1;
            }
            proof {
                assert forall|k: Seq<char>| x@.contains_key(k) implies y@.contains_key(k)
                    && vals_equal(#[trigger] a@->Mapping_0[k], b@->Mapping_0[k]) by {
                    let j = lemma_key_has_entry(x.entries@, k);
                    assert(x.entries@[j].0@ == k);
                    lemma_entry(x.entries@, j);
                }
                assert forall|k: Seq<char>| x@.dom().contains(k) implies y@.dom().contains(k) by {
                    assert(x@.contains_key(k));
                    assert(vals_equal(a@->Mapping_0[k], b@->Mapping_0[k]));
                }
                lemma_subset_equality(x@.dom(), y@.dom());
            }
            true
        },
        _ => false,
    }
}

impl PartialEq for EvalValue {
    fn eq(&self, other: &Self) -> (r: bool) {
        same_values(self, other)
    }
}

impl vstd::std_specs::cmp::PartialEqSpecImpl for EvalValue {
    open spec fn obeys_eq_spec() -> bool {
        true
    }

    open spec fn eq_spec(&self, other: &Self) -> bool {
        vals_equal(self@, other@)
    }
}

impl Clone for EvalValue {
    fn clone(&self) -> (r: Self)
        ensures
            r@ == self@,
        decreases self,
    {
        match self {
            EvalValue::Null => EvalValue::Null,
            EvalValue::Bool(b) => EvalValue::Bool(*b),
            EvalValue::Int(i) => EvalValue::Int(*i),
            EvalValue::UInt(u) => EvalValue::UInt(*u),
            EvalValue::Float(bits) => EvalValue::Float(*bits),
            EvalValue::String(s) => EvalValue::String(s.clone()),
            EvalValue::List(items) => {
                let mut out: Vec<EvalValue> = Vec::new();
                let mut i: usize = 0;
                while i < items.len()
                    invariant
                        *self == EvalValue::List(*items),
                        i <= items@.len(),
                        out@.len() == i,
                        forall|j: int| 0 <= j < i ==> (#[trigger] out@[j])@ == items@[j]@,
                    decreases items@.len() - i,
                {
                    proof {
                        lemma_item_smaller(*items, i as int);
                    }
                    let item = items[i].clone();
                    out.push(item);
                    i = i + 1;
                }
                assert(EvalValue::List(out)@->List_0 =~= self@->List_0);
                EvalValue::List(out)
            },
            EvalValue::Mapping(m) => {
                let copy = copy_map(m);
                proof {
                    lemma_mapping(*m);
                    lemma_mapping(copy);
                    assert(vals_of(m@) =~= vals_of(copy@));
                }
                EvalValue::Mapping(copy)
            },
        }
    }
}

/// A map with the same keys and values of the same meanings.
pub(crate) fn copy_map(m: &StrMap<EvalValue>) -> (r: StrMap<EvalValue>)
    ensures
        r@.dom() == m@.dom(),
        forall|k: Seq<char>| m@.contains_key(k) ==> (#[trigger] r@[k])@ == m@[k]@,
    decreases m,
{
    proof {
        use_type_invariant(m);
    }
    let mut out: Vec<(String, EvalValue)> = Vec::new();
    let mut i: usize = 0;
    while i < m.entries.len()
        invariant
            i <= m.entries@.len(),
            out@.len() == i,
            forall|j: int|
                0 <= j < i ==> (#[trigger] out@[j]).0@ == m.entries@[j].0@ && out@[j].1@
                    == m.entries@[j].1@,
        decreases m.entries@.len() - i,
    {
        proof {
            lemma_value_smaller(*m, i as int);
        }
        let value = m.entries[i].1.clone();
        out.push((m.entries[i].0.clone(), value));
        i = i + 1;
    }
    proof {
        lemma_entries_correspond(m.entries@, out@);
        assert forall|k: Seq<char>| m@.contains_key(k) implies (#[trigger] entries_map(
            out@,
        )[k])@ == m@[k]@ by {
            let j = lemma_key_has_entry(m.entries@, k);
            assert(m.entries@[j].0@ == k);
        }
    }
    StrMap { entries: out }
}

/// Doubles are equal as numbers: the same bits are, the two zeros are, a NaN
/// equals nothing, and nothing else is equal.
pub proof fn law_doubles_compare_as_numbers(a: u64, b: u64)
    ensures
        doubles_equal(a, b) == doubles_equal(b, a),
        (a / 0x10_0000_0000_0000) % 0x800 == 0x7ff && a % 0x10_0000_0000_0000 != 0
            ==> !doubles_equal(a, b),
        (a / 0x10_0000_0000_0000) % 0x800 != 0x7ff || a % 0x10_0000_0000_0000 == 0
            ==> doubles_equal(a, a),
        doubles_equal(0, 0x8000_0000_0000_0000),
        doubles_equal(a, b) && a != b ==> (a == 0 || a == 0x8000_0000_0000_0000) && (b == 0 || b
            == 0x8000_0000_0000_0000),
{
}

/// Each kind of value has its own name.
pub proof fn law_kinds_are_named(v: Val)
    ensures
        v is Null ==> variant_text(v) == "Null"@,
        v is Bool ==> variant_text(v) == "Bool"@,
        v is Int ==> variant_text(v) == "Int"@,
        v is UInt ==> variant_text(v) == "UInt"@,
        v is Float ==> variant_text(v) == "Float"@,
        v is Str ==> variant_text(v) == "String"@,
        v is List ==> variant_text(v) == "List"@,
        v is Mapping ==> variant_text(v) == "Map"@,
{
}

/// Values of different kinds are not equal; text, booleans and integers are equal
/// exactly if they are the same.
pub proof fn law_values_compare_kind_by_kind(a: Val, b: Val)
    ensures
        a is Null ==> vals_equal(a, b) == (b is Null),
        a matches Val::Bool(x) ==> vals_equal(a, b) == (b == Val::Bool(x)),
        a matches Val::Int(x) ==> vals_equal(a, b) == (b == Val::Int(x)),
        a matches Val::UInt(x) ==> vals_equal(a, b) == (b == Val::UInt(x)),
        a matches Val::Str(x) ==> vals_equal(a, b) == (b == Val::Str(x)),
        a matches Val::Float(x) ==> vals_equal(a, b) == (b matches Val::Float(y) && doubles_equal(
            x,
            y,
        )),
        a matches Val::List(x) ==> vals_equal(a, b) == (b matches Val::List(y) && x.len() == y.len()
            && forall|i: int| 0 <= i < x.len() ==> vals_equal(#[trigger] x[i], y[i])),
        a matches Val::Mapping(x) ==> vals_equal(a, b) == (b matches Val::Mapping(y) && x.dom()
            == y.dom() && forall|k: Seq<char>|
            x.contains_key(k) ==> vals_equal(#[trigger] x[k], y[k])),
{
}

} // verus!
