//! Values as text for people to read.

use vstd::prelude::*;

use crate::engine::{outcome, ExprError, ExprFault};
use crate::json::{eval_value_to_json, law_stored_values_are_well_formed, val_json};
use crate::json_text::{compact_text, json_compact};
use crate::number::{int_text, signed_text, unsigned_text};
use crate::value::{EvalValue, Val};

verus! {

/// The text that a double's `to_string` gives, by the bits of the double.
pub uninterp spec fn double_text(bits: u64) -> Seq<char>;

/// `to_string` of the double with the given bits; a point of `accesskit` holds
/// it for the call.
#[verifier::external_body]
fn double_to_text(bits: u64) -> (r: String)
    ensures
        r@ == double_text(bits),
{
    accesskit::Point::new(bytemuck::cast(bits), bytemuck::cast(bits)).x.to_string()
}

/// How a value reads: scalars in their natural form, text as itself, nothing
/// for a missing value, lists and maps as JSON.
pub open spec fn value_text(v: Val) -> Seq<char> {
    match v {
        Val::Null => Seq::empty(),
        Val::Bool(true) => "true"@,
        Val::Bool(false) => "false"@,
        Val::Int(i) => int_text(i as int),
        Val::UInt(u) => int_text(u as int),
        Val::Float(bits) => double_text(bits),
        Val::Str(s) => s,
        Val::List(_) => compact_text(val_json(v)),
        Val::Mapping(_) => compact_text(val_json(v)),
    }
}

/// Render a value as a short text.
pub fn eval_value_to_string(v: &EvalValue) -> (r: String)
    ensures
        r@ == value_text(v@),
{
    match v {
        EvalValue::Null => {
            let r = String::new();
            assert(r@ =~= Seq::<char>::empty());
            r
        },
        EvalValue::Bool(b) => if *b {
            "true".to_owned()
        } else {
            "false".to_owned()
        },
        EvalValue::Int(i) => signed_text(*i),
        EvalValue::UInt(u) => unsigned_text(*u),
        EvalValue::Float(bits) => double_to_text(*bits),
        EvalValue::String(s) => s.clone(),
        EvalValue::List(_) | EvalValue::Mapping(_) => {
            let j = eval_value_to_json(v);
            proof {
                law_stored_values_are_well_formed(v@);
            }
            json_compact(&j)
        },
    }
}

/// How the outcome of an evaluation reads: an error reads as nothing.
pub open spec fn outcome_text(o: Result<Val, ExprFault>) -> Seq<char> {
    match o {
        Ok(v) => value_text(v),
        Err(_) => Seq::empty(),
    }
}

/// Render the outcome of an evaluation.
pub fn show_outcome(o: &Result<EvalValue, ExprError>) -> (r: String)
    ensures
        r@ == outcome_text(outcome(*o)),
{
    match o {
        Ok(v) => eval_value_to_string(v),
        Err(_) => {
            let r = String::new();
            assert(r@ =~= Seq::<char>::empty());
            r
        },
    }
}

/// How values read: text as itself, numbers in decimal, booleans by their words,
/// a missing value and an error as nothing, and lists and maps as the JSON that
/// they are stored as.
pub proof fn law_values_read_as_they_are(v: Val, o: Result<Val, ExprFault>)
    ensures
        v is Null ==> value_text(v).len() == 0,
        v matches Val::Bool(b) ==> value_text(v) == if b {
            "true"@
        } else {
            "false"@
        },
        v matches Val::Int(i) ==> value_text(v) == int_text(i as int),
        v matches Val::UInt(u) ==> value_text(v) == int_text(u as int),
        v matches Val::Float(bits) ==> value_text(v) == double_text(bits),
        v matches Val::Str(s) ==> value_text(v) == s,
        v is List || v is Mapping ==> value_text(v) == compact_text(val_json(v)),
        o is Err ==> outcome_text(o).len() == 0,
        o matches Ok(w) ==> outcome_text(o) == value_text(w),
{
}

} // verus!
