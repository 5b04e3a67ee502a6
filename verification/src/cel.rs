//! The expression engine that the `cel-interpreter` crate gives.

use std::sync::Arc;
use std::task::Poll;

use cel_interpreter::objects::{Key as CelKey, Map as CelMap, Value as CelValue};
use cel_interpreter::{Context, Program};
use vstd::prelude::*;

use crate::engine::{
    compilation, outcome, CompiledExpr, EvalEnv, ExprError, ExprFault, ExpressionEngine,
};
use crate::strmap::{has_key, key_index, StrMap};
use crate::text::{quote, quoted};
use crate::value::{
    lemma_entry_smaller, lemma_item_smaller, lemma_key_has_entry, lemma_list, lemma_mapping,
    vals_of, EvalValue, Val,
};

verus! {

/// A value of the interpreter.
#[verifier::external_type_specification]
#[verifier::external_body]
pub struct ExCelValue(cel_interpreter::objects::Value);

/// A key of a map of the interpreter.
#[verifier::external_type_specification]
#[verifier::external_body]
pub struct ExCelKey(cel_interpreter::objects::Key);

/// Variables and functions for one run of a program.
#[verifier::external_type_specification]
#[verifier::external_body]
pub struct ExContext<'a>(cel_interpreter::Context<'a>);

/// An error of the interpreter, which the operators on its values give.
#[verifier::external_type_specification]
#[verifier::external_body]
pub struct ExExecutionError(cel_interpreter::ExecutionError);

/// What a key of an interpreter map stands for.
pub enum KeyTree {
    /// Signed integer.
    Int(i64),
    /// Unsigned integer.
    UInt(u64),
    /// Boolean.
    Bool(bool),
    /// Text.
    Str(Seq<char>),
}

/// What an interpreter value stands for.
#[verifier::ext_equal]
pub enum CelTree {
    /// Null.
    Null,
    /// Boolean.
    Bool(bool),
    /// Signed integer.
    Int(i64),
    /// Unsigned integer.
    UInt(u64),
    /// Bit pattern of a double.
    Float(u64),
    /// Text.
    Str(Seq<char>),
    /// List.
    List(Seq<CelTree>),
    /// Map.
    Mapping(Map<KeyTree, CelTree>),
    /// Bytes, a function, a duration or a timestamp: nothing that a scene uses.
    Other,
}

/// What a key of the interpreter holds.
pub uninterp spec fn cel_key(k: CelKey) -> KeyTree;

/// What a value of the interpreter holds.
pub uninterp spec fn cel_tree(v: CelValue) -> CelTree;

/// The variables that a context binds.
pub uninterp spec fn context_vars(c: Context<'static>) -> Map<Seq<char>, CelTree>;

/// What parsing a source text gives.
pub enum CelParse {
    /// A program.
    Parsed(Program),
    /// Parse errors, as text.
    Rejected(Seq<char>),
    /// The parser panicked.
    Panicked,
}

/// What `Program::compile` makes of a source text.
pub uninterp spec fn cel_parse(src: Seq<char>) -> CelParse;

/// What running a program gives.
pub enum CelOutcome {
    /// A value.
    Value(CelTree),
    /// An error, as text.
    Failed(Seq<char>),
    /// The interpreter panicked.
    Panicked,
}

/// Whether `Program::execute` can give `r` for a program and its variables.
/// More than one outcome is possible: comprehensions visit the keys of a map in
/// the order of a hash map.
pub uninterp spec fn cel_yields(
    p: Program,
    vars: Map<Seq<char>, CelTree>,
    r: CelOutcome,
) -> bool;

/// A key of an interpreter map, opened.
pub enum MapKey {
    /// Signed integer.
    Int(i64),
    /// Unsigned integer.
    UInt(u64),
    /// Boolean.
    Bool(bool),
    /// Text.
    Str(String),
}

/// What an opened key stands for.
pub open spec fn key_tree(k: MapKey) -> KeyTree {
    match k {
        MapKey::Int(i) => KeyTree::Int(i),
        MapKey::UInt(u) => KeyTree::UInt(u),
        MapKey::Bool(b) => KeyTree::Bool(b),
        MapKey::Str(s) => KeyTree::Str(s@),
    }
}

/// An interpreter value, opened by one level.
pub enum CelShape {
    /// Null.
    Null,
    /// Boolean.
    Bool(bool),
    /// Signed integer.
    Int(i64),
    /// Unsigned integer.
    UInt(u64),
    /// Bit pattern of a double.
    Float(u64),
    /// Text.
    Str(String),
    /// Items of a list.
    List(Vec<CelValue>),
    /// Entries of a map, in no particular order.
    Mapping(Vec<(CelKey, CelValue)>),
    /// Anything else.
    Other,
}

/// Whether an entry has the key `k`.
pub open spec fn has_cel_key(s: Seq<(CelKey, CelValue)>, k: KeyTree) -> bool {
    exists|i: int| 0 <= i < s.len() && cel_key((#[trigger] s[i]).0) == k
}

/// The place of an entry with the key `k`.
pub open spec fn cel_key_index(s: Seq<(CelKey, CelValue)>, k: KeyTree) -> int {
    choose|i: int| 0 <= i < s.len() && cel_key((#[trigger] s[i]).0) == k
}

/// The map that entries stand for.
pub open spec fn cel_entries(s: Seq<(CelKey, CelValue)>) -> Map<KeyTree, CelTree> {
    Map::new(
        |k: KeyTree| has_cel_key(s, k),
        |k: KeyTree| cel_tree(s[cel_key_index(s, k)].1),
    )
}

/// No two entries have the same key.
pub open spec fn cel_keys_distinct(s: Seq<(CelKey, CelValue)>) -> bool {
    forall|i: int, j: int|
        0 <= i < j < s.len() ==> cel_key((#[trigger] s[i]).0) != cel_key((#[trigger] s[j]).0)
}

/// What an opened value stands for.
pub open spec fn shape_tree(s: CelShape) -> CelTree {
    match s {
        CelShape::Null => CelTree::Null,
        CelShape::Bool(b) => CelTree::Bool(b),
        CelShape::Int(i) => CelTree::Int(i),
        CelShape::UInt(u) => CelTree::UInt(u),
        CelShape::Float(bits) => CelTree::Float(bits),
        CelShape::Str(t) => CelTree::Str(t@),
        CelShape::List(items) => CelTree::List(
            Seq::new(items@.len(), |i: int| cel_tree(items@[i])),
        ),
        CelShape::Mapping(entries) => CelTree::Mapping(cel_entries(entries@)),
        CelShape::Other => CelTree::Other,
    }
}

/// Opens a `cel_interpreter::objects::Value` by one level: the variant it is,
/// with its contents. The entries of a map come in no stated order, no key
/// twice.
#[verifier::external_body]
fn cel_open(v: &CelValue) -> (r: CelShape)
    ensures
        shape_tree(r) == cel_tree(*v),
        r matches CelShape::Mapping(entries) ==> cel_keys_distinct(entries@),
{
    match v {
        CelValue::Null => CelShape::Null,
        CelValue::Bool(b) => CelShape::Bool(*b),
        CelValue::Int(i) => CelShape::Int(*i),
        CelValue::UInt(u) => CelShape::UInt(*u),
        CelValue::Float(f) => CelShape::Float(f.to_bits()),
        CelValue::String(s) => CelShape::Str(s.as_str().to_owned()),
        CelValue::List(items) => CelShape::List(items.to_vec()),
        CelValue::Map(m) => {
            CelShape::Mapping(m.map.iter().map(|(k, v)| (k.clone(), v.clone())).collect())
        },
        _ => CelShape::Other,
    }
}

/// Opens a `cel_interpreter::objects::Key`: the variant it is, with its
/// contents.
#[verifier::external_body]
fn cel_open_key(k: &CelKey) -> (r: MapKey)
    ensures
        key_tree(r) == cel_key(*k),
{
    match k {
        CelKey::Int(i) => MapKey::Int(*i),
        CelKey::Uint(u) => MapKey::UInt(*u),
        CelKey::Bool(b) => MapKey::Bool(*b),
        CelKey::String(s) => MapKey::Str(s.as_str().to_owned()),
    }
}

/// What an interpreter value is made of.
pub enum CelParts {
    /// Null.
    Null,
    /// Boolean.
    Bool(bool),
    /// Signed integer.
    Int(i64),
    /// Unsigned integer.
    UInt(u64),
    /// Bit pattern of a double.
    Float(u64),
    /// Text.
    Str(String),
    /// Items of a list.
    List(Vec<CelValue>),
    /// Entries of a map with text keys.
    Mapping(Vec<(String, CelValue)>),
}

/// The map that text-keyed entries stand for.
pub open spec fn text_entries(s: Seq<(String, CelValue)>) -> Map<KeyTree, CelTree> {
    Map::new(
        |k: KeyTree| k is Str && has_key(s, k->Str_0),
        |k: KeyTree| cel_tree(s[key_index(s, k->Str_0)].1),
    )
}

/// No two entries have the same key.
pub open spec fn text_keys_distinct(s: Seq<(String, CelValue)>) -> bool {
    forall|i: int, j: int| 0 <= i < j < s.len() ==> (#[trigger] s[i]).0@ != (#[trigger] s[j]).0@
}

/// What a value made of these parts stands for.
pub open spec fn parts_tree(p: CelParts) -> CelTree {
    match p {
        CelParts::Null => CelTree::Null,
        CelParts::Bool(b) => CelTree::Bool(b),
        CelParts::Int(i) => CelTree::Int(i),
        CelParts::UInt(u) => CelTree::UInt(u),
        CelParts::Float(bits) => CelTree::Float(bits),
        CelParts::Str(t) => CelTree::Str(t@),
        CelParts::List(items) => CelTree::List(
            Seq::new(items@.len(), |i: int| cel_tree(items@[i])),
        ),
        CelParts::Mapping(entries) => CelTree::Mapping(text_entries(entries@)),
    }
}

/// Makes a `cel_interpreter::objects::Value`: the variant that the parts name,
/// with their contents.
#[verifier::external_body]
fn cel_build(p: CelParts) -> (r: CelValue)
    requires
        p matches CelParts::Mapping(entries) ==> text_keys_distinct(entries@),
    ensures
        cel_tree(r) == parts_tree(p),
{
    match p {
        CelParts::Null => CelValue::Null,
        CelParts::Bool(b) => CelValue::Bool(b),
        CelParts::Int(i) => CelValue::Int(i),
        CelParts::UInt(u) => CelValue::UInt(u),
        CelParts::Float(bits) => CelValue::Float(bytemuck::cast(bits)),
        CelParts::Str(s) => CelValue::String(Arc::new(s)),
        CelParts::List(items) => CelValue::List(Arc::new(items)),
        CelParts::Mapping(entries) => {
            let map = entries.into_iter().map(|(k, v)| (CelKey::String(Arc::new(k)), v)).collect();
            CelValue::Map(CelMap { map: Arc::new(map) })
        },
    }
}

/// A context with no variables: `Context::default`.
#[verifier::external_body]
fn cel_context() -> (r: Context<'static>)
    ensures
        context_vars(r) == no_vars(),
{
    Context::default()
}

/// No variables at all.
pub open spec fn no_vars() -> Map<Seq<char>, CelTree> {
    Map::empty()
}

/// `Context::add_variable_from_value` binds one variable, in place of an
/// earlier binding.
#[verifier::external_body]
fn cel_bind(ctx: &mut Context<'static>, name: &str, value: CelValue)
    ensures
        context_vars(*final(ctx)) == context_vars(*old(ctx)).insert(name@, cel_tree(value)),
{
    ctx.add_variable_from_value(name, value);
}

/// The outcome of parsing.
pub open spec fn parse_outcome(r: Result<Program, Option<String>>) -> CelParse {
    match r {
        Ok(p) => CelParse::Parsed(p),
        Err(Some(e)) => CelParse::Rejected(e@),
        Err(None) => CelParse::Panicked,
    }
}

/// `Program::compile` on `src`: a program, the text of the parse errors, or no
/// text where the parser panicked. The parser runs as a task of its own on a
/// `tokio` local set, whose panic ends the task and nothing else.
#[verifier::external_body]
fn cel_compile(src: &str) -> (r: Result<Program, Option<String>>)
    ensures
        parse_outcome(r) == cel_parse(src@),
{
    let text = src.to_string();
    let tasks = tokio::task::LocalSet::new();
    let parse = move |_: &mut std::task::Context<'_>| {
        Poll::Ready(Program::compile(&text).map_err(|e| e.to_string()))
    };
    let task = tasks.spawn_local(std::future::poll_fn(parse));
    match pollster::block_on(tasks.run_until(task)) {
        Ok(parsed) => parsed.map_err(Some),
        Err(_) => Err(None),
    }
}

/// The outcome of a run.
pub open spec fn run_outcome(r: Result<CelValue, Option<String>>) -> CelOutcome {
    match r {
        Ok(v) => CelOutcome::Value(cel_tree(v)),
        Err(Some(e)) => CelOutcome::Failed(e@),
        Err(None) => CelOutcome::Panicked,
    }
}

/// `Program::execute` with the variables of `ctx`: a value, the text of the
/// error, or no text where the interpreter panicked. The interpreter runs as a
/// task of its own on a `tokio` local set, whose panic ends the task and nothing
/// else. Which of the possible outcomes comes is left open.
#[verifier::external_body]
fn cel_execute(program: &Arc<Program>, ctx: Context<'static>) -> (r: Result<
    CelValue,
    Option<String>,
>)
    ensures
        cel_yields(**program, context_vars(ctx), run_outcome(r)),
{
    let program = program.clone();
    let tasks = tokio::task::LocalSet::new();
    let run = move |_: &mut std::task::Context<'_>| {
        Poll::Ready(program.execute(&ctx).map_err(|e| e.to_string()))
    };
    let task = tasks.spawn_local(std::future::poll_fn(run));
    match pollster::block_on(tasks.run_until(task)) {
        Ok(ended) => ended.map_err(Some),
        Err(_) => Err(None),
    }
}

/// What an interpreter value is to the rest of the library: values of kinds
/// that a scene does not use are missing, entries under keys that are not text
/// are left out.
pub open spec fn tree_val(t: CelTree) -> Val
    decreases t,
{
    match t {
        CelTree::Null => Val::Null,
        CelTree::Bool(b) => Val::Bool(b),
        CelTree::Int(i) => Val::Int(i),
        CelTree::UInt(u) => Val::UInt(u),
        CelTree::Float(bits) => Val::Float(bits),
        CelTree::Str(s) => Val::Str(s),
        CelTree::List(items) => Val::List(
            Seq::new(
                items.len(),
                |i: int|
                    if 0 <= i < items.len() {
                        tree_val(items[i])
                    } else {
                        Val::Null
                    },
            ),
        ),
        CelTree::Mapping(m) => Val::Mapping(
            Map::new(
                |k: Seq<char>| m.contains_key(KeyTree::Str(k)),
                |k: Seq<char>|
                    if m.contains_key(KeyTree::Str(k)) {
                        tree_val(m[KeyTree::Str(k)])
                    } else {
                        Val::Null
                    },
            ),
        ),
        CelTree::Other => Val::Null,
    }
}

/// The interpreter value of a value.
pub open spec fn val_tree(v: Val) -> CelTree
    decreases v,
{
    match v {
        Val::Null => CelTree::Null,
        Val::Bool(b) => CelTree::Bool(b),
        Val::Int(i) => CelTree::Int(i),
        Val::UInt(u) => CelTree::UInt(u),
        Val::Float(bits) => CelTree::Float(bits),
        Val::Str(s) => CelTree::Str(s),
        Val::List(items) => CelTree::List(
            Seq::new(
                items.len(),
                |i: int|
                    if 0 <= i < items.len() {
                        val_tree(items[i])
                    } else {
                        CelTree::Null
                    },
            ),
        ),
        Val::Mapping(m) => CelTree::Mapping(
            Map::new(
                |k: KeyTree| k is Str && m.contains_key(k->Str_0),
                |k: KeyTree|
                    if m.contains_key(k->Str_0) {
                        val_tree(m[k->Str_0])
                    } else {
                        CelTree::Null
                    },
            ),
        ),
    }
}

/// A value that is handed to the interpreter and comes back is the same value.
pub proof fn law_values_cross_the_bridge(v: Val)
    ensures
        tree_val(val_tree(v)) == v,
    decreases v,
{
    match v {
        Val::List(items) => {
            assert forall|i: int| 0 <= i < items.len() implies tree_val(val_tree(items[i]))
                == #[trigger] items[i] by {
                law_values_cross_the_bridge(items[i]);
            }
            assert(tree_val(val_tree(v))->List_0 =~= items);
        },
        Val::Mapping(m) => {
            assert forall|k: Seq<char>| m.contains_key(k) implies tree_val(val_tree(m[k]))
                == #[trigger] m[k] by {
                law_values_cross_the_bridge(m[k]);
            }
            assert(tree_val(val_tree(v))->Mapping_0 =~= m);
        },
        _ => {},
    }
}

/// Hand a value to the interpreter.
pub fn eval_to_cel(v: &EvalValue) -> (r: CelValue)
    ensures
        cel_tree(r) == val_tree(v@),
    decreases v,
{
    match v {
        EvalValue::Null => cel_build(CelParts::Null),
        EvalValue::Bool(b) => cel_build(CelParts::Bool(*b)),
        EvalValue::Int(i) => cel_build(CelParts::Int(*i)),
        EvalValue::UInt(u) => cel_build(CelParts::UInt(*u)),
        EvalValue::Float(bits) => cel_build(CelParts::Float(*bits)),
        EvalValue::String(s) => cel_build(CelParts::Str(s.clone())),
        EvalValue::List(items) => {
            let mut out: Vec<CelValue> = Vec::new();
            let mut i: usize = 0;
            while i < items.len()
                invariant
                    *v == EvalValue::List(*items),
                    i <= items@.len(),
                    out@.len() == i,
                    forall|j: int|
                        0 <= j < i ==> cel_tree(#[trigger] out@[j]) == val_tree(items@[j]@),
                decreases items@.len() - i,
            {
                proof {
                    lemma_item_smaller(*items, i as int);
                }
                let item = eval_to_cel(&items[i]);
                out.push(item);
                i = i + 1;
            }
            assert(parts_tree(CelParts::List(out))->List_0 =~= val_tree(v@)->List_0);
            cel_build(CelParts::List(out))
        },
        EvalValue::Mapping(m) => {
            proof {
                use_type_invariant(m);
            }
            let mut out: Vec<(String, CelValue)> = Vec::new();
            let mut i: usize = 0;
            while i < m.entries.len()
                invariant
                    *v == EvalValue::Mapping(*m),
                    i <= m.entries@.len(),
                    out@.len() == i,
                    forall|j: int|
                        0 <= j < i ==> (#[trigger] out@[j]).0@ == m.entries@[j].0@ && cel_tree(
                            out@[j].1,
                        ) == val_tree(m.entries@[j].1@),
                decreases m.entries@.len() - i,
            {
                proof {
                    lemma_entry_smaller(*m, i as int);
                }
                let value = eval_to_cel(&m.entries[i].1);
                out.push((m.entries[i].0.clone(), value));
                i = i + 1;
            }
            proof {
                crate::value::lemma_entries_correspond(m.entries@, out@);
                assert(text_keys_distinct(out@)) by {
                    assert forall|a: int, b: int| 0 <= a < b < out@.len() implies (
                    #[trigger] out@[a]).0@ != (#[trigger] out@[b]).0@ by {
                        if out@[a].0@ == out@[b].0@ {
                            crate::strmap::lemma_distinct(out@, a, b);
                        }
                    }
                }
                lemma_mapping(*m);
                let want = val_tree(v@)->Mapping_0;
                let have = text_entries(out@);
                assert forall|k: KeyTree| want.contains_key(k) == have.contains_key(k) by {
                    if k is Str {
                        assert(m@.contains_key(k->Str_0) == crate::strmap::entries_map(
                            out@,
                        ).contains_key(k->Str_0));
                    }
                }
                assert forall|k: KeyTree| want.contains_key(k) implies want[k] == have[k] by {
                    let j = lemma_key_has_entry(m.entries@, k->Str_0);
                    assert(m.entries@[j].0@ == k->Str_0);
                    crate::strmap::lemma_entry(out@, j);
                }
                assert(want =~= have);
            }
            cel_build(CelParts::Mapping(out))
        },
    }
}

/// Take a value back from the interpreter.
pub fn cel_to_eval(v: &CelValue) -> (r: EvalValue)
    ensures
        r@ == tree_val(cel_tree(*v)),
    decreases cel_tree(*v),
{
    match cel_open(v) {
        CelShape::Null => EvalValue::Null,
        CelShape::Bool(b) => EvalValue::Bool(b),
        CelShape::Int(i) => EvalValue::Int(i),
        CelShape::UInt(u) => EvalValue::UInt(u),
        CelShape::Float(bits) => EvalValue::Float(bits),
        CelShape::Str(s) => EvalValue::String(s),
        CelShape::List(items) => {
            let mut out: Vec<EvalValue> = Vec::new();
            let mut i: usize = 0;
            while i < items.len()
                invariant
                    cel_tree(*v) == shape_tree(CelShape::List(items)),
                    i <= items@.len(),
                    out@.len() == i,
                    forall|j: int|
                        0 <= j < i ==> (#[trigger] out@[j])@ == tree_val(cel_tree(items@[j])),
                decreases items@.len() - i,
            {
                proof {
                    let t = cel_tree(*v);
                    assert(decreases_to!(t => t->List_0));
                    assert(decreases_to!(t->List_0 => t->List_0[i as int]));
                }
                let item = cel_to_eval(&items[i]);
                out.push(item);
                i = i + 1;
            }
            proof {
                lemma_list(out, tree_val(cel_tree(*v))->List_0);
            }
            EvalValue::List(out)
        },
        CelShape::Mapping(entries) => {
            let mut out: StrMap<EvalValue> = StrMap::new();
            let mut i: usize = 0;
            while i < entries.len()
                invariant
                    cel_tree(*v) == CelTree::Mapping(cel_entries(entries@)),
                    cel_keys_distinct(entries@),
                    i <= entries@.len(),
                    forall|k: Seq<char>|
                        #[trigger] out@.contains_key(k) ==> exists|j: int|
                            0 <= j < i && cel_key((#[trigger] entries@[j]).0) == KeyTree::Str(k),
                    forall|j: int|
                        0 <= j < i && cel_key((#[trigger] entries@[j]).0) is Str ==> ({
                            let k = cel_key(entries@[j].0)->Str_0;
                            out@.contains_key(k) && out@[k]@ == tree_val(cel_tree(entries@[j].1))
                        }),
                decreases entries@.len() - i,
            {
                let ghost before = out@;
                match cel_open_key(&entries[i].0) {
                    MapKey::Str(k) => {
                        proof {
                            lemma_cel_entry(entries@, i as int);
                            let t = cel_tree(*v);
                            assert(decreases_to!(t => t->Mapping_0[cel_key(
                                entries@[i as int].0,
                            )]));
                        }
                        let value = cel_to_eval(&entries[i].1);
                        let ghost text = k@;
                        out.insert(k, value);
                        proof {
                            assert forall|q: Seq<char>| #[trigger]
                                out@.contains_key(q) implies exists|j: int|
                                0 <= j < i + 1 && cel_key((#[trigger] entries@[j]).0)
                                    == KeyTree::Str(q) by {
                                if q == text {
                                    assert(cel_key(entries@[i as int].0) == KeyTree::Str(q));
                                } else {
                                    assert(before.contains_key(q));
                                }
                            }
                        }
                    },
                    _ => {},
                }
                i = i + 1;
            }
            proof {
                lemma_mapping(out);
                let want = tree_val(cel_tree(*v))->Mapping_0;
                let all = cel_entries(entries@);
                assert forall|k: Seq<char>| want.contains_key(k) implies vals_of(
                    out@,
                ).contains_key(k) && vals_of(out@)[k] == want[k] by {
                    assert(all.contains_key(KeyTree::Str(k)));
                    let j = cel_key_index(entries@, KeyTree::Str(k));
                    lemma_cel_entry(entries@, j);
                }
                assert forall|k: Seq<char>| out@.contains_key(k) implies want.contains_key(k) by {
                    let j = choose|j: int|
                        0 <= j < i && cel_key((#[trigger] entries@[j]).0) == KeyTree::Str(k);
                    lemma_cel_entry(entries@, j);
                }
                assert(vals_of(out@) =~= want);
            }
            EvalValue::Mapping(out)
        },
        CelShape::Other => EvalValue::Null,
    }
}

/// Where keys are distinct, each entry is the one that its key leads to.
proof fn lemma_cel_entry(s: Seq<(CelKey, CelValue)>, i: int)
    requires
        cel_keys_distinct(s),
        0 <= i < s.len(),
    ensures
        has_cel_key(s, cel_key(s[i].0)),
        cel_entries(s).contains_key(cel_key(s[i].0)),
        cel_entries(s)[cel_key(s[i].0)] == cel_tree(s[i].1),
{
    let k = cel_key(s[i].0);
    assert(has_cel_key(s, k));
    let j = cel_key_index(s, k);
    if i < j {
        assert(cel_key(s[i].0) != cel_key(s[j].0));
    }
    if j < i {
        assert(cel_key(s[j].0) != cel_key(s[i].0));
    }
}

/// The variables of an environment, as the interpreter sees them.
pub open spec fn env_trees(env: Map<Seq<char>, Val>) -> Map<Seq<char>, CelTree> {
    Map::new(|k: Seq<char>| env.contains_key(k), |k: Seq<char>| val_tree(env[k]))
}

/// A context that binds the variables of `env`.
pub fn build_context(env: &EvalEnv) -> (r: Context<'static>)
    ensures
        context_vars(r) == env_trees(env@),
{
    let mut ctx = cel_context();
    proof {
        use_type_invariant(&env.vars);
    }
    let mut i: usize = 0;
    let ghost entries = env.vars.entries@;
    while i < env.vars.entries.len()
        invariant
            entries == env.vars.entries@,
            crate::strmap::ascending(entries),
            i <= entries.len(),
            forall|k: Seq<char>| #[trigger]
                context_vars(ctx).contains_key(k) ==> exists|j: int|
                    0 <= j < i && (#[trigger] entries[j]).0@ == k,
            forall|j: int|
                0 <= j < i ==> context_vars(ctx).contains_key((#[trigger] entries[j]).0@)
                    && context_vars(ctx)[entries[j].0@] == val_tree(entries[j].1@),
        decreases entries.len() - i,
    {
        let ghost before = context_vars(ctx);
        let value = eval_to_cel(&env.vars.entries[i].1);
        cel_bind(&mut ctx, env.vars.entries[i].0.as_str(), value);
        proof {
            assert forall|k: Seq<char>| #[trigger]
                context_vars(ctx).contains_key(k) implies exists|j: int|
                0 <= j < i + 1 && (#[trigger] entries[j]).0@ == k by {
                if k == entries[i as int].0@ {
                } else {
                    assert(before.contains_key(k));
                }
            }
            assert forall|j: int| 0 <= j < i + 1 implies context_vars(ctx).contains_key(
                (#[trigger] entries[j]).0@,
            ) && context_vars(ctx)[entries[j].0@] == val_tree(entries[j].1@) by {
                if j < i && entries[j].0@ == entries[i as int].0@ {
                    crate::strmap::lemma_distinct(entries, j, i as int);
                }
            }
        }
        i = i + 1;
    }
    proof {
        let want = env_trees(env@);
        assert forall|k: Seq<char>| want.contains_key(k) implies context_vars(ctx).contains_key(k)
            && context_vars(ctx)[k] == want[k] by {
            let j = lemma_key_has_entry(entries, k);
            assert(entries[j].0@ == k);
            crate::strmap::lemma_entry(entries, j);
        }
        assert forall|k: Seq<char>| context_vars(ctx).contains_key(k) implies want.contains_key(
            k,
        ) by {
            let j = choose|j: int| 0 <= j < i && (#[trigger] entries[j]).0@ == k;
            crate::strmap::lemma_entry(entries, j);
        }
        assert(context_vars(ctx) =~= want);
    }
    ctx
}

/// What compiling `src` gives for each outcome of parsing it.
pub open(crate) spec fn parse_result(src: Seq<char>, p: CelParse) -> Result<
    CompiledExpr,
    ExprFault,
> {
    match p {
        CelParse::Parsed(program) => Ok(CompiledExpr { program: Arc::new(program) }),
        CelParse::Rejected(e) => Err(ExprFault::ParseFailed(e)),
        CelParse::Panicked => Err(
            ExprFault::ParseFailed("parser panicked on input "@ + quoted(src)),
        ),
    }
}

/// What evaluating gives for each outcome of a run.
pub open spec fn run_result(o: CelOutcome) -> Result<Val, ExprFault> {
    match o {
        CelOutcome::Value(t) => Ok(tree_val(t)),
        CelOutcome::Failed(e) => Err(ExprFault::EvalFailed(e)),
        CelOutcome::Panicked => Err(ExprFault::EvalFailed("interpreter panicked"@)),
    }
}

/// The compiled form of what parsing `src` gave.
pub fn finish_compile(src: &str, parsed: Result<Program, Option<String>>) -> (r: Result<
    CompiledExpr,
    ExprError,
>)
    ensures
        compilation(r) == parse_result(src@, parse_outcome(parsed)),
{
    match parsed {
        Ok(p) => Ok(CompiledExpr { program: Arc::new(p) }),
        Err(Some(e)) => Err(ExprError::ParseFailed(e)),
        Err(None) => Err(
            ExprError::ParseFailed(
                "parser panicked on input ".to_owned().concat(quote(src).as_str()),
            ),
        ),
    }
}

/// The value of what a run gave.
pub fn finish_eval(ended: Result<CelValue, Option<String>>) -> (r: Result<EvalValue, ExprError>)
    ensures
        outcome(r) == run_result(run_outcome(ended)),
{
    match ended {
        Ok(v) => Ok(cel_to_eval(&v)),
        Err(Some(e)) => Err(ExprError::EvalFailed(e)),
        Err(None) => Err(ExprError::EvalFailed("interpreter panicked".to_owned())),
    }
}

/// The default engine, backed by `cel-interpreter`.
pub struct CelEngine;

impl CelEngine {
    /// A new engine; it holds nothing.
    pub fn new() -> (r: Self)
        ensures
            r == CelEngine,
    {
        CelEngine
    }
}

impl Default for CelEngine {
    fn default() -> (r: Self)
        ensures
            r == CelEngine,
    {
        CelEngine::new()
    }
}

impl ExpressionEngine for CelEngine {
    open(crate) spec fn compiled(&self, src: Seq<char>) -> Result<CompiledExpr, ExprFault> {
        parse_result(src, cel_parse(src))
    }

    open(crate) spec fn evaluates(
        &self,
        expr: CompiledExpr,
        env: Map<Seq<char>, Val>,
        r: Result<Val, ExprFault>,
    ) -> bool {
        exists|o: CelOutcome| #[trigger]
            cel_yields(*expr.program, env_trees(env), o) && r == run_result(o)
    }

    fn compile(&self, src: &str) -> (r: Result<CompiledExpr, ExprError>) {
        finish_compile(src, cel_compile(src))
    }

    fn eval(&self, expr: &CompiledExpr, env: &EvalEnv) -> (r: Result<EvalValue, ExprError>) {
        let ended = cel_execute(&expr.program, build_context(env));
        let ghost seen = run_outcome(ended);
        assert(cel_yields(*expr.program, env_trees(env@), seen));
        finish_eval(ended)
    }
}

/// What comes back from the interpreter, kind by kind: what a scene has no kind
/// for is missing, lists come item by item, and maps field by field without the
/// fields whose keys are no text.
pub proof fn law_results_come_back_kind_by_kind(t: CelTree)
    ensures
        t is Null || t is Other ==> tree_val(t) == Val::Null,
        t matches CelTree::Bool(b) ==> tree_val(t) == Val::Bool(b),
        t matches CelTree::Int(i) ==> tree_val(t) == Val::Int(i),
        t matches CelTree::UInt(u) ==> tree_val(t) == Val::UInt(u),
        t matches CelTree::Float(bits) ==> tree_val(t) == Val::Float(bits),
        t matches CelTree::Str(s) ==> tree_val(t) == Val::Str(s),
        t matches CelTree::List(items) ==> (tree_val(t) matches Val::List(vs) && vs.len()
            == items.len() && forall|i: int|
            0 <= i < items.len() ==> #[trigger] vs[i] == tree_val(items[i])),
        t matches CelTree::Mapping(m) ==> (tree_val(t) matches Val::Mapping(vs) && forall|
            k: Seq<char>,
        |
            (#[trigger] vs.contains_key(k) <==> m.contains_key(KeyTree::Str(k))) && (m.contains_key(
                KeyTree::Str(k),
            ) ==> vs[k] == tree_val(m[KeyTree::Str(k)]))),
{
}

/// What a run comes to: its value, or its error; a panic is an error.
pub proof fn law_runs_end_in_a_value_or_an_error(o: CelOutcome)
    ensures
        o matches CelOutcome::Value(t) ==> run_result(o) == Ok::<Val, ExprFault>(tree_val(t)),
        o matches CelOutcome::Failed(e) ==> run_result(o) == Err::<Val, ExprFault>(
            ExprFault::EvalFailed(e),
        ),
        o is Panicked ==> run_result(o) is Err,
{
}

/// What parsing comes to: a compiled expression if and only if there is a program,
/// else an error that holds the parser's words or, where it panicked, the source.
pub proof fn law_sources_parse_or_are_refused(src: Seq<char>, p: CelParse)
    ensures
        p is Parsed <==> parse_result(src, p) is Ok,
        p matches CelParse::Rejected(e) ==> parse_result(src, p) == Err::<CompiledExpr, ExprFault>(
            ExprFault::ParseFailed(e),
        ),
        p is Panicked ==> parse_result(src, p) == Err::<CompiledExpr, ExprFault>(
            ExprFault::ParseFailed("parser panicked on input "@ + quoted(src)),
        ),
{
}

/// The interpreter sees every variable of the environment under its name, and no
/// other, each as the value that comes back as it is.
pub proof fn law_variables_cross_the_bridge(env: Map<Seq<char>, Val>, k: Seq<char>)
    ensures
        env_trees(env).contains_key(k) <==> env.contains_key(k),
        env.contains_key(k) ==> tree_val(env_trees(env)[k]) == env[k],
{
    if env.contains_key(k) {
        law_values_cross_the_bridge(env[k]);
    }
}

} // verus!
