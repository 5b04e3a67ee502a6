//! What may stand in a scene file: the same node in several forms, what may be
//! missing, what is passed over and what is refused.

use vstd::arithmetic::div_mod::lemma_fundamental_div_mod;
use vstd::arithmetic::power2::{lemma_pow2_pos, pow2};
use vstd::prelude::*;

use crate::format::{
    color_in, field, frame_in, image_in, lemma_magnitude, mutation_in, mutations_in,
    mutations_in_all, node_in, nodes_in, opt_text_in, parsed_scene, scene_in, source_in,
    text_node_in, FileNumber, SceneFault, TextFault,
};
use crate::json::{JsonNumber, JsonTree};
use crate::save::lemma_names;
use crate::scene::{MutationModel, NodeModel, SceneModel, SourceModel};
use crate::text::{key_before, lemma_key_before_irreflexive};
use crate::value::is_nan_bits;
use crate::wire::opened;

verus! {

/// Two values have the same fields.
pub open spec fn same_fields(a: JsonTree, b: JsonTree, name: Seq<char>, place: int) -> bool {
    field(a, name, place) == field(b, name, place)
}

/// The fields of a text may stand in a list, in the order in which they are
/// written, behind the kind.
pub proof fn law_texts_in_lists_read_as_objects<C: FileNumber>(v: Seq<JsonTree>, nested: bool)
    requires
        v.len() == 11,
        v[0] == JsonTree::Str("Text"@),
    ensures
        node_in::<C>(JsonTree::Array(v), nested) == node_in::<C>(
            JsonTree::Object(
                map![
                    "type"@ => v[0],
                    "id"@ => v[1],
                    "label"@ => v[2],
                    "content"@ => v[3],
                    "font_size"@ => v[4],
                    "color"@ => v[5],
                    "x"@ => v[6],
                    "y"@ => v[7],
                    "width"@ => v[8],
                    "height"@ => v[9],
                    "on_click"@ => v[10],
                ],
            ),
            nested,
        ),
{
    lemma_names();
    let a = JsonTree::Array(v);
    let b = JsonTree::Object(
        map![
            "type"@ => v[0],
            "id"@ => v[1],
            "label"@ => v[2],
            "content"@ => v[3],
            "font_size"@ => v[4],
            "color"@ => v[5],
            "x"@ => v[6],
            "y"@ => v[7],
            "width"@ => v[8],
            "height"@ => v[9],
            "on_click"@ => v[10],
        ],
    );
    assert(same_fields(a, b, "type"@, 0));
    assert(same_fields(a, b, "id"@, 1));
    assert(same_fields(a, b, "label"@, 2));
    assert(same_fields(a, b, "content"@, 3));
    assert(same_fields(a, b, "font_size"@, 4));
    assert(same_fields(a, b, "color"@, 5));
    assert(same_fields(a, b, "x"@, 6));
    assert(same_fields(a, b, "y"@, 7));
    assert(same_fields(a, b, "width"@, 8));
    assert(same_fields(a, b, "height"@, 9));
    assert(same_fields(a, b, "on_click"@, 10));
    assert(text_node_in::<C>(a) == text_node_in::<C>(b));
}

/// The fields of an image may stand in a list, in the order in which they are
/// written, behind the kind.
pub proof fn law_images_in_lists_read_as_objects<C: FileNumber>(v: Seq<JsonTree>, nested: bool)
    requires
        v.len() == 10,
        v[0] == JsonTree::Str("Image"@),
    ensures
        node_in::<C>(JsonTree::Array(v), nested) == node_in::<C>(
            JsonTree::Object(
                map![
                    "type"@ => v[0],
                    "id"@ => v[1],
                    "label"@ => v[2],
                    "source"@ => v[3],
                    "alt"@ => v[4],
                    "x"@ => v[5],
                    "y"@ => v[6],
                    "width"@ => v[7],
                    "height"@ => v[8],
                    "on_click"@ => v[9],
                ],
            ),
            nested,
        ),
{
    lemma_names();
    let a = JsonTree::Array(v);
    let b = JsonTree::Object(
        map![
            "type"@ => v[0],
            "id"@ => v[1],
            "label"@ => v[2],
            "source"@ => v[3],
            "alt"@ => v[4],
            "x"@ => v[5],
            "y"@ => v[6],
            "width"@ => v[7],
            "height"@ => v[8],
            "on_click"@ => v[9],
        ],
    );
    assert(same_fields(a, b, "type"@, 0));
    assert(same_fields(a, b, "id"@, 1));
    assert(same_fields(a, b, "label"@, 2));
    assert(same_fields(a, b, "source"@, 3));
    assert(same_fields(a, b, "alt"@, 4));
    assert(same_fields(a, b, "x"@, 5));
    assert(same_fields(a, b, "y"@, 6));
    assert(same_fields(a, b, "width"@, 7));
    assert(same_fields(a, b, "height"@, 8));
    assert(same_fields(a, b, "on_click"@, 9));
    assert(image_in::<C>(a) == image_in::<C>(b));
}

/// The fields of a frame may stand in a list, in the order in which they are
/// written, behind the kind.
pub proof fn law_frames_in_lists_read_as_objects<C: FileNumber>(v: Seq<JsonTree>, nested: bool)
    requires
        v.len() == 10,
        v[0] == JsonTree::Str("Frame"@),
    ensures
        node_in::<C>(JsonTree::Array(v), nested) == node_in::<C>(
            JsonTree::Object(
                map![
                    "type"@ => v[0],
                    "id"@ => v[1],
                    "label"@ => v[2],
                    "background_color"@ => v[3],
                    "x"@ => v[4],
                    "y"@ => v[5],
                    "width"@ => v[6],
                    "height"@ => v[7],
                    "children"@ => v[8],
                    "on_click"@ => v[9],
                ],
            ),
            nested,
        ),
{
    lemma_names();
    let a = JsonTree::Array(v);
    let b = JsonTree::Object(
        map![
            "type"@ => v[0],
            "id"@ => v[1],
            "label"@ => v[2],
            "background_color"@ => v[3],
            "x"@ => v[4],
            "y"@ => v[5],
            "width"@ => v[6],
            "height"@ => v[7],
            "children"@ => v[8],
            "on_click"@ => v[9],
        ],
    );
    assert(same_fields(a, b, "type"@, 0));
    assert(same_fields(a, b, "id"@, 1));
    assert(same_fields(a, b, "label"@, 2));
    assert(same_fields(a, b, "background_color"@, 3));
    assert(same_fields(a, b, "x"@, 4));
    assert(same_fields(a, b, "y"@, 5));
    assert(same_fields(a, b, "width"@, 6));
    assert(same_fields(a, b, "height"@, 7));
    assert(same_fields(a, b, "children"@, 8));
    assert(same_fields(a, b, "on_click"@, 9));
    assert forall|kids: Option<Seq<NodeModel<C>>>| #[trigger]
        frame_in::<C>(a, kids) == frame_in::<C>(b, kids) by {}
}

/// A mutation, a source and a choice may stand in lists too.
pub proof fn law_small_lists_read_as_objects<C: FileNumber>(v: Seq<JsonTree>, nested: bool)
    ensures
        v.len() == 2 ==> mutation_in(JsonTree::Array(v)) == mutation_in(
            JsonTree::Object(map!["path"@ => v[0], "set"@ => v[1]]),
        ),
        v.len() == 2 && v[0] == JsonTree::Str("url"@) ==> source_in(Some(JsonTree::Array(v)))
            == source_in(Some(JsonTree::Object(map!["kind"@ => v[0], "url"@ => v[1]]))),
        v.len() == 2 && v[0] == JsonTree::Str("path"@) ==> source_in(Some(JsonTree::Array(v)))
            == source_in(Some(JsonTree::Object(map!["kind"@ => v[0], "path"@ => v[1]]))),
        v.len() == 4 && v[0] == JsonTree::Str("Condition"@) ==> node_in::<C>(
            JsonTree::Array(v),
            nested,
        ) == node_in::<C>(
            JsonTree::Object(
                map!["type"@ => v[0], "when"@ => v[1], "then"@ => v[2], "else"@ => v[3]],
            ),
            nested,
        ),
{
    lemma_names();
    if v.len() == 4 && v[0] == JsonTree::Str("Condition"@) {
        let a = JsonTree::Array(v);
        let b = JsonTree::Object(
            map!["type"@ => v[0], "when"@ => v[1], "then"@ => v[2], "else"@ => v[3]],
        );
        assert(same_fields(a, b, "type"@, 0));
        assert(same_fields(a, b, "when"@, 1));
        assert(same_fields(a, b, "then"@, 2));
        assert(same_fields(a, b, "else"@, 3));
    }
}

/// A field that a node does not know counts for nothing.
pub proof fn law_unknown_fields_count_for_nothing<C: FileNumber>(
    m: Map<Seq<char>, JsonTree>,
    key: Seq<char>,
    value: JsonTree,
    nested: bool,
)
    requires
        key != "type"@,
        key != "id"@,
        key != "label"@,
        key != "background_color"@,
        key != "x"@,
        key != "y"@,
        key != "width"@,
        key != "height"@,
        key != "children"@,
        key != "on_click"@,
        key != "content"@,
        key != "font_size"@,
        key != "color"@,
        key != "source"@,
        key != "alt"@,
        key != "when"@,
        key != "then"@,
        key != "else"@,
    ensures
        node_in::<C>(JsonTree::Object(m.insert(key, value)), nested) == node_in::<C>(
            JsonTree::Object(m),
            nested,
        ),
{
    let a = JsonTree::Object(m.insert(key, value));
    let b = JsonTree::Object(m);
    assert forall|name: Seq<char>, place: int| name != key implies #[trigger] same_fields(
        a,
        b,
        name,
        place,
    ) by {}
    assert(same_fields(a, b, "type"@, 0));
    assert(same_fields(a, b, "children"@, 8));
    assert(same_fields(a, b, "when"@, 1));
    assert(same_fields(a, b, "then"@, 2));
    assert(same_fields(a, b, "else"@, 3));
    assert(same_fields(a, b, "id"@, 1));
    assert(same_fields(a, b, "label"@, 2));
    assert(same_fields(a, b, "background_color"@, 3));
    assert(same_fields(a, b, "x"@, 4));
    assert(same_fields(a, b, "y"@, 5));
    assert(same_fields(a, b, "width"@, 6));
    assert(same_fields(a, b, "height"@, 7));
    assert(same_fields(a, b, "on_click"@, 9));
    assert(same_fields(a, b, "content"@, 3));
    assert(same_fields(a, b, "font_size"@, 4));
    assert(same_fields(a, b, "color"@, 5));
    assert(same_fields(a, b, "x"@, 6));
    assert(same_fields(a, b, "y"@, 7));
    assert(same_fields(a, b, "width"@, 8));
    assert(same_fields(a, b, "height"@, 9));
    assert(same_fields(a, b, "on_click"@, 10));
    assert(same_fields(a, b, "source"@, 3));
    assert(same_fields(a, b, "alt"@, 4));
    assert(same_fields(a, b, "x"@, 5));
    assert(same_fields(a, b, "y"@, 6));
    assert(same_fields(a, b, "width"@, 7));
    assert(same_fields(a, b, "height"@, 8));
    assert(text_node_in::<C>(a) == text_node_in::<C>(b));
    assert(image_in::<C>(a) == image_in::<C>(b));
    assert forall|kids: Option<Seq<NodeModel<C>>>| #[trigger]
        frame_in::<C>(a, kids) == frame_in::<C>(b, kids) by {}
}

/// A node needs all its fields but those that may be missing: without a label no
/// frame, text or image is read, without a position or a size neither; without a
/// predicate or a branch for `true` no choice is.
pub proof fn law_nodes_need_their_fields<C: FileNumber>(m: Map<Seq<char>, JsonTree>, nested: bool)
    ensures
        !m.contains_key("type"@) ==> node_in::<C>(JsonTree::Object(m), nested) is None,
        node_in::<C>(JsonTree::Object(m), nested) matches Some(n) ==> {
            &&& n !is Condition ==> m.contains_key("label"@) && m.contains_key("x"@)
                && m.contains_key("y"@) && m.contains_key("width"@) && m.contains_key("height"@)
            &&& n is Frame ==> m.contains_key("background_color"@)
            &&& n is Text ==> m.contains_key("content"@) && m.contains_key("font_size"@)
                && m.contains_key("color"@)
            &&& n is Image ==> m.contains_key("source"@)
            &&& n is Condition ==> m.contains_key("when"@) && m.contains_key("then"@)
        },
{
}

/// The children of a frame are read one by one: all of them are nodes, or none is
/// read.
pub proof fn law_children_are_read_one_by_one<C: FileNumber>(items: Seq<JsonTree>)
    ensures
        nodes_in::<C>(items) is Some <==> forall|j: int|
            0 <= j < items.len() ==> node_in::<C>(#[trigger] items[j], true) is Some,
        nodes_in::<C>(items) matches Some(ns) ==> ns.len() == items.len() && forall|j: int|
            0 <= j < items.len() ==> node_in::<C>(items[j], true) == Some(#[trigger] ns[j]),
    decreases items.len(),
{
    if items.len() > 0 {
        let fewer = items.drop_last();
        law_children_are_read_one_by_one::<C>(fewer);
        if forall|j: int|
            0 <= j < items.len() ==> node_in::<C>(#[trigger] items[j], true) is Some {
            assert forall|j: int| 0 <= j < fewer.len() implies node_in::<C>(
                #[trigger] fewer[j],
                true,
            ) is Some by {
                assert(node_in::<C>(items[j], true) is Some);
            }
            assert(node_in::<C>(items[items.len() - 1], true) is Some);
        }
        if let Some(ns) = nodes_in::<C>(items) {
            let before = nodes_in::<C>(fewer)->Some_0;
            assert(ns == before.push(node_in::<C>(items.last(), true)->Some_0));
            assert forall|j: int| 0 <= j < items.len() implies node_in::<C>(items[j], true)
                == Some(#[trigger] ns[j]) by {
                if j < fewer.len() {
                    assert(node_in::<C>(fewer[j], true) == Some(before[j]));
                }
            }
            assert forall|j: int| 0 <= j < items.len() implies node_in::<C>(
                #[trigger] items[j],
                true,
            ) is Some by {
                assert(node_in::<C>(items[j], true) == Some(ns[j]));
            }
        }
    }
}

/// Mutations are read one by one: all of them are mutations, or none is read.
pub proof fn law_mutations_are_read_one_by_one(items: Seq<JsonTree>)
    ensures
        mutations_in(Some(JsonTree::Array(items))) is Some <==> forall|j: int|
            0 <= j < items.len() ==> mutation_in(#[trigger] items[j]) is Some,
        mutations_in(Some(JsonTree::Array(items))) matches Some(ms) ==> ms.len() == items.len()
            && forall|j: int|
            0 <= j < items.len() ==> mutation_in(items[j]) == Some(#[trigger] ms[j]),
    decreases items.len(),
{
    if items.len() > 0 {
        let fewer = items.drop_last();
        law_mutations_are_read_one_by_one(fewer);
        if forall|j: int| 0 <= j < items.len() ==> mutation_in(#[trigger] items[j]) is Some {
            assert forall|j: int| 0 <= j < fewer.len() implies mutation_in(
                #[trigger] fewer[j],
            ) is Some by {
                assert(mutation_in(items[j]) is Some);
            }
            assert(mutation_in(items[items.len() - 1]) is Some);
        }
        if let Some(ms) = mutations_in_all(items) {
            let before = mutations_in_all(fewer)->Some_0;
            assert(ms == before.push(mutation_in(items.last())->Some_0));
            assert forall|j: int| 0 <= j < items.len() implies mutation_in(items[j]) == Some(
                #[trigger] ms[j],
            ) by {
                if j < fewer.len() {
                    assert(mutation_in(fewer[j]) == Some(before[j]));
                }
            }
            assert forall|j: int| 0 <= j < items.len() implies mutation_in(
                #[trigger] items[j],
            ) is Some by {
                assert(mutation_in(items[j]) == Some(ms[j]));
            }
        }
    }
}

/// A colour is a list of four numbers, and each of them is a component.
pub proof fn law_colours_are_four_numbers<C: FileNumber>(items: Seq<JsonTree>, i: int)
    ensures
        color_in::<C>(Some(JsonTree::Array(items))) is Some <==> items.len() == 4 && forall|
            j: int,
        |
            0 <= j < 4 ==> (#[trigger] items[j]) is Number,
        color_in::<C>(Some(JsonTree::Array(items))) matches Some(c) ==> (0 <= i < 4 ==> c[i]
            == C::spec_from_number(items[i]->Number_0)),
{
    if items.len() == 4 && forall|j: int| 0 <= j < 4 ==> (#[trigger] items[j]) is Number {
        assert(items[0] is Number && items[1] is Number && items[2] is Number
            && items[3] is Number);
    }
}

/// A number in a file comes to the nearest that fits. The fraction of a double is
/// dropped, on either side of zero; what is no number comes to zero.
pub proof fn law_fractions_are_dropped(bits: u64, u: u64, i: i64)
    ensures
        i32::spec_from_number(JsonNumber::PosInt(u)) == (if u <= i32::MAX {
            u as int
        } else {
            i32::MAX as int
        }),
        i < 0 ==> i32::spec_from_number(JsonNumber::NegInt(i)) == (if i >= i32::MIN {
            i as int
        } else {
            i32::MIN as int
        }),
        ({
            let exponent = (bits / 0x10_0000_0000_0000) % 0x800;
            let significand = 0x10_0000_0000_0000 + bits % 0x10_0000_0000_0000;
            let unit = pow2((1075 - exponent) as nat);
            let n = i32::spec_from_number(JsonNumber::Float(bits));
            &&& is_nan_bits(bits) || exponent < 1023 ==> n == 0
            &&& !is_nan_bits(bits) && exponent >= 1054 ==> n == (if bits
                < 0x8000_0000_0000_0000 {
                i32::MAX
            } else {
                i32::MIN
            })
            &&& 1023 <= exponent < 1054 ==> {
                let size: int = if bits < 0x8000_0000_0000_0000 {
                    n as int
                } else {
                    -n
                };
                size >= 0 && size * unit <= significand < (size + 1) * unit
            }
        }),
{
    let exponent = (bits / 0x10_0000_0000_0000) % 0x800;
    let significand = 0x10_0000_0000_0000 + bits % 0x10_0000_0000_0000;
    if 1023 <= exponent < 1054 {
        let unit = pow2((1075 - exponent) as nat) as int;
        lemma_pow2_pos((1075 - exponent) as nat);
        lemma_magnitude(significand as u64, exponent);
        lemma_fundamental_div_mod(significand, unit);
        let size = significand / unit;
        assert(size * unit <= significand < (size + 1) * unit) by (nonlinear_arith)
            requires
                significand == unit * size + significand % unit,
                0 <= significand % unit < unit,
        ;
    }
}

/// The children that a value holds.
spec fn children_in<C: FileNumber>(t: JsonTree) -> Option<Seq<NodeModel<C>>> {
    match field(t, "children"@, 8) {
        None => Some(Seq::empty()),
        Some(JsonTree::Array(items)) => nodes_in(items),
        _ => None,
    }
}

/// The other branch that a value holds.
spec fn other_branch_in<C: FileNumber>(t: JsonTree) -> Option<Option<Box<NodeModel<C>>>> {
    match field(t, "else"@, 3) {
        None => Some(None),
        Some(JsonTree::Null) => Some(None),
        Some(v) => match node_in::<C>(v, true) {
            Some(n) => Some(Some(Box::new(n))),
            None => None,
        },
    }
}

/// Objects that differ only in fields that come to the same are the same node.
#[verifier::spinoff_prover]
proof fn lemma_same_node<C: FileNumber>(
    a: Map<Seq<char>, JsonTree>,
    b: Map<Seq<char>, JsonTree>,
    key: Seq<char>,
    nested: bool,
)
    requires
        key == "id"@ || key == "alt"@ || key == "on_click"@ || key == "children"@ || key
            == "else"@,
        forall|name: Seq<char>, place: int|
            name != key ==> #[trigger] same_fields(
                JsonTree::Object(a),
                JsonTree::Object(b),
                name,
                place,
            ),
        key == "id"@ || key == "alt"@ ==> opt_text_in(field(JsonTree::Object(a), key, 0))
            == opt_text_in(field(JsonTree::Object(b), key, 0)),
        key == "on_click"@ ==> mutations_in(field(JsonTree::Object(a), key, 0)) == mutations_in(
            field(JsonTree::Object(b), key, 0),
        ),
        children_in::<C>(JsonTree::Object(a)) == children_in::<C>(JsonTree::Object(b)),
        other_branch_in::<C>(JsonTree::Object(a)) == other_branch_in::<C>(JsonTree::Object(b)),
    ensures
        node_in::<C>(JsonTree::Object(a), nested) == node_in::<C>(JsonTree::Object(b), nested),
{
    let (s, t) = (JsonTree::Object(a), JsonTree::Object(b));
    lemma_names();
    assert(same_fields(s, t, "type"@, 0));
    assert(same_fields(s, t, "label"@, 2));
    assert(same_fields(s, t, "when"@, 1));
    assert(same_fields(s, t, "then"@, 2));
    assert(same_fields(s, t, "x"@, 0));
    assert(same_fields(s, t, "y"@, 0));
    assert(same_fields(s, t, "width"@, 0));
    assert(same_fields(s, t, "height"@, 0));
    assert(same_fields(s, t, "background_color"@, 3));
    assert(same_fields(s, t, "content"@, 3));
    assert(same_fields(s, t, "font_size"@, 4));
    assert(same_fields(s, t, "color"@, 5));
    assert(same_fields(s, t, "source"@, 3));
    assert(key != "id"@ ==> same_fields(s, t, "id"@, 1));
    assert(key != "alt"@ ==> same_fields(s, t, "alt"@, 4));
    assert(key != "on_click"@ ==> same_fields(s, t, "on_click"@, 0));
    assert(text_node_in::<C>(s) == text_node_in::<C>(t));
    assert(image_in::<C>(s) == image_in::<C>(t));
    assert(frame_in::<C>(s, children_in::<C>(s)) == frame_in::<C>(t, children_in::<C>(t)));
}

/// An id, an alternative text or another branch that is `null` counts as missing,
/// and lists of mutations or children that are missing count as empty.
#[verifier::spinoff_prover]
pub proof fn law_what_is_missing_counts_as_nothing<C: FileNumber>(
    m: Map<Seq<char>, JsonTree>,
    nested: bool,
)
    ensures
        node_in::<C>(JsonTree::Object(m.insert("id"@, JsonTree::Null)), nested) == node_in::<C>(
            JsonTree::Object(m.remove("id"@)),
            nested,
        ),
        node_in::<C>(JsonTree::Object(m.insert("alt"@, JsonTree::Null)), nested) == node_in::<C>(
            JsonTree::Object(m.remove("alt"@)),
            nested,
        ),
        node_in::<C>(JsonTree::Object(m.insert("else"@, JsonTree::Null)), nested) == node_in::<C>(
            JsonTree::Object(m.remove("else"@)),
            nested,
        ),
        node_in::<C>(
            JsonTree::Object(m.insert("on_click"@, JsonTree::Array(Seq::empty()))),
            nested,
        ) == node_in::<C>(JsonTree::Object(m.remove("on_click"@)), nested),
        node_in::<C>(
            JsonTree::Object(m.insert("children"@, JsonTree::Array(Seq::empty()))),
            nested,
        ) == node_in::<C>(JsonTree::Object(m.remove("children"@)), nested),
{
    lemma_names();
    let none = JsonTree::Array(Seq::empty());
    lemma_same_node::<C>(m.insert("id"@, JsonTree::Null), m.remove("id"@), "id"@, nested);
    lemma_same_node::<C>(m.insert("alt"@, JsonTree::Null), m.remove("alt"@), "alt"@, nested);
    lemma_same_node::<C>(m.insert("else"@, JsonTree::Null), m.remove("else"@), "else"@, nested);
    lemma_same_node::<C>(
        m.insert("on_click"@, none),
        m.remove("on_click"@),
        "on_click"@,
        nested,
    );
    lemma_same_node::<C>(
        m.insert("children"@, none),
        m.remove("children"@),
        "children"@,
        nested,
    );
}

/// A scene is read from a file that opens exactly if its root is a node, and is its
/// state with that node; otherwise the root is at fault. A file that does not open
/// holds no scene. Its shape is at fault, unless its root is read before what is
/// wrong with the shape and is no node.
pub proof fn law_scenes_are_read_from_what_opens<C: FileNumber>(top: JsonTree)
    ensures
        opened(top) matches Ok((state, root)) ==> {
            &&& node_in::<C>(root, false) matches Some(n) ==> scene_in::<C>(top) == Ok::<
                SceneModel<C>,
                SceneFault,
            >(SceneModel { state, root: n })
            &&& node_in::<C>(root, false) is None ==> scene_in::<C>(top) == Err::<
                SceneModel<C>,
                SceneFault,
            >(SceneFault::Node)
        },
        opened(top) matches Err(fault) ==> {
            &&& scene_in::<C>(top) == Err::<SceneModel<C>, SceneFault>(SceneFault::Shape(fault))
                || scene_in::<C>(top) == Err::<SceneModel<C>, SceneFault>(SceneFault::Node)
            &&& scene_in::<C>(top) == Err::<SceneModel<C>, SceneFault>(SceneFault::Node) ==> match
                top {
                JsonTree::Object(fields) => fields.contains_key("root"@) && node_in::<C>(
                    fields["root"@],
                    false,
                ) is None && forall|key: Seq<char>| #[trigger]
                    fields.contains_key(key) && key_before(key, "root"@) ==> key == "state"@
                        && fields[key] is Object,
                JsonTree::Array(items) => items.len() > 2 && items[0] is Object && node_in::<C>(
                    items[1],
                    false,
                ) is None,
                _ => false,
            }
        },
{
    lemma_key_before_irreflexive("root"@);
}

/// A text that is no JSON is refused in the words of the parser; any other is read
/// as the JSON that it holds.
pub proof fn law_texts_are_read_as_their_json<C: FileNumber>(
    top: JsonTree,
    message: Seq<char>,
)
    ensures
        parsed_scene::<C>(Err(message)) == Err::<SceneModel<C>, TextFault>(
            TextFault::Json(message),
        ),
        scene_in::<C>(top) matches Ok(s) ==> parsed_scene::<C>(Ok(top)) == Ok::<
            SceneModel<C>,
            TextFault,
        >(s),
        scene_in::<C>(top) matches Err(fault) ==> parsed_scene::<C>(Ok(top)) == Err::<
            SceneModel<C>,
            TextFault,
        >(TextFault::Scene(fault)),
{
}

/// The kind of a node below the root may be a number: frames, texts, images and
/// choices count from zero. At the root it may not.
pub proof fn law_kinds_may_be_numbers<C: FileNumber>(m: Map<Seq<char>, JsonTree>, u: u64)
    ensures
        u == 0 ==> node_in::<C>(numbered(m, u), true) == node_in::<C>(
            JsonTree::Object(m.insert("type"@, JsonTree::Str("Frame"@))),
            true,
        ),
        u == 1 ==> node_in::<C>(numbered(m, u), true) == node_in::<C>(
            JsonTree::Object(m.insert("type"@, JsonTree::Str("Text"@))),
            true,
        ),
        u == 2 ==> node_in::<C>(numbered(m, u), true) == node_in::<C>(
            JsonTree::Object(m.insert("type"@, JsonTree::Str("Image"@))),
            true,
        ),
        u == 3 ==> node_in::<C>(numbered(m, u), true) == node_in::<C>(
            JsonTree::Object(m.insert("type"@, JsonTree::Str("Condition"@))),
            true,
        ),
        u > 3 ==> node_in::<C>(numbered(m, u), true) is None,
        node_in::<C>(numbered(m, u), false) is None,
{
    lemma_names();
}

/// An object whose `type` is a number.
pub open spec fn numbered(m: Map<Seq<char>, JsonTree>, u: u64) -> JsonTree {
    JsonTree::Object(m.insert("type"@, JsonTree::Number(JsonNumber::PosInt(u))))
}

/// The text `s` stands under `key`.
pub open spec fn text_stands(m: Map<Seq<char>, JsonTree>, key: Seq<char>, s: Seq<char>) -> bool {
    m.contains_key(key) && m[key] == JsonTree::Str(s)
}

/// A text stands under `key`, or there is none and nothing stands there.
pub open spec fn text_may_stand(
    m: Map<Seq<char>, JsonTree>,
    key: Seq<char>,
    s: Option<Seq<char>>,
) -> bool {
    match s {
        Some(s) => text_stands(m, key, s),
        None => !m.contains_key(key) || m[key] is Null,
    }
}

/// A number that comes to `c` stands under `key`.
pub open spec fn number_stands<C: FileNumber>(
    m: Map<Seq<char>, JsonTree>,
    key: Seq<char>,
    c: C,
) -> bool {
    &&& m.contains_key(key)
    &&& m[key] matches JsonTree::Number(n)
    &&& C::spec_from_number(n) == c
}

/// A list of mutations stands under `on_click`, or there are none and nothing
/// stands there.
pub open spec fn clicks_stand(m: Map<Seq<char>, JsonTree>, ms: Seq<MutationModel>) -> bool {
    if m.contains_key("on_click"@) {
        m["on_click"@] is Array && mutations_in(Some(m["on_click"@])) == Some(ms)
    } else {
        ms.len() == 0
    }
}

/// What is read of an object is what its fields say, each under its own name.
pub proof fn law_nodes_are_what_their_fields_say<C: FileNumber>(
    m: Map<Seq<char>, JsonTree>,
    nested: bool,
)
    requires
        m.contains_key("type"@),
        m["type"@] is Str,
    ensures
        node_in::<C>(JsonTree::Object(m), nested) matches Some(n) ==> match n {
            NodeModel::Frame(f) => {
                &&& m["type"@] == JsonTree::Str("Frame"@)
                &&& text_may_stand(m, "id"@, f.id)
                &&& text_stands(m, "label"@, f.label)
                &&& color_in::<C>(Some(m["background_color"@])) == Some(f.background_color)
                &&& number_stands(m, "x"@, f.x)
                &&& number_stands(m, "y"@, f.y)
                &&& number_stands(m, "width"@, f.width)
                &&& number_stands(m, "height"@, f.height)
                &&& m.contains_key("children"@) ==> m["children"@] is Array && nodes_in::<C>(
                    m["children"@]->Array_0,
                ) == Some(f.children)
                &&& !m.contains_key("children"@) ==> f.children.len() == 0
                &&& clicks_stand(m, f.on_click)
            },
            NodeModel::Text(t) => {
                &&& m["type"@] == JsonTree::Str("Text"@)
                &&& text_may_stand(m, "id"@, t.id)
                &&& text_stands(m, "label"@, t.label)
                &&& text_stands(m, "content"@, t.content)
                &&& number_stands(m, "font_size"@, t.font_size)
                &&& color_in::<C>(Some(m["color"@])) == Some(t.color)
                &&& number_stands(m, "x"@, t.x)
                &&& number_stands(m, "y"@, t.y)
                &&& number_stands(m, "width"@, t.width)
                &&& number_stands(m, "height"@, t.height)
                &&& clicks_stand(m, t.on_click)
            },
            NodeModel::Image(i) => {
                &&& m["type"@] == JsonTree::Str("Image"@)
                &&& text_may_stand(m, "id"@, i.id)
                &&& text_stands(m, "label"@, i.label)
                &&& source_in(Some(m["source"@])) == Some(i.source)
                &&& text_may_stand(m, "alt"@, i.alt)
                &&& number_stands(m, "x"@, i.x)
                &&& number_stands(m, "y"@, i.y)
                &&& number_stands(m, "width"@, i.width)
                &&& number_stands(m, "height"@, i.height)
                &&& clicks_stand(m, i.on_click)
            },
            NodeModel::Condition { when, on_true, on_false } => {
                &&& m["type"@] == JsonTree::Str("Condition"@)
                &&& text_stands(m, "when"@, when)
                &&& m.contains_key("then"@) && node_in::<C>(m["then"@], true) == Some(*on_true)
                &&& match on_false {
                    Some(e) => m.contains_key("else"@) && node_in::<C>(m["else"@], true) == Some(
                        *e,
                    ),
                    None => !m.contains_key("else"@) || m["else"@] is Null,
                }
            },
        },
{
}

/// A source is an address or a path, as its `kind` says, by name or by number.
pub proof fn law_sources_are_what_their_fields_say(m: Map<Seq<char>, JsonTree>)
    ensures
        source_in(Some(JsonTree::Object(m))) matches Some(SourceModel::Url(url)) ==> text_stands(
            m,
            "url"@,
            url,
        ) && m.contains_key("kind"@) && (m["kind"@] == JsonTree::Str("url"@) || m["kind"@]
            == JsonTree::Number(JsonNumber::PosInt(0))),
        source_in(Some(JsonTree::Object(m))) matches Some(SourceModel::Path(path)) ==> text_stands(
            m,
            "path"@,
            path,
        ) && m.contains_key("kind"@) && (m["kind"@] == JsonTree::Str("path"@) || m["kind"@]
            == JsonTree::Number(JsonNumber::PosInt(1))),
        source_in(
            Some(JsonTree::Object(m.insert("kind"@, JsonTree::Number(JsonNumber::PosInt(0))))),
        ) == source_in(Some(JsonTree::Object(m.insert("kind"@, JsonTree::Str("url"@))))),
        source_in(
            Some(JsonTree::Object(m.insert("kind"@, JsonTree::Number(JsonNumber::PosInt(1))))),
        ) == source_in(Some(JsonTree::Object(m.insert("kind"@, JsonTree::Str("path"@))))),
{
    lemma_names();
}

/// A mutation is its path and its expression, each under its own name.
pub proof fn law_mutations_are_what_their_fields_say(
    m: Map<Seq<char>, JsonTree>,
    path: Seq<char>,
    set: Seq<char>,
)
    ensures
        mutation_in(JsonTree::Object(m)) == Some(MutationModel { path, set }) <==> text_stands(
            m,
            "path"@,
            path,
        ) && text_stands(m, "set"@, set),
{
}

} // verus!
