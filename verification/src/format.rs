//! Scene files: scenes as JSON.

use vstd::arithmetic::div_mod::{lemma_div_by_multiple, lemma_div_is_ordered_by_denominator};
use vstd::arithmetic::power2::{
    lemma2_to64, lemma2_to64_rest, lemma_pow2_pos, lemma_pow2_strictly_increases, pow2,
};
use vstd::bits::lemma_u64_shr_is_div;
use vstd::prelude::*;

use crate::coord::{double_fields, law_whole_double_bits_hold_the_number, whole_double_bits, Coord};
use crate::json::{
    is_finite_bits, lemma_array_item_smaller, lemma_object, lemma_object_entry_smaller, trees_of,
    Json, JsonNumber, JsonTree,
};
use crate::json_text::{parse_json, parsed_json};
use crate::resolve::opt_model;
use crate::scene::{
    lemma_frame_children, mutation_models, node_models, opt_text, Condition, Frame, FrameModel,
    Image, ImageModel, ImageSource, Mutation, MutationModel, NodeModel, Scene, SceneModel,
    SceneNode, SourceModel, Text, TextModel,
};
use crate::strmap::{ascending, key_index, lemma_entry};
use crate::text::{key_before, lemma_key_before_irreflexive, lemma_key_before_transitive, same_text};
use crate::value::{is_nan_bits, nan_bits};
use crate::wire::{fault_text, is_refused, open_scene, opened, SceneShapeError, ShapeFault};

verus! {

/// A floating-point number, as its bit pattern.
#[derive(Debug, Clone, Copy, PartialEq, Eq, Structural)]
pub enum NumberForm {
    /// In single precision.
    Single(u32),
    /// In double precision.
    Double(u64),
}

/// A number that scenes measure with and that files hold.
pub trait FileNumber: Coord {
    /// The number that a JSON number stands for.
    spec fn spec_from_number(n: JsonNumber) -> Self;

    /// The number that a JSON number stands for.
    fn from_number(n: JsonNumber) -> (r: Self)
        ensures
            r == Self::spec_from_number(n),
    ;

    /// The floating-point number that the text of a file has for it.
    spec fn spec_form(self) -> NumberForm;

    /// The floating-point number that the text of a file has for it.
    fn form(self) -> (r: NumberForm)
        ensures
            r == self.spec_form(),
    ;
}

/// The whole number that a double comes to when its fraction is dropped; one
/// that does not fit comes to the nearest that does, and a NaN to zero.
pub open spec fn whole_of_double(bits: u64) -> i32 {
    let exponent = (bits / 0x10_0000_0000_0000) % 0x800;
    let significand = 0x10_0000_0000_0000 + bits % 0x10_0000_0000_0000;
    let negative = bits >= 0x8000_0000_0000_0000;
    if is_nan_bits(bits) || exponent < 1023 {
        0
    } else if exponent >= 1054 {
        if negative {
            i32::MIN
        } else {
            i32::MAX
        }
    } else {
        let magnitude = significand / pow2((1075 - exponent) as nat) as int;
        if negative {
            (-magnitude) as i32
        } else {
            magnitude as i32
        }
    }
}

/// The significand of a double with an exponent that a 32-bit number can have,
/// shifted.
pub(crate) proof fn lemma_magnitude(significand: u64, exponent: u64)
    requires
        significand < 0x20_0000_0000_0000,
        1023 <= exponent < 1054,
    ensures
        0 <= significand as int / pow2((1075 - exponent) as nat) as int <= 0x7fff_ffff,
{
    lemma2_to64();
    lemma2_to64_rest();
    let k = (1075 - exponent) as nat;
    lemma_pow2_pos(k);
    if k > 22 {
        lemma_pow2_strictly_increases(22, k);
    }
    lemma_div_is_ordered_by_denominator(significand as int, 0x40_0000, pow2(k) as int);
}

impl FileNumber for i32 {
    open spec fn spec_from_number(n: JsonNumber) -> Self {
        match n {
            JsonNumber::PosInt(u) => if u > i32::MAX {
                i32::MAX
            } else {
                u as i32
            },
            JsonNumber::NegInt(i) => if i < i32::MIN {
                i32::MIN
            } else if i > i32::MAX {
                i32::MAX
            } else {
                i as i32
            },
            JsonNumber::Float(bits) => whole_of_double(bits),
        }
    }

    fn from_number(n: JsonNumber) -> (r: Self) {
        match n {
            JsonNumber::PosInt(u) => if u > i32::MAX as u64 {
                i32::MAX
            } else {
                u as i32
            },
            JsonNumber::NegInt(i) => if i < i32::MIN as i64 {
                i32::MIN
            } else if i > i32::MAX as i64 {
                i32::MAX
            } else {
                i as i32
            },
            JsonNumber::Float(bits) => {
                let exponent: u64 = (bits / 0x10_0000_0000_0000) % 0x800;
                let significand: u64 = 0x10_0000_0000_0000 + bits % 0x10_0000_0000_0000;
                let negative = bits >= 0x8000_0000_0000_0000;
                if nan_bits(bits) || exponent < 1023 {
                    0
                } else if exponent >= 1054 {
                    if negative {
                        i32::MIN
                    } else {
                        i32::MAX
                    }
                } else {
                    let shift: u64 = 1075 - exponent;
                    let magnitude: u64 = significand >> shift;
                    proof {
                        lemma_magnitude(significand, exponent);
                        lemma_u64_shr_is_div(significand, shift);
                    }
                    let whole: i64 = magnitude as i64;
                    if negative {
                        (-whole) as i32
                    } else {
                        whole as i32
                    }
                }
            },
        }
    }

    open spec fn spec_form(self) -> NumberForm {
        NumberForm::Double(self.spec_double_bits())
    }

    fn form(self) -> (r: NumberForm) {
        NumberForm::Double(self.double_bits())
    }
}

/// A number comes back from a file as it was written: it is written as a finite
/// double that stands for it.
pub open spec fn reads_back<C: FileNumber>(c: C) -> bool {
    &&& is_finite_bits(c.spec_double_bits())
    &&& C::spec_from_number(JsonNumber::Float(c.spec_double_bits())) == c
}

/// Every whole number of 32 bits comes back from a file as it was written.
pub proof fn law_whole_numbers_read_back(n: i32)
    ensures
        reads_back(n),
{
    lemma2_to64();
    lemma2_to64_rest();
    let magnitude: nat = if n >= 0 {
        n as nat
    } else {
        (-n) as nat
    };
    let bits = whole_double_bits(n);
    if n == 0 {
        assert(bits == 0);
    } else {
        law_whole_double_bits_hold_the_number(magnitude, 1075);
        let fields = double_fields(magnitude, 1075);
        let exponent = fields / 0x10_0000_0000_0000;
        let fraction = fields % 0x10_0000_0000_0000;
        let k = (1075 - exponent) as nat;
        assert(0x10_0000_0000_0000 + fraction == magnitude * pow2(k));
        lemma_pow2_pos(k);
        assert(exponent <= 1054) by {
            if exponent > 1054 {
                if k < 20 {
                    lemma_pow2_strictly_increases(k, 20);
                }
                assert(magnitude * pow2(k) <= 0x8000_0000 * 0x10_0000) by (nonlinear_arith)
                    requires
                        magnitude <= 0x8000_0000,
                        0 < pow2(k) <= 0x10_0000,
                ;
            }
        }
        assert(exponent == 1054 ==> magnitude == 0x8000_0000) by {
            if exponent == 1054 {
                assert(magnitude * pow2(k) == magnitude * 0x20_0000) by (nonlinear_arith)
                    requires
                        pow2(k) == 0x20_0000,
                ;
            }
        }
        if exponent < 1054 {
            lemma_div_by_multiple(magnitude as int, pow2(k) as int);
        }
        assert(fields == exponent * 0x10_0000_0000_0000 + fraction);
        assert(fields < 0x8000_0000_0000_0000);
        assert(bits / 0x10_0000_0000_0000 % 0x800 == exponent);
        assert(bits % 0x10_0000_0000_0000 == fraction);
    }
}

/// The field `name` of a value: in an object by its name, in a list by its place.
pub open spec fn field(t: JsonTree, name: Seq<char>, place: int) -> Option<JsonTree> {
    match t {
        JsonTree::Object(m) => if m.contains_key(name) {
            Some(m[name])
        } else {
            None
        },
        JsonTree::Array(items) => if 0 <= place < items.len() {
            Some(items[place])
        } else {
            None
        },
        _ => None,
    }
}

/// A value can hold `count` fields and no more. An object may hold others beside
/// them, which count for nothing.
pub open spec fn holds_fields(t: JsonTree, count: int) -> bool {
    match t {
        JsonTree::Object(_) => true,
        JsonTree::Array(items) => items.len() <= count,
        _ => false,
    }
}

/// A field is smaller than what it is a field of.
pub proof fn lemma_field_smaller(t: JsonTree, name: Seq<char>, place: int)
    ensures
        field(t, name, place) matches Some(v) ==> decreases_to!(t => v),
{
    match t {
        JsonTree::Object(m) => {
            if m.contains_key(name) {
                assert(decreases_to!(t => m[name]));
            }
        },
        JsonTree::Array(items) => {
            if 0 <= place < items.len() {
                assert(decreases_to!(t => items));
                assert(decreases_to!(items => items[place]));
            }
        },
        _ => {},
    }
}

/// The text of a field.
pub open spec fn text_in(v: Option<JsonTree>) -> Option<Seq<char>> {
    match v {
        Some(JsonTree::Str(s)) => Some(s),
        _ => None,
    }
}

/// The text of a field that may be missing or `null`.
pub open spec fn opt_text_in(v: Option<JsonTree>) -> Option<Option<Seq<char>>> {
    match v {
        None => Some(None),
        Some(JsonTree::Null) => Some(None),
        Some(JsonTree::Str(s)) => Some(Some(s)),
        _ => None,
    }
}

/// The number of a field.
pub open spec fn number_in<C: FileNumber>(v: Option<JsonTree>) -> Option<C> {
    match v {
        Some(JsonTree::Number(n)) => Some(C::spec_from_number(n)),
        _ => None,
    }
}

/// The colour of a field: a list of four numbers.
pub open spec fn color_in<C: FileNumber>(v: Option<JsonTree>) -> Option<[C; 4]> {
    match v {
        Some(JsonTree::Array(items)) => if items.len() == 4 && items[0] is Number
            && items[1] is Number && items[2] is Number && items[3] is Number {
            Some(
                [
                    C::spec_from_number(items[0]->Number_0),
                    C::spec_from_number(items[1]->Number_0),
                    C::spec_from_number(items[2]->Number_0),
                    C::spec_from_number(items[3]->Number_0),
                ],
            )
        } else {
            None
        },
        _ => None,
    }
}

/// A mutation: its path and its expression.
pub open spec fn mutation_in(t: JsonTree) -> Option<MutationModel> {
    let path = text_in(field(t, "path"@, 0));
    let set = text_in(field(t, "set"@, 1));
    if holds_fields(t, 2) && path is Some && set is Some {
        Some(MutationModel { path: path->Some_0, set: set->Some_0 })
    } else {
        None
    }
}

/// Mutations, if all of them are some.
pub open spec fn mutations_in_all(items: Seq<JsonTree>) -> Option<Seq<MutationModel>>
    decreases items.len(),
{
    if items.len() == 0 {
        Some(Seq::empty())
    } else {
        match (mutations_in_all(items.drop_last()), mutation_in(items.last())) {
            (Some(ms), Some(m)) => Some(ms.push(m)),
            _ => None,
        }
    }
}

/// The mutations of a field that may be missing.
pub open spec fn mutations_in(v: Option<JsonTree>) -> Option<Seq<MutationModel>> {
    match v {
        None => Some(Seq::empty()),
        Some(JsonTree::Array(items)) => mutations_in_all(items),
        _ => None,
    }
}

/// The kinds of sources of images.
#[derive(Debug, Clone, Copy, PartialEq, Eq, Structural)]
pub enum SourceKind {
    /// Fetched over HTTP.
    Url,
    /// Read from the file system.
    Path,
}

/// The kind of source that a value names: by its name, or by its number.
pub open spec fn source_kind(t: JsonTree) -> Option<SourceKind> {
    match field(t, "kind"@, 0) {
        Some(JsonTree::Str(s)) => if s == "url"@ {
            Some(SourceKind::Url)
        } else if s == "path"@ {
            Some(SourceKind::Path)
        } else {
            None
        },
        Some(JsonTree::Number(JsonNumber::PosInt(u))) => if u == 0 {
            Some(SourceKind::Url)
        } else if u == 1 {
            Some(SourceKind::Path)
        } else {
            None
        },
        _ => None,
    }
}

/// The source of an image.
pub open spec fn source_in(v: Option<JsonTree>) -> Option<SourceModel> {
    match v {
        Some(t) => if !holds_fields(t, 2) {
            None
        } else {
            match source_kind(t) {
                Some(SourceKind::Url) => match text_in(field(t, "url"@, 1)) {
                    Some(url) => Some(SourceModel::Url(url)),
                    None => None,
                },
                Some(SourceKind::Path) => match text_in(field(t, "path"@, 1)) {
                    Some(path) => Some(SourceModel::Path(path)),
                    None => None,
                },
                None => None,
            }
        },
        None => None,
    }
}

/// The kinds of nodes.
#[derive(Debug, Clone, Copy, PartialEq, Eq, Structural)]
pub enum NodeKind {
    /// A frame.
    Frame,
    /// A text.
    Text,
    /// An image.
    Image,
    /// A choice.
    Condition,
}

/// The kind that a value names: by its name or, below the root, by its number.
pub open spec fn node_kind(t: JsonTree, nested: bool) -> Option<NodeKind> {
    match field(t, "type"@, 0) {
        Some(JsonTree::Str(s)) => if s == "Frame"@ {
            Some(NodeKind::Frame)
        } else if s == "Text"@ {
            Some(NodeKind::Text)
        } else if s == "Image"@ {
            Some(NodeKind::Image)
        } else if s == "Condition"@ {
            Some(NodeKind::Condition)
        } else {
            None
        },
        Some(JsonTree::Number(JsonNumber::PosInt(u))) => if !nested {
            None
        } else if u == 0 {
            Some(NodeKind::Frame)
        } else if u == 1 {
            Some(NodeKind::Text)
        } else if u == 2 {
            Some(NodeKind::Image)
        } else if u == 3 {
            Some(NodeKind::Condition)
        } else {
            None
        },
        _ => None,
    }
}

/// The node that a value stands for, if it stands for one. In an object the
/// fields stand under their names, in a list in their order, the kind first.
pub open spec fn node_in<C: FileNumber>(t: JsonTree, nested: bool) -> Option<NodeModel<C>>
    decreases t, 1nat,
{
    match node_kind(t, nested) {
        Some(NodeKind::Frame) => {
            proof {
                lemma_field_smaller(t, "children"@, 8);
            }
            let children = match field(t, "children"@, 8) {
                None => Some(Seq::empty()),
                Some(JsonTree::Array(items)) => nodes_in(items),
                _ => None,
            };
            frame_in(t, children)
        },
        Some(NodeKind::Text) => text_node_in(t),
        Some(NodeKind::Image) => image_in(t),
        Some(NodeKind::Condition) => {
            proof {
                lemma_field_smaller(t, "then"@, 2);
                lemma_field_smaller(t, "else"@, 3);
            }
            let when = text_in(field(t, "when"@, 1));
            let on_true = match field(t, "then"@, 2) {
                Some(v) => node_in::<C>(v, true),
                None => None,
            };
            let on_false = match field(t, "else"@, 3) {
                None => Some(None),
                Some(JsonTree::Null) => Some(None),
                Some(v) => match node_in::<C>(v, true) {
                    Some(n) => Some(Some(Box::new(n))),
                    None => None,
                },
            };
            if holds_fields(t, 4) && when is Some && on_true is Some && on_false is Some {
                Some(
                    NodeModel::Condition {
                        when: when->Some_0,
                        on_true: Box::new(on_true->Some_0),
                        on_false: on_false->Some_0,
                    },
                )
            } else {
                None
            }
        },
        None => None,
    }
}

/// Nodes below another, if all of them are some.
pub open spec fn nodes_in<C: FileNumber>(items: Seq<JsonTree>) -> Option<Seq<NodeModel<C>>>
    decreases items, 0nat,
{
    if items.len() == 0 {
        Some(Seq::empty())
    } else {
        match (nodes_in::<C>(items.drop_last()), node_in::<C>(items.last(), true)) {
            (Some(ns), Some(n)) => Some(ns.push(n)),
            _ => None,
        }
    }
}

/// A frame with the given children.
pub open spec fn frame_in<C: FileNumber>(
    t: JsonTree,
    children: Option<Seq<NodeModel<C>>>,
) -> Option<NodeModel<C>> {
    let id = opt_text_in(field(t, "id"@, 1));
    let label = text_in(field(t, "label"@, 2));
    let background_color = color_in::<C>(field(t, "background_color"@, 3));
    let x = number_in::<C>(field(t, "x"@, 4));
    let y = number_in::<C>(field(t, "y"@, 5));
    let width = number_in::<C>(field(t, "width"@, 6));
    let height = number_in::<C>(field(t, "height"@, 7));
    let on_click = mutations_in(field(t, "on_click"@, 9));
    if holds_fields(t, 10) && id is Some && label is Some && background_color is Some && x is Some
        && y is Some && width is Some && height is Some && children is Some && on_click is Some {
        Some(
            NodeModel::Frame(
                FrameModel {
                    id: id->Some_0,
                    label: label->Some_0,
                    background_color: background_color->Some_0,
                    x: x->Some_0,
                    y: y->Some_0,
                    width: width->Some_0,
                    height: height->Some_0,
                    children: children->Some_0,
                    on_click: on_click->Some_0,
                },
            ),
        )
    } else {
        None
    }
}

/// A text.
pub open spec fn text_node_in<C: FileNumber>(t: JsonTree) -> Option<NodeModel<C>> {
    let id = opt_text_in(field(t, "id"@, 1));
    let label = text_in(field(t, "label"@, 2));
    let content = text_in(field(t, "content"@, 3));
    let font_size = number_in::<C>(field(t, "font_size"@, 4));
    let color = color_in::<C>(field(t, "color"@, 5));
    let x = number_in::<C>(field(t, "x"@, 6));
    let y = number_in::<C>(field(t, "y"@, 7));
    let width = number_in::<C>(field(t, "width"@, 8));
    let height = number_in::<C>(field(t, "height"@, 9));
    let on_click = mutations_in(field(t, "on_click"@, 10));
    if holds_fields(t, 11) && id is Some && label is Some && content is Some && font_size is Some
        && color is Some && x is Some && y is Some && width is Some && height is Some
        && on_click is Some {
        Some(
            NodeModel::Text(
                TextModel {
                    id: id->Some_0,
                    label: label->Some_0,
                    content: content->Some_0,
                    font_size: font_size->Some_0,
                    color: color->Some_0,
                    x: x->Some_0,
                    y: y->Some_0,
                    width: width->Some_0,
                    height: height->Some_0,
                    on_click: on_click->Some_0,
                },
            ),
        )
    } else {
        None
    }
}

/// An image.
pub open spec fn image_in<C: FileNumber>(t: JsonTree) -> Option<NodeModel<C>> {
    let id = opt_text_in(field(t, "id"@, 1));
    let label = text_in(field(t, "label"@, 2));
    let source = source_in(field(t, "source"@, 3));
    let alt = opt_text_in(field(t, "alt"@, 4));
    let x = number_in::<C>(field(t, "x"@, 5));
    let y = number_in::<C>(field(t, "y"@, 6));
    let width = number_in::<C>(field(t, "width"@, 7));
    let height = number_in::<C>(field(t, "height"@, 8));
    let on_click = mutations_in(field(t, "on_click"@, 9));
    if holds_fields(t, 10) && id is Some && label is Some && source is Some && alt is Some
        && x is Some && y is Some && width is Some && height is Some && on_click is Some {
        Some(
            NodeModel::Image(
                ImageModel {
                    id: id->Some_0,
                    label: label->Some_0,
                    source: source->Some_0,
                    alt: alt->Some_0,
                    x: x->Some_0,
                    y: y->Some_0,
                    width: width->Some_0,
                    height: height->Some_0,
                    on_click: on_click->Some_0,
                },
            ),
        )
    } else {
        None
    }
}

/// What an optional JSON value stands for.
pub open spec fn opt_tree(v: Option<&Json>) -> Option<JsonTree> {
    match v {
        Some(j) => Some(j@),
        None => None,
    }
}

/// The field `name` of a value, or the one at `place` of a list.
fn get_field<'a>(t: &'a Json, name: &str, place: usize) -> (r: Option<&'a Json>)
    ensures
        opt_tree(r) == field(t@, name@, place as int),
        r matches Some(v) ==> decreases_to!(*t => *v),
{
    match t {
        Json::Object(m) => {
            proof {
                use_type_invariant(m);
                lemma_object(*m);
            }
            let r = m.get(name);
            proof {
                if m@.contains_key(name@) {
                    let i = key_index(m.entries@, name@);
                    lemma_entry(m.entries@, i);
                    lemma_object_entry_smaller(*m, i);
                }
            }
            r
        },
        Json::Array(items) => {
            if place < items.len() {
                proof {
                    lemma_array_item_smaller(*items, place as int);
                }
                Some(&items[place])
            } else {
                None
            }
        },
        _ => None,
    }
}

/// Whether a value can hold `count` fields and no more.
fn has_fields(t: &Json, count: usize) -> (r: bool)
    ensures
        r == holds_fields(t@, count as int),
{
    match t {
        Json::Object(_) => true,
        Json::Array(items) => items.len() <= count,
        _ => false,
    }
}

/// The text of a field.
fn read_text(v: Option<&Json>) -> (r: Option<String>)
    ensures
        opt_text(r) == text_in(opt_tree(v)),
{
    match v {
        Some(Json::String(s)) => Some(s.clone()),
        _ => None,
    }
}

/// What an optional text that was looked for stands for.
pub open spec fn looked_for(v: Option<Option<String>>) -> Option<Option<Seq<char>>> {
    match v {
        Some(s) => Some(opt_text(s)),
        None => None,
    }
}

/// The text of a field that may be missing or `null`.
fn read_opt_text(v: Option<&Json>) -> (r: Option<Option<String>>)
    ensures
        looked_for(r) == opt_text_in(opt_tree(v)),
{
    match v {
        None => Some(None),
        Some(Json::Null) => Some(None),
        Some(Json::String(s)) => Some(Some(s.clone())),
        _ => None,
    }
}

/// The number of a field.
fn read_number<C: FileNumber>(v: Option<&Json>) -> (r: Option<C>)
    ensures
        r == number_in::<C>(opt_tree(v)),
{
    match v {
        Some(Json::Number(n)) => Some(C::from_number(*n)),
        _ => None,
    }
}

/// The colour of a field.
fn read_color<C: FileNumber>(v: Option<&Json>) -> (r: Option<[C; 4]>)
    ensures
        r == color_in::<C>(opt_tree(v)),
{
    match v {
        Some(Json::Array(items)) => {
            if items.len() != 4 {
                return None;
            }
            proof {
                let t = v->Some_0@;
                assert(t->Array_0[0] == items@[0]@);
                assert(t->Array_0[1] == items@[1]@);
                assert(t->Array_0[2] == items@[2]@);
                assert(t->Array_0[3] == items@[3]@);
            }
            match (&items[0], &items[1], &items[2], &items[3]) {
                (Json::Number(a), Json::Number(b), Json::Number(c), Json::Number(d)) => Some(
                    [
                        C::from_number(*a),
                        C::from_number(*b),
                        C::from_number(*c),
                        C::from_number(*d),
                    ],
                ),
                _ => None,
            }
        },
        _ => None,
    }
}

/// What an optional mutation stands for.
pub open spec fn opt_mutation(m: Option<Mutation>) -> Option<MutationModel> {
    match m {
        Some(m) => Some(m@),
        None => None,
    }
}

/// Read a mutation.
pub fn mutation_from_json(t: &Json) -> (r: Option<Mutation>)
    ensures
        opt_mutation(r) == mutation_in(t@),
{
    let path = read_text(get_field(t, "path", 0));
    let set = read_text(get_field(t, "set", 1));
    if !has_fields(t, 2) {
        return None;
    }
    match (path, set) {
        (Some(path), Some(set)) => Some(Mutation { path, set }),
        _ => None,
    }
}

/// What an optional list of mutations stands for.
pub open spec fn opt_mutations(ms: Option<Vec<Mutation>>) -> Option<Seq<MutationModel>> {
    match ms {
        Some(ms) => Some(mutation_models(ms@)),
        None => None,
    }
}

/// Once one of the first items is no mutation, the whole list is none.
proof fn lemma_not_all_mutations(items: Seq<JsonTree>, i: int)
    requires
        0 <= i < items.len(),
        mutation_in(items[i]) is None,
    ensures
        mutations_in_all(items) is None,
    decreases items.len(),
{
    if i < items.len() - 1 {
        lemma_not_all_mutations(items.drop_last(), i);
    }
}

/// The mutations of a field that may be missing.
fn read_mutations(v: Option<&Json>) -> (r: Option<Vec<Mutation>>)
    ensures
        opt_mutations(r) == mutations_in(opt_tree(v)),
{
    let mut out: Vec<Mutation> = Vec::new();
    assert(mutation_models(out@) =~= Seq::empty());
    match v {
        None => Some(out),
        Some(Json::Array(items)) => {
            let ghost trees = v->Some_0@->Array_0;
            let mut i: usize = 0;
            assert(trees.take(0) =~= Seq::empty());
            while i < items.len()
                invariant
                    trees == Json::Array(*items)@->Array_0,
                    opt_tree(v) == Some(JsonTree::Array(trees)),
                    i <= items@.len(),
                    mutations_in_all(trees.take(i as int)) == Some(mutation_models(out@)),
                decreases items@.len() - i,
            {
                assert(trees[i as int] == items@[i as int]@);
                match mutation_from_json(&items[i]) {
                    Some(m) => {
                        let ghost before = mutation_models(out@);
                        out.push(m);
                        proof {
                            let upto = trees.take(i + 1);
                            assert(upto.drop_last() =~= trees.take(i as int));
                            assert(mutation_models(out@) =~= before.push(m@));
                        }
                    },
                    None => {
                        proof {
                            lemma_not_all_mutations(trees, i as int);
                        }
                        return None;
                    },
                }
                i = i + 1;
            }
            assert(trees.take(i as int) =~= trees);
            Some(out)
        },
        _ => None,
    }
}

/// The kind of source that a value names.
fn read_source_kind(t: &Json) -> (r: Option<SourceKind>)
    ensures
        r == source_kind(t@),
{
    match get_field(t, "kind", 0) {
        Some(Json::String(s)) => if same_text(s.as_str(), "url") {
            Some(SourceKind::Url)
        } else if same_text(s.as_str(), "path") {
            Some(SourceKind::Path)
        } else {
            None
        },
        Some(Json::Number(JsonNumber::PosInt(u))) => if *u == 0 {
            Some(SourceKind::Url)
        } else if *u == 1 {
            Some(SourceKind::Path)
        } else {
            None
        },
        _ => None,
    }
}

/// What an optional source stands for.
pub open spec fn opt_source(s: Option<ImageSource>) -> Option<SourceModel> {
    match s {
        Some(s) => Some(s@),
        None => None,
    }
}

/// The source of an image.
fn read_source(v: Option<&Json>) -> (r: Option<ImageSource>)
    ensures
        opt_source(r) == source_in(opt_tree(v)),
{
    match v {
        Some(t) => {
            if !has_fields(t, 2) {
                return None;
            }
            match read_source_kind(t) {
                Some(SourceKind::Url) => match read_text(get_field(t, "url", 1)) {
                    Some(url) => Some(ImageSource::Url { url }),
                    None => None,
                },
                Some(SourceKind::Path) => match read_text(get_field(t, "path", 1)) {
                    Some(path) => Some(ImageSource::Path { path }),
                    None => None,
                },
                None => None,
            }
        },
        None => None,
    }
}

/// The kind that a value names.
fn read_kind(t: &Json, nested: bool) -> (r: Option<NodeKind>)
    ensures
        r == node_kind(t@, nested),
{
    match get_field(t, "type", 0) {
        Some(Json::String(s)) => if same_text(s.as_str(), "Frame") {
            Some(NodeKind::Frame)
        } else if same_text(s.as_str(), "Text") {
            Some(NodeKind::Text)
        } else if same_text(s.as_str(), "Image") {
            Some(NodeKind::Image)
        } else if same_text(s.as_str(), "Condition") {
            Some(NodeKind::Condition)
        } else {
            None
        },
        Some(Json::Number(JsonNumber::PosInt(u))) => if !nested {
            None
        } else if *u == 0 {
            Some(NodeKind::Frame)
        } else if *u == 1 {
            Some(NodeKind::Text)
        } else if *u == 2 {
            Some(NodeKind::Image)
        } else if *u == 3 {
            Some(NodeKind::Condition)
        } else {
            None
        },
        _ => None,
    }
}

/// Read a text.
fn read_text_node<C: FileNumber>(t: &Json) -> (r: Option<SceneNode<C>>)
    ensures
        opt_model(r) == text_node_in::<C>(t@),
{
    let id = read_opt_text(get_field(t, "id", 1))?;
    let label = read_text(get_field(t, "label", 2))?;
    let content = read_text(get_field(t, "content", 3))?;
    let font_size = read_number::<C>(get_field(t, "font_size", 4))?;
    let color = read_color::<C>(get_field(t, "color", 5))?;
    let x = read_number::<C>(get_field(t, "x", 6))?;
    let y = read_number::<C>(get_field(t, "y", 7))?;
    let width = read_number::<C>(get_field(t, "width", 8))?;
    let height = read_number::<C>(get_field(t, "height", 9))?;
    let on_click = read_mutations(get_field(t, "on_click", 10))?;
    if !has_fields(t, 11) {
        return None;
    }
    Some(
        SceneNode::Text(
            Text { id, label, content, font_size, color, x, y, width, height, on_click },
        ),
    )
}

/// Read an image.
fn read_image<C: FileNumber>(t: &Json) -> (r: Option<SceneNode<C>>)
    ensures
        opt_model(r) == image_in::<C>(t@),
{
    let id = read_opt_text(get_field(t, "id", 1))?;
    let label = read_text(get_field(t, "label", 2))?;
    let source = read_source(get_field(t, "source", 3))?;
    let alt = read_opt_text(get_field(t, "alt", 4))?;
    let x = read_number::<C>(get_field(t, "x", 5))?;
    let y = read_number::<C>(get_field(t, "y", 6))?;
    let width = read_number::<C>(get_field(t, "width", 7))?;
    let height = read_number::<C>(get_field(t, "height", 8))?;
    let on_click = read_mutations(get_field(t, "on_click", 9))?;
    if !has_fields(t, 10) {
        return None;
    }
    Some(
        SceneNode::Image(Image { id, label, source, alt, x, y, width, height, on_click }),
    )
}

/// Read a frame whose children have been read.
fn read_frame<C: FileNumber>(t: &Json, children: Vec<SceneNode<C>>) -> (r: Option<SceneNode<C>>)
    ensures
        opt_model(r) == frame_in::<C>(t@, Some(node_models(children@))),
{
    let id = read_opt_text(get_field(t, "id", 1))?;
    let label = read_text(get_field(t, "label", 2))?;
    let background_color = read_color::<C>(get_field(t, "background_color", 3))?;
    let x = read_number::<C>(get_field(t, "x", 4))?;
    let y = read_number::<C>(get_field(t, "y", 5))?;
    let width = read_number::<C>(get_field(t, "width", 6))?;
    let height = read_number::<C>(get_field(t, "height", 7))?;
    let on_click = read_mutations(get_field(t, "on_click", 9))?;
    if !has_fields(t, 10) {
        return None;
    }
    let frame = Frame { id, label, background_color, x, y, width, height, children, on_click };
    proof {
        lemma_frame_children(frame);
    }
    Some(SceneNode::Frame(frame))
}

/// Once one of the items is no node, the whole list holds none.
proof fn lemma_not_all_nodes<C: FileNumber>(items: Seq<JsonTree>, i: int)
    requires
        0 <= i < items.len(),
        node_in::<C>(items[i], true) is None,
    ensures
        nodes_in::<C>(items) is None,
    decreases items.len(),
{
    if i < items.len() - 1 {
        lemma_not_all_nodes::<C>(items.drop_last(), i);
    }
}

/// Read a node.
pub fn node_from_json<C: FileNumber>(t: &Json, nested: bool) -> (r: Option<SceneNode<C>>)
    ensures
        opt_model(r) == node_in::<C>(t@, nested),
    decreases *t,
{
    match read_kind(t, nested) {
        Some(NodeKind::Frame) => {
            let mut children: Vec<SceneNode<C>> = Vec::new();
            assert(node_models(children@) =~= Seq::empty());
            match get_field(t, "children", 8) {
                None => read_frame(t, children),
                Some(Json::Array(items)) => {
                    let ghost trees = Json::Array(*items)@->Array_0;
                    let mut i: usize = 0;
                    assert(trees.take(0) =~= Seq::empty());
                    while i < items.len()
                        invariant
                            trees == Json::Array(*items)@->Array_0,
                            field(t@, "children"@, 8) == Some(JsonTree::Array(trees)),
                            node_kind(t@, nested) == Some(NodeKind::Frame),
                            decreases_to!(*t => Json::Array(*items)),
                            i <= items@.len(),
                            nodes_in::<C>(trees.take(i as int)) == Some(node_models(children@)),
                        decreases items@.len() - i,
                    {
                        assert(trees[i as int] == items@[i as int]@);
                        proof {
                            lemma_array_item_smaller(*items, i as int);
                        }
                        match node_from_json::<C>(&items[i], true) {
                            Some(child) => {
                                let ghost before = node_models(children@);
                                children.push(child);
                                proof {
                                    let upto = trees.take(i + 1);
                                    assert(upto.drop_last() =~= trees.take(i as int));
                                    assert(node_models(children@) =~= before.push(child@));
                                }
                            },
                            None => {
                                proof {
                                    lemma_not_all_nodes::<C>(trees, i as int);
                                }
                                return None;
                            },
                        }
                        i = i + 1;
                    }
                    assert(trees.take(i as int) =~= trees);
                    read_frame(t, children)
                },
                _ => None,
            }
        },
        Some(NodeKind::Text) => read_text_node(t),
        Some(NodeKind::Image) => read_image(t),
        Some(NodeKind::Condition) => {
            let when = read_text(get_field(t, "when", 1))?;
            let on_true = match get_field(t, "then", 2) {
                Some(v) => node_from_json::<C>(v, true)?,
                None => return None,
            };
            let on_false = match get_field(t, "else", 3) {
                None => None,
                Some(Json::Null) => None,
                Some(v) => Some(Box::new(node_from_json::<C>(v, true)?)),
            };
            if !has_fields(t, 4) {
                return None;
            }
            Some(
                SceneNode::Condition(
                    Condition { when, then_branch: Box::new(on_true), else_branch: on_false },
                ),
            )
        },
        None => None,
    }
}

/// Why a value holds no scene.
#[derive(Debug, PartialEq)]
pub enum SceneFileError {
    /// It is neither a node nor a state with a root.
    Shape(SceneShapeError),
    /// Its root is no node.
    Node,
}

/// What a [`SceneFileError`] stands for.
pub enum SceneFault {
    /// The shape is wrong.
    Shape(ShapeFault),
    /// The root is no node.
    Node,
}

impl View for SceneFileError {
    type V = SceneFault;

    open spec fn view(&self) -> SceneFault {
        match *self {
            SceneFileError::Shape(fault) => SceneFault::Shape(fault@),
            SceneFileError::Node => SceneFault::Node,
        }
    }
}

/// A fault in words.
pub open spec fn scene_fault_text(fault: SceneFault) -> Seq<char> {
    match fault {
        SceneFault::Shape(fault) => fault_text(fault),
        SceneFault::Node => "the root of the scene is not a node"@,
    }
}

impl SceneFileError {
    /// The fault in words.
    pub fn message(&self) -> (r: String)
        ensures
            r@ == scene_fault_text(self@),
    {
        match self {
            SceneFileError::Shape(fault) => fault.message(),
            SceneFileError::Node => "the root of the scene is not a node".to_owned(),
        }
    }
}

/// The root that is read before any field is refused: in an object, fields are
/// read in key order, in a list in their places.
pub open spec fn root_read_first(top: JsonTree) -> Option<JsonTree> {
    match top {
        JsonTree::Object(fields) => if fields.contains_key("root"@) && forall|key: Seq<char>|
            #[trigger]
            fields.contains_key(key) && key_before(key, "root"@) ==> !is_refused(
                key,
                fields[key],
            ) {
            Some(fields["root"@])
        } else {
            None
        },
        JsonTree::Array(items) => if items.len() >= 2 && items[0] is Object {
            Some(items[1])
        } else {
            None
        },
        _ => None,
    }
}

/// The scene that a value holds: a bare node, or a state with a root. Where both
/// the shape and the root are wrong, what is read first decides.
pub open spec fn scene_in<C: FileNumber>(top: JsonTree) -> Result<SceneModel<C>, SceneFault> {
    match opened(top) {
        Ok((state, root)) => match node_in::<C>(root, false) {
            Some(n) => Ok(SceneModel { state, root: n }),
            None => Err(SceneFault::Node),
        },
        Err(fault) => match root_read_first(top) {
            Some(root) => if node_in::<C>(root, false) is None {
                Err(SceneFault::Node)
            } else {
                Err(SceneFault::Shape(fault))
            },
            None => Err(SceneFault::Shape(fault)),
        },
    }
}

/// What the result of reading a scene stands for.
pub open spec fn scene_read<C>(r: Result<Scene<C>, SceneFileError>) -> Result<
    SceneModel<C>,
    SceneFault,
> {
    match r {
        Ok(scene) => Ok(scene@),
        Err(fault) => Err(fault@),
    }
}

/// The root that is read before any field is refused.
fn find_root_read_first(top: &Json) -> (r: Option<&Json>)
    ensures
        opt_tree(r) == root_read_first(top@),
{
    match top {
        Json::Object(fields) => {
            let ghost tree = trees_of(fields@);
            let ghost entries = fields.entries@;
            proof {
                use_type_invariant(fields);
                lemma_object(*fields);
            }
            let mut i: usize = 0;
            while i < fields.entries.len()
                invariant
                    i <= entries.len(),
                    entries == fields.entries@,
                    ascending(entries),
                    tree == trees_of(fields@),
                    top@ == JsonTree::Object(tree),
                    forall|j: int|
                        0 <= j < i ==> (#[trigger] entries[j]).0@ != "root"@ && !is_refused(
                            entries[j].0@,
                            entries[j].1@,
                        ),
                decreases entries.len() - i,
            {
                let key = fields.entries[i].0.as_str();
                let value_is_object = matches!(&fields.entries[i].1, Json::Object(_));
                proof {
                    lemma_entry(entries, i as int);
                }
                if same_text(key, "root") {
                    proof {
                        assert forall|other: Seq<char>| #[trigger]
                            tree.contains_key(other) && key_before(
                                other,
                                "root"@,
                            ) implies !is_refused(other, tree[other]) by {
                            let j = key_index(entries, other);
                            lemma_entry(entries, j);
                            if j >= i {
                                assert(j > i ==> key_before(entries[i as int].0@, entries[j].0@));
                                if j > i {
                                    lemma_key_before_transitive(other, "root"@, other);
                                }
                                lemma_key_before_irreflexive(other);
                            }
                        }
                    }
                    return Some(&fields.entries[i].1);
                }
                if !(same_text(key, "state") && value_is_object) {
                    proof {
                        assert(is_refused(key@, tree[key@]));
                        if tree.contains_key("root"@) {
                            let j = key_index(entries, "root"@);
                            lemma_entry(entries, j);
                            assert(key_before(entries[i as int].0@, entries[j].0@));
                            assert(tree.contains_key(key@) && key_before(key@, "root"@));
                        }
                    }
                    return None;
                }
                i = i + 1;
            }
            proof {
                if tree.contains_key("root"@) {
                    let j = key_index(entries, "root"@);
                    lemma_entry(entries, j);
                    assert(entries[j].0@ != "root"@);
                }
            }
            None
        },
        Json::Array(items) => {
            if items.len() >= 2 {
                proof {
                    assert(top@->Array_0[0] == items@[0]@);
                    assert(top@->Array_0[1] == items@[1]@);
                }
                match &items[0] {
                    Json::Object(_) => Some(&items[1]),
                    _ => None,
                }
            } else {
                None
            }
        },
        _ => None,
    }
}

/// Why a text holds no scene.
#[derive(Debug, PartialEq)]
pub enum SceneTextError {
    /// It is not JSON; this is the parser's message.
    Json(String),
    /// It is JSON that holds no scene.
    Scene(SceneFileError),
}

/// What a [`SceneTextError`] stands for.
pub enum TextFault {
    /// Not JSON.
    Json(Seq<char>),
    /// No scene.
    Scene(SceneFault),
}

impl View for SceneTextError {
    type V = TextFault;

    open spec fn view(&self) -> TextFault {
        match *self {
            SceneTextError::Json(message) => TextFault::Json(message@),
            SceneTextError::Scene(fault) => TextFault::Scene(fault@),
        }
    }
}

impl SceneTextError {
    /// The fault in words.
    pub fn message(&self) -> (r: String)
        ensures
            r@ == match self@ {
                TextFault::Json(message) => message,
                TextFault::Scene(fault) => scene_fault_text(fault),
            },
    {
        match self {
            SceneTextError::Json(message) => message.clone(),
            SceneTextError::Scene(fault) => fault.message(),
        }
    }
}

/// The scene in what a text was parsed to.
pub open spec fn parsed_scene<C: FileNumber>(parsed: Result<JsonTree, Seq<char>>) -> Result<
    SceneModel<C>,
    TextFault,
> {
    match parsed {
        Ok(top) => match scene_in::<C>(top) {
            Ok(scene) => Ok(scene),
            Err(fault) => Err(TextFault::Scene(fault)),
        },
        Err(message) => Err(TextFault::Json(message)),
    }
}

/// What the result of reading a text stands for.
pub open spec fn text_read<C>(r: Result<Scene<C>, SceneTextError>) -> Result<
    SceneModel<C>,
    TextFault,
> {
    match r {
        Ok(scene) => Ok(scene@),
        Err(fault) => Err(fault@),
    }
}

impl<C: FileNumber> Scene<C> {
    /// The scene that a text holds.
    pub fn from_text(text: &str) -> (r: Result<Self, SceneTextError>)
        ensures
            text_read(r) == parsed_scene::<C>(parsed_json(text@)),
    {
        match parse_json(text) {
            Ok(top) => match Scene::deserialize(&top) {
                Ok(scene) => Ok(scene),
                Err(fault) => Err(SceneTextError::Scene(fault)),
            },
            Err(message) => Err(SceneTextError::Json(message)),
        }
    }

    /// The scene that a value holds: a bare node, or a state with a root.
    pub fn deserialize(value: &Json) -> (r: Result<Self, SceneFileError>)
        ensures
            scene_read(r) == scene_in::<C>(value@),
    {
        match open_scene(value) {
            Ok((state, root)) => match node_from_json::<C>(&root, false) {
                Some(n) => Ok(Scene { state, root: n }),
                None => Err(SceneFileError::Node),
            },
            Err(fault) => {
                if let Some(root) = find_root_read_first(value) {
                    if node_from_json::<C>(root, false).is_none() {
                        return Err(SceneFileError::Node);
                    }
                }
                Err(SceneFileError::Shape(fault))
            },
        }
    }
}

} // verus!
