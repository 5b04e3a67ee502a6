//! Scenes as JSON values, and reading back what was written. An object of JSON
//! has no order; the text of a scene, which has one, is that of
//! [`crate::scene_text`].

use vstd::prelude::*;

use crate::coord::Coord;
use crate::format::{
    color_in, field, mutation_in, mutations_in, mutations_in_all, node_in, nodes_in, number_in,
    opt_text_in, reads_back, scene_in, source_in, FileNumber, SceneFault,
};
use crate::json::{
    finite_bits, is_finite_bits, json_ok, lemma_array, lemma_object, trees_of, Json, JsonNumber,
    JsonTree,
};
use crate::scene::{
    lemma_child_smaller, lemma_frame_children, mutation_models, node_models, opt_text, Frame,
    FrameModel, Image, ImageModel, ImageSource, Mutation, MutationModel, NodeModel, Scene,
    SceneModel, SceneNode, SourceModel, Text, TextModel,
};
use crate::strmap::StrMap;
use crate::wire::{law_written_scenes_read_back, wrap_scene, wrapped};

verus! {

/// The JSON of a number: that of its double, or `null` where it is not finite.
pub open spec fn number_json<C: Coord>(c: C) -> JsonTree {
    if is_finite_bits(c.spec_double_bits()) {
        JsonTree::Number(JsonNumber::Float(c.spec_double_bits()))
    } else {
        JsonTree::Null
    }
}

/// The JSON of a colour.
pub open spec fn color_json<C: Coord>(c: [C; 4]) -> JsonTree {
    JsonTree::Array(
        seq![number_json(c[0]), number_json(c[1]), number_json(c[2]), number_json(c[3])],
    )
}

/// The JSON of a text that may be missing.
pub open spec fn opt_text_json(s: Option<Seq<char>>) -> JsonTree {
    match s {
        Some(s) => JsonTree::Str(s),
        None => JsonTree::Null,
    }
}

/// The JSON of a mutation.
pub open spec fn mutation_json(m: MutationModel) -> JsonTree {
    JsonTree::Object(map!["path"@ => JsonTree::Str(m.path), "set"@ => JsonTree::Str(m.set)])
}

/// The JSON of the source of an image.
pub open spec fn source_json(s: SourceModel) -> JsonTree {
    match s {
        SourceModel::Url(url) => JsonTree::Object(
            map!["kind"@ => JsonTree::Str("url"@), "url"@ => JsonTree::Str(url)],
        ),
        SourceModel::Path(path) => JsonTree::Object(
            map!["kind"@ => JsonTree::Str("path"@), "path"@ => JsonTree::Str(path)],
        ),
    }
}

/// Fields with an author id, where there is one.
pub open spec fn with_id(fields: Map<Seq<char>, JsonTree>, id: Option<Seq<char>>) -> Map<
    Seq<char>,
    JsonTree,
> {
    match id {
        Some(s) => fields.insert("id"@, JsonTree::Str(s)),
        None => fields,
    }
}

/// Fields with the mutations to run on click, where there are any.
pub open spec fn with_clicks(fields: Map<Seq<char>, JsonTree>, ms: Seq<MutationModel>) -> Map<
    Seq<char>,
    JsonTree,
> {
    if ms.len() == 0 {
        fields
    } else {
        fields.insert("on_click"@, JsonTree::Array(ms.map_values(|m| mutation_json(m))))
    }
}

/// The fields that every frame has, once its children are written.
pub open spec fn frame_base<C: Coord>(f: FrameModel<C>, children: Seq<JsonTree>) -> Map<
    Seq<char>,
    JsonTree,
> {
    map![
        "type"@ => JsonTree::Str("Frame"@),
        "label"@ => JsonTree::Str(f.label),
        "background_color"@ => color_json(f.background_color),
        "x"@ => number_json(f.x),
        "y"@ => number_json(f.y),
        "width"@ => number_json(f.width),
        "height"@ => number_json(f.height),
        "children"@ => JsonTree::Array(children),
    ]
}

/// The fields of a frame whose children are written.
pub open spec fn frame_fields<C: Coord>(f: FrameModel<C>, children: Seq<JsonTree>) -> Map<
    Seq<char>,
    JsonTree,
> {
    with_clicks(with_id(frame_base(f, children), f.id), f.on_click)
}

/// The fields that every text has.
pub open spec fn text_base<C: Coord>(t: TextModel<C>) -> Map<Seq<char>, JsonTree> {
    map![
        "type"@ => JsonTree::Str("Text"@),
        "label"@ => JsonTree::Str(t.label),
        "content"@ => JsonTree::Str(t.content),
        "font_size"@ => number_json(t.font_size),
        "color"@ => color_json(t.color),
        "x"@ => number_json(t.x),
        "y"@ => number_json(t.y),
        "width"@ => number_json(t.width),
        "height"@ => number_json(t.height),
    ]
}

/// The fields of a text.
pub open spec fn text_fields<C: Coord>(t: TextModel<C>) -> Map<Seq<char>, JsonTree> {
    with_clicks(with_id(text_base(t), t.id), t.on_click)
}

/// The fields that every image has.
pub open spec fn image_base<C: Coord>(i: ImageModel<C>) -> Map<Seq<char>, JsonTree> {
    map![
        "type"@ => JsonTree::Str("Image"@),
        "label"@ => JsonTree::Str(i.label),
        "source"@ => source_json(i.source),
        "alt"@ => opt_text_json(i.alt),
        "x"@ => number_json(i.x),
        "y"@ => number_json(i.y),
        "width"@ => number_json(i.width),
        "height"@ => number_json(i.height),
    ]
}

/// The fields of an image.
pub open spec fn image_fields<C: Coord>(i: ImageModel<C>) -> Map<Seq<char>, JsonTree> {
    with_clicks(with_id(image_base(i), i.id), i.on_click)
}

/// The fields of a choice whose branches are written.
pub open spec fn condition_fields(when: Seq<char>, on_true: JsonTree, on_false: JsonTree) -> Map<
    Seq<char>,
    JsonTree,
> {
    map![
        "type"@ => JsonTree::Str("Condition"@),
        "when"@ => JsonTree::Str(when),
        "then"@ => on_true,
        "else"@ => on_false,
    ]
}

/// The JSON of a node: an object with the kind and the fields. An id that is
/// missing and mutations of which there are none are left out.
pub open spec fn node_json<C: Coord>(n: NodeModel<C>) -> JsonTree
    decreases n, 1nat,
{
    match n {
        NodeModel::Frame(f) => JsonTree::Object(frame_fields(f, nodes_json(f.children))),
        NodeModel::Text(t) => JsonTree::Object(text_fields(t)),
        NodeModel::Image(i) => JsonTree::Object(image_fields(i)),
        NodeModel::Condition { when, on_true, on_false } => JsonTree::Object(
            condition_fields(
                when,
                node_json(*on_true),
                match on_false {
                    Some(e) => node_json(*e),
                    None => JsonTree::Null,
                },
            ),
        ),
    }
}

/// The JSON of nodes.
pub open spec fn nodes_json<C: Coord>(ns: Seq<NodeModel<C>>) -> Seq<JsonTree>
    decreases ns, 0nat,
{
    if ns.len() == 0 {
        Seq::empty()
    } else {
        nodes_json(ns.drop_last()).push(node_json(ns.last()))
    }
}

/// Nodes are written one by one.
proof fn lemma_nodes_json<C: Coord>(ns: Seq<NodeModel<C>>)
    ensures
        nodes_json(ns).len() == ns.len(),
        forall|i: int| 0 <= i < ns.len() ==> #[trigger] nodes_json(ns)[i] == node_json(ns[i]),
    decreases ns.len(),
{
    if ns.len() > 0 {
        lemma_nodes_json(ns.drop_last());
    }
}

/// Add a field.
fn put(fields: &mut StrMap<Json>, name: &str, value: Json)
    ensures
        trees_of(final(fields)@) == trees_of(old(fields)@).insert(name@, value@),
{
    fields.insert(name.to_owned(), value);
    assert(trees_of(fields@) =~= trees_of(old(fields)@).insert(name@, value@));
}

/// No fields.
fn no_fields() -> (r: StrMap<Json>)
    ensures
        trees_of(r@) == Map::<Seq<char>, JsonTree>::empty(),
{
    let r: StrMap<Json> = StrMap::new();
    assert(trees_of(r@) =~= Map::empty());
    r
}

/// An object with the given fields.
fn object(fields: StrMap<Json>) -> (r: Json)
    ensures
        r@ == JsonTree::Object(trees_of(fields@)),
{
    proof {
        lemma_object(fields);
    }
    Json::Object(fields)
}

/// Write a number.
fn number_to_json<C: Coord>(c: C) -> (r: Json)
    ensures
        r@ == number_json(c),
{
    let bits = c.double_bits();
    if finite_bits(bits) {
        Json::Number(JsonNumber::Float(bits))
    } else {
        Json::Null
    }
}

/// Write a colour.
fn color_to_json<C: Coord>(c: &[C; 4]) -> (r: Json)
    ensures
        r@ == color_json(*c),
{
    let mut items: Vec<Json> = Vec::new();
    items.push(number_to_json(c[0]));
    items.push(number_to_json(c[1]));
    items.push(number_to_json(c[2]));
    items.push(number_to_json(c[3]));
    proof {
        lemma_array(items, color_json(*c)->Array_0);
    }
    Json::Array(items)
}

/// Write a text that may be missing.
fn opt_text_to_json(s: &Option<String>) -> (r: Json)
    ensures
        r@ == opt_text_json(opt_text(*s)),
{
    match s {
        Some(s) => Json::String(s.clone()),
        None => Json::Null,
    }
}

/// Write a mutation.
pub fn mutation_to_json(m: &Mutation) -> (r: Json)
    ensures
        r@ == mutation_json(m@),
{
    let mut fields = no_fields();
    put(&mut fields, "path", Json::String(m.path.clone()));
    put(&mut fields, "set", Json::String(m.set.clone()));
    object(fields)
}

/// Write the source of an image.
fn source_to_json(s: &ImageSource) -> (r: Json)
    ensures
        r@ == source_json(s@),
{
    let mut fields = no_fields();
    match s {
        ImageSource::Url { url } => {
            put(&mut fields, "kind", Json::String("url".to_owned()));
            put(&mut fields, "url", Json::String(url.clone()));
        },
        ImageSource::Path { path } => {
            put(&mut fields, "kind", Json::String("path".to_owned()));
            put(&mut fields, "path", Json::String(path.clone()));
        },
    }
    object(fields)
}

/// Add an author id, where there is one.
fn put_id(fields: &mut StrMap<Json>, id: &Option<String>)
    ensures
        trees_of(final(fields)@) == with_id(trees_of(old(fields)@), opt_text(*id)),
{
    if let Some(s) = id {
        put(fields, "id", Json::String(s.clone()));
    }
}

/// Add the mutations to run on click, where there are any.
fn put_clicks(fields: &mut StrMap<Json>, ms: &Vec<Mutation>)
    ensures
        trees_of(final(fields)@) == with_clicks(trees_of(old(fields)@), mutation_models(ms@)),
{
    if ms.len() == 0 {
        return;
    }
    let ghost want = mutation_models(ms@).map_values(|m| mutation_json(m));
    let mut items: Vec<Json> = Vec::new();
    let mut i: usize = 0;
    while i < ms.len()
        invariant
            i <= ms@.len(),
            items@.len() == i,
            want == mutation_models(ms@).map_values(|m| mutation_json(m)),
            forall|j: int| 0 <= j < i ==> (#[trigger] items@[j])@ == want[j],
        decreases ms@.len() - i,
    {
        items.push(mutation_to_json(&ms[i]));
        i = i + 1;
    }
    proof {
        lemma_array(items, want);
    }
    put(fields, "on_click", Json::Array(items));
}

/// Write a text.
fn text_to_json<C: Coord>(t: &Text<C>) -> (r: Json)
    ensures
        r@ == JsonTree::Object(text_fields(t@)),
{
    let mut fields = no_fields();
    put(&mut fields, "type", Json::String("Text".to_owned()));
    put(&mut fields, "label", Json::String(t.label.clone()));
    put(&mut fields, "content", Json::String(t.content.clone()));
    put(&mut fields, "font_size", number_to_json(t.font_size));
    put(&mut fields, "color", color_to_json(&t.color));
    put(&mut fields, "x", number_to_json(t.x));
    put(&mut fields, "y", number_to_json(t.y));
    put(&mut fields, "width", number_to_json(t.width));
    put(&mut fields, "height", number_to_json(t.height));
    put_id(&mut fields, &t.id);
    put_clicks(&mut fields, &t.on_click);
    object(fields)
}

/// Write an image.
fn image_to_json<C: Coord>(i: &Image<C>) -> (r: Json)
    ensures
        r@ == JsonTree::Object(image_fields(i@)),
{
    let mut fields = no_fields();
    put(&mut fields, "type", Json::String("Image".to_owned()));
    put(&mut fields, "label", Json::String(i.label.clone()));
    put(&mut fields, "source", source_to_json(&i.source));
    put(&mut fields, "alt", opt_text_to_json(&i.alt));
    put(&mut fields, "x", number_to_json(i.x));
    put(&mut fields, "y", number_to_json(i.y));
    put(&mut fields, "width", number_to_json(i.width));
    put(&mut fields, "height", number_to_json(i.height));
    put_id(&mut fields, &i.id);
    put_clicks(&mut fields, &i.on_click);
    object(fields)
}

/// Write a frame whose children are written.
fn frame_to_json<C: Coord>(f: &Frame<C>, children: Vec<Json>) -> (r: Json)
    requires
        Json::Array(children)@ == JsonTree::Array(nodes_json(f@.children)),
    ensures
        r@ == node_json(NodeModel::Frame(f@)),
{
    let mut fields = no_fields();
    put(&mut fields, "type", Json::String("Frame".to_owned()));
    put(&mut fields, "label", Json::String(f.label.clone()));
    put(&mut fields, "background_color", color_to_json(&f.background_color));
    put(&mut fields, "x", number_to_json(f.x));
    put(&mut fields, "y", number_to_json(f.y));
    put(&mut fields, "width", number_to_json(f.width));
    put(&mut fields, "height", number_to_json(f.height));
    put(&mut fields, "children", Json::Array(children));
    put_id(&mut fields, &f.id);
    put_clicks(&mut fields, &f.on_click);
    object(fields)
}

/// Write a node.
pub fn node_to_json<C: Coord>(n: &SceneNode<C>) -> (r: Json)
    ensures
        r@ == node_json(n@),
    decreases *n,
{
    match n {
        SceneNode::Frame(f) => {
            let ghost want = nodes_json(f@.children);
            proof {
                lemma_frame_children(*f);
                lemma_nodes_json(f@.children);
            }
            let mut children: Vec<Json> = Vec::new();
            let mut i: usize = 0;
            while i < f.children.len()
                invariant
                    *n == SceneNode::Frame(*f),
                    want.len() == f.children@.len(),
                    forall|j: int|
                        0 <= j < want.len() ==> #[trigger] want[j] == node_json(f@.children[j]),
                    f@.children == node_models(f.children@),
                    i <= f.children@.len(),
                    children@.len() == i,
                    forall|j: int| 0 <= j < i ==> (#[trigger] children@[j])@ == want[j],
                decreases f.children@.len() - i,
            {
                proof {
                    lemma_child_smaller(*f, i as int);
                }
                children.push(node_to_json(&f.children[i]));
                i = i + 1;
            }
            proof {
                lemma_array(children, want);
            }
            frame_to_json(f, children)
        },
        SceneNode::Text(t) => text_to_json(t),
        SceneNode::Image(i) => image_to_json(i),
        SceneNode::Condition(c) => {
            let on_true = node_to_json(&*c.then_branch);
            let on_false = match &c.else_branch {
                Some(e) => node_to_json(&**e),
                None => Json::Null,
            };
            let mut fields = no_fields();
            put(&mut fields, "type", Json::String("Condition".to_owned()));
            put(&mut fields, "when", Json::String(c.when.clone()));
            put(&mut fields, "then", on_true);
            put(&mut fields, "else", on_false);
            object(fields)
        },
    }
}

/// A number by which the names of fields and of kinds are told apart: by their
/// length, their first and their last character.
pub(crate) closed spec fn name_code(s: Seq<char>) -> int {
    s.len() * 65536 + (s[0] as int) * 256 + (s.last() as int)
}

/// The names of fields and of kinds are told apart.
pub(crate) proof fn lemma_names()
    ensures
        name_code("type"@) == 4 * 65536 + 116 * 256 + 101,
        name_code("id"@) == 2 * 65536 + 105 * 256 + 100,
        name_code("label"@) == 5 * 65536 + 108 * 256 + 108,
        name_code("background_color"@) == 16 * 65536 + 98 * 256 + 114,
        name_code("x"@) == 65536 + 120 * 256 + 120,
        name_code("y"@) == 65536 + 121 * 256 + 121,
        name_code("width"@) == 5 * 65536 + 119 * 256 + 104,
        name_code("height"@) == 6 * 65536 + 104 * 256 + 116,
        name_code("children"@) == 8 * 65536 + 99 * 256 + 110,
        name_code("on_click"@) == 8 * 65536 + 111 * 256 + 107,
        name_code("content"@) == 7 * 65536 + 99 * 256 + 116,
        name_code("font_size"@) == 9 * 65536 + 102 * 256 + 101,
        name_code("color"@) == 5 * 65536 + 99 * 256 + 114,
        name_code("source"@) == 6 * 65536 + 115 * 256 + 101,
        name_code("alt"@) == 3 * 65536 + 97 * 256 + 116,
        name_code("when"@) == 4 * 65536 + 119 * 256 + 110,
        name_code("then"@) == 4 * 65536 + 116 * 256 + 110,
        name_code("else"@) == 4 * 65536 + 101 * 256 + 101,
        name_code("kind"@) == 4 * 65536 + 107 * 256 + 100,
        name_code("path"@) == 4 * 65536 + 112 * 256 + 104,
        name_code("url"@) == 3 * 65536 + 117 * 256 + 108,
        name_code("set"@) == 3 * 65536 + 115 * 256 + 116,
        name_code("Frame"@) == 5 * 65536 + 70 * 256 + 101,
        name_code("Text"@) == 4 * 65536 + 84 * 256 + 116,
        name_code("Image"@) == 5 * 65536 + 73 * 256 + 101,
        name_code("Condition"@) == 9 * 65536 + 67 * 256 + 110,
{
    reveal_strlit("type");
    reveal_strlit("id");
    reveal_strlit("label");
    reveal_strlit("background_color");
    reveal_strlit("x");
    reveal_strlit("y");
    reveal_strlit("width");
    reveal_strlit("height");
    reveal_strlit("children");
    reveal_strlit("on_click");
    reveal_strlit("content");
    reveal_strlit("font_size");
    reveal_strlit("color");
    reveal_strlit("source");
    reveal_strlit("alt");
    reveal_strlit("when");
    reveal_strlit("then");
    reveal_strlit("else");
    reveal_strlit("kind");
    reveal_strlit("path");
    reveal_strlit("url");
    reveal_strlit("set");
    reveal_strlit("Frame");
    reveal_strlit("Text");
    reveal_strlit("Image");
    reveal_strlit("Condition");
}

/// All numbers of a colour come back from a file as they were written.
pub open spec fn color_reads_back<C: FileNumber>(c: [C; 4]) -> bool {
    reads_back(c[0]) && reads_back(c[1]) && reads_back(c[2]) && reads_back(c[3])
}

/// All numbers of a tree come back from a file as they were written.
pub open spec fn node_reads_back<C: FileNumber>(n: NodeModel<C>) -> bool
    decreases n,
{
    match n {
        NodeModel::Frame(f) => {
            &&& color_reads_back(f.background_color)
            &&& reads_back(f.x)
            &&& reads_back(f.y)
            &&& reads_back(f.width)
            &&& reads_back(f.height)
            &&& forall|i: int|
                0 <= i < f.children.len() ==> node_reads_back(#[trigger] f.children[i])
        },
        NodeModel::Text(t) => {
            &&& reads_back(t.font_size)
            &&& color_reads_back(t.color)
            &&& reads_back(t.x)
            &&& reads_back(t.y)
            &&& reads_back(t.width)
            &&& reads_back(t.height)
        },
        NodeModel::Image(i) => {
            &&& reads_back(i.x)
            &&& reads_back(i.y)
            &&& reads_back(i.width)
            &&& reads_back(i.height)
        },
        NodeModel::Condition { on_true, on_false, .. } => {
            &&& node_reads_back(*on_true)
            &&& match on_false {
                Some(e) => node_reads_back(*e),
                None => true,
            }
        },
    }
}

/// A colour that was written is read back.
proof fn lemma_color_reads_back<C: FileNumber>(c: [C; 4])
    requires
        color_reads_back(c),
    ensures
        color_in::<C>(Some(color_json(c))) == Some(c),
{
    let read = color_in::<C>(Some(color_json(c)));
    assert(read->Some_0 =~= c);
}

/// A mutation that was written is read back.
pub proof fn law_written_mutations_read_back(m: MutationModel)
    ensures
        mutation_in(mutation_json(m)) == Some(m),
{
    lemma_names();
}

/// Mutations that were written are read back.
proof fn lemma_mutations_read_back(ms: Seq<MutationModel>)
    ensures
        mutations_in_all(ms.map_values(|m| mutation_json(m))) == Some(ms),
    decreases ms.len(),
{
    let written = ms.map_values(|m| mutation_json(m));
    if ms.len() > 0 {
        let before = ms.drop_last();
        lemma_mutations_read_back(before);
        law_written_mutations_read_back(ms.last());
        assert(written.drop_last() =~= before.map_values(|m| mutation_json(m)));
        assert(before.push(ms.last()) =~= ms);
    } else {
        assert(ms =~= Seq::empty());
    }
}

/// A source that was written is read back.
proof fn lemma_source_reads_back(s: SourceModel)
    ensures
        source_in(Some(source_json(s))) == Some(s),
{
    lemma_names();
}

/// An id and mutations that were added to fields are found there, and the other
/// fields are as they were.
proof fn lemma_added(
    fields: Map<Seq<char>, JsonTree>,
    id: Option<Seq<char>>,
    ms: Seq<MutationModel>,
)
    requires
        !fields.contains_key("id"@),
        !fields.contains_key("on_click"@),
    ensures
        opt_text_in(
            field(JsonTree::Object(with_clicks(with_id(fields, id), ms)), "id"@, 1),
        ) == Some(id),
        forall|place: int|
            mutations_in(
                #[trigger] field(
                    JsonTree::Object(with_clicks(with_id(fields, id), ms)),
                    "on_click"@,
                    place,
                ),
            ) == Some(ms),
        forall|name: Seq<char>, place: int|
            name != "id"@ && name != "on_click"@ ==> #[trigger] field(
                JsonTree::Object(with_clicks(with_id(fields, id), ms)),
                name,
                place,
            ) == field(JsonTree::Object(fields), name, place),
{
    lemma_names();
    lemma_mutations_read_back(ms);
    if ms.len() == 0 {
        assert(ms =~= Seq::empty());
    }
}

/// Nodes that are written and read back one by one are written and read back
/// together.
proof fn lemma_nodes_read_back<C: FileNumber>(ns: Seq<NodeModel<C>>)
    requires
        forall|i: int|
            0 <= i < ns.len() ==> node_in::<C>(node_json(#[trigger] ns[i]), true) == Some(ns[i]),
    ensures
        nodes_in::<C>(nodes_json(ns)) == Some(ns),
    decreases ns.len(),
{
    if ns.len() > 0 {
        let before = ns.drop_last();
        lemma_nodes_read_back(before);
        assert(nodes_json(ns).drop_last() =~= nodes_json(before));
        assert(node_in::<C>(node_json(ns[ns.len() - 1]), true) == Some(ns.last()));
        assert(before.push(ns.last()) =~= ns);
    } else {
        assert(ns =~= Seq::empty());
    }
}

/// A frame that was written is read back, if its children are.
proof fn lemma_frame_reads_back<C: FileNumber>(f: FrameModel<C>, nested: bool)
    requires
        node_reads_back(NodeModel::Frame(f)),
        nodes_in::<C>(nodes_json(f.children)) == Some(f.children),
    ensures
        node_in::<C>(node_json(NodeModel::Frame(f)), nested) == Some(NodeModel::Frame(f)),
{
    let t = node_json(NodeModel::Frame(f));
    let children = nodes_json(f.children);
    lemma_names();
    lemma_color_reads_back(f.background_color);
    lemma_added(frame_base(f, children), f.id, f.on_click);
    assert(field(t, "type"@, 0) == Some(JsonTree::Str("Frame"@)));
    assert(field(t, "children"@, 8) == Some(JsonTree::Array(children)));
    assert(field(t, "label"@, 2) == Some(JsonTree::Str(f.label)));
    assert(field(t, "background_color"@, 3) == Some(color_json(f.background_color)));
    assert(number_in::<C>(field(t, "x"@, 4)) == Some(f.x));
    assert(number_in::<C>(field(t, "y"@, 5)) == Some(f.y));
    assert(number_in::<C>(field(t, "width"@, 6)) == Some(f.width));
    assert(number_in::<C>(field(t, "height"@, 7)) == Some(f.height));
    assert(mutations_in(field(t, "on_click"@, 9)) == Some(f.on_click));
}

/// A text that was written is read back.
proof fn lemma_text_reads_back<C: FileNumber>(m: TextModel<C>, nested: bool)
    requires
        node_reads_back(NodeModel::Text(m)),
    ensures
        node_in::<C>(node_json(NodeModel::Text(m)), nested) == Some(NodeModel::Text(m)),
{
    let t = node_json(NodeModel::Text(m));
    lemma_names();
    lemma_color_reads_back(m.color);
    lemma_added(text_base(m), m.id, m.on_click);
    assert(field(t, "type"@, 0) == Some(JsonTree::Str("Text"@)));
    assert(field(t, "label"@, 2) == Some(JsonTree::Str(m.label)));
    assert(field(t, "content"@, 3) == Some(JsonTree::Str(m.content)));
    assert(number_in::<C>(field(t, "font_size"@, 4)) == Some(m.font_size));
    assert(field(t, "color"@, 5) == Some(color_json(m.color)));
    assert(number_in::<C>(field(t, "x"@, 6)) == Some(m.x));
    assert(number_in::<C>(field(t, "y"@, 7)) == Some(m.y));
    assert(number_in::<C>(field(t, "width"@, 8)) == Some(m.width));
    assert(number_in::<C>(field(t, "height"@, 9)) == Some(m.height));
    assert(mutations_in(field(t, "on_click"@, 10)) == Some(m.on_click));
}

/// An image that was written is read back.
proof fn lemma_image_reads_back<C: FileNumber>(m: ImageModel<C>, nested: bool)
    requires
        node_reads_back(NodeModel::Image(m)),
    ensures
        node_in::<C>(node_json(NodeModel::Image(m)), nested) == Some(NodeModel::Image(m)),
{
    let t = node_json(NodeModel::Image(m));
    lemma_names();
    lemma_source_reads_back(m.source);
    lemma_added(image_base(m), m.id, m.on_click);
    assert(field(t, "type"@, 0) == Some(JsonTree::Str("Image"@)));
    assert(field(t, "label"@, 2) == Some(JsonTree::Str(m.label)));
    assert(field(t, "source"@, 3) == Some(source_json(m.source)));
    assert(opt_text_in(field(t, "alt"@, 4)) == Some(m.alt));
    assert(number_in::<C>(field(t, "x"@, 5)) == Some(m.x));
    assert(number_in::<C>(field(t, "y"@, 6)) == Some(m.y));
    assert(number_in::<C>(field(t, "width"@, 7)) == Some(m.width));
    assert(number_in::<C>(field(t, "height"@, 8)) == Some(m.height));
    assert(mutations_in(field(t, "on_click"@, 9)) == Some(m.on_click));
}

/// A tree that was written is read back, at the root of a file and below it, if
/// all its numbers come back.
pub proof fn law_written_nodes_read_back<C: FileNumber>(n: NodeModel<C>, nested: bool)
    requires
        node_reads_back(n),
    ensures
        node_in::<C>(node_json(n), nested) == Some(n),
    decreases n,
{
    match n {
        NodeModel::Frame(f) => {
            assert forall|i: int| 0 <= i < f.children.len() implies node_in::<C>(
                node_json(#[trigger] f.children[i]),
                true,
            ) == Some(f.children[i]) by {
                law_written_nodes_read_back(f.children[i], true);
            }
            lemma_nodes_read_back(f.children);
            lemma_frame_reads_back(f, nested);
        },
        NodeModel::Text(m) => lemma_text_reads_back(m, nested),
        NodeModel::Image(m) => lemma_image_reads_back(m, nested),
        NodeModel::Condition { when, on_true, on_false } => {
            lemma_names();
            let t = node_json(n);
            law_written_nodes_read_back(*on_true, true);
            assert(field(t, "type"@, 0) == Some(JsonTree::Str("Condition"@)));
            assert(field(t, "then"@, 2) == Some(node_json(*on_true)));
            match on_false {
                Some(e) => {
                    law_written_nodes_read_back(*e, true);
                    assert(field(t, "else"@, 3) == Some(node_json(*e)));
                },
                None => {
                    assert(field(t, "else"@, 3) == Some(JsonTree::Null));
                },
            }
        },
    }
}

/// The JSON of a scene: its state with its root.
pub open spec fn scene_json<C: Coord>(s: SceneModel<C>) -> JsonTree {
    wrapped(s.state, node_json(s.root))
}

impl<C: Coord> Scene<C> {
    /// Write a scene: its state with its root.
    pub fn serialize(&self) -> (r: Json)
        ensures
            r@ == scene_json(self@),
    {
        let state = self.state.clone();
        assert(trees_of(state@) =~= trees_of(self.state@));
        wrap_scene(state, node_to_json(&self.root))
    }
}

/// A scene that was written is read back, if all its numbers come back.
pub proof fn law_serialized_scenes_deserialize<C: FileNumber>(s: SceneModel<C>)
    requires
        node_reads_back(s.root),
    ensures
        scene_in::<C>(scene_json(s)) == Ok::<SceneModel<C>, SceneFault>(s),
{
    law_written_scenes_read_back(s.state, node_json(s.root));
    law_written_nodes_read_back(s.root, false);
}

/// A bare node that was written is read back as a scene with no state, if all
/// its numbers come back.
pub proof fn law_bare_nodes_deserialize<C: FileNumber>(n: NodeModel<C>)
    requires
        node_reads_back(n),
    ensures
        scene_in::<C>(node_json(n)) == Ok::<SceneModel<C>, SceneFault>(
            SceneModel { state: Map::empty(), root: n },
        ),
{
    lemma_names();
    law_written_nodes_read_back(n, false);
}

/// Fields with an id and mutations are well formed where the fields are.
proof fn lemma_added_ok(
    fields: Map<Seq<char>, JsonTree>,
    id: Option<Seq<char>>,
    ms: Seq<MutationModel>,
)
    requires
        forall|k: Seq<char>| fields.contains_key(k) ==> json_ok(#[trigger] fields[k]),
    ensures
        json_ok(JsonTree::Object(with_clicks(with_id(fields, id), ms))),
{
    reveal_with_fuel(json_ok, 2);
    let written = ms.map_values(|m| mutation_json(m));
    assert forall|i: int| 0 <= i < written.len() implies json_ok(#[trigger] written[i]) by {
        assert(written[i] == mutation_json(ms[i]));
    }
    assert(json_ok(JsonTree::Array(written)));
    let named = with_id(fields, id);
    assert forall|k: Seq<char>| named.contains_key(k) implies json_ok(#[trigger] named[k]) by {
        if !(id is Some && k == "id"@) {
            assert(json_ok(fields[k]));
        }
    }
    let all = with_clicks(named, ms);
    assert forall|k: Seq<char>| all.contains_key(k) implies json_ok(#[trigger] all[k]) by {
        if !(ms.len() > 0 && k == "on_click"@) {
            assert(json_ok(named[k]));
        }
    }
}

/// Well-formed values stay so when written one after the other.
proof fn lemma_nodes_ok<C: Coord>(ns: Seq<NodeModel<C>>)
    requires
        forall|i: int| 0 <= i < ns.len() ==> json_ok(node_json(#[trigger] ns[i])),
    ensures
        json_ok(JsonTree::Array(nodes_json(ns))),
{
    lemma_nodes_json(ns);
    let written = nodes_json(ns);
    assert forall|i: int| 0 <= i < written.len() implies json_ok(#[trigger] written[i]) by {
        assert(written[i] == node_json(ns[i]));
    }
}

/// Colours are written as well-formed JSON.
proof fn lemma_color_ok<C: Coord>(c: [C; 4])
    ensures
        json_ok(color_json(c)),
{
    reveal_with_fuel(json_ok, 2);
}

/// Sources of images are written as well-formed JSON.
proof fn lemma_source_ok(s: SourceModel)
    ensures
        json_ok(source_json(s)),
{
    reveal_with_fuel(json_ok, 2);
}

/// A node is written as well-formed JSON, whatever its numbers are.
pub proof fn law_written_nodes_are_well_formed<C: Coord>(n: NodeModel<C>)
    ensures
        json_ok(node_json(n)),
    decreases n,
{
    match n {
        NodeModel::Frame(f) => {
            assert forall|i: int| 0 <= i < f.children.len() implies json_ok(
                node_json(#[trigger] f.children[i]),
            ) by {
                law_written_nodes_are_well_formed(f.children[i]);
            }
            lemma_nodes_ok(f.children);
            lemma_color_ok(f.background_color);
            let fields = frame_base(f, nodes_json(f.children));
            assert forall|k: Seq<char>| fields.contains_key(k) implies json_ok(
                #[trigger] fields[k],
            ) by {}
            lemma_added_ok(fields, f.id, f.on_click);
        },
        NodeModel::Text(t) => {
            lemma_color_ok(t.color);
            let fields = text_base(t);
            assert forall|k: Seq<char>| fields.contains_key(k) implies json_ok(
                #[trigger] fields[k],
            ) by {}
            lemma_added_ok(fields, t.id, t.on_click);
        },
        NodeModel::Image(i) => {
            lemma_source_ok(i.source);
            let fields = image_base(i);
            assert forall|k: Seq<char>| fields.contains_key(k) implies json_ok(
                #[trigger] fields[k],
            ) by {}
            lemma_added_ok(fields, i.id, i.on_click);
        },
        NodeModel::Condition { on_true, on_false, .. } => {
            reveal_with_fuel(json_ok, 2);
            law_written_nodes_are_well_formed(*on_true);
            if let Some(e) = on_false {
                law_written_nodes_are_well_formed(*e);
            }
        },
    }
}

/// A node is stored with all its fields and no others. An id that is missing and
/// mutations of which there are none are left out; an alternative text and another
/// branch that are missing are `null`, and so is a number that is not finite.
pub proof fn law_nodes_are_stored_with_their_fields<C: Coord>(
    n: NodeModel<C>,
    key: Seq<char>,
    c: C,
)
    ensures
        is_finite_bits(c.spec_double_bits()) ==> number_json(c) == JsonTree::Number(
            JsonNumber::Float(c.spec_double_bits()),
        ),
        !is_finite_bits(c.spec_double_bits()) ==> number_json(c) is Null,
        node_json(n) is Object,
        ({
            let m = node_json(n)->Object_0;
            match n {
                NodeModel::Frame(f) => {
                    &&& m.contains_key(key) <==> key == "type"@ || key == "label"@ || key
                        == "background_color"@ || key == "x"@ || key == "y"@ || key == "width"@
                        || key == "height"@ || key == "children"@ || (key == "id"@
                        && f.id is Some) || (key == "on_click"@ && f.on_click.len() > 0)
                    &&& m["x"@] == number_json(f.x)
                    &&& m["y"@] == number_json(f.y)
                    &&& m["width"@] == number_json(f.width)
                    &&& m["height"@] == number_json(f.height)
                    &&& m["background_color"@] == color_json(f.background_color)
                },
                NodeModel::Text(t) => {
                    &&& m.contains_key(key) <==> key == "type"@ || key == "label"@ || key
                        == "content"@ || key == "font_size"@ || key == "color"@ || key == "x"@
                        || key == "y"@ || key == "width"@ || key == "height"@ || (key == "id"@
                        && t.id is Some) || (key == "on_click"@ && t.on_click.len() > 0)
                    &&& m["x"@] == number_json(t.x)
                    &&& m["y"@] == number_json(t.y)
                    &&& m["width"@] == number_json(t.width)
                    &&& m["height"@] == number_json(t.height)
                    &&& m["font_size"@] == number_json(t.font_size)
                    &&& m["color"@] == color_json(t.color)
                },
                NodeModel::Image(i) => {
                    &&& m.contains_key(key) <==> key == "type"@ || key == "label"@ || key
                        == "source"@ || key == "alt"@ || key == "x"@ || key == "y"@ || key
                        == "width"@ || key == "height"@ || (key == "id"@ && i.id is Some) || (key
                        == "on_click"@ && i.on_click.len() > 0)
                    &&& i.alt is None ==> m["alt"@] is Null
                    &&& m["x"@] == number_json(i.x)
                    &&& m["y"@] == number_json(i.y)
                    &&& m["width"@] == number_json(i.width)
                    &&& m["height"@] == number_json(i.height)
                },
                NodeModel::Condition { when, on_true, on_false } => {
                    &&& m.contains_key(key) <==> key == "type"@ || key == "when"@ || key == "then"@
                        || key == "else"@
                    &&& on_false is None ==> m["else"@] is Null
                },
            }
        }),
{
    lemma_names();
}

} // verus!
