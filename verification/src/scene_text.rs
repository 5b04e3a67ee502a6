//! Scenes as text: the JSON that a scene file holds, its fields in the order in
//! which the types declare them.
//!
//! Strings, numbers and the values of a state are written by `serde_json`
//! ([`crate::json_text`]). What is said here is how they are put together. A text
//! has a line break, which is empty for text on one line and otherwise is a
//! newline and the indentation of what encloses it.

use vstd::prelude::*;

use crate::format::{law_whole_numbers_read_back, FileNumber, NumberForm};
use crate::json::{
    finite_bits, is_finite_bits, json_ok, lemma_object, Json, JsonNumber, JsonTree,
};
use crate::json_text::{
    compact_text, finite_single, is_finite_single, json_compact, json_pretty, pretty_text,
    single_text, write_single,
};
use crate::save::number_json;
use crate::scene::{
    lemma_child_smaller, lemma_frame_children, mutation_models, node_models, opt_text, Frame,
    FrameModel, Image, ImageModel, ImageSource, Mutation, MutationModel, NodeModel, Scene,
    SceneModel, SceneNode, SourceModel, Text, TextModel,
};
use crate::text::chars_of;

verus! {

/// The line break one level further in.
pub open spec fn inner(line: Seq<char>) -> Seq<char> {
    if line.len() == 0 {
        line
    } else {
        line + "  "@
    }
}

/// Items with a separator between them.
pub open spec fn separated(items: Seq<Seq<char>>, separator: Seq<char>) -> Seq<char>
    decreases items.len(),
{
    if items.len() == 0 {
        Seq::empty()
    } else if items.len() == 1 {
        items[0]
    } else {
        separated(items.drop_last(), separator) + separator + items.last()
    }
}

/// Items between brackets, each on a line of its own where there are lines.
pub open spec fn framed(
    opening: Seq<char>,
    items: Seq<Seq<char>>,
    closing: Seq<char>,
    line: Seq<char>,
) -> Seq<char> {
    if items.len() == 0 {
        opening + closing
    } else {
        opening + inner(line) + separated(items, ","@ + inner(line)) + line + closing
    }
}

/// A string.
pub open spec fn string_text(s: Seq<char>) -> Seq<char> {
    compact_text(JsonTree::Str(s))
}

/// A string that may be missing.
pub open spec fn opt_string_text(s: Option<Seq<char>>) -> Seq<char> {
    match s {
        Some(s) => string_text(s),
        None => "null"@,
    }
}

/// A field with its value.
pub open spec fn field_text(name: Seq<char>, value: Seq<char>, line: Seq<char>) -> Seq<char> {
    if line.len() == 0 {
        string_text(name) + ":"@ + value
    } else {
        string_text(name) + ": "@ + value
    }
}

/// A text with its newlines replaced.
pub open spec fn relined(s: Seq<char>, line: Seq<char>) -> Seq<char>
    decreases s.len(),
{
    if s.len() == 0 {
        Seq::empty()
    } else if s.last() == '\n' {
        relined(s.drop_last(), line) + line
    } else {
        relined(s.drop_last(), line).push(s.last())
    }
}

/// A JSON value. Newlines stand in its indented text only between its parts, so
/// the indentation of what encloses it goes behind each.
pub open spec fn value_text(t: JsonTree, line: Seq<char>) -> Seq<char> {
    if line.len() == 0 {
        compact_text(t)
    } else {
        relined(pretty_text(t), line)
    }
}

/// A number: `null` where it is not finite.
pub open spec fn number_text(n: NumberForm) -> Seq<char> {
    match n {
        NumberForm::Single(bits) => if is_finite_single(bits) {
            single_text(bits)
        } else {
            "null"@
        },
        NumberForm::Double(bits) => if is_finite_bits(bits) {
            compact_text(JsonTree::Number(JsonNumber::Float(bits)))
        } else {
            "null"@
        },
    }
}

/// The components of a colour.
pub open spec fn color_items<C: FileNumber>(c: [C; 4]) -> Seq<Seq<char>> {
    seq![
        number_text(c[0].spec_form()),
        number_text(c[1].spec_form()),
        number_text(c[2].spec_form()),
        number_text(c[3].spec_form()),
    ]
}

/// A colour.
pub open spec fn color_text<C: FileNumber>(c: [C; 4], line: Seq<char>) -> Seq<char> {
    framed("["@, color_items(c), "]"@, line)
}

/// Two fields.
pub open spec fn two_fields(
    first: (Seq<char>, Seq<char>),
    second: (Seq<char>, Seq<char>),
    line: Seq<char>,
) -> Seq<Seq<char>> {
    seq![field_text(first.0, first.1, line), field_text(second.0, second.1, line)]
}

/// A mutation.
pub open spec fn mutation_text(m: MutationModel, line: Seq<char>) -> Seq<char> {
    framed(
        "{"@,
        two_fields(("path"@, string_text(m.path)), ("set"@, string_text(m.set)), line),
        "}"@,
        line,
    )
}

/// Mutations.
pub open spec fn mutations_text(ms: Seq<MutationModel>, line: Seq<char>) -> Seq<char> {
    framed("["@, ms.map_values(|m| mutation_text(m, inner(line))), "]"@, line)
}

/// The source of an image.
pub open spec fn source_text(s: SourceModel, line: Seq<char>) -> Seq<char> {
    match s {
        SourceModel::Url(url) => framed(
            "{"@,
            two_fields(("kind"@, string_text("url"@)), ("url"@, string_text(url)), line),
            "}"@,
            line,
        ),
        SourceModel::Path(path) => framed(
            "{"@,
            two_fields(("kind"@, string_text("path"@)), ("path"@, string_text(path)), line),
            "}"@,
            line,
        ),
    }
}

/// Fields with an author id behind them, where there is one.
pub open spec fn then_id(
    items: Seq<Seq<char>>,
    id: Option<Seq<char>>,
    line: Seq<char>,
) -> Seq<Seq<char>> {
    match id {
        Some(s) => items.push(field_text("id"@, string_text(s), line)),
        None => items,
    }
}

/// Fields with the mutations to run on click behind them, where there are any.
pub open spec fn then_clicks(
    items: Seq<Seq<char>>,
    ms: Seq<MutationModel>,
    line: Seq<char>,
) -> Seq<Seq<char>> {
    if ms.len() == 0 {
        items
    } else {
        items.push(field_text("on_click"@, mutations_text(ms, inner(line)), line))
    }
}

/// Fields with a place and a size behind them.
pub open spec fn then_area<C: FileNumber>(
    items: Seq<Seq<char>>,
    x: C,
    y: C,
    width: C,
    height: C,
    line: Seq<char>,
) -> Seq<Seq<char>> {
    items.push(field_text("x"@, number_text(x.spec_form()), line)).push(
        field_text("y"@, number_text(y.spec_form()), line),
    ).push(field_text("width"@, number_text(width.spec_form()), line)).push(
        field_text("height"@, number_text(height.spec_form()), line),
    )
}

/// The kind, the id and the label of a node.
pub open spec fn head_items(
    kind: Seq<char>,
    id: Option<Seq<char>>,
    label: Seq<char>,
    line: Seq<char>,
) -> Seq<Seq<char>> {
    then_id(seq![field_text("type"@, string_text(kind), line)], id, line).push(
        field_text("label"@, string_text(label), line),
    )
}

/// The fields of a frame with the text of its children.
pub open spec fn frame_items<C: FileNumber>(
    f: FrameModel<C>,
    children: Seq<char>,
    line: Seq<char>,
) -> Seq<Seq<char>> {
    let head = head_items("Frame"@, f.id, f.label, line).push(
        field_text("background_color"@, color_text(f.background_color, inner(line)), line),
    );
    then_clicks(
        then_area(head, f.x, f.y, f.width, f.height, line).push(
            field_text("children"@, children, line),
        ),
        f.on_click,
        line,
    )
}

/// The fields of a text.
pub open spec fn text_items<C: FileNumber>(t: TextModel<C>, line: Seq<char>) -> Seq<Seq<char>> {
    let head = head_items("Text"@, t.id, t.label, line).push(
        field_text("content"@, string_text(t.content), line),
    ).push(field_text("font_size"@, number_text(t.font_size.spec_form()), line)).push(
        field_text("color"@, color_text(t.color, inner(line)), line),
    );
    then_clicks(then_area(head, t.x, t.y, t.width, t.height, line), t.on_click, line)
}

/// The fields of an image.
pub open spec fn image_items<C: FileNumber>(i: ImageModel<C>, line: Seq<char>) -> Seq<Seq<char>> {
    let head = head_items("Image"@, i.id, i.label, line).push(
        field_text("source"@, source_text(i.source, inner(line)), line),
    ).push(field_text("alt"@, opt_string_text(i.alt), line));
    then_clicks(then_area(head, i.x, i.y, i.width, i.height, line), i.on_click, line)
}

/// The fields of a choice with the texts of its branches.
pub open spec fn condition_items(
    when: Seq<char>,
    on_true: Seq<char>,
    on_false: Seq<char>,
    line: Seq<char>,
) -> Seq<Seq<char>> {
    seq![
        field_text("type"@, string_text("Condition"@), line),
        field_text("when"@, string_text(when), line),
        field_text("then"@, on_true, line),
        field_text("else"@, on_false, line),
    ]
}

/// The text of a node. An id that is missing and mutations of which there are
/// none are left out.
pub open spec fn node_text<C: FileNumber>(n: NodeModel<C>, line: Seq<char>) -> Seq<char>
    decreases n, 1nat,
{
    match n {
        NodeModel::Frame(f) => {
            let below = inner(line);
            let children = framed("["@, nodes_text(f.children, inner(below)), "]"@, below);
            framed("{"@, frame_items(f, children, line), "}"@, line)
        },
        NodeModel::Text(t) => framed("{"@, text_items(t, line), "}"@, line),
        NodeModel::Image(i) => framed("{"@, image_items(i, line), "}"@, line),
        NodeModel::Condition { when, on_true, on_false } => framed(
            "{"@,
            condition_items(
                when,
                node_text(*on_true, inner(line)),
                match on_false {
                    Some(e) => node_text(*e, inner(line)),
                    None => "null"@,
                },
                line,
            ),
            "}"@,
            line,
        ),
    }
}

/// The texts of nodes.
pub open spec fn nodes_text<C: FileNumber>(ns: Seq<NodeModel<C>>, line: Seq<char>) -> Seq<
    Seq<char>,
>
    decreases ns, 0nat,
{
    if ns.len() == 0 {
        Seq::empty()
    } else {
        nodes_text(ns.drop_last(), line).push(node_text(ns.last(), line))
    }
}

/// The text of a scene: its state with its root.
pub open spec fn scene_text<C: FileNumber>(s: SceneModel<C>, line: Seq<char>) -> Seq<char> {
    framed(
        "{"@,
        two_fields(
            ("state"@, value_text(JsonTree::Object(s.state), inner(line))),
            ("root"@, node_text(s.root, inner(line))),
            line,
        ),
        "}"@,
        line,
    )
}

/// The texts of a list of strings.
pub open spec fn texts_of(s: Seq<String>) -> Seq<Seq<char>> {
    Seq::new(s.len(), |i: int| s[i]@)
}

/// No items.
fn no_items() -> (r: Vec<String>)
    ensures
        texts_of(r@) == Seq::<Seq<char>>::empty(),
{
    let r: Vec<String> = Vec::new();
    assert(texts_of(r@) =~= Seq::<Seq<char>>::empty());
    r
}

/// Add an item.
fn add_item(items: &mut Vec<String>, item: String)
    ensures
        texts_of(final(items)@) == texts_of(old(items)@).push(item@),
{
    items.push(item);
    assert(texts_of(items@) =~= texts_of(old(items)@).push(item@));
}

/// The line break one level further in.
fn line_inside(line: &str) -> (r: String)
    ensures
        r@ == inner(line@),
{
    if is_one_line(line) {
        line.to_owned()
    } else {
        line.to_owned().concat("  ")
    }
}

/// Whether a line break is empty.
fn is_one_line(line: &str) -> (r: bool)
    ensures
        r == (line@.len() == 0),
{
    chars_of(line).len() == 0
}

/// Put items between brackets.
fn put_in_frame(opening: &str, items: &Vec<String>, closing: &str, line: &str) -> (r: String)
    ensures
        r@ == framed(opening@, texts_of(items@), closing@, line@),
{
    if items.len() == 0 {
        return opening.to_owned().concat(closing);
    }
    let ghost texts = texts_of(items@);
    let break_inside = line_inside(line);
    let separator = ",".to_owned().concat(break_inside.as_str());
    let mut joined = items[0].clone();
    let mut i: usize = 1;
    assert(texts.take(1) =~= seq![items@[0]@]);
    while i < items.len()
        invariant
            texts == texts_of(items@),
            1 <= i <= items@.len(),
            joined@ == separated(texts.take(i as int), separator@),
        decreases items@.len() - i,
    {
        joined = joined.concat(separator.as_str()).concat(items[i].as_str());
        proof {
            assert(texts.take(i + 1).drop_last() =~= texts.take(i as int));
            assert(texts.take(i + 1).last() == items@[i as int]@);
        }
        i = i + 1;
    }
    assert(texts.take(i as int) =~= texts);
    opening.to_owned().concat(break_inside.as_str()).concat(joined.as_str()).concat(line).concat(
        closing,
    )
}

/// Write a string.
fn write_string(s: &str) -> (r: String)
    ensures
        r@ == string_text(s@),
{
    json_compact(&Json::String(s.to_owned()))
}

/// Write a string that may be missing.
fn write_opt_string(s: &Option<String>) -> (r: String)
    ensures
        r@ == opt_string_text(opt_text(*s)),
{
    match s {
        Some(s) => write_string(s.as_str()),
        None => "null".to_owned(),
    }
}

/// Write a field.
fn write_field(name: &str, value: String, line: &str) -> (r: String)
    ensures
        r@ == field_text(name@, value@, line@),
{
    let name = write_string(name);
    if is_one_line(line) {
        name.concat(":").concat(value.as_str())
    } else {
        name.concat(": ").concat(value.as_str())
    }
}

/// Add a field.
fn add_field(items: &mut Vec<String>, name: &str, value: String, line: &str)
    ensures
        texts_of(final(items)@) == texts_of(old(items)@).push(field_text(name@, value@, line@)),
{
    add_item(items, write_field(name, value, line));
}

/// Write an object of two fields.
fn write_two_fields(
    first: (&str, String),
    second: (&str, String),
    line: &str,
) -> (r: String)
    ensures
        r@ == framed(
            "{"@,
            two_fields((first.0@, first.1@), (second.0@, second.1@), line@),
            "}"@,
            line@,
        ),
{
    let ghost want = two_fields((first.0@, first.1@), (second.0@, second.1@), line@);
    let mut items = no_items();
    add_field(&mut items, first.0, first.1, line);
    add_field(&mut items, second.0, second.1, line);
    assert(texts_of(items@) =~= want);
    put_in_frame("{", &items, "}", line)
}

/// Replace the newlines of a text.
fn reline(s: &str, line: &str) -> (r: String)
    ensures
        r@ == relined(s@, line@),
{
    let chars = chars_of(s);
    let mut out = String::new();
    let mut i: usize = 0;
    assert(s@.take(0) =~= Seq::empty());
    while i < chars.len()
        invariant
            chars@ == s@,
            i <= chars@.len(),
            out@ == relined(s@.take(i as int), line@),
        decreases chars@.len() - i,
    {
        proof {
            assert(s@.take(i + 1).drop_last() =~= s@.take(i as int));
            assert(s@.take(i + 1).last() == chars@[i as int]);
        }
        if chars[i] == '\n' {
            out = out.concat(line);
        } else {
            out.push(chars[i]);
        }
        i = i + 1;
    }
    assert(s@.take(i as int) =~= s@);
    out
}

/// Write a JSON value.
fn write_value(j: &Json, line: &str) -> (r: String)
    requires
        json_ok(j@),
    ensures
        r@ == value_text(j@, line@),
{
    if is_one_line(line) {
        json_compact(j)
    } else {
        reline(json_pretty(j).as_str(), line)
    }
}

/// Write a number.
fn write_number<C: FileNumber>(c: C) -> (r: String)
    ensures
        r@ == number_text(c.spec_form()),
{
    match c.form() {
        NumberForm::Single(bits) => if finite_single(bits) {
            write_single(bits)
        } else {
            "null".to_owned()
        },
        NumberForm::Double(bits) => if finite_bits(bits) {
            json_compact(&Json::Number(JsonNumber::Float(bits)))
        } else {
            "null".to_owned()
        },
    }
}

/// Write a colour.
fn write_color<C: FileNumber>(c: &[C; 4], line: &str) -> (r: String)
    ensures
        r@ == color_text(*c, line@),
{
    let mut items = no_items();
    add_item(&mut items, write_number(c[0]));
    add_item(&mut items, write_number(c[1]));
    add_item(&mut items, write_number(c[2]));
    add_item(&mut items, write_number(c[3]));
    assert(texts_of(items@) =~= color_items(*c));
    put_in_frame("[", &items, "]", line)
}

/// Write a mutation.
fn write_mutation(m: &Mutation, line: &str) -> (r: String)
    ensures
        r@ == mutation_text(m@, line@),
{
    write_two_fields(
        ("path", write_string(m.path.as_str())),
        ("set", write_string(m.set.as_str())),
        line,
    )
}

/// Write mutations.
fn write_mutations(ms: &Vec<Mutation>, line: &str) -> (r: String)
    ensures
        r@ == mutations_text(mutation_models(ms@), line@),
{
    let below = line_inside(line);
    let ghost models = mutation_models(ms@);
    let ghost want = models.map_values(|m| mutation_text(m, inner(line@)));
    let mut items = no_items();
    let mut i: usize = 0;
    assert(want.take(0) =~= Seq::empty());
    while i < ms.len()
        invariant
            below@ == inner(line@),
            models == mutation_models(ms@),
            want == models.map_values(|m| mutation_text(m, inner(line@))),
            i <= ms@.len(),
            texts_of(items@) == want.take(i as int),
        decreases ms@.len() - i,
    {
        add_item(&mut items, write_mutation(&ms[i], below.as_str()));
        proof {
            assert(want[i as int] == mutation_text(models[i as int], inner(line@)));
            assert(want.take(i + 1) =~= want.take(i as int).push(want[i as int]));
        }
        i = i + 1;
    }
    assert(want.take(i as int) =~= want);
    put_in_frame("[", &items, "]", line)
}

/// Write the source of an image.
fn write_source(s: &ImageSource, line: &str) -> (r: String)
    ensures
        r@ == source_text(s@, line@),
{
    match s {
        ImageSource::Url { url } => write_two_fields(
            ("kind", write_string("url")),
            ("url", write_string(url.as_str())),
            line,
        ),
        ImageSource::Path { path } => write_two_fields(
            ("kind", write_string("path")),
            ("path", write_string(path.as_str())),
            line,
        ),
    }
}

/// The kind, the id and the label of a node.
fn write_head(kind: &str, id: &Option<String>, label: &String, line: &str) -> (r: Vec<String>)
    ensures
        texts_of(r@) == head_items(kind@, opt_text(*id), label@, line@),
{
    let mut items = no_items();
    add_field(&mut items, "type", write_string(kind), line);
    if let Some(s) = id {
        add_field(&mut items, "id", write_string(s.as_str()), line);
    }
    add_field(&mut items, "label", write_string(label.as_str()), line);
    items
}

/// Add a place and a size.
fn add_area<C: FileNumber>(items: &mut Vec<String>, x: C, y: C, width: C, height: C, line: &str)
    ensures
        texts_of(final(items)@) == then_area(
            texts_of(old(items)@),
            x,
            y,
            width,
            height,
            line@,
        ),
{
    add_field(items, "x", write_number(x), line);
    add_field(items, "y", write_number(y), line);
    add_field(items, "width", write_number(width), line);
    add_field(items, "height", write_number(height), line);
}

/// Add the mutations to run on click, where there are any.
fn add_clicks(items: &mut Vec<String>, ms: &Vec<Mutation>, line: &str)
    ensures
        texts_of(final(items)@) == then_clicks(
            texts_of(old(items)@),
            mutation_models(ms@),
            line@,
        ),
{
    if ms.len() > 0 {
        let below = line_inside(line);
        add_field(items, "on_click", write_mutations(ms, below.as_str()), line);
    }
}

/// Write a text.
fn write_text<C: FileNumber>(t: &Text<C>, line: &str) -> (r: String)
    ensures
        r@ == framed("{"@, text_items(t@, line@), "}"@, line@),
{
    let below = line_inside(line);
    let mut items = write_head("Text", &t.id, &t.label, line);
    add_field(&mut items, "content", write_string(t.content.as_str()), line);
    add_field(&mut items, "font_size", write_number(t.font_size), line);
    add_field(&mut items, "color", write_color(&t.color, below.as_str()), line);
    add_area(&mut items, t.x, t.y, t.width, t.height, line);
    add_clicks(&mut items, &t.on_click, line);
    put_in_frame("{", &items, "}", line)
}

/// Write an image.
fn write_image<C: FileNumber>(i: &Image<C>, line: &str) -> (r: String)
    ensures
        r@ == framed("{"@, image_items(i@, line@), "}"@, line@),
{
    let below = line_inside(line);
    let mut items = write_head("Image", &i.id, &i.label, line);
    add_field(&mut items, "source", write_source(&i.source, below.as_str()), line);
    add_field(&mut items, "alt", write_opt_string(&i.alt), line);
    add_area(&mut items, i.x, i.y, i.width, i.height, line);
    add_clicks(&mut items, &i.on_click, line);
    put_in_frame("{", &items, "}", line)
}

/// Write a frame whose children are written.
fn write_frame<C: FileNumber>(f: &Frame<C>, children: String, line: &str) -> (r: String)
    ensures
        r@ == framed("{"@, frame_items(f@, children@, line@), "}"@, line@),
{
    let below = line_inside(line);
    let mut items = write_head("Frame", &f.id, &f.label, line);
    let color = write_color(&f.background_color, below.as_str());
    add_field(&mut items, "background_color", color, line);
    add_area(&mut items, f.x, f.y, f.width, f.height, line);
    add_field(&mut items, "children", children, line);
    add_clicks(&mut items, &f.on_click, line);
    put_in_frame("{", &items, "}", line)
}

/// Write a choice whose branches are written.
fn write_condition(when: &str, on_true: String, on_false: String, line: &str) -> (r: String)
    ensures
        r@ == framed(
            "{"@,
            condition_items(when@, on_true@, on_false@, line@),
            "}"@,
            line@,
        ),
{
    let ghost want = condition_items(when@, on_true@, on_false@, line@);
    let mut items = no_items();
    add_field(&mut items, "type", write_string("Condition"), line);
    add_field(&mut items, "when", write_string(when), line);
    add_field(&mut items, "then", on_true, line);
    add_field(&mut items, "else", on_false, line);
    assert(texts_of(items@) =~= want);
    put_in_frame("{", &items, "}", line)
}

/// Write a node.
fn write_node<C: FileNumber>(n: &SceneNode<C>, line: &str) -> (r: String)
    ensures
        r@ == node_text(n@, line@),
    decreases *n,
{
    match n {
        SceneNode::Frame(f) => {
            let below = line_inside(line);
            let further = line_inside(below.as_str());
            let ghost models = f@.children;
            proof {
                lemma_frame_children(*f);
            }
            let mut items = no_items();
            let mut i: usize = 0;
            assert(models.take(0) =~= Seq::empty());
            while i < f.children.len()
                invariant
                    *n == SceneNode::Frame(*f),
                    models == node_models(f.children@),
                    i <= f.children@.len(),
                    texts_of(items@) == nodes_text(models.take(i as int), further@),
                decreases f.children@.len() - i,
            {
                proof {
                    lemma_child_smaller(*f, i as int);
                    assert(models.take(i + 1).drop_last() =~= models.take(i as int));
                    assert(models.take(i + 1).last() == f.children@[i as int]@);
                }
                add_item(&mut items, write_node(&f.children[i], further.as_str()));
                i = i + 1;
            }
            assert(models.take(i as int) =~= models);
            let children = put_in_frame("[", &items, "]", below.as_str());
            write_frame(f, children, line)
        },
        SceneNode::Text(t) => write_text(t, line),
        SceneNode::Image(i) => write_image(i, line),
        SceneNode::Condition(c) => {
            let below = line_inside(line);
            let on_true = write_node(&*c.then_branch, below.as_str());
            let on_false = match &c.else_branch {
                Some(e) => write_node(&**e, below.as_str()),
                None => "null".to_owned(),
            };
            write_condition(c.when.as_str(), on_true, on_false, line)
        },
    }
}

impl Mutation {
    /// The JSON of a mutation, on one line.
    pub fn to_text(&self) -> (r: String)
        ensures
            r@ == mutation_text(self@, ""@),
    {
        write_mutation(self, "")
    }

    /// The JSON of a mutation, indented.
    pub fn to_pretty_text(&self) -> (r: String)
        ensures
            r@ == mutation_text(self@, "\n"@),
    {
        write_mutation(self, "\n")
    }
}

impl<C: FileNumber> SceneNode<C> {
    /// The JSON of a node, on one line.
    pub fn to_text(&self) -> (r: String)
        ensures
            r@ == node_text(self@, ""@),
    {
        write_node(self, "")
    }

    /// The JSON of a node, indented.
    pub fn to_pretty_text(&self) -> (r: String)
        ensures
            r@ == node_text(self@, "\n"@),
    {
        write_node(self, "\n")
    }
}

/// Write a scene.
fn write_scene<C: FileNumber>(s: &Scene<C>, line: &str) -> (r: String)
    requires
        json_ok(JsonTree::Object(s@.state)),
    ensures
        r@ == scene_text(s@, line@),
{
    let below = line_inside(line);
    let state = s.state.clone();
    proof {
        lemma_object(state);
        assert(Json::Object(state)@->Object_0 =~= s@.state);
    }
    write_two_fields(
        ("state", write_value(&Json::Object(state), below.as_str())),
        ("root", write_node(&s.root, below.as_str())),
        line,
    )
}

impl<C: FileNumber> Scene<C> {
    /// The JSON of a scene, on one line.
    pub fn to_text(&self) -> (r: String)
        requires
            json_ok(JsonTree::Object(self@.state)),
        ensures
            r@ == scene_text(self@, ""@),
    {
        write_scene(self, "")
    }

    /// The JSON of a scene, indented.
    pub fn to_pretty_text(&self) -> (r: String)
        requires
            json_ok(JsonTree::Object(self@.state)),
        ensures
            r@ == scene_text(self@, "\n"@),
    {
        write_scene(self, "\n")
    }
}

/// Brackets stand around their items, with a comma behind each but the last, and
/// each on a line of its own, two blanks further in, where there are lines;
/// brackets around nothing stand side by side.
#[verifier::spinoff_prover]
pub proof fn law_items_stand_between_brackets(
    opening: Seq<char>,
    items: Seq<Seq<char>>,
    item: Seq<char>,
    closing: Seq<char>,
    line: Seq<char>,
    body: Seq<char>,
)
    ensures
        framed(opening, Seq::empty(), closing, line) == opening + closing,
        line.len() == 0 ==> framed(opening, seq![item], closing, line) == opening + item + closing,
        line.len() > 0 ==> framed(opening, seq![item], closing, line) == opening + line + "  "@
            + item + line + closing,
        line.len() == 0 && items.len() > 0 && framed(opening, items, closing, line) == body
            + closing ==> framed(opening, items.push(item), closing, line) == body + ","@ + item
            + closing,
        line.len() > 0 && items.len() > 0 && framed(opening, items, closing, line) == body + line
            + closing ==> framed(opening, items.push(item), closing, line) == body + ","@ + line
            + "  "@ + item + line + closing,
{
    let one = seq![item];
    assert(separated(one, ","@ + inner(line)) == item);
    if line.len() == 0 {
        assert(framed(opening, one, closing, line) =~= opening + item + closing);
    } else {
        assert(framed(opening, one, closing, line) =~= opening + line + "  "@ + item + line
            + closing);
    }
    if items.len() > 0 {
        let more = items.push(item);
        let between = ","@ + inner(line);
        let inside = separated(items, between);
        assert(more.drop_last() =~= items);
        assert(separated(more, between) == inside + between + item);
        let start = opening + inner(line) + inside;
        if line.len() == 0 && framed(opening, items, closing, line) == body + closing {
            assert(framed(opening, items, closing, line) =~= start + closing);
            assert(start =~= (start + closing).take(start.len() as int));
            assert(body =~= (body + closing).take(start.len() as int));
            assert(framed(opening, more, closing, line) =~= body + ","@ + item + closing);
        }
        if line.len() > 0 && framed(opening, items, closing, line) == body + line + closing {
            assert(framed(opening, items, closing, line) =~= start + line + closing);
            assert(start =~= (start + line + closing).take(start.len() as int));
            assert(body =~= (body + line + closing).take(start.len() as int));
            assert(framed(opening, more, closing, line) =~= body + ","@ + line + "  "@ + item
                + line + closing);
        }
    }
}

/// Fields as text: a quoted name, a colon with a blank behind it where there are
/// lines, and the value.
pub open spec fn fields_text(pairs: Seq<(Seq<char>, Seq<char>)>, line: Seq<char>) -> Seq<
    Seq<char>,
> {
    Seq::new(
        pairs.len(),
        |i: int|
            compact_text(JsonTree::Str(pairs[i].0)) + (if line.len() == 0 {
                ":"@
            } else {
                ": "@
            }) + pairs[i].1,
    )
}

/// The field of an id, if there is one.
pub open spec fn id_fields(id: Option<Seq<char>>) -> Seq<(Seq<char>, Seq<char>)> {
    match id {
        Some(s) => seq![("id"@, compact_text(JsonTree::Str(s)))],
        None => Seq::empty(),
    }
}

/// The field of the mutations to run on click, if there are any.
pub open spec fn click_fields(ms: Seq<MutationModel>, line: Seq<char>) -> Seq<
    (Seq<char>, Seq<char>),
> {
    if ms.len() > 0 {
        seq![("on_click"@, mutations_text(ms, inner(line)))]
    } else {
        Seq::empty()
    }
}

/// The fields of a text with their values, in the order in which the type declares
/// them.
pub open spec fn text_fields<C: FileNumber>(t: TextModel<C>, line: Seq<char>) -> Seq<
    (Seq<char>, Seq<char>),
> {
    seq![("type"@, compact_text(JsonTree::Str("Text"@)))] + id_fields(t.id) + seq![
        ("label"@, compact_text(JsonTree::Str(t.label))),
        ("content"@, compact_text(JsonTree::Str(t.content))),
        ("font_size"@, number_text(t.font_size.spec_form())),
        ("color"@, color_text(t.color, inner(line))),
        ("x"@, number_text(t.x.spec_form())),
        ("y"@, number_text(t.y.spec_form())),
        ("width"@, number_text(t.width.spec_form())),
        ("height"@, number_text(t.height.spec_form())),
    ] + click_fields(t.on_click, line)
}

/// The fields of an image with their values, in the order in which the type
/// declares them.
pub open spec fn image_fields<C: FileNumber>(i: ImageModel<C>, line: Seq<char>) -> Seq<
    (Seq<char>, Seq<char>),
> {
    let alt = match i.alt {
        Some(s) => compact_text(JsonTree::Str(s)),
        None => "null"@,
    };
    seq![("type"@, compact_text(JsonTree::Str("Image"@)))] + id_fields(i.id) + seq![
        ("label"@, compact_text(JsonTree::Str(i.label))),
        ("source"@, source_text(i.source, inner(line))),
        ("alt"@, alt),
        ("x"@, number_text(i.x.spec_form())),
        ("y"@, number_text(i.y.spec_form())),
        ("width"@, number_text(i.width.spec_form())),
        ("height"@, number_text(i.height.spec_form())),
    ] + click_fields(i.on_click, line)
}

/// The fields of a frame with their values and with the text of its children, in
/// the order in which the type declares them.
pub open spec fn frame_fields<C: FileNumber>(
    f: FrameModel<C>,
    children: Seq<char>,
    line: Seq<char>,
) -> Seq<(Seq<char>, Seq<char>)> {
    seq![("type"@, compact_text(JsonTree::Str("Frame"@)))] + id_fields(f.id) + seq![
        ("label"@, compact_text(JsonTree::Str(f.label))),
        ("background_color"@, color_text(f.background_color, inner(line))),
        ("x"@, number_text(f.x.spec_form())),
        ("y"@, number_text(f.y.spec_form())),
        ("width"@, number_text(f.width.spec_form())),
        ("height"@, number_text(f.height.spec_form())),
        ("children"@, children),
    ] + click_fields(f.on_click, line)
}

/// The text of a node has a field for each field of the node, in the order in which
/// its type declares them; children stand in their order and two levels further in.
/// An id that is missing and mutations of which there are none are left out; an
/// alternative text that is missing is `null`.
pub proof fn law_fields_stand_in_order<C: FileNumber>(
    f: FrameModel<C>,
    t: TextModel<C>,
    i: ImageModel<C>,
    line: Seq<char>,
)
    ensures
        node_text(NodeModel::Frame(f), line) == framed(
            "{"@,
            fields_text(
                frame_fields(
                    f,
                    framed(
                        "["@,
                        f.children.map_values(
                            |n: NodeModel<C>| node_text(n, inner(inner(line))),
                        ),
                        "]"@,
                        inner(line),
                    ),
                    line,
                ),
                line,
            ),
            "}"@,
            line,
        ),
        node_text(NodeModel::Text(t), line) == framed(
            "{"@,
            fields_text(text_fields(t, line), line),
            "}"@,
            line,
        ),
        node_text(NodeModel::Image(i), line) == framed(
            "{"@,
            fields_text(image_fields(i, line), line),
            "}"@,
            line,
        ),
{
    lemma_nodes_one_by_one(f.children, inner(inner(line)));
    let children = framed(
        "["@,
        f.children.map_values(|n: NodeModel<C>| node_text(n, inner(inner(line)))),
        "]"@,
        inner(line),
    );
    lemma_frame_fields(f, children, line);
    lemma_text_fields(t, line);
    lemma_image_fields(i, line);
}

#[verifier::spinoff_prover]
proof fn lemma_frame_fields<C: FileNumber>(
    f: FrameModel<C>,
    children: Seq<char>,
    line: Seq<char>,
)
    ensures
        frame_items(f, children, line) == fields_text(frame_fields(f, children, line), line),
{
    let (items, pairs) = (frame_items(f, children, line), frame_fields(f, children, line));
    if f.id is Some {
        assert(items =~= fields_text(pairs, line));
    } else {
        assert(items =~= fields_text(pairs, line));
    }
}

#[verifier::spinoff_prover]
proof fn lemma_text_fields<C: FileNumber>(t: TextModel<C>, line: Seq<char>)
    ensures
        node_text(NodeModel::Text(t), line) == framed(
            "{"@,
            fields_text(text_fields(t, line), line),
            "}"@,
            line,
        ),
{
    let (items, pairs) = (text_items(t, line), text_fields(t, line));
    if t.id is Some {
        assert(items =~= fields_text(pairs, line));
    } else {
        assert(items =~= fields_text(pairs, line));
    }
}

#[verifier::spinoff_prover]
proof fn lemma_image_fields<C: FileNumber>(i: ImageModel<C>, line: Seq<char>)
    ensures
        node_text(NodeModel::Image(i), line) == framed(
            "{"@,
            fields_text(image_fields(i, line), line),
            "}"@,
            line,
        ),
{
    let (items, pairs) = (image_items(i, line), image_fields(i, line));
    if i.id is Some {
        assert(items =~= fields_text(pairs, line));
    } else {
        assert(items =~= fields_text(pairs, line));
    }
}

/// The texts of nodes are the text of each.
proof fn lemma_nodes_one_by_one<C: FileNumber>(ns: Seq<NodeModel<C>>, line: Seq<char>)
    ensures
        nodes_text(ns, line) == ns.map_values(|n: NodeModel<C>| node_text(n, line)),
    decreases ns.len(),
{
    if ns.len() > 0 {
        lemma_nodes_one_by_one(ns.drop_last(), line);
    }
    assert(nodes_text(ns, line) =~= ns.map_values(|n: NodeModel<C>| node_text(n, line)));
}

/// The text of a mutation, of a source and of a choice has their fields in the
/// order in which their types declare them; a choice without another branch has
/// `null` for it.
#[verifier::spinoff_prover]
pub proof fn law_small_fields_stand_in_order<C: FileNumber>(
    m: MutationModel,
    url: Seq<char>,
    when: Seq<char>,
    on_true: Box<NodeModel<C>>,
    on_false: Option<Box<NodeModel<C>>>,
    line: Seq<char>,
)
    ensures
        mutation_text(m, line) == framed(
            "{"@,
            fields_text(
                seq![
                    ("path"@, compact_text(JsonTree::Str(m.path))),
                    ("set"@, compact_text(JsonTree::Str(m.set))),
                ],
                line,
            ),
            "}"@,
            line,
        ),
        source_text(SourceModel::Url(url), line) == framed(
            "{"@,
            fields_text(
                seq![
                    ("kind"@, compact_text(JsonTree::Str("url"@))),
                    ("url"@, compact_text(JsonTree::Str(url))),
                ],
                line,
            ),
            "}"@,
            line,
        ),
        source_text(SourceModel::Path(url), line) == framed(
            "{"@,
            fields_text(
                seq![
                    ("kind"@, compact_text(JsonTree::Str("path"@))),
                    ("path"@, compact_text(JsonTree::Str(url))),
                ],
                line,
            ),
            "}"@,
            line,
        ),
        ({
            let other = match on_false {
                Some(e) => node_text(*e, inner(line)),
                None => "null"@,
            };
            node_text(NodeModel::Condition { when, on_true, on_false }, line) == framed(
                "{"@,
                fields_text(
                    seq![
                        ("type"@, compact_text(JsonTree::Str("Condition"@))),
                        ("when"@, compact_text(JsonTree::Str(when))),
                        ("then"@, node_text(*on_true, inner(line))),
                        ("else"@, other),
                    ],
                    line,
                ),
                "}"@,
                line,
            )
        }),
{
    lemma_two_fields("path"@, string_text(m.path), "set"@, string_text(m.set), line);
    lemma_two_fields("kind"@, string_text("url"@), "url"@, string_text(url), line);
    lemma_two_fields("kind"@, string_text("path"@), "path"@, string_text(url), line);
    let first = node_text(*on_true, inner(line));
    let second = match on_false {
        Some(e) => node_text(*e, inner(line)),
        None => "null"@,
    };
    assert(condition_items(when, first, second, line) =~= fields_text(
        seq![
            ("type"@, compact_text(JsonTree::Str("Condition"@))),
            ("when"@, compact_text(JsonTree::Str(when))),
            ("then"@, first),
            ("else"@, second),
        ],
        line,
    ));
    let n = NodeModel::Condition { when, on_true, on_false };
    assert(node_text(n, line) == framed(
        "{"@,
        condition_items(when, first, second, line),
        "}"@,
        line,
    ));
}

proof fn lemma_two_fields(
    a: Seq<char>,
    x: Seq<char>,
    b: Seq<char>,
    y: Seq<char>,
    line: Seq<char>,
)
    ensures
        two_fields((a, x), (b, y), line) == fields_text(seq![(a, x), (b, y)], line),
{
    assert(two_fields((a, x), (b, y), line) =~= fields_text(seq![(a, x), (b, y)], line));
}

/// The text of a scene has its state before its root.
pub proof fn law_state_stands_before_root<C: FileNumber>(s: SceneModel<C>, line: Seq<char>)
    ensures
        scene_text(s, line) == framed(
            "{"@,
            fields_text(
                seq![
                    ("state"@, value_text(JsonTree::Object(s.state), inner(line))),
                    ("root"@, node_text(s.root, inner(line))),
                ],
                line,
            ),
            "}"@,
            line,
        ),
{
    lemma_two_fields(
        "state"@,
        value_text(JsonTree::Object(s.state), inner(line)),
        "root"@,
        node_text(s.root, inner(line)),
        line,
    );
}

/// Putting a text on lines further in changes its newlines only, and each on its
/// own.
pub proof fn law_only_newlines_are_put_further_in(a: Seq<char>, b: Seq<char>, line: Seq<char>)
    ensures
        relined(a + b, line) == relined(a, line) + relined(b, line),
        relined(seq!['\n'], line) == line,
        !a.contains('\n') ==> relined(a, line) == a,
    decreases b.len(), a.len(),
{
    if b.len() == 0 {
        assert(a + b =~= a);
        assert(relined(a, line) + relined(b, line) =~= relined(a, line));
    } else {
        law_only_newlines_are_put_further_in(a, b.drop_last(), line);
        assert((a + b).drop_last() =~= a + b.drop_last());
        assert(relined(a + b, line) =~= relined(a, line) + relined(b, line));
    }
    let alone = seq!['\n'];
    assert(alone.drop_last() =~= Seq::empty());
    assert(relined(alone.drop_last(), line) =~= Seq::empty());
    assert(relined(alone, line) =~= line);
    if !a.contains('\n') && a.len() > 0 {
        let shorter = a.drop_last();
        assert(!shorter.contains('\n')) by {
            if shorter.contains('\n') {
                let i = choose|i: int| 0 <= i < shorter.len() && shorter[i] == '\n';
                assert(a[i] == '\n');
            }
        }
        assert(a[a.len() - 1] != '\n');
        law_only_newlines_are_put_further_in(shorter, Seq::empty(), line);
        assert(relined(a, line) =~= a);
    }
}

/// Whole numbers stand in the text of a scene as the numbers of JSON that they are
/// stored as.
pub proof fn law_whole_numbers_are_written_as_stored(n: i32)
    ensures
        number_text(n.spec_form()) == compact_text(number_json(n)),
{
    law_whole_numbers_read_back(n);
}

/// Mutations stand in their order, each one level further in, and a colour is its
/// four components in theirs.
pub proof fn law_lists_are_written_in_order<C: FileNumber>(
    ms: Seq<MutationModel>,
    c: [C; 4],
    line: Seq<char>,
)
    ensures
        mutations_text(ms, line) == framed(
            "["@,
            Seq::new(ms.len(), |i: int| mutation_text(ms[i], inner(line))),
            "]"@,
            line,
        ),
        color_text(c, line) == framed(
            "["@,
            Seq::new(4, |i: int| number_text(c[i].spec_form())),
            "]"@,
            line,
        ),
{
    assert(ms.map_values(|m| mutation_text(m, inner(line))) =~= Seq::new(
        ms.len(),
        |i: int| mutation_text(ms[i], inner(line)),
    ));
    assert(color_items(c) =~= Seq::new(4, |i: int| number_text(c[i].spec_form())));
}

/// A number that is not finite is written as `null`, in either precision; a double
/// that is finite as the number of JSON that it is.
pub proof fn law_only_finite_numbers_are_written(single: u32, double: u64)
    ensures
        (single / 0x80_0000) % 0x100 == 0xff ==> number_text(NumberForm::Single(single)) == "null"@,
        (single / 0x80_0000) % 0x100 != 0xff ==> number_text(NumberForm::Single(single))
            == single_text(single),
        (double / 0x10_0000_0000_0000) % 0x800 == 0x7ff ==> number_text(NumberForm::Double(double))
            == "null"@,
        (double / 0x10_0000_0000_0000) % 0x800 != 0x7ff ==> number_text(NumberForm::Double(double))
            == compact_text(JsonTree::Number(JsonNumber::Float(double))),
{
}

} // verus!
