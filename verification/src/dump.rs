//! The accessibility dump of a scene: its tree as JSON, for inspection from
//! outside.

use vstd::prelude::*;

use crate::ax::{image_label, pick_image_label, window_title};
use crate::coord::Coord;
use crate::flat::{anonymous, anonymous_in_all, flat, flattened, head, FlatModel, KindModel};
use crate::json::{
    finite_bits, is_finite_bits, json_ok, lemma_array, lemma_object, trees_of, Json, JsonNumber,
    JsonTree,
};
use crate::json_text::{json_pretty, parse_json, parsed_json, pretty_text};
use crate::number::{int_text, signed_text};
use crate::order::{lemma_child_part, lemma_place, node_on, place_on};
use crate::save::{number_json, opt_text_json};
use crate::scene::{
    is_plain, lemma_child_smaller, lemma_frame_children, opt_text, NodeModel, SceneNode,
};
use crate::strmap::StrMap;

verus! {

/// A coordinate as a JSON number; one that is not finite is `null`.
pub open spec fn coord_json<C: Coord>(c: C) -> JsonTree {
    if is_finite_bits(c.spec_double_bits()) {
        JsonTree::Number(JsonNumber::Float(c.spec_double_bits()))
    } else {
        JsonTree::Null
    }
}

/// An optional id.
pub open spec fn id_json(id: Option<Seq<char>>) -> JsonTree {
    match id {
        Some(s) => JsonTree::Str(s),
        None => JsonTree::Null,
    }
}

/// The edges of the rectangle at `(x, y)`.
pub open spec fn bounds_json<C: Coord>(x: C, y: C, width: C, height: C) -> JsonTree {
    JsonTree::Object(
        Map::<Seq<char>, JsonTree>::empty().insert("x0"@, coord_json(x)).insert(
            "y0"@,
            coord_json(y),
        ).insert("x1"@, coord_json(x.spec_plus(width))).insert(
            "y1"@,
            coord_json(y.spec_plus(height)),
        ),
    )
}

/// What is written of every node.
pub open spec fn entry_json(
    role: Seq<char>,
    label: Seq<char>,
    id: Option<Seq<char>>,
    bounds: JsonTree,
) -> Map<Seq<char>, JsonTree> {
    Map::<Seq<char>, JsonTree>::empty().insert("role"@, JsonTree::Str(role)).insert(
        "label"@,
        JsonTree::Str(label),
    ).insert("id"@, id_json(id)).insert("bounds"@, bounds)
}

/// The dump of a node below the point `(px, py)`.
pub open spec fn node_json<C: Coord>(n: NodeModel<C>, px: C, py: C) -> JsonTree
    decreases n,
{
    match n {
        NodeModel::Frame(f) => {
            let (x, y) = (px.spec_plus(f.x), py.spec_plus(f.y));
            JsonTree::Object(
                entry_json(
                    "generic_container"@,
                    f.label,
                    f.id,
                    bounds_json(x, y, f.width, f.height),
                ).insert(
                    "children"@,
                    JsonTree::Array(
                        Seq::new(
                            f.children.len(),
                            |i: int|
                                if 0 <= i < f.children.len() {
                                    node_json(f.children[i], x, y)
                                } else {
                                    JsonTree::Null
                                },
                        ),
                    ),
                ),
            )
        },
        NodeModel::Text(t) => JsonTree::Object(
            entry_json(
                "static_text"@,
                t.content,
                t.id,
                bounds_json(px.spec_plus(t.x), py.spec_plus(t.y), t.width, t.height),
            ),
        ),
        NodeModel::Image(i) => JsonTree::Object(
            entry_json(
                "image"@,
                image_label(i.alt, i.label),
                i.id,
                bounds_json(px.spec_plus(i.x), py.spec_plus(i.y), i.width, i.height),
            ),
        ),
        NodeModel::Condition { .. } => JsonTree::Null,
    }
}

/// The dump of a scene in the process `pid`: the window, and the scene in it.
pub open spec fn dump_json<C: Coord>(scene: NodeModel<C>, pid: u32) -> JsonTree {
    JsonTree::Object(
        Map::<Seq<char>, JsonTree>::empty().insert(
            "pid"@,
            JsonTree::Number(JsonNumber::PosInt(pid as u64)),
        ).insert("source"@, JsonTree::Str("app-native AccessKit dump"@)).insert(
            "root"@,
            JsonTree::Object(
                Map::<Seq<char>, JsonTree>::empty().insert(
                    "role"@,
                    JsonTree::Str("window"@),
                ).insert("label"@, JsonTree::Str(window_title())).insert(
                    "children"@,
                    JsonTree::Array(seq![node_json(scene, C::spec_zero(), C::spec_zero())]),
                ),
            ),
        ),
    )
}

/// An object with one more well-formed member is well formed.
proof fn lemma_member_ok(m: Map<Seq<char>, JsonTree>, k: Seq<char>, v: JsonTree)
    requires
        json_ok(JsonTree::Object(m)),
        json_ok(v),
    ensures
        json_ok(JsonTree::Object(m.insert(k, v))),
{
    let all = m.insert(k, v);
    assert forall|q: Seq<char>| all.contains_key(q) implies json_ok(#[trigger] all[q]) by {
        if q != k {
            assert(json_ok(JsonTree::Object(m)->Object_0[q]));
        }
    }
}

/// Add a member to an object.
fn put(m: &mut StrMap<Json>, key: &str, value: Json)
    requires
        json_ok(JsonTree::Object(trees_of(old(m)@))),
        json_ok(value@),
    ensures
        trees_of(final(m)@) == trees_of(old(m)@).insert(key@, value@),
        json_ok(JsonTree::Object(trees_of(final(m)@))),
{
    proof {
        lemma_member_ok(trees_of(m@), key@, value@);
    }
    m.insert(key.to_owned(), value);
    assert(trees_of(m@) =~= trees_of(old(m)@).insert(key@, value@));
}

/// An object without members.
fn no_members() -> (r: StrMap<Json>)
    ensures
        trees_of(r@) == Map::<Seq<char>, JsonTree>::empty(),
        json_ok(JsonTree::Object(trees_of(r@))),
{
    let r: StrMap<Json> = StrMap::new();
    assert(trees_of(r@) =~= Map::<Seq<char>, JsonTree>::empty());
    r
}

/// The object of these members.
fn object(m: StrMap<Json>) -> (r: Json)
    ensures
        r@ == JsonTree::Object(trees_of(m@)),
{
    proof {
        lemma_object(m);
    }
    Json::Object(m)
}

/// A coordinate as a JSON number.
fn coord_to_json<C: Coord>(c: C) -> (r: Json)
    ensures
        r@ == coord_json(c),
        json_ok(r@),
{
    let bits = c.double_bits();
    if finite_bits(bits) {
        Json::Number(JsonNumber::Float(bits))
    } else {
        Json::Null
    }
}

/// What is written of every node.
fn entry<C: Coord>(
    role: &str,
    label: &str,
    id: &Option<String>,
    x: C,
    y: C,
    width: C,
    height: C,
) -> (r: StrMap<Json>)
    ensures
        trees_of(r@) == entry_json(role@, label@, opt_text(*id), bounds_json(x, y, width, height)),
        json_ok(JsonTree::Object(trees_of(r@))),
{
    let mut bounds = no_members();
    put(&mut bounds, "x0", coord_to_json(x));
    put(&mut bounds, "y0", coord_to_json(y));
    put(&mut bounds, "x1", coord_to_json(x.plus(width)));
    put(&mut bounds, "y1", coord_to_json(y.plus(height)));
    let mut r = no_members();
    put(&mut r, "role", Json::String(role.to_owned()));
    put(&mut r, "label", Json::String(label.to_owned()));
    let id_value = match id {
        Some(s) => Json::String(s.clone()),
        None => Json::Null,
    };
    put(&mut r, "id", id_value);
    put(&mut r, "bounds", object(bounds));
    r
}

/// The dump of a node below the point `(parent_x, parent_y)`.
fn scene_to_json<C: Coord>(node: &SceneNode<C>, parent_x: C, parent_y: C) -> (r: Json)
    requires
        is_plain(node@),
    ensures
        r@ == node_json(node@, parent_x, parent_y),
        json_ok(r@),
    decreases node,
{
    match node {
        SceneNode::Frame(f) => {
            let x = parent_x.plus(f.x);
            let y = parent_y.plus(f.y);
            let mut children: Vec<Json> = Vec::new();
            let mut i: usize = 0;
            proof {
                lemma_frame_children(*f);
            }
            while i < f.children.len()
                invariant
                    *node == SceneNode::Frame(*f),
                    is_plain(node@),
                    node@->Frame_0.children.len() == f.children@.len(),
                    forall|j: int|
                        0 <= j < f.children@.len() ==> node@->Frame_0.children[j]
                            == (#[trigger] f.children@[j])@,
                    i <= f.children@.len(),
                    children@.len() == i,
                    forall|j: int|
                        0 <= j < i ==> (#[trigger] children@[j])@ == node_json(
                            f.children@[j]@,
                            x,
                            y,
                        ) && json_ok(children@[j]@),
                decreases f.children@.len() - i,
            {
                proof {
                    lemma_child_smaller(*f, i as int);
                    assert(is_plain(node@->Frame_0.children[i as int]));
                }
                let child = scene_to_json(&f.children[i], x, y);
                children.push(child);
                i = i + 1;
            }
            let label = f.label.as_str();
            let mut r = entry("generic_container", label, &f.id, x, y, f.width, f.height);
            proof {
                let want = node_json(node@, parent_x, parent_y)->Object_0["children"@]->Array_0;
                lemma_array(children, want);
                assert forall|j: int| 0 <= j < want.len() implies json_ok(#[trigger] want[j]) by {
                    assert(children@[j]@ == want[j]);
                }
            }
            put(&mut r, "children", Json::Array(children));
            object(r)
        },
        SceneNode::Text(t) => object(
            entry(
                "static_text",
                t.content.as_str(),
                &t.id,
                parent_x.plus(t.x),
                parent_y.plus(t.y),
                t.width,
                t.height,
            ),
        ),
        SceneNode::Image(i) => object(
            entry(
                "image",
                pick_image_label(&i.alt, &i.label),
                &i.id,
                parent_x.plus(i.x),
                parent_y.plus(i.y),
                i.width,
                i.height,
            ),
        ),
        SceneNode::Condition(_) => Json::Null,
    }
}

/// The dump of a scene in the process `pid`.
pub fn ax_dump<C: Coord>(scene: &SceneNode<C>, pid: u32) -> (r: Json)
    requires
        is_plain(scene@),
    ensures
        r@ == dump_json(scene@, pid),
        json_ok(r@),
{
    let mut children: Vec<Json> = Vec::new();
    children.push(scene_to_json(scene, C::zero(), C::zero()));
    proof {
        let want = seq![node_json(scene@, C::spec_zero(), C::spec_zero())];
        lemma_array(children, want);
        assert forall|j: int| 0 <= j < want.len() implies json_ok(#[trigger] want[j]) by {
            assert(children@[j]@ == want[j]);
        }
    }
    let mut root = no_members();
    put(&mut root, "role", Json::String("window".to_owned()));
    put(&mut root, "label", Json::String("sdui".to_owned()));
    put(&mut root, "children", Json::Array(children));
    let mut doc = no_members();
    put(&mut doc, "pid", Json::Number(JsonNumber::PosInt(pid as u64)));
    put(&mut doc, "source", Json::String("app-native AccessKit dump".to_owned()));
    put(&mut doc, "root", object(root));
    object(doc)
}

/// The text of the dump file of a scene.
pub fn ax_dump_text<C: Coord>(scene: &SceneNode<C>, pid: u32) -> (r: String)
    requires
        is_plain(scene@),
    ensures
        r@ == pretty_text(dump_json(scene@, pid)),
{
    json_pretty(&ax_dump(scene, pid))
}

/// The name of the dump file of the process `pid`.
pub fn dump_file_name(pid: i64) -> (r: String)
    ensures
        r@ == "ax-dump-"@ + int_text(pid as int) + ".json"@,
{
    "ax-dump-".to_owned().concat(signed_text(pid).as_str()).concat(".json")
}

/// The text that shows a dump file: the file's JSON, indented, or the error
/// that it is no JSON.
pub fn inspect_dump(contents: &str) -> (r: Result<String, String>)
    ensures
        match r {
            Ok(text) => parsed_json(contents@) is Ok && text@ == pretty_text(
                parsed_json(contents@)->Ok_0,
            ),
            Err(e) => parsed_json(contents@) == Err::<JsonTree, Seq<char>>(e@),
        },
{
    match parse_json(contents) {
        Ok(doc) => Ok(json_pretty(&doc)),
        Err(e) => Err(e),
    }
}

/// The entry of a dump to which a way down its children leads.
pub open spec fn entry_on(t: JsonTree, way: Seq<int>) -> Option<JsonTree>
    decreases way.len(),
{
    if way.len() == 0 {
        Some(t)
    } else {
        match t {
            JsonTree::Object(m) => match m["children"@] {
                JsonTree::Array(items) => if 0 <= way[0] < items.len() {
                    entry_on(items[way[0]], way.drop_first())
                } else {
                    None
                },
                _ => None,
            },
            _ => None,
        }
    }
}

/// The names of the members of an entry are different.
proof fn lemma_entry_names()
    ensures
        "role"@.len() == 4,
        "label"@.len() == 5,
        "id"@.len() == 2,
        "bounds"@.len() == 6,
        "children"@.len() == 8,
        "x0"@.len() == 2,
        "x0"@[0] == 'x' && "x0"@[1] == '0',
        "y0"@.len() == 2,
        "y0"@[0] == 'y' && "y0"@[1] == '0',
        "x1"@.len() == 2,
        "x1"@[0] == 'x' && "x1"@[1] == '1',
        "y1"@.len() == 2,
        "y1"@[0] == 'y' && "y1"@[1] == '1',
        "pid"@.len() == 3,
        "source"@.len() == 6,
        "root"@.len() == 4,
{
    reveal_strlit("role");
    reveal_strlit("label");
    reveal_strlit("id");
    reveal_strlit("bounds");
    reveal_strlit("children");
    reveal_strlit("x0");
    reveal_strlit("y0");
    reveal_strlit("x1");
    reveal_strlit("y1");
    reveal_strlit("pid");
    reveal_strlit("source");
    reveal_strlit("root");
}

/// An entry tells of the flattened node: its kind, what it is called, the id that
/// its author gave it, and its edges, each `null` where it is not finite.
pub open spec fn tells_of<C: Coord>(t: JsonTree, n: FlatModel<C>) -> bool {
    t matches JsonTree::Object(m) && {
        &&& m["role"@] == match n.kind {
            KindModel::Frame { .. } => JsonTree::Str("generic_container"@),
            KindModel::Text { .. } => JsonTree::Str("static_text"@),
            KindModel::Image { .. } => JsonTree::Str("image"@),
        }
        &&& m["label"@] == match n.kind {
            KindModel::Frame { .. } => JsonTree::Str(n.label),
            KindModel::Text { content, .. } => JsonTree::Str(content),
            KindModel::Image { alt: Some(alt), .. } => JsonTree::Str(alt),
            KindModel::Image { alt: None, .. } => JsonTree::Str(n.label),
        }
        &&& m["id"@] == match n.author_id {
            Some(id) => JsonTree::Str(id),
            None => JsonTree::Null,
        }
        &&& m["bounds"@] matches JsonTree::Object(b) && {
            &&& b["x0"@] == crate::save::number_json(n.abs_x)
            &&& b["y0"@] == crate::save::number_json(n.abs_y)
            &&& b["x1"@] == crate::save::number_json(n.abs_x.spec_plus(n.width))
            &&& b["y1"@] == crate::save::number_json(n.abs_y.spec_plus(n.height))
        }
        &&& n.kind is Frame ==> m["children"@] is Array && m["children"@]->Array_0.len()
            == n.child_ids.len()
        &&& n.kind !is Frame ==> !m.contains_key("children"@)
    }
}

proof fn lemma_entry_tells<C: Coord>(n: NodeModel<C>, px: C, py: C, next: nat, way: Seq<int>)
    requires
        is_plain(n),
        node_on(n, way) is Some,
    ensures
        entry_on(node_json(n, px, py), way) matches Some(t) && tells_of(
            t,
            flat(n, px, py, next)[place_on(n, way) as int],
        ),
    decreases way.len(),
{
    lemma_entry_names();
    if way.len() > 0 {
        let f = n->Frame_0;
        let k = way[0];
        let rest = way.drop_first();
        let (x, y) = (px.spec_plus(f.x), py.spec_plus(f.y));
        let start = next + anonymous(n) + anonymous_in_all(f.children.take(k));
        assert(is_plain(f.children[k]));
        let items = node_json(n, px, py)->Object_0["children"@]->Array_0;
        assert(items[k] == node_json(f.children[k], x, y));
        lemma_entry_tells(f.children[k], x, y, start, rest);
        lemma_place(f.children[k], x, y, start, rest);
        lemma_child_part(f, px, py, next, k, place_on(f.children[k], rest) as int);
    } else {
        let t = node_json(n, px, py);
        let m = flat(n, px, py, next)[0];
        assert(m == head(n, px, py, next));
        match n {
            NodeModel::Frame(f) => {
                assert(t->Object_0["bounds"@] == bounds_json(m.abs_x, m.abs_y, f.width, f.height));
            },
            NodeModel::Text(u) => {
                assert(t->Object_0["bounds"@] == bounds_json(m.abs_x, m.abs_y, u.width, u.height));
            },
            NodeModel::Image(i) => {
                assert(t->Object_0["bounds"@] == bounds_json(m.abs_x, m.abs_y, i.width, i.height));
            },
            _ => {},
        }
    }
}

/// The dump tells of every node what the flattened scene holds of it: the entry
/// to which a way leads tells of the node to which the same way leads, in
/// absolute coordinates, at every depth.
pub proof fn law_the_dump_tells_of_every_node<C: Coord>(scene: NodeModel<C>, way: Seq<int>)
    requires
        is_plain(scene),
        node_on(scene, way) is Some,
    ensures
        entry_on(node_json(scene, C::spec_zero(), C::spec_zero()), way) matches Some(t)
            && tells_of(t, flattened(scene)[place_on(scene, way) as int]),
{
    lemma_entry_tells(scene, C::spec_zero(), C::spec_zero(), 1, way);
}

/// The dump names the process, and holds a window with the scene in it.
pub proof fn law_the_dump_holds_the_scene<C: Coord>(scene: NodeModel<C>, pid: u32)
    ensures
        dump_json(scene, pid) matches JsonTree::Object(m) && {
            &&& m["pid"@] == JsonTree::Number(JsonNumber::PosInt(pid as u64))
            &&& m["source"@] == JsonTree::Str("app-native AccessKit dump"@)
            &&& m["root"@] matches JsonTree::Object(w) && {
                &&& w["role"@] == JsonTree::Str("window"@)
                &&& w["label"@] == JsonTree::Str("sdui"@)
                &&& w["children"@] == JsonTree::Array(
                    seq![node_json(scene, C::spec_zero(), C::spec_zero())],
                )
            }
        },
{
    lemma_entry_names();
}

/// Numbers and ids stand in a dump as they do in a scene file: a number that is not
/// finite, and an id that is missing, are `null`.
pub proof fn law_dumps_hold_numbers_as_files_do<C: Coord>(c: C, id: Option<Seq<char>>)
    ensures
        coord_json(c) == number_json(c),
        id_json(id) == opt_text_json(id),
        coord_json(c) is Null <==> !is_finite_bits(c.spec_double_bits()),
        id_json(id) is Null <==> id is None,
{
}

} // verus!
